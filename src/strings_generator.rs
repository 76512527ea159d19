//! Export of one project's strings, per language, in ascending key order.
use vstd::prelude::*;
use crate::ios_generator::TranslationsIOS;
use crate::json_data::{contains_id, store_model, DataRootTranslations, EntryModel, Project};
use crate::keys::{key_less, lemma_key_less_transitive, strictly_sorted};

verus! {

/// Something that renders a bundle of strings as the text of one file.
pub trait Generator {
    /// The text that `render` gives.
    spec fn text(&self) -> Seq<char>;

    /// The name of the file that the text goes to.
    spec fn name(&self) -> Seq<char>;

    fn file_name(&self) -> (r: String)
        ensures
            r@ == self.name(),
    ;

    fn render(&self) -> (r: String)
        ensures
            r@ == self.text(),
    ;
}

/// The target platforms of an export.
#[derive(Clone, Copy, Debug)]
pub enum StringsGeneratorType {
    Ios,
    Android,
}

/// One exported string.
pub struct TranslationOut {
    pub key: String,
    pub value: String,
}

/// Exported strings as (key, value) text pairs.
pub open spec fn pairs(v: Seq<TranslationOut>) -> Seq<(Seq<char>, Seq<char>)> {
    v.map_values(|t: TranslationOut| (t.key@, t.value@))
}

/// What a key exports: its value for the project and language, or else
/// the key itself.
pub open spec fn exported_value(key: Seq<char>, e: EntryModel, pid: u16, lang: Seq<char>) -> Seq<
    char,
> {
    if e.values.contains_key(pid) && e.values[pid].contains_key(lang) {
        e.values[pid][lang]
    } else {
        key
    }
}

/// The pairs that keys `ks`, in their order, export for the project `pid`
/// and language `lang`: one for each key that the project uses.
pub open spec fn export_pairs(
    ks: Seq<Seq<char>>,
    store: Map<Seq<char>, EntryModel>,
    pid: u16,
    lang: Seq<char>,
) -> Seq<(Seq<char>, Seq<char>)>
    decreases ks.len(),
{
    if ks.len() == 0 {
        Seq::empty()
    } else {
        let prev = export_pairs(ks.drop_last(), store, pid, lang);
        let k = ks.last();
        if store[k].projects.contains(pid) {
            prev.push((k, exported_value(k, store[k], pid, lang)))
        } else {
            prev
        }
    }
}

/// Keys in ascending order export pairs in ascending key order, one for
/// each key that the project uses, with its value or, failing that, the key.
pub proof fn lemma_export_pairs(
    ks: Seq<Seq<char>>,
    store: Map<Seq<char>, EntryModel>,
    pid: u16,
    lang: Seq<char>,
)
    requires
        strictly_sorted(ks),
    ensures
        ({
            let p = export_pairs(ks, store, pid, lang);
            &&& forall|a: int, b: int| 0 <= a < b < p.len() ==> key_less(#[trigger] p[a].0, #[trigger] p[b].0)
            &&& forall|a: int|
                0 <= a < p.len() ==> {
                    &&& ks.contains(#[trigger] p[a].0)
                    &&& store[p[a].0].projects.contains(pid)
                    &&& p[a].1 == exported_value(p[a].0, store[p[a].0], pid, lang)
                }
            &&& forall|j: int|
                0 <= j < ks.len() && store[#[trigger] ks[j]].projects.contains(pid) ==> exists|a: int|
                    0 <= a < p.len() && p[a].0 == ks[j]
        }),
    decreases ks.len(),
{
    if ks.len() > 0 {
        let rest = ks.drop_last();
        assert(strictly_sorted(rest)) by {
            assert forall|i: int, j: int| 0 <= i < j < rest.len() implies #[trigger] key_less(rest[i], rest[j]) by {
                assert(key_less(ks[i], ks[j]));
            }
        }
        lemma_export_pairs(rest, store, pid, lang);
        let prev = export_pairs(rest, store, pid, lang);
        let p = export_pairs(ks, store, pid, lang);
        let k = ks.last();
        assert forall|a: int| 0 <= a < prev.len() implies ks.contains(#[trigger] prev[a].0) && key_less(prev[a].0, k) by {
            let j = choose|j: int| 0 <= j < rest.len() && rest[j] == prev[a].0;
            assert(ks[j] == prev[a].0);
            assert(key_less(ks[j], ks[ks.len() - 1]));
        }
        assert forall|j: int| 0 <= j < ks.len() && store[#[trigger] ks[j]].projects.contains(pid) implies exists|a: int|
            0 <= a < p.len() && p[a].0 == ks[j] by {
            if j < ks.len() - 1 {
                assert(rest[j] == ks[j]);
                let a = choose|a: int| 0 <= a < prev.len() && prev[a].0 == rest[j];
                assert(p[a] == prev[a]);
            } else {
                assert(p[p.len() - 1].0 == ks[j]);
            }
        }
    }
}

/// The strings that the project `project_id` exports in language `lang`:
/// each key that the project uses, in ascending order, with its value in
/// that language, or the key itself where it has none.
pub fn prepare_strings(
    export_type: StringsGeneratorType,
    data: &DataRootTranslations,
    project_id: &u16,
    lang: String,
) -> (r: Vec<TranslationOut>)
    ensures
        pairs(r@) == export_pairs(data.key_seq(), store_model(*data), *project_id, lang@),
        forall|a: int, b: int| 0 <= a < b < r.len() ==> key_less(#[trigger] r@[a].key@, #[trigger] r@[b].key@),
        forall|k: Seq<char>|
            (exists|a: int| 0 <= a < r.len() && #[trigger] r@[a].key@ == k) <==> (
            store_model(*data).contains_key(k) && store_model(*data)[k].projects.contains(*project_id)),
        forall|a: int|
            0 <= a < r.len() ==> #[trigger] r@[a].value@ == exported_value(
                r@[a].key@,
                store_model(*data)[r@[a].key@],
                *project_id,
                lang@,
            ),
{
    let ghost store = store_model(*data);
    let ghost ks = data.key_seq();
    let pid = *project_id;
    let mut translations: Vec<TranslationOut> = Vec::new();
    let n = data.len();
    let mut i: usize = 0;
    while i < n
        invariant
            n == ks.len(),
            ks == data.key_seq(),
            store == store_model(*data),
            forall|k: Seq<char>| data@.contains_key(k) <==> ks.contains(k),
            i <= n,
            pairs(translations@) == export_pairs(ks.take(i as int), store, pid, lang@),
        decreases n - i,
    {
        let (key, t) = data.entry(i);
        assert(ks.take(i + 1).drop_last() =~= ks.take(i as int));
        assert(ks.take(i + 1).last() == key@);
        assert(t@ == store[key@]);
        if contains_id(&t.projects, pid) {
            let value = match t.values.get(&pid) {
                Some(m) => match m.get(lang.as_str()) {
                    Some(v) => v.clone(),
                    None => key.clone(),
                },
                None => key.clone(),
            };
            let ghost prev = translations@;
            translations.push(TranslationOut { key: key.clone(), value });
            assert(pairs(translations@) =~= pairs(prev).push((key@, exported_value(key@, store[key@], pid, lang@))));
        }
        i = i + 1;
    }
    assert(ks.take(n as int) =~= ks);
    proof {
        lemma_export_pairs(ks, store, pid, lang@);
        let p = pairs(translations@);
        assert forall|a: int| 0 <= a < translations.len() implies #[trigger] translations@[a].key@ == p[a].0
            && translations@[a].value@ == p[a].1 by {}
        assert forall|k: Seq<char>|
            (exists|a: int| 0 <= a < translations.len() && #[trigger] translations@[a].key@ == k) <==> (
            store.contains_key(k) && store[k].projects.contains(pid)) by {
            if store.contains_key(k) && store[k].projects.contains(pid) {
                assert(data@.contains_key(k));
                assert(ks.contains(k));
                let j = choose|j: int| 0 <= j < ks.len() && ks[j] == k;
                let a = choose|a: int| 0 <= a < p.len() && p[a].0 == ks[j];
                assert(translations@[a].key@ == k);
            }
            if exists|a: int| 0 <= a < translations.len() && #[trigger] translations@[a].key@ == k {
                let a = choose|a: int| 0 <= a < translations.len() && #[trigger] translations@[a].key@ == k;
                assert(ks.contains(p[a].0));
            }
        }
    }
    translations
}

/// The bundles that an export of `project` gives: for iOS one per language
/// of the project, in the project's order; none for Android.
pub fn generate_strings(
    export_type: StringsGeneratorType,
    data: &DataRootTranslations,
    project: &Project,
) -> (r: Vec<TranslationsIOS>)
    ensures
        match export_type {
            StringsGeneratorType::Ios => {
                &&& r.len() == project.langs.len()
                &&& forall|i: int|
                    0 <= i < r.len() ==> {
                        &&& #[trigger] r@[i].lang@ == project.langs@[i]@
                        &&& pairs(r@[i].translations@) == export_pairs(
                            data.key_seq(),
                            store_model(*data),
                            project.id,
                            project.langs@[i]@,
                        )
                    }
            },
            StringsGeneratorType::Android => r.len() == 0,
        },
{
    let mut out: Vec<TranslationsIOS> = Vec::new();
    let mut i: usize = 0;
    while i < project.langs.len()
        invariant
            i <= project.langs.len(),
            match export_type {
                StringsGeneratorType::Ios => {
                    &&& out.len() == i
                    &&& forall|j: int|
                        0 <= j < i ==> {
                            &&& #[trigger] out@[j].lang@ == project.langs@[j]@
                            &&& pairs(out@[j].translations@) == export_pairs(
                                data.key_seq(),
                                store_model(*data),
                                project.id,
                                project.langs@[j]@,
                            )
                        }
                },
                StringsGeneratorType::Android => out.len() == 0,
            },
        decreases project.langs.len() - i,
    {
        let lang = &project.langs[i];
        let strings = prepare_strings(export_type, data, &project.id, lang.clone());
        match export_type {
            StringsGeneratorType::Ios => {
                out.push(TranslationsIOS { lang: lang.clone(), translations: strings });
            },
            StringsGeneratorType::Android => {},
        }
        i = i + 1;
    }
    out
}

} // verus!
