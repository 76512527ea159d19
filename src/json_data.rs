//! The translation store: projects, and for each key the projects that use it
//! and its values per project and language.
use std::cmp::Ordering;
use std::collections::BTreeMap;
use vstd::prelude::*;
use crate::key_map::KeyMap;
use crate::keys::compare_keys;

verus! {

broadcast use vstd::std_specs::btree::group_btree_axioms, vstd::laws_cmp::group_laws_cmp;

/// A target application with the language tags it supports.
pub struct Project {
    pub id: u16,
    pub name: String,
    pub langs: Vec<String>,
    pub default_lang: String,
}

/// What the store holds for one key.
pub struct Translation {
    /// The projects that use the key.
    pub projects: Vec<u16>,
    /// Per project, the value of the key in each language.
    pub values: BTreeMap<u16, KeyMap<String>>,
}

/// All keys of the store, each with its entry, in ascending key order.
pub type DataRootTranslations = KeyMap<Translation>;

/// The whole store.
pub struct DataRoot {
    pub projects: Vec<Project>,
    pub translations: DataRootTranslations,
}

/// An entry of the store as plain values.
pub struct EntryModel {
    pub projects: Seq<u16>,
    pub values: Map<u16, Map<Seq<char>, Seq<char>>>,
}

/// Language tag to value, as plain text.
pub open spec fn lang_model(m: KeyMap<String>) -> Map<Seq<char>, Seq<char>> {
    m@.map_values(|s: String| s@)
}

pub open spec fn values_model(values: BTreeMap<u16, KeyMap<String>>) -> Map<
    u16,
    Map<Seq<char>, Seq<char>>,
> {
    values@.map_values(|m: KeyMap<String>| lang_model(m))
}

impl View for Translation {
    type V = EntryModel;

    open spec fn view(&self) -> EntryModel {
        EntryModel { projects: self.projects@, values: values_model(self.values) }
    }
}

/// The store as a map from keys to entries.
pub open spec fn store_model(t: DataRootTranslations) -> Map<Seq<char>, EntryModel> {
    t@.map_values(|e: Translation| e@)
}

/// The text of each string, in order.
pub open spec fn texts(v: Seq<String>) -> Seq<Seq<char>> {
    v.map_values(|s: String| s@)
}

/// Whether `list` holds `id`.
pub fn contains_id(list: &Vec<u16>, id: u16) -> (r: bool)
    ensures
        r == list@.contains(id),
{
    let mut i: usize = 0;
    while i < list.len()
        invariant
            i <= list.len(),
            forall|j: int| 0 <= j < i ==> list@[j] != id,
        decreases list.len() - i,
    {
        if list[i] == id {
            return true;
        }
        i = i + 1;
    }
    false
}

/// Whether `list` holds a string with the text of `s`.
pub fn contains_text(list: &Vec<String>, s: &String) -> (r: bool)
    ensures
        r == texts(list@).contains(s@),
{
    let mut i: usize = 0;
    while i < list.len()
        invariant
            i <= list.len(),
            forall|j: int| 0 <= j < i ==> list@[j]@ != s@,
        decreases list.len() - i,
    {
        if list[i] == *s {
            assert(texts(list@)[i as int] == s@);
            return true;
        }
        i = i + 1;
    }
    proof {
        if texts(list@).contains(s@) {
            let j = choose|j: int| 0 <= j < list.len() && texts(list@)[j] == s@;
            assert(list@[j]@ == s@);
        }
    }
    false
}

/// A starter store: one project in English and Polish, and one key with a
/// value in each of them.
pub fn generate_template() -> (r: DataRoot)
    ensures
        r.projects@.len() == 1,
        r.projects@[0].id == 1,
        r.projects@[0].name@ == "TestProject"@,
        texts(r.projects@[0].langs@) == seq!["en-US"@, "pl-PL"@],
        r.projects@[0].default_lang@ == "en-US"@,
        store_model(r.translations) == map![
            "app.title"@ => (EntryModel {
                projects: seq![1u16],
                values: map![1u16 => map!["en-US"@ => "Hello World!"@, "pl-PL"@ => "Witaj \u{c5}\u{203a}wiecie!"@]],
            }),
        ],
{
    let project = Project {
        id: 1,
        langs: vec![String::from_str("en-US"), String::from_str("pl-PL")],
        name: String::from_str("TestProject"),
        default_lang: String::from_str("en-US"),
    };
    assert(texts(project.langs@) =~= seq!["en-US"@, "pl-PL"@]);
    let mut values_lang_map = KeyMap::new();
    values_lang_map.insert(String::from_str("en-US"), String::from_str("Hello World!"));
    values_lang_map.insert(String::from_str("pl-PL"), String::from_str("Witaj \u{c5}\u{203a}wiecie!"));
    assert(lang_model(values_lang_map) =~= map!["en-US"@ => "Hello World!"@, "pl-PL"@ => "Witaj \u{c5}\u{203a}wiecie!"@]);
    let mut values_map = BTreeMap::new();
    values_map.insert(1u16, values_lang_map);
    let translation = Translation { projects: vec![1u16], values: values_map };
    assert(translation@.projects =~= seq![1u16]);
    assert(values_model(translation.values) =~= map![1u16 => lang_model(values_lang_map)]);
    let mut keys_map = KeyMap::new();
    keys_map.insert(String::from_str("app.title"), translation);
    let ghost e = translation@;
    assert(store_model(keys_map) =~= map!["app.title"@ => e]);
    DataRoot { projects: vec![project], translations: keys_map }
}

/// Where the first project called `name` stands, if any is.
pub fn find_project(projects: &Vec<Project>, name: &str) -> (r: Option<usize>)
    ensures
        match r {
            Some(i) => {
                &&& i < projects.len()
                &&& projects@[i as int].name@ == name@
                &&& forall|j: int| 0 <= j < i ==> #[trigger] projects@[j].name@ != name@
            },
            None => forall|j: int| 0 <= j < projects.len() ==> #[trigger] projects@[j].name@ != name@,
        },
{
    let mut i: usize = 0;
    while i < projects.len()
        invariant
            i <= projects.len(),
            forall|j: int| 0 <= j < i ==> #[trigger] projects@[j].name@ != name@,
        decreases projects.len() - i,
    {
        if let Ordering::Equal = compare_keys(projects[i].name.as_str(), name) {
            return Some(i);
        }
        i = i + 1;
    }
    None
}

} // verus!
