//! Merging a translation sheet into the store.
use std::collections::BTreeMap;
use vstd::prelude::*;
use crate::json_data::{contains_id, contains_text, lang_model, store_model, texts,
    values_model, DataRootTranslations, EntryModel, Project, Translation};
use crate::key_map::KeyMap;
use crate::text::{blank, is_blank};

verus! {

broadcast use vstd::std_specs::btree::group_btree_axioms, vstd::laws_cmp::group_laws_cmp;

/// The keys that a merge added, updated and ignored.
pub struct ImportResult {
    pub added: Vec<String>,
    pub updated: Vec<String>,
    pub ignored: Vec<String>,
}

/// A language column of the sheet is not one of the project's languages.
#[derive(Debug, Clone, Copy)]
pub struct InvalidLanguageError;

impl InvalidLanguageError {
    /// The error as a line of text.
    pub fn message(&self) -> (r: String)
        ensures
            r@ == "invalid language in file"@,
    {
        String::from_str("invalid language in file")
    }
}

/// A language column that the merge writes: its tag and its column.
struct Lang {
    name: String,
    column: usize,
}

/// A sheet as text: rows of cells.
pub open spec fn sheet_model(rows: Seq<Vec<String>>) -> Seq<Seq<Seq<char>>> {
    rows.map_values(|r: Vec<String>| texts(r@))
}

/// The text of column `c` of `row`; a missing cell reads as empty.
pub open spec fn cell(row: Seq<Seq<char>>, c: int) -> Seq<char> {
    if 0 <= c < row.len() {
        row[c]
    } else {
        Seq::empty()
    }
}

/// The columns after the first whose header is one of `langs`, in header
/// order, each with its tag.
pub open spec fn active_columns(header: Seq<Seq<char>>, langs: Seq<Seq<char>>) -> Seq<
    (Seq<char>, int),
>
    decreases header.len(),
{
    if header.len() <= 1 {
        Seq::empty()
    } else {
        let c = header.len() - 1;
        let prev = active_columns(header.drop_last(), langs);
        if langs.contains(header[c]) {
            prev.push((header[c], c))
        } else {
            prev
        }
    }
}

/// Some column after the first names a language that is not in `langs`.
pub open spec fn header_rejected(header: Seq<Seq<char>>, langs: Seq<Seq<char>>) -> bool {
    exists|c: int| 1 <= c < header.len() && !langs.contains(#[trigger] header[c])
}

/// The store and the three lists while a merge runs.
pub struct MergeModel {
    pub store: Map<Seq<char>, EntryModel>,
    pub added: Seq<Seq<char>>,
    pub updated: Seq<Seq<char>>,
    pub ignored: Seq<Seq<char>>,
}

/// `list` with `key` at its end, unless it holds it already.
pub open spec fn noted(list: Seq<Seq<char>>, key: Seq<char>) -> Seq<Seq<char>> {
    if list.contains(key) {
        list
    } else {
        list.push(key)
    }
}

/// `e` with `value` written for project `pid` and language `lang`.
pub open spec fn written(e: EntryModel, pid: u16, lang: Seq<char>, value: Seq<char>) -> EntryModel {
    let langs = if e.values.contains_key(pid) {
        e.values[pid]
    } else {
        Map::empty()
    };
    EntryModel {
        projects: if e.projects.contains(pid) {
            e.projects
        } else {
            e.projects.push(pid)
        },
        values: e.values.insert(pid, langs.insert(lang, value)),
    }
}

/// A new entry used by project `pid`, with one value.
pub open spec fn new_entry(pid: u16, lang: Seq<char>, value: Seq<char>) -> EntryModel {
    EntryModel {
        projects: seq![pid],
        values: Map::empty().insert(pid, Map::empty().insert(lang, value)),
    }
}

/// One cell: `value` for `key` in language `lang`.
pub open spec fn merge_cell(
    s: MergeModel,
    key: Seq<char>,
    lang: Seq<char>,
    value: Seq<char>,
    pid: u16,
    ignore_unknown: bool,
) -> MergeModel {
    if s.store.contains_key(key) {
        MergeModel {
            store: s.store.insert(key, written(s.store[key], pid, lang, value)),
            added: s.added,
            updated: if s.added.contains(key) {
                s.updated
            } else {
                noted(s.updated, key)
            },
            ignored: s.ignored,
        }
    } else if !ignore_unknown {
        MergeModel {
            store: s.store.insert(key, new_entry(pid, lang, value)),
            added: noted(s.added, key),
            updated: s.updated,
            ignored: s.ignored,
        }
    } else {
        MergeModel {
            store: s.store,
            added: s.added,
            updated: s.updated,
            ignored: noted(s.ignored, key),
        }
    }
}

/// The first `n` language columns of a row whose key is `row[0]`.
pub open spec fn merge_cells(
    s: MergeModel,
    row: Seq<Seq<char>>,
    cols: Seq<(Seq<char>, int)>,
    n: int,
    pid: u16,
    ignore_unknown: bool,
) -> MergeModel
    decreases n,
{
    if n <= 0 {
        s
    } else {
        let prev = merge_cells(s, row, cols, n - 1, pid, ignore_unknown);
        merge_cell(prev, cell(row, 0), cols[n - 1].0, cell(row, cols[n - 1].1), pid, ignore_unknown)
    }
}

/// One data row; a row with a blank key changes nothing.
pub open spec fn merge_row(
    s: MergeModel,
    row: Seq<Seq<char>>,
    cols: Seq<(Seq<char>, int)>,
    pid: u16,
    ignore_unknown: bool,
) -> MergeModel {
    if is_blank(cell(row, 0)) {
        s
    } else {
        merge_cells(s, row, cols, cols.len() as int, pid, ignore_unknown)
    }
}

/// The data rows, first to last.
pub open spec fn merge_rows(
    s: MergeModel,
    rows: Seq<Seq<Seq<char>>>,
    cols: Seq<(Seq<char>, int)>,
    pid: u16,
    ignore_unknown: bool,
) -> MergeModel
    decreases rows.len(),
{
    if rows.len() == 0 {
        s
    } else {
        merge_row(
            merge_rows(s, rows.drop_last(), cols, pid, ignore_unknown),
            rows.last(),
            cols,
            pid,
            ignore_unknown,
        )
    }
}

/// What merging `sheet` into `store` for the project `pid` with languages
/// `langs` gives: `None` where the header is refused.
pub open spec fn merge_outcome(
    sheet: Seq<Seq<Seq<char>>>,
    store: Map<Seq<char>, EntryModel>,
    langs: Seq<Seq<char>>,
    pid: u16,
    ignore_unknown: bool,
) -> Option<MergeModel> {
    let start = MergeModel {
        store: store,
        added: Seq::empty(),
        updated: Seq::empty(),
        ignored: Seq::empty(),
    };
    if sheet.len() == 0 {
        Some(start)
    } else if !ignore_unknown && header_rejected(sheet[0], langs) {
        None
    } else {
        Some(merge_rows(start, sheet.drop_first(), active_columns(sheet[0], langs), pid, ignore_unknown))
    }
}

impl ImportResult {
    /// The added, updated and ignored keys as text.
    pub open spec fn lists(&self) -> (Seq<Seq<char>>, Seq<Seq<char>>, Seq<Seq<char>>) {
        (texts(self.added@), texts(self.updated@), texts(self.ignored@))
    }
}

/// Puts `key` at the end of `list`, unless it holds it already.
fn add_result(key: String, list: &mut Vec<String>)
    ensures
        texts(final(list)@) == noted(texts(old(list)@), key@),
{
    if !contains_text(list, &key) {
        list.push(key);
        assert(texts(list@) =~= texts(old(list)@).push(key@));
    }
}

/// Writes `value` for project `project_id` and language `lang` into the
/// entry of `key`, and marks the key as used by the project.
fn update_key_value(
    data_root: &mut DataRootTranslations,
    project_id: u16,
    key: &String,
    lang: &String,
    value: String,
)
    requires
        old(data_root)@.contains_key(key@),
    ensures
        store_model(*final(data_root)) == store_model(*old(data_root)).insert(
            key@,
            written(store_model(*old(data_root))[key@], project_id, lang@, value@),
        ),
{
    let ghost before = store_model(*data_root);
    if let Some(mut t) = data_root.remove(key.as_str()) {
        let ghost e = t@;
        assert(e == before[key@]);
        if !contains_id(&t.projects, project_id) {
            t.projects.push(project_id);
        }
        let mut langs = match t.values.remove(&project_id) {
            Some(m) => m,
            None => KeyMap::new(),
        };
        let ghost old_langs = if e.values.contains_key(project_id) {
            e.values[project_id]
        } else {
            Map::empty()
        };
        assert(lang_model(langs) =~= old_langs);
        langs.insert(lang.clone(), value);
        assert(lang_model(langs) =~= old_langs.insert(lang@, value@));
        t.values.insert(project_id, langs);
        assert(values_model(t.values) =~= e.values.insert(project_id, old_langs.insert(lang@, value@)));
        assert(t@ == written(e, project_id, lang@, value@));
        data_root.insert(key.clone(), t);
        assert(store_model(*data_root) =~= before.insert(key@, written(e, project_id, lang@, value@)));
    }
}

/// Adds `key` to the store with one value, used by project `project_id`.
fn add_new_key(
    data_root: &mut DataRootTranslations,
    project_id: u16,
    key: String,
    lang: &String,
    value: String,
)
    ensures
        store_model(*final(data_root)) == store_model(*old(data_root)).insert(
            key@,
            new_entry(project_id, lang@, value@),
        ),
{
    let ghost before = store_model(*data_root);
    let ghost k = key@;
    let mut values_lang_map = KeyMap::new();
    values_lang_map.insert(lang.clone(), value);
    let mut values_map = BTreeMap::new();
    values_map.insert(project_id, values_lang_map);
    let value_node = Translation { projects: vec![project_id], values: values_map };
    assert(lang_model(values_lang_map) =~= Map::empty().insert(lang@, value@));
    assert(values_model(value_node.values) =~= Map::empty().insert(
        project_id,
        Map::empty().insert(lang@, value@),
    ));
    assert(value_node@.projects =~= seq![project_id]);
    data_root.insert(key, value_node);
    assert(store_model(*data_root) =~= before.insert(k, new_entry(project_id, lang@, value@)));
}

/// The merge state that the store and the lists stand for.
pub open spec fn current(store: DataRootTranslations, result: ImportResult) -> MergeModel {
    MergeModel {
        store: store_model(store),
        added: result.lists().0,
        updated: result.lists().1,
        ignored: result.lists().2,
    }
}

spec fn lang_view(l: Seq<Lang>) -> Seq<(Seq<char>, int)> {
    l.map_values(|x: Lang| (x.name@, x.column as int))
}

/// Merges one cell: `value` for `key` in language `lang`.
fn merge_value(
    data_root: &mut DataRootTranslations,
    result: &mut ImportResult,
    key: &String,
    lang: &String,
    value: String,
    project_id: u16,
    ignore_unknown: bool,
)
    ensures
        current(*final(data_root), *final(result)) == merge_cell(
            current(*old(data_root), *old(result)),
            key@,
            lang@,
            value@,
            project_id,
            ignore_unknown,
        ),
{
    if data_root.contains_key(key.as_str()) {
        update_key_value(data_root, project_id, key, lang, value);
        if !contains_text(&result.added, key) {
            add_result(key.clone(), &mut result.updated);
        }
    } else if !ignore_unknown {
        add_new_key(data_root, project_id, key.clone(), lang, value);
        add_result(key.clone(), &mut result.added);
    } else {
        add_result(key.clone(), &mut result.ignored);
    }
}

/// Merges the rows of a sheet into the store for `project`. The first row
/// is the header: its first cell is ignored, and each other cell names the
/// language of its column. Each later row holds a key and its values; a row
/// whose key is blank is skipped, and a missing cell reads as empty.
///
/// With `ignore_unknown` false, a header that names a language the project
/// does not have fails the merge before anything is written, and a key that
/// the store lacks is added. With `ignore_unknown` true, such columns are
/// passed over and such keys are listed as ignored without being written.
pub fn import_excel(
    rows: &Vec<Vec<String>>,
    data_root: &mut DataRootTranslations,
    project: &Project,
    ignore_unknown: bool,
) -> (r: Result<ImportResult, InvalidLanguageError>)
    ensures
        r is Err <==> (rows@.len() > 0 && !ignore_unknown && header_rejected(
            texts(rows@[0]@),
            texts(project.langs@),
        )),
        match merge_outcome(
            sheet_model(rows@),
            store_model(*old(data_root)),
            texts(project.langs@),
            project.id,
            ignore_unknown,
        ) {
            None => r is Err && final(data_root)@ == old(data_root)@,
            Some(m) => {
                &&& r is Ok
                &&& r->Ok_0.lists() == (m.added, m.updated, m.ignored)
                &&& store_model(*final(data_root)) == m.store
            },
        },
{
    let ghost sheet = sheet_model(rows@);
    let ghost langs = texts(project.langs@);
    let mut result = ImportResult { added: Vec::new(), updated: Vec::new(), ignored: Vec::new() };
    let ghost start = current(*data_root, result);
    assert(start.added =~= Seq::<Seq<char>>::empty());
    assert(start.updated =~= Seq::<Seq<char>>::empty());
    assert(start.ignored =~= Seq::<Seq<char>>::empty());
    if rows.len() == 0 {
        return Ok(result);
    }
    let header = &rows[0];
    let ghost h = texts(header@);
    assert(sheet[0] == h);
    let n = header.len();
    let mut lang_list: Vec<Lang> = Vec::new();
    let mut column: usize = 1;
    while column < n
        invariant
            1 <= column,
            column <= n || n == 0,
            n == header.len(),
            h == texts(header@),
            header@ == rows@[0]@,
            rows@.len() > 0,
            sheet == sheet_model(rows@),
            sheet[0] == h,
            langs == texts(project.langs@),
            lang_view(lang_list@) == if n == 0 {
                Seq::empty()
            } else {
                active_columns(h.take(column as int), langs)
            },
            !ignore_unknown ==> forall|c: int| 1 <= c < column ==> langs.contains(#[trigger] h[c]),
            *data_root == *old(data_root),
        decreases n - column,
    {
        let ghost prev = lang_list@;
        assert(h.take(column + 1).drop_last() =~= h.take(column as int));
        assert(h[column as int] == header@[column as int]@);
        assert(h.take(column + 1)[column as int] == h[column as int]);
        if contains_text(&project.langs, &header[column]) {
            lang_list.push(Lang { name: header[column].clone(), column });
            assert(lang_view(lang_list@) =~= lang_view(prev).push((h[column as int], column as int)));
        } else if !ignore_unknown {
            assert(!langs.contains(h[column as int]));
            assert(header_rejected(h, langs));
            return Err(InvalidLanguageError);
        }
        column = column + 1;
    }
    assert(n > 0 ==> h.take(column as int) =~= h);
    let ghost cols = active_columns(h, langs);
    assert(lang_view(lang_list@) == cols);
    let ghost body = sheet.drop_first();
    let mut r: usize = 1;
    assert(body.take(0) =~= Seq::<Seq<Seq<char>>>::empty());
    while r < rows.len()
        invariant
            1 <= r <= rows.len(),
            sheet == sheet_model(rows@),
            body == sheet.drop_first(),
            lang_view(lang_list@) == cols,
            current(*data_root, result) == merge_rows(
                start,
                body.take(r - 1),
                cols,
                project.id,
                ignore_unknown,
            ),
        decreases rows.len() - r,
    {
        let row = &rows[r];
        let ghost rv = texts(row@);
        assert(body.take(r as int).drop_last() =~= body.take(r - 1));
        assert(body.take(r as int).last() == rv);
        let ghost before = current(*data_root, result);
        if row.len() > 0 && !blank(row[0].as_str()) {
            let key = &row[0];
            let mut i: usize = 0;
            while i < lang_list.len()
                invariant
                    i <= lang_list.len(),
                    lang_view(lang_list@) == cols,
                    rv == texts(row@),
                    row.len() > 0,
                    key@ == cell(rv, 0),
                    current(*data_root, result) == merge_cells(
                        before,
                        rv,
                        cols,
                        i as int,
                        project.id,
                        ignore_unknown,
                    ),
                decreases lang_list.len() - i,
            {
                let lang = &lang_list[i];
                let value = if lang.column < row.len() {
                    row[lang.column].clone()
                } else {
                    String::new()
                };
                assert(value@ == cell(rv, cols[i as int].1));
                merge_value(data_root, &mut result, key, &lang.name, value, project.id, ignore_unknown);
                i = i + 1;
            }
        }
        r = r + 1;
    }
    assert(body.take(r - 1) =~= body);
    Ok(result)
}

} // verus!
