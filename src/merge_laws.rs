//! What every merge guarantees, proved of the merge as `merge_outcome`
//! states it, which is what `import_excel` does.
use vstd::prelude::*;
use crate::excel_reader::{active_columns, cell, merge_cell, merge_cells, merge_outcome,
    merge_row, merge_rows, noted, MergeModel};
use crate::json_data::EntryModel;
use crate::text::is_blank;

verus! {

/// What holds all through a merge that started from a store with keys `old_keys`.
pub open spec fn merge_inv(old_keys: Set<Seq<char>>, s: MergeModel, ignore_unknown: bool) -> bool {
    &&& old_keys.subset_of(s.store.dom())
    &&& forall|k: Seq<char>|
        #[trigger] s.added.contains(k) <==> (s.store.contains_key(k) && !old_keys.contains(k))
    &&& forall|k: Seq<char>|
        #[trigger] s.updated.contains(k) ==> (s.store.contains_key(k) && old_keys.contains(k))
    &&& forall|k: Seq<char>| #[trigger] s.ignored.contains(k) ==> !s.store.contains_key(k)
    &&& ignore_unknown ==> s.store.dom() == old_keys
    &&& !ignore_unknown ==> s.ignored.len() == 0
    &&& s.added.no_duplicates()
    &&& s.updated.no_duplicates()
    &&& s.ignored.no_duplicates()
}

/// `t` came from `s` without losing a key from the store or a list.
pub open spec fn grows(s: MergeModel, t: MergeModel) -> bool {
    &&& s.store.dom().subset_of(t.store.dom())
    &&& forall|k: Seq<char>| s.added.contains(k) ==> #[trigger] t.added.contains(k)
    &&& forall|k: Seq<char>| s.updated.contains(k) ==> #[trigger] t.updated.contains(k)
    &&& forall|k: Seq<char>| s.ignored.contains(k) ==> #[trigger] t.ignored.contains(k)
}

/// `key` stands in the list where a merge puts a key that it touched.
pub open spec fn placed(old_keys: Set<Seq<char>>, s: MergeModel, key: Seq<char>, ignore_unknown: bool) -> bool {
    if old_keys.contains(key) {
        s.updated.contains(key)
    } else if !ignore_unknown {
        s.added.contains(key)
    } else {
        s.ignored.contains(key)
    }
}

proof fn lemma_noted(list: Seq<Seq<char>>, key: Seq<char>)
    requires
        list.no_duplicates(),
    ensures
        noted(list, key).no_duplicates(),
        noted(list, key).contains(key),
        forall|k: Seq<char>| #[trigger] noted(list, key).contains(k) <==> (list.contains(k) || k == key),
{
    let n = noted(list, key);
    if !list.contains(key) {
        assert(n[list.len() as int] == key);
        assert forall|k: Seq<char>| #[trigger] n.contains(k) implies (list.contains(k) || k == key) by {
            let i = choose|i: int| 0 <= i < n.len() && n[i] == k;
            if i < list.len() {
                assert(list[i] == k);
            }
        }
        assert forall|k: Seq<char>| list.contains(k) implies #[trigger] n.contains(k) by {
            let i = choose|i: int| 0 <= i < list.len() && list[i] == k;
            assert(n[i] == k);
        }
    }
}

proof fn lemma_cell(
    old_keys: Set<Seq<char>>,
    s: MergeModel,
    key: Seq<char>,
    lang: Seq<char>,
    value: Seq<char>,
    pid: u16,
    ignore_unknown: bool,
)
    requires
        merge_inv(old_keys, s, ignore_unknown),
    ensures
        ({
            let t = merge_cell(s, key, lang, value, pid, ignore_unknown);
            &&& merge_inv(old_keys, t, ignore_unknown)
            &&& grows(s, t)
            &&& placed(old_keys, t, key, ignore_unknown)
        }),
{
    let t = merge_cell(s, key, lang, value, pid, ignore_unknown);
    lemma_noted(s.added, key);
    lemma_noted(s.updated, key);
    lemma_noted(s.ignored, key);
    if s.store.contains_key(key) {
        assert(t.store.dom() =~= s.store.dom());
        assert(!s.added.contains(key) ==> old_keys.contains(key));
        assert(merge_inv(old_keys, t, ignore_unknown));
        assert(grows(s, t));
        assert(placed(old_keys, t, key, ignore_unknown));
    } else if !ignore_unknown {
        assert(!old_keys.contains(key));
        assert(t.store.dom() =~= s.store.dom().insert(key));
        assert forall|k: Seq<char>| #[trigger] t.added.contains(k) <==> (t.store.contains_key(k) && !old_keys.contains(k)) by {
            if k != key {
                assert(t.store.contains_key(k) == s.store.contains_key(k));
            }
        }
        assert(merge_inv(old_keys, t, ignore_unknown));
        assert(grows(s, t));
    } else {
        assert(!old_keys.contains(key));
        assert(merge_inv(old_keys, t, ignore_unknown));
        assert(grows(s, t));
    }
}

proof fn lemma_cells(
    old_keys: Set<Seq<char>>,
    s: MergeModel,
    row: Seq<Seq<char>>,
    cols: Seq<(Seq<char>, int)>,
    n: int,
    pid: u16,
    ignore_unknown: bool,
)
    requires
        merge_inv(old_keys, s, ignore_unknown),
        n <= cols.len(),
    ensures
        ({
            let t = merge_cells(s, row, cols, n, pid, ignore_unknown);
            &&& merge_inv(old_keys, t, ignore_unknown)
            &&& grows(s, t)
            &&& n > 0 ==> placed(old_keys, t, cell(row, 0), ignore_unknown)
        }),
    decreases n,
{
    if n > 0 {
        lemma_cells(old_keys, s, row, cols, n - 1, pid, ignore_unknown);
        let prev = merge_cells(s, row, cols, n - 1, pid, ignore_unknown);
        lemma_cell(old_keys, prev, cell(row, 0), cols[n - 1].0, cell(row, cols[n - 1].1), pid, ignore_unknown);
    }
}

proof fn lemma_grows_placed(old_keys: Set<Seq<char>>, s: MergeModel, t: MergeModel, key: Seq<char>, ignore_unknown: bool)
    requires
        grows(s, t),
        placed(old_keys, s, key, ignore_unknown),
    ensures
        placed(old_keys, t, key, ignore_unknown),
{
}

proof fn lemma_rows(
    old_keys: Set<Seq<char>>,
    s: MergeModel,
    rows: Seq<Seq<Seq<char>>>,
    cols: Seq<(Seq<char>, int)>,
    pid: u16,
    ignore_unknown: bool,
)
    requires
        merge_inv(old_keys, s, ignore_unknown),
    ensures
        ({
            let t = merge_rows(s, rows, cols, pid, ignore_unknown);
            &&& merge_inv(old_keys, t, ignore_unknown)
            &&& grows(s, t)
            &&& forall|j: int|
                0 <= j < rows.len() && !is_blank(cell(#[trigger] rows[j], 0)) && cols.len() > 0
                    ==> placed(old_keys, t, cell(rows[j], 0), ignore_unknown)
        }),
    decreases rows.len(),
{
    if rows.len() > 0 {
        let rest = rows.drop_last();
        lemma_rows(old_keys, s, rest, cols, pid, ignore_unknown);
        let prev = merge_rows(s, rest, cols, pid, ignore_unknown);
        let t = merge_rows(s, rows, cols, pid, ignore_unknown);
        let row = rows.last();
        if !is_blank(cell(row, 0)) {
            lemma_cells(old_keys, prev, row, cols, cols.len() as int, pid, ignore_unknown);
        }
        assert forall|j: int|
            0 <= j < rows.len() && !is_blank(cell(#[trigger] rows[j], 0)) && cols.len() > 0
                implies placed(old_keys, t, cell(rows[j], 0), ignore_unknown) by {
            if j < rows.len() - 1 {
                assert(rest[j] == rows[j]);
                lemma_grows_placed(old_keys, prev, t, cell(rows[j], 0), ignore_unknown);
            }
        }
    }
}

/// The merge state at the start of a merge into `store`.
pub open spec fn start_of(store: Map<Seq<char>, EntryModel>) -> MergeModel {
    MergeModel { store: store, added: Seq::empty(), updated: Seq::empty(), ignored: Seq::empty() }
}

/// A data row touches `key` where its key cell is `key`, not blank, and
/// the header has a language column that the merge writes.
pub open spec fn touches(sheet: Seq<Seq<Seq<char>>>, langs: Seq<Seq<char>>, key: Seq<char>) -> bool {
    &&& sheet.len() > 0
    &&& active_columns(sheet[0], langs).len() > 0
    &&& !is_blank(key)
    &&& exists|i: int| 1 <= i < sheet.len() && cell(#[trigger] sheet[i], 0) == key
}

proof fn lemma_outcome(
    sheet: Seq<Seq<Seq<char>>>,
    store: Map<Seq<char>, EntryModel>,
    langs: Seq<Seq<char>>,
    pid: u16,
    ignore_unknown: bool,
    key: Seq<char>,
)
    requires
        merge_outcome(sheet, store, langs, pid, ignore_unknown) is Some,
    ensures
        ({
            let m = merge_outcome(sheet, store, langs, pid, ignore_unknown)->Some_0;
            &&& merge_inv(store.dom(), m, ignore_unknown)
            &&& touches(sheet, langs, key) ==> placed(store.dom(), m, key, ignore_unknown)
        }),
{
    let s = start_of(store);
    assert(merge_inv(store.dom(), s, ignore_unknown));
    if sheet.len() > 0 {
        let body = sheet.drop_first();
        let cols = active_columns(sheet[0], langs);
        lemma_rows(store.dom(), s, body, cols, pid, ignore_unknown);
        if touches(sheet, langs, key) {
            let i = choose|i: int| 1 <= i < sheet.len() && cell(#[trigger] sheet[i], 0) == key;
            assert(body[i - 1] == sheet[i]);
        }
    }
}

/// The three lists of a merge hold each key at most once, and no key
/// stands in two of them.
pub proof fn lemma_lists_distinct(
    sheet: Seq<Seq<Seq<char>>>,
    store: Map<Seq<char>, EntryModel>,
    langs: Seq<Seq<char>>,
    pid: u16,
    ignore_unknown: bool,
)
    requires
        merge_outcome(sheet, store, langs, pid, ignore_unknown) is Some,
    ensures
        ({
            let m = merge_outcome(sheet, store, langs, pid, ignore_unknown)->Some_0;
            &&& m.added.no_duplicates()
            &&& m.updated.no_duplicates()
            &&& m.ignored.no_duplicates()
            &&& forall|k: Seq<char>| #[trigger] m.added.contains(k) ==> !m.updated.contains(k) && !m.ignored.contains(k)
            &&& forall|k: Seq<char>| #[trigger] m.updated.contains(k) ==> !m.ignored.contains(k)
        }),
{
    lemma_outcome(sheet, store, langs, pid, ignore_unknown, Seq::empty());
}

/// A key that the store held before the merge, and that a data row touches,
/// ends in `updated`, once, and in neither `added` nor `ignored`.
pub proof fn lemma_known_key_updated(
    sheet: Seq<Seq<Seq<char>>>,
    store: Map<Seq<char>, EntryModel>,
    langs: Seq<Seq<char>>,
    pid: u16,
    ignore_unknown: bool,
    key: Seq<char>,
)
    requires
        merge_outcome(sheet, store, langs, pid, ignore_unknown) is Some,
        store.contains_key(key),
        touches(sheet, langs, key),
    ensures
        ({
            let m = merge_outcome(sheet, store, langs, pid, ignore_unknown)->Some_0;
            &&& m.updated.contains(key)
            &&& forall|a: int, b: int|
                0 <= a < m.updated.len() && 0 <= b < m.updated.len() && m.updated[a] == key
                    && m.updated[b] == key ==> a == b
            &&& !m.added.contains(key)
            &&& !m.ignored.contains(key)
        }),
{
    lemma_outcome(sheet, store, langs, pid, ignore_unknown, key);
}

/// A key that the store lacked before the merge, and that a data row
/// touches, ends in `added` when unknown keys are not ignored, and in
/// `ignored` otherwise; then the store still lacks it. Ignoring unknown
/// keys, the merge adds no key to the store at all.
pub proof fn lemma_unknown_key_added_or_ignored(
    sheet: Seq<Seq<Seq<char>>>,
    store: Map<Seq<char>, EntryModel>,
    langs: Seq<Seq<char>>,
    pid: u16,
    ignore_unknown: bool,
    key: Seq<char>,
)
    requires
        merge_outcome(sheet, store, langs, pid, ignore_unknown) is Some,
        !store.contains_key(key),
    ensures
        ({
            let m = merge_outcome(sheet, store, langs, pid, ignore_unknown)->Some_0;
            &&& !m.updated.contains(key)
            &&& touches(sheet, langs, key) && !ignore_unknown ==> m.added.contains(key)
                && !m.ignored.contains(key)
            &&& touches(sheet, langs, key) && ignore_unknown ==> m.ignored.contains(key)
            &&& ignore_unknown ==> !m.added.contains(key) && m.store.dom() == store.dom()
        }),
{
    lemma_outcome(sheet, store, langs, pid, ignore_unknown, key);
}

proof fn lemma_rows_concat(
    s: MergeModel,
    a: Seq<Seq<Seq<char>>>,
    b: Seq<Seq<Seq<char>>>,
    cols: Seq<(Seq<char>, int)>,
    pid: u16,
    ignore_unknown: bool,
)
    ensures
        merge_rows(s, a + b, cols, pid, ignore_unknown) == merge_rows(
            merge_rows(s, a, cols, pid, ignore_unknown),
            b,
            cols,
            pid,
            ignore_unknown,
        ),
    decreases b.len(),
{
    if b.len() == 0 {
        assert(a + b =~= a);
    } else {
        lemma_rows_concat(s, a, b.drop_last(), cols, pid, ignore_unknown);
        assert((a + b).drop_last() =~= a + b.drop_last());
        assert((a + b).last() == b.last());
    }
}

/// A data row whose key is blank changes nothing: the sheet without it
/// merges to the same store and lists.
pub proof fn lemma_blank_row_no_effect(
    sheet: Seq<Seq<Seq<char>>>,
    store: Map<Seq<char>, EntryModel>,
    langs: Seq<Seq<char>>,
    pid: u16,
    ignore_unknown: bool,
    i: int,
)
    requires
        1 <= i < sheet.len(),
        is_blank(cell(sheet[i], 0)),
    ensures
        merge_outcome(sheet, store, langs, pid, ignore_unknown) == merge_outcome(
            sheet.remove(i),
            store,
            langs,
            pid,
            ignore_unknown,
        ),
{
    let s = start_of(store);
    let cols = active_columns(sheet[0], langs);
    let body = sheet.drop_first();
    let a = body.take(i - 1);
    let b = body.skip(i);
    let row = sheet[i];
    assert(body =~= a.push(row) + b);
    assert(sheet.remove(i)[0] == sheet[0]);
    assert(sheet.remove(i).drop_first() =~= a + b);
    lemma_rows_concat(s, a.push(row), b, cols, pid, ignore_unknown);
    lemma_rows_concat(s, a, b, cols, pid, ignore_unknown);
    assert(a.push(row).drop_last() =~= a);
}

/// Each project that has values for the key is one of the key's projects.
pub open spec fn entry_consistent(e: EntryModel) -> bool {
    forall|p: u16| #[trigger] e.values.contains_key(p) ==> e.projects.contains(p)
}

/// Every entry of `store` is consistent.
pub open spec fn store_consistent(store: Map<Seq<char>, EntryModel>) -> bool {
    forall|k: Seq<char>| #[trigger] store.contains_key(k) ==> entry_consistent(store[k])
}

/// `store` has `value` for `key`, project `q` and language `l`.
pub open spec fn has_value(
    store: Map<Seq<char>, EntryModel>,
    key: Seq<char>,
    q: u16,
    l: Seq<char>,
    value: Seq<char>,
) -> bool {
    &&& store.contains_key(key)
    &&& store[key].values.contains_key(q)
    &&& store[key].values[q].contains_key(l)
    &&& store[key].values[q][l] == value
}

/// Every value of `store` for a project other than `pid`, or for a language
/// not in `langs`, was in `before` already.
pub open spec fn kept_outside(
    before: Map<Seq<char>, EntryModel>,
    store: Map<Seq<char>, EntryModel>,
    pid: u16,
    langs: Seq<Seq<char>>,
) -> bool {
    forall|key: Seq<char>, q: u16, l: Seq<char>, value: Seq<char>|
        #[trigger] has_value(store, key, q, l, value) && (q != pid || !langs.contains(l))
            ==> has_value(before, key, q, l, value)
}

proof fn lemma_active_columns_in_langs(header: Seq<Seq<char>>, langs: Seq<Seq<char>>)
    ensures
        forall|i: int|
            0 <= i < active_columns(header, langs).len() ==> langs.contains(
                #[trigger] active_columns(header, langs)[i].0,
            ),
    decreases header.len(),
{
    if header.len() > 1 {
        lemma_active_columns_in_langs(header.drop_last(), langs);
        let prev = active_columns(header.drop_last(), langs);
        let cols = active_columns(header, langs);
        assert forall|i: int| 0 <= i < cols.len() implies langs.contains(#[trigger] cols[i].0) by {
            if i < prev.len() {
                assert(cols[i] == prev[i]);
            }
        }
    }
}

proof fn lemma_cell_scope(
    before: Map<Seq<char>, EntryModel>,
    s: MergeModel,
    key: Seq<char>,
    lang: Seq<char>,
    value: Seq<char>,
    pid: u16,
    langs: Seq<Seq<char>>,
    ignore_unknown: bool,
)
    requires
        langs.contains(lang),
        kept_outside(before, s.store, pid, langs),
    ensures
        store_consistent(s.store) ==> store_consistent(merge_cell(s, key, lang, value, pid, ignore_unknown).store),
        kept_outside(before, merge_cell(s, key, lang, value, pid, ignore_unknown).store, pid, langs),
{
    let t = merge_cell(s, key, lang, value, pid, ignore_unknown);
    if s.store.contains_key(key) {
        let e = s.store[key];
        if store_consistent(s.store) {
            assert(entry_consistent(e));
            assert forall|p: u16| #[trigger] t.store[key].values.contains_key(p) implies t.store[key].projects.contains(p) by {
                if p != pid {
                    assert(e.values.contains_key(p));
                    assert(e.projects.contains(p));
                    let i = choose|i: int| 0 <= i < e.projects.len() && e.projects[i] == p;
                    assert(t.store[key].projects[i] == p);
                } else if !e.projects.contains(pid) {
                    assert(t.store[key].projects[e.projects.len() as int] == pid);
                }
            }
            assert(store_consistent(t.store));
        }
        assert forall|k: Seq<char>, q: u16, l: Seq<char>, v: Seq<char>|
            #[trigger] has_value(t.store, k, q, l, v) && (q != pid || !langs.contains(l))
                implies has_value(before, k, q, l, v) by {
            if k != key {
                assert(has_value(s.store, k, q, l, v));
            } else if q != pid {
                assert(has_value(s.store, k, q, l, v));
            } else {
                assert(l != lang);
                assert(has_value(s.store, k, q, l, v));
            }
        }
    } else if !ignore_unknown {
        assert(t.store[key].projects[0] == pid);
        assert forall|k: Seq<char>, q: u16, l: Seq<char>, v: Seq<char>|
            #[trigger] has_value(t.store, k, q, l, v) && (q != pid || !langs.contains(l))
                implies has_value(before, k, q, l, v) by {
            if k != key {
                assert(has_value(s.store, k, q, l, v));
            }
        }
    }
}

proof fn lemma_rows_scope(
    before: Map<Seq<char>, EntryModel>,
    s: MergeModel,
    rows: Seq<Seq<Seq<char>>>,
    cols: Seq<(Seq<char>, int)>,
    pid: u16,
    langs: Seq<Seq<char>>,
    ignore_unknown: bool,
)
    requires
        forall|i: int| 0 <= i < cols.len() ==> langs.contains(#[trigger] cols[i].0),
        kept_outside(before, s.store, pid, langs),
    ensures
        store_consistent(s.store) ==> store_consistent(merge_rows(s, rows, cols, pid, ignore_unknown).store),
        kept_outside(before, merge_rows(s, rows, cols, pid, ignore_unknown).store, pid, langs),
    decreases rows.len(),
{
    if rows.len() > 0 {
        lemma_rows_scope(before, s, rows.drop_last(), cols, pid, langs, ignore_unknown);
        let prev = merge_rows(s, rows.drop_last(), cols, pid, ignore_unknown);
        let row = rows.last();
        if !is_blank(cell(row, 0)) {
            lemma_cells_scope(before, prev, row, cols, cols.len() as int, pid, langs, ignore_unknown);
        }
    }
}

proof fn lemma_cells_scope(
    before: Map<Seq<char>, EntryModel>,
    s: MergeModel,
    row: Seq<Seq<char>>,
    cols: Seq<(Seq<char>, int)>,
    n: int,
    pid: u16,
    langs: Seq<Seq<char>>,
    ignore_unknown: bool,
)
    requires
        n <= cols.len(),
        forall|i: int| 0 <= i < cols.len() ==> langs.contains(#[trigger] cols[i].0),
        kept_outside(before, s.store, pid, langs),
    ensures
        store_consistent(s.store) ==> store_consistent(merge_cells(s, row, cols, n, pid, ignore_unknown).store),
        kept_outside(before, merge_cells(s, row, cols, n, pid, ignore_unknown).store, pid, langs),
    decreases n,
{
    if n > 0 {
        lemma_cells_scope(before, s, row, cols, n - 1, pid, langs, ignore_unknown);
        let prev = merge_cells(s, row, cols, n - 1, pid, ignore_unknown);
        lemma_cell_scope(before, prev, cell(row, 0), cols[n - 1].0, cell(row, cols[n - 1].1), pid, langs, ignore_unknown);
    }
}

/// A merge for project `pid` writes only values of `pid` in the project's
/// languages: every other value of the store after it was there before.
/// A store whose entries list each project that has values for them keeps
/// that property.
pub proof fn lemma_merge_scope(
    sheet: Seq<Seq<Seq<char>>>,
    store: Map<Seq<char>, EntryModel>,
    langs: Seq<Seq<char>>,
    pid: u16,
    ignore_unknown: bool,
)
    requires
        merge_outcome(sheet, store, langs, pid, ignore_unknown) is Some,
    ensures
        ({
            let m = merge_outcome(sheet, store, langs, pid, ignore_unknown)->Some_0;
            &&& kept_outside(store, m.store, pid, langs)
            &&& store_consistent(store) ==> store_consistent(m.store)
        }),
{
    let s = start_of(store);
    if sheet.len() > 0 {
        let cols = active_columns(sheet[0], langs);
        lemma_active_columns_in_langs(sheet[0], langs);
        lemma_rows_scope(store, s, sheet.drop_first(), cols, pid, langs, ignore_unknown);
    }
}

} // verus!
