//! The table that a translation workbook is written from.
use vstd::prelude::*;
use crate::json_data::texts;

verus! {

/// One key with its values, one per language.
pub struct ExcelTranslation {
    key: String,
    values: Vec<String>,
}

/// The languages of a workbook and its keys.
pub struct ExcelTranslations {
    langs: Vec<String>,
    values: Vec<ExcelTranslation>,
}

impl ExcelTranslation {
    pub fn new(key: String, values: Vec<String>) -> (r: ExcelTranslation)
        ensures
            r.key() == key@,
            r.texts() == texts(values@),
    {
        ExcelTranslation { key, values }
    }

    pub closed spec fn key(&self) -> Seq<char> {
        self.key@
    }

    pub closed spec fn texts(&self) -> Seq<Seq<char>> {
        texts(self.values@)
    }
}

/// The cells of a row for `key` with `values`, over `n` language columns:
/// the key, then a value per column, empty where `values` has none.
pub open spec fn value_row(key: Seq<char>, values: Seq<Seq<char>>, n: int) -> Seq<Seq<char>> {
    seq![key] + Seq::new(n as nat, |i: int| if i < values.len() { values[i] } else { Seq::empty() })
}

impl ExcelTranslations {
    pub fn new(langs: Vec<String>, values: Vec<ExcelTranslation>) -> (r: ExcelTranslations)
        ensures
            r.langs() == texts(langs@),
            r.entries() == values@,
    {
        ExcelTranslations { langs, values }
    }

    pub closed spec fn langs(&self) -> Seq<Seq<char>> {
        texts(self.langs@)
    }

    pub closed spec fn entries(&self) -> Seq<ExcelTranslation> {
        self.values@
    }

    /// The header row: `Key`, then each language.
    pub fn build_headers(&self) -> (r: Vec<String>)
        ensures
            texts(r@) == seq!["Key"@] + self.langs(),
    {
        let mut cells: Vec<String> = Vec::new();
        cells.push(String::from_str("Key"));
        let mut i: usize = 0;
        while i < self.langs.len()
            invariant
                i <= self.langs.len(),
                texts(cells@) == seq!["Key"@] + self.langs().take(i as int),
            decreases self.langs.len() - i,
        {
            let ghost prev = cells@;
            cells.push(self.langs[i].clone());
            assert(self.langs().take(i + 1) =~= self.langs().take(i as int).push(self.langs()[i as int]));
            assert(texts(cells@) =~= texts(prev).push(self.langs[i as int]@));
            i = i + 1;
        }
        assert(self.langs().take(i as int) =~= self.langs());
        cells
    }

    /// A row per key, in order, with a cell per language after the key.
    pub fn build_values(&self) -> (r: Vec<Vec<String>>)
        ensures
            r.len() == self.entries().len(),
            forall|j: int|
                0 <= j < r.len() ==> texts(#[trigger] r@[j]@) == value_row(
                    self.entries()[j].key(),
                    self.entries()[j].texts(),
                    self.langs().len() as int,
                ),
    {
        let n = self.langs.len();
        let mut rows: Vec<Vec<String>> = Vec::new();
        let mut j: usize = 0;
        while j < self.values.len()
            invariant
                n == self.langs().len(),
                j <= self.values.len(),
                rows.len() == j,
                forall|a: int|
                    0 <= a < j ==> texts(#[trigger] rows@[a]@) == value_row(
                        self.entries()[a].key(),
                        self.entries()[a].texts(),
                        n as int,
                    ),
            decreases self.values.len() - j,
        {
            let t = &self.values[j];
            let ghost goal = value_row(t.key(), t.texts(), n as int);
            let mut cells: Vec<String> = Vec::new();
            cells.push(t.key.clone());
            let mut i: usize = 0;
            while i < n
                invariant
                    i <= n,
                    goal == value_row(t.key(), t.texts(), n as int),
                    texts(cells@) == goal.take(i + 1),
                decreases n - i,
            {
                let ghost prev = cells@;
                if i < t.values.len() {
                    cells.push(t.values[i].clone());
                } else {
                    cells.push(String::new());
                }
                assert(goal.take(i + 2) =~= goal.take(i + 1).push(goal[i + 1]));
                assert(texts(cells@) =~= texts(prev).push(cells@[i + 1]@));
                i = i + 1;
            }
            assert(goal.take(n + 1) =~= goal);
            rows.push(cells);
            j = j + 1;
        }
        rows
    }
}

} // verus!
