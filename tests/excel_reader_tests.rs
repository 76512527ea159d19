use std::collections::BTreeMap;

use strings_manager::excel_file::EFile;
use strings_manager::excel_reader::{import_excel, InvalidLanguageError};
use strings_manager::json_data::{DataRoot, Project, Translation};
use strings_manager::key_map::KeyMap;

struct ExcelFileMock {
    rows: Vec<Vec<String>>,
}

impl EFile for ExcelFileMock {
    fn rows(&mut self) -> Vec<Vec<String>> {
        self.rows.clone()
    }
}

fn row(cells: &[&str]) -> Vec<String> {
    cells.iter().map(|c| c.to_string()).collect()
}

fn project(id: u16, name: &str, langs: &[&str]) -> Project {
    Project {
        id,
        name: name.to_string(),
        langs: row(langs),
        default_lang: langs[0].to_string(),
    }
}

fn translation(projects: &[u16], values: &[(u16, &[(&str, &str)])]) -> Translation {
    let mut map = BTreeMap::new();
    for (project_id, langs) in values {
        let mut lang_map = KeyMap::new();
        for (lang, value) in langs.iter() {
            lang_map.insert(lang.to_string(), value.to_string());
        }
        map.insert(*project_id, lang_map);
    }
    Translation { projects: projects.to_vec(), values: map }
}

fn generate_basic_data() -> DataRoot {
    let mut translations = KeyMap::new();
    translations.insert("app.hello".to_string(), translation(&[1, 2], &[
        (1, &[("en-US", "Hello"), ("pl-PL", "Witaj")]),
        (2, &[("en-US", "Hello"), ("de-DE", "Hallo")]),
    ]));
    translations.insert("app.t1".to_string(), translation(&[1, 2], &[
        (1, &[("en-US", "test1-en-p1"), ("pl-PL", "test1-pl-p1")]),
        (2, &[("en-US", "test1-en-proj2"), ("de-DE", "test1-de-proj2")]),
    ]));
    translations.insert("app.t2".to_string(), translation(&[2], &[
        (2, &[("en-US", "test2-en-proj2"), ("de-DE", "test2-de-proj2")]),
    ]));
    translations.insert("app.t3".to_string(), translation(&[1], &[
        (2, &[("en-US", "test3-en-proj1")]),
    ]));
    DataRoot {
        projects: vec![
            project(1, "TestProject1", &["en-US", "pl-PL"]),
            project(2, "TestProject2", &["en-US", "de-DE"]),
        ],
        translations,
    }
}

fn sheet() -> ExcelFileMock {
    ExcelFileMock {
        rows: vec![
            row(&["key", "en-US", "de-DE"]),
            row(&["new1", "added1-en", "added1-de"]),
            row(&["app.t2", "updated1-en", "updated1-de"]),
        ],
    }
}

fn value<'a>(data: &'a DataRoot, key: &str, project_id: u16, lang: &str) -> Option<&'a String> {
    data.translations.get(key)?.values.get(&project_id)?.get(lang)
}

#[test]
fn import_excel_wrong_language_project1_file() {
    let mut file = sheet();
    let mut data_root = generate_basic_data();
    let project = &data_root.projects[0];
    let result = import_excel(&file.rows(), &mut data_root.translations, project, false);

    assert_eq!(result.is_err(), true);
}

#[test]
fn import_excel_project2_file() {
    let mut file = sheet();
    let mut data_root = generate_basic_data();
    let project = &data_root.projects[1];
    let result = import_excel(&file.rows(), &mut data_root.translations, project, false);

    assert!(result.is_ok());
    let result = result.unwrap();
    assert_eq!(1, result.added.len());
    assert_eq!(1, result.updated.len());
    assert_eq!(0, result.ignored.len());
    assert_eq!(2, data_root.projects.len());
    assert_eq!(5, data_root.translations.len());
    assert_eq!(true, data_root.translations.contains_key("new1"));
    assert_eq!(true, data_root.translations.contains_key("app.t2"));
    assert_eq!("added1-en", data_root.translations.get("new1").unwrap().values.get(&2).unwrap().get("en-US").unwrap());
    assert_eq!("updated1-de", data_root.translations.get("app.t2").unwrap().values.get(&2).unwrap().get("de-DE").unwrap());
}

#[test]
fn import_empty_excel_file() {
    let mut file = ExcelFileMock { rows: vec![] };
    let mut data_root = generate_basic_data();
    let project = &data_root.projects[0];
    let result = import_excel(&file.rows(), &mut data_root.translations, project, false);

    assert!(result.is_ok());
    let result = result.unwrap();
    assert_eq!(0, result.added.len());
    assert_eq!(0, result.updated.len());
    assert_eq!(0, result.ignored.len());
    assert_eq!(2, data_root.projects.len());
    assert_eq!(4, data_root.translations.len());
    assert_eq!("Hello", data_root.translations.get("app.hello").unwrap().values.get(&1).unwrap().get("en-US").unwrap())
}

#[test]
fn import_ignore_unknown_excel_file() {
    let mut file = sheet();
    let mut data_root = generate_basic_data();
    let project = &data_root.projects[1];
    let result = import_excel(&file.rows(), &mut data_root.translations, project, true);

    assert!(result.is_ok());
    let result = result.unwrap();
    assert_eq!(0, result.added.len());
    assert_eq!(1, result.updated.len());
    assert_eq!(1, result.ignored.len());
    assert_eq!(2, data_root.projects.len());
    assert_eq!(4, data_root.translations.len());
    assert_eq!(false, data_root.translations.contains_key("new1"));
    assert_eq!("updated1-en", data_root.translations.get("app.t2").unwrap().values.get(&2).unwrap().get("en-US").unwrap());
    assert_eq!("updated1-de", data_root.translations.get("app.t2").unwrap().values.get(&2).unwrap().get("de-DE").unwrap());
}

fn scenario_data() -> DataRoot {
    let mut translations = KeyMap::new();
    translations.insert("app.t2".to_string(), translation(&[2], &[]));
    DataRoot {
        projects: vec![project(2, "TestProject2", &["en-US", "de-DE"])],
        translations,
    }
}

fn scenario_rows() -> Vec<Vec<String>> {
    vec![
        row(&["key", "en-US", "de-DE"]),
        row(&["app.t2", "updated-en", "updated-de"]),
        row(&["new1", "added-en", "added-de"]),
    ]
}

#[test]
fn merge_adds_and_updates() {
    let mut data = scenario_data();
    let project = &data.projects[0];
    let result = import_excel(&scenario_rows(), &mut data.translations, project, false).unwrap();
    assert_eq!(result.added, vec!["new1".to_string()]);
    assert_eq!(result.updated, vec!["app.t2".to_string()]);
    assert!(result.ignored.is_empty());
    assert_eq!(value(&data, "new1", 2, "en-US").unwrap(), "added-en");
    assert_eq!(value(&data, "new1", 2, "de-DE").unwrap(), "added-de");
    assert_eq!(value(&data, "app.t2", 2, "en-US").unwrap(), "updated-en");
    assert_eq!(value(&data, "app.t2", 2, "de-DE").unwrap(), "updated-de");
    assert_eq!(data.translations.get("new1").unwrap().projects, vec![2]);
    assert_eq!(data.translations.get("new1").unwrap().values.get(&2).unwrap().len(), 2);
}

#[test]
fn merge_ignoring_unknown_keys() {
    let mut data = scenario_data();
    let project = &data.projects[0];
    let result = import_excel(&scenario_rows(), &mut data.translations, project, true).unwrap();
    assert!(result.added.is_empty());
    assert_eq!(result.updated, vec!["app.t2".to_string()]);
    assert_eq!(result.ignored, vec!["new1".to_string()]);
    assert!(!data.translations.contains_key("new1"));
    assert_eq!(data.translations.len(), 1);
    assert_eq!(value(&data, "app.t2", 2, "de-DE").unwrap(), "updated-de");
}

#[test]
fn rejected_header_leaves_store_unchanged() {
    let mut data = generate_basic_data();
    let project = &data.projects[0];
    let result = import_excel(&sheet().rows, &mut data.translations, project, false);
    assert!(matches!(result, Err(InvalidLanguageError)));
    assert_eq!(data.translations.len(), 4);
    assert!(!data.translations.contains_key("new1"));
    assert_eq!(value(&data, "app.t2", 2, "en-US").unwrap(), "test2-en-proj2");
    assert!(value(&data, "app.t2", 1, "en-US").is_none());
}

#[test]
fn unknown_language_column_is_skipped_when_ignoring() {
    let mut data = generate_basic_data();
    let project = &data.projects[0];
    let rows = vec![
        row(&["key", "de-DE", "pl-PL"]),
        row(&["app.t1", "ignored-de", "nowy-pl"]),
    ];
    let result = import_excel(&rows, &mut data.translations, project, true).unwrap();
    assert_eq!(result.updated, vec!["app.t1".to_string()]);
    assert_eq!(value(&data, "app.t1", 1, "pl-PL").unwrap(), "nowy-pl");
    assert!(value(&data, "app.t1", 1, "de-DE").is_none());
}

#[test]
fn blank_key_rows_change_nothing() {
    let mut data = generate_basic_data();
    let project = &data.projects[1];
    let rows = vec![
        row(&["key", "en-US"]),
        row(&["", "x"]),
        row(&["  \t", "y"]),
        row(&[]),
    ];
    let result = import_excel(&rows, &mut data.translations, project, false).unwrap();
    assert!(result.added.is_empty() && result.updated.is_empty() && result.ignored.is_empty());
    assert_eq!(data.translations.len(), 4);
    assert_eq!(value(&data, "app.hello", 2, "en-US").unwrap(), "Hello");
}

#[test]
fn key_touched_twice_is_listed_once() {
    let mut data = generate_basic_data();
    let project = &data.projects[0];
    let rows = vec![
        row(&["key", "en-US", "pl-PL"]),
        row(&["app.t2", "a", "b"]),
        row(&["app.t2", "c", "d"]),
        row(&["fresh", "e", "f"]),
        row(&["fresh", "g", "h"]),
    ];
    let result = import_excel(&rows, &mut data.translations, project, false).unwrap();
    assert_eq!(result.updated, vec!["app.t2".to_string()]);
    assert_eq!(result.added, vec!["fresh".to_string()]);
    assert_eq!(value(&data, "app.t2", 1, "en-US").unwrap(), "c");
    assert_eq!(value(&data, "fresh", 1, "pl-PL").unwrap(), "h");
    assert_eq!(data.translations.get("app.t2").unwrap().projects, vec![2, 1]);
    assert_eq!(data.translations.get("fresh").unwrap().projects, vec![1]);
}

#[test]
fn missing_cells_read_as_empty() {
    let mut data = generate_basic_data();
    let project = &data.projects[1];
    let rows = vec![
        row(&["key", "en-US", "de-DE"]),
        row(&["app.hello", "Hi"]),
    ];
    let result = import_excel(&rows, &mut data.translations, project, false).unwrap();
    assert_eq!(result.updated, vec!["app.hello".to_string()]);
    assert_eq!(value(&data, "app.hello", 2, "en-US").unwrap(), "Hi");
    assert_eq!(value(&data, "app.hello", 2, "de-DE").unwrap(), "");
}

#[test]
fn header_only_sheet_changes_nothing() {
    let mut data = generate_basic_data();
    let project = &data.projects[1];
    let rows = vec![row(&["key", "en-US"])];
    let result = import_excel(&rows, &mut data.translations, project, false).unwrap();
    assert!(result.added.is_empty() && result.updated.is_empty() && result.ignored.is_empty());
    assert_eq!(data.translations.len(), 4);
}

#[test]
fn invalid_language_error_message() {
    assert_eq!(InvalidLanguageError.message(), "invalid language in file");
}
