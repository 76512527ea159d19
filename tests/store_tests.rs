use std::cmp::Ordering;

use strings_manager::excel_writer::{ExcelTranslation, ExcelTranslations};
use strings_manager::json_data::{find_project, generate_template, Project};
use strings_manager::key_map::KeyMap;
use strings_manager::keys::compare_keys;
use strings_manager::text::blank;

#[test]
fn keys_compare_by_character() {
    assert_eq!(compare_keys("app.a", "app.b"), Ordering::Less);
    assert_eq!(compare_keys("app", "app.a"), Ordering::Less);
    assert_eq!(compare_keys("b", "a.z"), Ordering::Greater);
    assert_eq!(compare_keys("same", "same"), Ordering::Equal);
    assert_eq!(compare_keys("", ""), Ordering::Equal);
    assert_eq!(compare_keys("Z", "a"), Ordering::Less);
    assert_eq!(compare_keys("\u{e9}", "z"), Ordering::Greater);
}

#[test]
fn key_map_keeps_keys_sorted() {
    let mut m = KeyMap::new();
    for k in ["m", "c", "x", "a", "c"] {
        m.insert(k.to_string(), k.len());
    }
    assert_eq!(m.len(), 4);
    let keys: Vec<&str> = (0..m.len()).map(|i| m.entry(i).0.as_str()).collect();
    assert_eq!(keys, vec!["a", "c", "m", "x"]);
    assert!(m.contains_key("x"));
    assert!(!m.contains_key("b"));
}

#[test]
fn key_map_insert_replaces_and_remove_takes() {
    let mut m = KeyMap::new();
    m.insert("k".to_string(), 1);
    m.insert("k".to_string(), 2);
    assert_eq!(m.len(), 1);
    assert_eq!(m.get("k"), Some(&2));
    assert_eq!(m.remove("k"), Some(2));
    assert_eq!(m.remove("k"), None);
    assert_eq!(m.len(), 0);
    assert_eq!(m.get("k"), None);
}

#[test]
fn blank_means_only_white_space() {
    assert!(blank(""));
    assert!(blank(" \t\n"));
    assert!(blank("\u{3000}"));
    assert!(!blank(" a "));
    assert!(!blank("key"));
}

#[test]
fn template_has_one_project_and_key() {
    let data = generate_template();
    assert_eq!(data.projects.len(), 1);
    assert_eq!(data.projects[0].id, 1);
    assert_eq!(data.projects[0].name, "TestProject");
    assert_eq!(data.projects[0].langs, vec!["en-US".to_string(), "pl-PL".to_string()]);
    assert_eq!(data.projects[0].default_lang, "en-US");
    assert_eq!(data.translations.len(), 1);
    let t = data.translations.get("app.title").unwrap();
    assert_eq!(t.projects, vec![1]);
    assert_eq!(t.values.get(&1).unwrap().get("en-US").unwrap(), "Hello World!");
    assert_eq!(t.values.get(&1).unwrap().get("pl-PL").unwrap(), "Witaj \u{c5}\u{203a}wiecie!");
}

fn named(id: u16, name: &str) -> Project {
    Project { id, name: name.to_string(), langs: vec![], default_lang: String::new() }
}

#[test]
fn find_project_by_name() {
    let projects = vec![named(1, "One"), named(2, "Two"), named(3, "Two")];
    assert_eq!(find_project(&projects, "Two"), Some(1));
    assert_eq!(find_project(&projects, "One"), Some(0));
    assert_eq!(find_project(&projects, "Three"), None);
    assert_eq!(find_project(&Vec::new(), "One"), None);
}

#[test]
fn workbook_table_rows() {
    let table = ExcelTranslations::new(
        vec!["en-US".to_string(), "de-DE".to_string()],
        vec![
            ExcelTranslation::new("app.a".to_string(), vec!["A".to_string(), "Ah".to_string()]),
            ExcelTranslation::new("app.b".to_string(), vec!["B".to_string()]),
        ],
    );
    assert_eq!(table.build_headers(), vec!["Key", "en-US", "de-DE"]);
    assert_eq!(
        table.build_values(),
        vec![vec!["app.a", "A", "Ah"], vec!["app.b", "B", ""]]
    );
}
