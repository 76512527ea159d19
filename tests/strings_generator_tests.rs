use std::collections::BTreeMap;

use strings_manager::ios_generator::TranslationsIOS;
use strings_manager::json_data::{DataRoot, Project, Translation};
use strings_manager::key_map::KeyMap;
use strings_manager::strings_generator::{generate_strings, prepare_strings, Generator, TranslationOut};
use strings_manager::strings_generator::StringsGeneratorType::{Android, Ios};

fn project(id: u16, name: &str, langs: &[&str]) -> Project {
    Project {
        id,
        name: name.to_string(),
        langs: langs.iter().map(|l| l.to_string()).collect(),
        default_lang: langs[0].to_string(),
    }
}

fn translation(projects: &[u16], values: &[(u16, &[(&str, &str)])]) -> Translation {
    let mut map = BTreeMap::new();
    for (project_id, langs) in values {
        let mut lang_map = KeyMap::new();
        for (lang, value) in langs.iter() {
            lang_map.insert(lang.to_string(), value.to_string());
        }
        map.insert(*project_id, lang_map);
    }
    Translation { projects: projects.to_vec(), values: map }
}

fn generate_basic_data() -> DataRoot {
    let mut translations = KeyMap::new();
    // Inserted out of order on purpose: the export walks keys in ascending order.
    translations.insert("app.t3".to_string(), translation(&[1], &[
        (2, &[("en-US", "test3-en-proj1")]),
    ]));
    translations.insert("app.t1".to_string(), translation(&[1, 2], &[
        (1, &[("en-US", "test1-en-p1"), ("pl-PL", "test1-pl-p1")]),
        (2, &[("en-US", "test1-en-proj2"), ("de-DE", "test1-de-proj2")]),
    ]));
    translations.insert("app.hello".to_string(), translation(&[1, 2], &[
        (1, &[("en-US", "Hello"), ("pl-PL", "Witaj")]),
        (2, &[("en-US", "Hello"), ("de-DE", "Hallo")]),
    ]));
    translations.insert("app.t2".to_string(), translation(&[2], &[
        (2, &[("en-US", "test2-en-proj2"), ("de-DE", "test2-de-proj2")]),
    ]));
    DataRoot {
        projects: vec![
            project(1, "TestProject1", &["en-US", "pl-PL"]),
            project(2, "TestProject2", &["en-US", "de-DE"]),
        ],
        translations,
    }
}

#[test]
fn escape_ios_string() {
    let escaped = TranslationsIOS::escape("Hello %s, \"%d,\" %c%@");
    assert_eq!(escaped, "Hello %@, \\\"%@,\\\" %@%@");
}

#[test]
fn export_ios() {
    let data = generate_basic_data();
    let strings = prepare_strings(Ios, &data.translations, &data.projects[0].id, "en-US".to_string());

    assert_eq!(strings.len(), 3);
    assert_eq!(strings[0].key, "app.hello");
    assert_eq!(strings[1].value, "test1-en-p1");
    assert_eq!(strings[2].value, "app.t3");
}

#[test]
fn export_falls_back_to_key() {
    let data = generate_basic_data();
    let strings = prepare_strings(Ios, &data.translations, &2, "fr-FR".to_string());
    let keys: Vec<&str> = strings.iter().map(|s| s.key.as_str()).collect();
    assert_eq!(keys, vec!["app.hello", "app.t1", "app.t2"]);
    for s in &strings {
        assert_eq!(s.value, s.key);
    }
    let german = prepare_strings(Ios, &data.translations, &2, "de-DE".to_string());
    assert_eq!(german[0].value, "Hallo");
    assert_eq!(german[2].value, "test2-de-proj2");
}

#[test]
fn export_of_unused_project_is_empty() {
    let data = generate_basic_data();
    assert!(prepare_strings(Ios, &data.translations, &7, "en-US".to_string()).is_empty());
}

#[test]
fn escape_leaves_plain_text() {
    assert_eq!(TranslationsIOS::escape("100% sure"), "100% sure");
    assert_eq!(TranslationsIOS::escape(""), "");
    assert_eq!(TranslationsIOS::escape("%%s"), "%%@");
}

#[test]
fn render_ios_lines() {
    let bundle = TranslationsIOS {
        lang: "en-US".to_string(),
        translations: vec![
            TranslationOut { key: "a.b".to_string(), value: "Say \"%s\"".to_string() },
            TranslationOut { key: "c".to_string(), value: "x".to_string() },
        ],
    };
    assert_eq!(bundle.file_name(), "Localized_en-US.strings");
    assert_eq!(bundle.render(), "\"a.b\" = \"Say \\\"%@\\\"\";\n\"c\" = \"x\";\n");
}

#[test]
fn render_empty_bundle() {
    let bundle = TranslationsIOS { lang: "de-DE".to_string(), translations: vec![] };
    assert_eq!(bundle.render(), "");
    assert_eq!(bundle.file_name(), "Localized_de-DE.strings");
}

#[test]
fn generate_ios_bundles_per_language() {
    let data = generate_basic_data();
    let bundles = generate_strings(Ios, &data.translations, &data.projects[1]);
    assert_eq!(bundles.len(), 2);
    assert_eq!(bundles[0].lang, "en-US");
    assert_eq!(bundles[1].lang, "de-DE");
    assert_eq!(bundles[1].translations.len(), 3);
    assert_eq!(bundles[1].translations[1].value, "test1-de-proj2");
    assert_eq!(
        bundles[0].render(),
        "\"app.hello\" = \"Hello\";\n\"app.t1\" = \"test1-en-proj2\";\n\"app.t2\" = \"test2-en-proj2\";\n"
    );
}

#[test]
fn generate_android_gives_nothing() {
    let data = generate_basic_data();
    assert!(generate_strings(Android, &data.translations, &data.projects[0]).is_empty());
}
