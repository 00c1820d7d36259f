use pkit::jsondoc::JsonDoc;
use pkit::registry::{Config, PkitError};

fn defaults_for(c: &Config, language: &str) -> usize {
    c.installed.iter().filter(|e| e.language == language && e.default).count()
}

#[test]
fn new_registry_is_empty() {
    let c = Config::new(String::from("/home/u/.pkit"));
    assert_eq!(c.path, "/home/u/.pkit");
    assert!(c.installed.is_empty());
    assert!(c.sources.is_empty());
    assert!(c.is_well_formed());
}

#[test]
fn add_appends_and_get_finds() {
    let mut c = Config::new(String::from("/r"));
    c.add_install("python", "3.11", "/r/bin/python/3.11", false);
    c.add_install("node", "20", "/r/bin/node/20", true);
    assert_eq!(c.installed.len(), 2);
    let e = c.get("python", "3.11").unwrap();
    assert_eq!(e.path, "/r/bin/python/3.11");
    assert!(!e.default);
    assert!(c.get("python", "3.12").is_none());
    assert_eq!(c.get_default("node").unwrap().version, "20");
    assert!(c.get_default("python").is_none());
}

#[test]
fn add_existing_updates_in_place() {
    let mut c = Config::new(String::from("/r"));
    c.add_install("python", "3.11", "/old", false);
    c.add_install("python", "3.11", "/new", false);
    assert_eq!(c.installed.len(), 1);
    assert_eq!(c.installed[0].path, "/new");
    assert!(!c.installed[0].default);
    c.add_install("python", "3.11", "/newer", true);
    assert_eq!(c.installed.len(), 1);
    assert_eq!(c.installed[0].path, "/newer");
    assert!(c.installed[0].default);
}

#[test]
fn default_stays_unique_over_adds_and_set_default() {
    let mut c = Config::new(String::from("/r"));
    c.add_install("python", "3.10", "/a", true);
    assert_eq!(defaults_for(&c, "python"), 1);
    c.add_install("python", "3.11", "/b", true);
    assert_eq!(defaults_for(&c, "python"), 1);
    assert_eq!(c.get_default("python").unwrap().version, "3.11");
    c.add_install("node", "20", "/n", true);
    assert_eq!(defaults_for(&c, "python"), 1);
    assert_eq!(defaults_for(&c, "node"), 1);
    c.add_install("python", "3.12", "/c", false);
    assert_eq!(defaults_for(&c, "python"), 1);
    c.set_default("python", "3.10").unwrap();
    assert_eq!(defaults_for(&c, "python"), 1);
    assert_eq!(c.get_default("python").unwrap().version, "3.10");
    c.add_install("python", "3.12", "/c2", true);
    assert_eq!(defaults_for(&c, "python"), 1);
    assert_eq!(c.get_default("python").unwrap().version, "3.12");
    assert_eq!(c.get_default("node").unwrap().version, "20");
    assert!(c.is_well_formed());
}

#[test]
fn set_default_of_missing_version_fails() {
    let mut c = Config::new(String::from("/r"));
    c.add_install("python", "3.11", "/a", true);
    assert_eq!(c.set_default("python", "3.12"), Err(PkitError::NotInstalled));
    assert_eq!(c.get_default("python").unwrap().version, "3.11");
}

#[test]
fn remove_install_drops_only_that_entry() {
    let mut c = Config::new(String::from("/r"));
    c.add_install("python", "3.11", "/a", true);
    c.add_install("python", "3.12", "/b", false);
    c.remove_install("python", "3.11");
    assert_eq!(c.installed.len(), 1);
    assert_eq!(c.installed[0].version, "3.12");
    c.remove_install("ruby", "3");
    assert_eq!(c.installed.len(), 1);
}

#[test]
fn update_install_changes_path() {
    let mut c = Config::new(String::from("/r"));
    c.add_install("go", "1.22", "/a", false);
    c.update_install("go", "1.22", "/b");
    assert_eq!(c.get("go", "1.22").unwrap().path, "/b");
}

#[test]
fn path_sources_crud() {
    let mut c = Config::new(String::from("/r"));
    assert_eq!(c.add_path_source("tools", "/opt/tools"), Ok(()));
    assert_eq!(c.add_path_source("tools", "/elsewhere"), Err(PkitError::SourceAlreadyExists));
    assert_eq!(c.get_path_source("tools").unwrap().path, "/opt/tools");
    assert_eq!(c.set_path_source("tools", "/opt/t2"), Ok(()));
    assert_eq!(c.get_path_source("tools").unwrap().path, "/opt/t2");
    assert_eq!(c.set_path_source("nope", "/x"), Err(PkitError::SourceNotFound));
    assert_eq!(c.remove_path_source("nope"), Err(PkitError::SourceNotFound));
    assert_eq!(c.remove_path_source("tools"), Ok(()));
    assert!(c.get_path_source("tools").is_none());
}

#[test]
fn record_round_trip() {
    let mut c = Config::new(String::from("/home/u/.pkit"));
    c.add_install("python", "3.11", "/home/u/.pkit/bin/python/3.11", true);
    c.add_install("node", "20.1", "/home/u/.pkit/bin/node/20.1", false);
    c.add_install("go", "1.22", "/p \"quoted\" \\ back", true);
    c.add_path_source("tools", "/opt/tools").unwrap();
    c.add_path_source("more", "/opt/more").unwrap();
    let text = c.encode();
    let back = Config::decode("/home/u/.pkit", &text).unwrap();
    assert_eq!(back.path, c.path);
    assert_eq!(back.installed.len(), 3);
    assert_eq!(back.sources.len(), 2);
    for (a, b) in c.installed.iter().zip(back.installed.iter()) {
        assert_eq!(a.language, b.language);
        assert_eq!(a.version, b.version);
        assert_eq!(a.path, b.path);
        assert_eq!(a.default, b.default);
    }
    for (a, b) in c.sources.iter().zip(back.sources.iter()) {
        assert_eq!(a.name, b.name);
        assert_eq!(a.path, b.path);
    }
    assert_eq!(back.encode(), text);
}

#[test]
fn empty_record_text() {
    let c = Config::new(String::from("/r"));
    assert_eq!(
        c.encode(),
        "{\n  \"sources\": [],\n  \"installed\": [],\n  \"path\": \"/r\"\n}"
    );
}

#[test]
fn record_text_quotes_strings() {
    let mut c = Config::new(String::from("/r"));
    c.add_path_source("a\"b", "/x").unwrap();
    let text = c.encode();
    assert!(text.contains("\"name\": \"a\\\"b\""));
    assert_eq!(
        text,
        "{\n  \"sources\": [\n    {\n      \"name\": \"a\\\"b\",\n      \"path\": \"/x\"\n    }\n  ],\n  \"installed\": [],\n  \"path\": \"/r\"\n}"
    );
}

#[test]
fn decode_rejects_bad_json() {
    assert!(matches!(Config::decode("/r", "{not json"), Err(PkitError::ConfigCorrupt)));
}

#[test]
fn decode_rejects_two_defaults() {
    let text = "{\"installed\": [\
        {\"language\": \"python\", \"version\": \"3.10\", \"path\": \"/a\", \"default\": true},\
        {\"language\": \"python\", \"version\": \"3.11\", \"path\": \"/b\", \"default\": true}]}";
    assert!(matches!(Config::decode("/r", text), Err(PkitError::ConfigCorrupt)));
}

#[test]
fn decode_rejects_missing_field() {
    let text = "{\"installed\": [{\"language\": \"python\", \"path\": \"/a\"}]}";
    assert!(matches!(Config::decode("/r", text), Err(PkitError::ConfigCorrupt)));
}

#[test]
fn decode_reads_lenient_default() {
    let text = "{\"installed\": [{\"language\": \"python\", \"version\": \"3.10\", \"path\": \"/a\"}]}";
    let c = Config::decode("/r", text).unwrap();
    assert_eq!(c.installed.len(), 1);
    assert!(!c.installed[0].default);
    assert!(c.sources.is_empty());
    assert_eq!(c.path, "/r");
}

#[test]
fn path_source_changed_in_place() {
    let mut c = Config::new(String::from("/r"));
    c.add_path_source("a", "/one").unwrap();
    c.add_path_source("b", "/two").unwrap();
    if let Some(s) = c.get_path_source_mut("b") {
        s.path = String::from("/three");
    }
    assert_eq!(c.get_path_source("b").unwrap().path, "/three");
    assert_eq!(c.get_path_source("a").unwrap().path, "/one");
    assert!(c.get_path_source_mut("zzz").is_none());
}

#[test]
fn from_doc_reads_entries_in_order() {
    let entry = |l: &str, v: &str| {
        JsonDoc::Object(vec![
            (String::from("language"), JsonDoc::Str(l.to_string())),
            (String::from("version"), JsonDoc::Str(v.to_string())),
            (String::from("path"), JsonDoc::Str(format!("/{}/{}", l, v))),
            (String::from("default"), JsonDoc::Bool(true)),
        ])
    };
    let doc = JsonDoc::Object(vec![(String::from("installed"), JsonDoc::Array(vec![entry("go", "1"), entry("zig", "2")]))]);
    let c = Config::from_doc("/r", &doc).unwrap();
    assert_eq!(c.installed.len(), 2);
    assert_eq!(c.installed[0].language, "go");
    assert_eq!(c.installed[1].path, "/zig/2");
    assert!(c.sources.is_empty());
    let bad = JsonDoc::Object(vec![(String::from("sources"), JsonDoc::Array(vec![JsonDoc::Number(String::from("3"))]))]);
    assert!(matches!(Config::from_doc("/r", &bad), Err(PkitError::ConfigCorrupt)));
    let not_object = JsonDoc::Array(vec![]);
    assert!(Config::from_doc("/r", &not_object).unwrap().installed.is_empty());
}
