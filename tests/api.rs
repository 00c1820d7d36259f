use pkit::api::{
    get_filters, language_listed, language_url, language_version_url, languages_url, parse_language, parse_languages,
    parse_version, version_listed,
};

#[test]
fn filters() {
    assert_eq!(get_filters("linux", "x86_64", true), "?platform=linux&arch=x64");
    assert_eq!(get_filters("macos", "aarch64", true), "?platform=darwin&arch=arm64");
    assert_eq!(get_filters("windows", "arm", true), "?platform=win&arch=arm64");
    assert_eq!(get_filters("windows", "arm", false), "?platform=win&arch=none");
    assert_eq!(get_filters("freebsd", "riscv64", true), "?platform=&arch=none");
}

#[test]
fn urls() {
    assert_eq!(languages_url(), "https://pkit.sirblob.co/api/language");
    assert_eq!(language_url("Python", "?p"), "https://pkit.sirblob.co/api/language/python?p");
    assert_eq!(language_version_url("NODE", "20", "?q"), "https://pkit.sirblob.co/api/language/node/20?q");
}

#[test]
fn catalog_answers() {
    let langs = parse_languages("[\"python\", \"Node\"]").unwrap();
    assert_eq!(langs, vec!["python", "Node"]);
    assert!(language_listed(&langs, "PYTHON"));
    assert!(language_listed(&langs, "node"));
    assert!(!language_listed(&langs, "ruby"));
    assert!(parse_languages("nope").is_none());
    let l = parse_language("python", "[{\"name\": \"python\", \"version\": \"3.11\", \"platform\": \"linux\", \"arch\": \"x64\", \"url\": \"https://x/p.tar.gz\"}]").unwrap();
    assert_eq!(l.name, "python");
    assert_eq!(l.versions.len(), 1);
    assert_eq!(l.versions[0].url, "https://x/p.tar.gz");
    assert!(version_listed(&l, "3.11"));
    assert!(!version_listed(&l, "3.12"));
    let v = parse_version("{\"name\": \"go\", \"version\": \"1.22\", \"platform\": \"linux\", \"arch\": \"x64\", \"url\": \"u\"}").unwrap();
    assert_eq!(v.language, "go");
    assert_eq!(v.version, "1.22");
    assert!(parse_version("{").is_none());
}
