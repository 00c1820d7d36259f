use pkit::paths::OperatingSystem;
use pkit::registry::{Config, PkitError};
use pkit::workflow::{
    default_command, install_dir, path_command, uninstall_all_versions, uninstall_version, DefaultOutcome,
    PathOutcome, UninstallOutcome,
};

fn three_pythons() -> Config {
    let mut c = Config::new(String::from("/r"));
    c.add_install("python", "3.10", "/a", false);
    c.add_install("python", "3.11", "/b", true);
    c.add_install("python", "3.12", "/c", false);
    c.add_install("node", "20", "/n", true);
    c
}

#[test]
fn uninstall_missing_version() {
    let mut c = three_pythons();
    assert!(matches!(uninstall_version(&mut c, "python", "2.7"), Err(PkitError::NotInstalled)));
    assert_eq!(c.installed.len(), 4);
}

#[test]
fn uninstall_non_default() {
    let mut c = three_pythons();
    assert!(matches!(uninstall_version(&mut c, "python", "3.10"), Ok(UninstallOutcome::Removed)));
    assert_eq!(c.installed.len(), 3);
}

#[test]
fn uninstall_default_with_several_left() {
    let mut c = three_pythons();
    match uninstall_version(&mut c, "python", "3.11") {
        Ok(UninstallOutcome::ChooseDefault(vs)) => assert_eq!(vs, vec!["3.10", "3.12"]),
        other => panic!("unexpected {:?}", other),
    }
    assert!(c.get_default("python").is_none());
}

#[test]
fn uninstall_default_with_one_left() {
    let mut c = Config::new(String::from("/r"));
    c.add_install("go", "1.21", "/a", false);
    c.add_install("go", "1.22", "/b", true);
    match uninstall_version(&mut c, "go", "1.22") {
        Ok(UninstallOutcome::NewDefault(v)) => assert_eq!(v, "1.21"),
        other => panic!("unexpected {:?}", other),
    }
    assert_eq!(c.get_default("go").unwrap().version, "1.21");
    assert!(matches!(uninstall_version(&mut c, "go", "1.21"), Ok(UninstallOutcome::NoVersionLeft)));
    assert!(c.installed.is_empty());
}

#[test]
fn uninstall_all() {
    let mut c = three_pythons();
    let removed = uninstall_all_versions(&mut c, "python");
    assert_eq!(removed, vec!["3.10", "3.11", "3.12"]);
    assert_eq!(c.installed.len(), 1);
    assert_eq!(c.installed[0].language, "node");
    assert!(uninstall_all_versions(&mut c, "ruby").is_empty());
}

#[test]
fn default_command_cases() {
    let mut c = three_pythons();
    match default_command(&mut c, "python", None, true) {
        DefaultOutcome::Shown(Some(v)) => assert_eq!(v, "3.11"),
        other => panic!("unexpected {:?}", other),
    }
    assert!(matches!(default_command(&mut c, "ruby", None, true), DefaultOutcome::Shown(None)));
    assert!(matches!(default_command(&mut c, "python", Some("3.12"), false), DefaultOutcome::Changed(ref v) if v == "3.12"));
    assert_eq!(c.get_default("python").unwrap().version, "3.12");
    assert!(matches!(default_command(&mut c, "python", Some("9"), false), DefaultOutcome::NotInstalled));
    assert!(matches!(default_command(&mut c, "ruby", None, false), DefaultOutcome::NoVersions));
    match default_command(&mut c, "python", None, false) {
        DefaultOutcome::Multiple(vs) => assert_eq!(vs, vec!["3.10", "3.11", "3.12"]),
        other => panic!("unexpected {:?}", other),
    }
    let mut d = Config::new(String::from("/r"));
    d.add_install("zig", "0.13", "/z", false);
    assert!(matches!(default_command(&mut d, "zig", None, false), DefaultOutcome::Changed(ref v) if v == "0.13"));
    assert!(d.get_default("zig").is_some());
}

#[test]
fn path_command_cases() {
    let mut c = Config::new(String::from("/r"));
    assert_eq!(path_command(&mut c, "add", Some("t"), Some("/t"), false), PathOutcome::PathMissing);
    assert_eq!(path_command(&mut c, "add", Some("t"), None, true), PathOutcome::NameAndPathRequired);
    assert_eq!(path_command(&mut c, "add", Some("t"), Some("/t"), true), PathOutcome::Added);
    assert_eq!(path_command(&mut c, "add", Some("t"), Some("/u"), true), PathOutcome::SourceExists);
    assert_eq!(path_command(&mut c, "set", None, None, true), PathOutcome::NameRequired);
    assert_eq!(path_command(&mut c, "set", Some("q"), Some("/u"), true), PathOutcome::SourceMissing);
    assert_eq!(path_command(&mut c, "set", Some("t"), None, true), PathOutcome::Shown);
    assert_eq!(path_command(&mut c, "set", Some("t"), Some("/u"), false), PathOutcome::PathMissing);
    assert_eq!(path_command(&mut c, "set", Some("t"), Some("/u"), true), PathOutcome::Updated);
    assert_eq!(c.get_path_source("t").unwrap().path, "/u");
    assert_eq!(path_command(&mut c, "list", None, None, false), PathOutcome::Listed);
    assert_eq!(path_command(&mut c, "remove", Some("q"), None, false), PathOutcome::SourceMissing);
    assert_eq!(path_command(&mut c, "remove", None, None, false), PathOutcome::NameRequired);
    assert_eq!(path_command(&mut c, "remove", Some("t"), None, false), PathOutcome::Removed);
    assert_eq!(path_command(&mut c, "frob", None, None, false), PathOutcome::UnknownAction);
    assert!(c.sources.is_empty());
}

#[test]
fn install_directory() {
    assert_eq!(install_dir("/h/.pkit", "python", "3.11", OperatingSystem::Linux), "/h/.pkit/bin/python/3.11");
    assert_eq!(install_dir("C:\\p", "go", "1.22", OperatingSystem::Windows), "C:\\p\\bin\\go\\1.22");
}

#[test]
fn installed_listing() {
    let c = three_pythons();
    let lines = c.installed_lines();
    assert_eq!(lines[0], "  Python 3.10 (/a)");
    assert_eq!(lines[1], "* Python 3.11 (/b)");
    assert_eq!(lines[3], "* Node 20 (/n)");
}
