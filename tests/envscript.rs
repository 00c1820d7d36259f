use pkit::envscript::{bin_path, generate_path_export, SessionOverride};
use pkit::paths::OperatingSystem;
use pkit::registry::Config;

fn sample() -> Config {
    let mut c = Config::new(String::from("/r"));
    c.add_install("python", "3.11", "/r/bin/python/3.11", true);
    c.add_install("node", "20", "/r/bin/node/20", true);
    c.add_install("go", "1.22", "/r/bin/go/1.22", false);
    c.add_path_source("tools", "/opt/tools").unwrap();
    c
}

#[test]
fn posix_script_text() {
    let c = sample();
    assert_eq!(
        c.env_script(OperatingSystem::Linux, None),
        "#!/bin/sh\n# pkit environment script - automatically generated\n\n\
export PATH=\"/r/bin/python/3.11/bin:$PATH\"\n\
export PATH=\"/r/bin/node/20/bin:$PATH\"\n\
export PATH=\"/opt/tools:$PATH\"\n"
    );
}

#[test]
fn powershell_script_text() {
    let mut c = Config::new(String::from("C:\\p"));
    c.add_install("python", "3.11", "C:\\p\\bin\\python\\3.11", true);
    assert_eq!(
        c.env_script(OperatingSystem::Windows, None),
        "# pkit environment script - automatically generated\n\n\
$env:PATH = \"C:\\p\\bin\\python\\3.11\\bin;$env:PATH\"\n"
    );
}

#[test]
fn script_is_deterministic_and_follows_registry_order() {
    let c = sample();
    assert_eq!(c.env_script(OperatingSystem::Linux, None), c.env_script(OperatingSystem::Linux, None));
    let mut d = Config::new(String::from("/r"));
    d.add_install("python", "3.11", "/r/bin/python/3.11", false);
    d.add_install("node", "20", "/r/bin/node/20", true);
    d.add_install("go", "1.22", "/r/bin/go/1.22", false);
    d.set_default("python", "3.11").unwrap();
    d.add_path_source("tools", "/opt/tools").unwrap();
    assert_eq!(d.env_script(OperatingSystem::Linux, None), c.env_script(OperatingSystem::Linux, None));
    let entries = c.path_entries(OperatingSystem::Linux, None);
    assert_eq!(entries, vec!["/r/bin/python/3.11/bin", "/r/bin/node/20/bin", "/opt/tools"]);
}

#[test]
fn session_override_comes_first() {
    let mut c = Config::new(String::from("/r"));
    c.add_install("python", "3.11", "/r/bin/python/3.11", true);
    c.add_install("python", "3.12", "/r/bin/python/3.12", false);
    c.add_install("node", "20", "/r/bin/node/20", true);
    let o = SessionOverride { language: String::from("python"), install_path: String::from("/r/bin/python/3.12") };
    let entries = c.path_entries(OperatingSystem::Linux, Some(&o));
    assert_eq!(entries[0], "/r/bin/python/3.12/bin");
    assert!(!entries[1..].iter().any(|e| e == "/r/bin/python/3.11/bin"));
    assert_eq!(entries, vec!["/r/bin/python/3.12/bin", "/r/bin/node/20/bin"]);
    let script = c.env_script(OperatingSystem::Linux, Some(&o));
    let exports: Vec<&str> = script.lines().filter(|l| l.starts_with("export PATH=")).collect();
    assert_eq!(exports[0], "export PATH=\"/r/bin/python/3.12/bin:$PATH\"");
    assert!(!script.contains("3.11"));
    assert!(script.starts_with("#!/bin/sh\n# pkit session environment script - automatically generated\n# This temporarily overrides the default language for this session\n\n"));
}

#[test]
fn session_script_text() {
    let mut c = Config::new(String::from("/p"));
    c.add_install("python", "3.11", "/p/py311", true);
    let o = SessionOverride { language: String::from("python"), install_path: String::from("/p/py312") };
    assert_eq!(
        c.env_script(OperatingSystem::Linux, Some(&o)),
        "#!/bin/sh\n# pkit session environment script - automatically generated\n# This temporarily overrides the default language for this session\n\nexport PATH=\"/p/py312/bin:$PATH\"\n"
    );
}

#[test]
fn bin_path_joins() {
    assert_eq!(bin_path("/a/b", OperatingSystem::Linux), "/a/b/bin");
    assert_eq!(bin_path("/a/b/", OperatingSystem::Linux), "/a/b/bin");
    assert_eq!(bin_path("", OperatingSystem::Linux), "bin");
    assert_eq!(bin_path("C:\\x", OperatingSystem::Windows), "C:\\x\\bin");
    assert_eq!(bin_path("C:\\x\\", OperatingSystem::Windows), "C:\\x\\bin");
}

#[test]
fn path_export_lines() {
    assert_eq!(generate_path_export("/x/bin", OperatingSystem::MacOS), "export PATH=\"/x/bin:$PATH\"\n");
    assert_eq!(generate_path_export("C:\\x", OperatingSystem::Windows), "$env:PATH = \"C:\\x;$env:PATH\"\n");
}
