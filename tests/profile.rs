use pkit::paths::OperatingSystem;
use pkit::profile::{clean_shell_pkit_entries, generate_env_setup_lines, generate_shell_function, setup_profile};

#[test]
fn setup_twice_is_setup_once() {
    let original = "alias ll='ls -l'\nexport EDITOR=vim\n";
    let once = setup_profile(original, "/home/u/.pkit", "/usr/local/bin", OperatingSystem::Linux);
    let twice = setup_profile(&once, "/home/u/.pkit", "/usr/local/bin", OperatingSystem::Linux);
    assert_eq!(once, twice);
    assert!(once.starts_with("alias ll='ls -l'\nexport EDITOR=vim\n# pkit-cli-env-start\n"));
    assert!(once.ends_with("# pkit-cli-env-end\n"));
    assert_eq!(once.matches("# pkit-cli-env-start").count(), 1);
}

#[test]
fn setup_twice_on_powershell() {
    let once = setup_profile("Set-Alias g git", "C:\\Users\\u\\AppData\\Roaming\\pkit", "C:\\Tools", OperatingSystem::Windows);
    let twice = setup_profile(&once, "C:\\Users\\u\\AppData\\Roaming\\pkit", "C:\\Tools", OperatingSystem::Windows);
    assert_eq!(once, twice);
    assert!(once.contains("$env:PKIT_HOME = \"C:\\Users\\u\\AppData\\Roaming\\pkit\"\n"));
    assert!(once.contains("$env:PATH = \"$env:PATH;C:\\Tools\"\n"));
}

#[test]
fn setup_repairs_duplicated_blocks_and_functions() {
    let legacy = "a\n\n\n# pkit-cli-env-start\nexport PKIT_HOME=\"/old\"\n[[ -s \"$PKIT_HOME/pkit_env.sh\" ]] && source \"$PKIT_HOME/pkit_env.sh\"\n# pkit-cli-env-end\n\npkit() {\n  command pkit \"$@\"\n}\nb\n# pkit-cli-env-start\nexport PKIT_HOME=\"/old\"\n# pkit-cli-env-end\nexport PKIT_HOME=\"/stray\"\nc";
    let cleaned = clean_shell_pkit_entries(legacy, OperatingSystem::Linux);
    assert_eq!(cleaned, "a\n\n\n\nb\nc");
    let set = setup_profile(legacy, "/new", "", OperatingSystem::Linux);
    assert_eq!(set.matches("# pkit-cli-env-start").count(), 1);
    assert_eq!(set.matches("pkit() {").count(), 1);
    assert!(!set.contains("/old"));
    assert!(set.starts_with("a\n\n\n\nb\nc\n# pkit-cli-env-start\nexport PKIT_HOME=\"/new\"\n"));
}

#[test]
fn setup_of_empty_profile_is_the_block() {
    let set = setup_profile("", "/h/.pkit", "", OperatingSystem::Linux);
    assert_eq!(set, generate_env_setup_lines("/h/.pkit", "", OperatingSystem::Linux));
}

#[test]
fn block_holds_function_between_markers() {
    let block = generate_env_setup_lines("/h/.pkit", "", OperatingSystem::MacOS);
    let function = generate_shell_function(OperatingSystem::MacOS);
    assert!(block.starts_with("# pkit-cli-env-start\nexport PKIT_HOME=\"/h/.pkit\"\n[[ -s \"$PKIT_HOME/pkit_env.sh\" ]] && source \"$PKIT_HOME/pkit_env.sh\"\n"));
    assert!(block.contains(&function));
    assert!(block.ends_with("}\n# pkit-cli-env-end\n"));
    assert!(function.starts_with("pkit() {\n  command pkit \"$@\"\n"));
    assert!(function.contains("      install|uninstall|default|switch)\n"));
}

#[test]
fn cleaning_keeps_plain_lines() {
    let text = "one\n  two  \n}\nthree";
    assert_eq!(clean_shell_pkit_entries(text, OperatingSystem::Linux), "one\n  two  \n}\nthree");
}

#[test]
fn cleaning_drops_powershell_function() {
    let text = "x\nfunction pkit {\n    & pkit @args\n}\ny\n$env:PKIT_HOME = \"C:\\old\"\n";
    assert_eq!(clean_shell_pkit_entries(text, OperatingSystem::Windows), "x\ny");
}

#[test]
fn setup_twice_with_hash_in_root() {
    let once = setup_profile("# my settings\n", "/home/u/#work/.pkit", "/opt/#bin", OperatingSystem::Linux);
    let twice = setup_profile(&once, "/home/u/#work/.pkit", "/opt/#bin", OperatingSystem::Linux);
    assert_eq!(once, twice);
    assert!(once.starts_with("# my settings\n# pkit-cli-env-start\nexport PKIT_HOME=\"/home/u/#work/.pkit\"\n"));
}

#[test]
fn cleaning_adds_no_final_newline() {
    assert_eq!(clean_shell_pkit_entries("a", OperatingSystem::Linux), "a");
    assert_eq!(clean_shell_pkit_entries("a\n", OperatingSystem::Linux), "a");
    assert_eq!(clean_shell_pkit_entries("", OperatingSystem::Linux), "");
    assert_eq!(clean_shell_pkit_entries("# pkit-cli-env-start\nx\n# pkit-cli-env-end\n", OperatingSystem::Linux), "");
}
