use pkit::paths::{
    detect_os, get_bashrc_path, get_pkit_cache_dir, get_pkit_config_dir, get_pkit_data_dir, get_pkit_dir,
    get_pkit_directories_info, get_primary_shell_config_path, get_shell_config_files, join_path,
    legacy_pkit_dir, should_migrate, OperatingSystem, ShellConfig,
};

#[test]
fn storage_roots() {
    assert_eq!(get_pkit_dir(OperatingSystem::Linux, "/home/u", ""), "/home/u/.pkit");
    assert_eq!(get_pkit_dir(OperatingSystem::MacOS, "/Users/u/", ""), "/Users/u/.pkit");
    assert_eq!(
        get_pkit_dir(OperatingSystem::Windows, "C:\\Users\\u", "C:\\Users\\u\\AppData\\Roaming"),
        "C:\\Users\\u\\AppData\\Roaming\\pkit"
    );
    assert_eq!(get_pkit_config_dir(OperatingSystem::Linux, "/home/u", ""), "/home/u/.pkit");
    assert_eq!(legacy_pkit_dir(OperatingSystem::Windows, "C:\\Users\\u"), "C:\\Users\\u\\.pkit");
}

#[test]
fn data_and_cache_dirs() {
    assert_eq!(get_pkit_data_dir(OperatingSystem::Linux, "/h/.pkit", ""), "/h/.pkit/data");
    assert_eq!(get_pkit_cache_dir(OperatingSystem::Linux, "/h/.pkit", ""), "/h/.pkit/cache");
    assert_eq!(get_pkit_data_dir(OperatingSystem::Windows, "", "C:\\L"), "C:\\L\\pkit");
    assert_eq!(get_pkit_cache_dir(OperatingSystem::Windows, "", "C:\\L"), "C:\\L\\cache\\pkit");
}

#[test]
fn shell_config_candidates() {
    let mac = get_shell_config_files(OperatingSystem::MacOS, "/Users/u");
    assert_eq!(
        mac,
        vec![
            (ShellConfig::Zsh, String::from("/Users/u/.zshrc")),
            (ShellConfig::Bash, String::from("/Users/u/.bash_profile")),
            (ShellConfig::Bash, String::from("/Users/u/.bashrc")),
        ]
    );
    let linux = get_shell_config_files(OperatingSystem::Linux, "/home/u");
    assert_eq!(linux[2], (ShellConfig::Fish, String::from("/home/u/.config/fish/config.fish")));
    let win = get_shell_config_files(OperatingSystem::Windows, "C:\\Users\\u");
    assert_eq!(
        win,
        vec![(ShellConfig::PowerShell, String::from("C:\\Users\\u\\Documents\\PowerShell\\Microsoft.PowerShell_profile.ps1"))]
    );
}

#[test]
fn primary_profile() {
    assert_eq!(get_primary_shell_config_path(OperatingSystem::MacOS, "/U", true), "/U/.zshrc");
    assert_eq!(get_primary_shell_config_path(OperatingSystem::MacOS, "/U", false), "/U/.bash_profile");
    assert_eq!(get_primary_shell_config_path(OperatingSystem::Linux, "/U", true), "/U/.bashrc");
    assert_eq!(get_primary_shell_config_path(OperatingSystem::Other, "/U", false), "/U/.bashrc");
    assert_eq!(get_bashrc_path(OperatingSystem::Linux, "/U"), "/U/.bashrc");
}

#[test]
fn migration_only_into_an_empty_root() {
    assert!(should_migrate(true, false, 0));
    assert!(!should_migrate(true, false, 1));
    assert!(!should_migrate(true, false, 7));
    assert!(!should_migrate(false, false, 0));
    assert!(!should_migrate(true, true, 0));
}

#[test]
fn os_names() {
    assert_eq!(detect_os("linux"), OperatingSystem::Linux);
    assert_eq!(detect_os("macos"), OperatingSystem::MacOS);
    assert_eq!(detect_os("windows"), OperatingSystem::Windows);
    assert_eq!(detect_os("freebsd"), OperatingSystem::Other);
}

#[test]
fn joining() {
    assert_eq!(join_path("a", "b", OperatingSystem::Linux), "a/b");
    assert_eq!(join_path("", "b", OperatingSystem::Linux), "b");
    assert_eq!(join_path("C:/a", "b", OperatingSystem::Windows), "C:/a\\b");
    assert_eq!(join_path("C:/a/", "b", OperatingSystem::Windows), "C:/a/b");
}

#[test]
fn directories_report() {
    let info = get_pkit_directories_info(OperatingSystem::Linux, "/h/.pkit", "/h/.pkit/data", "/h/.pkit/cache", "/h/.bashrc", None);
    assert_eq!(
        info,
        "Operating System: Linux\nConfig Directory: \"/h/.pkit\"\nData Directory: \"/h/.pkit/data\"\nCache Directory: \"/h/.pkit/cache\"\nPrimary Shell Config: \"/h/.bashrc\"\n"
    );
    let win = get_pkit_directories_info(OperatingSystem::Windows, "C:\\a", "d", "c", "p", Some("C:\\u\\.pkit"));
    assert!(win.starts_with("Operating System: Windows\nConfig Directory: \"C:\\\\a\"\n"));
    assert!(win.ends_with("Legacy Directory (exists): \"C:\\\\u\\\\.pkit\"\n"));
}
