//! Operating-system conventions: where the storage root and the shell
//! profiles live, and when a legacy storage root is migrated.
use vstd::prelude::*;
use vstd::string::*;
use crate::text::str_eq;

verus! {

/// The host families whose conventions differ.
#[derive(Debug, Clone, Copy, PartialEq, Eq, Structural)]
pub enum OperatingSystem {
    Windows,
    MacOS,
    Linux,
    Other,
}

/// The shells whose startup files the tool manages.
#[derive(Debug, Clone, Copy, PartialEq, Eq, Structural)]
pub enum ShellConfig {
    Bash,
    Zsh,
    Fish,
    PowerShell,
    Cmd,
}

/// PowerShell syntax is used on Windows, POSIX shell syntax elsewhere.
pub open spec fn uses_powershell(os: OperatingSystem) -> bool {
    os == OperatingSystem::Windows
}

pub fn is_powershell_host(os: OperatingSystem) -> (r: bool)
    ensures
        r == uses_powershell(os),
{
    os == OperatingSystem::Windows
}

pub open spec fn separator(os: OperatingSystem) -> char {
    if uses_powershell(os) {
        '\\'
    } else {
        '/'
    }
}

pub open spec fn is_separator(c: char, os: OperatingSystem) -> bool {
    c == '/' || (uses_powershell(os) && c == '\\')
}

/// `part` appended to `base` with the host's separator, unless `base` is
/// empty or already ends with a separator.
pub open spec fn join(base: Seq<char>, part: Seq<char>, os: OperatingSystem) -> Seq<char> {
    if base.len() == 0 {
        part
    } else if is_separator(base.last(), os) {
        base + part
    } else {
        base.push(separator(os)) + part
    }
}

/// `part` appended to `base` with the host's separator.
pub fn join_path(base: &str, part: &str, os: OperatingSystem) -> (r: String)
    ensures
        r@ == join(base@, part@, os),
{
    let n = base.unicode_len();
    let ps = is_powershell_host(os);
    if n == 0 {
        return String::from_str(part);
    }
    let last = base.get_char(n - 1);
    let mut r = String::from_str(base);
    if !(last == '/' || (ps && last == '\\')) {
        if ps {
            r.append("\\");
            proof { reveal_strlit("\\"); }
            assert("\\"@ =~= seq!['\\']);
        } else {
            r.append("/");
            proof { reveal_strlit("/"); }
            assert("/"@ =~= seq!['/']);
        }
    }
    r.append(part);
    r
}

/// The host family named by a target OS name such as `linux` or `windows`.
pub fn detect_os(name: &str) -> (r: OperatingSystem)
    ensures
        name@ == "windows"@ ==> r == OperatingSystem::Windows,
        name@ == "macos"@ ==> r == OperatingSystem::MacOS,
        name@ == "linux"@ ==> r == OperatingSystem::Linux,
        name@ != "windows"@ && name@ != "macos"@ && name@ != "linux"@ ==> r == OperatingSystem::Other,
{
    proof {
        reveal_strlit("windows");
        reveal_strlit("macos");
        reveal_strlit("linux");
        assert("macos"@.len() != "windows"@.len());
        assert("linux"@.len() != "windows"@.len());
        assert("linux"@[0] != "macos"@[0]);
    }
    if str_eq(name, "windows") {
        OperatingSystem::Windows
    } else if str_eq(name, "macos") {
        OperatingSystem::MacOS
    } else if str_eq(name, "linux") {
        OperatingSystem::Linux
    } else {
        OperatingSystem::Other
    }
}

/// The storage root: `.pkit` under the home directory, or `pkit` under the
/// application-data directory on Windows.
pub open spec fn storage_root(os: OperatingSystem, home: Seq<char>, app_data: Seq<char>) -> Seq<char> {
    if uses_powershell(os) {
        join(app_data, "pkit"@, os)
    } else {
        join(home, ".pkit"@, os)
    }
}

/// The storage root for `os`, given the home and application-data directories.
pub fn get_pkit_dir(os: OperatingSystem, home: &str, app_data: &str) -> (r: String)
    ensures
        r@ == storage_root(os, home@, app_data@),
{
    if is_powershell_host(os) {
        join_path(app_data, "pkit", os)
    } else {
        join_path(home, ".pkit", os)
    }
}

/// The storage root that earlier versions used on every host.
pub fn legacy_pkit_dir(os: OperatingSystem, home: &str) -> (r: String)
    ensures
        r@ == join(home@, ".pkit"@, os),
{
    join_path(home, ".pkit", os)
}

/// The configuration directory is the storage root.
pub fn get_pkit_config_dir(os: OperatingSystem, home: &str, app_data: &str) -> (r: String)
    ensures
        r@ == storage_root(os, home@, app_data@),
{
    get_pkit_dir(os, home, app_data)
}

/// The data directory: `data` under the storage root, or `pkit` under the
/// local application-data directory on Windows.
pub fn get_pkit_data_dir(os: OperatingSystem, root: &str, local_app_data: &str) -> (r: String)
    ensures
        uses_powershell(os) ==> r@ == join(local_app_data@, "pkit"@, os),
        !uses_powershell(os) ==> r@ == join(root@, "data"@, os),
{
    if is_powershell_host(os) {
        join_path(local_app_data, "pkit", os)
    } else {
        join_path(root, "data", os)
    }
}

/// The cache directory: `cache` under the storage root, or `cache\pkit`
/// under the local application-data directory on Windows.
pub fn get_pkit_cache_dir(os: OperatingSystem, root: &str, local_app_data: &str) -> (r: String)
    ensures
        uses_powershell(os) ==> r@ == join(join(local_app_data@, "cache"@, os), "pkit"@, os),
        !uses_powershell(os) ==> r@ == join(root@, "cache"@, os),
{
    if is_powershell_host(os) {
        let c = join_path(local_app_data, "cache", os);
        join_path(c.as_str(), "pkit", os)
    } else {
        join_path(root, "cache", os)
    }
}

/// The PowerShell profile under a user profile directory.
pub open spec fn powershell_profile(user_profile: Seq<char>, os: OperatingSystem) -> Seq<char> {
    join(join(join(user_profile, "Documents"@, os), "PowerShell"@, os), "Microsoft.PowerShell_profile.ps1"@, os)
}

pub fn get_powershell_profile_path(user_profile: &str, os: OperatingSystem) -> (r: String)
    ensures
        r@ == powershell_profile(user_profile@, os),
{
    let a = join_path(user_profile, "Documents", os);
    let b = join_path(a.as_str(), "PowerShell", os);
    join_path(b.as_str(), "Microsoft.PowerShell_profile.ps1", os)
}

/// The shell startup file managed by default: `.bashrc`, or the PowerShell profile on Windows.
pub fn get_bashrc_path(os: OperatingSystem, home: &str) -> (r: String)
    ensures
        uses_powershell(os) ==> r@ == powershell_profile(home@, os),
        !uses_powershell(os) ==> r@ == join(home@, ".bashrc"@, os),
{
    if is_powershell_host(os) {
        get_powershell_profile_path(home, os)
    } else {
        join_path(home, ".bashrc", os)
    }
}

/// The candidate shell startup files of a host, in order.
pub open spec fn shell_config_files(os: OperatingSystem, home: Seq<char>) -> Seq<(ShellConfig, Seq<char>)> {
    match os {
        OperatingSystem::MacOS => seq![
            (ShellConfig::Zsh, join(home, ".zshrc"@, os)),
            (ShellConfig::Bash, join(home, ".bash_profile"@, os)),
            (ShellConfig::Bash, join(home, ".bashrc"@, os)),
        ],
        OperatingSystem::Linux => seq![
            (ShellConfig::Bash, join(home, ".bashrc"@, os)),
            (ShellConfig::Zsh, join(home, ".zshrc"@, os)),
            (ShellConfig::Fish, join(home, ".config/fish/config.fish"@, os)),
        ],
        OperatingSystem::Other => seq![
            (ShellConfig::Bash, join(home, ".bashrc"@, os)),
            (ShellConfig::Bash, join(home, ".bash_profile"@, os)),
        ],
        OperatingSystem::Windows => seq![(ShellConfig::PowerShell, powershell_profile(home, os))],
    }
}

pub open spec fn configs_view(v: Seq<(ShellConfig, String)>) -> Seq<(ShellConfig, Seq<char>)> {
    v.map_values(|p: (ShellConfig, String)| (p.0, p.1@))
}

/// The candidate shell startup files of `os` under `home`, in order.
pub fn get_shell_config_files(os: OperatingSystem, home: &str) -> (r: Vec<(ShellConfig, String)>)
    ensures
        configs_view(r@) == shell_config_files(os, home@),
{
    let mut r: Vec<(ShellConfig, String)> = Vec::new();
    match os {
        OperatingSystem::MacOS => {
            r.push((ShellConfig::Zsh, join_path(home, ".zshrc", os)));
            r.push((ShellConfig::Bash, join_path(home, ".bash_profile", os)));
            r.push((ShellConfig::Bash, join_path(home, ".bashrc", os)));
        },
        OperatingSystem::Linux => {
            r.push((ShellConfig::Bash, join_path(home, ".bashrc", os)));
            r.push((ShellConfig::Zsh, join_path(home, ".zshrc", os)));
            r.push((ShellConfig::Fish, join_path(home, ".config/fish/config.fish", os)));
        },
        OperatingSystem::Other => {
            r.push((ShellConfig::Bash, join_path(home, ".bashrc", os)));
            r.push((ShellConfig::Bash, join_path(home, ".bash_profile", os)));
        },
        OperatingSystem::Windows => {
            r.push((ShellConfig::PowerShell, get_powershell_profile_path(home, os)));
        },
    }
    assert(configs_view(r@) =~= shell_config_files(os, home@));
    r
}

/// The profile that receives the managed block: on macOS `.zshrc` when it
/// exists, else `.bash_profile`; `.bashrc` on other POSIX hosts; the
/// PowerShell profile on Windows.
pub fn get_primary_shell_config_path(os: OperatingSystem, home: &str, zshrc_exists: bool) -> (r: String)
    ensures
        os == OperatingSystem::MacOS && zshrc_exists ==> r@ == join(home@, ".zshrc"@, os),
        os == OperatingSystem::MacOS && !zshrc_exists ==> r@ == join(home@, ".bash_profile"@, os),
        (os == OperatingSystem::Linux || os == OperatingSystem::Other) ==> r@ == join(home@, ".bashrc"@, os),
        os == OperatingSystem::Windows ==> r@ == powershell_profile(home@, os),
{
    match os {
        OperatingSystem::MacOS => {
            if zshrc_exists {
                join_path(home, ".zshrc", os)
            } else {
                join_path(home, ".bash_profile", os)
            }
        },
        OperatingSystem::Windows => get_powershell_profile_path(home, os),
        _ => join_path(home, ".bashrc", os),
    }
}

/// Whether the legacy storage root is copied into the current one: only when
/// the legacy root exists, is not the current root itself, and the current
/// root holds nothing yet.
pub open spec fn migration_due(legacy_exists: bool, same_dir: bool, current_entries: nat) -> bool {
    legacy_exists && !same_dir && current_entries == 0
}

/// Decides whether the legacy storage root is to be copied.
pub fn should_migrate(legacy_exists: bool, same_dir: bool, current_entries: usize) -> (r: bool)
    ensures
        r == migration_due(legacy_exists, same_dir, current_entries as nat),
{
    legacy_exists && !same_dir && current_entries == 0
}

/// A storage root that already holds something, a record say, is never
/// migrated into: the migration leaves it as it is.
pub proof fn lemma_migration_safe(legacy_exists: bool, same_dir: bool, current_entries: nat)
    requires
        current_entries > 0,
    ensures
        !migration_due(legacy_exists, same_dir, current_entries),
{
}

/// What `{:?}` writes for a string: quoted, with escapes.
pub uninterp spec fn debug_quoted_of(s: Seq<char>) -> Seq<char>;

/// Relies on `Debug` for `str`: the quoted, escaped form of a string, which
/// depends on the string alone.
#[verifier::external_body]
fn debug_quoted(s: &str) -> (r: String)
    ensures
        r@ == debug_quoted_of(s@),
{
    format!("{:?}", s)
}

pub open spec fn os_label(os: OperatingSystem) -> Seq<char> {
    match os {
        OperatingSystem::Windows => "Windows"@,
        OperatingSystem::MacOS => "MacOS"@,
        OperatingSystem::Linux => "Linux"@,
        OperatingSystem::Other => "Other"@,
    }
}

/// The report of where the tool keeps its files.
pub open spec fn directories_info(
    os: OperatingSystem,
    config_dir: Seq<char>,
    data_dir: Seq<char>,
    cache_dir: Seq<char>,
    profile: Seq<char>,
    legacy_dir: Option<Seq<char>>,
) -> Seq<char> {
    "Operating System: "@ + os_label(os) + "\nConfig Directory: "@ + debug_quoted_of(config_dir)
        + "\nData Directory: "@ + debug_quoted_of(data_dir) + "\nCache Directory: "@ + debug_quoted_of(
        cache_dir,
    ) + "\nPrimary Shell Config: "@ + debug_quoted_of(profile) + "\n"@ + match legacy_dir {
        Some(d) => "Legacy Directory (exists): "@ + debug_quoted_of(d) + "\n"@,
        None => Seq::empty(),
    }
}

/// The report of where the tool keeps its files; `legacy_dir` is the legacy
/// storage root when it exists.
pub fn get_pkit_directories_info(
    os: OperatingSystem,
    config_dir: &str,
    data_dir: &str,
    cache_dir: &str,
    profile: &str,
    legacy_dir: Option<&str>,
) -> (r: String)
    ensures
        r@ == directories_info(
            os,
            config_dir@,
            data_dir@,
            cache_dir@,
            profile@,
            match legacy_dir {
                Some(d) => Some(d@),
                None => None,
            },
        ),
{
    let mut r = String::from_str("Operating System: ");
    match os {
        OperatingSystem::Windows => r.append("Windows"),
        OperatingSystem::MacOS => r.append("MacOS"),
        OperatingSystem::Linux => r.append("Linux"),
        OperatingSystem::Other => r.append("Other"),
    }
    r.append("\nConfig Directory: ");
    r.append(debug_quoted(config_dir).as_str());
    r.append("\nData Directory: ");
    r.append(debug_quoted(data_dir).as_str());
    r.append("\nCache Directory: ");
    r.append(debug_quoted(cache_dir).as_str());
    r.append("\nPrimary Shell Config: ");
    r.append(debug_quoted(profile).as_str());
    r.append("\n");
    if let Some(d) = legacy_dir {
        r.append("Legacy Directory (exists): ");
        r.append(debug_quoted(d).as_str());
        r.append("\n");
    }
    r
}

} // verus!
