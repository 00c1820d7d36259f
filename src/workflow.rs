//! The decisions of the command workflows. Each function changes the
//! registry in memory and says what happened; the caller prints, asks the
//! user where a choice is left open, persists the registry and regenerates
//! the environment script.
use vstd::prelude::*;
use crate::paths::{OperatingSystem, join, join_path};
use crate::registry::{
    Config, ConfigView, InstalledView, PkitError, has_key, has_source, key_matches, with_default,
    with_source_path, without_key, without_source,
};
use crate::text::str_eq;
use crate::formatter::{capitalize_first, capitalized};
use vstd::string::*;

verus! {

/// The versions installed for `language`, in registry order.
pub open spec fn versions_of(s: Seq<InstalledView>, language: Seq<char>) -> Seq<Seq<char>>
    decreases s.len(),
{
    if s.len() == 0 {
        Seq::empty()
    } else if s.last().language == language {
        versions_of(s.drop_last(), language).push(s.last().version)
    } else {
        versions_of(s.drop_last(), language)
    }
}

pub open spec fn strings_view(v: Seq<String>) -> Seq<Seq<char>> {
    v.map_values(|s: String| s@)
}

impl Config {
    /// The versions installed for `language`, in registry order.
    pub fn versions_of(&self, language: &str) -> (r: Vec<String>)
        ensures
            strings_view(r@) == versions_of(self@.installed, language@),
    {
        let ghost all = self@.installed;
        let mut r: Vec<String> = Vec::new();
        let mut i: usize = 0;
        while i < self.installed.len()
            invariant
                all == self@.installed,
                i <= self.installed@.len(),
                strings_view(r@) == versions_of(all.subrange(0, i as int), language@),
            decreases self.installed@.len() - i,
        {
            assert(all.subrange(0, i + 1).drop_last() =~= all.subrange(0, i as int));
            assert(all.subrange(0, i + 1).last() == self.installed@[i as int]@);
            if str_eq(self.installed[i].language.as_str(), language) {
                let ghost before = r@;
                r.push(self.installed[i].version.clone());
                assert(strings_view(r@) =~= strings_view(before).push(self.installed@[i as int].version@));
            }
            i += 1;
        }
        assert(all.subrange(0, self.installed@.len() as int) =~= all);
        r
    }
}

/// The entry keyed (language, version) is installed and is the default.
pub open spec fn is_default_entry(s: Seq<InstalledView>, language: Seq<char>, version: Seq<char>) -> bool {
    exists|i: int| 0 <= i < s.len() && key_matches(#[trigger] s[i], language, version) && s[i].default
}

/// What follows from removing one version.
#[derive(Debug)]
pub enum UninstallOutcome {
    /// The removed version was not the default.
    Removed,
    /// It was the default and no version of the language is left.
    NoVersionLeft,
    /// It was the default and the one version left became the default.
    NewDefault(String),
    /// It was the default and several versions are left: the user picks one.
    ChooseDefault(Vec<String>),
}

/// Removes (language, version). Fails with `NotInstalled`, changing nothing,
/// when it is not installed. When the removed version was the default and
/// exactly one version of the language is left, that one becomes the default.
pub fn uninstall_version(config: &mut Config, language: &str, version: &str) -> (r: Result<UninstallOutcome, PkitError>)
    ensures
        !has_key(old(config)@.installed, language@, version@) ==> (r matches Err(e) && e
            == PkitError::NotInstalled) && final(config)@ == old(config)@,
        has_key(old(config)@.installed, language@, version@) ==> r is Ok,
        r matches Ok(o) ==> ((old(config)@.wf() ==> (o is Removed <==> !is_default_entry(
            old(config)@.installed,
            language@,
            version@,
        ))) && {
            let removed = without_key(old(config)@.installed, language@, version@);
            let left = versions_of(removed, language@);
            &&& final(config)@.root == old(config)@.root
            &&& final(config)@.sources == old(config)@.sources
            &&& match o {
                UninstallOutcome::Removed => final(config)@.installed == removed,
                UninstallOutcome::NoVersionLeft => final(config)@.installed == removed && left.len() == 0,
                UninstallOutcome::NewDefault(v) => left.len() == 1 && v@ == left[0]
                    && final(config)@.installed == with_default(removed, language@, v@),
                UninstallOutcome::ChooseDefault(vs) => left.len() > 1 && strings_view(vs@) == left
                    && final(config)@.installed == removed,
            }
        }),
        old(config)@.wf() ==> final(config)@.wf(),
{
    let was_default = match config.get(language, version) {
        None => return Err(PkitError::NotInstalled),
        Some(e) => e.default,
    };
    proof {
        let s = old(config)@.installed;
        if old(config)@.wf() {
            let i = choose|i: int| 0 <= i < s.len() && key_matches(s[i], language@, version@) && s[i].default == was_default;
            assert forall|j: int| 0 <= j < s.len() && key_matches(#[trigger] s[j], language@, version@) implies j == i by {
                if j != i {
                    assert(crate::registry::keys_rel()(s[i], s[j]));
                }
            }
        }
    }
    config.remove_install(language, version);
    if !was_default {
        return Ok(UninstallOutcome::Removed);
    }
    let left = config.versions_of(language);
    if left.len() == 0 {
        Ok(UninstallOutcome::NoVersionLeft)
    } else if left.len() == 1 {
        let v = left[0].clone();
        proof {
            lemma_versions_present(config@.installed, language@, 0);
        }
        let _ = config.set_default(language, v.as_str());
        Ok(UninstallOutcome::NewDefault(v))
    } else {
        Ok(UninstallOutcome::ChooseDefault(left))
    }
}

/// Every listed version of a language is installed.
pub proof fn lemma_versions_present(s: Seq<InstalledView>, language: Seq<char>, k: int)
    requires
        0 <= k < versions_of(s, language).len(),
    ensures
        has_key(s, language, versions_of(s, language)[k]),
    decreases s.len(),
{
    let init = s.drop_last();
    if k < versions_of(init, language).len() {
        lemma_versions_present(init, language, k);
        let i = choose|i: int| 0 <= i < init.len() && key_matches(#[trigger] init[i], language, versions_of(init, language)[k]);
        assert(s[i] == init[i]);
    } else {
        assert(key_matches(s[s.len() - 1], language, versions_of(s, language)[k]));
    }
}

/// The installed list without any entry of `language`.
pub open spec fn without_language(s: Seq<InstalledView>, language: Seq<char>) -> Seq<InstalledView> {
    s.filter(|e: InstalledView| e.language != language)
}

/// Removes every version of `language` and returns the removed versions, in
/// registry order.
pub fn uninstall_all_versions(config: &mut Config, language: &str) -> (r: Vec<String>)
    ensures
        strings_view(r@) == versions_of(old(config)@.installed, language@),
        final(config)@ == (ConfigView {
            installed: without_language(old(config)@.installed, language@),
            ..old(config)@
        }),
        old(config)@.wf() ==> final(config)@.wf(),
{
    let removed = config.versions_of(language);
    let ghost all = old(config)@.installed;
    let mut list: Vec<crate::registry::Installed> = Vec::new();
    core::mem::swap(&mut config.installed, &mut list);
    let mut i: usize = 0;
    while i < list.len()
        invariant
            i <= list@.len(),
            crate::registry::installed_view(list@) == all,
            all == old(config)@.installed,
            config.path == old(config).path,
            config.sources == old(config).sources,
            crate::registry::installed_view(config.installed@) == without_language(all.subrange(0, i as int), language@),
        decreases list@.len() - i,
    {
        proof {
            reveal(Seq::filter);
            assert(all.subrange(0, i + 1).drop_last() =~= all.subrange(0, i as int));
            assert(all.subrange(0, i + 1).last() == list@[i as int]@);
        }
        if !str_eq(list[i].language.as_str(), language) {
            let e = crate::registry::Installed {
                language: list[i].language.clone(),
                version: list[i].version.clone(),
                path: list[i].path.clone(),
                default: list[i].default,
            };
            let ghost before = config.installed@;
            let ghost ev = e@;
            config.installed.push(e);
            assert(crate::registry::installed_view(config.installed@) =~= crate::registry::installed_view(before).push(ev));
        }
        i += 1;
    }
    assert(all.subrange(0, list@.len() as int) =~= all);
    proof {
        if old(config)@.wf() {
            crate::registry::lemma_filter_keeps_pairwise(
                all,
                |e: InstalledView| e.language != language@,
                crate::registry::keys_rel(),
            );
            crate::registry::lemma_filter_keeps_pairwise(
                all,
                |e: InstalledView| e.language != language@,
                crate::registry::defaults_rel(),
            );
        }
    }
    removed
}

/// What the default command did.
#[derive(Debug)]
pub enum DefaultOutcome {
    /// The default version of the language, if one is set.
    Shown(Option<String>),
    /// The version became the default.
    Changed(String),
    /// The requested version is not installed.
    NotInstalled,
    /// No version of the language is installed.
    NoVersions,
    /// Several versions are installed and none was named.
    Multiple(Vec<String>),
}

/// The default command: show the default of `language`, make `version` the
/// default, or, with no version named, make the only installed version the
/// default.
pub fn default_command(config: &mut Config, language: &str, version: Option<&str>, show: bool) -> (r: DefaultOutcome)
    ensures
        show ==> final(config)@ == old(config)@ && (r matches DefaultOutcome::Shown(d) && (d is None <==> !(exists|i: int|
            0 <= i < old(config)@.installed.len() && (#[trigger] old(config)@.installed[i]).language == language@
                && old(config)@.installed[i].default)) && (d matches Some(v) ==> exists|i: int|
            0 <= i < old(config)@.installed.len() && (#[trigger] old(config)@.installed[i]).language == language@
                && old(config)@.installed[i].default && old(config)@.installed[i].version == v@)),
        !show && version is Some && has_key(old(config)@.installed, language@, version->0@) ==> (r matches DefaultOutcome::Changed(v) && v@ == version->0@)
            && final(config)@ == (ConfigView { installed: with_default(old(config)@.installed, language@, version->0@), ..old(config)@ }),
        !show && version is Some && !has_key(old(config)@.installed, language@, version->0@) ==> r is NotInstalled && final(config)@ == old(config)@,
        !show && version is None && versions_of(old(config)@.installed, language@).len() == 0 ==> r is NoVersions && final(config)@ == old(config)@,
        !show && version is None && versions_of(old(config)@.installed, language@).len() == 1 ==> (r matches DefaultOutcome::Changed(v)
            && v@ == versions_of(old(config)@.installed, language@)[0])
            && final(config)@ == (ConfigView { installed: with_default(old(config)@.installed, language@, versions_of(old(config)@.installed, language@)[0]), ..old(config)@ }),
        !show && version is None && versions_of(old(config)@.installed, language@).len() > 1 ==> (r matches DefaultOutcome::Multiple(vs)
            && strings_view(vs@) == versions_of(old(config)@.installed, language@)) && final(config)@ == old(config)@,
        old(config)@.wf() ==> final(config)@.wf(),
{
    if show {
        return match config.get_default(language) {
            Some(e) => DefaultOutcome::Shown(Some(e.version.clone())),
            None => DefaultOutcome::Shown(None),
        };
    }
    match version {
        Some(v) => {
            match config.set_default(language, v) {
                Ok(()) => DefaultOutcome::Changed(v.to_owned()),
                Err(_) => DefaultOutcome::NotInstalled,
            }
        },
        None => {
            let vs = config.versions_of(language);
            if vs.len() == 0 {
                DefaultOutcome::NoVersions
            } else if vs.len() == 1 {
                let v = vs[0].clone();
                proof {
                    lemma_versions_present(config@.installed, language@, 0);
                }
                let _ = config.set_default(language, v.as_str());
                DefaultOutcome::Changed(v)
            } else {
                DefaultOutcome::Multiple(vs)
            }
        },
    }
}

/// What the path command did.
#[derive(Debug, Clone, Copy, PartialEq, Eq, Structural)]
pub enum PathOutcome {
    Added,
    Updated,
    Removed,
    /// `set` without a path: the caller shows the source's current path.
    Shown,
    /// `list`: the caller lists the sources.
    Listed,
    /// The directory to add or set does not exist.
    PathMissing,
    SourceExists,
    SourceMissing,
    NameRequired,
    NameAndPathRequired,
    UnknownAction,
}

/// The path command: `add`, `set`, `remove` or `list` a path source.
/// `path_exists` says whether the directory given, if any, exists.
pub fn path_command(
    config: &mut Config,
    action: &str,
    name: Option<&str>,
    path: Option<&str>,
    path_exists: bool,
) -> (r: PathOutcome)
    ensures
        action@ == "add"@ ==> match (name, path) {
            (Some(n), Some(p)) => if !path_exists {
                r == PathOutcome::PathMissing && final(config)@ == old(config)@
            } else if has_source(old(config)@.sources, n@) {
                r == PathOutcome::SourceExists && final(config)@ == old(config)@
            } else {
                r == PathOutcome::Added && final(config)@ == (ConfigView {
                    sources: old(config)@.sources.push(crate::registry::SourceView { name: n@, path: p@ }),
                    ..old(config)@
                })
            },
            _ => r == PathOutcome::NameAndPathRequired && final(config)@ == old(config)@,
        },
        action@ == "set"@ ==> match (name, path) {
            (None, _) => r == PathOutcome::NameRequired && final(config)@ == old(config)@,
            (Some(n), _) if !has_source(old(config)@.sources, n@) => r == PathOutcome::SourceMissing
                && final(config)@ == old(config)@,
            (Some(n), None) => r == PathOutcome::Shown && final(config)@ == old(config)@,
            (Some(n), Some(p)) => if !path_exists {
                r == PathOutcome::PathMissing && final(config)@ == old(config)@
            } else {
                r == PathOutcome::Updated && final(config)@ == (ConfigView {
                    sources: with_source_path(old(config)@.sources, n@, p@),
                    ..old(config)@
                })
            },
        },
        action@ == "remove"@ ==> match name {
            None => r == PathOutcome::NameRequired && final(config)@ == old(config)@,
            Some(n) => if has_source(old(config)@.sources, n@) {
                r == PathOutcome::Removed && final(config)@ == (ConfigView {
                    sources: without_source(old(config)@.sources, n@),
                    ..old(config)@
                })
            } else {
                r == PathOutcome::SourceMissing && final(config)@ == old(config)@
            },
        },
        action@ == "list"@ ==> r == PathOutcome::Listed && final(config)@ == old(config)@,
        action@ != "add"@ && action@ != "set"@ && action@ != "remove"@ && action@ != "list"@ ==> r
            == PathOutcome::UnknownAction && final(config)@ == old(config)@,
        old(config)@.wf() ==> final(config)@.wf(),
{
    proof {
        reveal_strlit("add");
        reveal_strlit("set");
        reveal_strlit("remove");
        reveal_strlit("list");
        assert("add"@.len() != "remove"@.len() && "add"@.len() != "list"@.len());
        assert("set"@.len() != "remove"@.len() && "set"@.len() != "list"@.len());
        assert("remove"@.len() != "list"@.len());
        assert("add"@[0] != "set"@[0]);
    }
    if str_eq(action, "add") {
        match (name, path) {
            (Some(n), Some(p)) => {
                if !path_exists {
                    return PathOutcome::PathMissing;
                }
                match config.add_path_source(n, p) {
                    Ok(()) => PathOutcome::Added,
                    Err(_) => PathOutcome::SourceExists,
                }
            },
            _ => PathOutcome::NameAndPathRequired,
        }
    } else if str_eq(action, "set") {
        match name {
            None => PathOutcome::NameRequired,
            Some(n) => {
                if config.get_path_source(n).is_none() {
                    return PathOutcome::SourceMissing;
                }
                match path {
                    None => PathOutcome::Shown,
                    Some(p) => {
                        if !path_exists {
                            return PathOutcome::PathMissing;
                        }
                        let _ = config.set_path_source(n, p);
                        PathOutcome::Updated
                    },
                }
            },
        }
    } else if str_eq(action, "remove") {
        match name {
            None => PathOutcome::NameRequired,
            Some(n) => match config.remove_path_source(n) {
                Ok(()) => PathOutcome::Removed,
                Err(_) => PathOutcome::SourceMissing,
            },
        }
    } else if str_eq(action, "list") {
        PathOutcome::Listed
    } else {
        PathOutcome::UnknownAction
    }
}

/// The directory a version is installed into: `bin/<language>/<version>`
/// under the storage root.
pub fn install_dir(root: &str, language: &str, version: &str, os: OperatingSystem) -> (r: String)
    ensures
        r@ == join(join(join(root@, "bin"@, os), language@, os), version@, os),
{
    let b = join_path(root, "bin", os);
    let l = join_path(b.as_str(), language, os);
    join_path(l.as_str(), version, os)
}

/// One line of the installed list: a `*` for a default, the language
/// capitalised, the version, and the install path in parentheses.
pub open spec fn installed_line(e: InstalledView) -> Seq<char> {
    (if e.default {
        "*"@
    } else {
        " "@
    }) + " "@ + capitalized(e.language) + " "@ + e.version + " ("@ + e.path + ")"@
}

impl Config {
    /// The installed list, one line per entry, in registry order.
    pub fn installed_lines(&self) -> (r: Vec<String>)
        ensures
            r@.len() == self@.installed.len(),
            forall|i: int| 0 <= i < r@.len() ==> (#[trigger] r@[i])@ == installed_line(self@.installed[i]),
    {
        let mut r: Vec<String> = Vec::new();
        let mut i: usize = 0;
        while i < self.installed.len()
            invariant
                i <= self.installed@.len(),
                r@.len() == i,
                forall|k: int| 0 <= k < i ==> (#[trigger] r@[k])@ == installed_line(self@.installed[k]),
            decreases self.installed@.len() - i,
        {
            let e = &self.installed[i];
            let mut line = if e.default {
                String::from_str("*")
            } else {
                String::from_str(" ")
            };
            line.append(" ");
            line.append(capitalize_first(e.language.as_str()).as_str());
            line.append(" ");
            line.append(e.version.as_str());
            line.append(" (");
            line.append(e.path.as_str());
            line.append(")");
            assert(self@.installed[i as int] == e@);
            r.push(line);
            i += 1;
        }
        r
    }
}

} // verus!
