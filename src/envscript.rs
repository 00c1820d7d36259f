//! The generated environment script: one `PATH` prepend per default runtime
//! and per path source, after an optional session override.
use vstd::prelude::*;
use vstd::string::*;
use crate::paths::{OperatingSystem, is_powershell_host, join, join_path, uses_powershell};
use crate::registry::{Config, ConfigView, InstalledView, SourceView};
use crate::text::str_eq;

verus! {

/// A runtime chosen for the current session only; it is not part of the registry.
#[derive(Debug)]
pub struct SessionOverride {
    pub language: String,
    pub install_path: String,
}

pub struct OverrideView {
    pub language: Seq<char>,
    pub install_path: Seq<char>,
}

impl View for SessionOverride {
    type V = OverrideView;

    open spec fn view(&self) -> OverrideView {
        OverrideView { language: self.language@, install_path: self.install_path@ }
    }
}

pub open spec fn override_view(o: Option<&SessionOverride>) -> Option<OverrideView> {
    match o {
        Some(s) => Some(s@),
        None => None,
    }
}

/// The `bin` directory under `path`.
pub open spec fn bin_dir(path: Seq<char>, os: OperatingSystem) -> Seq<char> {
    join(path, "bin"@, os)
}

/// One `PATH` prepend, in the host shell's syntax, ended by a newline.
pub open spec fn path_export(dir: Seq<char>, os: OperatingSystem) -> Seq<char> {
    if uses_powershell(os) {
        ("$env:PATH = \""@ + dir + ";$env:PATH\""@).push('\n')
    } else {
        ("export PATH=\""@ + dir + ":$PATH\""@).push('\n')
    }
}

/// Whether an installed entry puts its `bin` directory on `PATH`: it is a
/// default, and its language is not the one a session override replaces.
pub open spec fn contributes(e: InstalledView, skip: Option<Seq<char>>) -> bool {
    e.default && skip != Some(e.language)
}

/// The `bin` directories of the contributing entries, in registry order.
pub open spec fn default_dirs(s: Seq<InstalledView>, skip: Option<Seq<char>>, os: OperatingSystem) -> Seq<Seq<char>>
    decreases s.len(),
{
    if s.len() == 0 {
        Seq::empty()
    } else {
        let init = default_dirs(s.drop_last(), skip, os);
        if contributes(s.last(), skip) {
            init.push(bin_dir(s.last().path, os))
        } else {
            init
        }
    }
}

pub open spec fn source_dirs(s: Seq<SourceView>) -> Seq<Seq<char>> {
    s.map_values(|x: SourceView| x.path)
}

pub open spec fn skipped_language(ov: Option<OverrideView>) -> Option<Seq<char>> {
    match ov {
        Some(o) => Some(o.language),
        None => None,
    }
}

/// The directories the script prepends, in the order it writes them: the
/// override, the defaults, then the path sources.
pub open spec fn path_entries(c: ConfigView, ov: Option<OverrideView>, os: OperatingSystem) -> Seq<Seq<char>> {
    let first = match ov {
        Some(o) => seq![bin_dir(o.install_path, os)],
        None => Seq::empty(),
    };
    first + default_dirs(c.installed, skipped_language(ov), os) + source_dirs(c.sources)
}

pub open spec fn exports(dirs: Seq<Seq<char>>, os: OperatingSystem) -> Seq<char>
    decreases dirs.len(),
{
    if dirs.len() == 0 {
        Seq::empty()
    } else {
        exports(dirs.drop_last(), os) + path_export(dirs.last(), os)
    }
}

pub open spec fn script_header(os: OperatingSystem, session: bool) -> Seq<char> {
    let shebang = if uses_powershell(os) {
        Seq::empty()
    } else {
        "#!/bin/sh\n"@
    };
    let title = if session {
        "# pkit session environment script - automatically generated\n# This temporarily overrides the default language for this session\n"@
    } else {
        "# pkit environment script - automatically generated\n"@
    };
    shebang + title + "\n"@
}

/// The whole script for a registry, an optional override, and a host.
pub open spec fn env_script_text(c: ConfigView, ov: Option<OverrideView>, os: OperatingSystem) -> Seq<char> {
    script_header(os, ov is Some) + exports(path_entries(c, ov, os), os)
}

/// The `bin` directory under `path`, joined with the host's separator.
pub fn bin_path(path: &str, os: OperatingSystem) -> (r: String)
    ensures
        r@ == bin_dir(path@, os),
{
    join_path(path, "bin", os)
}

/// One `PATH` prepend line for `bin_path`, in the host shell's syntax.
pub fn generate_path_export(bin_path: &str, os: OperatingSystem) -> (r: String)
    ensures
        r@ == path_export(bin_path@, os),
{
    let mut r: String;
    if is_powershell_host(os) {
        r = String::from_str("$env:PATH = \"");
        r.append(bin_path);
        r.append(";$env:PATH\"\n");
        proof { reveal_strlit(";$env:PATH\"\n"); reveal_strlit(";$env:PATH\""); }
        assert(";$env:PATH\"\n"@ =~= ";$env:PATH\""@.push('\n'));
    } else {
        r = String::from_str("export PATH=\"");
        r.append(bin_path);
        r.append(":$PATH\"\n");
        proof { reveal_strlit(":$PATH\"\n"); reveal_strlit(":$PATH\""); }
        assert(":$PATH\"\n"@ =~= ":$PATH\""@.push('\n'));
    }
    r
}

pub open spec fn strings_view(v: Seq<String>) -> Seq<Seq<char>> {
    v.map_values(|s: String| s@)
}

impl Config {
    /// The directories the environment script prepends, in order.
    pub fn path_entries(&self, os: OperatingSystem, session: Option<&SessionOverride>) -> (r: Vec<String>)
        ensures
            strings_view(r@) == path_entries(self@, override_view(session), os),
    {
        let ghost ov = override_view(session);
        let ghost skip = skipped_language(ov);
        let mut r: Vec<String> = Vec::new();
        let ghost first: Seq<Seq<char>> = Seq::empty();
        if let Some(o) = session {
            r.push(bin_path(o.install_path.as_str(), os));
            proof { first = seq![bin_dir(o.install_path@, os)]; }
        }
        assert(strings_view(r@) =~= first);
        let ghost all = self@.installed;
        let mut i: usize = 0;
        while i < self.installed.len()
            invariant
                i <= self.installed@.len(),
                all == self@.installed,
                all.len() == self.installed@.len(),
                ov == override_view(session),
                skip == skipped_language(ov),
                strings_view(r@) == first + default_dirs(all.subrange(0, i as int), skip, os),
            decreases self.installed@.len() - i,
        {
            let e = &self.installed[i];
            assert(all.subrange(0, i + 1).drop_last() =~= all.subrange(0, i as int));
            assert(all.subrange(0, i + 1).last() == e@);
            let skipped = match session {
                Some(o) => str_eq(o.language.as_str(), e.language.as_str()),
                None => false,
            };
            if e.default && !skipped {
                let d = bin_path(e.path.as_str(), os);
                let ghost before = r@;
                let ghost dv = d@;
                r.push(d);
                assert(strings_view(r@) =~= strings_view(before).push(dv));
                assert((first + default_dirs(all.subrange(0, i as int), skip, os)).push(dv) =~= first
                    + default_dirs(all.subrange(0, i as int), skip, os).push(dv));
            }
            i += 1;
        }
        assert(all.subrange(0, self.installed@.len() as int) =~= all);
        let ghost mid = strings_view(r@);
        let mut j: usize = 0;
        while j < self.sources.len()
            invariant
                j <= self.sources@.len(),
                mid == first + default_dirs(self@.installed, skip, os),
                strings_view(r@) == mid + source_dirs(self@.sources).subrange(0, j as int),
            decreases self.sources@.len() - j,
        {
            let p = self.sources[j].path.clone();
            let ghost before = r@;
            r.push(p);
            assert(strings_view(r@) =~= strings_view(before).push(self@.sources[j as int].path));
            assert(source_dirs(self@.sources).subrange(0, j + 1) =~= source_dirs(self@.sources).subrange(0, j as int).push(self@.sources[j as int].path));
            j += 1;
        }
        assert(source_dirs(self@.sources).subrange(0, self.sources@.len() as int) =~= source_dirs(self@.sources));
        r
    }

    /// The environment script for this registry on `os`, with the session
    /// override, if any, first.
    pub fn env_script(&self, os: OperatingSystem, session: Option<&SessionOverride>) -> (r: String)
        ensures
            r@ == env_script_text(self@, override_view(session), os),
    {
        let mut r: String;
        if is_powershell_host(os) {
            r = String::new();
        } else {
            r = String::from_str("#!/bin/sh\n");
        }
        if session.is_some() {
            r.append(
                "# pkit session environment script - automatically generated\n# This temporarily overrides the default language for this session\n",
            );
        } else {
            r.append("# pkit environment script - automatically generated\n");
        }
        r.append("\n");
        assert(r@ =~= script_header(os, session.is_some()));
        let entries = self.path_entries(os, session);
        let ghost dirs = strings_view(entries@);
        let ghost head = r@;
        let mut k: usize = 0;
        while k < entries.len()
            invariant
                k <= entries@.len(),
                dirs == strings_view(entries@),
                r@ == head + exports(dirs.subrange(0, k as int), os),
            decreases entries@.len() - k,
        {
            assert(dirs.subrange(0, k + 1).drop_last() =~= dirs.subrange(0, k as int));
            let line = generate_path_export(entries[k].as_str(), os);
            r.append(line.as_str());
            assert(head + exports(dirs.subrange(0, k + 1), os) =~= head + exports(dirs.subrange(0, k as int), os) + line@);
            k += 1;
        }
        assert(dirs.subrange(0, entries@.len() as int) =~= dirs);
        r
    }
}

/// The script is a function of the registry's entries and sources: two
/// registries with the same entries and sources, in the same order, give the
/// same script, byte for byte, however they were built.
pub proof fn lemma_script_deterministic(
    c1: ConfigView,
    c2: ConfigView,
    ov: Option<OverrideView>,
    os: OperatingSystem,
)
    requires
        c1.installed == c2.installed,
        c1.sources == c2.sources,
    ensures
        env_script_text(c1, ov, os) == env_script_text(c2, ov, os),
{
}

/// The default entries follow registry order: an entry appended last puts its
/// `bin` directory after those of all earlier entries.
pub proof fn lemma_default_order(
    s: Seq<InstalledView>,
    e: InstalledView,
    skip: Option<Seq<char>>,
    os: OperatingSystem,
)
    ensures
        default_dirs(s.push(e), skip, os) == if contributes(e, skip) {
            default_dirs(s, skip, os).push(bin_dir(e.path, os))
        } else {
            default_dirs(s, skip, os)
        },
{
    assert(s.push(e).drop_last() =~= s);
}

/// Each default directory comes from a contributing entry.
proof fn lemma_default_dirs_origin(s: Seq<InstalledView>, skip: Option<Seq<char>>, os: OperatingSystem)
    ensures
        forall|k: int| 0 <= k < default_dirs(s, skip, os).len() ==> exists|i: int|
            0 <= i < s.len() && contributes(s[i], skip) && #[trigger] default_dirs(s, skip, os)[k]
                == bin_dir(s[i].path, os),
    decreases s.len(),
{
    if s.len() > 0 {
        let init = s.drop_last();
        lemma_default_dirs_origin(init, skip, os);
        let d = default_dirs(s, skip, os);
        let d0 = default_dirs(init, skip, os);
        assert forall|k: int| 0 <= k < d.len() implies exists|i: int|
            0 <= i < s.len() && contributes(s[i], skip) && #[trigger] d[k] == bin_dir(s[i].path, os) by {
            if k < d0.len() {
                let i = choose|i: int| 0 <= i < init.len() && contributes(init[i], skip) && d0[k] == bin_dir(init[i].path, os);
                assert(s[i] == init[i]);
            } else {
                assert(s[s.len() - 1] == s.last());
            }
        }
    }
}

/// `dir` is the `bin` directory of a default of a language other than the
/// overridden one, or the directory of a path source.
pub open spec fn not_overridden_origin(c: ConfigView, o: OverrideView, os: OperatingSystem, dir: Seq<char>) -> bool {
    (exists|i: int|
        0 <= i < c.installed.len() && c.installed[i].default && c.installed[i].language != o.language
            && dir == bin_dir(#[trigger] c.installed[i].path, os)) || (exists|m: int|
        0 <= m < c.sources.len() && dir == (#[trigger] c.sources[m]).path)
}

/// With a session override, the override's `bin` directory is the first
/// entry, and every later entry is the `bin` directory of a default of another
/// language, or a path source: no default of the overridden language follows.
pub proof fn lemma_override_first(c: ConfigView, o: OverrideView, os: OperatingSystem)
    ensures
        path_entries(c, Some(o), os)[0] == bin_dir(o.install_path, os),
        forall|k: int|
            1 <= k < path_entries(c, Some(o), os).len() ==> not_overridden_origin(
                c,
                o,
                os,
                #[trigger] path_entries(c, Some(o), os)[k],
            ),
{
    let e = path_entries(c, Some(o), os);
    let skip = Some(o.language);
    let d = default_dirs(c.installed, skip, os);
    let src = source_dirs(c.sources);
    lemma_default_dirs_origin(c.installed, skip, os);
    assert(e == seq![bin_dir(o.install_path, os)] + d + src);
    assert forall|k: int| 1 <= k < e.len() implies not_overridden_origin(c, o, os, #[trigger] e[k]) by {
        if k < 1 + d.len() {
            assert(e[k] == d[k - 1]);
            let i = choose|i: int| 0 <= i < c.installed.len() && contributes(c.installed[i], skip) && d[k - 1] == bin_dir(c.installed[i].path, os);
            assert(c.installed[i].language != o.language);
        } else {
            let m = k - 1 - d.len();
            assert(e[k] == src[m]);
            assert(src[m] == c.sources[m].path);
        }
    }
}

} // verus!
