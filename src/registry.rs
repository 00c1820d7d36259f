//! The version registry: installed runtimes and user-declared path sources.
//!
//! Every operation here changes the in-memory registry only; the caller
//! persists the record (see `record`) after each successful change.
use vstd::prelude::*;
use crate::text::str_eq;

verus! {

/// The failures that the registry and the workflows around it report.
#[derive(Debug, Clone, Copy, PartialEq, Eq, Structural)]
pub enum PkitError {
    /// A directory or file could not be created, read or written.
    ConfigIO,
    /// The record file exists but does not hold a well-formed registry.
    ConfigCorrupt,
    /// The requested (language, version) is not installed.
    NotInstalled,
    /// A path source with that name is already registered.
    SourceAlreadyExists,
    /// No path source with that name is registered.
    SourceNotFound,
    /// An unpacked archive holds no directory with a `bin` subdirectory.
    LayoutNotFound,
    /// The shell profile could not be written.
    ShellProfileWriteError,
}

/// One installed runtime.
#[derive(Debug)]
pub struct Installed {
    pub language: String,
    pub version: String,
    pub path: String,
    pub default: bool,
}

/// A user-declared directory that is always put on `PATH`.
#[derive(Debug)]
pub struct Source {
    pub name: String,
    pub path: String,
}

/// The registry: where it is stored, what is installed, and the path sources.
#[derive(Debug)]
pub struct Config {
    pub path: String,
    pub installed: Vec<Installed>,
    pub sources: Vec<Source>,
}

pub struct InstalledView {
    pub language: Seq<char>,
    pub version: Seq<char>,
    pub path: Seq<char>,
    pub default: bool,
}

pub struct SourceView {
    pub name: Seq<char>,
    pub path: Seq<char>,
}

pub struct ConfigView {
    pub root: Seq<char>,
    pub installed: Seq<InstalledView>,
    pub sources: Seq<SourceView>,
}

impl View for Installed {
    type V = InstalledView;

    open spec fn view(&self) -> InstalledView {
        InstalledView {
            language: self.language@,
            version: self.version@,
            path: self.path@,
            default: self.default,
        }
    }
}

impl View for Source {
    type V = SourceView;

    open spec fn view(&self) -> SourceView {
        SourceView { name: self.name@, path: self.path@ }
    }
}

pub open spec fn installed_view(s: Seq<Installed>) -> Seq<InstalledView> {
    s.map_values(|e: Installed| e@)
}

pub open spec fn sources_view(s: Seq<Source>) -> Seq<SourceView> {
    s.map_values(|e: Source| e@)
}

impl View for Config {
    type V = ConfigView;

    open spec fn view(&self) -> ConfigView {
        ConfigView {
            root: self.path@,
            installed: installed_view(self.installed@),
            sources: sources_view(self.sources@),
        }
    }
}

pub open spec fn key_matches(e: InstalledView, language: Seq<char>, version: Seq<char>) -> bool {
    e.language == language && e.version == version
}

pub open spec fn has_key(s: Seq<InstalledView>, language: Seq<char>, version: Seq<char>) -> bool {
    exists|i: int| 0 <= i < s.len() && key_matches(#[trigger] s[i], language, version)
}

pub open spec fn has_source(s: Seq<SourceView>, name: Seq<char>) -> bool {
    exists|i: int| 0 <= i < s.len() && (#[trigger] s[i]).name == name
}

/// `rel` holds between every two elements at distinct positions.
pub open spec fn pairwise<A>(s: Seq<A>, rel: spec_fn(A, A) -> bool) -> bool {
    forall|i: int, j: int| 0 <= i < s.len() && 0 <= j < s.len() && i != j ==> #[trigger] rel(s[i], s[j])
}

pub open spec fn distinct_keys(a: InstalledView, b: InstalledView) -> bool {
    a.language != b.language || a.version != b.version
}

pub open spec fn not_both_default(a: InstalledView, b: InstalledView) -> bool {
    !(a.default && b.default && a.language == b.language)
}

pub open spec fn distinct_names(a: SourceView, b: SourceView) -> bool {
    a.name != b.name
}

/// No two entries share a (language, version) key.
pub open spec fn keys_unique(s: Seq<InstalledView>) -> bool {
    pairwise(s, keys_rel())
}

pub open spec fn keys_rel() -> spec_fn(InstalledView, InstalledView) -> bool {
    |a: InstalledView, b: InstalledView| distinct_keys(a, b)
}

pub open spec fn defaults_rel() -> spec_fn(InstalledView, InstalledView) -> bool {
    |a: InstalledView, b: InstalledView| not_both_default(a, b)
}

pub open spec fn names_rel() -> spec_fn(SourceView, SourceView) -> bool {
    |a: SourceView, b: SourceView| distinct_names(a, b)
}

/// For each language, at most one entry is the default.
pub open spec fn defaults_unique(s: Seq<InstalledView>) -> bool {
    pairwise(s, defaults_rel())
}

/// No two path sources share a name.
pub open spec fn source_names_unique(s: Seq<SourceView>) -> bool {
    pairwise(s, names_rel())
}

impl ConfigView {
    pub open spec fn wf(self) -> bool {
        &&& keys_unique(self.installed)
        &&& defaults_unique(self.installed)
        &&& source_names_unique(self.sources)
    }
}

/// Every entry of `language` becomes the default exactly when its version is `version`.
pub open spec fn with_default(s: Seq<InstalledView>, language: Seq<char>, version: Seq<char>) -> Seq<InstalledView> {
    Seq::new(
        s.len(),
        |i: int|
            if s[i].language == language {
                InstalledView { default: s[i].version == version, ..s[i] }
            } else {
                s[i]
            },
    )
}

/// Every entry of `language` stops being the default.
pub open spec fn without_default(s: Seq<InstalledView>, language: Seq<char>) -> Seq<InstalledView> {
    Seq::new(
        s.len(),
        |i: int|
            if s[i].language == language {
                InstalledView { default: false, ..s[i] }
            } else {
                s[i]
            },
    )
}

/// The entry with the key (language, version) gets the install path `path`.
pub open spec fn with_path(
    s: Seq<InstalledView>,
    language: Seq<char>,
    version: Seq<char>,
    path: Seq<char>,
) -> Seq<InstalledView> {
    Seq::new(
        s.len(),
        |i: int|
            if key_matches(s[i], language, version) {
                InstalledView { path: path, ..s[i] }
            } else {
                s[i]
            },
    )
}

/// What `add_install` makes of the installed list.
pub open spec fn add_spec(
    s: Seq<InstalledView>,
    language: Seq<char>,
    version: Seq<char>,
    path: Seq<char>,
    default: bool,
) -> Seq<InstalledView> {
    if has_key(s, language, version) {
        let t = with_path(s, language, version, path);
        if default {
            with_default(t, language, version)
        } else {
            t
        }
    } else {
        let t = if default {
            without_default(s, language)
        } else {
            s
        };
        t.push(InstalledView { language, version, path, default })
    }
}

/// The installed list without the entry keyed (language, version).
pub open spec fn without_key(s: Seq<InstalledView>, language: Seq<char>, version: Seq<char>) -> Seq<InstalledView> {
    s.filter(|e: InstalledView| !key_matches(e, language, version))
}

/// The source list without the source called `name`.
pub open spec fn without_source(s: Seq<SourceView>, name: Seq<char>) -> Seq<SourceView> {
    s.filter(|e: SourceView| e.name != name)
}

/// The source called `name` gets the directory `path`.
pub open spec fn with_source_path(s: Seq<SourceView>, name: Seq<char>, path: Seq<char>) -> Seq<SourceView> {
    Seq::new(
        s.len(),
        |i: int|
            if s[i].name == name {
                SourceView { name: s[i].name, path: path }
            } else {
                s[i]
            },
    )
}

/// Each element of a filtered sequence stands somewhere in the original.
proof fn lemma_filter_from<A>(s: Seq<A>, pred: spec_fn(A) -> bool, k: int)
    requires
        0 <= k < s.filter(pred).len(),
    ensures
        exists|m: int| 0 <= m < s.len() && s[m] == s.filter(pred)[k],
    decreases s.len(),
{
    reveal(Seq::filter);
    let t = s.drop_last();
    if pred(s.last()) && k == t.filter(pred).len() {
        assert(s[s.len() - 1] == s.filter(pred)[k]);
    } else {
        lemma_filter_from(t, pred, k);
        let m = choose|m: int| 0 <= m < t.len() && t[m] == t.filter(pred)[k];
        assert(s[m] == s.filter(pred)[k]);
    }
}

/// Filtering keeps a relation that held between all distinct positions.
pub proof fn lemma_filter_keeps_pairwise<A>(s: Seq<A>, pred: spec_fn(A) -> bool, rel: spec_fn(A, A) -> bool)
    requires
        pairwise(s, rel),
    ensures
        pairwise(s.filter(pred), rel),
    decreases s.len(),
{
    reveal(Seq::filter);
    if s.len() > 0 {
        let t = s.drop_last();
        assert(pairwise(t, rel)) by {
            assert forall|i: int, j: int| 0 <= i < t.len() && 0 <= j < t.len() && i != j implies #[trigger] rel(t[i], t[j]) by {
                assert(rel(s[i], s[j]));
            }
        }
        lemma_filter_keeps_pairwise(t, pred, rel);
        let r = t.filter(pred);
        let f = s.filter(pred);
        if pred(s.last()) {
            assert(f == r.push(s.last()));
            assert forall|i: int, j: int| 0 <= i < f.len() && 0 <= j < f.len() && i != j implies #[trigger] rel(f[i], f[j]) by {
                if i == r.len() {
                    lemma_filter_from(t, pred, j);
                    let m = choose|m: int| 0 <= m < t.len() && t[m] == r[j];
                    assert(rel(s[s.len() - 1], s[m]));
                } else if j == r.len() {
                    lemma_filter_from(t, pred, i);
                    let m = choose|m: int| 0 <= m < t.len() && t[m] == r[i];
                    assert(rel(s[m], s[s.len() - 1]));
                } else {
                    assert(rel(r[i], r[j]));
                }
            }
        }
    }
}

/// Adding an entry keeps keys unique and at most one default per language.
pub proof fn lemma_add_keeps_wf(
    s: Seq<InstalledView>,
    language: Seq<char>,
    version: Seq<char>,
    path: Seq<char>,
    default: bool,
)
    requires
        keys_unique(s),
        defaults_unique(s),
    ensures
        keys_unique(add_spec(s, language, version, path, default)),
        defaults_unique(add_spec(s, language, version, path, default)),
{
    let r = add_spec(s, language, version, path, default);
    if has_key(s, language, version) {
        let t = with_path(s, language, version, path);
        assert forall|i: int, j: int| 0 <= i < t.len() && 0 <= j < t.len() && i != j implies #[trigger] keys_rel()(t[i], t[j]) by {
            assert(keys_rel()(s[i], s[j]));
            assert(defaults_rel()(s[i], s[j]));
        }
        assert forall|i: int, j: int| 0 <= i < t.len() && 0 <= j < t.len() && i != j implies #[trigger] defaults_rel()(t[i], t[j]) by {
            assert(keys_rel()(s[i], s[j]));
            assert(defaults_rel()(s[i], s[j]));
        }
        assert(keys_unique(t));
        assert(defaults_unique(t));
        if default {
            lemma_set_default_keeps_wf(t, language, version);
        }
    } else {
        let t = if default { without_default(s, language) } else { s };
        assert forall|i: int, j: int| 0 <= i < r.len() && 0 <= j < r.len() && i != j implies #[trigger] keys_rel()(r[i], r[j]) by {
            if i < s.len() && j < s.len() {
                assert(keys_rel()(s[i], s[j]));
                assert(defaults_rel()(s[i], s[j]));
            } else if i < s.len() {
                assert(!key_matches(s[i], language, version));
            } else {
                assert(!key_matches(s[j], language, version));
            }
        }
        assert forall|i: int, j: int| 0 <= i < r.len() && 0 <= j < r.len() && i != j implies #[trigger] defaults_rel()(r[i], r[j]) by {
            if i < s.len() && j < s.len() {
                assert(keys_rel()(s[i], s[j]));
                assert(defaults_rel()(s[i], s[j]));
            } else if i < s.len() {
                assert(!key_matches(s[i], language, version));
            } else {
                assert(!key_matches(s[j], language, version));
            }
        }
        assert(keys_unique(r));
        assert(defaults_unique(r));
    }
}

/// Making (language, version) the default leaves one default at most for every language.
pub proof fn lemma_set_default_keeps_wf(s: Seq<InstalledView>, language: Seq<char>, version: Seq<char>)
    requires
        keys_unique(s),
        defaults_unique(s),
    ensures
        keys_unique(with_default(s, language, version)),
        defaults_unique(with_default(s, language, version)),
{
    let t = with_default(s, language, version);
    assert forall|i: int, j: int| 0 <= i < t.len() && 0 <= j < t.len() && i != j implies #[trigger] keys_rel()(t[i], t[j]) by {
        assert(keys_rel()(s[i], s[j]));
        assert(defaults_rel()(s[i], s[j]));
    }
    assert forall|i: int, j: int| 0 <= i < t.len() && 0 <= j < t.len() && i != j implies #[trigger] defaults_rel()(t[i], t[j]) by {
        assert(keys_rel()(s[i], s[j]));
        assert(defaults_rel()(s[i], s[j]));
    }
    assert(keys_unique(t));
    assert(defaults_unique(t));
}

/// A registry call that can change default flags, as a value.
pub enum DefaultingCall {
    Add { language: Seq<char>, version: Seq<char>, path: Seq<char>, default: bool },
    SetDefault { language: Seq<char>, version: Seq<char> },
}

/// What a call does to the installed list (`set_default` of a missing
/// entry changes nothing).
pub open spec fn apply_call(s: Seq<InstalledView>, call: DefaultingCall) -> Seq<InstalledView> {
    match call {
        DefaultingCall::Add { language, version, path, default } => add_spec(s, language, version, path, default),
        DefaultingCall::SetDefault { language, version } => if has_key(s, language, version) {
            with_default(s, language, version)
        } else {
            s
        },
    }
}

/// The installed list after a sequence of calls.
pub open spec fn apply_calls(s: Seq<InstalledView>, calls: Seq<DefaultingCall>) -> Seq<InstalledView>
    decreases calls.len(),
{
    if calls.len() == 0 {
        s
    } else {
        apply_call(apply_calls(s, calls.drop_last()), calls.last())
    }
}

/// After every call of any sequence of `add_install` and `set_default`
/// calls, each language has one default at most (and keys stay unique).
pub proof fn lemma_calls_keep_defaults_unique(s: Seq<InstalledView>, calls: Seq<DefaultingCall>)
    requires
        keys_unique(s),
        defaults_unique(s),
    ensures
        forall|k: int| 0 <= k <= calls.len() ==> #[trigger] defaults_unique(apply_calls(s, calls.subrange(0, k)))
            && keys_unique(apply_calls(s, calls.subrange(0, k))),
    decreases calls.len(),
{
    if calls.len() > 0 {
        let init = calls.drop_last();
        lemma_calls_keep_defaults_unique(s, init);
        assert forall|k: int| 0 <= k <= calls.len() implies #[trigger] defaults_unique(apply_calls(s, calls.subrange(0, k)))
            && keys_unique(apply_calls(s, calls.subrange(0, k))) by {
            if k < calls.len() {
                assert(calls.subrange(0, k) =~= init.subrange(0, k));
                assert(defaults_unique(apply_calls(s, init.subrange(0, k))));
            } else {
                assert(calls.subrange(0, k) =~= calls);
                assert(init.subrange(0, init.len() as int) =~= init);
                assert(defaults_unique(apply_calls(s, init.subrange(0, init.len() as int))));
                let before = apply_calls(s, init);
                match calls.last() {
                    DefaultingCall::Add { language, version, path, default } => {
                        lemma_add_keeps_wf(before, language, version, path, default);
                    },
                    DefaultingCall::SetDefault { language, version } => {
                        if has_key(before, language, version) {
                            lemma_set_default_keeps_wf(before, language, version);
                        }
                    },
                }
            }
        }
    } else {
        assert forall|k: int| 0 <= k <= calls.len() implies #[trigger] defaults_unique(apply_calls(s, calls.subrange(0, k)))
            && keys_unique(apply_calls(s, calls.subrange(0, k))) by {
            assert(calls.subrange(0, k) =~= calls);
        }
    }
}

fn copy_installed(e: &Installed) -> (r: Installed)
    ensures
        r@ == e@,
{
    Installed {
        language: e.language.clone(),
        version: e.version.clone(),
        path: e.path.clone(),
        default: e.default,
    }
}

fn copy_source(e: &Source) -> (r: Source)
    ensures
        r@ == e@,
{
    Source { name: e.name.clone(), path: e.path.clone() }
}

impl Config {
    /// An empty registry stored under `path`.
    pub fn new(path: String) -> (r: Config)
        ensures
            r@.root == path@,
            r@.installed.len() == 0,
            r@.sources.len() == 0,
            r@.wf(),
    {
        Config { path, installed: Vec::new(), sources: Vec::new() }
    }

    /// The entry keyed (language, version), if installed.
    pub fn get(&self, language: &str, version: &str) -> (r: Option<&Installed>)
        ensures
            r is None <==> !has_key(self@.installed, language@, version@),
            r matches Some(e) ==> exists|i: int|
                0 <= i < self@.installed.len() && self@.installed[i] == e@ && key_matches(
                    e@,
                    language@,
                    version@,
                ),
    {
        let mut i: usize = 0;
        while i < self.installed.len()
            invariant
                i <= self@.installed.len(),
                self@.installed.len() == self.installed@.len(),
                forall|j: int| 0 <= j < i ==> !key_matches(#[trigger] self@.installed[j], language@, version@),
            decreases self.installed@.len() - i,
        {
            let e = &self.installed[i];
            if str_eq(e.language.as_str(), language) && str_eq(e.version.as_str(), version) {
                assert(self@.installed[i as int] == e@);
                return Some(e);
            }
            i += 1;
        }
        None
    }

    /// The default entry of `language`, if one is set.
    pub fn get_default(&self, language: &str) -> (r: Option<&Installed>)
        ensures
            r is None <==> !(exists|i: int|
                0 <= i < self@.installed.len() && (#[trigger] self@.installed[i]).language == language@
                    && self@.installed[i].default),
            r matches Some(e) ==> exists|i: int|
                0 <= i < self@.installed.len() && self@.installed[i] == e@ && e@.language == language@
                    && e@.default,
    {
        let mut i: usize = 0;
        while i < self.installed.len()
            invariant
                i <= self@.installed.len(),
                self@.installed.len() == self.installed@.len(),
                forall|j: int|
                    0 <= j < i ==> !((#[trigger] self@.installed[j]).language == language@
                        && self@.installed[j].default),
            decreases self.installed@.len() - i,
        {
            let e = &self.installed[i];
            if e.default && str_eq(e.language.as_str(), language) {
                assert(self@.installed[i as int] == e@);
                return Some(e);
            }
            i += 1;
        }
        None
    }

    /// Sets every entry of `language` to be the default exactly when its version is `version`.
    fn set_default_flags(&mut self, language: &str, version: &str)
        ensures
            final(self)@ == (ConfigView {
                installed: with_default(old(self)@.installed, language@, version@),
                ..old(self)@
            }),
    {
        let ghost target = with_default(old(self)@.installed, language@, version@);
        let mut list: Vec<Installed> = Vec::new();
        core::mem::swap(&mut self.installed, &mut list);
        let mut i: usize = 0;
        while i < list.len()
            invariant
                i <= list@.len(),
                installed_view(list@) == old(self)@.installed,
                target.len() == list@.len(),
                target == with_default(old(self)@.installed, language@, version@),
                self.path == old(self).path,
                self.sources == old(self).sources,
                installed_view(self.installed@) =~= target.subrange(0, i as int),
            decreases list@.len() - i,
        {
            let mut e = copy_installed(&list[i]);
            if str_eq(e.language.as_str(), language) {
                e.default = str_eq(e.version.as_str(), version);
            }
            let ghost before = self.installed@;
            let ghost ev = e@;
            proof {
                assert(installed_view(list@)[i as int] == list@[i as int]@);
                assert(ev == target[i as int]);
            }
            self.installed.push(e);
            proof {
                assert(installed_view(self.installed@) =~= installed_view(before).push(ev));
                assert(target.subrange(0, i + 1) =~= target.subrange(0, i as int).push(target[i as int]));
            }
            i += 1;
        }
        assert(target.subrange(0, list@.len() as int) =~= target);
    }

    /// No entry of `language` is the default any more.
    fn clear_default_flags(&mut self, language: &str)
        ensures
            final(self)@ == (ConfigView {
                installed: without_default(old(self)@.installed, language@),
                ..old(self)@
            }),
    {
        let ghost target = without_default(old(self)@.installed, language@);
        let mut list: Vec<Installed> = Vec::new();
        core::mem::swap(&mut self.installed, &mut list);
        let mut i: usize = 0;
        while i < list.len()
            invariant
                i <= list@.len(),
                installed_view(list@) == old(self)@.installed,
                target.len() == list@.len(),
                target == without_default(old(self)@.installed, language@),
                self.path == old(self).path,
                self.sources == old(self).sources,
                installed_view(self.installed@) =~= target.subrange(0, i as int),
            decreases list@.len() - i,
        {
            let mut e = copy_installed(&list[i]);
            if str_eq(e.language.as_str(), language) {
                e.default = false;
            }
            let ghost before = self.installed@;
            let ghost ev = e@;
            proof {
                assert(installed_view(list@)[i as int] == list@[i as int]@);
                assert(ev == target[i as int]);
            }
            self.installed.push(e);
            proof {
                assert(installed_view(self.installed@) =~= installed_view(before).push(ev));
                assert(target.subrange(0, i + 1) =~= target.subrange(0, i as int).push(target[i as int]));
            }
            i += 1;
        }
        assert(target.subrange(0, list@.len() as int) =~= target);
    }

    /// The entry keyed (language, version) gets the install path `path`; nothing else changes.
    pub fn update_install(&mut self, language: &str, version: &str, path: &str)
        ensures
            final(self)@ == (ConfigView {
                installed: with_path(old(self)@.installed, language@, version@, path@),
                ..old(self)@
            }),
    {
        let ghost target = with_path(old(self)@.installed, language@, version@, path@);
        let mut list: Vec<Installed> = Vec::new();
        core::mem::swap(&mut self.installed, &mut list);
        let mut i: usize = 0;
        while i < list.len()
            invariant
                i <= list@.len(),
                installed_view(list@) == old(self)@.installed,
                target.len() == list@.len(),
                target == with_path(old(self)@.installed, language@, version@, path@),
                self.path == old(self).path,
                self.sources == old(self).sources,
                installed_view(self.installed@) =~= target.subrange(0, i as int),
            decreases list@.len() - i,
        {
            let mut e = copy_installed(&list[i]);
            if str_eq(e.language.as_str(), language) && str_eq(e.version.as_str(), version) {
                e.path = path.to_owned();
            }
            let ghost before = self.installed@;
            let ghost ev = e@;
            proof {
                assert(installed_view(list@)[i as int] == list@[i as int]@);
                assert(ev == target[i as int]);
            }
            self.installed.push(e);
            proof {
                assert(installed_view(self.installed@) =~= installed_view(before).push(ev));
                assert(target.subrange(0, i + 1) =~= target.subrange(0, i as int).push(target[i as int]));
            }
            i += 1;
        }
        assert(target.subrange(0, list@.len() as int) =~= target);
    }

    /// Registers (language, version) at `path`. An existing entry with that key is
    /// updated in place; otherwise the entry is appended. When `default` is set,
    /// the entry becomes the only default of its language.
    pub fn add_install(&mut self, language: &str, version: &str, path: &str, default: bool)
        ensures
            final(self)@ == (ConfigView {
                installed: add_spec(old(self)@.installed, language@, version@, path@, default),
                ..old(self)@
            }),
            old(self)@.wf() ==> final(self)@.wf(),
    {
        proof {
            if old(self)@.wf() {
                lemma_add_keeps_wf(old(self)@.installed, language@, version@, path@, default);
            }
        }
        if self.get(language, version).is_some() {
            self.update_install(language, version, path);
            if default {
                self.set_default_flags(language, version);
            }
        } else {
            if default {
                self.clear_default_flags(language);
            }
            let e = Installed {
                language: language.to_owned(),
                version: version.to_owned(),
                path: path.to_owned(),
                default,
            };
            let ghost before = self.installed@;
            let ghost ev = e@;
            self.installed.push(e);
            assert(installed_view(self.installed@) =~= installed_view(before).push(ev));
        }
    }

    /// Makes (language, version) the only default of its language; fails with
    /// `NotInstalled`, changing nothing, when that entry does not exist.
    pub fn set_default(&mut self, language: &str, version: &str) -> (r: Result<(), PkitError>)
        ensures
            has_key(old(self)@.installed, language@, version@) ==> r is Ok && final(self)@ == (ConfigView {
                installed: with_default(old(self)@.installed, language@, version@),
                ..old(self)@
            }),
            !has_key(old(self)@.installed, language@, version@) ==> r == Err::<(), PkitError>(
                PkitError::NotInstalled,
            ) && final(self)@ == old(self)@,
            old(self)@.wf() ==> final(self)@.wf(),
    {
        if self.get(language, version).is_none() {
            return Err(PkitError::NotInstalled);
        }
        proof {
            if old(self)@.wf() {
                lemma_set_default_keeps_wf(old(self)@.installed, language@, version@);
            }
        }
        self.set_default_flags(language, version);
        Ok(())
    }

    /// Removes the entry keyed (language, version); nothing changes when it is absent.
    pub fn remove_install(&mut self, language: &str, version: &str)
        ensures
            final(self)@ == (ConfigView {
                installed: without_key(old(self)@.installed, language@, version@),
                ..old(self)@
            }),
            old(self)@.wf() ==> final(self)@.wf(),
    {
        let ghost all = old(self)@.installed;
        let mut list: Vec<Installed> = Vec::new();
        core::mem::swap(&mut self.installed, &mut list);
        let mut i: usize = 0;
        while i < list.len()
            invariant
                i <= list@.len(),
                installed_view(list@) == all,
                all == old(self)@.installed,
                self.path == old(self).path,
                self.sources == old(self).sources,
                installed_view(self.installed@) == without_key(all.subrange(0, i as int), language@, version@),
            decreases list@.len() - i,
        {
            let e = copy_installed(&list[i]);
            let ghost ev = e@;
            let keep = !(str_eq(e.language.as_str(), language) && str_eq(e.version.as_str(), version));
            proof {
                reveal(Seq::filter);
                assert(all.subrange(0, i + 1).drop_last() =~= all.subrange(0, i as int));
                assert(all.subrange(0, i + 1).last() == ev);
            }
            if keep {
                let ghost before = self.installed@;
                self.installed.push(e);
                assert(installed_view(self.installed@) =~= installed_view(before).push(ev));
            }
            i += 1;
        }
        assert(all.subrange(0, list@.len() as int) =~= all);
        proof {
            if old(self)@.wf() {
                lemma_filter_keeps_pairwise(
                    all,
                    |e: InstalledView| !key_matches(e, language@, version@),
                    keys_rel(),
                );
                lemma_filter_keeps_pairwise(
                    all,
                    |e: InstalledView| !key_matches(e, language@, version@),
                    defaults_rel(),
                );
            }
        }
    }

    /// The path source called `name`, if registered.
    pub fn get_path_source(&self, name: &str) -> (r: Option<&Source>)
        ensures
            r is None <==> !has_source(self@.sources, name@),
            r matches Some(e) ==> exists|i: int|
                0 <= i < self@.sources.len() && self@.sources[i] == e@ && e@.name == name@,
    {
        let mut i: usize = 0;
        while i < self.sources.len()
            invariant
                i <= self@.sources.len(),
                self@.sources.len() == self.sources@.len(),
                forall|j: int| 0 <= j < i ==> (#[trigger] self@.sources[j]).name != name@,
            decreases self.sources@.len() - i,
        {
            let e = &self.sources[i];
            if str_eq(e.name.as_str(), name) {
                assert(self@.sources[i as int] == e@);
                return Some(e);
            }
            i += 1;
        }
        None
    }

    /// The path source called `name`, for changing in place.
    pub fn get_path_source_mut(&mut self, name: &str) -> (r: Option<&mut Source>)
        ensures
            r is None <==> !has_source(old(self)@.sources, name@),
            r is None ==> final(self)@ == old(self)@,
            r matches Some(s) ==> exists|i: int|
                0 <= i < old(self)@.sources.len() && old(self)@.sources[i].name == name@ && s@ == old(
                    self,
                )@.sources[i] && final(self).sources@ == old(self).sources@.update(i, *final(s))
                    && final(self).path == old(self).path && final(self).installed == old(self).installed,
    {
        let mut i: usize = 0;
        while i < self.sources.len()
            invariant
                i <= self.sources@.len(),
                *self == *old(self),
                forall|j: int| 0 <= j < i ==> (#[trigger] self@.sources[j]).name != name@,
            decreases self.sources@.len() - i,
        {
            if str_eq(self.sources[i].name.as_str(), name) {
                assert(self@.sources[i as int] == self.sources@[i as int]@);
                return Some(&mut self.sources[i]);
            }
            i += 1;
        }
        None
    }

    /// Registers the path source `name` at `path`; fails with `SourceAlreadyExists`,
    /// changing nothing, when that name is taken.
    pub fn add_path_source(&mut self, name: &str, path: &str) -> (r: Result<(), PkitError>)
        ensures
            has_source(old(self)@.sources, name@) ==> r == Err::<(), PkitError>(
                PkitError::SourceAlreadyExists,
            ) && final(self)@ == old(self)@,
            !has_source(old(self)@.sources, name@) ==> r is Ok && final(self)@ == (ConfigView {
                sources: old(self)@.sources.push(SourceView { name: name@, path: path@ }),
                ..old(self)@
            }),
            old(self)@.wf() ==> final(self)@.wf(),
    {
        if self.get_path_source(name).is_some() {
            return Err(PkitError::SourceAlreadyExists);
        }
        let e = Source { name: name.to_owned(), path: path.to_owned() };
        let ghost before = self.sources@;
        let ghost ev = e@;
        self.sources.push(e);
        assert(sources_view(self.sources@) =~= sources_view(before).push(ev));
        proof {
            let t = sources_view(self.sources@);
            if old(self)@.wf() {
                assert forall|i: int, j: int| 0 <= i < t.len() && 0 <= j < t.len() && i != j implies #[trigger] names_rel()(t[i], t[j]) by {
                    if i < before.len() && j < before.len() {
                        assert(names_rel()(old(self)@.sources[i], old(self)@.sources[j]));
                    } else if i < before.len() {
                        assert(old(self)@.sources[i].name != name@);
                    } else {
                        assert(old(self)@.sources[j].name != name@);
                    }
                }
            }
        }
        Ok(())
    }

    /// Removes the path source `name`; fails with `SourceNotFound`, changing
    /// nothing, when it is not registered.
    pub fn remove_path_source(&mut self, name: &str) -> (r: Result<(), PkitError>)
        ensures
            !has_source(old(self)@.sources, name@) ==> r == Err::<(), PkitError>(
                PkitError::SourceNotFound,
            ) && final(self)@ == old(self)@,
            has_source(old(self)@.sources, name@) ==> r is Ok && final(self)@ == (ConfigView {
                sources: without_source(old(self)@.sources, name@),
                ..old(self)@
            }),
            old(self)@.wf() ==> final(self)@.wf(),
    {
        if self.get_path_source(name).is_none() {
            return Err(PkitError::SourceNotFound);
        }
        let ghost all = old(self)@.sources;
        let mut list: Vec<Source> = Vec::new();
        core::mem::swap(&mut self.sources, &mut list);
        let mut i: usize = 0;
        while i < list.len()
            invariant
                i <= list@.len(),
                sources_view(list@) == all,
                all == old(self)@.sources,
                self.path == old(self).path,
                self.installed == old(self).installed,
                sources_view(self.sources@) == without_source(all.subrange(0, i as int), name@),
            decreases list@.len() - i,
        {
            let e = copy_source(&list[i]);
            let ghost ev = e@;
            let keep = !str_eq(e.name.as_str(), name);
            proof {
                reveal(Seq::filter);
                assert(all.subrange(0, i + 1).drop_last() =~= all.subrange(0, i as int));
                assert(all.subrange(0, i + 1).last() == ev);
            }
            if keep {
                let ghost before = self.sources@;
                self.sources.push(e);
                assert(sources_view(self.sources@) =~= sources_view(before).push(ev));
            }
            i += 1;
        }
        assert(all.subrange(0, list@.len() as int) =~= all);
        proof {
            if old(self)@.wf() {
                lemma_filter_keeps_pairwise(
                    all,
                    |e: SourceView| e.name != name@,
                    names_rel(),
                );
            }
        }
        Ok(())
    }

    /// Points the path source `name` at `path`; fails with `SourceNotFound`,
    /// changing nothing, when it is not registered.
    pub fn set_path_source(&mut self, name: &str, path: &str) -> (r: Result<(), PkitError>)
        ensures
            !has_source(old(self)@.sources, name@) ==> r == Err::<(), PkitError>(
                PkitError::SourceNotFound,
            ) && final(self)@ == old(self)@,
            has_source(old(self)@.sources, name@) ==> r is Ok && final(self)@ == (ConfigView {
                sources: with_source_path(old(self)@.sources, name@, path@),
                ..old(self)@
            }),
            old(self)@.wf() ==> final(self)@.wf(),
    {
        if self.get_path_source(name).is_none() {
            return Err(PkitError::SourceNotFound);
        }
        let ghost target = with_source_path(old(self)@.sources, name@, path@);
        let mut list: Vec<Source> = Vec::new();
        core::mem::swap(&mut self.sources, &mut list);
        let mut i: usize = 0;
        while i < list.len()
            invariant
                i <= list@.len(),
                sources_view(list@) == old(self)@.sources,
                target.len() == list@.len(),
                target == with_source_path(old(self)@.sources, name@, path@),
                self.path == old(self).path,
                self.installed == old(self).installed,
                sources_view(self.sources@) =~= target.subrange(0, i as int),
            decreases list@.len() - i,
        {
            let mut e = copy_source(&list[i]);
            if str_eq(e.name.as_str(), name) {
                e.path = path.to_owned();
            }
            let ghost before = self.sources@;
            let ghost ev = e@;
            proof {
                assert(sources_view(list@)[i as int] == list@[i as int]@);
                assert(ev == target[i as int]);
            }
            self.sources.push(e);
            proof {
                assert(sources_view(self.sources@) =~= sources_view(before).push(ev));
                assert(target.subrange(0, i + 1) =~= target.subrange(0, i as int).push(target[i as int]));
            }
            i += 1;
        }
        assert(target.subrange(0, list@.len() as int) =~= target);
        proof {
            let t = target;
            let o = old(self)@.sources;
            if old(self)@.wf() {
                assert forall|i: int, j: int| 0 <= i < t.len() && 0 <= j < t.len() && i != j implies #[trigger] names_rel()(t[i], t[j]) by {
                    assert(names_rel()(o[i], o[j]));
                }
            }
        }
        Ok(())
    }
}

} // verus!
