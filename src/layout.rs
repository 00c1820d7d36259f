//! Locating a runtime's root inside an unpacked archive, and planning the
//! copy of its contents into the install directory.
//!
//! The unpacked tree is given as a listing in depth-first preorder, each
//! entry a path of components relative to the scratch directory; the scratch
//! directory itself is the entry with no components.
use vstd::prelude::*;
use crate::registry::PkitError;
use crate::text::{chars_of, chars_eq, slice_chars, str_eq, string_of};

verus! {

/// One file or directory of an unpacked tree.
#[derive(Debug)]
pub struct TreeEntry {
    pub path: Vec<String>,
    pub is_dir: bool,
}

/// One step of a copy: the entry at `from` (relative to the scratch
/// directory) goes to `to` (relative to the install directory).
#[derive(Debug)]
pub struct CopyStep {
    pub from: Vec<String>,
    pub to: Vec<String>,
    pub is_dir: bool,
}

pub struct EntryView {
    pub path: Seq<Seq<char>>,
    pub is_dir: bool,
}

pub struct StepView {
    pub from: Seq<Seq<char>>,
    pub to: Seq<Seq<char>>,
    pub is_dir: bool,
}

pub open spec fn components_view(v: Seq<String>) -> Seq<Seq<char>> {
    v.map_values(|s: String| s@)
}

impl View for TreeEntry {
    type V = EntryView;

    open spec fn view(&self) -> EntryView {
        EntryView { path: components_view(self.path@), is_dir: self.is_dir }
    }
}

impl View for CopyStep {
    type V = StepView;

    open spec fn view(&self) -> StepView {
        StepView { from: components_view(self.from@), to: components_view(self.to@), is_dir: self.is_dir }
    }
}

pub open spec fn entries_view(v: Seq<TreeEntry>) -> Seq<EntryView> {
    v.map_values(|e: TreeEntry| e@)
}

pub open spec fn steps_view(v: Seq<CopyStep>) -> Seq<StepView> {
    v.map_values(|e: CopyStep| e@)
}

/// The entry at `i` is a directory with a subdirectory named `bin`.
pub open spec fn has_bin_dir(t: Seq<EntryView>, i: int) -> bool {
    &&& 0 <= i < t.len()
    &&& t[i].is_dir
    &&& exists|j: int| 0 <= j < t.len() && t[j].is_dir && #[trigger] t[j].path == t[i].path.push("bin"@)
}

/// `i` is the first entry, in preorder, that is a runtime root.
pub open spec fn first_root(t: Seq<EntryView>, i: int) -> bool {
    has_bin_dir(t, i) && forall|j: int| 0 <= j < i ==> !#[trigger] has_bin_dir(t, j)
}

/// `p` lies strictly below `prefix`.
pub open spec fn strictly_under(p: Seq<Seq<char>>, prefix: Seq<Seq<char>>) -> bool {
    prefix.len() < p.len() && p.subrange(0, prefix.len() as int) == prefix
}

/// The copy of everything strictly below `prefix`, in listing order.
pub open spec fn copy_plan(t: Seq<EntryView>, prefix: Seq<Seq<char>>) -> Seq<StepView>
    decreases t.len(),
{
    if t.len() == 0 {
        Seq::empty()
    } else {
        let init = copy_plan(t.drop_last(), prefix);
        let e = t.last();
        if strictly_under(e.path, prefix) {
            init.push(StepView { from: e.path, to: e.path.subrange(prefix.len() as int, e.path.len() as int), is_dir: e.is_dir })
        } else {
            init
        }
    }
}

fn components_eq(a: &Vec<String>, b: &Vec<String>) -> (r: bool)
    ensures
        r == (components_view(a@) == components_view(b@)),
{
    if a.len() != b.len() {
        return false;
    }
    let mut i: usize = 0;
    while i < a.len()
        invariant
            a@.len() == b@.len(),
            i <= a@.len(),
            forall|k: int| 0 <= k < i ==> a@[k]@ == b@[k]@,
        decreases a@.len() - i,
    {
        if !str_eq(a[i].as_str(), b[i].as_str()) {
            assert(components_view(a@)[i as int] != components_view(b@)[i as int]);
            return false;
        }
        i += 1;
    }
    assert(components_view(a@) =~= components_view(b@));
    true
}

/// Whether `child` is `parent` followed by the component `bin`.
fn is_bin_of(child: &Vec<String>, parent: &Vec<String>) -> (r: bool)
    ensures
        r == (components_view(child@) == components_view(parent@).push("bin"@)),
{
    let n = parent.len();
    if child.len() == 0 || child.len() - 1 != n {
        assert(components_view(child@).len() != components_view(parent@).push("bin"@).len());
        return false;
    }
    let mut i: usize = 0;
    while i < n
        invariant
            n == parent@.len(),
            child@.len() == n + 1,
            i <= n,
            forall|k: int| 0 <= k < i ==> child@[k]@ == parent@[k]@,
        decreases n - i,
    {
        if !str_eq(child[i].as_str(), parent[i].as_str()) {
            assert(components_view(child@)[i as int] != components_view(parent@).push("bin"@)[i as int]);
            return false;
        }
        i += 1;
    }
    let last = str_eq(child[n].as_str(), "bin");
    if !last {
        assert(components_view(child@)[n as int] != components_view(parent@).push("bin"@)[n as int]);
        return false;
    }
    assert(components_view(child@) =~= components_view(parent@).push("bin"@));
    true
}

fn has_bin_dir_exec(entries: &Vec<TreeEntry>, i: usize) -> (r: bool)
    requires
        i < entries@.len(),
    ensures
        r == has_bin_dir(entries_view(entries@), i as int),
{
    let ghost t = entries_view(entries@);
    if !entries[i].is_dir {
        return false;
    }
    let mut j: usize = 0;
    while j < entries.len()
        invariant
            t == entries_view(entries@),
            i < entries@.len(),
            entries@[i as int].is_dir,
            j <= entries@.len(),
            forall|k: int| 0 <= k < j ==> !(t[k].is_dir && #[trigger] t[k].path == t[i as int].path.push("bin"@)),
        decreases entries@.len() - j,
    {
        if entries[j].is_dir && is_bin_of(&entries[j].path, &entries[i].path) {
            assert(t[j as int].path == t[i as int].path.push("bin"@));
            assert(t[j as int].is_dir);
            assert(t[i as int].is_dir);
            return true;
        }
        j += 1;
    }
    false
}

/// The first directory, in preorder, that directly holds a subdirectory named `bin`.
pub fn find_dir_with_bin(entries: &Vec<TreeEntry>) -> (r: Option<usize>)
    ensures
        r is None <==> forall|i: int| 0 <= i < entries@.len() ==> !#[trigger] has_bin_dir(entries_view(entries@), i),
        r matches Some(i) ==> first_root(entries_view(entries@), i as int),
{
    let mut i: usize = 0;
    while i < entries.len()
        invariant
            i <= entries@.len(),
            forall|j: int| 0 <= j < i ==> !#[trigger] has_bin_dir(entries_view(entries@), j),
        decreases entries@.len() - i,
    {
        if has_bin_dir_exec(entries, i) {
            return Some(i);
        }
        i += 1;
    }
    None
}

fn copy_components(v: &Vec<String>, from: usize) -> (r: Vec<String>)
    requires
        from <= v@.len(),
    ensures
        components_view(r@) == components_view(v@).subrange(from as int, v@.len() as int),
{
    let mut r: Vec<String> = Vec::new();
    let mut i: usize = from;
    while i < v.len()
        invariant
            from <= i <= v@.len(),
            components_view(r@) == components_view(v@).subrange(from as int, i as int),
        decreases v@.len() - i,
    {
        let ghost before = r@;
        r.push(v[i].clone());
        assert(components_view(r@) =~= components_view(before).push(v@[i as int]@));
        assert(components_view(v@).subrange(from as int, i + 1) =~= components_view(v@).subrange(from as int, i as int).push(v@[i as int]@));
        i += 1;
    }
    r
}

fn is_strictly_under(p: &Vec<String>, prefix: &Vec<String>) -> (r: bool)
    ensures
        r == strictly_under(components_view(p@), components_view(prefix@)),
{
    if prefix.len() >= p.len() {
        return false;
    }
    let mut h: Vec<String> = Vec::new();
    let mut i: usize = 0;
    while i < prefix.len()
        invariant
            prefix@.len() < p@.len(),
            i <= prefix@.len(),
            components_view(h@) == components_view(p@).subrange(0, i as int),
        decreases prefix@.len() - i,
    {
        let ghost before = h@;
        h.push(p[i].clone());
        assert(components_view(h@) =~= components_view(before).push(p@[i as int]@));
        assert(components_view(p@).subrange(0, i + 1) =~= components_view(p@).subrange(0, i as int).push(p@[i as int]@));
        i += 1;
    }
    components_eq(&h, prefix)
}

/// Finds the runtime root of an unpacked tree and plans the copy of its
/// contents. Fails with `LayoutNotFound`, planning nothing, when no directory
/// of the tree holds a subdirectory named `bin`.
pub fn resolve_layout(entries: &Vec<TreeEntry>) -> (r: Result<Vec<CopyStep>, PkitError>)
    ensures
        r is Err <==> forall|i: int| 0 <= i < entries@.len() ==> !#[trigger] has_bin_dir(entries_view(entries@), i),
        r matches Err(e) ==> e == PkitError::LayoutNotFound,
        r matches Ok(plan) ==> exists|i: int|
            first_root(entries_view(entries@), i) && steps_view(plan@) == copy_plan(
                entries_view(entries@),
                entries_view(entries@)[i].path,
            ),
{
    match find_dir_with_bin(entries) {
        None => Err(PkitError::LayoutNotFound),
        Some(root) => {
            let ghost t = entries_view(entries@);
            let prefix = &entries[root].path;
            let ghost pv = components_view(prefix@);
            assert(pv == t[root as int].path);
            let mut plan: Vec<CopyStep> = Vec::new();
            let mut k: usize = 0;
            while k < entries.len()
                invariant
                    t == entries_view(entries@),
                    pv == components_view(prefix@),
                    k <= entries@.len(),
                    steps_view(plan@) == copy_plan(t.subrange(0, k as int), pv),
                decreases entries@.len() - k,
            {
                assert(t.subrange(0, k + 1).drop_last() =~= t.subrange(0, k as int));
                assert(t.subrange(0, k + 1).last() == entries@[k as int]@);
                let e = &entries[k];
                if is_strictly_under(&e.path, prefix) {
                    let step = CopyStep {
                        from: copy_components(&e.path, 0),
                        to: copy_components(&e.path, prefix.len()),
                        is_dir: e.is_dir,
                    };
                    assert(components_view(e.path@).subrange(0, e.path@.len() as int) =~= components_view(e.path@));
                    let ghost before = plan@;
                    let ghost sv = step@;
                    plan.push(step);
                    assert(steps_view(plan@) =~= steps_view(before).push(sv));
                }
                k += 1;
            }
            assert(t.subrange(0, entries@.len() as int) =~= t);
            Ok(plan)
        },
    }
}

/// A tree whose directories are none of them named `bin` has no runtime root.
pub proof fn lemma_no_bin_no_root(t: Seq<EntryView>)
    requires
        forall|j: int| 0 <= j < t.len() && (#[trigger] t[j]).is_dir ==> t[j].path.len() == 0 || t[j].path.last() != "bin"@,
    ensures
        forall|i: int| 0 <= i < t.len() ==> !#[trigger] has_bin_dir(t, i),
{
    assert forall|i: int| 0 <= i < t.len() implies !#[trigger] has_bin_dir(t, i) by {
        if has_bin_dir(t, i) {
            let j = choose|j: int| 0 <= j < t.len() && t[j].is_dir && #[trigger] t[j].path == t[i].path.push("bin"@);
            assert(t[j].path.last() == "bin"@);
        }
    }
}

/// The archive formats that can be unpacked.
#[derive(Debug, Clone, Copy, PartialEq, Eq, Structural)]
pub enum ArchiveKind {
    Zip,
    TarGz,
}

/// The position of the last `c` in `s`, or -1.
pub open spec fn last_index_of(s: Seq<char>, c: char) -> int
    decreases s.len(),
{
    if s.len() == 0 {
        -1
    } else if s.last() == c {
        s.len() - 1
    } else {
        last_index_of(s.drop_last(), c)
    }
}

/// A file name's extension: what follows its last dot, unless that dot opens the name.
pub open spec fn extension(name: Seq<char>) -> Option<Seq<char>> {
    let k = last_index_of(name, '.');
    if k <= 0 {
        None
    } else {
        Some(name.subrange(k + 1, name.len() as int))
    }
}

/// A file name without its extension.
pub open spec fn stem(name: Seq<char>) -> Seq<char> {
    let k = last_index_of(name, '.');
    if k <= 0 {
        name
    } else {
        name.subrange(0, k)
    }
}

pub open spec fn has_suffix(s: Seq<char>, p: Seq<char>) -> bool {
    p.len() <= s.len() && s.subrange(s.len() - p.len(), s.len() as int) == p
}

/// The format an archive's file name announces.
pub open spec fn archive_kind_of(name: Seq<char>) -> Option<ArchiveKind> {
    if extension(name) == Some("zip"@) {
        Some(ArchiveKind::Zip)
    } else if extension(name) == Some("gz"@) && has_suffix(name, ".tar.gz"@) {
        Some(ArchiveKind::TarGz)
    } else if extension(name) == Some("tgz"@) {
        Some(ArchiveKind::TarGz)
    } else {
        None
    }
}

proof fn lemma_last_index_bounds(s: Seq<char>, c: char)
    ensures
        -1 <= last_index_of(s, c) < s.len(),
        last_index_of(s, c) >= 0 ==> s[last_index_of(s, c)] == c,
    decreases s.len(),
{
    if s.len() > 0 && s.last() != c {
        lemma_last_index_bounds(s.drop_last(), c);
    }
}

fn last_dot(name: &Vec<char>) -> (r: Option<usize>)
    ensures
        r is None ==> last_index_of(name@, '.') == -1,
        r matches Some(k) ==> k == last_index_of(name@, '.'),
{
    let mut k: usize = name.len();
    assert(name@.subrange(0, k as int) =~= name@);
    while k > 0
        invariant
            k <= name@.len(),
            last_index_of(name@, '.') == last_index_of(name@.subrange(0, k as int), '.'),
        decreases k,
    {
        assert(name@.subrange(0, k as int).drop_last() =~= name@.subrange(0, k - 1));
        if name[k - 1] == '.' {
            return Some(k - 1);
        }
        k -= 1;
    }
    None
}

/// The format an archive's file name announces, if it is one that can be unpacked.
pub fn archive_kind(file_name: &str) -> (r: Option<ArchiveKind>)
    ensures
        r == archive_kind_of(file_name@),
{
    let name = chars_of(file_name);
    proof { lemma_last_index_bounds(name@, '.'); }
    let k = match last_dot(&name) {
        None => return None,
        Some(k) => k,
    };
    if k == 0 {
        return None;
    }
    let n = name.len();
    let ext = slice_chars(&name, k + 1, n);
    let zip = chars_of("zip");
    let gz = chars_of("gz");
    let tgz = chars_of("tgz");
    let tar_gz = chars_of(".tar.gz");
    if chars_eq(&ext, &zip) {
        Some(ArchiveKind::Zip)
    } else if chars_eq(&ext, &gz) && tar_gz.len() <= name.len() && chars_eq(
        &slice_chars(&name, name.len() - tar_gz.len(), name.len()),
        &tar_gz,
    ) {
        Some(ArchiveKind::TarGz)
    } else if chars_eq(&ext, &tgz) {
        Some(ArchiveKind::TarGz)
    } else {
        None
    }
}

/// A file name without its extension: the directory an archive unpacks into.
pub fn archive_stem(file_name: &str) -> (r: String)
    ensures
        r@ == stem(file_name@),
{
    let name = chars_of(file_name);
    proof { lemma_last_index_bounds(name@, '.'); }
    match last_dot(&name) {
        Some(k) if k > 0 => string_of(&slice_chars(&name, 0, k)),
        _ => string_of(&name),
    }
}

} // verus!
