//! The registry's record file: a JSON object with the path sources, the
//! installed runtimes and the storage root.
use vstd::prelude::*;
use vstd::string::*;
use crate::jsondoc::{
    DocView, JsonDoc, items_of, lemma_array_view, lemma_object_view, members_view, json_doc_of, json_text_of, lookup, member, member_of, parse_doc,
    plain_doc, render_depth, render_doc,
};
use crate::registry::{
    Config, ConfigView, Installed, InstalledView, PkitError, Source, SourceView, defaults_rel,
    defaults_unique, installed_view, keys_rel, keys_unique, names_rel, source_names_unique,
    sources_view,
};
use crate::text::str_eq;

verus! {

/// The string member `key` of `d`, if it is a string.
pub open spec fn text_field(d: DocView, key: Seq<char>) -> Option<Seq<char>> {
    match member_of(d, key) {
        DocView::Str(s) => Some(s),
        _ => None,
    }
}

/// The boolean member `key` of `d`; false when it is missing or no boolean.
pub open spec fn flag_field(d: DocView, key: Seq<char>) -> bool {
    match member_of(d, key) {
        DocView::Bool(b) => b,
        _ => false,
    }
}

/// An installed entry read from an object with string fields `language`,
/// `version` and `path`, and an optional boolean `default`.
pub open spec fn installed_entry(d: DocView) -> Option<InstalledView> {
    match (text_field(d, "language"@), text_field(d, "version"@), text_field(d, "path"@)) {
        (Some(l), Some(v), Some(p)) => Some(
            InstalledView { language: l, version: v, path: p, default: flag_field(d, "default"@) },
        ),
        _ => None,
    }
}

/// A path source read from an object with string fields `name` and `path`.
pub open spec fn source_entry(d: DocView) -> Option<SourceView> {
    match (text_field(d, "name"@), text_field(d, "path"@)) {
        (Some(n), Some(p)) => Some(SourceView { name: n, path: p }),
        _ => None,
    }
}

/// The registry a record document holds under `root`: the entries of its
/// `installed` and `sources` arrays, in order (a missing array holds none).
/// `None` when an entry lacks a string field or the entries break the
/// registry's invariants.
pub open spec fn config_from_doc(root: Seq<char>, d: DocView) -> Option<ConfigView> {
    let inst = items_of(member_of(d, "installed"@));
    let srcs = items_of(member_of(d, "sources"@));
    if (forall|i: int| 0 <= i < inst.len() ==> (#[trigger] installed_entry(inst[i])) is Some) && (forall|i: int|
        0 <= i < srcs.len() ==> (#[trigger] source_entry(srcs[i])) is Some) {
        let c = ConfigView {
            root,
            installed: Seq::new(inst.len(), |i: int| installed_entry(inst[i])->0),
            sources: Seq::new(srcs.len(), |i: int| source_entry(srcs[i])->0),
        };
        if c.wf() {
            Some(c)
        } else {
            None
        }
    } else {
        None
    }
}

pub open spec fn source_doc(s: SourceView) -> DocView {
    DocView::Object(seq![("name"@, DocView::Str(s.name)), ("path"@, DocView::Str(s.path))])
}

pub open spec fn installed_doc(e: InstalledView) -> DocView {
    DocView::Object(
        seq![
            ("language"@, DocView::Str(e.language)),
            ("version"@, DocView::Str(e.version)),
            ("path"@, DocView::Str(e.path)),
            ("default"@, DocView::Bool(e.default)),
        ],
    )
}

/// The record document of a registry: its sources, its installed entries
/// and its storage root.
pub open spec fn record_doc(c: ConfigView) -> DocView {
    DocView::Object(
        seq![
            ("sources"@, DocView::Array(c.sources.map_values(|s: SourceView| source_doc(s)))),
            ("installed"@, DocView::Array(c.installed.map_values(|e: InstalledView| installed_doc(e)))),
            ("path"@, DocView::Str(c.root)),
        ],
    )
}

/// The record file's text for a registry.
pub open spec fn record_text(c: ConfigView) -> Seq<char> {
    json_text_of(record_doc(c))
}

proof fn lemma_key_literals()
    ensures
        "sources"@ != "installed"@,
        "sources"@ != "path"@,
        "installed"@ != "path"@,
        "name"@ != "path"@,
        "language"@ != "version"@,
        "language"@ != "path"@,
        "language"@ != "default"@,
        "version"@ != "path"@,
        "version"@ != "default"@,
        "path"@ != "default"@,
{
    reveal_strlit("sources");
    reveal_strlit("installed");
    reveal_strlit("path");
    reveal_strlit("name");
    reveal_strlit("language");
    reveal_strlit("version");
    reveal_strlit("default");
    assert("sources"@.len() != "installed"@.len());
    assert("sources"@.len() != "path"@.len());
    assert("installed"@.len() != "path"@.len());
    assert("name"@[0] != "path"@[0]);
    assert("language"@.len() != "version"@.len());
    assert("language"@.len() != "path"@.len());
    assert("language"@.len() != "default"@.len());
    assert("version"@.len() != "path"@.len());
    assert("version"@[0] != "default"@[0]);
    assert("path"@.len() != "default"@.len());
}

/// A record document is plain: `json` writes it and reads it back unchanged.
pub proof fn lemma_record_doc_plain(c: ConfigView)
    ensures
        plain_doc(record_doc(c), render_depth()),
{
    lemma_key_literals();
    let srcs = c.sources.map_values(|s: SourceView| source_doc(s));
    let insts = c.installed.map_values(|e: InstalledView| installed_doc(e));
    assert forall|i: int| 0 <= i < srcs.len() implies plain_doc(#[trigger] srcs[i], (render_depth() - 2) as nat) by {
        let m = seq![("name"@, DocView::Str(c.sources[i].name)), ("path"@, DocView::Str(c.sources[i].path))];
        assert(srcs[i] == DocView::Object(m));
        assert(plain_doc(m[0].1, (render_depth() - 3) as nat));
        assert(plain_doc(m[1].1, (render_depth() - 3) as nat));
    }
    assert forall|i: int| 0 <= i < insts.len() implies plain_doc(#[trigger] insts[i], (render_depth() - 2) as nat) by {
        let e = c.installed[i];
        let m = seq![
            ("language"@, DocView::Str(e.language)),
            ("version"@, DocView::Str(e.version)),
            ("path"@, DocView::Str(e.path)),
            ("default"@, DocView::Bool(e.default)),
        ];
        assert(insts[i] == DocView::Object(m));
        assert(plain_doc(m[0].1, (render_depth() - 3) as nat));
        assert(plain_doc(m[1].1, (render_depth() - 3) as nat));
        assert(plain_doc(m[2].1, (render_depth() - 3) as nat));
        assert(plain_doc(m[3].1, (render_depth() - 3) as nat));
    }
    let top = seq![
        ("sources"@, DocView::Array(srcs)),
        ("installed"@, DocView::Array(insts)),
        ("path"@, DocView::Str(c.root)),
    ];
    assert(plain_doc(top[0].1, (render_depth() - 1) as nat));
    assert(plain_doc(top[1].1, (render_depth() - 1) as nat));
    assert(plain_doc(top[2].1, (render_depth() - 1) as nat));
}

/// Reading back a written registry: a well-formed registry is exactly what
/// its record document holds. With the contracts of `encode` (the text reads
/// back as `record_doc(c)`) and `decode`, `decode(root, encode(c))` is
/// `Ok(c)`.
pub proof fn lemma_record_round_trip(c: ConfigView)
    requires
        c.wf(),
    ensures
        config_from_doc(c.root, record_doc(c)) == Some(c),
{
    lemma_key_literals();
    let srcs = c.sources.map_values(|s: SourceView| source_doc(s));
    let insts = c.installed.map_values(|e: InstalledView| installed_doc(e));
    let top = seq![
        ("sources"@, DocView::Array(srcs)),
        ("installed"@, DocView::Array(insts)),
        ("path"@, DocView::Str(c.root)),
    ];
    assert(top.drop_first()[0] == top[1]);
    assert(lookup(top.drop_first(), "installed"@) == DocView::Array(insts));
    assert(lookup(top, "installed"@) == DocView::Array(insts));
    assert(lookup(top, "sources"@) == DocView::Array(srcs));
    assert forall|i: int| 0 <= i < insts.len() implies (#[trigger] installed_entry(insts[i])) == Some(c.installed[i]) by {
        let e = c.installed[i];
        let m = seq![
            ("language"@, DocView::Str(e.language)),
            ("version"@, DocView::Str(e.version)),
            ("path"@, DocView::Str(e.path)),
            ("default"@, DocView::Bool(e.default)),
        ];
        assert(insts[i] == DocView::Object(m));
        assert(m.drop_first()[0] == m[1]);
        assert(m.drop_first().drop_first()[0] == m[2]);
        assert(m.drop_first().drop_first().drop_first()[0] == m[3]);
        let m1 = m.drop_first();
        let m2 = m1.drop_first();
        let m3 = m2.drop_first();
        assert(lookup(m, "language"@) == DocView::Str(e.language));
        assert(lookup(m1, "version"@) == DocView::Str(e.version));
        assert(lookup(m, "version"@) == DocView::Str(e.version));
        assert(lookup(m2, "path"@) == DocView::Str(e.path));
        assert(lookup(m1, "path"@) == DocView::Str(e.path));
        assert(lookup(m, "path"@) == DocView::Str(e.path));
        assert(lookup(m3, "default"@) == DocView::Bool(e.default));
        assert(lookup(m2, "default"@) == DocView::Bool(e.default));
        assert(lookup(m1, "default"@) == DocView::Bool(e.default));
        assert(lookup(m, "default"@) == DocView::Bool(e.default));
    }
    assert forall|i: int| 0 <= i < srcs.len() implies (#[trigger] source_entry(srcs[i])) == Some(c.sources[i]) by {
        let s = c.sources[i];
        let m = seq![("name"@, DocView::Str(s.name)), ("path"@, DocView::Str(s.path))];
        assert(srcs[i] == DocView::Object(m));
        assert(m.drop_first()[0] == m[1]);
        assert(lookup(m, "name"@) == DocView::Str(s.name));
        assert(lookup(m.drop_first(), "path"@) == DocView::Str(s.path));
        assert(lookup(m, "path"@) == DocView::Str(s.path));
    }
    let inst = items_of(member_of(record_doc(c), "installed"@));
    let sv = items_of(member_of(record_doc(c), "sources"@));
    assert(Seq::new(inst.len(), |i: int| installed_entry(inst[i])->0) =~= c.installed);
    assert(Seq::new(sv.len(), |i: int| source_entry(sv[i])->0) =~= c.sources);
}

/// Whether no two entries share a (language, version) key.
fn keys_distinct(v: &Vec<Installed>) -> (r: bool)
    ensures
        r == keys_unique(installed_view(v@)),
{
    let ghost s = installed_view(v@);
    let n = v.len();
    let mut i: usize = 0;
    while i < n
        invariant
            n == v@.len(),
            s == installed_view(v@),
            i <= n,
            forall|a: int, b: int| 0 <= a < i && 0 <= b < n && a != b ==> #[trigger] keys_rel()(s[a], s[b]),
        decreases n - i,
    {
        let mut j: usize = 0;
        while j < n
            invariant
                n == v@.len(),
                s == installed_view(v@),
                i < n,
                j <= n,
                forall|a: int, b: int| 0 <= a < i && 0 <= b < n && a != b ==> #[trigger] keys_rel()(s[a], s[b]),
                forall|b: int| 0 <= b < j && b != i ==> #[trigger] keys_rel()(s[i as int], s[b]),
            decreases n - j,
        {
            if j != i && str_eq(v[i].language.as_str(), v[j].language.as_str()) && str_eq(v[i].version.as_str(), v[j].version.as_str()) {
                assert(!keys_rel()(s[i as int], s[j as int]));
                return false;
            }
            assert(v@[j as int]@ == s[j as int]);
            j += 1;
        }
        assert forall|a: int, b: int| 0 <= a < i + 1 && 0 <= b < n && a != b implies #[trigger] keys_rel()(s[a], s[b]) by {
            if a == i {
                assert(keys_rel()(s[i as int], s[b]));
            }
        }
        i += 1;
    }
    true
}

/// Whether every language has one default at most.
fn defaults_distinct(v: &Vec<Installed>) -> (r: bool)
    ensures
        r == defaults_unique(installed_view(v@)),
{
    let ghost s = installed_view(v@);
    let n = v.len();
    let mut i: usize = 0;
    while i < n
        invariant
            n == v@.len(),
            s == installed_view(v@),
            i <= n,
            forall|a: int, b: int| 0 <= a < i && 0 <= b < n && a != b ==> #[trigger] defaults_rel()(s[a], s[b]),
        decreases n - i,
    {
        let mut j: usize = 0;
        while j < n
            invariant
                n == v@.len(),
                s == installed_view(v@),
                i < n,
                j <= n,
                forall|a: int, b: int| 0 <= a < i && 0 <= b < n && a != b ==> #[trigger] defaults_rel()(s[a], s[b]),
                forall|b: int| 0 <= b < j && b != i ==> #[trigger] defaults_rel()(s[i as int], s[b]),
            decreases n - j,
        {
            if j != i && v[i].default && v[j].default && str_eq(v[i].language.as_str(), v[j].language.as_str()) {
                assert(!defaults_rel()(s[i as int], s[j as int]));
                return false;
            }
            assert(v@[j as int]@ == s[j as int]);
            j += 1;
        }
        assert forall|a: int, b: int| 0 <= a < i + 1 && 0 <= b < n && a != b implies #[trigger] defaults_rel()(s[a], s[b]) by {
            if a == i {
                assert(defaults_rel()(s[i as int], s[b]));
            }
        }
        i += 1;
    }
    true
}

/// Whether no two path sources share a name.
fn names_distinct(v: &Vec<Source>) -> (r: bool)
    ensures
        r == source_names_unique(sources_view(v@)),
{
    let ghost s = sources_view(v@);
    let n = v.len();
    let mut i: usize = 0;
    while i < n
        invariant
            n == v@.len(),
            s == sources_view(v@),
            i <= n,
            forall|a: int, b: int| 0 <= a < i && 0 <= b < n && a != b ==> #[trigger] names_rel()(s[a], s[b]),
        decreases n - i,
    {
        let mut j: usize = 0;
        while j < n
            invariant
                n == v@.len(),
                s == sources_view(v@),
                i < n,
                j <= n,
                forall|a: int, b: int| 0 <= a < i && 0 <= b < n && a != b ==> #[trigger] names_rel()(s[a], s[b]),
                forall|b: int| 0 <= b < j && b != i ==> #[trigger] names_rel()(s[i as int], s[b]),
            decreases n - j,
        {
            if j != i && str_eq(v[i].name.as_str(), v[j].name.as_str()) {
                assert(!names_rel()(s[i as int], s[j as int]));
                return false;
            }
            assert(v@[j as int]@ == s[j as int]);
            j += 1;
        }
        assert forall|a: int, b: int| 0 <= a < i + 1 && 0 <= b < n && a != b implies #[trigger] names_rel()(s[a], s[b]) by {
            if a == i {
                assert(names_rel()(s[i as int], s[b]));
            }
        }
        i += 1;
    }
    true
}

/// The string member `key` of an entry; `ConfigCorrupt` when it is missing
/// or no string.
fn string_member(d: &JsonDoc, key: &str) -> (r: Result<String, PkitError>)
    ensures
        match text_field(d@, key@) {
            Some(s) => r matches Ok(x) && x@ == s,
            None => r == Err::<String, PkitError>(PkitError::ConfigCorrupt),
        },
{
    match member(d, key) {
        Some(JsonDoc::Str(s)) => Ok(s.clone()),
        _ => Err(PkitError::ConfigCorrupt),
    }
}

fn flag_member(d: &JsonDoc, key: &str) -> (r: bool)
    ensures
        r == flag_field(d@, key@),
{
    match member(d, key) {
        Some(JsonDoc::Bool(b)) => *b,
        _ => false,
    }
}

/// The elements of the array member `key`; none when it is missing or no array.
fn array_member<'a>(d: &'a JsonDoc, key: &str) -> (r: Option<&'a Vec<JsonDoc>>)
    ensures
        match r {
            Some(v) => items_of(member_of(d@, key@)) == v@.map_values(|x: JsonDoc| x@),
            None => items_of(member_of(d@, key@)) == Seq::<DocView>::empty(),
        },
{
    match member(d, key) {
        Some(JsonDoc::Array(v)) => {
            assert(v@.map_values(|x: JsonDoc| x@) =~= items_of(member_of(d@, key@)));
            Some(v)
        },
        _ => None,
    }
}

fn installed_from(d: &JsonDoc) -> (r: Result<Installed, PkitError>)
    ensures
        match installed_entry(d@) {
            Some(e) => r matches Ok(x) && x@ == e,
            None => r == Err::<Installed, PkitError>(PkitError::ConfigCorrupt),
        },
{
    let language = string_member(d, "language")?;
    let version = string_member(d, "version")?;
    let path = string_member(d, "path")?;
    let default = flag_member(d, "default");
    Ok(Installed { language, version, path, default })
}

fn source_from(d: &JsonDoc) -> (r: Result<Source, PkitError>)
    ensures
        match source_entry(d@) {
            Some(e) => r matches Ok(x) && x@ == e,
            None => r == Err::<Source, PkitError>(PkitError::ConfigCorrupt),
        },
{
    let name = string_member(d, "name")?;
    let path = string_member(d, "path")?;
    Ok(Source { name, path })
}

fn source_docs(c: &Config) -> (r: Vec<JsonDoc>)
    ensures
        r@.map_values(|x: JsonDoc| x@) == c@.sources.map_values(|s: SourceView| source_doc(s)),
{
    let mut r: Vec<JsonDoc> = Vec::new();
    let mut i: usize = 0;
    while i < c.sources.len()
        invariant
            i <= c.sources@.len(),
            r@.map_values(|x: JsonDoc| x@) == c@.sources.subrange(0, i as int).map_values(|s: SourceView| source_doc(s)),
        decreases c.sources@.len() - i,
    {
        let s = &c.sources[i];
        let mut m: Vec<(String, JsonDoc)> = Vec::new();
        m.push((String::from_str("name"), JsonDoc::Str(s.name.clone())));
        m.push((String::from_str("path"), JsonDoc::Str(s.path.clone())));
        proof { lemma_object_view(m); }
        let ghost mm = m@;
        let d = JsonDoc::Object(m);
        assert(d@ == source_doc(c@.sources[i as int])) by {
            assert(c@.sources[i as int] == s@);
            assert(mm[0].1@ == DocView::Str(s.name@));
            assert(mm[1].1@ == DocView::Str(s.path@));
            assert(members_view(mm) =~= seq![("name"@, DocView::Str(s.name@)), ("path"@, DocView::Str(s.path@))]);
        }
        let ghost before = r@;
        let ghost dv = d@;
        r.push(d);
        assert(r@.map_values(|x: JsonDoc| x@) =~= before.map_values(|x: JsonDoc| x@).push(dv));
        assert(c@.sources.subrange(0, i + 1).map_values(|s: SourceView| source_doc(s)) =~= c@.sources.subrange(0, i as int).map_values(|s: SourceView| source_doc(s)).push(dv));
        i += 1;
    }
    assert(c@.sources.subrange(0, c.sources@.len() as int) =~= c@.sources);
    r
}

fn installed_docs(c: &Config) -> (r: Vec<JsonDoc>)
    ensures
        r@.map_values(|x: JsonDoc| x@) == c@.installed.map_values(|e: InstalledView| installed_doc(e)),
{
    let mut r: Vec<JsonDoc> = Vec::new();
    let mut i: usize = 0;
    while i < c.installed.len()
        invariant
            i <= c.installed@.len(),
            r@.map_values(|x: JsonDoc| x@) == c@.installed.subrange(0, i as int).map_values(
                |e: InstalledView| installed_doc(e),
            ),
        decreases c.installed@.len() - i,
    {
        let e = &c.installed[i];
        let mut m: Vec<(String, JsonDoc)> = Vec::new();
        m.push((String::from_str("language"), JsonDoc::Str(e.language.clone())));
        m.push((String::from_str("version"), JsonDoc::Str(e.version.clone())));
        m.push((String::from_str("path"), JsonDoc::Str(e.path.clone())));
        m.push((String::from_str("default"), JsonDoc::Bool(e.default)));
        proof { lemma_object_view(m); }
        let ghost mm = m@;
        let d = JsonDoc::Object(m);
        assert(d@ == installed_doc(c@.installed[i as int])) by {
            assert(c@.installed[i as int] == e@);
            assert(mm[0].1@ == DocView::Str(e.language@));
            assert(mm[1].1@ == DocView::Str(e.version@));
            assert(mm[2].1@ == DocView::Str(e.path@));
            assert(mm[3].1@ == DocView::Bool(e.default));
            assert(members_view(mm) =~= seq![
                ("language"@, DocView::Str(e.language@)),
                ("version"@, DocView::Str(e.version@)),
                ("path"@, DocView::Str(e.path@)),
                ("default"@, DocView::Bool(e.default)),
            ]);
        }
        let ghost before = r@;
        let ghost dv = d@;
        r.push(d);
        assert(r@.map_values(|x: JsonDoc| x@) =~= before.map_values(|x: JsonDoc| x@).push(dv));
        assert(c@.installed.subrange(0, i + 1).map_values(|e: InstalledView| installed_doc(e)) =~= c@.installed.subrange(0, i as int).map_values(|e: InstalledView| installed_doc(e)).push(dv));
        i += 1;
    }
    assert(c@.installed.subrange(0, c.installed@.len() as int) =~= c@.installed);
    r
}

impl Config {
    /// Whether the registry meets its invariants: unique keys, one default
    /// per language at most, unique source names.
    pub fn is_well_formed(&self) -> (r: bool)
        ensures
            r == self@.wf(),
    {
        keys_distinct(&self.installed) && defaults_distinct(&self.installed) && names_distinct(&self.sources)
    }

    /// The record document of this registry.
    pub fn to_doc(&self) -> (r: JsonDoc)
        ensures
            r@ == record_doc(self@),
    {
        let srcs = source_docs(self);
        let insts = installed_docs(self);
        proof {
            lemma_array_view(srcs);
            lemma_array_view(insts);
        }
        let mut m: Vec<(String, JsonDoc)> = Vec::new();
        m.push((String::from_str("sources"), JsonDoc::Array(srcs)));
        m.push((String::from_str("installed"), JsonDoc::Array(insts)));
        m.push((String::from_str("path"), JsonDoc::Str(self.path.clone())));
        proof { lemma_object_view(m); }
        let ghost mm = m@;
        let r = JsonDoc::Object(m);
        assert(mm[2].1@ == DocView::Str(self.path@));
        assert(members_view(mm) =~= record_doc(self@)->Object_0);
        r
    }

    /// The record file's text for this registry; `json` reads it back as
    /// the registry's record document.
    pub fn encode(&self) -> (r: String)
        ensures
            r@ == record_text(self@),
            json_doc_of(r@) == Some(record_doc(self@)),
    {
        let d = self.to_doc();
        proof {
            lemma_record_doc_plain(self@);
        }
        render_doc(&d)
    }

    /// The registry a record document holds under `root`; `ConfigCorrupt`
    /// when an entry lacks a string field or the entries break the
    /// registry's invariants.
    pub fn from_doc(root: &str, doc: &JsonDoc) -> (r: Result<Config, PkitError>)
        ensures
            match config_from_doc(root@, doc@) {
                Some(c) => r matches Ok(x) && x@ == c,
                None => r == Err::<Config, PkitError>(PkitError::ConfigCorrupt),
            },
    {
        let ghost inst = items_of(member_of(doc@, "installed"@));
        let ghost srcs = items_of(member_of(doc@, "sources"@));
        let empty: Vec<JsonDoc> = Vec::new();
        let inst_items = match array_member(doc, "installed") {
            Some(v) => v,
            None => &empty,
        };
        let src_items = match array_member(doc, "sources") {
            Some(v) => v,
            None => &empty,
        };
        assert(inst == inst_items@.map_values(|x: JsonDoc| x@));
        assert(srcs == src_items@.map_values(|x: JsonDoc| x@));
        let mut installed: Vec<Installed> = Vec::new();
        let mut i: usize = 0;
        while i < inst_items.len()
            invariant
                inst == inst_items@.map_values(|x: JsonDoc| x@),
                inst == items_of(member_of(doc@, "installed"@)),
                srcs == items_of(member_of(doc@, "sources"@)),
                i <= inst_items@.len(),
                forall|k: int| 0 <= k < i ==> (#[trigger] installed_entry(inst[k])) is Some,
                installed_view(installed@) == Seq::new(i as nat, |k: int| installed_entry(inst[k])->0),
            decreases inst_items@.len() - i,
        {
            assert(inst[i as int] == inst_items@[i as int]@);
            let e = match installed_from(&inst_items[i]) {
                Ok(e) => e,
                Err(x) => {
                    assert(installed_entry(inst[i as int]) is None);
                    return Err(x);
                },
            };
            let ghost before = installed@;
            let ghost ev = e@;
            installed.push(e);
            assert(installed_view(installed@) =~= installed_view(before).push(ev));
            assert(Seq::new((i + 1) as nat, |k: int| installed_entry(inst[k])->0) =~= Seq::new(i as nat, |k: int| installed_entry(inst[k])->0).push(ev));
            i += 1;
        }
        assert(Seq::new(i as nat, |k: int| installed_entry(inst[k])->0) =~= Seq::new(inst.len(), |k: int| installed_entry(inst[k])->0));
        let mut sources: Vec<Source> = Vec::new();
        let mut j: usize = 0;
        while j < src_items.len()
            invariant
                srcs == src_items@.map_values(|x: JsonDoc| x@),
                inst == items_of(member_of(doc@, "installed"@)),
                srcs == items_of(member_of(doc@, "sources"@)),
                forall|k: int| 0 <= k < inst.len() ==> (#[trigger] installed_entry(inst[k])) is Some,
                installed_view(installed@) == Seq::new(inst.len(), |k: int| installed_entry(inst[k])->0),
                j <= src_items@.len(),
                forall|k: int| 0 <= k < j ==> (#[trigger] source_entry(srcs[k])) is Some,
                sources_view(sources@) == Seq::new(j as nat, |k: int| source_entry(srcs[k])->0),
            decreases src_items@.len() - j,
        {
            assert(srcs[j as int] == src_items@[j as int]@);
            let s = match source_from(&src_items[j]) {
                Ok(s) => s,
                Err(x) => {
                    assert(source_entry(srcs[j as int]) is None);
                    return Err(x);
                },
            };
            let ghost before = sources@;
            let ghost sv = s@;
            sources.push(s);
            assert(sources_view(sources@) =~= sources_view(before).push(sv));
            assert(Seq::new((j + 1) as nat, |k: int| source_entry(srcs[k])->0) =~= Seq::new(j as nat, |k: int| source_entry(srcs[k])->0).push(sv));
            j += 1;
        }
        assert(Seq::new(j as nat, |k: int| source_entry(srcs[k])->0) =~= Seq::new(srcs.len(), |k: int| source_entry(srcs[k])->0));
        let c = Config { path: root.to_owned(), installed, sources };
        if !c.is_well_formed() {
            return Err(PkitError::ConfigCorrupt);
        }
        Ok(c)
    }

    /// Reads a registry stored under `root` from its record file's text:
    /// `ConfigCorrupt` when `json` rejects the text, else what `from_doc`
    /// makes of the document.
    pub fn decode(root: &str, text: &str) -> (r: Result<Config, PkitError>)
        ensures
            match json_doc_of(text@) {
                None => r == Err::<Config, PkitError>(PkitError::ConfigCorrupt),
                Some(d) => match config_from_doc(root@, d) {
                    Some(c) => r matches Ok(x) && x@ == c,
                    None => r == Err::<Config, PkitError>(PkitError::ConfigCorrupt),
                },
            },
    {
        match parse_doc(text) {
            None => Err(PkitError::ConfigCorrupt),
            Some(d) => Config::from_doc(root, &d),
        }
    }
}

} // verus!
