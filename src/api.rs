//! The catalog of downloadable runtimes: request URLs, and the answers
//! read into plain values.
use vstd::prelude::*;
use vstd::string::*;
use crate::jsondoc::{DocView, JsonDoc, items_of, json_doc_of, member, member_of, parse_doc};
use crate::text::str_eq;

verus! {

/// One downloadable build of a runtime.
#[derive(Debug)]
pub struct Version {
    pub language: String,
    pub version: String,
    pub platform: String,
    pub arch: String,
    pub url: String,
}

pub struct VersionView {
    pub language: Seq<char>,
    pub version: Seq<char>,
    pub platform: Seq<char>,
    pub arch: Seq<char>,
    pub url: Seq<char>,
}

impl View for Version {
    type V = VersionView;

    open spec fn view(&self) -> VersionView {
        VersionView {
            language: self.language@,
            version: self.version@,
            platform: self.platform@,
            arch: self.arch@,
            url: self.url@,
        }
    }
}

/// A runtime and its downloadable builds.
#[derive(Debug)]
pub struct Language {
    pub name: String,
    pub versions: Vec<Version>,
}

/// The catalog's base address.
pub const API_URL: &'static str = "https://pkit.sirblob.co/api";

/// What `str::to_lowercase` yields for `s`.
pub uninterp spec fn lowercase_of(s: Seq<char>) -> Seq<char>;

/// Relies on `str::to_lowercase`: the lower-case mapping of a string, which
/// depends on the string alone.
#[verifier::external_body]
fn lowercase(s: &str) -> (r: String)
    ensures
        r@ == lowercase_of(s@),
{
    s.to_lowercase()
}

/// The catalog's name for a host OS.
pub open spec fn platform_name(os: Seq<char>) -> Seq<char> {
    if os == "windows"@ {
        "win"@
    } else if os == "macos"@ {
        "darwin"@
    } else if os == "linux"@ {
        "linux"@
    } else {
        Seq::empty()
    }
}

/// The catalog's name for a CPU architecture.
pub open spec fn arch_name(arch: Seq<char>, pointer_64: bool) -> Seq<char> {
    if arch == "x86_64"@ {
        "x64"@
    } else if (arch == "arm"@ && pointer_64) || arch == "aarch64"@ {
        "arm64"@
    } else {
        "none"@
    }
}

/// The query that narrows the catalog to builds for this host.
pub fn get_filters(os: &str, arch: &str, pointer_64: bool) -> (r: String)
    ensures
        r@ == "?platform="@ + platform_name(os@) + "&arch="@ + arch_name(arch@, pointer_64),
{
    let mut r = String::from_str("?platform=");
    if str_eq(os, "windows") {
        r.append("win");
    } else if str_eq(os, "macos") {
        r.append("darwin");
    } else if str_eq(os, "linux") {
        r.append("linux");
    }
    r.append("&arch=");
    if str_eq(arch, "x86_64") {
        r.append("x64");
    } else if (str_eq(arch, "arm") && pointer_64) || str_eq(arch, "aarch64") {
        r.append("arm64");
    } else {
        r.append("none");
    }
    r
}

/// The address listing all languages.
pub fn languages_url() -> (r: String)
    ensures
        r@ == API_URL@ + "/language"@,
{
    let mut r = String::from_str(API_URL);
    r.append("/language");
    r
}

/// The address listing the builds of `language` that match `filters`.
pub fn language_url(language: &str, filters: &str) -> (r: String)
    ensures
        r@ == API_URL@ + "/language/"@ + lowercase_of(language@) + filters@,
{
    let mut r = String::from_str(API_URL);
    r.append("/language/");
    r.append(lowercase(language).as_str());
    r.append(filters);
    r
}

/// The address of one build of `language` at `version` that matches `filters`.
pub fn language_version_url(language: &str, version: &str, filters: &str) -> (r: String)
    ensures
        r@ == API_URL@ + "/language/"@ + lowercase_of(language@) + "/"@ + version@ + filters@,
{
    let mut r = String::from_str(API_URL);
    r.append("/language/");
    r.append(lowercase(language).as_str());
    r.append("/");
    r.append(version);
    r.append(filters);
    r
}

/// Whether `language` is among `languages`, ignoring case.
pub fn language_listed(languages: &Vec<String>, language: &str) -> (r: bool)
    ensures
        r == exists|i: int| 0 <= i < languages@.len() && lowercase_of(#[trigger] languages@[i]@) == lowercase_of(language@),
{
    let wanted = lowercase(language);
    let mut i: usize = 0;
    while i < languages.len()
        invariant
            wanted@ == lowercase_of(language@),
            i <= languages@.len(),
            forall|j: int| 0 <= j < i ==> lowercase_of(#[trigger] languages@[j]@) != lowercase_of(language@),
        decreases languages@.len() - i,
    {
        let l = lowercase(languages[i].as_str());
        if str_eq(l.as_str(), wanted.as_str()) {
            return true;
        }
        i += 1;
    }
    false
}

/// Whether the catalog offers `version` of a language.
pub fn version_listed(language: &Language, version: &str) -> (r: bool)
    ensures
        r == exists|i: int| 0 <= i < language.versions@.len() && (#[trigger] language.versions@[i]).version@ == version@,
{
    let mut i: usize = 0;
    while i < language.versions.len()
        invariant
            i <= language.versions@.len(),
            forall|j: int| 0 <= j < i ==> (#[trigger] language.versions@[j]).version@ != version@,
        decreases language.versions@.len() - i,
    {
        if str_eq(language.versions[i].version.as_str(), version) {
            return true;
        }
        i += 1;
    }
    false
}

/// How a catalog value reads as text: a string as itself, a number as its
/// text, `true`, `false`, `null`; an array or an object reads as nothing.
pub open spec fn shown(d: DocView) -> Seq<char> {
    match d {
        DocView::Str(s) => s,
        DocView::Number(n) => n,
        DocView::Bool(b) => if b {
            "true"@
        } else {
            "false"@
        },
        DocView::Null => "null"@,
        _ => Seq::empty(),
    }
}

/// A build read from a catalog object with members `name`, `version`,
/// `platform`, `arch` and `url`.
pub open spec fn version_entry(d: DocView) -> VersionView {
    VersionView {
        language: shown(member_of(d, "name"@)),
        version: shown(member_of(d, "version"@)),
        platform: shown(member_of(d, "platform"@)),
        arch: shown(member_of(d, "arch"@)),
        url: shown(member_of(d, "url"@)),
    }
}

pub open spec fn strings_view(v: Seq<String>) -> Seq<Seq<char>> {
    v.map_values(|s: String| s@)
}

pub open spec fn versions_view(v: Seq<Version>) -> Seq<VersionView> {
    v.map_values(|x: Version| x@)
}

fn shown_text(d: Option<&JsonDoc>) -> (r: String)
    ensures
        match d {
            Some(x) => r@ == shown(x@),
            None => r@ == shown(DocView::Null),
        },
{
    match d {
        Some(JsonDoc::Str(s)) => s.clone(),
        Some(JsonDoc::Number(n)) => n.clone(),
        Some(JsonDoc::Bool(b)) => if *b {
            String::from_str("true")
        } else {
            String::from_str("false")
        },
        Some(JsonDoc::Null) | None => String::from_str("null"),
        _ => String::new(),
    }
}

fn version_from(v: &JsonDoc) -> (r: Version)
    ensures
        r@ == version_entry(v@),
{
    Version {
        language: shown_text(member(v, "name")),
        version: shown_text(member(v, "version")),
        platform: shown_text(member(v, "platform")),
        arch: shown_text(member(v, "arch")),
        url: shown_text(member(v, "url")),
    }
}

/// The elements of a top-level array; none for other documents.
fn top_items(d: &JsonDoc) -> (r: &[JsonDoc])
    ensures
        r@.map_values(|x: JsonDoc| x@) == items_of(d@),
{
    match d {
        JsonDoc::Array(v) => {
            assert(v@.map_values(|x: JsonDoc| x@) =~= items_of(d@));
            v.as_slice()
        },
        _ => {
            let e: &[JsonDoc] = &[];
            assert(e@.map_values(|x: JsonDoc| x@) =~= items_of(d@));
            e
        },
    }
}

/// The language names of the catalog's answer, in order; `None` when it is not JSON.
pub fn parse_languages(text: &str) -> (r: Option<Vec<String>>)
    ensures
        match json_doc_of(text@) {
            None => r is None,
            Some(d) => r matches Some(v) && strings_view(v@) == items_of(d).map_values(|x: DocView| shown(x)),
        },
{
    let doc = match parse_doc(text) {
        Some(d) => d,
        None => return None,
    };
    let items = top_items(&doc);
    let ghost iv = items@.map_values(|x: JsonDoc| x@);
    let mut r: Vec<String> = Vec::new();
    let mut i: usize = 0;
    while i < items.len()
        invariant
            iv == items@.map_values(|x: JsonDoc| x@),
            i <= items@.len(),
            strings_view(r@) == iv.subrange(0, i as int).map_values(|x: DocView| shown(x)),
        decreases items@.len() - i,
    {
        let t = shown_text(Some(&items[i]));
        let ghost before = r@;
        let ghost tv = t@;
        r.push(t);
        assert(strings_view(r@) =~= strings_view(before).push(tv));
        assert(iv.subrange(0, i + 1).map_values(|x: DocView| shown(x)) =~= iv.subrange(0, i as int).map_values(|x: DocView| shown(x)).push(tv));
        i += 1;
    }
    assert(iv.subrange(0, items@.len() as int) =~= iv);
    Some(r)
}

/// The builds of `language` in the catalog's answer, in order; `None` when it is not JSON.
pub fn parse_language(language: &str, text: &str) -> (r: Option<Language>)
    ensures
        match json_doc_of(text@) {
            None => r is None,
            Some(d) => r matches Some(l) && l.name@ == language@ && versions_view(l.versions@) == items_of(d).map_values(
                |x: DocView| version_entry(x),
            ),
        },
{
    let doc = match parse_doc(text) {
        Some(d) => d,
        None => return None,
    };
    let items = top_items(&doc);
    let ghost iv = items@.map_values(|x: JsonDoc| x@);
    let mut versions: Vec<Version> = Vec::new();
    let mut i: usize = 0;
    while i < items.len()
        invariant
            iv == items@.map_values(|x: JsonDoc| x@),
            i <= items@.len(),
            versions_view(versions@) == iv.subrange(0, i as int).map_values(|x: DocView| version_entry(x)),
        decreases items@.len() - i,
    {
        let v = version_from(&items[i]);
        let ghost before = versions@;
        let ghost vv = v@;
        versions.push(v);
        assert(versions_view(versions@) =~= versions_view(before).push(vv));
        assert(iv.subrange(0, i + 1).map_values(|x: DocView| version_entry(x)) =~= iv.subrange(0, i as int).map_values(|x: DocView| version_entry(x)).push(vv));
        i += 1;
    }
    assert(iv.subrange(0, items@.len() as int) =~= iv);
    Some(Language { name: language.to_owned(), versions })
}

/// One build from the catalog's answer; `None` when it is not JSON.
pub fn parse_version(text: &str) -> (r: Option<Version>)
    ensures
        match json_doc_of(text@) {
            None => r is None,
            Some(d) => r matches Some(v) && v@ == version_entry(d),
        },
{
    match parse_doc(text) {
        Some(d) => Some(version_from(&d)),
        None => None,
    }
}

} // verus!
