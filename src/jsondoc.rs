//! JSON documents as values of the library: what `json` parses a text
//! into, and what it writes for a document.
use vstd::prelude::*;
use crate::text::str_eq;

verus! {

#[verifier::external_type_specification]
#[verifier::external_body]
pub struct ExJsonValue(json::JsonValue);

/// A JSON document. Numbers keep their text; an object keeps its members
/// in order.
#[derive(Debug)]
pub enum JsonDoc {
    Null,
    Bool(bool),
    Str(String),
    Number(String),
    Array(Vec<JsonDoc>),
    Object(Vec<(String, JsonDoc)>),
}

pub enum DocView {
    Null,
    Bool(bool),
    Str(Seq<char>),
    Number(Seq<char>),
    Array(Seq<DocView>),
    Object(Seq<(Seq<char>, DocView)>),
}

pub open spec fn doc_view(d: JsonDoc) -> DocView
    decreases d,
{
    match d {
        JsonDoc::Null => DocView::Null,
        JsonDoc::Bool(b) => DocView::Bool(b),
        JsonDoc::Str(s) => DocView::Str(s@),
        JsonDoc::Number(s) => DocView::Number(s@),
        JsonDoc::Array(v) => DocView::Array(
            Seq::new(v.len() as nat, |i: int| if 0 <= i < v.len() { doc_view(v[i]) } else { DocView::Null }),
        ),
        JsonDoc::Object(m) => DocView::Object(
            Seq::new(
                m.len() as nat,
                |i: int|
                    if 0 <= i < m.len() {
                        (m[i].0@, doc_view(m[i].1))
                    } else {
                        (Seq::empty(), DocView::Null)
                    },
            ),
        ),
    }
}

impl View for JsonDoc {
    type V = DocView;

    open spec fn view(&self) -> DocView {
        doc_view(*self)
    }
}

pub open spec fn members_view(m: Seq<(String, JsonDoc)>) -> Seq<(Seq<char>, DocView)> {
    m.map_values(|p: (String, JsonDoc)| (p.0@, p.1@))
}

/// The view of an object built from members.
pub proof fn lemma_object_view(m: Vec<(String, JsonDoc)>)
    ensures
        JsonDoc::Object(m)@ == DocView::Object(members_view(m@)),
{
    let x = doc_view(JsonDoc::Object(m));
    assert(x is Object);
    let s = x->Object_0;
    assert(s.len() == m@.len());
    assert forall|i: int| 0 <= i < s.len() implies s[i] == members_view(m@)[i] by {}
    assert(s =~= members_view(m@));
}

/// The view of an array built from elements.
pub proof fn lemma_array_view(v: Vec<JsonDoc>)
    ensures
        JsonDoc::Array(v)@ == DocView::Array(v@.map_values(|x: JsonDoc| x@)),
{
    let x = doc_view(JsonDoc::Array(v));
    assert(x is Array);
    let s = x->Array_0;
    assert(s.len() == v@.len());
    assert forall|i: int| 0 <= i < s.len() implies s[i] == v@.map_values(|x: JsonDoc| x@)[i] by {}
    assert(s =~= v@.map_values(|x: JsonDoc| x@));
}

/// A document that `json` writes and reads back unchanged: no numbers, no
/// key twice in one object, and nested less than `depth` deep.
pub open spec fn plain_doc(d: DocView, depth: nat) -> bool
    decreases d,
{
    match d {
        DocView::Number(_) => false,
        DocView::Array(v) => depth > 0 && forall|i: int| 0 <= i < v.len() ==> plain_doc(#[trigger] v[i], (depth - 1) as nat),
        DocView::Object(m) => depth > 0 && (forall|i: int, j: int|
            0 <= i < m.len() && 0 <= j < m.len() && i != j ==> (#[trigger] m[i]).0 != (#[trigger] m[j]).0) && (forall|i: int|
            0 <= i < m.len() ==> plain_doc((#[trigger] m[i]).1, (depth - 1) as nat)),
        _ => true,
    }
}

/// The depth up to which `json` reads documents back (its parser stops at 512).
pub open spec fn render_depth() -> nat {
    500
}

/// The document `json::parse` reads from `text`, or `None` when it rejects it.
pub uninterp spec fn json_doc_of(text: Seq<char>) -> Option<DocView>;

/// The text `json` writes for a document, indented by two spaces.
pub uninterp spec fn json_text_of(d: DocView) -> Seq<char>;

pub open spec fn doc_option_view(r: Option<JsonDoc>) -> Option<DocView> {
    match r {
        Some(d) => Some(d@),
        None => None,
    }
}

/// Converts a `json::JsonValue` into a document, variant for variant.
#[verifier::external_body]
fn doc_of_value(v: &json::JsonValue) -> JsonDoc {
    match v {
        json::JsonValue::Null => JsonDoc::Null,
        json::JsonValue::Short(s) => JsonDoc::Str(s.as_str().to_owned()),
        json::JsonValue::String(s) => JsonDoc::Str(s.clone()),
        json::JsonValue::Number(n) => JsonDoc::Number(n.to_string()),
        json::JsonValue::Boolean(b) => JsonDoc::Bool(*b),
        json::JsonValue::Object(o) => JsonDoc::Object(o.iter().map(|(k, x)| (k.to_owned(), doc_of_value(x))).collect()),
        json::JsonValue::Array(a) => JsonDoc::Array(a.iter().map(doc_of_value).collect()),
    }
}

/// Converts a document without numbers into a `json::JsonValue`, variant for variant.
#[verifier::external_body]
fn value_of_doc(d: &JsonDoc) -> json::JsonValue {
    match d {
        JsonDoc::Null | JsonDoc::Number(_) => json::JsonValue::Null,
        JsonDoc::Bool(b) => json::JsonValue::Boolean(*b),
        JsonDoc::Str(s) => json::JsonValue::String(s.clone()),
        JsonDoc::Array(a) => json::JsonValue::Array(a.iter().map(value_of_doc).collect()),
        JsonDoc::Object(m) => json::JsonValue::Object(m.iter().map(|(k, x)| (k.as_str(), value_of_doc(x))).collect()),
    }
}

/// Relies on `json::parse`: the document it reads, which depends on the text
/// alone; `None` where it fails.
#[verifier::external_body]
pub fn parse_doc(text: &str) -> (r: Option<JsonDoc>)
    ensures
        doc_option_view(r) == json_doc_of(text@),
{
    json::parse(text).ok().map(|v| doc_of_value(&v))
}

/// Relies on `json::JsonValue::pretty` with an indent of two: the text it
/// writes depends on the document alone, and `json::parse` reads a plain
/// document back from it unchanged (strings are escaped and unescaped,
/// members keep their order, no number is rounded, the depth is within the
/// parser's limit).
#[verifier::external_body]
pub fn render_doc(d: &JsonDoc) -> (r: String)
    requires
        plain_doc(d@, render_depth()),
    ensures
        r@ == json_text_of(d@),
        json_doc_of(r@) == Some(d@),
{
    value_of_doc(d).pretty(2)
}

/// The member `key` of an object: the first with that key; null when there
/// is none or `d` is no object.
pub open spec fn member_of(d: DocView, key: Seq<char>) -> DocView {
    match d {
        DocView::Object(m) => lookup(m, key),
        _ => DocView::Null,
    }
}

pub open spec fn lookup(m: Seq<(Seq<char>, DocView)>, key: Seq<char>) -> DocView
    decreases m.len(),
{
    if m.len() == 0 {
        DocView::Null
    } else if m[0].0 == key {
        m[0].1
    } else {
        lookup(m.drop_first(), key)
    }
}

/// The elements of an array; none for other values.
pub open spec fn items_of(d: DocView) -> Seq<DocView> {
    match d {
        DocView::Array(v) => v,
        _ => Seq::empty(),
    }
}

/// The member `key` of `d`; `None` stands for null.
pub fn member<'a>(d: &'a JsonDoc, key: &str) -> (r: Option<&'a JsonDoc>)
    ensures
        r matches Some(x) ==> x@ == member_of(d@, key@),
        r is None ==> member_of(d@, key@) == DocView::Null,
{
    match d {
        JsonDoc::Object(m) => {
            let ghost mv = match d@ {
                DocView::Object(mv) => mv,
                _ => Seq::empty(),
            };
            assert(mv.subrange(0, m@.len() as int) =~= mv);
            let mut i: usize = 0;
            while i < m.len()
                invariant
                    d@ == DocView::Object(mv),
                    mv.len() == m@.len(),
                    forall|k: int| 0 <= k < m@.len() ==> #[trigger] mv[k] == (m@[k].0@, m@[k].1@),
                    i <= m@.len(),
                    lookup(mv, key@) == lookup(mv.subrange(i as int, m@.len() as int), key@),
                decreases m@.len() - i,
            {
                let ghost rest = mv.subrange(i as int, m@.len() as int);
                assert(rest[0] == mv[i as int]);
                if str_eq(m[i].0.as_str(), key) {
                    return Some(&m[i].1);
                }
                assert(rest.drop_first() =~= mv.subrange(i + 1, m@.len() as int));
                i += 1;
            }
            None
        },
        _ => None,
    }
}

} // verus!
