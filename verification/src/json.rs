//! JSONPath rules (`$.data.list[*].name`) on JSON responses, through
//! `serde_json` and `jsonpath_lib`.
use vstd::prelude::*;
use crate::text::{chars_of, opt_str, trim, trim_chars, trim_str, string_of};
use crate::dom::{dom_root, text_of, strs_view, HtmlDoc};

verus! {

/// Whether `serde_json::from_str` accepts the text as a JSON value.
pub uninterp spec fn json_valid(text: Seq<char>) -> bool;

/// What `jsonpath_lib::select` finds for the path in the JSON value parsed
/// from the text, in its order: `None` for `null`, `Some((true, s))` for the
/// string `s`, `Some((false, t))` for any other value serialized as `t`.
/// `None` as a whole when the path is not valid.
pub uninterp spec fn json_select(text: Seq<char>, path: Seq<char>) -> Option<Seq<Option<(bool, Seq<char>)>>>;

#[verifier::external_type_specification]
#[verifier::external_body]
pub struct ExJsonValue(serde_json::Value);

/// A JSON value together with the text it was parsed from.
pub struct JsonDoc {
    text: String,
    value: serde_json::Value,
}

impl View for JsonDoc {
    type V = Seq<char>;

    closed spec fn view(&self) -> Seq<char> {
        self.text@
    }
}

/// One value that a JSONPath finds.
pub enum JsonHit {
    /// `null`.
    Null,
    /// A string.
    Text(String),
    /// Any other value, serialized as JSON.
    Other(String),
}

pub open spec fn hit_view(h: JsonHit) -> Option<(bool, Seq<char>)> {
    match h {
        JsonHit::Null => None,
        JsonHit::Text(s) => Some((true, s@)),
        JsonHit::Other(s) => Some((false, s@)),
    }
}

pub open spec fn hits_view(v: Seq<JsonHit>) -> Seq<Option<(bool, Seq<char>)>> {
    v.map_values(|h: JsonHit| hit_view(h))
}

/// `serde_json::from_str::<Value>`: the parsed value, when the text is JSON.
#[verifier::external_body]
fn parse_json(text: &str) -> (r: Option<JsonDoc>)
    ensures
        r is Some <==> json_valid(text@),
        r matches Some(d) ==> d@ == text@,
{
    match serde_json::from_str::<serde_json::Value>(text) {
        Ok(value) => Some(JsonDoc { text: text.to_owned(), value }),
        Err(_) => None,
    }
}

/// `jsonpath_lib::select`: the values the path finds (each string taken as
/// it is, any other value but `null` serialized with `Value::to_string`).
/// Only paths of `plain_json_path` are admitted: jsonpath_lib 0.3 can panic
/// on filters (`?(...)`, `@`), on ranges with a step (`[a:b:c]`, which
/// panics for a zero step) and on scripts in parentheses.
#[verifier::external_body]
fn select_json(doc: &JsonDoc, path: &str) -> (r: Option<Vec<JsonHit>>)
    requires
        plain_json_path(path@),
    ensures
        match r {
            Some(v) => json_select(doc@, path@) == Some(hits_view(v@)),
            None => json_select(doc@, path@) is None,
        },
{
    match jsonpath_lib::select(&doc.value, path) {
        Ok(found) => Some(found.into_iter().map(|v| match v {
            serde_json::Value::Null => JsonHit::Null,
            serde_json::Value::String(s) => JsonHit::Text(s.clone()),
            other => JsonHit::Other(other.to_string()),
        }).collect()),
        Err(_) => None,
    }
}

/// Whether a path from character `i` on is plain, `colon` telling whether a
/// `:` came since the last `]`: no `?`, `@`, `(` or `)`, and no second `:`
/// before a `]`.
pub open spec fn plain_from(p: Seq<char>, i: int, colon: bool) -> bool
    decreases p.len() - i,
{
    if i < 0 || i >= p.len() {
        true
    } else {
        let c = p[i];
        if c == '?' || c == '@' || c == '(' || c == ')' {
            false
        } else if c == ':' {
            !colon && plain_from(p, i + 1, true)
        } else if c == ']' {
            plain_from(p, i + 1, false)
        } else {
            plain_from(p, i + 1, colon)
        }
    }
}

/// A JSONPath without filters, scripts or stepped ranges.
pub open spec fn plain_json_path(p: Seq<char>) -> bool {
    plain_from(p, 0, false)
}

/// Whether a path is plain (see `plain_json_path`).
pub fn is_plain_json_path(path: &str) -> (b: bool)
    ensures
        b == plain_json_path(path@),
{
    let p = chars_of(path);
    let mut colon = false;
    let mut i: usize = 0;
    while i < p.len()
        invariant
            i <= p@.len(),
            p@ == path@,
            plain_from(p@, 0, false) == plain_from(p@, i as int, colon),
        decreases p@.len() - i,
    {
        let c = p[i];
        if c == '?' || c == '@' || c == '(' || c == ')' {
            return false;
        } else if c == ':' {
            if colon {
                return false;
            }
            colon = true;
        } else if c == ']' {
            colon = false;
        }
        i = i + 1;
    }
    true
}

/// A rule that is a JSONPath: it starts with `$` or `{`.
pub open spec fn is_json_path(r: Seq<char>) -> bool {
    r.len() > 0 && (r[0] == '$' || r[0] == '{')
}

pub fn is_json_path_rule(rule: &str) -> (b: bool)
    ensures
        b == is_json_path(rule@),
{
    let s = chars_of(rule);
    s.len() > 0 && (s[0] == '$' || s[0] == '{')
}

/// The values of the hits: strings trimmed (blank ones dropped), `null`
/// dropped, other values as their JSON text.
pub open spec fn hit_values(hits: Seq<Option<(bool, Seq<char>)>>) -> Seq<Seq<char>>
    decreases hits.len(),
{
    if hits.len() == 0 {
        Seq::empty()
    } else {
        let rest = hit_values(hits.drop_last());
        match hits.last() {
            None => rest,
            Some((true, s)) => if trim(s).len() == 0 {
                rest
            } else {
                rest.push(trim(s))
            },
            Some((false, t)) => rest.push(t),
        }
    }
}

/// The values a JSONPath rule finds in a JSON text: none for blank or
/// non-JSON text, an invalid path, or a path that is not plain (filters,
/// scripts and stepped ranges are not evaluated).
pub open spec fn json_values_spec(text: Seq<char>, rule: Seq<char>) -> Seq<Seq<char>> {
    if trim(text).len() == 0 || !json_valid(text) || !plain_json_path(rule) {
        Seq::empty()
    } else {
        match json_select(text, rule) {
            Some(hits) => hit_values(hits),
            None => Seq::empty(),
        }
    }
}

fn hit_values_exec(hits: Vec<JsonHit>) -> (r: Vec<String>)
    ensures
        strs_view(r@) == hit_values(hits_view(hits@)),
{
    let ghost hv = hits_view(hits@);
    let mut out: Vec<String> = Vec::new();
    let mut i: usize = 0;
    while i < hits.len()
        invariant
            i <= hits@.len(),
            hv == hits_view(hits@),
            strs_view(out@) == hit_values(hv.take(i as int)),
        decreases hits@.len() - i,
    {
        proof {
            assert(hv.take(i + 1).drop_last() =~= hv.take(i as int));
        }
        let ghost before = out@;
        match &hits[i] {
            JsonHit::Null => {},
            JsonHit::Text(s) => {
                let t = trim_chars(&chars_of(s.as_str()));
                if t.len() > 0 {
                    out.push(string_of(&t));
                    proof {
                        assert(strs_view(out@) =~= strs_view(before).push(t@));
                    }
                }
            },
            JsonHit::Other(s) => {
                out.push(string_of(&chars_of(s.as_str())));
                proof {
                    assert(strs_view(out@) =~= strs_view(before).push(s@));
                }
            },
        }
        i = i + 1;
    }
    proof {
        assert(hv.take(hits@.len() as int) =~= hv);
    }
    out
}

/// The values a JSONPath rule finds in a JSON text.
pub fn extract_json_path_values_from_text(json_text: &str, rule: &str) -> (r: Vec<String>)
    ensures
        strs_view(r@) == json_values_spec(json_text@, rule@),
{
    let empty: Vec<String> = Vec::new();
    proof {
        assert(strs_view(empty@) =~= Seq::<Seq<char>>::empty());
    }
    if chars_of(trim_str(json_text).as_str()).len() == 0 {
        return empty;
    }
    if !is_plain_json_path(rule) {
        return empty;
    }
    match parse_json(json_text) {
        Some(doc) => match select_json(&doc, rule) {
            Some(hits) => hit_values_exec(hits),
            None => empty,
        },
        None => empty,
    }
}

/// A JSONPath rule on the text of a document (all its text nodes).
pub fn extract_json_path_values(d: &HtmlDoc, rule: &str) -> (r: Vec<String>)
    ensures
        strs_view(r@) == json_values_spec(text_of(d@, dom_root(d@)), rule@),
{
    let text = d.text(d.root());
    extract_json_path_values_from_text(text.as_str(), rule)
}

/// A JSONPath rule on the text of an element.
pub fn extract_json_path_values_from_element(d: &HtmlDoc, node: usize, rule: &str) -> (r: Vec<String>)
    ensures
        strs_view(r@) == json_values_spec(text_of(d@, node), rule@),
{
    let text = d.text(node);
    extract_json_path_values_from_text(text.as_str(), rule)
}


// ---------------------------------------------------------------------------
// The top level of a JSON document, field by field
// ---------------------------------------------------------------------------

/// A field's value as the book-source reader takes it.
#[derive(Debug, Clone)]
pub enum JsonScalar {
    Null,
    Bool(bool),
    /// A number that fits an `i64`.
    Int(i64),
    Text(String),
    /// Any other value (array, object, other number), as JSON text.
    Other(String),
}

/// The view of a field's value.
pub enum JsonLeaf {
    Null,
    Bool(bool),
    Int(i64),
    Text(Seq<char>),
    Other(Seq<char>),
}

impl View for JsonScalar {
    type V = JsonLeaf;

    open spec fn view(&self) -> JsonLeaf {
        match self {
            JsonScalar::Null => JsonLeaf::Null,
            JsonScalar::Bool(b) => JsonLeaf::Bool(*b),
            JsonScalar::Int(i) => JsonLeaf::Int(*i),
            JsonScalar::Text(s) => JsonLeaf::Text(s@),
            JsonScalar::Other(s) => JsonLeaf::Other(s@),
        }
    }
}

/// The fields of an object, viewed.
pub open spec fn fields_view(f: Seq<(String, JsonScalar)>) -> Seq<(Seq<char>, JsonLeaf)> {
    f.map_values(|x: (String, JsonScalar)| (x.0@, x.1@))
}

pub open spec fn items_view(v: Seq<Option<Vec<(String, JsonScalar)>>>) -> Seq<Option<Seq<(Seq<char>, JsonLeaf)>>> {
    v.map_values(|o: Option<Vec<(String, JsonScalar)>>| match o {
        Some(f) => Some(fields_view(f@)),
        None => None,
    })
}

/// The top level of the JSON value parsed from the text: whether it is an
/// array, and the fields of each element (of the value itself when it is no
/// array), `None` for one that is no object. Fields come in the parsed
/// object's order, which is the order they are written in: `jsonpath_lib`
/// builds `serde_json` with its `preserve_order` feature, so objects keep
/// their fields in insertion order.
pub uninterp spec fn json_items(text: Seq<char>) -> (bool, Seq<Option<Seq<(Seq<char>, JsonLeaf)>>>);

/// A field's value taken apart (`Value::as_i64`, `Value::to_string` for the rest).
#[verifier::external_body]
fn scalar_of(v: &serde_json::Value) -> (r: JsonScalar) {
    match v {
        serde_json::Value::Null => JsonScalar::Null,
        serde_json::Value::Bool(b) => JsonScalar::Bool(*b),
        serde_json::Value::String(s) => JsonScalar::Text(s.clone()),
        serde_json::Value::Number(n) => match n.as_i64() {
            Some(i) => JsonScalar::Int(i),
            None => JsonScalar::Other(v.to_string()),
        },
        other => JsonScalar::Other(other.to_string()),
    }
}

/// The fields of an object value (`Value::as_object`).
#[verifier::external_body]
fn fields_of(v: &serde_json::Value) -> (r: Option<Vec<(String, JsonScalar)>>) {
    v.as_object().map(|m| m.iter().map(|(k, x)| (k.clone(), scalar_of(x))).collect())
}

/// The top level of a parsed JSON document, element by element.
#[verifier::external_body]
pub(crate) fn top_level_items(doc: &JsonDoc) -> (r: (bool, Vec<Option<Vec<(String, JsonScalar)>>>))
    ensures
        (r.0, items_view(r.1@)) == json_items(doc@),
{
    match &doc.value {
        serde_json::Value::Array(items) => (true, items.iter().map(|x| fields_of(x)).collect()),
        other => (false, vec![fields_of(other)]),
    }
}

/// Parses a JSON text (see `parse_json`): `None` when it is not JSON.
pub(crate) fn parse_json_doc(text: &str) -> (r: Option<JsonDoc>)
    ensures
        r is Some <==> json_valid(text@),
        r matches Some(d) ==> d@ == text@,
{
    parse_json(text)
}
} // verus!
