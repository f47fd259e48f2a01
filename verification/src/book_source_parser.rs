//! Reading book sources from their JSON form: one source object or an
//! array of them. The rule objects are handed on as they are, to be read into
//! rule records by their `serde` form.
use vstd::prelude::*;
use crate::models::{now_rfc3339, BookSource};
use crate::error::ReaderError;
use crate::json::{fields_view, items_view, json_items, json_valid, parse_json_doc, top_level_items, JsonLeaf, JsonScalar};
use crate::text::{opt_str, str_eq};

verus! {

/// The rule objects of a source, as found under their keys.
#[derive(Debug, Clone)]
pub struct RuleSlots {
    pub rule_explore: Option<JsonScalar>,
    pub search_rule: Option<JsonScalar>,
    pub book_info_rule: Option<JsonScalar>,
    pub toc_rule: Option<JsonScalar>,
    pub content_rule: Option<JsonScalar>,
    pub review_rule: Option<JsonScalar>,
}

pub open spec fn leaf_opt(o: Option<JsonScalar>) -> Option<JsonLeaf> {
    match o {
        Some(x) => Some(x@),
        None => None,
    }
}

/// The value of the first field with the key.
pub open spec fn lookup(fs: Seq<(Seq<char>, JsonLeaf)>, key: Seq<char>) -> Option<JsonLeaf>
    decreases fs.len(),
{
    if fs.len() == 0 {
        None
    } else if fs[0].0 == key {
        Some(fs[0].1)
    } else {
        lookup(fs.drop_first(), key)
    }
}

/// A key of an object (nothing for a value that is no object).
pub open spec fn get(obj: Option<Seq<(Seq<char>, JsonLeaf)>>, key: Seq<char>) -> Option<JsonLeaf> {
    match obj {
        Some(fs) => lookup(fs, key),
        None => None,
    }
}

pub open spec fn as_str(o: Option<JsonLeaf>) -> Option<Seq<char>> {
    match o {
        Some(JsonLeaf::Text(s)) => Some(s),
        _ => None,
    }
}

pub open spec fn as_i64(o: Option<JsonLeaf>) -> Option<i64> {
    match o {
        Some(JsonLeaf::Int(i)) => Some(i),
        _ => None,
    }
}

pub open spec fn as_bool(o: Option<JsonLeaf>) -> Option<bool> {
    match o {
        Some(JsonLeaf::Bool(b)) => Some(b),
        _ => None,
    }
}

/// An optional text field: the string under the key, else none.
pub open spec fn str_field(obj: Option<Seq<(Seq<char>, JsonLeaf)>>, key: Seq<char>, v: Option<String>) -> bool {
    opt_str(v) == as_str(get(obj, key))
}

/// A number field: the integer under the key, truncated to `i32`, else 0.
pub open spec fn int_field(obj: Option<Seq<(Seq<char>, JsonLeaf)>>, key: Seq<char>, v: i32) -> bool {
    v == match as_i64(get(obj, key)) {
        Some(i) => i as i32,
        None => 0,
    }
}

/// The value under the first key, else under the second.
pub open spec fn either(obj: Option<Seq<(Seq<char>, JsonLeaf)>>, a: Seq<char>, b: Seq<char>) -> Option<JsonLeaf> {
    if get(obj, a) is Some {
        get(obj, a)
    } else {
        get(obj, b)
    }
}

/// The error for an object that lacks a required field.
pub open spec fn source_error(obj: Option<Seq<(Seq<char>, JsonLeaf)>>) -> Option<Seq<char>> {
    if as_str(get(obj, "bookSourceUrl"@)) is None {
        Some("缺少 bookSourceUrl 字段"@)
    } else if as_str(get(obj, "bookSourceName"@)) is None {
        Some("缺少 bookSourceName 字段"@)
    } else {
        None
    }
}

/// The source read from an object: its text, number and flag fields (each
/// at its default when absent or of another kind), no rules (their objects
/// are in the slots); the last-update time is the clock's unless given.
pub open spec fn source_ok(s: BookSource, slots: RuleSlots, obj: Option<Seq<(Seq<char>, JsonLeaf)>>) -> bool {
    &&& Some(s.book_source_url@) == as_str(get(obj, "bookSourceUrl"@))
    &&& Some(s.book_source_name@) == as_str(get(obj, "bookSourceName"@))
    &&& str_field(obj, "bookSourceGroup"@, s.book_source_group)
    &&& int_field(obj, "bookSourceType"@, s.book_source_type)
    &&& str_field(obj, "bookUrlPattern"@, s.book_url_pattern)
    &&& int_field(obj, "customOrder"@, s.custom_order)
    &&& s.enabled == match as_bool(get(obj, "enabled"@)) { Some(b) => b, None => true }
    &&& s.enabled_explore == match as_bool(get(obj, "enabledExplore"@)) { Some(b) => b, None => false }
    &&& str_field(obj, "jsLib"@, s.js_lib)
    &&& s.enabled_cookie_jar == match as_bool(get(obj, "enabledCookieJar"@)) { Some(b) => b, None => false }
    &&& str_field(obj, "concurrentRate"@, s.concurrent_rate)
    &&& str_field(obj, "header"@, s.header)
    &&& str_field(obj, "loginUrl"@, s.login_url)
    &&& str_field(obj, "loginUi"@, s.login_ui)
    &&& str_field(obj, "loginCheckJs"@, s.login_check_js)
    &&& str_field(obj, "coverDecodeJs"@, s.cover_decode_js)
    &&& str_field(obj, "bookSourceComment"@, s.book_source_comment)
    &&& str_field(obj, "variableComment"@, s.variable_comment)
    &&& (as_str(get(obj, "lastUpdateTime"@)) matches Some(t) ==> s.last_update_time@ == t)
    &&& int_field(obj, "respondTime"@, s.respond_time)
    &&& int_field(obj, "weight"@, s.weight)
    &&& str_field(obj, "exploreUrl"@, s.explore_url)
    &&& str_field(obj, "exploreScreen"@, s.explore_screen)
    &&& str_field(obj, "searchUrl"@, s.search_url)
    &&& s.rule_explore is None
    &&& s.search_rule is None
    &&& s.book_info_rule is None
    &&& s.toc_rule is None
    &&& s.content_rule is None
    &&& s.review_rule is None
    &&& leaf_opt(slots.rule_explore) == either(obj, "ruleExplore"@, "exploreRule"@)
    &&& leaf_opt(slots.search_rule) == either(obj, "searchRule"@, "ruleSearch"@)
    &&& leaf_opt(slots.book_info_rule) == either(obj, "bookInfoRule"@, "ruleBookInfo"@)
    &&& leaf_opt(slots.toc_rule) == either(obj, "tocRule"@, "ruleToc"@)
    &&& leaf_opt(slots.content_rule) == either(obj, "contentRule"@, "ruleContent"@)
    &&& leaf_opt(slots.review_rule) == either(obj, "reviewRule"@, "ruleReview"@)
}

fn copy_scalar(v: &JsonScalar) -> (r: JsonScalar)
    ensures
        r@ == v@,
{
    match v {
        JsonScalar::Null => JsonScalar::Null,
        JsonScalar::Bool(b) => JsonScalar::Bool(*b),
        JsonScalar::Int(i) => JsonScalar::Int(*i),
        JsonScalar::Text(s) => JsonScalar::Text(s.clone()),
        JsonScalar::Other(s) => JsonScalar::Other(s.clone()),
    }
}

fn get_value(obj: &Option<Vec<(String, JsonScalar)>>, key: &str) -> (r: Option<JsonScalar>)
    ensures
        leaf_opt(r) == get(
            match obj {
                Some(f) => Some(fields_view(f@)),
                None => None,
            },
            key@,
        ),
{
    match obj {
        None => None,
        Some(fields) => {
            let ghost fv = fields_view(fields@);
            let mut i: usize = 0;
            proof {
                assert(fv.skip(0) =~= fv);
            }
            while i < fields.len()
                invariant
                    i <= fields@.len(),
                    fv == fields_view(fields@),
                    obj_view(*obj) == Some(fv),
                    lookup(fv, key@) == lookup(fv.skip(i as int), key@),
                decreases fields@.len() - i,
            {
                proof {
                    assert(fv.skip(i as int).drop_first() =~= fv.skip(i + 1));
                    assert(fv.skip(i as int)[0] == (fields@[i as int].0@, fields@[i as int].1@));
                }
                if str_eq(fields[i].0.as_str(), key) {
                    let v = copy_scalar(&fields[i].1);
                    proof {
                        assert(lookup(fv.skip(i as int), key@) == Some(fv[i as int].1));
                        assert(v@ == fv[i as int].1);
                        assert(obj_view(*obj) == Some(fv));
                    }
                    return Some(v);
                }
                i = i + 1;
            }
            None
        },
    }
}

fn get_str(obj: &Option<Vec<(String, JsonScalar)>>, key: &str) -> (r: Option<String>)
    ensures
        opt_str(r) == as_str(get(
            match obj {
                Some(f) => Some(fields_view(f@)),
                None => None,
            },
            key@,
        )),
{
    match get_value(obj, key) {
        Some(JsonScalar::Text(s)) => Some(s),
        _ => None,
    }
}

fn get_i32(obj: &Option<Vec<(String, JsonScalar)>>, key: &str) -> (r: Option<i32>)
    ensures
        r == match as_i64(get(
            match obj {
                Some(f) => Some(fields_view(f@)),
                None => None,
            },
            key@,
        )) {
            Some(i) => Some(i as i32),
            None => None,
        },
{
    match get_value(obj, key) {
        Some(JsonScalar::Int(i)) => Some(i as i32),
        _ => None,
    }
}

fn get_bool(obj: &Option<Vec<(String, JsonScalar)>>, key: &str) -> (r: Option<bool>)
    ensures
        r == as_bool(get(
            match obj {
                Some(f) => Some(fields_view(f@)),
                None => None,
            },
            key@,
        )),
{
    match get_value(obj, key) {
        Some(JsonScalar::Bool(b)) => Some(b),
        _ => None,
    }
}

fn get_either(obj: &Option<Vec<(String, JsonScalar)>>, a: &str, b: &str) -> (r: Option<JsonScalar>)
    ensures
        leaf_opt(r) == either(
            match obj {
                Some(f) => Some(fields_view(f@)),
                None => None,
            },
            a@,
            b@,
        ),
{
    match get_value(obj, a) {
        Some(v) => Some(v),
        None => get_value(obj, b),
    }
}

pub open spec fn obj_view(obj: Option<Vec<(String, JsonScalar)>>) -> Option<Seq<(Seq<char>, JsonLeaf)>> {
    match obj {
        Some(f) => Some(fields_view(f@)),
        None => None,
    }
}

/// The parsed source and its rule objects, or the error.
pub open spec fn parsed_ok(r: Result<(BookSource, RuleSlots), ReaderError>, obj: Option<Seq<(Seq<char>, JsonLeaf)>>) -> bool {
    match source_error(obj) {
        Some(m) => r matches Err(e) && e.message@ == m,
        None => r matches Ok((s, slots)) && source_ok(s, slots, obj),
    }
}

/// The first error among the objects.
pub open spec fn first_error(items: Seq<Option<Seq<(Seq<char>, JsonLeaf)>>>) -> Option<Seq<char>>
    decreases items.len(),
{
    if items.len() == 0 {
        None
    } else if source_error(items[0]) is Some {
        source_error(items[0])
    } else {
        first_error(items.drop_first())
    }
}

/// Reading sources from a JSON text: an error for text that is not JSON or
/// for an empty array; otherwise the first error among the objects, or one
/// source per object (the array's elements, or the value itself).
pub open spec fn from_text_ok(r: Result<Vec<(BookSource, RuleSlots)>, ReaderError>, text: Seq<char>) -> bool {
    if !json_valid(text) {
        r matches Err(e) && e.message@ == "无效的书源JSON格式"@
    } else {
        let (arr, items) = json_items(text);
        if arr && items.len() == 0 {
            r matches Err(e) && e.message@ == "书源数组为空"@
        } else {
            match first_error(items) {
                Some(m) => r matches Err(e) && e.message@ == m,
                None => r matches Ok(v) && v@.len() == items.len() && forall|i: int| 0 <= i < items.len()
                    ==> source_ok(#[trigger] v@[i].0, v@[i].1, items[i]),
            }
        }
    }
}

/// Reads book sources.
pub struct BookSourceParser;

impl BookSourceParser {
    /// Reads one source from the fields of a JSON object (`None` for a value
    /// that is no object).
    pub fn parse_from_json(obj: &Option<Vec<(String, JsonScalar)>>) -> (r: Result<(BookSource, RuleSlots), ReaderError>)
        ensures
            parsed_ok(r, obj_view(*obj)),
    {
        let url = match get_str(obj, "bookSourceUrl") {
            Some(v) => v,
            None => return Err(ReaderError::new("缺少 bookSourceUrl 字段")),
        };
        let name = match get_str(obj, "bookSourceName") {
            Some(v) => v,
            None => return Err(ReaderError::new("缺少 bookSourceName 字段")),
        };
        let stamp = match get_str(obj, "lastUpdateTime") {
            Some(t) => t,
            None => now_rfc3339(),
        };
        let mut s = BookSource::with_update_time(stamp);
        s.book_source_url = url;
        s.book_source_name = name;
        s.book_source_group = get_str(obj, "bookSourceGroup");
        if let Some(v) = get_i32(obj, "bookSourceType") {
            s.book_source_type = v;
        }
        s.book_url_pattern = get_str(obj, "bookUrlPattern");
        if let Some(v) = get_i32(obj, "customOrder") {
            s.custom_order = v;
        }
        if let Some(v) = get_bool(obj, "enabled") {
            s.enabled = v;
        }
        if let Some(v) = get_bool(obj, "enabledExplore") {
            s.enabled_explore = v;
        }
        s.js_lib = get_str(obj, "jsLib");
        if let Some(v) = get_bool(obj, "enabledCookieJar") {
            s.enabled_cookie_jar = v;
        }
        s.concurrent_rate = get_str(obj, "concurrentRate");
        s.header = get_str(obj, "header");
        s.login_url = get_str(obj, "loginUrl");
        s.login_ui = get_str(obj, "loginUi");
        s.login_check_js = get_str(obj, "loginCheckJs");
        s.cover_decode_js = get_str(obj, "coverDecodeJs");
        s.book_source_comment = get_str(obj, "bookSourceComment");
        s.variable_comment = get_str(obj, "variableComment");
        if let Some(v) = get_i32(obj, "respondTime") {
            s.respond_time = v;
        }
        if let Some(v) = get_i32(obj, "weight") {
            s.weight = v;
        }
        s.explore_url = get_str(obj, "exploreUrl");
        s.explore_screen = get_str(obj, "exploreScreen");
        s.search_url = get_str(obj, "searchUrl");
        let slots = RuleSlots {
            rule_explore: get_either(obj, "ruleExplore", "exploreRule"),
            search_rule: get_either(obj, "searchRule", "ruleSearch"),
            book_info_rule: get_either(obj, "bookInfoRule", "ruleBookInfo"),
            toc_rule: get_either(obj, "tocRule", "ruleToc"),
            content_rule: get_either(obj, "contentRule", "ruleContent"),
            review_rule: get_either(obj, "reviewRule", "ruleReview"),
        };
        Ok((s, slots))
    }

    /// Reads the sources of a JSON text (see `from_text_ok`).
    pub fn from_text(text: &str) -> (r: Result<Vec<(BookSource, RuleSlots)>, ReaderError>)
        ensures
            from_text_ok(r, text@),
    {
        let doc = match parse_json_doc(text) {
            Some(d) => d,
            None => return Err(ReaderError::new("无效的书源JSON格式")),
        };
        let (arr, items) = top_level_items(&doc);
        let ghost iv = items_view(items@);
        if arr && items.len() == 0 {
            return Err(ReaderError::new("书源数组为空"));
        }
        let mut sources: Vec<(BookSource, RuleSlots)> = Vec::new();
        let mut i: usize = 0;
        proof {
            assert(iv.skip(0) =~= iv);
        }
        while i < items.len()
            invariant
                i <= items@.len(),
                iv == items_view(items@),
                json_valid(text@),
                (arr, iv) == json_items(text@),
                !(arr && iv.len() == 0),
                sources@.len() == i,
                forall|j: int| 0 <= j < i ==> source_ok(#[trigger] sources@[j].0, sources@[j].1, iv[j]),
                first_error(iv) == first_error(iv.skip(i as int)),
            decreases items@.len() - i,
        {
            proof {
                assert(iv.skip(i as int).drop_first() =~= iv.skip(i + 1));
                assert(iv.skip(i as int)[0] == iv[i as int]);
                assert(iv[i as int] == obj_view(items@[i as int]));
            }
            match Self::parse_from_json(&items[i]) {
                Ok(pair) => {
                    sources.push(pair);
                },
                Err(e) => {
                    proof {
                        assert(first_error(iv.skip(i as int)) == source_error(iv[i as int]));
                        assert(first_error(iv) == Some(e.message@));
                        assert(json_valid(text@));
                    }
                    return Err(e);
                },
            }
            i = i + 1;
        }
        Ok(sources)
    }
}

/// The first error among the objects is that of the first object that has one.
proof fn lemma_first_error(items: Seq<Option<Seq<(Seq<char>, JsonLeaf)>>>)
    ensures
        first_error(items) is None <==> forall|i: int| 0 <= i < items.len() ==> source_error(#[trigger] items[i]) is None,
        first_error(items) matches Some(m) ==> exists|i: int| 0 <= i < items.len() && source_error(#[trigger] items[i]) == Some(m)
            && forall|j: int| 0 <= j < i ==> source_error(#[trigger] items[j]) is None,
    decreases items.len(),
{
    if items.len() > 0 {
        let rest = items.drop_first();
        lemma_first_error(rest);
        assert forall|i: int| 0 < i < items.len() implies items[i] == #[trigger] rest[i - 1] by {}
        if source_error(items[0]) is None {
            if first_error(rest) is None {
                assert forall|i: int| 0 <= i < items.len() implies source_error(#[trigger] items[i]) is None by {
                    if i > 0 {
                        assert(items[i] == rest[i - 1]);
                    }
                }
            } else {
                let m = first_error(rest)->0;
                let k = choose|k: int| 0 <= k < rest.len() && source_error(#[trigger] rest[k]) == Some(m)
                    && forall|j: int| 0 <= j < k ==> source_error(#[trigger] rest[j]) is None;
                assert(items[k + 1] == rest[k]);
                assert forall|j: int| 0 <= j < k + 1 implies source_error(#[trigger] items[j]) is None by {
                    if j > 0 {
                        assert(items[j] == rest[j - 1]);
                    }
                }
                assert(source_error(items[k + 1]) is Some);
            }
        }
    }
}

/// Law: reading a JSON text of sources is reading each of its objects (the
/// array's elements, or the value itself) in order: the sources come one per
/// object, each as `parse_from_json` reads it, and the text is refused with
/// the error of the first object that `parse_from_json` refuses.
pub proof fn law_from_text_per_object(r: Result<Vec<(BookSource, RuleSlots)>, ReaderError>, text: Seq<char>)
    requires
        from_text_ok(r, text),
        json_valid(text),
        !(json_items(text).0 && json_items(text).1.len() == 0),
    ensures
        ({
            let items = json_items(text).1;
            &&& r is Ok <==> forall|i: int| 0 <= i < items.len() ==> source_error(#[trigger] items[i]) is None
            &&& r matches Ok(v) ==> v@.len() == items.len()
                && forall|i: int| 0 <= i < items.len() ==> parsed_ok(Ok(#[trigger] v@[i]), items[i])
            &&& r matches Err(e) ==> exists|i: int| 0 <= i < items.len() && parsed_ok(Err(e), #[trigger] items[i])
                && forall|j: int| 0 <= j < i ==> source_error(#[trigger] items[j]) is None
        }),
{
    let items = json_items(text).1;
    lemma_first_error(items);
    if let Some(m) = first_error(items) {
        let k = choose|k: int| 0 <= k < items.len() && source_error(#[trigger] items[k]) == Some(m)
            && forall|j: int| 0 <= j < k ==> source_error(#[trigger] items[j]) is None;
        assert(source_error(items[k]) is Some);
    }
}

} // verus!
