//! Evaluating CSS extraction rules on a parsed document: element selection
//! (`children.0`, `class.x`, `tag.a.1`, `id.x`, `text.x`, `:contains(...)`,
//! index filters, reverse order), value extraction, the `||` / `&&`
//! combinators and the legacy `a@b@c` chains.
use vstd::prelude::*;
use crate::text::{
    chars_of, contains, contains_str, is_digit, is_ws, join_chars, join_spec, lemma_split_once_len,
    lemma_trim_len, opt_str, opt_pair, split_once, split_once_chars, starts_with, starts_with_chars,
    string_of, trim, trim_chars, trim_str, slice_chars, find, find_chars,
};
use crate::dom::{
    css_valid, dom_attr, dom_children, dom_html, dom_matches, dom_root, dom_select, dom_select_doc,
    dom_texts, matches_selector, parse_selector, select_below, select_document, strs_view, text_of,
    HtmlDoc,
};
use crate::selector::{
    css_parts, css_rule_matches, extract_parts, is_inline_value, is_inline_value_rule, lit,
    looks_like_selector, looks_like_selector_spec, parse_css_rule, split_and_rule,
    split_contains_selector, split_or_rule, strip_css_prefix, strip_css_prefix_spec,
    strip_reverse_prefix, strip_reverse_spec, target_of, contains_selector_spec, CssExtractRule,
    ExtractTarget, IndexMode, IndexToken, lemma_strip_css_prefix_len, chars_eq,
};
use crate::index_rule::{
    apply_index_rule_if_needed, apply_spec, index_list_spec, parse_index_list, rule_view,
    split_by_char, split_index_rule, split_index_spec, split_seq,
};
use crate::regex_util::{regex_new, regex_replace, regex_valid, replace_all_regex};

verus! {

// ---------------------------------------------------------------------------
// Selecting elements
// ---------------------------------------------------------------------------

/// The elements among `els` whose text contains `needle`, in order.
pub open spec fn with_text(src: Seq<char>, els: Seq<usize>, needle: Seq<char>) -> Seq<usize>
    decreases els.len(),
{
    if els.len() == 0 {
        Seq::empty()
    } else {
        let rest = with_text(src, els.drop_last(), needle);
        if contains(text_of(src, els.last()), needle) {
            rest.push(els.last())
        } else {
            rest
        }
    }
}

/// `node` in front of `rest` when `keep` holds.
pub open spec fn with_self(node: usize, keep: bool, rest: Seq<usize>) -> Seq<usize> {
    if keep {
        seq![node] + rest
    } else {
        rest
    }
}

/// Selecting under an element: the element itself (when it matches) and then
/// its matching descendants. A selector that does not parse may still be
/// `base:contains(needle)`, which keeps the elements matching `base` whose
/// text contains the needle. `None`: the selector cannot be used at all.
pub open spec fn select_in_spec(src: Seq<char>, node: usize, sel: Seq<char>) -> Option<Seq<usize>> {
    if css_valid(sel) {
        Some(with_self(node, dom_matches(src, node, sel), dom_select(src, node, sel)))
    } else {
        match contains_selector_spec(sel) {
            Some((base, needle)) => if css_valid(base) {
                Some(
                    with_self(
                        node,
                        dom_matches(src, node, base) && contains(text_of(src, node), needle),
                        with_text(src, dom_select(src, node, base), needle),
                    ),
                )
            } else {
                None
            },
            None => None,
        }
    }
}

/// Selecting in the whole document, with the same `:contains(...)` fallback.
pub open spec fn select_doc_spec(src: Seq<char>, sel: Seq<char>) -> Option<Seq<usize>> {
    if css_valid(sel) {
        Some(dom_select_doc(src, sel))
    } else {
        match contains_selector_spec(sel) {
            Some((base, needle)) => if css_valid(base) {
                Some(with_text(src, dom_select_doc(src, base), needle))
            } else {
                None
            },
            None => None,
        }
    }
}

/// The elements of an optional selection (none when it failed).
pub open spec fn or_none(o: Option<Seq<usize>>) -> Seq<usize> {
    match o {
        Some(v) => v,
        None => Seq::empty(),
    }
}

/// An optional index filter applied to a list.
pub open spec fn apply_opt(els: Seq<usize>, idx: Option<(IndexMode, Seq<IndexToken>)>) -> Seq<usize> {
    match idx {
        Some((mode, toks)) => apply_spec(els, mode, toks),
        None => els,
    }
}

/// The list reversed when `rev` holds.
pub open spec fn maybe_rev(els: Seq<usize>, rev: bool) -> Seq<usize> {
    if rev {
        els.reverse()
    } else {
        els
    }
}

/// A rule of the form `.N` (a dot then a digit or `-`): children by index.
pub open spec fn is_child_index(r: Seq<char>) -> bool {
    r.len() >= 2 && r[0] == '.' && (is_digit(r[1]) || r[1] == '-')
}

/// The elements that a `prefix.value[.position]` rule selects under `node`.
pub open spec fn prefixed_elements(src: Seq<char>, node: usize, rule: Seq<char>, prefix: Seq<char>, rest: Seq<char>) -> Seq<usize> {
    let (value, pos) = match split_once(rest, "."@) {
        Some((v, p)) => (v, Some(p)),
        None => (rest, None),
    };
    let els = if prefix == "children"@ {
        dom_children(src, node)
    } else if prefix == "class"@ {
        or_none(select_in_spec(src, node, "."@ + value))
    } else if prefix == "tag"@ {
        or_none(select_in_spec(src, node, value))
    } else if prefix == "id"@ {
        or_none(select_in_spec(src, node, "#"@ + value))
    } else if prefix == "text"@ {
        if css_valid("*"@) {
            with_text(src, dom_select(src, node, "*"@), trim(value))
        } else {
            Seq::empty()
        }
    } else {
        or_none(select_in_spec(src, node, rule))
    };
    match pos {
        Some(p) => apply_opt(els, index_list_spec(p)),
        None => els,
    }
}

/// The elements that a selection rule picks under `node`: `.N` children by
/// index, `children`/`class`/`tag`/`id`/`text` prefixes, or a CSS selector;
/// each followed by an optional index filter.
pub open spec fn elements_spec(src: Seq<char>, node: usize, rule: Seq<char>) -> Seq<usize> {
    let t = trim(rule);
    if t.len() == 0 {
        Seq::empty()
    } else {
        let r = strip_css_prefix_spec(t);
        if is_child_index(r) {
            apply_opt(dom_children(src, node), index_list_spec(r.skip(1)))
        } else {
            let (base, idx) = split_index_spec(r);
            let els = match split_once(base, "."@) {
                Some((prefix, rest)) => prefixed_elements(src, node, base, prefix, rest),
                None => or_none(select_in_spec(src, node, base)),
            };
            apply_opt(els, idx)
        }
    }
}

// ---------------------------------------------------------------------------
// Extracting values
// ---------------------------------------------------------------------------


/// `str::trim_start_matches` with a text pattern: every leading copy removed.
pub open spec fn strip_prefix_all(s: Seq<char>, p: Seq<char>) -> Seq<char>
    decreases s.len(),
{
    if p.len() > 0 && p.len() <= s.len() && starts_with(s, p) {
        strip_prefix_all(s.skip(p.len() as int), p)
    } else {
        s
    }
}

/// What the target reads from the element, before trimming.
pub open spec fn raw_value(src: Seq<char>, node: usize, target: ExtractTarget, attr: Option<Seq<char>>) -> Seq<char> {
    match target {
        ExtractTarget::Text | ExtractTarget::TextNodes | ExtractTarget::OwnText => text_of(src, node),
        ExtractTarget::Html | ExtractTarget::All => dom_html(src, node),
        ExtractTarget::Attr => match dom_attr(src, node, match attr {
            Some(a) => a,
            None => Seq::empty(),
        }) {
            Some(v) => v,
            None => Seq::empty(),
        },
    }
}

/// The value trimmed, then stripped of the prefix (and trimmed again), then
/// rewritten by the regex (when it is valid); `None` when nothing is left.
pub open spec fn finish_value(v0: Seq<char>, prefix: Option<Seq<char>>, replace: Option<(Seq<char>, Seq<char>)>) -> Option<Seq<char>> {
    let v1 = trim(v0);
    let v2 = match prefix {
        Some(p) => trim(strip_prefix_all(v1, p)),
        None => v1,
    };
    let v3 = match replace {
        Some((pat, rep)) => if regex_valid(pat) {
            regex_replace(pat, v2, rep)
        } else {
            v2
        },
        None => v2,
    };
    if v3.len() == 0 {
        None
    } else {
        Some(v3)
    }
}

/// The value that a parsed rule extracts from an element.
pub open spec fn value_spec(src: Seq<char>, node: usize, rule: CssExtractRule) -> Option<Seq<char>> {
    finish_value(
        raw_value(src, node, rule.target, opt_str(rule.attr)),
        opt_str(rule.trim_prefix),
        opt_pair(rule.replace_regex),
    )
}

/// The value that rule text `r` (`sel@target##...`) extracts from an element.
pub open spec fn rule_value(src: Seq<char>, node: usize, r: Seq<char>) -> Option<Seq<char>> {
    let (sel, e) = css_parts(r);
    let (base, prefix, replace) = extract_parts(e);
    let t = target_of(base);
    finish_value(raw_value(src, node, t, if t == ExtractTarget::Attr { Some(base) } else { None }), prefix, replace)
}

/// A value rule on an element: a target name, a bare attribute name, or a
/// `sel@target` rule whose target applies to the element itself.
pub open spec fn value_by_rule_spec(src: Seq<char>, node: usize, rule: Seq<char>) -> Option<Seq<char>> {
    let r = trim(rule);
    if is_inline_value(r) {
        rule_value(src, node, r)
    } else if !contains(r, "@"@) && !looks_like_selector_spec(r) {
        match dom_attr(src, node, r) {
            Some(v) => if v.len() == 0 {
                None
            } else {
                Some(v)
            },
            None => None,
        }
    } else {
        rule_value(src, node, r)
    }
}

/// The value of each element under a value rule, those without one dropped.
pub open spec fn values_by_rule(src: Seq<char>, els: Seq<usize>, rule: Seq<char>) -> Seq<Seq<char>>
    decreases els.len(),
{
    if els.len() == 0 {
        Seq::empty()
    } else {
        let rest = values_by_rule(src, els.drop_last(), rule);
        match value_by_rule_spec(src, els.last(), rule) {
            Some(v) => rest.push(v),
            None => rest,
        }
    }
}

/// The value of each element under a parsed rule text, those without one dropped.
pub open spec fn rule_values(src: Seq<char>, els: Seq<usize>, r: Seq<char>) -> Seq<Seq<char>>
    decreases els.len(),
{
    if els.len() == 0 {
        Seq::empty()
    } else {
        let rest = rule_values(src, els.drop_last(), r);
        match rule_value(src, els.last(), r) {
            Some(v) => rest.push(v),
            None => rest,
        }
    }
}

/// The trimmed text of each element, blank ones dropped.
pub open spec fn element_texts(src: Seq<char>, els: Seq<usize>) -> Seq<Seq<char>>
    decreases els.len(),
{
    if els.len() == 0 {
        Seq::empty()
    } else {
        let rest = element_texts(src, els.drop_last());
        let t = trim(text_of(src, els.last()));
        if t.len() == 0 {
            rest
        } else {
            rest.push(t)
        }
    }
}

/// An optional value as a list of at most one.
pub open spec fn opt_list(o: Option<Seq<char>>) -> Seq<Seq<char>> {
    match o {
        Some(v) => seq![v],
        None => Seq::empty(),
    }
}


/// The view of an optional list of elements.
pub open spec fn opt_els(o: Option<Vec<usize>>) -> Option<Seq<usize>> {
    match o {
        Some(v) => Some(v@),
        None => None,
    }
}

/// The literals used as rule operators are two characters long.
pub proof fn lemma_operators_len()
    ensures
        "||"@.len() == 2,
        "&&"@.len() == 2,
        "@"@.len() == 1,
{
    reveal_strlit("||");
    reveal_strlit("&&");
    reveal_strlit("@");
}

/// Keeps the elements whose text contains `needle`.
fn keep_with_text(d: &HtmlDoc, els: &Vec<usize>, needle: &str) -> (r: Vec<usize>)
    ensures
        r@ == with_text(d@, els@, needle@),
{
    let mut out: Vec<usize> = Vec::new();
    let mut i: usize = 0;
    while i < els.len()
        invariant
            i <= els@.len(),
            out@ == with_text(d@, els@.take(i as int), needle@),
        decreases els@.len() - i,
    {
        proof {
            assert(els@.take(i + 1).drop_last() =~= els@.take(i as int));
        }
        let e = els[i];
        let t = d.text(e);
        if contains_str(t.as_str(), needle) {
            out.push(e);
        }
        i = i + 1;
    }
    proof {
        assert(els@.take(els@.len() as int) =~= els@);
    }
    out
}

/// The list in reverse order.
pub fn reversed(v: &Vec<usize>) -> (r: Vec<usize>)
    ensures
        r@ == v@.reverse(),
{
    let n = v.len();
    let mut out: Vec<usize> = Vec::new();
    let mut i: usize = 0;
    while i < n
        invariant
            n == v@.len(),
            i <= n,
            out@ =~= Seq::new(i as nat, |k: int| v@[n - 1 - k]),
        decreases n - i,
    {
        out.push(v[n - 1 - i]);
        i = i + 1;
    }
    out
}

fn maybe_reversed(v: Vec<usize>, rev: bool) -> (r: Vec<usize>)
    ensures
        r@ == maybe_rev(v@, rev),
{
    if rev {
        reversed(&v)
    } else {
        v
    }
}

fn or_empty(o: Option<Vec<usize>>) -> (r: Vec<usize>)
    ensures
        r@ == or_none(opt_els(o)),
{
    match o {
        Some(v) => v,
        None => Vec::new(),
    }
}

/// Selects under an element (the element itself first when it matches),
/// with the `base:contains(needle)` fallback.
pub fn select_with_jsoup_element(d: &HtmlDoc, node: usize, selector: &str) -> (r: Option<Vec<usize>>)
    ensures
        opt_els(r) == select_in_spec(d@, node, selector@),
{
    match parse_selector(selector) {
        Some(s) => {
            let mut below = select_below(d, node, &s);
            if matches_selector(d, node, &s) {
                below.insert(0, node);
            }
            proof {
                assert(below@ =~= with_self(node, dom_matches(d@, node, selector@), dom_select(d@, node, selector@)));
            }
            Some(below)
        },
        None => match split_contains_selector(selector) {
            Some((base, needle)) => match parse_selector(base.as_str()) {
                Some(bs) => {
                    let mut below = keep_with_text(d, &select_below(d, node, &bs), needle.as_str());
                    let ghost rest = below@;
                    let mut keep = false;
                    if matches_selector(d, node, &bs) {
                        let t = d.text(node);
                        keep = contains_str(t.as_str(), needle.as_str());
                    }
                    if keep {
                        below.insert(0, node);
                    }
                    proof {
                        assert(below@ =~= with_self(node, keep, rest));
                    }
                    Some(below)
                },
                None => None,
            },
            None => None,
        },
    }
}

/// Selects in the whole document, with the `base:contains(needle)` fallback.
pub fn select_with_jsoup(d: &HtmlDoc, selector: &str) -> (r: Option<Vec<usize>>)
    ensures
        opt_els(r) == select_doc_spec(d@, selector@),
{
    match parse_selector(selector) {
        Some(s) => Some(select_document(d, &s)),
        None => match split_contains_selector(selector) {
            Some((base, needle)) => match parse_selector(base.as_str()) {
                Some(bs) => Some(keep_with_text(d, &select_document(d, &bs), needle.as_str())),
                None => None,
            },
            None => None,
        },
    }
}

fn prefixed_elements_exec(d: &HtmlDoc, node: usize, rule: &Vec<char>, prefix: &Vec<char>, rest: &Vec<char>) -> (r: Vec<usize>)
    ensures
        r@ == prefixed_elements(d@, node, rule@, prefix@, rest@),
{
    let (value, pos) = match split_once_chars(rest, &lit(".")) {
        Some((v, p)) => (v, Some(p)),
        None => (rest.clone(), None),
    };
    proof {
        assert(value@ == rest@ || split_once(rest@, "."@) is Some);
    }
    let els = if chars_eq(prefix, &lit("children")) {
        d.children(node)
    } else if chars_eq(prefix, &lit("class")) {
        let mut s = lit(".");
        crate::text::append_chars(&mut s, &value);
        or_empty(select_with_jsoup_element(d, node, string_of(&s).as_str()))
    } else if chars_eq(prefix, &lit("tag")) {
        or_empty(select_with_jsoup_element(d, node, string_of(&value).as_str()))
    } else if chars_eq(prefix, &lit("id")) {
        let mut s = lit("#");
        crate::text::append_chars(&mut s, &value);
        or_empty(select_with_jsoup_element(d, node, string_of(&s).as_str()))
    } else if chars_eq(prefix, &lit("text")) {
        match parse_selector("*") {
            Some(star) => {
                let target = string_of(&trim_chars(&value));
                keep_with_text(d, &select_below(d, node, &star), target.as_str())
            },
            None => Vec::new(),
        }
    } else {
        or_empty(select_with_jsoup_element(d, node, string_of(rule).as_str()))
    };
    match pos {
        Some(p) => apply_index_rule_if_needed(els, parse_index_list(&p)),
        None => els,
    }
}

/// Selects elements under `node` by a selection rule: `.N` (children by
/// index), `children.N`, `class.x`, `tag.x`, `id.x`, `text.x` (elements whose
/// text contains `x`), each with an optional position, or a CSS selector;
/// then an optional index filter.
pub fn select_elements_from_element(d: &HtmlDoc, node: usize, rule: &str) -> (r: Vec<usize>)
    ensures
        r@ == elements_spec(d@, node, rule@),
{
    let t = trim_str(rule);
    let tv = chars_of(t.as_str());
    if tv.len() == 0 {
        return Vec::new();
    }
    let r = strip_css_prefix(t.as_str());
    let rv = chars_of(r.as_str());
    if rv.len() >= 2 && rv[0] == '.' && (('0' <= rv[1] && rv[1] <= '9') || rv[1] == '-') {
        let rest = slice_chars(&rv, 1, rv.len());
        proof {
            assert(rest@ =~= rv@.skip(1));
        }
        return apply_index_rule_if_needed(d.children(node), parse_index_list(&rest));
    }
    let (base, idx) = split_index_rule(&rv);
    let els = match split_once_chars(&base, &lit(".")) {
        Some((prefix, rest)) => prefixed_elements_exec(d, node, &base, &prefix, &rest),
        None => or_empty(select_with_jsoup_element(d, node, string_of(&base).as_str())),
    };
    apply_index_rule_if_needed(els, idx)
}



/// `str::trim_start_matches` with a text pattern.
pub fn strip_prefix_all_chars(s: &[char], p: &[char]) -> (r: Vec<char>)
    ensures
        r@ == strip_prefix_all(s@, p@),
{
    let n = s.len();
    let m = p.len();
    let mut i: usize = 0;
    proof {
        assert(s@.skip(0) =~= s@);
    }
    while m > 0 && m <= n - i && crate::text::match_at(s, p, i)
        invariant
            i <= n == s@.len(),
            m == p@.len(),
            strip_prefix_all(s@, p@) == strip_prefix_all(s@.skip(i as int), p@),
        decreases n - i,
    {
        proof {
            assert(s@.skip(i as int).subrange(0, m as int) =~= s@.subrange(i as int, i + m));
            assert(s@.skip(i as int).skip(m as int) =~= s@.skip(i + m));
        }
        i = i + m;
    }
    proof {
        if m > 0 && m <= n - i {
            assert(s@.skip(i as int).subrange(0, m as int) =~= s@.subrange(i as int, i + m));
        }
    }
    let r = slice_chars(s, i, n);
    proof {
        assert(r@ =~= s@.skip(i as int));
    }
    r
}

fn raw_value_exec(d: &HtmlDoc, node: usize, target: ExtractTarget, attr: &Option<String>) -> (r: Vec<char>)
    ensures
        r@ == raw_value(d@, node, target, opt_str(*attr)),
{
    match target {
        ExtractTarget::Text | ExtractTarget::TextNodes | ExtractTarget::OwnText => chars_of(d.text(node).as_str()),
        ExtractTarget::Html | ExtractTarget::All => chars_of(d.html(node).as_str()),
        ExtractTarget::Attr => {
            let empty = String::new();
            let name: &str = match attr {
                Some(a) => a.as_str(),
                None => empty.as_str(),
            };
            match d.attr(node, name) {
                Some(v) => chars_of(v.as_str()),
                None => Vec::new(),
            }
        },
    }
}

fn finish_value_exec(v0: &[char], prefix: &Option<String>, replace: &Option<(String, String)>) -> (r: Option<String>)
    ensures
        opt_str(r) == finish_value(v0@, opt_str(*prefix), opt_pair(*replace)),
{
    let v1 = trim_chars(v0);
    let v2 = match prefix {
        Some(p) => trim_chars(&strip_prefix_all_chars(&v1, &chars_of(p.as_str()))),
        None => v1,
    };
    let v3 = match replace {
        Some((pat, rep)) => match regex_new(pat.as_str()) {
            Some(re) => chars_of(replace_all_regex(&re, string_of(&v2).as_str(), rep.as_str()).as_str()),
            None => v2,
        },
        None => v2,
    };
    if v3.len() == 0 {
        None
    } else {
        Some(string_of(&v3))
    }
}

/// Extracts the value that a parsed rule names from an element: its text,
/// text nodes, HTML or an attribute, trimmed, stripped of the rule's prefix
/// and rewritten by its regex; `None` when nothing is left.
pub fn extract_value_from_element(d: &HtmlDoc, node: usize, rule: &CssExtractRule) -> (r: Option<String>)
    ensures
        opt_str(r) == value_spec(d@, node, *rule),
{
    let raw = raw_value_exec(d, node, rule.target, &rule.attr);
    finish_value_exec(&raw, &rule.trim_prefix, &rule.replace_regex)
}

/// Extracts a value from an element by a value rule: a target name
/// (`text`, `html`, ...), a bare attribute name, or `sel@target`.
pub fn extract_value_by_rule(d: &HtmlDoc, node: usize, rule: &str) -> (r: Option<String>)
    ensures
        opt_str(r) == value_by_rule_spec(d@, node, rule@),
{
    let r = trim_str(rule);
    if is_inline_value_rule(r.as_str()) {
        let pr = parse_css_rule(r.as_str());
        return extract_value_from_element(d, node, &pr);
    }
    if !contains_str(r.as_str(), "@") && !looks_like_selector(r.as_str()) {
        return match d.attr(node, r.as_str()) {
            Some(v) => {
                if chars_of(v.as_str()).len() == 0 {
                    None
                } else {
                    Some(v)
                }
            },
            None => None,
        };
    }
    let pr = parse_css_rule(r.as_str());
    extract_value_from_element(d, node, &pr)
}


// ---------------------------------------------------------------------------
// Rules on elements and documents
// ---------------------------------------------------------------------------

/// A rule without `||` / `&&` on an element: a target name, `@value`,
/// `sel@value` (the value of each selected element) or a bare selection
/// (the trimmed text of each selected element).
pub open spec fn texts_simple(src: Seq<char>, node: usize, r: Seq<char>) -> Seq<Seq<char>> {
    if is_inline_value(r) {
        opt_list(value_by_rule_spec(src, node, r))
    } else if r.len() > 0 && r[0] == '@' {
        opt_list(value_by_rule_spec(src, node, r.skip(1)))
    } else {
        match split_once(r, "@"@) {
            Some((selp, extp)) => if selp.len() == 0 {
                opt_list(value_by_rule_spec(src, node, extp))
            } else {
                let (s1, rev) = strip_reverse_spec(selp);
                let (s2, idx) = split_index_spec(s1);
                values_by_rule(src, apply_opt(maybe_rev(elements_spec(src, node, s2), rev), idx), extp)
            },
            None => {
                let (s1, rev) = strip_reverse_spec(r);
                element_texts(src, maybe_rev(elements_spec(src, node, s1), rev))
            },
        }
    }
}

/// The texts a rule extracts from an element. `a || b`: the results of `a`,
/// or those of `b` when `a` gives none; `a && b`: the results of both, none
/// when `a` gives none.
pub open spec fn texts_in_spec(src: Seq<char>, node: usize, rule: Seq<char>) -> Seq<Seq<char>>
    decreases rule.len(),
{
    let r = trim(strip_css_prefix_spec(rule));
    proof {
        lemma_strip_css_prefix_len(rule);
        lemma_trim_len(strip_css_prefix_spec(rule));
        lemma_operators_len();
        lemma_split_once_len(r, "||"@);
        lemma_split_once_len(r, "&&"@);
    }
    match split_once(r, "||"@) {
        Some((a, b)) => {
            let left = texts_in_spec(src, node, a);
            if left.len() > 0 {
                left
            } else {
                texts_in_spec(src, node, b)
            }
        },
        None => match split_once(r, "&&"@) {
            Some((a, b)) => {
                let left = texts_in_spec(src, node, a);
                if left.len() == 0 {
                    Seq::empty()
                } else {
                    left + texts_in_spec(src, node, b)
                }
            },
            None => texts_simple(src, node, r),
        },
    }
}

/// The pieces that are not blank.
pub open spec fn nonblank(ps: Seq<Seq<char>>) -> Seq<Seq<char>>
    decreases ps.len(),
{
    if ps.len() == 0 {
        Seq::empty()
    } else {
        let rest = nonblank(ps.drop_last());
        if trim(ps.last()).len() == 0 {
            rest
        } else {
            rest.push(ps.last())
        }
    }
}

/// The steps of a chained rule `a@b@c`, blank steps dropped.
pub open spec fn chain_parts(r: Seq<char>) -> Seq<Seq<char>> {
    nonblank(split_seq(r, '@'))
}

/// The elements that one step selects under each of `els`, concatenated.
pub open spec fn expand(src: Seq<char>, els: Seq<usize>, part: Seq<char>) -> Seq<usize>
    decreases els.len(),
{
    if els.len() == 0 {
        Seq::empty()
    } else {
        expand(src, els.drop_last(), part) + elements_spec(src, els.last(), part)
    }
}

/// The elements reached from `els` by the steps in order.
pub open spec fn chain_elements(src: Seq<char>, els: Seq<usize>, parts: Seq<Seq<char>>) -> Seq<usize>
    decreases parts.len(),
{
    if parts.len() == 0 {
        els
    } else {
        chain_elements(src, expand(src, els, parts[0]), parts.drop_first())
    }
}

/// The texts a rule extracts from each element, concatenated.
pub open spec fn texts_of_all(src: Seq<char>, els: Seq<usize>, rule: Seq<char>) -> Seq<Seq<char>>
    decreases els.len(),
{
    if els.len() == 0 {
        Seq::empty()
    } else {
        texts_of_all(src, els.drop_last(), rule) + texts_in_spec(src, els.last(), rule)
    }
}

/// A chained rule on elements: every step but the last selects, the last one
/// extracts texts.
pub open spec fn chain_texts(src: Seq<char>, els: Seq<usize>, rule: Seq<char>) -> Seq<Seq<char>> {
    let parts = chain_parts(trim(rule));
    if trim(rule).len() == 0 || parts.len() == 0 {
        Seq::empty()
    } else {
        texts_of_all(src, chain_elements(src, els, parts.drop_last()), parts.last())
    }
}

/// A chained rule on elements where every step selects.
pub open spec fn chain_select(src: Seq<char>, els: Seq<usize>, rule: Seq<char>) -> Seq<usize> {
    let parts = chain_parts(trim(rule));
    if trim(rule).len() == 0 || parts.len() == 0 {
        Seq::empty()
    } else {
        chain_elements(src, els, parts)
    }
}

/// The texts a rule extracts from a document: `||` / `&&` as on elements;
/// a rule with `@` is a chain from the root element; otherwise a CSS selector
/// (with reverse prefix and index filter) whose elements give their text.
pub open spec fn select_text_spec(src: Seq<char>, rule: Seq<char>) -> Seq<Seq<char>>
    decreases rule.len(),
{
    let r = strip_css_prefix_spec(rule);
    proof {
        lemma_strip_css_prefix_len(rule);
        lemma_operators_len();
        lemma_split_once_len(r, "||"@);
        lemma_split_once_len(r, "&&"@);
    }
    match split_once(r, "||"@) {
        Some((a, b)) => {
            let left = select_text_spec(src, a);
            if left.len() > 0 {
                left
            } else {
                select_text_spec(src, b)
            }
        },
        None => match split_once(r, "&&"@) {
            Some((a, b)) => {
                let left = select_text_spec(src, a);
                if left.len() == 0 {
                    Seq::empty()
                } else {
                    left + select_text_spec(src, b)
                }
            },
            None => if contains(r, "@"@) {
                chain_texts(src, seq![dom_root(src)], r)
            } else {
                let (s1, rev) = strip_reverse_spec(r);
                let (s2, idx) = split_index_spec(s1);
                match select_doc_spec(src, css_parts(s2).0) {
                    Some(els) => rule_values(src, apply_opt(maybe_rev(els, rev), idx), s2),
                    None => Seq::empty(),
                }
            },
        },
    }
}


pub fn opt_vec(o: Option<String>) -> (r: Vec<String>)
    ensures
        strs_view(r@) == opt_list(opt_str(o)),
{
    match o {
        Some(v) => {
            let mut out: Vec<String> = Vec::new();
            out.push(v);
            proof {
                assert(strs_view(out@) =~= seq![v@]);
            }
            out
        },
        None => {
            let out: Vec<String> = Vec::new();
            proof {
                assert(strs_view(out@) =~= Seq::<Seq<char>>::empty());
            }
            out
        },
    }
}

pub fn push_str_item(out: &mut Vec<String>, v: String)
    ensures
        strs_view(final(out)@) == strs_view(old(out)@).push(v@),
{
    out.push(v);
    proof {
        assert(strs_view(out@) =~= strs_view(old(out)@).push(v@));
    }
}

pub fn append_strs(out: &mut Vec<String>, more: Vec<String>)
    ensures
        strs_view(final(out)@) == strs_view(old(out)@) + strs_view(more@),
{
    let mut more = more;
    let ghost m = more@;
    out.append(&mut more);
    proof {
        assert(strs_view(out@) =~= strs_view(old(out)@) + strs_view(m));
    }
}

fn values_by_rule_exec(d: &HtmlDoc, els: &Vec<usize>, rule: &str) -> (r: Vec<String>)
    ensures
        strs_view(r@) == values_by_rule(d@, els@, rule@),
{
    let mut out: Vec<String> = Vec::new();
    let mut i: usize = 0;
    while i < els.len()
        invariant
            i <= els@.len(),
            strs_view(out@) == values_by_rule(d@, els@.take(i as int), rule@),
        decreases els@.len() - i,
    {
        proof {
            assert(els@.take(i + 1).drop_last() =~= els@.take(i as int));
        }
        if let Some(v) = extract_value_by_rule(d, els[i], rule) {
            push_str_item(&mut out, v);
        }
        i = i + 1;
    }
    proof {
        assert(els@.take(els@.len() as int) =~= els@);
    }
    out
}

fn rule_values_exec(d: &HtmlDoc, els: &Vec<usize>, rule: &CssExtractRule, r: Ghost<Seq<char>>) -> (out: Vec<String>)
    requires
        css_rule_matches(*rule, r@),
    ensures
        strs_view(out@) == rule_values(d@, els@, r@),
{
    let mut out: Vec<String> = Vec::new();
    let mut i: usize = 0;
    while i < els.len()
        invariant
            i <= els@.len(),
            css_rule_matches(*rule, r@),
            strs_view(out@) == rule_values(d@, els@.take(i as int), r@),
        decreases els@.len() - i,
    {
        proof {
            assert(els@.take(i + 1).drop_last() =~= els@.take(i as int));
        }
        if let Some(v) = extract_value_from_element(d, els[i], rule) {
            push_str_item(&mut out, v);
        }
        i = i + 1;
    }
    proof {
        assert(els@.take(els@.len() as int) =~= els@);
    }
    out
}

fn element_texts_exec(d: &HtmlDoc, els: &Vec<usize>) -> (r: Vec<String>)
    ensures
        strs_view(r@) == element_texts(d@, els@),
{
    let mut out: Vec<String> = Vec::new();
    let mut i: usize = 0;
    while i < els.len()
        invariant
            i <= els@.len(),
            strs_view(out@) == element_texts(d@, els@.take(i as int)),
        decreases els@.len() - i,
    {
        proof {
            assert(els@.take(i + 1).drop_last() =~= els@.take(i as int));
        }
        let t = trim_str(d.text(els[i]).as_str());
        if chars_of(t.as_str()).len() > 0 {
            push_str_item(&mut out, t);
        }
        i = i + 1;
    }
    proof {
        assert(els@.take(els@.len() as int) =~= els@);
    }
    out
}

fn texts_simple_exec(d: &HtmlDoc, node: usize, r: &str) -> (out: Vec<String>)
    ensures
        strs_view(out@) == texts_simple(d@, node, r@),
{
    if is_inline_value_rule(r) {
        return opt_vec(extract_value_by_rule(d, node, r));
    }
    let rv = chars_of(r);
    if rv.len() > 0 && rv[0] == '@' {
        let rest = slice_chars(&rv, 1, rv.len());
        proof {
            assert(rest@ =~= rv@.skip(1));
        }
        return opt_vec(extract_value_by_rule(d, node, string_of(&rest).as_str()));
    }
    match split_once_chars(&rv, &lit("@")) {
        Some((selp, extp)) => {
            if selp.len() == 0 {
                return opt_vec(extract_value_by_rule(d, node, string_of(&extp).as_str()));
            }
            let (s1, rev) = strip_reverse_prefix(string_of(&selp).as_str());
            let (s2, idx) = split_index_rule(&chars_of(s1.as_str()));
            let els0 = select_elements_from_element(d, node, string_of(&s2).as_str());
            let els = apply_index_rule_if_needed(maybe_reversed(els0, rev), idx);
            values_by_rule_exec(d, &els, string_of(&extp).as_str())
        },
        None => {
            let (s1, rev) = strip_reverse_prefix(r);
            let els0 = select_elements_from_element(d, node, s1.as_str());
            element_texts_exec(d, &maybe_reversed(els0, rev))
        },
    }
}

/// The texts a rule extracts from an element (see `texts_in_spec`).
pub fn select_text_from_element(d: &HtmlDoc, node: usize, rule: &str) -> (out: Vec<String>)
    ensures
        strs_view(out@) == texts_in_spec(d@, node, rule@),
    decreases rule@.len(),
{
    let r = trim_str(strip_css_prefix(rule).as_str());
    proof {
        lemma_strip_css_prefix_len(rule@);
        lemma_trim_len(strip_css_prefix_spec(rule@));
        lemma_operators_len();
        lemma_split_once_len(r@, "||"@);
        lemma_split_once_len(r@, "&&"@);
    }
    if let Some((left, right)) = split_or_rule(r.as_str()) {
        let lr = select_text_from_element(d, node, left.as_str());
        if lr.len() > 0 {
            return lr;
        }
        return select_text_from_element(d, node, right.as_str());
    }
    if let Some((left, right)) = split_and_rule(r.as_str()) {
        let mut lr = select_text_from_element(d, node, left.as_str());
        if lr.len() == 0 {
            let empty: Vec<String> = Vec::new();
            proof {
                assert(strs_view(empty@) =~= Seq::<Seq<char>>::empty());
            }
            return empty;
        }
        let rr = select_text_from_element(d, node, right.as_str());
        append_strs(&mut lr, rr);
        return lr;
    }
    texts_simple_exec(d, node, r.as_str())
}


fn chain_parts_exec(r: &[char]) -> (parts: Vec<Vec<char>>)
    ensures
        parts@.map_values(|p: Vec<char>| p@) == chain_parts(r@),
{
    let all = split_by_char(r, '@');
    let ghost av = all@.map_values(|p: Vec<char>| p@);
    let mut out: Vec<Vec<char>> = Vec::new();
    let mut i: usize = 0;
    while i < all.len()
        invariant
            i <= all@.len(),
            av == all@.map_values(|p: Vec<char>| p@),
            out@.map_values(|p: Vec<char>| p@) == nonblank(av.take(i as int)),
        decreases all@.len() - i,
    {
        proof {
            assert(av.take(i + 1).drop_last() =~= av.take(i as int));
        }
        let p = all[i].clone();
        let ghost before = out@;
        if trim_chars(&p).len() > 0 {
            out.push(p);
            proof {
                assert(out@.map_values(|p: Vec<char>| p@) =~= before.map_values(|p: Vec<char>| p@).push(all@[i as int]@));
            }
        }
        i = i + 1;
    }
    proof {
        assert(av.take(all@.len() as int) =~= av);
    }
    out
}

fn expand_exec(d: &HtmlDoc, els: &Vec<usize>, part: &str) -> (r: Vec<usize>)
    ensures
        r@ == expand(d@, els@, part@),
{
    let mut out: Vec<usize> = Vec::new();
    let mut i: usize = 0;
    while i < els.len()
        invariant
            i <= els@.len(),
            out@ == expand(d@, els@.take(i as int), part@),
        decreases els@.len() - i,
    {
        proof {
            assert(els@.take(i + 1).drop_last() =~= els@.take(i as int));
        }
        let mut more = select_elements_from_element(d, els[i], part);
        out.append(&mut more);
        i = i + 1;
    }
    proof {
        assert(els@.take(els@.len() as int) =~= els@);
    }
    out
}

fn chain_elements_exec(d: &HtmlDoc, els: Vec<usize>, parts: &Vec<Vec<char>>, m: usize) -> (r: Vec<usize>)
    requires
        m <= parts@.len(),
    ensures
        r@ == chain_elements(d@, els@, parts@.map_values(|p: Vec<char>| p@).take(m as int)),
{
    let ghost pv = parts@.map_values(|p: Vec<char>| p@).take(m as int);
    let ghost init = els@;
    let mut cur = els;
    let mut k: usize = 0;
    proof {
        assert(pv.skip(0) =~= pv);
    }
    while k < m
        invariant
            k <= m <= parts@.len(),
            pv == parts@.map_values(|p: Vec<char>| p@).take(m as int),
            chain_elements(d@, cur@, pv.skip(k as int)) == chain_elements(d@, init, pv),
        decreases m - k,
    {
        proof {
            assert(pv.skip(k as int).drop_first() =~= pv.skip(k + 1));
            assert(pv.skip(k as int)[0] == parts@[k as int]@);
        }
        cur = expand_exec(d, &cur, string_of(&parts[k]).as_str());
        k = k + 1;
    }
    proof {
        assert(pv.skip(m as int) =~= Seq::<Seq<char>>::empty());
    }
    cur
}

fn texts_of_all_exec(d: &HtmlDoc, els: &Vec<usize>, rule: &str) -> (r: Vec<String>)
    ensures
        strs_view(r@) == texts_of_all(d@, els@, rule@),
{
    let mut out: Vec<String> = Vec::new();
    let mut i: usize = 0;
    while i < els.len()
        invariant
            i <= els@.len(),
            strs_view(out@) == texts_of_all(d@, els@.take(i as int), rule@),
        decreases els@.len() - i,
    {
        proof {
            assert(els@.take(i + 1).drop_last() =~= els@.take(i as int));
        }
        let more = select_text_from_element(d, els[i], rule);
        append_strs(&mut out, more);
        i = i + 1;
    }
    proof {
        assert(els@.take(els@.len() as int) =~= els@);
    }
    out
}

/// A chained rule `a@b@c` on a list of elements: each step but the last
/// selects under the elements reached so far; the last extracts texts.
pub fn select_text_from_elements(d: &HtmlDoc, elements: Vec<usize>, rule: &str) -> (r: Vec<String>)
    ensures
        strs_view(r@) == chain_texts(d@, elements@, rule@),
{
    let t = chars_of(trim_str(rule).as_str());
    let parts = chain_parts_exec(&t);
    if t.len() == 0 || parts.len() == 0 {
        let empty: Vec<String> = Vec::new();
        proof {
            assert(strs_view(empty@) =~= Seq::<Seq<char>>::empty());
        }
        return empty;
    }
    let n = parts.len();
    let reached = chain_elements_exec(d, elements, &parts, n - 1);
    proof {
        let pv = parts@.map_values(|p: Vec<char>| p@);
        assert(pv.take(n - 1) =~= pv.drop_last());
    }
    texts_of_all_exec(d, &reached, string_of(&parts[n - 1]).as_str())
}

/// A chained rule `a@b@c` on a list of elements where every step selects.
pub fn select_elements_from_elements(d: &HtmlDoc, elements: Vec<usize>, rule: &str) -> (r: Vec<usize>)
    ensures
        r@ == chain_select(d@, elements@, rule@),
{
    let t = chars_of(trim_str(rule).as_str());
    let parts = chain_parts_exec(&t);
    if t.len() == 0 || parts.len() == 0 {
        return Vec::new();
    }
    let n = parts.len();
    proof {
        let pv = parts@.map_values(|p: Vec<char>| p@);
        assert(pv.take(n as int) =~= pv);
    }
    chain_elements_exec(d, elements, &parts, n)
}

/// A chained rule from the document's root element, extracting texts.
pub fn select_text_legacy(d: &HtmlDoc, rule: &str) -> (r: Vec<String>)
    ensures
        strs_view(r@) == chain_texts(d@, seq![dom_root(d@)], rule@),
{
    let root = d.root();
    let mut start: Vec<usize> = Vec::new();
    start.push(root);
    proof {
        assert(start@ =~= seq![dom_root(d@)]);
    }
    select_text_from_elements(d, start, rule)
}

/// A chained rule from the document's root element, selecting elements.
pub fn select_elements_from_document(d: &HtmlDoc, rule: &str) -> (r: Vec<usize>)
    ensures
        r@ == chain_select(d@, seq![dom_root(d@)], rule@),
{
    let root = d.root();
    let mut start: Vec<usize> = Vec::new();
    start.push(root);
    proof {
        assert(start@ =~= seq![dom_root(d@)]);
    }
    select_elements_from_elements(d, start, rule)
}

/// The texts a rule extracts from a document (see `select_text_spec`).
pub fn select_text(d: &HtmlDoc, rule: &str) -> (out: Vec<String>)
    ensures
        strs_view(out@) == select_text_spec(d@, rule@),
    decreases rule@.len(),
{
    let r = strip_css_prefix(rule);
    proof {
        lemma_strip_css_prefix_len(rule@);
        lemma_operators_len();
        lemma_split_once_len(r@, "||"@);
        lemma_split_once_len(r@, "&&"@);
    }
    if let Some((left, right)) = split_or_rule(r.as_str()) {
        let lr = select_text(d, left.as_str());
        if lr.len() > 0 {
            return lr;
        }
        return select_text(d, right.as_str());
    }
    if let Some((left, right)) = split_and_rule(r.as_str()) {
        let mut lr = select_text(d, left.as_str());
        if lr.len() == 0 {
            let empty: Vec<String> = Vec::new();
            proof {
                assert(strs_view(empty@) =~= Seq::<Seq<char>>::empty());
            }
            return empty;
        }
        let rr = select_text(d, right.as_str());
        append_strs(&mut lr, rr);
        return lr;
    }
    if contains_str(r.as_str(), "@") {
        return select_text_legacy(d, r.as_str());
    }
    let (s1, rev) = strip_reverse_prefix(r.as_str());
    let (s2, idx) = split_index_rule(&chars_of(s1.as_str()));
    let s2s = string_of(&s2);
    let pr = parse_css_rule(s2s.as_str());
    match select_with_jsoup(d, pr.selector.as_str()) {
        Some(els0) => {
            let els = apply_index_rule_if_needed(maybe_reversed(els0, rev), idx);
            rule_values_exec(d, &els, &pr, Ghost(s2@))
        },
        None => {
            let empty: Vec<String> = Vec::new();
            proof {
                assert(strs_view(empty@) =~= Seq::<Seq<char>>::empty());
            }
            empty
        },
    }
}


/// Stripping leading copies of a pattern leaves a suffix of the text.
pub proof fn lemma_strip_prefix_all_suffix(s: Seq<char>, p: Seq<char>)
    ensures
        strip_prefix_all(s, p).len() <= s.len(),
        strip_prefix_all(s, p) =~= s.skip(s.len() - strip_prefix_all(s, p).len()),
    decreases s.len(),
{
    if p.len() > 0 && p.len() <= s.len() && starts_with(s, p) {
        lemma_strip_prefix_all_suffix(s.skip(p.len() as int), p);
    }
}

/// Every text in the list is non-empty.
pub open spec fn all_nonempty(ts: Seq<Seq<char>>) -> bool {
    forall|i: int| 0 <= i < ts.len() ==> (#[trigger] ts[i]).len() > 0
}

proof fn lemma_values_by_rule_nonempty(src: Seq<char>, els: Seq<usize>, rule: Seq<char>)
    ensures
        all_nonempty(values_by_rule(src, els, rule)),
    decreases els.len(),
{
    if els.len() > 0 {
        lemma_values_by_rule_nonempty(src, els.drop_last(), rule);
    }
}

proof fn lemma_element_texts_nonempty(src: Seq<char>, els: Seq<usize>)
    ensures
        all_nonempty(element_texts(src, els)),
    decreases els.len(),
{
    if els.len() > 0 {
        lemma_element_texts_nonempty(src, els.drop_last());
    }
}

proof fn lemma_texts_simple_nonempty(src: Seq<char>, node: usize, r: Seq<char>)
    ensures
        all_nonempty(texts_simple(src, node, r)),
{
    if is_inline_value(r) {
    } else if r.len() > 0 && r[0] == '@' {
    } else {
        match split_once(r, "@"@) {
            Some((selp, extp)) => if selp.len() > 0 {
                let (s1, rev) = strip_reverse_spec(selp);
                let (s2, idx) = split_index_spec(s1);
                lemma_values_by_rule_nonempty(src, apply_opt(maybe_rev(elements_spec(src, node, s2), rev), idx), extp);
            },
            None => {
                let (s1, rev) = strip_reverse_spec(r);
                lemma_element_texts_nonempty(src, maybe_rev(elements_spec(src, node, s1), rev));
            },
        }
    }
}

/// Every text a rule extracts from an element is non-empty.
pub proof fn lemma_texts_in_nonempty(src: Seq<char>, node: usize, rule: Seq<char>)
    ensures
        all_nonempty(texts_in_spec(src, node, rule)),
    decreases rule.len(),
{
    let r = trim(strip_css_prefix_spec(rule));
    lemma_strip_css_prefix_len(rule);
    lemma_trim_len(strip_css_prefix_spec(rule));
    lemma_operators_len();
    lemma_split_once_len(r, "||"@);
    lemma_split_once_len(r, "&&"@);
    match split_once(r, "||"@) {
        Some((a, b)) => {
            lemma_texts_in_nonempty(src, node, a);
            lemma_texts_in_nonempty(src, node, b);
        },
        None => match split_once(r, "&&"@) {
            Some((a, b)) => {
                lemma_texts_in_nonempty(src, node, a);
                lemma_texts_in_nonempty(src, node, b);
                let left = texts_in_spec(src, node, a);
                let right = texts_in_spec(src, node, b);
                assert forall|i: int| 0 <= i < (left + right).len() implies (#[trigger] (left + right)[i]).len() > 0 by {
                    if i < left.len() {
                        assert((left + right)[i] == left[i]);
                    } else {
                        assert((left + right)[i] == right[i - left.len()]);
                    }
                }
            },
            None => lemma_texts_simple_nonempty(src, node, r),
        },
    }
}
} // verus!
