//! The syntax of CSS extraction rules: `css@text`, `css@attr##prefix`,
//! `css@text##regex##replacement`, index filters (`[1,2]`, `[!0]`, `[1:5:2]`,
//! legacy `.1:3` / `!0`), reverse prefix `-` and the `@css:` prefix.
use vstd::prelude::*;
use crate::text::{
    chars_of, find, is_digit, is_ws, lead_ws, matches_at, slice_chars, split_once,
    split_once_chars, starts_with, starts_with_chars, string_of, trim, trim_bounds, trim_chars,
    trim_start, ends_with, opt_str, opt_pair, ends_with_chars, find_chars, lemma_find_from, ascii_lower, to_ascii_lower,
};
use crate::num::{parse_i32, parse_i32_spec};

verus! {

/// What a CSS rule extracts from the selected elements.
#[derive(Debug, Clone, Copy, PartialEq, Eq, Structural)]
pub enum ExtractTarget {
    /// The element's text, children included.
    Text,
    /// The text nodes (handled like `Text`).
    TextNodes,
    /// The element's own text (handled like `Text`).
    OwnText,
    /// The element's HTML.
    Html,
    /// The element's full HTML (handled like `Html`).
    All,
    /// An attribute.
    Attr,
}

/// A parsed `selector@extract##...` rule.
#[derive(Debug, Clone)]
pub struct CssExtractRule {
    /// The CSS selector.
    pub selector: String,
    /// What to extract.
    pub target: ExtractTarget,
    /// The attribute name (for `Attr`).
    pub attr: Option<String>,
    /// A prefix to strip from the extracted text.
    pub trim_prefix: Option<String>,
    /// A regex replacement `(pattern, replacement)`.
    pub replace_regex: Option<(String, String)>,
}

/// How an index filter applies.
#[derive(Debug, Clone, Copy, PartialEq, Eq, Structural)]
pub enum IndexMode {
    /// Keep the listed positions.
    Select,
    /// Drop the listed positions.
    Exclude,
    /// No filtering.
    Unfiltered,
}

/// One index or a range `start:end:step` (negative positions count from the end).
#[derive(Debug, Clone, Copy, PartialEq, Eq, Structural)]
pub enum IndexToken {
    Single(i32),
    Range { start: Option<i32>, end: Option<i32>, step: i32 },
}

/// An index filter.
#[derive(Debug, Clone)]
pub struct IndexRule {
    pub mode: IndexMode,
    pub indexes: Vec<IndexToken>,
}

// ---------------------------------------------------------------------------
// `@`-part: extraction target, prefix trimming and regex replacement
// ---------------------------------------------------------------------------

/// Splitting the extraction part at `##`: the base, a prefix to trim
/// (one `##`), or a regex pattern and its replacement (two or more `##`; the
/// replacement is everything after the second `##`).
pub open spec fn extract_parts(e: Seq<char>) -> (Seq<char>, Option<Seq<char>>, Option<(Seq<char>, Seq<char>)>) {
    match split_once(e, "##"@) {
        None => (e, None, None),
        Some((base, rest)) => match split_once(rest, "##"@) {
            None => (base, Some(rest), None),
            Some((pattern, replacement)) => (base, None, Some((pattern, replacement))),
        },
    }
}

/// The target named by the base of the extraction part.
pub open spec fn target_of(base: Seq<char>) -> ExtractTarget {
    if base == "text"@ {
        ExtractTarget::Text
    } else if base == "textNodes"@ {
        ExtractTarget::TextNodes
    } else if base == "ownText"@ {
        ExtractTarget::OwnText
    } else if base == "html"@ {
        ExtractTarget::Html
    } else if base == "all"@ {
        ExtractTarget::All
    } else {
        ExtractTarget::Attr
    }
}

/// The selector part and extraction part of `selector@extract`
/// (the extraction part is `text` when there is no `@`).
pub open spec fn css_parts(r: Seq<char>) -> (Seq<char>, Seq<char>) {
    match split_once(r, "@"@) {
        Some((a, b)) => (a, b),
        None => (r, "text"@),
    }
}

/// The parsed form of rule `r`, field by field.
pub open spec fn css_rule_matches(rule: CssExtractRule, r: Seq<char>) -> bool {
    let (sel, e) = css_parts(r);
    let (base, prefix, replace) = extract_parts(e);
    &&& rule.selector@ == sel
    &&& rule.target == target_of(base)
    &&& opt_str(rule.attr) == (if target_of(base) == ExtractTarget::Attr {
        Some(base)
    } else {
        None
    })
    &&& opt_str(rule.trim_prefix) == prefix
    &&& opt_pair(rule.replace_regex) == replace
}

/// Checks whether two character sequences are equal.
pub fn chars_eq(a: &[char], b: &[char]) -> (r: bool)
    ensures
        r == (a@ == b@),
{
    if a.len() != b.len() {
        proof {
            assert(a@.len() != b@.len());
        }
        return false;
    }
    let mut i: usize = 0;
    while i < a.len()
        invariant
            a@.len() == b@.len(),
            i <= a@.len(),
            forall|k: int| 0 <= k < i ==> a@[k] == b@[k],
        decreases a@.len() - i,
    {
        if a[i] != b[i] {
            proof {
                assert(a@[i as int] != b@[i as int]);
            }
            return false;
        }
        i = i + 1;
    }
    proof {
        assert(a@ =~= b@);
    }
    true
}

/// The literal `lit` as characters.
pub fn lit(s: &str) -> (v: Vec<char>)
    ensures
        v@ == s@,
{
    chars_of(s)
}

fn target_of_chars(base: &[char]) -> (t: ExtractTarget)
    ensures
        t == target_of(base@),
{
    if chars_eq(base, &lit("text")) {
        ExtractTarget::Text
    } else if chars_eq(base, &lit("textNodes")) {
        ExtractTarget::TextNodes
    } else if chars_eq(base, &lit("ownText")) {
        ExtractTarget::OwnText
    } else if chars_eq(base, &lit("html")) {
        ExtractTarget::Html
    } else if chars_eq(base, &lit("all")) {
        ExtractTarget::All
    } else {
        ExtractTarget::Attr
    }
}

/// Parses `css@text/html/attr##prefix` or `css@text##regex##replacement`.
pub fn parse_css_rule(rule: &str) -> (r: CssExtractRule)
    ensures
        css_rule_matches(r, rule@),
{
    let s = chars_of(rule);
    let (sel, e) = match split_once_chars(&s, &lit("@")) {
        Some((a, b)) => (a, b),
        None => (s.clone(), lit("text")),
    };
    proof {
        assert(css_parts(rule@) == (sel@, e@));
    }
    let (base, prefix, replace) = match split_once_chars(&e, &lit("##")) {
        None => (e.clone(), None, None),
        Some((b, rest)) => match split_once_chars(&rest, &lit("##")) {
            None => (b, Some(string_of(&rest)), None),
            Some((p, q)) => (b, None, Some((string_of(&p), string_of(&q)))),
        },
    };
    let target = target_of_chars(&base);
    let attr = match target {
        ExtractTarget::Attr => Some(string_of(&base)),
        _ => None,
    };
    CssExtractRule { selector: string_of(&sel), target, attr, trim_prefix: prefix, replace_regex: replace }
}

// ---------------------------------------------------------------------------
// Small rule predicates and prefixes
// ---------------------------------------------------------------------------

/// One of the value names that extract from the element itself.
pub open spec fn is_inline_value(r: Seq<char>) -> bool {
    r == "text"@ || r == "textNodes"@ || r == "ownText"@ || r == "html"@ || r == "all"@
}

pub fn is_inline_value_rule(rule: &str) -> (b: bool)
    ensures
        b == is_inline_value(rule@),
{
    let s = chars_of(rule);
    target_of_chars(&s) != ExtractTarget::Attr
}

/// A character that only occurs in CSS selectors, not in attribute names.
pub open spec fn is_selector_char(c: char) -> bool {
    c == ' ' || c == '.' || c == '#' || c == '[' || c == ']' || c == ':' || c == '>' || c == '+'
        || c == '~' || c == '*'
}

pub open spec fn looks_like_selector_spec(r: Seq<char>) -> bool {
    exists|i: int| 0 <= i < r.len() && is_selector_char(#[trigger] r[i])
}

pub fn looks_like_selector(rule: &str) -> (b: bool)
    ensures
        b == looks_like_selector_spec(rule@),
{
    let s = chars_of(rule);
    let mut i: usize = 0;
    while i < s.len()
        invariant
            i <= s@.len(),
            s@ == rule@,
            forall|k: int| 0 <= k < i ==> !is_selector_char(#[trigger] s@[k]),
        decreases s@.len() - i,
    {
        let c = s[i];
        if c == ' ' || c == '.' || c == '#' || c == '[' || c == ']' || c == ':' || c == '>' || c
            == '+' || c == '~' || c == '*' {
            return true;
        }
        i = i + 1;
    }
    false
}

/// Whether a rule starts with `@css:` in any ASCII letter case.
pub open spec fn has_css_prefix(r: Seq<char>) -> bool {
    r.len() >= 5 && ascii_lower(r.take(5)) == "@css:"@
}

/// `rule` without a leading `@css:` (in any letter case), the rest then
/// trimmed.
pub open spec fn strip_css_prefix_spec(r: Seq<char>) -> Seq<char> {
    if has_css_prefix(r) {
        trim(r.skip(5))
    } else {
        r
    }
}

pub fn strip_css_prefix(rule: &str) -> (r: String)
    ensures
        r@ == strip_css_prefix_spec(rule@),
{
    let s = chars_of(rule);
    if s.len() >= 5 {
        let head = to_ascii_lower(&slice_chars(&s, 0, 5));
        proof {
            assert(s@.subrange(0, 5) =~= s@.take(5));
        }
        if chars_eq(&head, &lit("@css:")) {
            let rest = slice_chars(&s, 5, s.len());
            proof {
                assert(rest@ =~= s@.skip(5));
            }
            return string_of(&trim_chars(&rest));
        }
    }
    string_of(&s)
}

/// Stripping the `@css:` prefix never lengthens a rule.
pub proof fn lemma_strip_css_prefix_len(r: Seq<char>)
    ensures
        strip_css_prefix_spec(r).len() <= r.len(),
{
    if has_css_prefix(r) {
        crate::text::lemma_trim_len(r.skip(5));
    }
}

/// A leading `-` (after whitespace) asks for the results in reverse order.
pub open spec fn strip_reverse_spec(r: Seq<char>) -> (Seq<char>, bool) {
    let t = trim_start(r);
    if t.len() > 0 && t[0] == '-' {
        (trim_start(t.drop_first()), true)
    } else {
        (r, false)
    }
}

fn lead_ws_len(s: &[char]) -> (k: usize)
    ensures
        k == lead_ws(s@),
{
    let (a, _b) = trim_bounds(s);
    a
}

pub fn strip_reverse_prefix(rule: &str) -> (r: (String, bool))
    ensures
        (r.0@, r.1) == strip_reverse_spec(rule@),
{
    let s = chars_of(rule);
    let a = lead_ws_len(&s);
    proof {
        crate::text::lemma_lead_ws_bounds(s@);
    }
    if a < s.len() && s[a] == '-' {
        let rest = slice_chars(&s, a + 1, s.len());
        let b = lead_ws_len(&rest);
        proof {
            crate::text::lemma_lead_ws_bounds(rest@);
            assert(rest@ =~= trim_start(s@).drop_first());
        }
        let out = slice_chars(&rest, b, rest.len());
        proof {
            assert(out@ =~= trim_start(rest@));
        }
        (string_of(&out), true)
    } else {
        (string_of(&s), false)
    }
}

/// `a || b`: the text before and after the first `||`.
pub fn split_or_rule(rule: &str) -> (r: Option<(String, String)>)
    ensures
        opt_pair(r) == split_once(rule@, "||"@),
{
    let s = chars_of(rule);
    match split_once_chars(&s, &lit("||")) {
        Some((a, b)) => Some((string_of(&a), string_of(&b))),
        None => None,
    }
}

/// `a && b`: the text before and after the first `&&`.
pub fn split_and_rule(rule: &str) -> (r: Option<(String, String)>)
    ensures
        opt_pair(r) == split_once(rule@, "&&"@),
{
    let s = chars_of(rule);
    match split_once_chars(&s, &lit("&&")) {
        Some((a, b)) => Some((string_of(&a), string_of(&b))),
        None => None,
    }
}

/// `base:contains(needle)`: the base selector (`*` when empty) and the needle,
/// both trimmed; `None` when the needle is empty or the rule does not end with `)`.
pub open spec fn contains_selector_spec(sel: Seq<char>) -> Option<(Seq<char>, Seq<char>)> {
    match find(sel, ":contains("@) {
        None => None,
        Some(start) => if !(sel.len() > 0 && sel.last() == ')') || start + 10 > sel.len() - 1 {
            None
        } else {
            let base = trim(sel.take(start));
            let needle = trim(sel.subrange(start + 10, sel.len() - 1));
            if needle.len() == 0 {
                None
            } else {
                Some((if base.len() == 0 { "*"@ } else { base }, needle))
            }
        },
    }
}

pub fn split_contains_selector(selector: &str) -> (r: Option<(String, String)>)
    ensures
        opt_pair(r) == contains_selector_spec(selector@),
{
    let s = chars_of(selector);
    let marker = lit(":contains(");
    proof {
        reveal_strlit(":contains(");
    }
    match find_chars(&s, &marker) {
        None => None,
        Some(start) => {
            proof {
                lemma_find_from(s@, marker@, 0);
            }
            let n = s.len();
            if !(n > 0 && s[n - 1] == ')') {
                return None;
            }
            if start + 10 > n - 1 {
                return None;
            }
            let base = trim_chars(&slice_chars(&s, 0, start));
            let needle = trim_chars(&slice_chars(&s, start + 10, n - 1));
            proof {
                assert(s@.subrange(0, start as int) =~= s@.take(start as int));
            }
            if needle.len() == 0 {
                None
            } else if base.len() == 0 {
                Some((string_of(&lit("*")), string_of(&needle)))
            } else {
                Some((string_of(&base), string_of(&needle)))
            }
        },
    }
}

} // verus!
