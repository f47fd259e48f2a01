//! Evaluating book-source rules on a page: inner rules `{$.rule}`, scripts
//! (`<js>...</js>`, `@js:`), JSONPath and CSS rules, and the compound rules
//! `a && b`, `a || b` and `a %% b`.
//!
//! Scripts are run by the JavaScript interpreter, whose answers are not
//! claimed; the contracts below say what a rule gives when it holds no script,
//! and, for a script, what the interpreter is handed (see `run_ok`).
use vstd::prelude::*;
use crate::text::{
    chars_of, contains, ends_with, ends_with_chars, find, lemma_contains_subrange, lemma_find_from,
    lemma_split_once_len, lemma_trim_len, lemma_trim_subrange, lead_ws, matches_at, opt_str,
    slice_chars, split_once, split_once_chars, starts_with, starts_with_chars, str_eq, string_of,
    trim, trim_chars, trim_str,
};
use crate::dom::{dom_root, strs_view, text_of, HtmlDoc};
use crate::css::{
    append_strs, lemma_strip_prefix_all_suffix, opt_list, opt_vec, push_str_item, select_text,
    select_text_from_element, select_text_spec, strip_prefix_all, strip_prefix_all_chars,
    texts_in_spec,
};
use crate::json::{
    extract_json_path_values, extract_json_path_values_from_element, is_json_path,
    is_json_path_rule, json_values_spec,
};
use crate::selector::lit;
use crate::rule_split::{detect_operator, detect_spec, ops_view, split_rules, split_spec};
use crate::js::{eval_js_in, eval_js_with_context, handed_after, keeps, plan_spec, ref_text, run_ok, Handed, Interpreter, StepView};

verus! {

/// The values that a rule's scripts see.
pub struct RuleContext {
    pub result: Option<String>,
    pub base_url: Option<String>,
    pub book_json: Option<String>,
}

impl RuleContext {
    pub fn new(result: Option<String>, base_url: Option<String>, book_json: Option<String>) -> (c: RuleContext)
        ensures
            c.result == result,
            c.base_url == base_url,
            c.book_json == book_json,
    {
        RuleContext { result, base_url, book_json }
    }

    pub fn empty() -> (c: RuleContext)
        ensures
            c.result is None,
            c.base_url is None,
            c.book_json is None,
    {
        RuleContext { result: None, base_url: None, book_json: None }
    }

    /// The script arguments of this context: `result_override` in place of
    /// `result` when given.
    fn args<'a>(&'a self, result_override: Option<&'a str>) -> (r: (Option<&'a str>, Option<&'a str>, Option<&'a str>))
        ensures
            ref_text(r.0) == (match ref_text(result_override) {
                Some(v) => Some(v),
                None => opt_str(self.result),
            }),
            ref_text(r.1) == opt_str(self.base_url),
            ref_text(r.2) == opt_str(self.book_json),
    {
        let result: Option<&str> = match result_override {
            Some(v) => Some(v),
            None => match &self.result {
                Some(v) => Some(v.as_str()),
                None => None,
            },
        };
        let base_url: Option<&str> = match &self.base_url {
            Some(v) => Some(v.as_str()),
            None => None,
        };
        let book_json: Option<&str> = match &self.book_json {
            Some(v) => Some(v.as_str()),
            None => None,
        };
        (result, base_url, book_json)
    }

    /// Runs a script with this context in an interpreter (see `eval_js_in`):
    /// it sees `result_override` as `result` when given, else the context's
    /// `result`, and the context's `baseUrl` and `book`.
    pub fn eval_js_in(&self, i: &mut Interpreter, code: &str, result_override: Option<&str>) -> (r: Option<String>)
        ensures
            keeps(old(i).log(), final(i).log()),
            trim(code@).len() == 0 ==> r is None && final(i).log() == old(i).log(),
            trim(code@).len() > 0 ==> run_ok(ctx_plan(*self, ref_text(result_override)), trim(code@), handed_after(old(i).log(), final(i).log()), r),
    {
        let (result, base_url, book_json) = self.args(result_override);
        eval_js_in(i, code, result, base_url, book_json)
    }

    /// Runs a script with this context in a fresh interpreter; `result_override`
    /// replaces `result`.
    pub fn eval_js(&self, code: &str, result_override: Option<&str>) -> (r: Option<String>)
        ensures
            trim(code@).len() == 0 ==> r is None,
            trim(code@).len() > 0 ==> exists|l: Seq<Handed>| #[trigger] run_ok(ctx_plan(*self, ref_text(result_override)), trim(code@), l, r),
    {
        let (result, base_url, book_json) = self.args(result_override);
        let r = eval_js_with_context(code, result, base_url, book_json);
        proof {
            assert(plan_spec(ref_text(result), ref_text(base_url), ref_text(book_json)) == ctx_plan(*self, ref_text(result_override)));
        }
        r
    }
}

/// The globals a script run with a context sees: `result_override` in place
/// of `result` when given.
pub open spec fn ctx_plan(ctx: RuleContext, result_override: Option<Seq<char>>) -> Seq<StepView> {
    plan_spec(
        match result_override {
            Some(v) => Some(v),
            None => opt_str(ctx.result),
        },
        opt_str(ctx.base_url),
        opt_str(ctx.book_json),
    )
}

// ---------------------------------------------------------------------------
// Scripts in rules
// ---------------------------------------------------------------------------

/// A rule without any script.
pub open spec fn script_free(r: Seq<char>) -> bool {
    !contains(r, "<js>"@) && !contains(r, "@js:"@)
}

/// `base@js:code`: the trimmed base and the trimmed code.
pub open spec fn at_js_split(r: Seq<char>) -> (Seq<char>, Option<Seq<char>>) {
    match split_once(r, "@js:"@) {
        Some((base, code)) => (trim(base), Some(trim(code))),
        None => (r, None),
    }
}

/// A rule and the script to run on its values: `base<js>code</js>...` or
/// `base@js:code`.
pub open spec fn js_chain_spec(r: Seq<char>) -> (Seq<char>, Option<Seq<char>>) {
    match split_once(r, "<js>"@) {
        Some((base, js)) => match split_once(js, "</js>"@) {
            Some((code, _rest)) => (trim(base), Some(code)),
            None => at_js_split(r),
        },
        None => at_js_split(r),
    }
}

/// The script of a rule that is a script: `<js>code</js>` or `@js:code`.
pub open spec fn js_rule_code(rule: Seq<char>) -> Option<Seq<char>> {
    let t = trim(rule);
    if starts_with(t, "<js>"@) && ends_with(t.skip(4), "</js>"@) {
        Some(t.skip(4).take(t.len() - 9))
    } else if starts_with(t, "@js:"@) {
        Some(t.skip(4))
    } else {
        None
    }
}

pub proof fn lemma_js_literals()
    ensures
        "<js>"@.len() == 4,
        "</js>"@.len() == 5,
        "@js:"@.len() == 4,
        "$."@.len() == 2,
{
    reveal_strlit("<js>");
    reveal_strlit("</js>");
    reveal_strlit("@js:");
    reveal_strlit("$.");
}

/// The rule part of a script chain is no longer than the rule.
pub proof fn lemma_js_chain_len(r: Seq<char>)
    ensures
        js_chain_spec(r).0.len() <= r.len(),
{
    lemma_js_literals();
    lemma_split_once_len(r, "<js>"@);
    lemma_split_once_len(r, "@js:"@);
    if let Some((base, _js)) = split_once(r, "<js>"@) {
        lemma_trim_len(base);
    }
    if let Some((base, _code)) = split_once(r, "@js:"@) {
        lemma_trim_len(base);
    }
}

proof fn lemma_starts_contains(s: Seq<char>, p: Seq<char>)
    requires
        starts_with(s, p),
    ensures
        contains(s, p),
{
    lemma_find_from(s, p, 0);
}

/// A rule without scripts is no script chain and no script, and stays
/// without scripts when trimmed.
pub proof fn lemma_script_free(r: Seq<char>)
    requires
        script_free(r),
    ensures
        js_chain_spec(r) == (r, None::<Seq<char>>),
        js_rule_code(r) is None,
        script_free(trim(r)),
{
    lemma_trim_subrange(r);
    let t = trim(r);
    if contains(t, "<js>"@) {
        lemma_contains_subrange(r, lead_ws(r) as int, (lead_ws(r) + t.len()) as int, "<js>"@);
    }
    if contains(t, "@js:"@) {
        lemma_contains_subrange(r, lead_ws(r) as int, (lead_ws(r) + t.len()) as int, "@js:"@);
    }
    if starts_with(t, "<js>"@) {
        lemma_starts_contains(t, "<js>"@);
    }
    if starts_with(t, "@js:"@) {
        lemma_starts_contains(t, "@js:"@);
    }
}

/// Splits off the script to run on a rule's values.
pub fn split_js_chain(rule: &str) -> (r: (String, Option<String>))
    ensures
        (r.0@, opt_str(r.1)) == js_chain_spec(rule@),
{
    let s = chars_of(rule);
    if let Some((base, js)) = split_once_chars(&s, &lit("<js>")) {
        if let Some((code, _rest)) = split_once_chars(&js, &lit("</js>")) {
            return (string_of(&trim_chars(&base)), Some(string_of(&code)));
        }
    }
    match split_once_chars(&s, &lit("@js:")) {
        Some((base, code)) => (string_of(&trim_chars(&base)), Some(string_of(&trim_chars(&code)))),
        None => (string_of(&s), None),
    }
}

/// Runs a rule that is a script; `None` for any other rule.
pub fn extract_js_rule(rule: &str, ctx: &RuleContext) -> (r: Option<String>)
    ensures
        js_rule_code(rule@) is None ==> r is None,
        js_rule_code(rule@) matches Some(c) && trim(c).len() == 0 ==> r is None,
        js_rule_code(rule@) matches Some(c) ==> (trim(c).len() > 0 ==> exists|l: Seq<Handed>| #[trigger] run_ok(ctx_plan(*ctx, None), trim(c), l, r)),
{
    let t = trim_chars(&chars_of(rule));
    proof {
        lemma_js_literals();
    }
    if starts_with_chars(&t, &lit("<js>")) {
        let rest = slice_chars(&t, 4, t.len());
        proof {
            assert(rest@ =~= t@.skip(4));
        }
        if ends_with_chars(&rest, &lit("</js>")) {
            let code = slice_chars(&rest, 0, rest.len() - 5);
            return ctx.eval_js(string_of(&code).as_str(), None);
        }
    }
    if starts_with_chars(&t, &lit("@js:")) {
        let code = slice_chars(&t, 4, t.len());
        return ctx.eval_js(string_of(&code).as_str(), None);
    }
    None
}

/// A value passed through the chained script in an interpreter (unchanged
/// when there is none): the script sees the value as `result` (see
/// `RuleContext::eval_js_in`).
pub fn apply_js_chain_in(i: &mut Interpreter, value: String, js_code: &Option<String>, ctx: &RuleContext) -> (r: Option<String>)
    ensures
        keeps(old(i).log(), final(i).log()),
        js_code is None ==> r == Some(value) && final(i).log() == old(i).log(),
        js_code matches Some(c) && trim(c@).len() == 0 ==> r is None && final(i).log() == old(i).log(),
        js_code matches Some(c) ==> (trim(c@).len() > 0 ==> run_ok(ctx_plan(*ctx, Some(value@)), trim(c@), handed_after(old(i).log(), final(i).log()), r)),
{
    match js_code {
        Some(code) => ctx.eval_js_in(i, code.as_str(), Some(value.as_str())),
        None => {
            proof {
                assert(i.log().take(i.log().len() as int) =~= i.log());
            }
            Some(value)
        },
    }
}

/// A value passed through the chained script, in a fresh interpreter
/// (unchanged when there is none): the script sees the value as `result`.
pub fn apply_js_chain(value: String, js_code: &Option<String>, ctx: &RuleContext) -> (r: Option<String>)
    ensures
        js_code is None ==> r == Some(value),
        js_code matches Some(c) && trim(c@).len() == 0 ==> r is None,
        js_code matches Some(c) ==> (trim(c@).len() > 0 ==> exists|l: Seq<Handed>| #[trigger] run_ok(ctx_plan(*ctx, Some(value@)), trim(c@), l, r)),
{
    match js_code {
        Some(code) => ctx.eval_js(code.as_str(), Some(value.as_str())),
        None => Some(value),
    }
}

// ---------------------------------------------------------------------------
// Inner rules and values
// ---------------------------------------------------------------------------

/// The position in `t` of the `}` that closes a `{` opened before `i`
/// (at nesting `depth`), or the end of `t` when none does.
pub open spec fn close_brace(t: Seq<char>, i: int, depth: int) -> int
    decreases t.len() - i,
{
    if i < 0 || i >= t.len() {
        t.len() as int
    } else if t[i] == '{' {
        close_brace(t, i + 1, depth + 1)
    } else if t[i] == '}' {
        if depth == 1 {
            i
        } else {
            close_brace(t, i + 1, depth - 1)
        }
    } else {
        close_brace(t, i + 1, depth)
    }
}

pub proof fn lemma_close_brace_bounds(t: Seq<char>, i: int, depth: int)
    requires
        0 <= i,
    ensures
        i <= close_brace(t, i, depth) <= t.len() || (i > t.len() && close_brace(t, i, depth) == t.len()),
        close_brace(t, i, depth) < t.len() ==> t[close_brace(t, i, depth)] == '}',
    decreases t.len() - i,
{
    if i < t.len() {
        if t[i] == '{' {
            lemma_close_brace_bounds(t, i + 1, depth + 1);
        } else if t[i] == '}' && depth != 1 {
            lemma_close_brace_bounds(t, i + 1, depth - 1);
        } else if t[i] != '}' {
            lemma_close_brace_bounds(t, i + 1, depth);
        }
    }
}

/// The text with each inner rule `{$.rule}` from position `i` on replaced by
/// the rule's first value on the page (empty when it has none). A `{$...}`
/// group that is not `{$.` is dropped but for its `{`.
pub open spec fn replace_from(src: Seq<char>, s: Seq<char>, i: int) -> Seq<char>
    decreases s.len() - i, 0int,
{
    if i < 0 || i >= s.len() {
        Seq::empty()
    } else if s[i] == '{' && i + 1 < s.len() && s[i + 1] == '$' {
        let end = close_brace(s, i + 1, 1);
        let buf = s.subrange(i + 1, end);
        let next = if end < s.len() { end + 1 } else { s.len() as int };
        proof {
            lemma_close_brace_bounds(s, i + 1, 1);
            lemma_strip_prefix_all_suffix(buf, "$."@);
        }
        if starts_with(buf, "$."@) {
            single_value(src, strip_prefix_all(buf, "$."@)) + replace_from(src, s, next)
        } else {
            seq!['{'] + replace_from(src, s, next)
        }
    } else {
        seq![s[i]] + replace_from(src, s, i + 1)
    }
}

/// The first value that is not empty.
pub open spec fn first_nonempty(v: Seq<Seq<char>>) -> Option<Seq<char>>
    decreases v.len(),
{
    if v.len() == 0 {
        None
    } else if v[0].len() > 0 {
        Some(v[0])
    } else {
        first_nonempty(v.drop_first())
    }
}

/// The first value of a rule on the page, or nothing.
pub open spec fn single_value(src: Seq<char>, rule: Seq<char>) -> Seq<char>
    decreases rule.len(), 3int,
{
    match first_nonempty(values_spec(src, rule)) {
        Some(v) => v,
        None => Seq::empty(),
    }
}

/// The values of a rule without scripts on a page: the rule with its inner
/// rules replaced, when it has any; else the values of a JSONPath rule (on
/// the page's text) or of a CSS rule.
pub open spec fn values_spec(src: Seq<char>, rule: Seq<char>) -> Seq<Seq<char>>
    decreases rule.len(), 2int,
{
    let r = trim(rule);
    proof {
        lemma_trim_len(rule);
        lemma_js_chain_len(r);
    }
    if r.len() == 0 {
        Seq::empty()
    } else {
        let r2 = js_chain_spec(r).0;
        let replaced = replace_from(src, r2, 0);
        if replaced != r2 {
            seq![replaced]
        } else if js_rule_code(r2) is Some {
            Seq::empty()
        } else if is_json_path(r2) {
            json_values_spec(text_of(src, dom_root(src)), r2)
        } else {
            select_text_spec(src, r2)
        }
    }
}

fn close_brace_exec(s: &[char], start: usize) -> (e: usize)
    requires
        1 <= start <= s@.len(),
    ensures
        e == close_brace(s@, start as int, 1),
{
    let n = s.len();
    let mut i = start;
    let mut depth: usize = 1;
    while i < n
        invariant
            1 <= start <= i <= n == s@.len(),
            1 <= depth <= i - start + 1,
            close_brace(s@, start as int, 1) == close_brace(s@, i as int, depth as int),
        decreases n - i,
    {
        if s[i] == '{' {
            depth = depth + 1;
        } else if s[i] == '}' {
            if depth == 1 {
                return i;
            }
            depth = depth - 1;
        }
        i = i + 1;
    }
    n
}

proof fn lemma_script_free_sub(s: Seq<char>, a: int, b: int)
    requires
        0 <= a <= b <= s.len(),
        script_free(s),
    ensures
        script_free(s.subrange(a, b)),
{
    if contains(s.subrange(a, b), "<js>"@) {
        lemma_contains_subrange(s, a, b, "<js>"@);
    }
    if contains(s.subrange(a, b), "@js:"@) {
        lemma_contains_subrange(s, a, b, "@js:"@);
    }
}

/// Replaces each inner rule `{$.rule}` by the rule's first value on the page.
pub fn replace_inner_rule(d: &HtmlDoc, input: &str) -> (r: String)
    ensures
        script_free(input@) ==> r@ == replace_from(d@, input@, 0),
    decreases input@.len(), 0int,
{
    let s = chars_of(input);
    let n = s.len();
    let mut out: Vec<char> = Vec::new();
    let mut i: usize = 0;
    proof {
        lemma_js_literals();
    }
    while i < n
        invariant
            i <= n == s@.len(),
            s@ == input@,
            "$."@.len() == 2,
            script_free(input@) ==> out@ + replace_from(d@, s@, i as int) == replace_from(d@, s@, 0),
        decreases n - i,
    {
        let ghost before = out@;
        if s[i] == '{' && i + 1 < n && s[i + 1] == '$' {
            let end = close_brace_exec(&s, i + 1);
            proof {
                lemma_close_brace_bounds(s@, i + 1, 1);
            }
            let buf = slice_chars(&s, i + 1, end);
            let next = if end < n { end + 1 } else { n };
            if starts_with_chars(&buf, &lit("$.")) {
                let inner = strip_prefix_all_chars(&buf, &lit("$."));
                proof {
                    lemma_strip_prefix_all_suffix(buf@, "$."@);
                    let k = buf@.len() - inner@.len();
                    assert(inner@ =~= s@.subrange(i + 1 + k, end as int));
                    if script_free(input@) {
                        lemma_script_free_sub(s@, i + 1 + k, end as int);
                    }
                }
                let value = match extract_single_rule(d, string_of(&inner).as_str()) {
                    Some(v) => chars_of(v.as_str()),
                    None => Vec::new(),
                };
                proof {
                    if script_free(input@) {
                        assert(buf@ =~= s@.subrange(i + 1, end as int));
                        assert(value@ == single_value(d@, inner@));
                        assert(replace_from(d@, s@, i as int) == single_value(d@, strip_prefix_all(buf@, "$."@))
                            + replace_from(d@, s@, next as int));
                    }
                }
                crate::text::append_chars(&mut out, &value);
            } else {
                out.push('{');
                proof {
                    assert(buf@ =~= s@.subrange(i + 1, end as int));
                }
            }
            proof {
                if script_free(input@) {
                    assert(out@ + replace_from(d@, s@, next as int) =~= before + replace_from(d@, s@, i as int));
                }
            }
            i = next;
        } else {
            out.push(s[i]);
            proof {
                if script_free(input@) {
                    assert(out@ + replace_from(d@, s@, i + 1) =~= before + replace_from(d@, s@, i as int));
                }
            }
            i = i + 1;
        }
    }
    proof {
        assert(out@ =~= out@ + replace_from(d@, s@, n as int));
    }
    string_of(&out)
}

/// The rule with its inner rules replaced, when it has any.
pub fn extract_inner_rule(d: &HtmlDoc, rule: &str) -> (r: Option<String>)
    ensures
        script_free(rule@) ==> opt_str(r) == (if replace_from(d@, rule@, 0) != rule@ {
            Some(replace_from(d@, rule@, 0))
        } else {
            None
        }),
    decreases rule@.len(), 1int,
{
    let replaced = replace_inner_rule(d, rule);
    if str_eq(replaced.as_str(), rule) {
        None
    } else {
        Some(replaced)
    }
}

fn first_nonempty_exec(v: &Vec<String>) -> (r: Option<String>)
    ensures
        opt_str(r) == first_nonempty(strs_view(v@)),
        r matches Some(s) ==> s@.len() > 0,
{
    let ghost sv = strs_view(v@);
    let mut i: usize = 0;
    proof {
        assert(sv.skip(0) =~= sv);
    }
    while i < v.len()
        invariant
            i <= v@.len(),
            sv == strs_view(v@),
            first_nonempty(sv) == first_nonempty(sv.skip(i as int)),
        decreases v@.len() - i,
    {
        proof {
            assert(sv.skip(i as int).drop_first() =~= sv.skip(i + 1));
        }
        if chars_of(v[i].as_str()).len() > 0 {
            return Some(v[i].clone());
        }
        i = i + 1;
    }
    None
}

/// The values of a rule on a page (see `values_spec` for rules without scripts).
fn extract_values(d: &HtmlDoc, rule: &str, ctx: &RuleContext) -> (r: Vec<String>)
    ensures
        script_free(rule@) ==> strs_view(r@) == values_spec(d@, rule@),
    decreases rule@.len(), 2int,
{
    let empty: Vec<String> = Vec::new();
    proof {
        assert(strs_view(empty@) =~= Seq::<Seq<char>>::empty());
    }
    let r = trim_str(rule);
    proof {
        lemma_trim_len(rule@);
        lemma_js_chain_len(r@);
        if script_free(rule@) {
            lemma_script_free(rule@);
            lemma_script_free(r@);
        }
    }
    if chars_of(r.as_str()).len() == 0 {
        return empty;
    }
    let (r2, js) = split_js_chain(r.as_str());
    if let Some(inner) = extract_inner_rule(d, r2.as_str()) {
        return opt_vec(apply_js_chain(inner, &js, ctx));
    }
    if let Some(value) = extract_js_rule(r2.as_str(), ctx) {
        return opt_vec(Some(value));
    }
    let values = if is_json_path_rule(r2.as_str()) {
        extract_json_path_values(d, r2.as_str())
    } else {
        select_text(d, r2.as_str())
    };
    match js {
        Some(code) => {
            let mut out: Vec<String> = Vec::new();
            let mut i: usize = 0;
            while i < values.len()
                invariant
                    i <= values@.len(),
                decreases values@.len() - i,
            {
                if let Some(v) = ctx.eval_js(code.as_str(), Some(values[i].as_str())) {
                    out.push(v);
                }
                i = i + 1;
            }
            out
        },
        None => values,
    }
}

/// The first value of a rule on a page.
pub fn extract_single_rule(d: &HtmlDoc, rule: &str) -> (r: Option<String>)
    ensures
        script_free(rule@) ==> opt_str(r) == first_nonempty(values_spec(d@, rule@)),
    decreases rule@.len(), 3int,
{
    let ctx = RuleContext::empty();
    first_nonempty_exec(&extract_values(d, rule, &ctx))
}


// ---------------------------------------------------------------------------
// Compound rules
// ---------------------------------------------------------------------------

/// The rows of values, viewed.
pub open spec fn rows_view(rs: Seq<Vec<String>>) -> Seq<Seq<Seq<char>>> {
    rs.map_values(|v: Vec<String>| strs_view(v@))
}

/// The `i`-th value of each row that has one, in row order.
pub open spec fn column(rs: Seq<Seq<Seq<char>>>, i: int) -> Seq<Seq<char>>
    decreases rs.len(),
{
    if rs.len() == 0 {
        Seq::empty()
    } else {
        let c = column(rs.drop_last(), i);
        if 0 <= i < rs.last().len() {
            c.push(rs.last()[i])
        } else {
            c
        }
    }
}

/// The length of the longest row.
pub open spec fn max_len(rs: Seq<Seq<Seq<char>>>) -> int
    decreases rs.len(),
{
    if rs.len() == 0 {
        0
    } else if max_len(rs.drop_last()) < rs.last().len() {
        rs.last().len() as int
    } else {
        max_len(rs.drop_last())
    }
}

/// The rows interleaved: the first values of every row, then the second ones, ...
pub open spec fn interleave(rs: Seq<Seq<Seq<char>>>, n: int) -> Seq<Seq<char>>
    decreases n,
{
    if n <= 0 {
        Seq::empty()
    } else {
        interleave(rs, n - 1) + column(rs, n - 1)
    }
}

/// The rows one after the other.
pub open spec fn flatten_rows(rs: Seq<Seq<Seq<char>>>) -> Seq<Seq<char>>
    decreases rs.len(),
{
    if rs.len() == 0 {
        Seq::empty()
    } else {
        flatten_rows(rs.drop_last()) + rs.last()
    }
}

/// The value of a compound rule from the values of its parts: the first
/// non-empty value, taking the parts' values interleaved for `%%` and one
/// part after the other otherwise.
pub open spec fn merge_spec(rs: Seq<Seq<Seq<char>>>, op: Option<Seq<char>>) -> Option<Seq<char>> {
    if rs.len() == 0 {
        None
    } else if op == Some("%%"@) {
        first_nonempty(interleave(rs, max_len(rs)))
    } else {
        first_nonempty(flatten_rows(rs))
    }
}

pub open spec fn opt_ref_str(o: Option<&str>) -> Option<Seq<char>> {
    match o {
        Some(s) => Some(s@),
        None => None,
    }
}

/// Merges the values of the parts of a compound rule (see `merge_spec`).
pub fn merge_rules_results(results: Vec<Vec<String>>, op: Option<&str>) -> (r: Option<String>)
    ensures
        opt_str(r) == merge_spec(rows_view(results@), opt_ref_str(op)),
{
    let ghost rv = rows_view(results@);
    if results.len() == 0 {
        return None;
    }
    let interleaved = match op {
        Some(o) => str_eq(o, "%%"),
        None => false,
    };
    let mut merged: Vec<String> = Vec::new();
    if interleaved {
        let mut m: usize = 0;
        let mut k: usize = 0;
        while k < results.len()
            invariant
                k <= results@.len(),
                rv == rows_view(results@),
                m == max_len(rv.take(k as int)),
            decreases results@.len() - k,
        {
            proof {
                assert(rv.take(k + 1).drop_last() =~= rv.take(k as int));
            }
            if m < results[k].len() {
                m = results[k].len();
            }
            k = k + 1;
        }
        proof {
            assert(rv.take(results@.len() as int) =~= rv);
        }
        let mut i: usize = 0;
        while i < m
            invariant
                i <= m,
                m == max_len(rv),
                rv == rows_view(results@),
                strs_view(merged@) == interleave(rv, i as int),
            decreases m - i,
        {
            let mut k: usize = 0;
            while k < results.len()
                invariant
                    k <= results@.len(),
                    i < m,
                    rv == rows_view(results@),
                    strs_view(merged@) == interleave(rv, i as int) + column(rv.take(k as int), i as int),
                decreases results@.len() - k,
            {
                proof {
                    assert(rv.take(k + 1).drop_last() =~= rv.take(k as int));
                    assert(rv.take(k + 1).last() == strs_view(results@[k as int]@));
                }
                if i < results[k].len() {
                    let v = results[k][i].clone();
                    push_str_item(&mut merged, v);
                    proof {
                        assert(strs_view(merged@) =~= interleave(rv, i as int) + column(rv.take(k + 1), i as int));
                    }
                }
                k = k + 1;
            }
            proof {
                assert(rv.take(results@.len() as int) =~= rv);
            }
            i = i + 1;
        }
    } else {
        let mut k: usize = 0;
        while k < results.len()
            invariant
                k <= results@.len(),
                rv == rows_view(results@),
                strs_view(merged@) == flatten_rows(rv.take(k as int)),
            decreases results@.len() - k,
        {
            proof {
                assert(rv.take(k + 1).drop_last() =~= rv.take(k as int));
            }
            let mut j: usize = 0;
            let ghost start = merged@;
            while j < results[k].len()
                invariant
                    k < results@.len(),
                    j <= results@[k as int]@.len(),
                    strs_view(merged@) == strs_view(start) + strs_view(results@[k as int]@.take(j as int)),
                decreases results@[k as int]@.len() - j,
            {
                let v = results[k][j].clone();
                push_str_item(&mut merged, v);
                proof {
                    assert(strs_view(results@[k as int]@.take(j + 1)) =~= strs_view(results@[k as int]@.take(j as int)).push(v@));
                    assert(strs_view(merged@) =~= strs_view(start) + strs_view(results@[k as int]@.take(j + 1)));
                }
                j = j + 1;
            }
            proof {
                assert(results@[k as int]@.take(j as int) =~= results@[k as int]@);
            }
            k = k + 1;
        }
        proof {
            assert(rv.take(results@.len() as int) =~= rv);
        }
    }
    first_nonempty_exec(&merged)
}

/// The operators of compound rules.
pub open spec fn rule_ops() -> Seq<Seq<char>> {
    seq!["&&"@, "||"@, "%%"@]
}

/// The operator of a compound rule: the first of `&&`, `||`, `%%` it contains.
pub open spec fn op_of(s: Seq<char>) -> Option<Seq<char>> {
    match detect_spec(s, rule_ops(), 0) {
        Some(j) => Some(rule_ops()[j]),
        None => None,
    }
}

/// The values of the parts that have some; with `stop`, only the first such.
pub open spec fn collect_values(src: Seq<char>, rules: Seq<Seq<char>>, stop: bool) -> Seq<Seq<Seq<char>>>
    decreases rules.len(),
{
    if rules.len() == 0 {
        Seq::empty()
    } else {
        let v = values_spec(src, rules[0]);
        if v.len() > 0 {
            if stop {
                seq![v]
            } else {
                seq![v] + collect_values(src, rules.drop_first(), stop)
            }
        } else {
            collect_values(src, rules.drop_first(), stop)
        }
    }
}

/// No part of the compound rule holds a script.
pub open spec fn parts_script_free(s: Seq<char>) -> bool {
    forall|k: int| 0 <= k < split_spec(s, rule_ops()).len() ==> script_free(#[trigger] split_spec(s, rule_ops())[k])
}

/// The value of a (possibly compound) rule on a page: the parts' values
/// merged; for `||` only the first part with values counts.
pub open spec fn doc_text_spec(src: Seq<char>, sel: Seq<char>) -> Option<Seq<char>> {
    let s = trim(sel);
    if s.len() == 0 {
        None
    } else {
        let op = op_of(s);
        merge_spec(collect_values(src, split_spec(s, rule_ops()), op == Some("||"@)), op)
    }
}

proof fn lemma_detect_range(s: Seq<char>, ops: Seq<Seq<char>>, j: int)
    ensures
        detect_spec(s, ops, j) matches Some(k) ==> 0 <= k < ops.len(),
    decreases ops.len() - j,
{
    if 0 <= j < ops.len() && !contains(s, ops[j]) {
        lemma_detect_range(s, ops, j + 1);
    }
}

/// The value of a (possibly compound) rule on a page, with the values
/// that its scripts see.
pub fn extract_text_from_document_with_context(
    d: &HtmlDoc,
    selector: Option<&String>,
    result: Option<&str>,
    base_url: Option<&str>,
    book_json: Option<&str>,
) -> (r: Option<String>)
    ensures
        selector is None ==> r is None,
        selector matches Some(sel) && trim(sel@).len() == 0 ==> r is None,
        selector matches Some(sel) ==> (parts_script_free(trim(sel@)) ==> opt_str(r) == doc_text_spec(d@, sel@)),
{
    let sel = match selector {
        Some(s) => s,
        None => return None,
    };
    let s = trim_str(sel.as_str());
    if chars_of(s.as_str()).len() == 0 {
        return None;
    }
    let ctx = context_of(result, base_url, book_json);
    let ops: [&str; 3] = ["&&", "||", "%%"];
    proof {
        assert(ops_view(ops@) =~= rule_ops());
    }
    let rules = split_rules(s.as_str(), &ops);
    let op = detect_operator(s.as_str(), &ops);
    let stop = match op {
        Some(o) => str_eq(o, "||"),
        None => false,
    };
    let ghost rules_v = rules@.map_values(|p: String| p@);
    let ghost whole = collect_values(d@, rules_v, stop);
    let mut results: Vec<Vec<String>> = Vec::new();
    let mut i: usize = 0;
    proof {
        assert(rules_v.skip(0) =~= rules_v);
    }
    while i < rules.len()
        invariant
            i <= rules@.len(),
            rules_v == rules@.map_values(|p: String| p@),
            rules_v == split_spec(s@, rule_ops()),
            whole == collect_values(d@, rules_v, stop),
            parts_script_free(s@) ==> rows_view(results@) + collect_values(d@, rules_v.skip(i as int), stop) == whole,
        decreases rules@.len() - i,
    {
        proof {
            assert(rules_v.skip(i as int).drop_first() =~= rules_v.skip(i + 1));
            assert(rules_v.skip(i as int)[0] == rules@[i as int]@);
        }
        let values = extract_values(d, rules[i].as_str(), &ctx);
        if values.len() > 0 {
            let ghost before = results@;
            let ghost vv = strs_view(values@);
            results.push(values);
            proof {
                assert(rows_view(results@) =~= rows_view(before).push(vv));
                if parts_script_free(s@) {
                    assert(script_free(split_spec(s@, rule_ops())[i as int]));
                    let rest = rules_v.skip(i as int);
                    assert(rest[0] == rules_v[i as int]);
                    assert(vv == values_spec(d@, rest[0]));
                    if !stop {
                        assert(collect_values(d@, rest, stop) == seq![vv] + collect_values(d@, rest.drop_first(), stop));
                        assert(rows_view(results@) + collect_values(d@, rules_v.skip(i + 1), stop)
                            =~= rows_view(before) + collect_values(d@, rules_v.skip(i as int), stop));
                    } else {
                        assert(collect_values(d@, rest, stop) == seq![vv]);
                    }
                }
            }
            if stop {
                proof {
                    if parts_script_free(s@) {
                        assert(rows_view(results@) =~= rows_view(before) + collect_values(d@, rules_v.skip(i as int), stop));
                    }
                }
                i = rules.len();
                proof {
                    assert(rules_v.skip(i as int) =~= Seq::<Seq<char>>::empty());
                    if parts_script_free(s@) {
                        assert(rows_view(results@) + collect_values(d@, rules_v.skip(i as int), stop) =~= rows_view(results@));
                    }
                }
            } else {
                i = i + 1;
            }
        } else {
            proof {
                if parts_script_free(s@) {
                    assert(script_free(split_spec(s@, rule_ops())[i as int]));
                }
            }
            i = i + 1;
        }
    }
    proof {
        assert(rules_v.skip(rules@.len() as int) =~= Seq::<Seq<char>>::empty());
        if parts_script_free(s@) {
            assert(rows_view(results@) + collect_values(d@, rules_v.skip(rules@.len() as int), stop) =~= rows_view(results@));
        }
    }
    let ghost opv = opt_ref_str(op);
    proof {
        lemma_detect_range(s@, rule_ops(), 0);
        match detect_spec(s@, rule_ops(), 0) {
            Some(j) => {
                assert(ops_view(ops@)[j] == ops@[j]@);
                assert(opv == op_of(s@));
            },
            None => {
                assert(opv == op_of(s@));
            },
        }
        assert(stop == (op_of(s@) == Some("||"@)));
    }
    let r = merge_rules_results(results, op);
    proof {
        if parts_script_free(trim(sel@)) {
            assert(rows_view(results@) == whole);
            assert(doc_text_spec(d@, sel@) == merge_spec(whole, op_of(s@)));
        }
    }
    r
}


/// The value of a (possibly compound) rule on a page.
pub fn extract_text_from_document(d: &HtmlDoc, selector: Option<&String>) -> (r: Option<String>)
    ensures
        selector is None ==> r is None,
        selector matches Some(sel) ==> (parts_script_free(trim(sel@)) ==> opt_str(r) == doc_text_spec(d@, sel@)),
{
    extract_text_from_document_with_context(d, selector, None, None, None)
}

/// The context a rule's scripts see, holding copies of the given values.
fn context_of(result: Option<&str>, base_url: Option<&str>, book_json: Option<&str>) -> (c: RuleContext)
    ensures
        opt_str(c.result) == opt_ref_str(result),
        opt_str(c.base_url) == opt_ref_str(base_url),
        opt_str(c.book_json) == opt_ref_str(book_json),
{
    RuleContext::new(
        match result { Some(v) => Some(v.to_string()), None => None },
        match base_url { Some(v) => Some(v.to_string()), None => None },
        match book_json { Some(v) => Some(v.to_string()), None => None },
    )
}

/// All values of a single rule on a page.
pub fn extract_list_single_rule(d: &HtmlDoc, rule: &str) -> (r: Vec<String>)
    ensures
        script_free(rule@) ==> strs_view(r@) == values_spec(d@, rule@),
{
    extract_values(d, rule, &RuleContext::empty())
}

/// All values of a single rule on a page, with the values its scripts see.
pub fn extract_list_single_rule_with_context(
    d: &HtmlDoc,
    rule: &str,
    result: Option<&str>,
    base_url: Option<&str>,
    book_json: Option<&str>,
) -> (r: Vec<String>)
    ensures
        script_free(rule@) ==> strs_view(r@) == values_spec(d@, rule@),
{
    extract_values(d, rule, &context_of(result, base_url, book_json))
}

/// The first value of a single rule on a page, with the values its scripts see.
pub fn extract_single_rule_with_context(
    d: &HtmlDoc,
    rule: &str,
    result: Option<&str>,
    base_url: Option<&str>,
    book_json: Option<&str>,
) -> (r: Option<String>)
    ensures
        script_free(rule@) ==> opt_str(r) == first_nonempty(values_spec(d@, rule@)),
{
    first_nonempty_exec(&extract_values(d, rule, &context_of(result, base_url, book_json)))
}

/// The values of a rule without scripts on an element: a JSONPath rule on
/// the element's text, or a CSS rule on the element.
pub open spec fn element_values_spec(src: Seq<char>, node: usize, rule: Seq<char>) -> Seq<Seq<char>> {
    let r = trim(rule);
    if r.len() == 0 {
        Seq::empty()
    } else if is_json_path(r) {
        json_values_spec(text_of(src, node), r)
    } else {
        texts_in_spec(src, node, r)
    }
}

fn extract_values_from_element(d: &HtmlDoc, node: usize, rule: &str, ctx: &RuleContext) -> (r: Vec<String>)
    ensures
        script_free(rule@) ==> strs_view(r@) == element_values_spec(d@, node, rule@),
{
    let r = trim_str(rule);
    if chars_of(r.as_str()).len() == 0 {
        let empty: Vec<String> = Vec::new();
        proof {
            assert(strs_view(empty@) =~= Seq::<Seq<char>>::empty());
        }
        return empty;
    }
    proof {
        if script_free(rule@) {
            lemma_script_free(rule@);
            lemma_script_free(r@);
        }
    }
    let (r2, js) = split_js_chain(r.as_str());
    if let Some(value) = extract_js_rule(r2.as_str(), ctx) {
        return opt_vec(Some(value));
    }
    let values = if is_json_path_rule(r2.as_str()) {
        extract_json_path_values_from_element(d, node, r2.as_str())
    } else {
        select_text_from_element(d, node, r2.as_str())
    };
    match js {
        Some(code) => {
            let mut out: Vec<String> = Vec::new();
            let mut i: usize = 0;
            while i < values.len()
                invariant
                    i <= values@.len(),
                decreases values@.len() - i,
            {
                if let Some(v) = ctx.eval_js(code.as_str(), Some(values[i].as_str())) {
                    out.push(v);
                }
                i = i + 1;
            }
            out
        },
        None => values,
    }
}

/// The first value of a rule on an element.
pub fn extract_text_from_element(d: &HtmlDoc, node: usize, rule: &str) -> (r: Option<String>)
    ensures
        script_free(rule@) ==> opt_str(r) == first_nonempty(element_values_spec(d@, node, rule@)),
        r matches Some(s) ==> s@.len() > 0,
{
    first_nonempty_exec(&extract_values_from_element(d, node, rule, &RuleContext::empty()))
}

/// All values of a rule on an element.
pub fn extract_list_from_element(d: &HtmlDoc, node: usize, rule: &str) -> (r: Vec<String>)
    ensures
        script_free(rule@) ==> strs_view(r@) == element_values_spec(d@, node, rule@),
{
    extract_values_from_element(d, node, rule, &RuleContext::empty())
}

} // verus!
