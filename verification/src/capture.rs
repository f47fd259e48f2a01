//! "All-in-one" list rules: a regex (`:pattern`, or `-:pattern` for reverse
//! order) whose matches are the list items, and `$n` templates that build a
//! field from a match's groups.
use vstd::prelude::*;
use crate::text::{chars_of, is_digit, opt_str, slice_chars, starts_with, starts_with_chars, string_of, trim, trim_chars, append_chars};
use crate::num::{parse_u64, parse_u64_spec};
use crate::regex_util::{ParsedRegex, regex_new, regex_valid};
use crate::selector::lit;

verus! {

/// Length of the run of ASCII digits at the start of `s`.
pub open spec fn digit_run(s: Seq<char>) -> nat
    decreases s.len(),
{
    if s.len() > 0 && is_digit(s[0]) {
        1 + digit_run(s.drop_first())
    } else {
        0
    }
}

/// The group numbered by `num`, when it exists and took part in the match.
pub open spec fn group_of(caps: Seq<Option<Seq<char>>>, num: Seq<char>) -> Option<Seq<char>> {
    match parse_u64_spec(num) {
        Some(i) => if (i as int) < caps.len() && caps[i as int] is Some {
            caps[i as int]
        } else {
            None
        },
        None => None,
    }
}

/// A template with each `$n` replaced by group `n` of the match (a `$n` that
/// names no group stays as written).
pub open spec fn template_spec(t: Seq<char>, caps: Seq<Option<Seq<char>>>) -> Seq<char>
    decreases t.len(),
{
    if t.len() == 0 {
        Seq::empty()
    } else if t[0] == '$' {
        let k = digit_run(t.drop_first()) as int;
        let num = t.subrange(1, 1 + k);
        proof {
            lemma_digit_run(t.drop_first());
        }
        let rest = template_spec(t.skip(1 + k), caps);
        match group_of(caps, num) {
            Some(g) => g + rest,
            None => seq!['$'] + num + rest,
        }
    } else {
        seq![t[0]] + template_spec(t.drop_first(), caps)
    }
}

pub proof fn lemma_digit_run(s: Seq<char>)
    ensures
        digit_run(s) <= s.len(),
        forall|i: int| 0 <= i < digit_run(s) ==> is_digit(#[trigger] s[i]),
        digit_run(s) < s.len() ==> !is_digit(s[digit_run(s) as int]),
    decreases s.len(),
{
    if s.len() > 0 && is_digit(s[0]) {
        lemma_digit_run(s.drop_first());
        assert forall|i: int| 0 <= i < digit_run(s) implies is_digit(#[trigger] s[i]) by {
            if i > 0 {
                assert(s[i] == s.drop_first()[i - 1]);
            }
        }
        if digit_run(s) < s.len() {
            assert(s[digit_run(s) as int] == s.drop_first()[digit_run(s.drop_first()) as int]);
        }
    }
}

proof fn lemma_digit_run_char(s: Seq<char>, k: int)
    requires
        0 <= k <= s.len(),
        forall|i: int| 0 <= i < k ==> is_digit(#[trigger] s[i]),
        k < s.len() ==> !is_digit(s[k]),
    ensures
        digit_run(s) == k,
    decreases s.len(),
{
    if k > 0 {
        assert(is_digit(s[0]));
        assert forall|i: int| 0 <= i < k - 1 implies is_digit(#[trigger] s.drop_first()[i]) by {
            assert(s.drop_first()[i] == s[i + 1]);
        }
        if k - 1 < s.len() - 1 {
            assert(s.drop_first()[k - 1] == s[k]);
        }
        lemma_digit_run_char(s.drop_first(), k - 1);
    }
}

fn group_exec(caps: &Vec<Option<String>>, num: &[char]) -> (r: Option<String>)
    ensures
        opt_str(r) == group_of(caps@.map_values(|o: Option<String>| opt_str(o)), num@),
{
    match parse_u64(num) {
        Some(i) => {
            if (i as u128) < (caps.len() as u128) {
                match &caps[i as usize] {
                    Some(g) => Some(g.clone()),
                    None => None,
                }
            } else {
                None
            }
        },
        None => None,
    }
}

/// Builds a field from a match: `$n` becomes group `n`.
pub fn apply_capture_template(template: &str, caps: &Vec<Option<String>>) -> (r: String)
    ensures
        r@ == template_spec(template@, caps@.map_values(|o: Option<String>| opt_str(o))),
{
    let ghost cv = caps@.map_values(|o: Option<String>| opt_str(o));
    let t = chars_of(template);
    let n = t.len();
    let mut out: Vec<char> = Vec::new();
    let mut i: usize = 0;
    proof {
        assert(t@.skip(0) =~= t@);
    }
    while i < n
        invariant
            i <= n == t@.len(),
            t@ == template@,
            cv == caps@.map_values(|o: Option<String>| opt_str(o)),
            out@ + template_spec(t@.skip(i as int), cv) == template_spec(template@, cv),
        decreases n - i,
    {
        let ghost rest = t@.skip(i as int);
        if t[i] == '$' {
            let mut j = i + 1;
            while j < n && '0' <= t[j] && t[j] <= '9'
                invariant
                    i < j <= n == t@.len(),
                    forall|q: int| i + 1 <= q < j ==> is_digit(#[trigger] t@[q]),
                decreases n - j,
            {
                j = j + 1;
            }
            let num = slice_chars(&t, i + 1, j);
            proof {
                let d = rest.drop_first();
                assert forall|q: int| 0 <= q < j - i - 1 implies is_digit(#[trigger] d[q]) by {
                    assert(d[q] == t@[i + 1 + q]);
                }
                if j < n {
                    assert(d[j - i - 1] == t@[j as int]);
                }
                lemma_digit_run_char(d, j - i - 1);
                assert(rest.subrange(1, 1 + (j - i - 1)) =~= num@);
                assert(rest.skip(1 + (j - i - 1)) =~= t@.skip(j as int));
            }
            match group_exec(caps, &num) {
                Some(g) => {
                    let gv = chars_of(g.as_str());
                    append_chars(&mut out, &gv);
                },
                None => {
                    out.push('$');
                    append_chars(&mut out, &num);
                },
            }
            proof {
                assert(out@ + template_spec(t@.skip(j as int), cv) =~= template_spec(template@, cv));
            }
            i = j;
        } else {
            out.push(t[i]);
            proof {
                assert(rest.drop_first() =~= t@.skip(i + 1));
                assert(out@ + template_spec(t@.skip(i + 1), cv) =~= template_spec(template@, cv));
            }
            i = i + 1;
        }
    }
    string_of(&out)
}

/// Law: a template without `$` is copied unchanged.
pub proof fn law_template_without_dollar(t: Seq<char>, caps: Seq<Option<Seq<char>>>)
    requires
        !t.contains('$'),
    ensures
        template_spec(t, caps) == t,
    decreases t.len(),
{
    if t.len() > 0 {
        assert(t[0] != '$') by {
            if t[0] == '$' {
                assert(t.contains('$'));
            }
        }
        assert(!t.drop_first().contains('$')) by {
            if t.drop_first().contains('$') {
                let i = choose|i: int| 0 <= i < t.drop_first().len() && t.drop_first()[i] == '$';
                assert(t[i + 1] == '$');
            }
        }
        law_template_without_dollar(t.drop_first(), caps);
        assert(seq![t[0]] + t.drop_first() =~= t);
    }
}

/// A field of a match: the template applied, trimmed, when not empty.
pub open spec fn caps_field_spec(rule: Option<Seq<char>>, caps: Seq<Option<Seq<char>>>) -> Option<Seq<char>> {
    match rule {
        Some(t) => if trim(template_spec(t, caps)).len() > 0 {
            Some(trim(template_spec(t, caps)))
        } else {
            None
        },
        None => None,
    }
}

pub fn extract_text_from_caps(rule: &Option<String>, caps: &Vec<Option<String>>) -> (r: Option<String>)
    ensures
        opt_str(r) == caps_field_spec(opt_str(*rule), caps@.map_values(|o: Option<String>| opt_str(o))),
{
    match rule {
        Some(t) => {
            let v = apply_capture_template(t.as_str(), caps);
            let tv = trim_chars(&chars_of(v.as_str()));
            if tv.len() > 0 {
                Some(string_of(&tv))
            } else {
                None
            }
        },
        None => None,
    }
}

/// The pattern of an all-in-one rule and whether it lists in reverse:
/// `-:pattern` (reverse) or `:pattern`, the pattern trimmed and not empty.
pub open spec fn all_in_one_spec(rule: Seq<char>) -> Option<(Seq<char>, bool)> {
    let r = trim(rule);
    let (p, rev) = if starts_with(r, "-:"@) {
        (trim(r.skip(2)), true)
    } else if starts_with(r, ":"@) {
        (trim(r.skip(1)), false)
    } else {
        (Seq::empty(), false)
    };
    if !(starts_with(r, "-:"@) || starts_with(r, ":"@)) || p.len() == 0 {
        None
    } else {
        Some((p, rev))
    }
}

/// The compiled regex of an all-in-one rule, and whether it lists in reverse;
/// `None` when the rule is not one or its pattern does not compile.
pub fn parse_all_in_one_rule(rule: &str) -> (r: Option<(ParsedRegex, bool)>)
    ensures
        match all_in_one_spec(rule@) {
            Some((p, rev)) => if regex_valid(p) {
                r matches Some((x, b)) && x@ == p && b == rev
            } else {
                r is None
            },
            None => r is None,
        },
{
    let t = trim_chars(&chars_of(rule));
    proof {
        reveal_strlit("-:");
        reveal_strlit(":");
    }
    let (p, rev) = if starts_with_chars(&t, &lit("-:")) {
        let rest = slice_chars(&t, 2, t.len());
        proof {
            assert(rest@ =~= t@.skip(2));
        }
        (trim_chars(&rest), true)
    } else if starts_with_chars(&t, &lit(":")) {
        let rest = slice_chars(&t, 1, t.len());
        proof {
            assert(rest@ =~= t@.skip(1));
        }
        (trim_chars(&rest), false)
    } else {
        return None;
    };
    if p.len() == 0 {
        return None;
    }
    let ps = string_of(&p);
    match regex_new(ps.as_str()) {
        Some(re) => Some((re, rev)),
        None => None,
    }
}

} // verus!
