//! Index filters of selection rules: `sel[1,3]`, `sel[!0]`, `sel[1:5:2]`,
//! `sel[-1]` and the legacy forms `sel.1:3` / `sel!0`.
use vstd::prelude::*;
use crate::text::{
    chars_of, find, is_digit, matches_at, slice_chars, string_of, trim, trim_chars, ends_with,
    ends_with_chars, find_chars, lemma_find_from,
};
use crate::num::{parse_i32, parse_i32_spec};
use crate::selector::{IndexMode, IndexRule, IndexToken, lit};

verus! {

/// `str::split` at a single character: the pieces between occurrences of `c`.
pub open spec fn split_seq(s: Seq<char>, c: char) -> Seq<Seq<char>>
    decreases s.len(),
{
    match find(s, seq![c]) {
        Some(i) => if 0 <= i < s.len() {
            seq![s.take(i)] + split_seq(s.skip(i + 1), c)
        } else {
            seq![s]
        },
        None => seq![s],
    }
}

/// Splits a character vector at each occurrence of `c`.
pub fn split_by_char(s: &[char], c: char) -> (parts: Vec<Vec<char>>)
    ensures
        parts@.map_values(|p: Vec<char>| p@) == split_seq(s@, c),
{
    let mut parts: Vec<Vec<char>> = Vec::new();
    let mut cur: Vec<char> = Vec::new();
    let mut i: usize = 0;
    let n = s.len();
    proof {
        assert(s@.skip(0) =~= s@);
    }
    while i < n
        invariant
            i <= n == s@.len(),
            parts@.map_values(|p: Vec<char>| p@) + split_seq(cur@ + s@.skip(i as int), c)
                == split_seq(s@, c),
            forall|k: int| 0 <= k < cur@.len() ==> #[trigger] cur@[k] != c,
        decreases n - i,
    {
        let ghost before = parts@.map_values(|p: Vec<char>| p@);
        let ghost rest = cur@ + s@.skip(i as int);
        if s[i] == c {
            let ghost oc = cur@;
            proof {
                let sc = seq![c];
                assert(matches_at(rest, sc, oc.len() as int)) by {
                    assert(rest.subrange(oc.len() as int, (oc.len() + 1) as int) =~= sc);
                }
                assert forall|j: int| 0 <= j < oc.len() implies !matches_at(rest, sc, j) by {
                    assert(rest.subrange(j, j + 1)[0] == oc[j]);
                }
                lemma_find_from(rest, sc, 0);
                assert(find(rest, sc) == Some(oc.len() as int));
                assert(rest.take(oc.len() as int) =~= oc);
                assert(rest.skip((oc.len() + 1) as int) =~= s@.skip(i + 1));
                assert(split_seq(rest, c) == seq![oc] + split_seq(s@.skip(i + 1), c));
            }
            parts.push(cur);
            cur = Vec::new();
            proof {
                assert(parts@.map_values(|p: Vec<char>| p@) =~= before.push(oc));
                assert(cur@ + s@.skip(i + 1) =~= s@.skip(i + 1));
                assert(before.push(oc) + split_seq(s@.skip(i + 1), c) =~= before + (seq![oc]
                    + split_seq(s@.skip(i + 1), c)));
            }
        } else {
            cur.push(s[i]);
            proof {
                assert(cur@ + s@.skip(i + 1) =~= rest);
            }
        }
        i = i + 1;
    }
    proof {
        let sc = seq![c];
        assert(cur@ + s@.skip(n as int) =~= cur@);
        assert forall|j: int| 0 <= j implies !matches_at(cur@, sc, j) by {
            if j < cur@.len() {
                assert(cur@.subrange(j, j + 1)[0] == cur@[j]);
            }
        }
        lemma_find_from(cur@, sc, 0);
    }
    let ghost before = parts@.map_values(|p: Vec<char>| p@);
    let ghost oc = cur@;
    parts.push(cur);
    proof {
        assert(split_seq(oc, c) == seq![oc]);
        assert(parts@.map_values(|p: Vec<char>| p@) =~= before + seq![oc]);
    }
    parts
}

/// `value.trim()` parsed as an `i32`, `None` when blank or malformed.
pub open spec fn parse_optional_spec(v: Seq<char>) -> Option<i32> {
    if trim(v).len() == 0 {
        None
    } else {
        parse_i32_spec(trim(v))
    }
}

pub fn parse_optional_i32(value: &[char]) -> (r: Option<i32>)
    ensures
        r == parse_optional_spec(value@),
{
    let t = trim_chars(value);
    if t.len() == 0 {
        None
    } else {
        parse_i32(&t)
    }
}

/// Piece `i` of a split, or nothing when there are fewer pieces.
pub open spec fn piece(parts: Seq<Seq<char>>, i: int) -> Seq<char> {
    if 0 <= i < parts.len() {
        parts[i]
    } else {
        Seq::empty()
    }
}

/// A token: `start:end:step` (each part optional, step 1 by default) or one index.
pub open spec fn range_token_spec(t: Seq<char>) -> Option<IndexToken> {
    if find(t, seq![':']) is Some {
        let parts = split_seq(t, ':');
        Some(
            IndexToken::Range {
                start: parse_optional_spec(piece(parts, 0)),
                end: parse_optional_spec(piece(parts, 1)),
                step: match parse_optional_spec(piece(parts, 2)) {
                    Some(v) => v,
                    None => 1,
                },
            },
        )
    } else {
        match parse_optional_spec(t) {
            Some(v) => Some(IndexToken::Single(v)),
            None => None,
        }
    }
}

fn piece_of(parts: &Vec<Vec<char>>, i: usize) -> (p: Vec<char>)
    ensures
        p@ == piece(parts@.map_values(|q: Vec<char>| q@), i as int),
{
    if i < parts.len() {
        parts[i].clone()
    } else {
        Vec::new()
    }
}

pub fn parse_range_token(token: &[char]) -> (r: Option<IndexToken>)
    ensures
        r == range_token_spec(token@),
{
    let colon = vec![':'];
    proof {
        assert(colon@ =~= seq![':']);
    }
    if find_chars(token, &colon).is_some() {
        let parts = split_by_char(token, ':');
        let start = parse_optional_i32(&piece_of(&parts, 0));
        let end = parse_optional_i32(&piece_of(&parts, 1));
        let step = match parse_optional_i32(&piece_of(&parts, 2)) {
            Some(v) => v,
            None => 1,
        };
        Some(IndexToken::Range { start, end, step })
    } else {
        match parse_optional_i32(token) {
            Some(v) => Some(IndexToken::Single(v)),
            None => None,
        }
    }
}

/// Tokens of the comma-separated items, blank items and unparsable ones dropped.
pub open spec fn list_tokens(items: Seq<Seq<char>>) -> Seq<IndexToken>
    decreases items.len(),
{
    if items.len() == 0 {
        Seq::empty()
    } else {
        let rest = list_tokens(items.drop_last());
        let t = trim(items.last());
        if t.len() > 0 && range_token_spec(t) is Some {
            rest.push(range_token_spec(t)->0)
        } else {
            rest
        }
    }
}

/// The mode and body of a `[...]` filter: a leading `!` excludes.
pub open spec fn list_body(inner: Seq<char>) -> (IndexMode, Seq<char>) {
    let t = trim(inner);
    if t.len() > 0 && t[0] == '!' {
        (IndexMode::Exclude, t.drop_first())
    } else {
        (IndexMode::Select, t)
    }
}

/// The rule a `[...]` filter stands for, `None` when it holds no valid token.
pub open spec fn index_list_spec(inner: Seq<char>) -> Option<(IndexMode, Seq<IndexToken>)> {
    let (mode, body) = list_body(inner);
    let toks = list_tokens(split_seq(body, ','));
    if toks.len() == 0 {
        None
    } else {
        Some((mode, toks))
    }
}

/// The view of a parsed index rule.
pub open spec fn rule_view(r: Option<IndexRule>) -> Option<(IndexMode, Seq<IndexToken>)> {
    match r {
        Some(x) => Some((x.mode, x.indexes@)),
        None => None,
    }
}

/// Parses the inside of a `[...]` index filter.
pub fn parse_index_list(inner: &[char]) -> (r: Option<IndexRule>)
    ensures
        rule_view(r) == index_list_spec(inner@),
{
    let t = trim_chars(inner);
    let (mode, body) = if t.len() > 0 && t[0] == '!' {
        let b = slice_chars(&t, 1, t.len());
        proof {
            assert(b@ =~= t@.drop_first());
        }
        (IndexMode::Exclude, b)
    } else {
        (IndexMode::Select, t)
    };
    let items = split_by_char(&body, ',');
    let ghost iv = items@.map_values(|p: Vec<char>| p@);
    let mut indexes: Vec<IndexToken> = Vec::new();
    let mut k: usize = 0;
    while k < items.len()
        invariant
            k <= items@.len(),
            iv == items@.map_values(|p: Vec<char>| p@),
            indexes@ == list_tokens(iv.take(k as int)),
        decreases items@.len() - k,
    {
        let item = trim_chars(&items[k]);
        proof {
            assert(iv.take(k + 1).drop_last() =~= iv.take(k as int));
            assert(iv.take(k + 1).last() == items@[k as int]@);
        }
        if item.len() > 0 {
            if let Some(tok) = parse_range_token(&item) {
                indexes.push(tok);
            }
        }
        k = k + 1;
    }
    proof {
        assert(iv.take(k as int) =~= iv);
    }
    if indexes.len() == 0 {
        None
    } else {
        Some(IndexRule { mode, indexes })
    }
}

/// Legacy `.1:3` / `!1:3`: each non-empty `:`-separated item that parses as
/// an `i32` (after trimming) is one index.
pub open spec fn legacy_tokens(items: Seq<Seq<char>>) -> Seq<IndexToken>
    decreases items.len(),
{
    if items.len() == 0 {
        Seq::empty()
    } else {
        let rest = legacy_tokens(items.drop_last());
        let it = items.last();
        if it.len() > 0 && parse_i32_spec(trim(it)) is Some {
            rest.push(IndexToken::Single(parse_i32_spec(trim(it))->0))
        } else {
            rest
        }
    }
}

pub open spec fn index_legacy_spec(rest: Seq<char>, mode_char: char) -> Option<(IndexMode, Seq<IndexToken>)> {
    let toks = legacy_tokens(split_seq(rest, ':'));
    if toks.len() == 0 {
        None
    } else {
        Some((if mode_char == '!' { IndexMode::Exclude } else { IndexMode::Select }, toks))
    }
}

/// Parses a legacy index list after `.` (select) or `!` (exclude).
pub fn parse_index_legacy(rest: &[char], mode_char: char) -> (r: Option<IndexRule>)
    ensures
        rule_view(r) == index_legacy_spec(rest@, mode_char),
{
    let items = split_by_char(rest, ':');
    let ghost iv = items@.map_values(|p: Vec<char>| p@);
    let mut indexes: Vec<IndexToken> = Vec::new();
    let mut k: usize = 0;
    while k < items.len()
        invariant
            k <= items@.len(),
            iv == items@.map_values(|p: Vec<char>| p@),
            indexes@ == legacy_tokens(iv.take(k as int)),
        decreases items@.len() - k,
    {
        proof {
            assert(iv.take(k + 1).drop_last() =~= iv.take(k as int));
            assert(iv.take(k + 1).last() == items@[k as int]@);
        }
        if items[k].len() > 0 {
            let t = trim_chars(&items[k]);
            if let Some(v) = parse_i32(&t) {
                indexes.push(IndexToken::Single(v));
            }
        }
        k = k + 1;
    }
    proof {
        assert(iv.take(k as int) =~= iv);
    }
    if indexes.len() == 0 {
        None
    } else {
        Some(
            IndexRule {
                mode: if mode_char == '!' {
                    IndexMode::Exclude
                } else {
                    IndexMode::Select
                },
                indexes,
            },
        )
    }
}

/// Position of the last `c` in `s`.
pub open spec fn rfind_char(s: Seq<char>, c: char) -> Option<int>
    decreases s.len(),
{
    if s.len() == 0 {
        None
    } else if s.last() == c {
        Some(s.len() - 1)
    } else {
        rfind_char(s.drop_last(), c)
    }
}

/// Characters that make up a legacy index list.
pub open spec fn is_index_char(c: char) -> bool {
    is_digit(c) || c == '-' || c == ':'
}

/// Length of the trailing run of index characters.
pub open spec fn index_run(s: Seq<char>) -> nat
    decreases s.len(),
{
    if s.len() > 0 && is_index_char(s.last()) {
        1 + index_run(s.drop_last())
    } else {
        0
    }
}

/// A selector with its index filter separated: `sel[...]`, or the legacy
/// `sel.1:2` / `sel!0`; the selector is trimmed.
pub open spec fn split_index_spec(r: Seq<char>) -> (Seq<char>, Option<(IndexMode, Seq<IndexToken>)>) {
    let idx = r.len() - index_run(r);
    if rfind_char(r, '[') is Some && ends_with(r, "]"@) && rfind_char(r, '[')->0 < r.len() - 1 {
        let start = rfind_char(r, '[')->0;
        (trim(r.take(start)), index_list_spec(r.subrange(start + 1, r.len() - 1)))
    } else if 0 < idx < r.len() && (r[idx - 1] == '.' || r[idx - 1] == '!') {
        (trim(r.take(idx - 1)), index_legacy_spec(r.skip(idx), r[idx - 1]))
    } else {
        (trim(r), None)
    }
}

proof fn lemma_rfind(s: Seq<char>, c: char)
    ensures
        match rfind_char(s, c) {
            Some(i) => 0 <= i < s.len() && s[i] == c,
            None => true,
        },
    decreases s.len(),
{
    if s.len() > 0 && s.last() != c {
        lemma_rfind(s.drop_last(), c);
    }
}

fn rfind_in(s: &[char], c: char) -> (r: Option<usize>)
    ensures
        match r {
            Some(i) => rfind_char(s@, c) == Some(i as int),
            None => rfind_char(s@, c) is None,
        },
{
    let mut k = s.len();
    proof {
        assert(s@.take(k as int) =~= s@);
    }
    while k > 0
        invariant
            k <= s@.len(),
            rfind_char(s@, c) == rfind_char(s@.take(k as int), c),
        decreases k,
    {
        proof {
            assert(s@.take(k as int).drop_last() =~= s@.take(k - 1));
        }
        if s[k - 1] == c {
            return Some(k - 1);
        }
        k = k - 1;
    }
    None
}

fn index_run_start(s: &[char]) -> (idx: usize)
    ensures
        idx == s@.len() - index_run(s@),
{
    let mut k = s.len();
    proof {
        assert(s@.take(k as int) =~= s@);
    }
    while k > 0 && (('0' <= s[k - 1] && s[k - 1] <= '9') || s[k - 1] == '-' || s[k - 1] == ':')
        invariant
            k <= s@.len(),
            index_run(s@) == (s@.len() - k) + index_run(s@.take(k as int)),
        decreases k,
    {
        proof {
            assert(s@.take(k as int).drop_last() =~= s@.take(k - 1));
        }
        k = k - 1;
    }
    proof {
        assert(s@.take(s@.len() as int) =~= s@);
    }
    k
}

/// Separates the index filter from a selector.
pub fn split_index_rule(rule: &[char]) -> (r: (Vec<char>, Option<IndexRule>))
    ensures
        (r.0@, rule_view(r.1)) == split_index_spec(rule@),
{
    let n = rule.len();
    let close = lit("]");
    proof {
        reveal_strlit("]");
        assert(s_view_of_len_1(close@));
    }
    if let Some(start) = rfind_in(rule, '[') {
        proof {
            lemma_rfind(rule@, '[');
        }
        if ends_with_chars(rule, &close) && start < n - 1 {
            let base = trim_chars(&slice_chars(rule, 0, start));
            let inner = slice_chars(rule, start + 1, n - 1);
            proof {
                assert(rule@.subrange(0, start as int) =~= rule@.take(start as int));
            }
            return (base, parse_index_list(&inner));
        }
    }
    let idx = index_run_start(rule);
    if 0 < idx && idx < n && (rule[idx - 1] == '.' || rule[idx - 1] == '!') {
        let mode_char = rule[idx - 1];
        let base = trim_chars(&slice_chars(rule, 0, idx - 1));
        let rest = slice_chars(rule, idx, n);
        proof {
            assert(rule@.subrange(0, idx - 1) =~= rule@.take(idx - 1));
            assert(rest@ =~= rule@.skip(idx as int));
        }
        return (base, parse_index_legacy(&rest, mode_char));
    }
    (trim_chars(rule), None)
}

spec fn s_view_of_len_1(s: Seq<char>) -> bool {
    s.len() == 1
}

// ---------------------------------------------------------------------------
// Applying an index filter
// ---------------------------------------------------------------------------

/// A negative position counts from the end.
pub open spec fn norm(i: int, len: int) -> int {
    if i >= 0 {
        i
    } else {
        len + i
    }
}

pub fn normalize_index(index: i32, len: i32) -> (r: i32)
    requires
        len >= 0,
    ensures
        r == norm(index as int, len as int),
{
    if index >= 0 {
        index
    } else {
        len + index
    }
}

/// Whether a token names position `p` of a list of length `len`.
/// A range runs from its start (default 0) to its end (default the last
/// position) by its step (0 counts as 1); it runs downward when start > end.
pub open spec fn token_has(tok: IndexToken, len: int, p: int) -> bool {
    match tok {
        IndexToken::Single(x) => norm(x as int, len) == p,
        IndexToken::Range { start, end, step } => {
            let a = match start {
                Some(v) => norm(v as int, len),
                None => 0,
            };
            let b = match end {
                Some(v) => norm(v as int, len),
                None => len - 1,
            };
            let st: int = if step == 0 {
                1
            } else {
                step as int
            };
            let m: int = if st > 0 {
                st
            } else {
                -st
            };
            if a <= b {
                if st > 0 {
                    a <= p && p <= b && (p - a) % m == 0
                } else {
                    p <= a && (a - p) % m == 0
                }
            } else {
                b <= p && p <= a && (a - p) % m == 0
            }
        },
    }
}

/// Whether any token names position `p`.
pub open spec fn rule_has(toks: Seq<IndexToken>, len: int, p: int) -> bool {
    exists|k: int| 0 <= k < toks.len() && token_has(#[trigger] toks[k], len, p)
}

/// Whether position `p` is kept.
pub open spec fn keeps(mode: IndexMode, toks: Seq<IndexToken>, len: int, p: int) -> bool {
    match mode {
        IndexMode::Select => rule_has(toks, len, p),
        IndexMode::Exclude => !rule_has(toks, len, p),
        IndexMode::Unfiltered => true,
    }
}

/// The kept positions among `0..upto`, in increasing order.
pub open spec fn kept_positions(mode: IndexMode, toks: Seq<IndexToken>, len: int, upto: int) -> Seq<int>
    decreases upto,
{
    if upto <= 0 {
        Seq::empty()
    } else {
        let rest = kept_positions(mode, toks, len, upto - 1);
        if keeps(mode, toks, len, upto - 1) {
            rest.push(upto - 1)
        } else {
            rest
        }
    }
}

/// The elements kept by an index filter, in their original order.
pub open spec fn apply_spec<T>(elems: Seq<T>, mode: IndexMode, toks: Seq<IndexToken>) -> Seq<T> {
    kept_positions(mode, toks, elems.len() as int, elems.len() as int).map_values(|p: int| elems[p])
}

fn token_has_exec(tok: &IndexToken, len: i128, p: i128) -> (b: bool)
    requires
        0 <= len <= usize::MAX,
        0 <= p < len,
    ensures
        b == token_has(*tok, len as int, p as int),
{
    match *tok {
        IndexToken::Single(x) => {
            let v: i128 = if x >= 0 {
                x as i128
            } else {
                len + x as i128
            };
            v == p
        },
        IndexToken::Range { start, end, step } => {
            let a: i128 = match start {
                Some(v) => if v >= 0 {
                    v as i128
                } else {
                    len + v as i128
                },
                None => 0,
            };
            let b: i128 = match end {
                Some(v) => if v >= 0 {
                    v as i128
                } else {
                    len + v as i128
                },
                None => len - 1,
            };
            let st: i128 = if step == 0 {
                1
            } else {
                step as i128
            };
            let m: i128 = if st > 0 {
                st
            } else {
                -st
            };
            if a <= b {
                if st > 0 {
                    a <= p && p <= b && ((p - a) as u128) % (m as u128) == 0
                } else {
                    p <= a && ((a - p) as u128) % (m as u128) == 0
                }
            } else {
                b <= p && p <= a && ((a - p) as u128) % (m as u128) == 0
            }
        },
    }
}

fn rule_has_exec(toks: &Vec<IndexToken>, len: i128, p: i128) -> (b: bool)
    requires
        0 <= len <= usize::MAX,
        0 <= p < len,
    ensures
        b == rule_has(toks@, len as int, p as int),
{
    let mut k: usize = 0;
    while k < toks.len()
        invariant
            k <= toks@.len(),
            0 <= len <= usize::MAX,
            0 <= p < len,
            forall|j: int| 0 <= j < k ==> !token_has(#[trigger] toks@[j], len as int, p as int),
        decreases toks@.len() - k,
    {
        if token_has_exec(&toks[k], len, p) {
            return true;
        }
        k = k + 1;
    }
    false
}

/// Keeps the elements that an index filter selects (or drops the ones it
/// excludes), in their original order.
pub fn apply_index_rule<T: Copy>(elements: Vec<T>, rule: &IndexRule) -> (r: Vec<T>)
    ensures
        r@ == apply_spec(elements@, rule.mode, rule.indexes@),
{
    let len = elements.len();
    let mut out: Vec<T> = Vec::new();
    let mut p: usize = 0;
    while p < len
        invariant
            len == elements@.len(),
            p <= len,
            out@ == kept_positions(rule.mode, rule.indexes@, len as int, p as int).map_values(
                |q: int| elements@[q],
            ),
            forall|q: int| 0 <= q < kept_positions(rule.mode, rule.indexes@, len as int, p as int).len() ==>
                0 <= #[trigger] kept_positions(rule.mode, rule.indexes@, len as int, p as int)[q] < p,
        decreases len - p,
    {
        let keep = match rule.mode {
            IndexMode::Select => rule_has_exec(&rule.indexes, len as i128, p as i128),
            IndexMode::Exclude => !rule_has_exec(&rule.indexes, len as i128, p as i128),
            IndexMode::Unfiltered => true,
        };
        let ghost before = kept_positions(rule.mode, rule.indexes@, len as int, p as int);
        if keep {
            out.push(elements[p]);
        }
        proof {
            let after = kept_positions(rule.mode, rule.indexes@, len as int, p + 1);
            assert(out@ =~= after.map_values(|q: int| elements@[q]));
        }
        p = p + 1;
    }
    out
}

/// `apply_index_rule` when a filter is present.
pub fn apply_index_rule_if_needed<T: Copy>(elements: Vec<T>, rule: Option<IndexRule>) -> (r: Vec<T>)
    ensures
        match rule {
            Some(x) => r@ == apply_spec(elements@, x.mode, x.indexes@),
            None => r@ == elements@,
        },
{
    match rule {
        Some(x) => apply_index_rule(elements, &x),
        None => elements,
    }
}

// ---------------------------------------------------------------------------
// Laws
// ---------------------------------------------------------------------------

proof fn lemma_kept_positions_sorted(mode: IndexMode, toks: Seq<IndexToken>, len: int, upto: int)
    ensures
        forall|i: int| 0 <= i < kept_positions(mode, toks, len, upto).len() ==> 0 <= #[trigger] kept_positions(mode, toks, len, upto)[i] < upto,
        forall|i: int, j: int| 0 <= i < j < kept_positions(mode, toks, len, upto).len() ==> kept_positions(mode, toks, len, upto)[i] < kept_positions(mode, toks, len, upto)[j],
        forall|p: int| 0 <= p < upto ==> (keeps(mode, toks, len, p) <==> kept_positions(mode, toks, len, upto).contains(p)),
    decreases upto,
{
    if upto > 0 {
        lemma_kept_positions_sorted(mode, toks, len, upto - 1);
        let rest = kept_positions(mode, toks, len, upto - 1);
        let all = kept_positions(mode, toks, len, upto);
        assert forall|p: int| 0 <= p < upto implies (keeps(mode, toks, len, p) <==> all.contains(p)) by {
            if p < upto - 1 {
                if rest.contains(p) {
                    let i = choose|i: int| 0 <= i < rest.len() && rest[i] == p;
                    assert(all[i] == p);
                }
                if all.contains(p) {
                    let i = choose|i: int| 0 <= i < all.len() && all[i] == p;
                    if i < rest.len() {
                        assert(rest[i] == p);
                    }
                }
            } else {
                if keeps(mode, toks, len, p) {
                    assert(all[all.len() - 1] == p);
                } else {
                    if all.contains(p) {
                        let i = choose|i: int| 0 <= i < all.len() && all[i] == p;
                        assert(rest[i] == p);
                    }
                }
            }
        }
    }
}

/// Law: an index filter keeps a subsequence of the elements: the kept
/// positions are increasing and in range, and a position is kept exactly when
/// the filter's mode says so for it.
pub proof fn law_index_filter_keeps_order(mode: IndexMode, toks: Seq<IndexToken>, len: int)
    requires
        len >= 0,
    ensures
        forall|i: int, j: int| 0 <= i < j < kept_positions(mode, toks, len, len).len() ==> kept_positions(mode, toks, len, len)[i] < kept_positions(mode, toks, len, len)[j],
        forall|i: int| 0 <= i < kept_positions(mode, toks, len, len).len() ==> 0 <= #[trigger] kept_positions(mode, toks, len, len)[i] < len,
        forall|p: int| 0 <= p < len ==> (keeps(mode, toks, len, p) <==> kept_positions(mode, toks, len, len).contains(p)),
{
    lemma_kept_positions_sorted(mode, toks, len, len);
}

proof fn lemma_select_exclude_count(toks: Seq<IndexToken>, len: int, upto: int)
    ensures
        kept_positions(IndexMode::Select, toks, len, upto).len() + kept_positions(
            IndexMode::Exclude,
            toks,
            len,
            upto,
        ).len() == if upto > 0 {
            upto
        } else {
            0
        },
    decreases upto,
{
    if upto > 0 {
        lemma_select_exclude_count(toks, len, upto - 1);
    }
}

/// Law: selecting and excluding with the same tokens split the elements:
/// together they keep as many elements as there are.
pub proof fn law_select_exclude_partition(toks: Seq<IndexToken>, len: int)
    requires
        len >= 0,
    ensures
        kept_positions(IndexMode::Select, toks, len, len).len() + kept_positions(
            IndexMode::Exclude,
            toks,
            len,
            len,
        ).len() == len,
        forall|p: int| 0 <= p < len ==> (kept_positions(IndexMode::Select, toks, len, len).contains(p)
            <==> !kept_positions(IndexMode::Exclude, toks, len, len).contains(p)),
{
    lemma_select_exclude_count(toks, len, len);
    lemma_kept_positions_sorted(IndexMode::Select, toks, len, len);
    lemma_kept_positions_sorted(IndexMode::Exclude, toks, len, len);
    assert forall|p: int| 0 <= p < len implies (kept_positions(IndexMode::Select, toks, len, len).contains(p)
        <==> !kept_positions(IndexMode::Exclude, toks, len, len).contains(p)) by {
        assert(keeps(IndexMode::Select, toks, len, p) <==> kept_positions(IndexMode::Select, toks, len, len).contains(p));
        assert(keeps(IndexMode::Exclude, toks, len, p) <==> kept_positions(IndexMode::Exclude, toks, len, len).contains(p));
    }
}

} // verus!
