//! Character-level text utilities shared by the rule parsers.
//!
//! Strings are modelled by their `Seq<char>` view; the executable helpers work
//! on `Vec<char>` so that indexing is by character.
use vstd::prelude::*;

verus! {

/// The characters of a string slice, in order.
#[verifier::external_body]
pub(crate) fn chars_of(s: &str) -> (v: Vec<char>)
    ensures
        v@ == s@,
{
    s.chars().collect()
}

/// A string made of the given characters.
#[verifier::external_body]
pub(crate) fn string_of(v: &[char]) -> (s: String)
    ensures
        s@ == v@,
{
    v.iter().collect()
}

/// Appends one character to a string (`String::push`).
#[verifier::external_body]
pub(crate) fn push_char(s: &mut String, c: char)
    ensures
        final(s)@ == old(s)@.push(c),
{
    s.push(c)
}

/// The view of an optional string.
pub open spec fn opt_str(o: Option<String>) -> Option<Seq<char>> {
    match o {
        Some(s) => Some(s@),
        None => None,
    }
}

/// The view of an optional pair of strings.
pub open spec fn opt_pair(o: Option<(String, String)>) -> Option<(Seq<char>, Seq<char>)> {
    match o {
        Some(p) => Some((p.0@, p.1@)),
        None => None,
    }
}

/// `String::from_utf8(bytes).ok()`: the text when the bytes are valid UTF-8.
#[verifier::external_body]
pub(crate) fn utf8_to_string(bytes: &[u8]) -> (r: Option<String>)
    ensures
        r is Some <==> vstd::utf8::valid_utf8(bytes@),
        r matches Some(t) ==> t@ == vstd::utf8::decode_utf8(bytes@),
{
    String::from_utf8(bytes.to_vec()).ok()
}

/// What `char::is_alphanumeric` answers for `c` (Unicode `Alphabetic` or `Numeric`).
pub uninterp spec fn unicode_alphanumeric(c: char) -> bool;

/// `char::is_alphanumeric`.
#[verifier::external_body]
pub(crate) fn is_alphanumeric(c: char) -> (b: bool)
    ensures
        b == unicode_alphanumeric(c),
{
    c.is_alphanumeric()
}

/// ASCII lowercase of one character.
pub open spec fn lower_char(c: char) -> char {
    if 'A' <= c && c <= 'Z' {
        ((c as u32) + 32) as char
    } else {
        c
    }
}

/// ASCII lowercase of a text (other characters unchanged).
pub open spec fn ascii_lower(s: Seq<char>) -> Seq<char> {
    s.map_values(|c: char| lower_char(c))
}

pub fn to_ascii_lower(s: &[char]) -> (r: Vec<char>)
    ensures
        r@ == ascii_lower(s@),
{
    let mut r: Vec<char> = Vec::new();
    let mut i: usize = 0;
    while i < s.len()
        invariant
            i <= s@.len(),
            r@ == ascii_lower(s@.take(i as int)),
        decreases s@.len() - i,
    {
        let c = s[i];
        let l = if 'A' <= c && c <= 'Z' {
            char_from_u32(c as u32 + 32)
        } else {
            c
        };
        r.push(l);
        i = i + 1;
        proof {
            assert(r@ =~= ascii_lower(s@.take(i as int)));
        }
    }
    proof {
        assert(s@.take(i as int) =~= s@);
    }
    r
}

/// The character with code point `u` (an ASCII letter here).
#[verifier::external_body]
fn char_from_u32(u: u32) -> (c: char)
    requires
        0x41 + 32 <= u <= 0x5A + 32,
    ensures
        c == u as char,
{
    char::from_u32(u).unwrap()
}

/// Unicode `White_Space`, the set that `char::is_whitespace` and `str::trim` use.
pub open spec fn is_ws(c: char) -> bool {
    let u = c as u32;
    ||| (9 <= u && u <= 13)
    ||| u == 32
    ||| u == 0x85
    ||| u == 0xa0
    ||| u == 0x1680
    ||| (0x2000 <= u && u <= 0x200a)
    ||| u == 0x2028
    ||| u == 0x2029
    ||| u == 0x202f
    ||| u == 0x205f
    ||| u == 0x3000
}

pub fn is_whitespace(c: char) -> (b: bool)
    ensures
        b == is_ws(c),
{
    let u = c as u32;
    (9 <= u && u <= 13) || u == 32 || u == 0x85 || u == 0xa0 || u == 0x1680 || (0x2000 <= u && u
        <= 0x200a) || u == 0x2028 || u == 0x2029 || u == 0x202f || u == 0x205f || u == 0x3000
}

/// ASCII decimal digit.
pub open spec fn is_digit(c: char) -> bool {
    '0' <= c && c <= '9'
}

/// ASCII punctuation, as `char::is_ascii_punctuation` defines it.
pub open spec fn is_ascii_punct(c: char) -> bool {
    ||| ('!' <= c && c <= '/')
    ||| (':' <= c && c <= '@')
    ||| ('[' <= c && c <= '`')
    ||| ('{' <= c && c <= '~')
}

/// Number of leading whitespace characters.
pub open spec fn lead_ws(s: Seq<char>) -> nat
    decreases s.len(),
{
    if s.len() > 0 && is_ws(s[0]) {
        1 + lead_ws(s.drop_first())
    } else {
        0
    }
}

/// Number of trailing whitespace characters.
pub open spec fn trail_ws(s: Seq<char>) -> nat
    decreases s.len(),
{
    if s.len() > 0 && is_ws(s.last()) {
        1 + trail_ws(s.drop_last())
    } else {
        0
    }
}

pub open spec fn trim_start(s: Seq<char>) -> Seq<char> {
    s.skip(lead_ws(s) as int)
}

pub open spec fn trim_end(s: Seq<char>) -> Seq<char> {
    s.take(s.len() - trail_ws(s))
}

/// `str::trim`: both ends stripped of whitespace.
pub open spec fn trim(s: Seq<char>) -> Seq<char> {
    trim_end(trim_start(s))
}

pub proof fn lemma_lead_ws_bounds(s: Seq<char>)
    ensures
        lead_ws(s) <= s.len(),
        forall|j: int| 0 <= j < lead_ws(s) ==> is_ws(#[trigger] s[j]),
        lead_ws(s) < s.len() ==> !is_ws(s[lead_ws(s) as int]),
    decreases s.len(),
{
    if s.len() > 0 && is_ws(s[0]) {
        lemma_lead_ws_bounds(s.drop_first());
        assert forall|j: int| 0 <= j < lead_ws(s) implies is_ws(#[trigger] s[j]) by {
            if j > 0 {
                assert(s[j] == s.drop_first()[j - 1]);
            }
        }
        if lead_ws(s) < s.len() {
            assert(s[lead_ws(s) as int] == s.drop_first()[lead_ws(s.drop_first()) as int]);
        }
    }
}

pub proof fn lemma_lead_ws_char(s: Seq<char>, i: int)
    requires
        0 <= i <= s.len(),
        forall|j: int| 0 <= j < i ==> is_ws(#[trigger] s[j]),
        i < s.len() ==> !is_ws(s[i]),
    ensures
        lead_ws(s) == i,
    decreases s.len(),
{
    if i > 0 {
        assert(is_ws(s[0]));
        assert forall|j: int| 0 <= j < i - 1 implies is_ws(#[trigger] s.drop_first()[j]) by {
            assert(s.drop_first()[j] == s[j + 1]);
        }
        if i - 1 < s.len() - 1 {
            assert(s.drop_first()[i - 1] == s[i]);
        }
        lemma_lead_ws_char(s.drop_first(), i - 1);
    }
}

pub proof fn lemma_trail_ws_char(s: Seq<char>, k: int)
    requires
        0 <= k <= s.len(),
        forall|j: int| k <= j < s.len() ==> is_ws(#[trigger] s[j]),
        k > 0 ==> !is_ws(s[k - 1]),
    ensures
        trail_ws(s) == s.len() - k,
    decreases s.len(),
{
    if k < s.len() {
        assert(is_ws(s.last()));
        assert forall|j: int| k <= j < s.len() - 1 implies is_ws(#[trigger] s.drop_last()[j]) by {
            assert(s.drop_last()[j] == s[j]);
        }
        if k > 0 {
            assert(s.drop_last()[k - 1] == s[k - 1]);
        }
        lemma_trail_ws_char(s.drop_last(), k);
    }
}

pub proof fn lemma_trail_ws_bounds(s: Seq<char>)
    ensures
        trail_ws(s) <= s.len(),
        forall|j: int| s.len() - trail_ws(s) <= j < s.len() ==> is_ws(#[trigger] s[j]),
        trail_ws(s) < s.len() ==> !is_ws(s[s.len() - trail_ws(s) - 1]),
    decreases s.len(),
{
    if s.len() > 0 && is_ws(s.last()) {
        lemma_trail_ws_bounds(s.drop_last());
        assert forall|j: int| s.len() - trail_ws(s) <= j < s.len() implies is_ws(#[trigger] s[j]) by {
            if j < s.len() - 1 {
                assert(s[j] == s.drop_last()[j]);
            }
        }
        if trail_ws(s) < s.len() {
            assert(s[s.len() - trail_ws(s) - 1] == s.drop_last()[s.drop_last().len() - trail_ws(
                s.drop_last(),
            ) - 1]);
        }
    }
}

/// The bounds `[start, end)` of `trim(s)` inside `s`.
pub fn trim_bounds(s: &[char]) -> (r: (usize, usize))
    ensures
        r.0 <= r.1 <= s@.len(),
        s@.subrange(r.0 as int, r.1 as int) == trim(s@),
        r.0 == lead_ws(s@),
{
    let n = s.len();
    let mut i: usize = 0;
    while i < n && is_whitespace(s[i])
        invariant
            i <= n,
            n == s@.len(),
            forall|j: int| 0 <= j < i ==> is_ws(#[trigger] s@[j]),
        decreases n - i,
    {
        i = i + 1;
    }
    proof {
        lemma_lead_ws_char(s@, i as int);
    }
    let mut k: usize = n;
    while k > i && is_whitespace(s[k - 1])
        invariant
            i <= k <= n,
            n == s@.len(),
            forall|j: int| k <= j < n ==> is_ws(#[trigger] s@[j]),
        decreases k,
    {
        k = k - 1;
    }
    proof {
        let t = s@.skip(i as int);
        assert forall|j: int| (k - i) <= j < t.len() implies is_ws(#[trigger] t[j]) by {
            assert(t[j] == s@[j + i]);
        }
        if k - i > 0 {
            assert(t[k - i - 1] == s@[k - 1]);
        }
        lemma_trail_ws_char(t, (k - i) as int);
        assert(trim(s@) =~= s@.subrange(i as int, k as int));
    }
    (i, k)
}

/// `str::trim` on a character vector.
pub fn trim_chars(s: &[char]) -> (t: Vec<char>)
    ensures
        t@ == trim(s@),
{
    let (a, b) = trim_bounds(s);
    slice_chars(s, a, b)
}

/// `str::trim` returning an owned string.
pub fn trim_str(s: &str) -> (t: String)
    ensures
        t@ == trim(s@),
{
    let v = chars_of(s);
    let t = trim_chars(&v);
    string_of(&t)
}

/// The characters `s[a..b]`.
pub fn slice_chars(s: &[char], a: usize, b: usize) -> (t: Vec<char>)
    requires
        a <= b <= s@.len(),
    ensures
        t@ == s@.subrange(a as int, b as int),
{
    let mut t: Vec<char> = Vec::new();
    let mut i = a;
    while i < b
        invariant
            a <= i <= b <= s@.len(),
            t@ == s@.subrange(a as int, i as int),
        decreases b - i,
    {
        t.push(s[i]);
        i = i + 1;
        proof {
            assert(t@ =~= s@.subrange(a as int, i as int));
        }
    }
    t
}

/// `p` occurs in `s` at position `i`.
pub open spec fn matches_at(s: Seq<char>, p: Seq<char>, i: int) -> bool {
    0 <= i && i + p.len() <= s.len() && s.subrange(i, i + p.len()) == p
}

pub open spec fn starts_with(s: Seq<char>, p: Seq<char>) -> bool {
    matches_at(s, p, 0)
}

pub open spec fn ends_with(s: Seq<char>, p: Seq<char>) -> bool {
    matches_at(s, p, s.len() - p.len())
}

/// First position at or after `i` where `p` occurs in `s`.
pub open spec fn find_from(s: Seq<char>, p: Seq<char>, i: int) -> Option<int>
    decreases s.len() + 1 - i,
{
    if i < 0 || i > s.len() || i + p.len() > s.len() {
        None
    } else if matches_at(s, p, i) {
        Some(i)
    } else {
        find_from(s, p, i + 1)
    }
}

/// `str::find`: first position where `p` occurs in `s`.
pub open spec fn find(s: Seq<char>, p: Seq<char>) -> Option<int> {
    find_from(s, p, 0)
}

pub open spec fn contains(s: Seq<char>, p: Seq<char>) -> bool {
    find(s, p) is Some
}

pub proof fn lemma_find_from(s: Seq<char>, p: Seq<char>, i: int)
    requires
        0 <= i,
    ensures
        match find_from(s, p, i) {
            Some(k) => i <= k && matches_at(s, p, k) && forall|j: int|
                i <= j < k ==> !matches_at(s, p, j),
            None => forall|j: int| i <= j ==> !matches_at(s, p, j),
        },
    decreases s.len() + 1 - i,
{
    if i > s.len() || i + p.len() > s.len() {
    } else if matches_at(s, p, i) {
    } else {
        lemma_find_from(s, p, i + 1);
    }
}

/// Checks whether `p` occurs in `s` at position `i`.
pub fn match_at(s: &[char], p: &[char], i: usize) -> (b: bool)
    ensures
        b == matches_at(s@, p@, i as int),
{
    let n = s.len();
    if i > n || p.len() > n - i {
        return false;
    }
    let mut j: usize = 0;
    while j < p.len()
        invariant
            s@.len() <= usize::MAX,
            i + p@.len() <= s@.len(),
            j <= p@.len(),
            forall|k: int| 0 <= k < j ==> s@[i + k] == p@[k],
        decreases p@.len() - j,
    {
        if s[i + j] != p[j] {
            proof {
                assert(s@.subrange(i as int, i + p@.len())[j as int] == s@[i + j]);
            }
            return false;
        }
        j = j + 1;
    }
    proof {
        assert(s@.subrange(i as int, i + p@.len()) =~= p@);
    }
    true
}

/// `str::find` by characters, searching from position `from`.
pub fn find_chars_from(s: &[char], p: &[char], from: usize) -> (r: Option<usize>)
    ensures
        match r {
            Some(k) => find_from(s@, p@, from as int) == Some(k as int),
            None => find_from(s@, p@, from as int) is None,
        },
{
    let n = s.len();
    if from > n || p.len() > n - from {
        return None;
    }
    let last = n - p.len();
    let mut i = from;
    loop
        invariant
            from <= i <= last,
            last + p@.len() == s@.len(),
            find_from(s@, p@, from as int) == find_from(s@, p@, i as int),
        decreases last - i,
    {
        if match_at(s, p, i) {
            return Some(i);
        }
        if i >= last {
            proof {
                assert(find_from(s@, p@, i + 1) is None);
            }
            return None;
        }
        i = i + 1;
    }
}

/// `str::find` by characters.
pub fn find_chars(s: &[char], p: &[char]) -> (r: Option<usize>)
    ensures
        match r {
            Some(k) => find(s@, p@) == Some(k as int),
            None => find(s@, p@) is None,
        },
{
    find_chars_from(s, p, 0)
}

pub fn starts_with_chars(s: &[char], p: &[char]) -> (b: bool)
    ensures
        b == starts_with(s@, p@),
{
    match_at(s, p, 0)
}

pub fn ends_with_chars(s: &[char], p: &[char]) -> (b: bool)
    ensures
        b == ends_with(s@, p@),
{
    if p.len() > s.len() {
        false
    } else {
        match_at(s, p, s.len() - p.len())
    }
}

/// `str::split_once`: the text before and after the first occurrence of `p`.
pub open spec fn split_once(s: Seq<char>, p: Seq<char>) -> Option<(Seq<char>, Seq<char>)> {
    match find(s, p) {
        Some(i) => Some((s.take(i), s.skip(i + p.len()))),
        None => None,
    }
}

pub fn split_once_chars(s: &[char], p: &[char]) -> (r: Option<(Vec<char>, Vec<char>)>)
    ensures
        match r {
            Some((a, b)) => split_once(s@, p@) == Some((a@, b@)),
            None => split_once(s@, p@) is None,
        },
{
    match find_chars(s, p) {
        Some(i) => {
            proof {
                lemma_find_from(s@, p@, 0);
            }
            let n = s.len();
            let a = slice_chars(s, 0, i);
            let b = slice_chars(s, i + p.len(), n);
            proof {
                assert(a@ =~= s@.take(i as int));
                assert(b@ =~= s@.skip(i + p@.len()));
            }
            Some((a, b))
        },
        None => None,
    }
}

/// `str::replace`: every non-overlapping occurrence of `from`, left to right,
/// replaced by `to`.
pub open spec fn replace_all(s: Seq<char>, from: Seq<char>, to: Seq<char>) -> Seq<char>
    decreases s.len(),
{
    if from.len() == 0 {
        s
    } else {
        match find(s, from) {
            Some(i) => if 0 <= i && i + from.len() <= s.len() {
                s.take(i) + to + replace_all(s.skip(i + from.len()), from, to)
            } else {
                s
            },
            None => s,
        }
    }
}

pub proof fn lemma_find_from_shift(s: Seq<char>, p: Seq<char>, a: int, i: int)
    requires
        0 <= a <= i,
        a <= s.len(),
    ensures
        find_from(s.skip(a), p, i - a) == match find_from(s, p, i) {
            Some(k) => Some(k - a),
            None => None::<int>,
        },
    decreases s.len() + 1 - i,
{
    if i > s.len() || i + p.len() > s.len() {
    } else {
        assert(matches_at(s.skip(a), p, i - a) == matches_at(s, p, i)) by {
            if i + p.len() <= s.len() {
                assert(s.skip(a).subrange(i - a, i - a + p.len()) =~= s.subrange(i, i + p.len()));
            }
        }
        if !matches_at(s, p, i) {
            lemma_find_from_shift(s, p, a, i + 1);
        }
    }
}

/// Replaces every occurrence of a non-empty pattern.
pub fn replace_chars(s: &[char], from: &[char], to: &[char]) -> (r: Vec<char>)
    requires
        from@.len() > 0,
    ensures
        r@ == replace_all(s@, from@, to@),
{
    let mut out: Vec<char> = Vec::new();
    let mut pos: usize = 0;
    proof {
        assert(s@.skip(0) =~= s@);
        assert(out@ + replace_all(s@.skip(0), from@, to@) =~= replace_all(s@, from@, to@));
    }
    while pos <= s.len()
        invariant
            pos <= s@.len(),
            from@.len() > 0,
            out@ + replace_all(s@.skip(pos as int), from@, to@) == replace_all(s@, from@, to@),
        decreases s@.len() - pos,
    {
        match find_chars_from(s, from, pos) {
            None => {
                proof {
                    lemma_find_from_shift(s@, from@, pos as int, pos as int);
                    assert(find(s@.skip(pos as int), from@) is None);
                }
                let rest = slice_chars(s, pos, s.len());
                proof {
                    assert(rest@ =~= s@.skip(pos as int));
                }
                let mut out2 = out;
                append_chars(&mut out2, &rest);
                return out2;
            },
            Some(k) => {
                proof {
                    lemma_find_from_shift(s@, from@, pos as int, pos as int);
                    lemma_find_from(s@, from@, pos as int);
                    let t = s@.skip(pos as int);
                    assert(find(t, from@) == Some(k - pos));
                    assert(t.take(k - pos) =~= s@.subrange(pos as int, k as int));
                    assert(t.skip(k - pos + from@.len()) =~= s@.skip(k + from@.len()));
                }
                let mid = slice_chars(s, pos, k);
                append_chars(&mut out, &mid);
                append_chars(&mut out, to);
                proof {
                    assert(out@ + replace_all(s@.skip(k + from@.len()), from@, to@) =~= replace_all(
                        s@,
                        from@,
                        to@,
                    ));
                }
                pos = k + from.len();
            },
        }
    }
    out
}

/// Appends the characters of `t` to `v`.
pub fn append_chars(v: &mut Vec<char>, t: &[char])
    ensures
        final(v)@ == old(v)@ + t@,
{
    let mut i: usize = 0;
    while i < t.len()
        invariant
            i <= t@.len(),
            v@ == old(v)@ + t@.take(i as int),
        decreases t@.len() - i,
    {
        v.push(t[i]);
        i = i + 1;
        proof {
            assert(v@ =~= old(v)@ + t@.take(i as int));
        }
    }
    proof {
        assert(t@.take(i as int) =~= t@);
    }
}

/// `str::replace` on strings, for a non-empty pattern.
pub fn replace_str(s: &str, from: &str, to: &str) -> (r: String)
    requires
        from@.len() > 0,
    ensures
        r@ == replace_all(s@, from@, to@),
{
    let sv = chars_of(s);
    let fv = chars_of(from);
    let tv = chars_of(to);
    let r = replace_chars(&sv, &fv, &tv);
    string_of(&r)
}

/// Whether `p` occurs in `s`.
pub fn contains_str(s: &str, p: &str) -> (b: bool)
    ensures
        b == contains(s@, p@),
{
    let sv = chars_of(s);
    let pv = chars_of(p);
    find_chars(&sv, &pv).is_some()
}

pub fn starts_with_str(s: &str, p: &str) -> (b: bool)
    ensures
        b == starts_with(s@, p@),
{
    let sv = chars_of(s);
    let pv = chars_of(p);
    starts_with_chars(&sv, &pv)
}

/// Two strings hold the same characters.
pub fn str_eq(a: &str, b: &str) -> (r: bool)
    ensures
        r == (a@ == b@),
{
    let av = chars_of(a);
    let bv = chars_of(b);
    if av.len() != bv.len() {
        proof {
            assert(av@.len() != bv@.len());
        }
        return false;
    }
    let mut i: usize = 0;
    while i < av.len()
        invariant
            av@ == a@,
            bv@ == b@,
            av@.len() == bv@.len(),
            i <= av@.len(),
            forall|k: int| 0 <= k < i ==> av@[k] == bv@[k],
        decreases av@.len() - i,
    {
        if av[i] != bv[i] {
            proof {
                assert(av@[i as int] != bv@[i as int]);
                assert(a@[i as int] != b@[i as int]);
            }
            return false;
        }
        i = i + 1;
    }
    proof {
        assert(av@ =~= bv@);
    }
    true
}

/// Parts joined by a separator.
pub open spec fn join_spec(parts: Seq<Seq<char>>, sep: Seq<char>) -> Seq<char>
    decreases parts.len(),
{
    if parts.len() == 0 {
        Seq::empty()
    } else if parts.len() == 1 {
        parts[0]
    } else {
        join_spec(parts.drop_last(), sep) + sep + parts.last()
    }
}

/// Joins character sequences with a separator.
pub fn join_chars(parts: &Vec<Vec<char>>, sep: &[char]) -> (r: Vec<char>)
    ensures
        r@ == join_spec(parts@.map_values(|p: Vec<char>| p@), sep@),
{
    let ghost ps = parts@.map_values(|p: Vec<char>| p@);
    let mut out: Vec<char> = Vec::new();
    let mut i: usize = 0;
    while i < parts.len()
        invariant
            i <= parts@.len(),
            ps == parts@.map_values(|p: Vec<char>| p@),
            out@ == join_spec(ps.take(i as int), sep@),
        decreases parts@.len() - i,
    {
        proof {
            assert(ps.take(i + 1).drop_last() =~= ps.take(i as int));
            assert(ps.take(i + 1).last() == parts@[i as int]@);
            if i == 0 {
                assert(ps.take(i as int) =~= Seq::<Seq<char>>::empty());
            }
        }
        if i > 0 {
            append_chars(&mut out, sep);
        }
        append_chars(&mut out, &parts[i]);
        proof {
            if i == 0 {
                assert(out@ =~= ps.take(1)[0]);
            }
        }
        i = i + 1;
    }
    proof {
        assert(ps.take(parts@.len() as int) =~= ps);
    }
    out
}

/// Trimming never lengthens a text.
pub proof fn lemma_trim_len(s: Seq<char>)
    ensures
        trim(s).len() <= s.len(),
{
    lemma_lead_ws_bounds(s);
    lemma_trail_ws_bounds(trim_start(s));
}

/// Both sides of a split at a non-empty separator are shorter than the text.
pub proof fn lemma_split_once_len(s: Seq<char>, p: Seq<char>)
    requires
        p.len() > 0,
    ensures
        split_once(s, p) matches Some((a, b)) ==> a.len() < s.len() && b.len() < s.len(),
{
    lemma_find_from(s, p, 0);
}

/// What a part of a text contains, the text contains.
pub proof fn lemma_contains_subrange(s: Seq<char>, a: int, b: int, p: Seq<char>)
    requires
        0 <= a <= b <= s.len(),
        contains(s.subrange(a, b), p),
    ensures
        contains(s, p),
{
    let sub = s.subrange(a, b);
    lemma_find_from(sub, p, 0);
    let k = find(sub, p)->0;
    assert(s.subrange(a + k, a + k + p.len()) =~= sub.subrange(k, k + p.len()));
    assert(matches_at(s, p, a + k));
    lemma_find_from(s, p, 0);
}

/// The trimmed text is a part of the text.
pub proof fn lemma_trim_subrange(s: Seq<char>)
    ensures
        0 <= lead_ws(s) <= lead_ws(s) + trim(s).len() <= s.len(),
        trim(s) =~= s.subrange(lead_ws(s) as int, (lead_ws(s) + trim(s).len()) as int),
{
    lemma_lead_ws_bounds(s);
    lemma_trail_ws_bounds(trim_start(s));
}

} // verus!
