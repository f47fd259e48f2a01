//! Decimal integer parsing with the rules of Rust's `FromStr` for integers.
use vstd::prelude::*;
use crate::text::is_digit;

verus! {

/// Value of a string of decimal digits.
pub open spec fn digits_value(s: Seq<char>) -> int
    decreases s.len(),
{
    if s.len() == 0 {
        0
    } else {
        digits_value(s.drop_last()) * 10 + (s.last() as int - '0' as int)
    }
}

pub open spec fn all_digits(s: Seq<char>) -> bool {
    forall|i: int| 0 <= i < s.len() ==> is_digit(#[trigger] s[i])
}

/// `FromStr` for integers: an optional sign (`-` only for signed types), then
/// at least one decimal digit and nothing else.
pub open spec fn parse_int_spec(s: Seq<char>, signed: bool) -> Option<int> {
    if s.len() > 0 && (s[0] == '+' || (signed && s[0] == '-')) {
        let d = s.drop_first();
        if d.len() > 0 && all_digits(d) {
            Some(
                if s[0] == '-' {
                    -digits_value(d)
                } else {
                    digits_value(d)
                },
            )
        } else {
            None
        }
    } else if s.len() > 0 && all_digits(s) {
        Some(digits_value(s))
    } else {
        None
    }
}

/// The parsed value, when it lies in `[lo, hi]`.
pub open spec fn parse_in(s: Seq<char>, signed: bool, lo: int, hi: int) -> Option<int> {
    match parse_int_spec(s, signed) {
        Some(v) => if lo <= v && v <= hi {
            Some(v)
        } else {
            None
        },
        None => None,
    }
}

pub open spec fn parse_i32_spec(s: Seq<char>) -> Option<i32> {
    match parse_in(s, true, i32::MIN as int, i32::MAX as int) {
        Some(v) => Some(v as i32),
        None => None,
    }
}

pub open spec fn parse_u32_spec(s: Seq<char>) -> Option<u32> {
    match parse_in(s, false, 0, u32::MAX as int) {
        Some(v) => Some(v as u32),
        None => None,
    }
}

pub open spec fn parse_i64_spec(s: Seq<char>) -> Option<i64> {
    match parse_in(s, true, i64::MIN as int, i64::MAX as int) {
        Some(v) => Some(v as i64),
        None => None,
    }
}

pub open spec fn parse_u64_spec(s: Seq<char>) -> Option<u64> {
    match parse_in(s, false, 0, u64::MAX as int) {
        Some(v) => Some(v as u64),
        None => None,
    }
}

proof fn lemma_digits_nonneg(s: Seq<char>)
    requires
        all_digits(s),
    ensures
        digits_value(s) >= 0,
    decreases s.len(),
{
    if s.len() > 0 {
        assert(is_digit(s[s.len() - 1]));
        lemma_digits_nonneg(s.drop_last());
    }
}

/// Value of the digits in `s`, or `None` when `s` is not all digits or the
/// value exceeds `cap`.
fn digits_upto(s: &[char], from: usize, cap: u128) -> (r: Option<u128>)
    requires
        from <= s@.len(),
        cap <= 0x1_0000_0000_0000_0000,
    ensures
        match r {
            Some(v) => all_digits(s@.skip(from as int)) && v == digits_value(s@.skip(from as int))
                && v <= cap,
            None => !all_digits(s@.skip(from as int)) || digits_value(s@.skip(from as int)) > cap,
        },
{
    let n = s.len();
    let mut i = from;
    let mut v: u128 = 0;
    let mut over = false;
    while i < n
        invariant
            from <= i <= n,
            n == s@.len(),
            cap <= 0x1_0000_0000_0000_0000,
            all_digits(s@.subrange(from as int, i as int)),
            !over ==> v == digits_value(s@.subrange(from as int, i as int)) && v <= cap,
            over ==> digits_value(s@.subrange(from as int, i as int)) > cap,
        decreases n - i,
    {
        let c = s[i];
        if !('0' <= c && c <= '9') {
            proof {
                assert(s@.skip(from as int)[i - from] == c);
            }
            return None;
        }
        let ghost prev = s@.subrange(from as int, i as int);
        proof {
            assert(s@.subrange(from as int, i + 1).drop_last() =~= prev);
            assert(all_digits(s@.subrange(from as int, i + 1)));
            lemma_digits_nonneg(prev);
        }
        if !over {
            let d = (c as u32 - '0' as u32) as u128;
            let nv = v * 10 + d;
            if nv > cap {
                over = true;
            } else {
                v = nv;
            }
        }
        i = i + 1;
    }
    proof {
        assert(s@.subrange(from as int, n as int) =~= s@.skip(from as int));
    }
    if over {
        None
    } else {
        Some(v)
    }
}

/// `FromStr` for an integer type whose range is `[lo, hi]`.
pub fn parse_int_in(s: &[char], signed: bool, lo: i128, hi: i128) -> (r: Option<i128>)
    requires
        -0x1_0000_0000_0000_0000 <= lo,
        hi <= 0x1_0000_0000_0000_0000,
    ensures
        match r {
            Some(v) => parse_in(s@, signed, lo as int, hi as int) == Some(v as int),
            None => parse_in(s@, signed, lo as int, hi as int) is None,
        },
{
    let n = s.len();
    if n == 0 {
        return None;
    }
    let c0 = s[0];
    if c0 == '+' || (signed && c0 == '-') {
        proof {
            assert(s@.skip(1) =~= s@.drop_first());
        }
        if n == 1 {
            return None;
        }
        match digits_upto(s, 1, 0x1_0000_0000_0000_0000) {
            None => None,
            Some(m) => {
                let v: i128 = if c0 == '-' {
                    -(m as i128)
                } else {
                    m as i128
                };
                if lo <= v && v <= hi {
                    Some(v)
                } else {
                    None
                }
            },
        }
    } else {
        proof {
            assert(s@.skip(0) =~= s@);
        }
        match digits_upto(s, 0, 0x1_0000_0000_0000_0000) {
            None => None,
            Some(m) => {
                let v = m as i128;
                if lo <= v && v <= hi {
                    Some(v)
                } else {
                    None
                }
            },
        }
    }
}

/// `str::parse::<i32>()`.
pub fn parse_i32(s: &[char]) -> (r: Option<i32>)
    ensures
        r == parse_i32_spec(s@),
{
    match parse_int_in(s, true, i32::MIN as i128, i32::MAX as i128) {
        Some(v) => Some(v as i32),
        None => None,
    }
}

/// `str::parse::<u32>()`.
pub fn parse_u32(s: &[char]) -> (r: Option<u32>)
    ensures
        r == parse_u32_spec(s@),
{
    match parse_int_in(s, false, 0, u32::MAX as i128) {
        Some(v) => Some(v as u32),
        None => None,
    }
}

/// `str::parse::<i64>()`.
pub fn parse_i64(s: &[char]) -> (r: Option<i64>)
    ensures
        r == parse_i64_spec(s@),
{
    match parse_int_in(s, true, i64::MIN as i128, i64::MAX as i128) {
        Some(v) => Some(v as i64),
        None => None,
    }
}

/// `str::parse::<u64>()` (also used for `usize` on 64-bit targets).
pub fn parse_u64(s: &[char]) -> (r: Option<u64>)
    ensures
        r == parse_u64_spec(s@),
{
    match parse_int_in(s, false, 0, u64::MAX as i128) {
        Some(v) => Some(v as u64),
        None => None,
    }
}

pub open spec fn parse_usize_spec(s: Seq<char>) -> Option<usize> {
    match parse_in(s, false, 0, usize::MAX as int) {
        Some(v) => Some(v as usize),
        None => None,
    }
}

/// `str::parse::<usize>()`.
pub fn parse_usize(s: &[char]) -> (r: Option<usize>)
    ensures
        r == parse_usize_spec(s@),
{
    match parse_int_in(s, false, 0, usize::MAX as i128) {
        Some(v) => Some(v as usize),
        None => None,
    }
}

/// The decimal digit character for `d < 10`.
pub open spec fn digit_char(d: int) -> char {
    ('0' as int + d) as char
}

/// Decimal notation of `n`, without leading zeros.
pub open spec fn dec_digits(n: nat) -> Seq<char>
    decreases n,
{
    if n < 10 {
        seq![digit_char(n as int)]
    } else {
        dec_digits(n / 10).push(digit_char((n % 10) as int))
    }
}

/// Lowercase hexadecimal notation of `n`, without leading zeros.
pub open spec fn hex_digits(n: nat) -> Seq<char>
    decreases n,
{
    if n < 16 {
        seq![hex_char(n as int)]
    } else {
        hex_digits(n / 16).push(hex_char((n % 16) as int))
    }
}

pub open spec fn hex_char(d: int) -> char {
    if d < 10 {
        ('0' as int + d) as char
    } else {
        ('a' as int + d - 10) as char
    }
}

fn digit_of(d: u64) -> (c: char)
    requires
        d < 16,
    ensures
        c == hex_char(d as int),
        d < 10 ==> c == digit_char(d as int),
{
    let cs = ['0', '1', '2', '3', '4', '5', '6', '7', '8', '9', 'a', 'b', 'c', 'd', 'e', 'f'];
    proof {
        assert(cs@[d as int] == hex_char(d as int));
    }
    cs[d as usize]
}

/// Decimal notation of `n` as characters.
pub fn dec_chars(n: u64) -> (v: Vec<char>)
    ensures
        v@ == dec_digits(n as nat),
    decreases n,
{
    if n < 10 {
        vec![digit_of(n)]
    } else {
        let mut v = dec_chars(n / 10);
        v.push(digit_of(n % 10));
        v
    }
}

/// Hexadecimal notation of `n` as characters.
pub fn hex_chars(n: u64) -> (v: Vec<char>)
    ensures
        v@ == hex_digits(n as nat),
    decreases n,
{
    if n < 16 {
        vec![digit_of(n)]
    } else {
        let mut v = hex_chars(n / 16);
        v.push(digit_of(n % 16));
        v
    }
}

} // verus!
