//! Splitting a compound rule (`a && b`, `a || b`, `a %% b`) into its parts.
//!
//! An operator only splits the rule outside of `{...}` groups.
use vstd::prelude::*;
use crate::text::{chars_of, contains, contains_str, lead_ws, lemma_lead_ws_bounds, lemma_lead_ws_char, lemma_trail_ws_bounds, lemma_trail_ws_char, match_at, matches_at, string_of, trail_ws, trim, trim_chars};

verus! {

/// The operators of a rule, as character sequences.
pub open spec fn ops_view(ops: Seq<&str>) -> Seq<Seq<char>> {
    ops.map_values(|o: &str| o@)
}

/// Index of the first operator (in list order) that occurs in `s` at `i`.
pub open spec fn first_op_at(s: Seq<char>, ops: Seq<Seq<char>>, i: int, j: int) -> Option<int>
    decreases ops.len() - j,
{
    if j < 0 || j >= ops.len() {
        None
    } else if matches_at(s, ops[j], i) {
        Some(j)
    } else {
        first_op_at(s, ops, i, j + 1)
    }
}

/// Adds the finished piece `cur` to `acc`, trimmed, unless it is blank.
pub open spec fn flush(acc: Seq<Seq<char>>, cur: Seq<char>) -> Seq<Seq<char>> {
    if trim(cur).len() > 0 {
        acc.push(trim(cur))
    } else {
        acc
    }
}

/// Brace depth after reading `c` at depth `depth`.
pub open spec fn next_depth(c: char, depth: int) -> int {
    if c == '{' {
        depth + 1
    } else if c == '}' && depth > 0 {
        depth - 1
    } else {
        depth
    }
}

/// The scan of `s` from position `i`, with brace depth `depth`, the piece read
/// so far `cur` and the finished pieces `acc`.
pub open spec fn split_from(
    s: Seq<char>,
    ops: Seq<Seq<char>>,
    i: int,
    depth: int,
    cur: Seq<char>,
    acc: Seq<Seq<char>>,
) -> Seq<Seq<char>>
    decreases if i <= s.len() {
        s.len() - i
    } else {
        0
    },
{
    if i < 0 || i >= s.len() {
        flush(acc, cur)
    } else {
        let d = next_depth(s[i], depth);
        if d == 0 && first_op_at(s, ops, i, 0) is Some {
            let j = first_op_at(s, ops, i, 0)->0;
            let step = if ops[j].len() == 0 {
                1
            } else {
                ops[j].len() as int
            };
            split_from(s, ops, i + step, d, Seq::empty(), flush(acc, cur))
        } else {
            split_from(s, ops, i + 1, d, cur.push(s[i]), acc)
        }
    }
}

/// The pieces of rule `s` split at the operators `ops`.
pub open spec fn split_spec(s: Seq<char>, ops: Seq<Seq<char>>) -> Seq<Seq<char>> {
    split_from(s, ops, 0, 0, Seq::empty(), Seq::empty())
}

/// Every piece is non-empty and already trimmed.
pub open spec fn all_trimmed(parts: Seq<Seq<char>>) -> bool {
    forall|k: int| 0 <= k < parts.len() ==> #[trigger] parts[k].len() > 0 && trim(parts[k]) == parts[k]
}

pub proof fn lemma_trim_idempotent(s: Seq<char>)
    ensures
        trim(trim(s)) == trim(s),
{
    let a = lead_ws(s) as int;
    lemma_lead_ws_bounds(s);
    let u = s.skip(a);
    lemma_trail_ws_bounds(u);
    let t = trim(s);
    assert(t == u.take(u.len() - trail_ws(u)));
    if t.len() > 0 {
        assert(t[0] == s[a]);
        lemma_lead_ws_char(t, 0);
        assert(t[t.len() - 1] == u[u.len() - trail_ws(u) - 1]);
        lemma_trail_ws_char(t, t.len() as int);
    } else {
        lemma_lead_ws_char(t, 0);
        lemma_trail_ws_char(t, 0);
    }
    assert(trim(t) =~= t);
}

proof fn lemma_flush_trimmed(acc: Seq<Seq<char>>, cur: Seq<char>)
    requires
        all_trimmed(acc),
    ensures
        all_trimmed(flush(acc, cur)),
{
    lemma_trim_idempotent(cur);
    let r = flush(acc, cur);
    assert forall|k: int| 0 <= k < r.len() implies #[trigger] r[k].len() > 0 && trim(r[k]) == r[k] by {
        if k < acc.len() {
            assert(r[k] == acc[k]);
        }
    }
}

proof fn lemma_split_from_trimmed(
    s: Seq<char>,
    ops: Seq<Seq<char>>,
    i: int,
    depth: int,
    cur: Seq<char>,
    acc: Seq<Seq<char>>,
)
    requires
        all_trimmed(acc),
    ensures
        all_trimmed(split_from(s, ops, i, depth, cur, acc)),
    decreases if i <= s.len() {
        s.len() - i
    } else {
        0
    },
{
    if i < 0 || i >= s.len() {
        lemma_flush_trimmed(acc, cur);
    } else {
        let d = next_depth(s[i], depth);
        if d == 0 && first_op_at(s, ops, i, 0) is Some {
            let j = first_op_at(s, ops, i, 0)->0;
            let step = if ops[j].len() == 0 {
                1
            } else {
                ops[j].len() as int
            };
            lemma_flush_trimmed(acc, cur);
            lemma_split_from_trimmed(s, ops, i + step, d, Seq::empty(), flush(acc, cur));
        } else {
            lemma_split_from_trimmed(s, ops, i + 1, d, cur.push(s[i]), acc);
        }
    }
}

/// Law: every piece of a split rule is non-empty and trimmed.
pub proof fn law_split_pieces_trimmed(s: Seq<char>, ops: Seq<Seq<char>>)
    ensures
        all_trimmed(split_spec(s, ops)),
{
    lemma_split_from_trimmed(s, ops, 0, 0, Seq::empty(), Seq::empty());
}

proof fn lemma_first_op_none(s: Seq<char>, ops: Seq<Seq<char>>, i: int, j: int)
    requires
        0 <= j,
        forall|k: int| 0 <= k < ops.len() ==> !matches_at(s, #[trigger] ops[k], i),
    ensures
        first_op_at(s, ops, i, j) is None,
    decreases ops.len() - j,
{
    if j < ops.len() {
        lemma_first_op_none(s, ops, i, j + 1);
    }
}

proof fn lemma_split_no_op(
    s: Seq<char>,
    ops: Seq<Seq<char>>,
    i: int,
    depth: int,
    acc: Seq<Seq<char>>,
)
    requires
        0 <= i <= s.len(),
        forall|k: int, p: int| 0 <= k < ops.len() ==> !#[trigger] matches_at(s, ops[k], p),
    ensures
        split_from(s, ops, i, depth, s.take(i), acc) == flush(acc, s),
    decreases s.len() - i,
{
    if i >= s.len() {
        assert(s.take(i) =~= s);
    } else {
        lemma_first_op_none(s, ops, i, 0);
        assert(s.take(i).push(s[i]) =~= s.take(i + 1));
        lemma_split_no_op(s, ops, i + 1, next_depth(s[i], depth), acc);
    }
}

/// Law: a rule in which no operator occurs is one piece, the trimmed rule
/// (or no piece at all when it is blank).
pub proof fn law_split_without_operator(s: Seq<char>, ops: Seq<Seq<char>>)
    requires
        forall|k: int, p: int| 0 <= k < ops.len() ==> !#[trigger] matches_at(s, ops[k], p),
    ensures
        split_spec(s, ops) == flush(Seq::empty(), s),
{
    assert(s.take(0) =~= Seq::<char>::empty());
    lemma_split_no_op(s, ops, 0, 0, Seq::empty());
}

/// The operator list `ops` holds the character sequences `opv`.
pub open spec fn ops_match(ops: Seq<Vec<char>>, opv: Seq<Seq<char>>) -> bool {
    ops.len() == opv.len() && forall|t: int| 0 <= t < ops.len() ==> #[trigger] ops[t]@ == opv[t]
}

/// Converts the operator list to character vectors.
fn ops_chars(operators: &[&str]) -> (ops: Vec<Vec<char>>)
    ensures
        ops_match(ops@, ops_view(operators@)),
{
    let mut ops: Vec<Vec<char>> = Vec::new();
    let mut k: usize = 0;
    while k < operators.len()
        invariant
            k <= operators@.len(),
            ops@.len() == k,
            forall|t: int| 0 <= t < k ==> #[trigger] ops@[t]@ == operators@[t]@,
        decreases operators@.len() - k,
    {
        ops.push(chars_of(operators[k]));
        k = k + 1;
    }
    ops
}

/// The index of the first operator that occurs at `i`.
fn op_at(s: &[char], ops: &Vec<Vec<char>>, i: usize, Ghost(opv): Ghost<Seq<Seq<char>>>) -> (r: Option<usize>)
    requires
        ops_match(ops@, opv),
    ensures
        match r {
            Some(j) => first_op_at(s@, opv, i as int, 0) == Some(j as int) && j < ops@.len(),
            None => first_op_at(s@, opv, i as int, 0) is None,
        },
{
    let mut j: usize = 0;
    while j < ops.len()
        invariant
            j <= ops@.len(),
            ops_match(ops@, opv),
            first_op_at(s@, opv, i as int, 0) == first_op_at(s@, opv, i as int, j as int),
        decreases ops@.len() - j,
    {
        if match_at(s, &ops[j], i) {
            return Some(j);
        }
        j = j + 1;
    }
    None
}

/// Splits `rule` at each operator of `operators` that stands outside `{...}`;
/// the pieces are trimmed and blank ones are dropped.
pub fn split_rules(rule: &str, operators: &[&str]) -> (parts: Vec<String>)
    ensures
        parts@.map_values(|p: String| p@) == split_spec(rule@, ops_view(operators@)),
{
    let s = chars_of(rule);
    let ops = ops_chars(operators);
    let ghost opv = ops_view(operators@);
    let mut results: Vec<String> = Vec::new();
    let mut current: Vec<char> = Vec::new();
    let mut depth: usize = 0;
    let mut i: usize = 0;
    let n = s.len();
    proof {
        assert(current@ =~= Seq::<char>::empty());
        assert(results@.map_values(|p: String| p@) =~= Seq::<Seq<char>>::empty());
    }
    while i < n
        invariant
            n == s@.len(),
            s@ == rule@,
            i <= n,
            depth <= i,
            opv == ops_view(operators@),
            ops_match(ops@, opv),
            split_spec(s@, opv) == split_from(
                s@,
                opv,
                i as int,
                depth as int,
                current@,
                results@.map_values(|p: String| p@),
            ),
        decreases n - i,
    {
        let c = s[i];
        if c == '{' {
            depth = depth + 1;
        } else if c == '}' && depth > 0 {
            depth = depth - 1;
        }
        let found = if depth == 0 {
            op_at(&s, &ops, i, Ghost(opv))
        } else {
            None
        };
        match found {
            Some(j) => {
                let t = trim_chars(&current);
                let ghost old_results = results@.map_values(|p: String| p@);
                if t.len() > 0 {
                    results.push(string_of(&t));
                }
                proof {
                    assert(results@.map_values(|p: String| p@) =~= flush(old_results, current@));
                }
                current = Vec::new();
                let len = ops[j].len();
                proof {
                    assert(ops@[j as int]@ == opv[j as int]);
                    lemma_first_op_found(s@, opv, i as int, 0);
                }
                if len == 0 {
                    i = i + 1;
                } else {
                    i = i + len;
                }
            },
            None => {
                current.push(c);
                i = i + 1;
            },
        }
    }
    let t = trim_chars(&current);
    let ghost old_results = results@.map_values(|p: String| p@);
    if t.len() > 0 {
        results.push(string_of(&t));
    }
    proof {
        assert(results@.map_values(|p: String| p@) =~= flush(old_results, current@));
    }
    results
}

proof fn lemma_first_op_found(s: Seq<char>, ops: Seq<Seq<char>>, i: int, j: int)
    requires
        first_op_at(s, ops, i, j) is Some,
    ensures
        0 <= first_op_at(s, ops, i, j)->0 < ops.len(),
        matches_at(s, ops[first_op_at(s, ops, i, j)->0], i),
    decreases ops.len() - j,
{
    if j >= 0 && j < ops.len() && !matches_at(s, ops[j], i) {
        lemma_first_op_found(s, ops, i, j + 1);
    }
}

/// The first operator of `ops`, in list order, that occurs anywhere in `s`.
pub open spec fn detect_spec(s: Seq<char>, ops: Seq<Seq<char>>, j: int) -> Option<int>
    decreases ops.len() - j,
{
    if j < 0 || j >= ops.len() {
        None
    } else if contains(s, ops[j]) {
        Some(j)
    } else {
        detect_spec(s, ops, j + 1)
    }
}

/// The first operator of `operators`, in list order, that occurs in `rule`.
pub fn detect_operator<'a>(rule: &str, operators: &'a [&'a str]) -> (r: Option<&'a str>)
    ensures
        match detect_spec(rule@, ops_view(operators@), 0) {
            Some(j) => r == Some(operators@[j]),
            None => r is None,
        },
{
    let mut k: usize = 0;
    while k < operators.len()
        invariant
            k <= operators@.len(),
            detect_spec(rule@, ops_view(operators@), 0) == detect_spec(
                rule@,
                ops_view(operators@),
                k as int,
            ),
        decreases operators@.len() - k,
    {
        let op = operators[k];
        proof {
            assert(ops_view(operators@)[k as int] == op@);
        }
        if contains_str(rule, op) {
            return Some(op);
        }
        k = k + 1;
    }
    None
}

} // verus!
