//! Unix path names as `std::path::Path` reads them: file name, extension,
//! stem and joining.
use vstd::prelude::*;
use crate::text::{chars_of, slice_chars, string_of, starts_with};
use crate::index_rule::{rfind_char, split_seq, split_by_char};

verus! {

/// The normal components of a path: the `/`-separated parts that are neither
/// empty nor `.`.
pub open spec fn components(parts: Seq<Seq<char>>) -> Seq<Seq<char>>
    decreases parts.len(),
{
    if parts.len() == 0 {
        Seq::empty()
    } else {
        let rest = components(parts.drop_last());
        let p = parts.last();
        if p.len() == 0 || p == seq!['.'] {
            rest
        } else {
            rest.push(p)
        }
    }
}

/// `Path::file_name`: the last component, unless it is `..` or there is none.
pub open spec fn file_name_spec(path: Seq<char>) -> Option<Seq<char>> {
    let c = components(split_seq(path, '/'));
    if c.len() == 0 || c.last() == seq!['.', '.'] {
        None
    } else {
        Some(c.last())
    }
}

/// `Path::extension`: what follows the last `.` of the file name, unless that
/// `.` is its first character.
pub open spec fn extension_spec(path: Seq<char>) -> Option<Seq<char>> {
    match file_name_spec(path) {
        None => None,
        Some(name) => match rfind_char(name, '.') {
            Some(i) => if i > 0 {
                Some(name.skip(i + 1))
            } else {
                None
            },
            None => None,
        },
    }
}

/// `Path::file_stem`: the file name without its extension.
pub open spec fn file_stem_spec(path: Seq<char>) -> Option<Seq<char>> {
    match file_name_spec(path) {
        None => None,
        Some(name) => match rfind_char(name, '.') {
            Some(i) => if i > 0 {
                Some(name.take(i))
            } else {
                Some(name)
            },
            None => Some(name),
        },
    }
}

proof fn lemma_rfind_bounds(s: Seq<char>, c: char)
    ensures
        match rfind_char(s, c) {
            Some(i) => 0 <= i < s.len() && s[i] == c,
            None => forall|k: int| 0 <= k < s.len() ==> s[k] != c,
        },
    decreases s.len(),
{
    if s.len() > 0 && s.last() != c {
        lemma_rfind_bounds(s.drop_last(), c);
        assert forall|k: int| 0 <= k < s.len() - 1 implies s[k] == s.drop_last()[k] by {}
    }
}

fn rfind_dot(s: &[char]) -> (r: Option<usize>)
    ensures
        match r {
            Some(i) => rfind_char(s@, '.') == Some(i as int),
            None => rfind_char(s@, '.') is None,
        },
{
    let mut k = s.len();
    proof {
        assert(s@.take(k as int) =~= s@);
    }
    while k > 0
        invariant
            k <= s@.len(),
            rfind_char(s@, '.') == rfind_char(s@.take(k as int), '.'),
        decreases k,
    {
        proof {
            assert(s@.take(k as int).drop_last() =~= s@.take(k - 1));
        }
        if s[k - 1] == '.' {
            return Some(k - 1);
        }
        k = k - 1;
    }
    None
}

/// The file name of a path.
pub fn file_name(path: &str) -> (r: Option<Vec<char>>)
    ensures
        match r {
            Some(v) => file_name_spec(path@) == Some(v@),
            None => file_name_spec(path@) is None,
        },
{
    let s = chars_of(path);
    let parts = split_by_char(&s, '/');
    let ghost pv = parts@.map_values(|p: Vec<char>| p@);
    let mut last: Option<usize> = None;
    let mut k: usize = 0;
    while k < parts.len()
        invariant
            k <= parts@.len(),
            pv == parts@.map_values(|p: Vec<char>| p@),
            match last {
                Some(j) => j < k && components(pv.take(k as int)).len() > 0 && components(
                    pv.take(k as int),
                ).last() == pv[j as int],
                None => components(pv.take(k as int)).len() == 0,
            },
        decreases parts@.len() - k,
    {
        proof {
            assert(pv.take(k + 1).drop_last() =~= pv.take(k as int));
            assert(pv.take(k + 1).last() == parts@[k as int]@);
        }
        let p = &parts[k];
        if !(p.len() == 0 || (p.len() == 1 && p[0] == '.')) {
            last = Some(k);
        } else {
            proof {
                if p@.len() == 1 {
                    assert(p@ =~= seq!['.']);
                }
            }
        }
        proof {
            if p@.len() == 1 && p@[0] == '.' {
                assert(p@ =~= seq!['.']);
            }
        }
        k = k + 1;
    }
    proof {
        assert(pv.take(k as int) =~= pv);
    }
    match last {
        None => None,
        Some(j) => {
            let name = parts[j].clone();
            if name.len() == 2 && name[0] == '.' && name[1] == '.' {
                proof {
                    assert(name@ =~= seq!['.', '.']);
                }
                None
            } else {
                proof {
                    if name@.len() == 2 {
                        assert(name@ != seq!['.', '.']) by {
                            if name@ == seq!['.', '.'] {
                                assert(name@[0] == '.' && name@[1] == '.');
                            }
                        }
                    }
                }
                Some(name)
            }
        },
    }
}

/// The extension of a path.
pub fn extension(path: &str) -> (r: Option<Vec<char>>)
    ensures
        match r {
            Some(v) => extension_spec(path@) == Some(v@),
            None => extension_spec(path@) is None,
        },
{
    match file_name(path) {
        None => None,
        Some(name) => match rfind_dot(&name) {
            Some(i) => {
                proof {
                    lemma_rfind_bounds(name@, '.');
                }
                if i > 0 {
                    let e = slice_chars(&name, i + 1, name.len());
                    proof {
                        assert(e@ =~= name@.skip(i + 1));
                    }
                    Some(e)
                } else {
                    None
                }
            },
            None => None,
        },
    }
}

/// The file stem of a path.
pub fn file_stem(path: &str) -> (r: Option<Vec<char>>)
    ensures
        match r {
            Some(v) => file_stem_spec(path@) == Some(v@),
            None => file_stem_spec(path@) is None,
        },
{
    match file_name(path) {
        None => None,
        Some(name) => match rfind_dot(&name) {
            Some(i) => {
                proof {
                    lemma_rfind_bounds(name@, '.');
                }
                if i > 0 {
                    let e = slice_chars(&name, 0, i);
                    proof {
                        assert(e@ =~= name@.take(i as int));
                    }
                    Some(e)
                } else {
                    Some(name)
                }
            },
            None => Some(name),
        },
    }
}

/// `PathBuf::join` on Unix: an absolute `child` replaces the base; otherwise
/// the two are joined with one `/` (none added when the base is empty or
/// already ends with `/`).
pub open spec fn join_spec(base: Seq<char>, child: Seq<char>) -> Seq<char> {
    if starts_with(child, seq!['/']) {
        child
    } else if base.len() == 0 || base.last() == '/' {
        base + child
    } else {
        base + seq!['/'] + child
    }
}

pub fn join_path(base: &str, child: &str) -> (r: String)
    ensures
        r@ == join_spec(base@, child@),
{
    let b = chars_of(base);
    let c = chars_of(child);
    if c.len() > 0 && c[0] == '/' {
        proof {
            assert(c@.subrange(0, 1) =~= seq!['/']);
        }
        return string_of(&c);
    }
    proof {
        if c@.len() > 0 {
            assert(c@.subrange(0, 1)[0] == c@[0]);
        }
    }
    let mut out = b.clone();
    if !(b.len() == 0 || b[b.len() - 1] == '/') {
        out.push('/');
    }
    let mut i: usize = 0;
    let ghost start = out@;
    while i < c.len()
        invariant
            i <= c@.len(),
            out@ == start + c@.take(i as int),
        decreases c@.len() - i,
    {
        out.push(c[i]);
        i = i + 1;
        proof {
            assert(out@ =~= start + c@.take(i as int));
        }
    }
    proof {
        assert(c@.take(i as int) =~= c@);
        assert(b@ + seq!['/'] + c@ =~= start + c@ || start =~= b@);
    }
    string_of(&out)
}

} // verus!
