//! HTTP client settings derived from a book source, the key under which a
//! built client is shared, and the least-recently-used cache of clients.
use vstd::prelude::*;
use std::collections::VecDeque;
use vstd::relations::{sorted_by, total_ordering};
use crate::text::{append_chars, chars_of, join_chars, join_spec, str_eq, string_of};
use crate::num::{dec_chars, dec_digits, parse_usize, parse_usize_spec};
use crate::json::{fields_view, json_items, json_valid, parse_json_doc, top_level_items, JsonLeaf, JsonScalar};
use crate::models::{BookSource, HttpClientConfig};

verus! {

/// How many built clients are kept at most.
pub const CLIENT_CACHE_CAPACITY: usize = 16;

/// No two entries share a key.
pub open spec fn distinct_keys<V>(s: Seq<(Seq<char>, V)>) -> bool {
    forall|i: int, j: int| 0 <= i < j < s.len() ==> s[i].0 != s[j].0
}

/// A cache state: at most the capacity, each key once.
pub open spec fn cache_wf<V>(s: Seq<(Seq<char>, V)>) -> bool {
    s.len() <= CLIENT_CACHE_CAPACITY && distinct_keys(s)
}

/// Some entry has the key.
pub open spec fn has_key<V>(s: Seq<(Seq<char>, V)>, k: Seq<char>) -> bool {
    exists|i: int| 0 <= i < s.len() && #[trigger] s[i].0 == k
}

/// The position of the entry with the key.
pub open spec fn key_index<V>(s: Seq<(Seq<char>, V)>, k: Seq<char>) -> int {
    choose|i: int| 0 <= i < s.len() && #[trigger] s[i].0 == k
}

/// The value stored under a key.
pub open spec fn lookup<V>(s: Seq<(Seq<char>, V)>, k: Seq<char>) -> Option<V> {
    if has_key(s, k) {
        Some(s[key_index(s, k)].1)
    } else {
        None
    }
}

/// The state after a lookup: a found entry becomes the most recently used.
pub open spec fn touched<V>(s: Seq<(Seq<char>, V)>, k: Seq<char>) -> Seq<(Seq<char>, V)> {
    if has_key(s, k) {
        let i = key_index(s, k);
        s.remove(i).push(s[i])
    } else {
        s
    }
}

/// The state after storing a value: a present key is replaced and becomes
/// the most recently used; a new key in a full cache evicts the least
/// recently used entry first.
pub open spec fn inserted<V>(s: Seq<(Seq<char>, V)>, k: Seq<char>, v: V) -> Seq<(Seq<char>, V)> {
    if has_key(s, k) {
        s.remove(key_index(s, k)).push((k, v))
    } else if s.len() >= CLIENT_CACHE_CAPACITY {
        s.remove(0).push((k, v))
    } else {
        s.push((k, v))
    }
}

/// In a state with distinct keys, the entry at `i` is the one found by its key.
pub proof fn lemma_key_index<V>(s: Seq<(Seq<char>, V)>, i: int)
    requires
        distinct_keys(s),
        0 <= i < s.len(),
    ensures
        has_key(s, s[i].0),
        key_index(s, s[i].0) == i,
        lookup(s, s[i].0) == Some(s[i].1),
{
    assert(s[i].0 == s[i].0);
    let j = key_index(s, s[i].0);
    assert(0 <= j < s.len() && s[j].0 == s[i].0);
}

/// Removing an entry and appending one with a fresh key keeps keys distinct.
proof fn lemma_remove_push_distinct<V>(s: Seq<(Seq<char>, V)>, i: int, e: (Seq<char>, V))
    requires
        distinct_keys(s),
        0 <= i < s.len(),
        forall|j: int| 0 <= j < s.len() && j != i ==> s[j].0 != e.0,
    ensures
        distinct_keys(s.remove(i).push(e)),
{
    let t = s.remove(i).push(e);
    assert forall|a: int, b: int| 0 <= a < b < t.len() implies t[a].0 != t[b].0 by {
        let sa = if a < i { a } else { a + 1 };
        if b == t.len() - 1 {
            assert(t[a] == s[sa]);
        } else {
            let sb = if b < i { b } else { b + 1 };
            assert(t[a] == s[sa]);
            assert(t[b] == s[sb]);
        }
    }
}

/// Lookups after an entry is taken out and another appended.
proof fn lemma_lookup_remove_push<V>(s: Seq<(Seq<char>, V)>, i: int, e: (Seq<char>, V), k: Seq<char>)
    requires
        distinct_keys(s),
        0 <= i < s.len(),
        distinct_keys(s.remove(i).push(e)),
    ensures
        lookup(s.remove(i).push(e), k) == (if k == e.0 {
            Some(e.1)
        } else if k == s[i].0 {
            None
        } else {
            lookup(s, k)
        }),
{
    let t = s.remove(i).push(e);
    if k == e.0 {
        lemma_key_index(t, t.len() - 1);
    } else if has_key(s, k) {
        let j = key_index(s, k);
        if j == i {
            assert forall|a: int| 0 <= a < t.len() implies t[a].0 != k by {
                if a < t.len() - 1 {
                    let sa = if a < i { a } else { a + 1 };
                    assert(t[a] == s[sa]);
                }
            }
        } else {
            let jt = if j < i { j } else { j - 1 };
            assert(t[jt] == s[j]);
            lemma_key_index(t, jt);
        }
    } else {
        assert forall|a: int| 0 <= a < t.len() implies t[a].0 != k by {
            if a < t.len() - 1 {
                let sa = if a < i { a } else { a + 1 };
                assert(t[a] == s[sa]);
                if s[sa].0 == k {
                    assert(has_key(s, k));
                }
            }
        }
    }
}

/// Lookups after an entry with a new key is appended.
proof fn lemma_lookup_push<V>(s: Seq<(Seq<char>, V)>, e: (Seq<char>, V), k: Seq<char>)
    requires
        distinct_keys(s.push(e)),
    ensures
        lookup(s.push(e), k) == (if k == e.0 {
            Some(e.1)
        } else {
            lookup(s, k)
        }),
{
    let t = s.push(e);
    if k == e.0 {
        lemma_key_index(t, t.len() - 1);
    } else if has_key(s, k) {
        let j = key_index(s, k);
        assert(t[j] == s[j]);
        lemma_key_index(t, j);
        assert(distinct_keys(s)) by {
            assert forall|a: int, b: int| 0 <= a < b < s.len() implies s[a].0 != s[b].0 by {
                assert(t[a] == s[a] && t[b] == s[b]);
            }
        }
        lemma_key_index(s, j);
    } else {
        assert forall|a: int| 0 <= a < t.len() implies t[a].0 != k by {
            if a < s.len() {
                assert(t[a] == s[a]);
                if s[a].0 == k {
                    assert(has_key(s, k));
                }
            }
        }
    }
}

/// A value just stored is found under its key, and it is the most recently
/// used entry.
pub proof fn law_get_after_insert<V>(s: Seq<(Seq<char>, V)>, k: Seq<char>, v: V)
    requires
        cache_wf(s),
    ensures
        lookup(inserted(s, k, v), k) == Some(v),
        inserted(s, k, v).last() == (k, v),
        cache_wf(inserted(s, k, v)),
{
    law_insert_keeps_others(s, k, v, k);
}

/// Storing under one key leaves every other key as it was, except the least
/// recently used one when a new key arrives in a full cache: that one is
/// evicted. The cache never grows past its capacity.
pub proof fn law_insert_keeps_others<V>(s: Seq<(Seq<char>, V)>, k: Seq<char>, v: V, other: Seq<char>)
    requires
        cache_wf(s),
    ensures
        cache_wf(inserted(s, k, v)),
        inserted(s, k, v).last() == (k, v),
        lookup(inserted(s, k, v), k) == Some(v),
        other != k && (has_key(s, k) || s.len() < CLIENT_CACHE_CAPACITY || other != s[0].0)
            ==> lookup(inserted(s, k, v), other) == lookup(s, other),
        !has_key(s, k) && s.len() == CLIENT_CACHE_CAPACITY && s[0].0 != k
            ==> lookup(inserted(s, k, v), s[0].0) is None,
{
    let e = (k, v);
    if has_key(s, k) {
        let i = key_index(s, k);
        assert forall|j: int| 0 <= j < s.len() && j != i implies s[j].0 != e.0 by {}
        lemma_remove_push_distinct(s, i, e);
        lemma_lookup_remove_push(s, i, e, k);
        lemma_lookup_remove_push(s, i, e, other);
    } else if s.len() >= CLIENT_CACHE_CAPACITY {
        assert forall|j: int| 0 <= j < s.len() && j != 0 implies s[j].0 != e.0 by {
            if s[j].0 == e.0 {
                assert(has_key(s, e.0));
            }
        }
        lemma_remove_push_distinct(s, 0, e);
        lemma_lookup_remove_push(s, 0, e, k);
        lemma_lookup_remove_push(s, 0, e, other);
        lemma_lookup_remove_push(s, 0, e, s[0].0);
    } else {
        assert forall|a: int, b: int| 0 <= a < b < s.push(e).len() implies s.push(e)[a].0 != s.push(e)[b].0 by {
            if b == s.len() && s[a].0 == e.0 {
                assert(has_key(s, e.0));
            }
        }
        lemma_lookup_push(s, e, k);
        lemma_lookup_push(s, e, other);
    }
}

/// A lookup changes no stored value; the entry it finds becomes the most
/// recently used.
pub proof fn law_get_keeps_contents<V>(s: Seq<(Seq<char>, V)>, k: Seq<char>, other: Seq<char>)
    requires
        cache_wf(s),
    ensures
        cache_wf(touched(s, k)),
        lookup(touched(s, k), other) == lookup(s, other),
        has_key(s, k) ==> touched(s, k).last().0 == k,
        touched(s, k).len() == s.len(),
{
    if has_key(s, k) {
        let i = key_index(s, k);
        lemma_remove_push_distinct(s, i, s[i]);
        lemma_lookup_remove_push(s, i, s[i], other);
        lemma_key_index(s, i);
    }
}

/// Least-recently-used store of built clients, keyed by their settings: a
/// queue whose front is the least recently used entry.
pub struct ClientCache<V> {
    /// Entries from the least to the most recently used.
    entries: VecDeque<(String, V)>,
}

impl<V> View for ClientCache<V> {
    type V = Seq<(Seq<char>, V)>;

    closed spec fn view(&self) -> Seq<(Seq<char>, V)> {
        self.entries@.map_values(|e: (String, V)| (e.0@, e.1))
    }
}

impl<V> ClientCache<V> {
    /// An empty cache.
    pub fn new() -> (c: Self)
        ensures
            c@ == Seq::<(Seq<char>, V)>::empty(),
            cache_wf(c@),
    {
        let c = ClientCache { entries: VecDeque::new() };
        assert(c@ =~= Seq::<(Seq<char>, V)>::empty());
        c
    }

    /// The number of cached clients.
    pub fn len(&self) -> (n: usize)
        ensures
            n == self@.len(),
    {
        self.entries.len()
    }

    /// The position of the entry with the key.
    fn position(&self, key: &str) -> (r: Option<usize>)
        requires
            distinct_keys(self@),
        ensures
            match r {
                Some(i) => i < self@.len() && self@[i as int].0 == key@ && key_index(self@, key@) == i,
                None => !has_key(self@, key@),
            },
    {
        let mut i: usize = 0;
        while i < self.entries.len()
            invariant
                i <= self.entries@.len(),
                self@.len() == self.entries@.len(),
                distinct_keys(self@),
                forall|j: int| 0 <= j < i ==> self@[j].0 != key@,
            decreases self.entries@.len() - i,
        {
            assert(self@[i as int].0 == self.entries@[i as int].0@);
            if str_eq(self.entries[i].0.as_str(), key) {
                proof {
                    lemma_key_index(self@, i as int);
                }
                return Some(i);
            }
            i = i + 1;
        }
        None
    }

    /// Drops every entry.
    pub fn clear(&mut self)
        ensures
            final(self)@ == Seq::<(Seq<char>, V)>::empty(),
    {
        self.entries.clear();
        assert(self@ =~= Seq::<(Seq<char>, V)>::empty());
    }
}

impl<V: Clone> ClientCache<V> {
    /// The client stored under the key, which becomes the most recently
    /// used; `None` when there is none.
    pub fn get(&mut self, key: &str) -> (r: Option<V>)
        requires
            cache_wf(old(self)@),
        ensures
            cache_wf(final(self)@),
            final(self)@ == touched(old(self)@, key@),
            match r {
                Some(v) => has_key(old(self)@, key@) && cloned(old(self)@[key_index(old(self)@, key@)].1, v),
                None => !has_key(old(self)@, key@),
            },
    {
        match self.position(key) {
            None => None,
            Some(i) => {
                let ghost s = self@;
                match self.entries.remove(i) {
                    Some(e) => {
                        let v = e.1.clone();
                        self.entries.push_back(e);
                        proof {
                            assert(self@ =~= s.remove(i as int).push(s[i as int]));
                            lemma_remove_push_distinct(s, i as int, s[i as int]);
                        }
                        Some(v)
                    },
                    None => None,
                }
            },
        }
    }
}

impl<V> ClientCache<V> {
    /// Stores a client under the key (see `inserted`).
    pub fn insert(&mut self, key: String, value: V)
        requires
            cache_wf(old(self)@),
        ensures
            cache_wf(final(self)@),
            final(self)@ == inserted(old(self)@, key@, value),
    {
        let ghost s = self@;
        let ghost e = (key@, value);
        match self.position(key.as_str()) {
            Some(i) => {
                let _ = self.entries.remove(i);
                self.entries.push_back((key, value));
                proof {
                    assert(self@ =~= s.remove(i as int).push(e));
                    lemma_remove_push_distinct(s, i as int, e);
                }
            },
            None => {
                if self.entries.len() >= CLIENT_CACHE_CAPACITY {
                    let _ = self.entries.pop_front();
                    self.entries.push_back((key, value));
                    proof {
                        assert(self@ =~= s.remove(0).push(e));
                        assert forall|j: int| 0 <= j < s.len() && j != 0 implies s[j].0 != e.0 by {
                            if s[j].0 == e.0 {
                                assert(has_key(s, e.0));
                            }
                        }
                        lemma_remove_push_distinct(s, 0, e);
                    }
                } else {
                    self.entries.push_back((key, value));
                    proof {
                        assert(self@ =~= s.push(e));
                        assert forall|a: int, b: int| 0 <= a < b < s.push(e).len() implies s.push(e)[a].0 != s.push(e)[b].0 by {
                            if b == s.len() && s[a].0 == e.0 {
                                assert(has_key(s, e.0));
                            }
                        }
                    }
                }
            },
        }
    }
}


/// Text order: character by character by code point, a proper prefix first
/// (the order of `String`'s `Ord`).
pub open spec fn text_le(a: Seq<char>, b: Seq<char>) -> bool
    decreases a.len(),
{
    if a.len() == 0 {
        true
    } else if b.len() == 0 {
        false
    } else if a[0] != b[0] {
        (a[0] as int) < (b[0] as int)
    } else {
        text_le(a.drop_first(), b.drop_first())
    }
}

/// Header order: by name, then by value.
pub open spec fn header_le(x: (Seq<char>, Seq<char>), y: (Seq<char>, Seq<char>)) -> bool {
    if x.0 != y.0 {
        text_le(x.0, y.0)
    } else {
        text_le(x.1, y.1)
    }
}

pub open spec fn header_order() -> spec_fn((Seq<char>, Seq<char>), (Seq<char>, Seq<char>)) -> bool {
    |x: (Seq<char>, Seq<char>), y: (Seq<char>, Seq<char>)| header_le(x, y)
}

/// Headers as name and value.
pub open spec fn header_pairs(v: Seq<(String, String)>) -> Seq<(Seq<char>, Seq<char>)> {
    v.map_values(|p: (String, String)| (p.0@, p.1@))
}

proof fn lemma_text_le_total(a: Seq<char>, b: Seq<char>)
    ensures
        text_le(a, b) || text_le(b, a),
        text_le(a, b) && text_le(b, a) ==> a == b,
        text_le(a, a),
    decreases a.len(),
{
    if a.len() > 0 && b.len() > 0 {
        lemma_text_le_total(a.drop_first(), b.drop_first());
        if a[0] == b[0] && text_le(a, b) && text_le(b, a) {
            assert(a =~= seq![a[0]] + a.drop_first());
            assert(b =~= seq![b[0]] + b.drop_first());
        }
    }
    if a.len() > 0 {
        lemma_text_le_total(a.drop_first(), a.drop_first());
    }
}

proof fn lemma_text_le_trans(a: Seq<char>, b: Seq<char>, c: Seq<char>)
    requires
        text_le(a, b),
        text_le(b, c),
    ensures
        text_le(a, c),
    decreases a.len(),
{
    if a.len() > 0 && b.len() > 0 && c.len() > 0 && a[0] == b[0] && b[0] == c[0] {
        lemma_text_le_trans(a.drop_first(), b.drop_first(), c.drop_first());
    }
}

/// Header order is a total order.
pub proof fn lemma_header_order_total()
    ensures
        total_ordering(header_order()),
{
    let r = header_order();
    assert forall|x: (Seq<char>, Seq<char>)| #[trigger] r(x, x) by {
        lemma_text_le_total(x.1, x.1);
    }
    assert forall|x: (Seq<char>, Seq<char>), y: (Seq<char>, Seq<char>)| #[trigger] r(x, y) && #[trigger] r(y, x) implies x == y by {
        lemma_text_le_total(x.0, y.0);
        lemma_text_le_total(x.1, y.1);
    }
    assert forall|x: (Seq<char>, Seq<char>), y: (Seq<char>, Seq<char>), z: (Seq<char>, Seq<char>)| #[trigger] r(x, y) && #[trigger] r(y, z) implies r(x, z) by {
        lemma_text_le_total(x.0, y.0);
        lemma_text_le_total(y.0, z.0);
        lemma_text_le_total(x.0, z.0);
        if x.0 != y.0 && y.0 != z.0 {
            lemma_text_le_trans(x.0, y.0, z.0);
        } else if x.0 == y.0 && y.0 == z.0 {
            lemma_text_le_trans(x.1, y.1, z.1);
        }
    }
    assert forall|x: (Seq<char>, Seq<char>), y: (Seq<char>, Seq<char>)| #[trigger] r(x, y) || #[trigger] r(y, x) by {
        lemma_text_le_total(x.0, y.0);
        lemma_text_le_total(x.1, y.1);
    }
}

proof fn lemma_text_le_skip(a: Seq<char>, b: Seq<char>, i: int)
    requires
        0 <= i <= a.len(),
        i <= b.len(),
        forall|j: int| 0 <= j < i ==> a[j] == b[j],
    ensures
        text_le(a, b) == text_le(a.skip(i), b.skip(i)),
    decreases i,
{
    if i > 0 {
        lemma_text_le_skip(a.drop_first(), b.drop_first(), i - 1);
        assert(a.drop_first().skip(i - 1) =~= a.skip(i));
        assert(b.drop_first().skip(i - 1) =~= b.skip(i));
    } else {
        assert(a.skip(0) =~= a);
        assert(b.skip(0) =~= b);
    }
}

/// Compares two texts in text order.
pub fn text_le_str(a: &str, b: &str) -> (r: bool)
    ensures
        r == text_le(a@, b@),
{
    let av = chars_of(a);
    let bv = chars_of(b);
    let mut i: usize = 0;
    while i < av.len() && i < bv.len() && av[i] == bv[i]
        invariant
            av@ == a@,
            bv@ == b@,
            i <= av@.len(),
            i <= bv@.len(),
            forall|j: int| 0 <= j < i ==> av@[j] == bv@[j],
        decreases av@.len() - i,
    {
        i = i + 1;
    }
    proof {
        lemma_text_le_skip(a@, b@, i as int);
    }
    if i == av.len() {
        true
    } else if i == bv.len() {
        false
    } else {
        proof {
            assert(a@.skip(i as int)[0] == av@[i as int]);
            assert(b@.skip(i as int)[0] == bv@[i as int]);
        }
        av[i] < bv[i]
    }
}

/// Headers sorted by name, then value.
pub fn sort_headers(h: &Vec<(String, String)>) -> (r: Vec<(String, String)>)
    ensures
        header_pairs(r@) == header_pairs(h@).sort_by(header_order()),
{
    broadcast use vstd::seq_lib::group_to_multiset_ensures;
    let ghost hp = header_pairs(h@);
    let ghost leq = header_order();
    proof {
        lemma_header_order_total();
    }
    let mut r: Vec<(String, String)> = Vec::new();
    let mut i: usize = 0;
    while i < h.len()
        invariant
            i <= h@.len(),
            hp == header_pairs(h@),
            leq == header_order(),
            total_ordering(leq),
            sorted_by(header_pairs(r@), leq),
            header_pairs(r@).to_multiset() == hp.take(i as int).to_multiset(),
        decreases h@.len() - i,
    {
        let x = (h[i].0.clone(), h[i].1.clone());
        let ghost xv = (x.0@, x.1@);
        let ghost rp = header_pairs(r@);
        let mut p: usize = 0;
        while p < r.len() && header_le_exec(&r[p], &x)
            invariant
                p <= r@.len(),
                rp == header_pairs(r@),
                xv == (x.0@, x.1@),
                leq == header_order(),
                forall|k: int| 0 <= k < p ==> leq(rp[k], xv),
            decreases r@.len() - p,
        {
            p = p + 1;
        }
        r.insert(p, x);
        proof {
            let np = header_pairs(r@);
            assert(np =~= rp.insert(p as int, xv));
            if p < rp.len() {
                assert(!leq(rp[p as int], xv));
            }
            assert forall|a: int, b: int| 0 <= a < b < np.len() implies #[trigger] leq(np[a], np[b]) by {
                if a < p && b < p {
                    assert(np[a] == rp[a] && np[b] == rp[b]);
                } else if a < p && b == p {
                    assert(np[a] == rp[a]);
                } else if a < p {
                    assert(np[a] == rp[a] && np[b] == rp[b - 1]);
                } else if a == p {
                    assert(np[b] == rp[b - 1]);
                    assert(leq(xv, rp[p as int]));
                    if b - 1 > p {
                        assert(leq(rp[p as int], rp[b - 1]));
                    }
                } else {
                    assert(np[a] == rp[a - 1] && np[b] == rp[b - 1]);
                }
            }
            assert(np.remove(p as int) =~= rp);
            assert(np[p as int] == xv);
            assert(hp[i as int] == xv);
            assert(hp.take(i + 1) =~= hp.take(i as int).push(xv));
            hp.take(i as int).to_multiset_ensures();
            assert(hp.take(i + 1).to_multiset() =~= hp.take(i as int).to_multiset().insert(xv));
            assert(np.to_multiset() =~= rp.to_multiset().insert(xv)) by {
                broadcast use vstd::multiset::group_multiset_axioms;
                np.to_multiset_ensures();
                assert(np.remove(p as int).to_multiset() =~= np.to_multiset().remove(np[p as int]));
                assert(np.to_multiset().remove(xv) =~= rp.to_multiset());
                assert(np.contains(xv));
                assert(np.to_multiset().count(xv) > 0);
            }
        }
        i = i + 1;
    }
    proof {
        assert(hp.take(h@.len() as int) =~= hp);
        hp.lemma_sort_by_ensures(leq);
        vstd::seq_lib::lemma_sorted_unique(header_pairs(r@), hp.sort_by(leq), leq);
    }
    r
}

/// Compares two headers in header order.
fn header_le_exec(x: &(String, String), y: &(String, String)) -> (r: bool)
    ensures
        r == header_le((x.0@, x.1@), (y.0@, y.1@)),
{
    if str_eq(x.0.as_str(), y.0.as_str()) {
        text_le_str(x.1.as_str(), y.1.as_str())
    } else {
        text_le_str(x.0.as_str(), y.0.as_str())
    }
}


/// `true` or `false`, as a `bool` is formatted.
pub open spec fn bool_text(b: bool) -> Seq<char> {
    if b {
        seq!['t', 'r', 'u', 'e']
    } else {
        seq!['f', 'a', 'l', 's', 'e']
    }
}

/// `name=value`.
pub open spec fn header_line(p: (Seq<char>, Seq<char>)) -> Seq<char> {
    p.0 + seq!['='] + p.1
}

/// The key under which a client built with these settings is shared: the
/// source's address, the timeout, the cookie switch, the concurrency limit
/// and the headers sorted by name, each part after a `|`, headers as
/// `name=value` joined by `;`.
pub open spec fn cache_key_text(
    url: Seq<char>,
    timeout: u64,
    cookie_jar: bool,
    max_concurrent: usize,
    headers: Seq<(Seq<char>, Seq<char>)>,
) -> Seq<char> {
    let sorted = headers.sort_by(header_order());
    url + seq!['|'] + dec_digits(timeout as nat) + seq!['|'] + bool_text(cookie_jar) + seq!['|']
        + dec_digits(max_concurrent as nat) + seq!['|'] + join_spec(
        sorted.map_values(|p: (Seq<char>, Seq<char>)| header_line(p)),
        seq![';'],
    )
}

/// The cache key does not depend on the order in which the headers are
/// kept: two header lists with the same entries give the same key.
pub proof fn law_cache_key_order_free(
    url: Seq<char>,
    timeout: u64,
    cookie_jar: bool,
    max_concurrent: usize,
    h1: Seq<(Seq<char>, Seq<char>)>,
    h2: Seq<(Seq<char>, Seq<char>)>,
)
    requires
        h1.to_multiset() == h2.to_multiset(),
    ensures
        cache_key_text(url, timeout, cookie_jar, max_concurrent, h1) == cache_key_text(
            url,
            timeout,
            cookie_jar,
            max_concurrent,
            h2,
        ),
{
    let leq = header_order();
    lemma_header_order_total();
    h1.lemma_sort_by_ensures(leq);
    h2.lemma_sort_by_ensures(leq);
    vstd::seq_lib::lemma_sorted_unique(h1.sort_by(leq), h2.sort_by(leq), leq);
}

/// The cache key of a configuration, for a source's address or none.
pub fn build_cache_key(config: &HttpClientConfig, source_url: Option<&str>) -> (k: String)
    ensures
        k@ == cache_key_text(
            match source_url {
                Some(u) => u@,
                None => Seq::empty(),
            },
            config.timeout,
            config.enable_cookie_jar,
            config.max_concurrent,
            header_pairs(config.default_headers@),
        ),
{
    let mut out: Vec<char> = match source_url {
        Some(u) => chars_of(u),
        None => Vec::new(),
    };
    out.push('|');
    let t = dec_chars(config.timeout);
    append_chars(&mut out, &t);
    out.push('|');
    let b: Vec<char> = if config.enable_cookie_jar {
        vec!['t', 'r', 'u', 'e']
    } else {
        vec!['f', 'a', 'l', 's', 'e']
    };
    append_chars(&mut out, &b);
    out.push('|');
    let m = dec_chars(config.max_concurrent as u64);
    append_chars(&mut out, &m);
    out.push('|');
    let sorted = sort_headers(&config.default_headers);
    let ghost sp = header_pairs(sorted@);
    let mut lines: Vec<Vec<char>> = Vec::new();
    let mut i: usize = 0;
    while i < sorted.len()
        invariant
            i <= sorted@.len(),
            sp == header_pairs(sorted@),
            lines@.map_values(|p: Vec<char>| p@) == sp.take(i as int).map_values(
                |p: (Seq<char>, Seq<char>)| header_line(p),
            ),
        decreases sorted@.len() - i,
    {
        let mut line = chars_of(sorted[i].0.as_str());
        line.push('=');
        let v = chars_of(sorted[i].1.as_str());
        append_chars(&mut line, &v);
        proof {
            assert(line@ == header_line(sp[i as int]));
        }
        let ghost before = lines@;
        lines.push(line);
        proof {
            let f = |p: (Seq<char>, Seq<char>)| header_line(p);
            assert(sp.take(i + 1) =~= sp.take(i as int).push(sp[i as int]));
            assert(lines@ =~= before.push(line));
            assert(lines@.map_values(|p: Vec<char>| p@) =~= before.map_values(|p: Vec<char>| p@).push(line@));
            assert(sp.take(i + 1).map_values(f) =~= sp.take(i as int).map_values(f).push(f(sp[i as int])));
        }
        i = i + 1;
    }
    let sep = vec![';'];
    let joined = join_chars(&lines, &sep);
    append_chars(&mut out, &joined);
    proof {
        assert(sp.take(sorted@.len() as int) =~= sp);
        assert(sep@ =~= seq![';']);
    }
    string_of(&out)
}

/// A header map with one name set to a value: replaced where the name is
/// present, appended otherwise.
pub open spec fn set_header(h: Seq<(Seq<char>, Seq<char>)>, k: Seq<char>, v: Seq<char>) -> Seq<(Seq<char>, Seq<char>)> {
    if has_key(h, k) {
        h.update(key_index(h, k), (k, v))
    } else {
        h.push((k, v))
    }
}

/// A header map extended by each of the given headers in turn.
pub open spec fn extend_headers(h: Seq<(Seq<char>, Seq<char>)>, new: Seq<(Seq<char>, Seq<char>)>) -> Seq<(Seq<char>, Seq<char>)>
    decreases new.len(),
{
    if new.len() == 0 {
        h
    } else {
        set_header(extend_headers(h, new.drop_last()), new.last().0, new.last().1)
    }
}

/// The value the last header with the name gives, among `new`.
pub open spec fn last_value(new: Seq<(Seq<char>, Seq<char>)>, k: Seq<char>) -> Option<Seq<char>>
    decreases new.len(),
{
    if new.len() == 0 {
        None
    } else if new.last().0 == k {
        Some(new.last().1)
    } else {
        last_value(new.drop_last(), k)
    }
}

/// Setting a header keeps names distinct; the name now has the value and
/// every other name keeps its own.
proof fn lemma_set_header(h: Seq<(Seq<char>, Seq<char>)>, k: Seq<char>, v: Seq<char>, other: Seq<char>)
    requires
        distinct_keys(h),
    ensures
        distinct_keys(set_header(h, k, v)),
        lookup(set_header(h, k, v), other) == (if other == k {
            Some(v)
        } else {
            lookup(h, other)
        }),
{
    let e = (k, v);
    if has_key(h, k) {
        let i = key_index(h, k);
        let t = h.update(i, e);
        assert forall|a: int, b: int| 0 <= a < b < t.len() implies t[a].0 != t[b].0 by {
            assert(h[i].0 == k);
        }
        if other == k {
            lemma_key_index(t, i);
        } else if has_key(h, other) {
            let j = key_index(h, other);
            assert(j != i);
            assert(t[j] == h[j]);
            lemma_key_index(t, j);
            lemma_key_index(h, j);
        } else {
            assert forall|a: int| 0 <= a < t.len() implies t[a].0 != other by {
                if a != i && h[a].0 == other {
                    assert(has_key(h, other));
                }
            }
        }
    } else {
        assert forall|a: int, b: int| 0 <= a < b < h.push(e).len() implies h.push(e)[a].0 != h.push(e)[b].0 by {
            if b == h.len() && h[a].0 == e.0 {
                assert(has_key(h, e.0));
            }
        }
        lemma_lookup_push(h, e, other);
    }
}

/// Extending a header map: a name among the new headers takes the value of
/// the last of them with that name; every other name keeps its value.
pub proof fn law_extend_headers_lookup(h: Seq<(Seq<char>, Seq<char>)>, new: Seq<(Seq<char>, Seq<char>)>, k: Seq<char>)
    requires
        distinct_keys(h),
    ensures
        distinct_keys(extend_headers(h, new)),
        lookup(extend_headers(h, new), k) == match last_value(new, k) {
            Some(v) => Some(v),
            None => lookup(h, k),
        },
    decreases new.len(),
{
    if new.len() > 0 {
        law_extend_headers_lookup(h, new.drop_last(), k);
        lemma_set_header(extend_headers(h, new.drop_last()), new.last().0, new.last().1, k);
    }
}

/// The position of the header with the name.
fn header_position(h: &Vec<(String, String)>, k: &str) -> (r: Option<usize>)
    requires
        distinct_keys(header_pairs(h@)),
    ensures
        match r {
            Some(i) => i < h@.len() && has_key(header_pairs(h@), k@) && key_index(header_pairs(h@), k@) == i,
            None => !has_key(header_pairs(h@), k@),
        },
{
    let ghost hp = header_pairs(h@);
    let mut i: usize = 0;
    while i < h.len()
        invariant
            i <= h@.len(),
            hp == header_pairs(h@),
            distinct_keys(hp),
            forall|j: int| 0 <= j < i ==> hp[j].0 != k@,
        decreases h@.len() - i,
    {
        if str_eq(h[i].0.as_str(), k) {
            proof {
                lemma_key_index(hp, i as int);
            }
            return Some(i);
        }
        i = i + 1;
    }
    None
}

/// Sets one header (`HashMap::insert`).
pub fn set_header_in(h: &mut Vec<(String, String)>, k: String, v: String)
    requires
        distinct_keys(header_pairs(old(h)@)),
    ensures
        header_pairs(final(h)@) == set_header(header_pairs(old(h)@), k@, v@),
        distinct_keys(header_pairs(final(h)@)),
{
    let ghost hp = header_pairs(h@);
    let ghost e = (k@, v@);
    match header_position(h, k.as_str()) {
        Some(i) => {
            h.set(i, (k, v));
            proof {
                assert(header_pairs(h@) =~= hp.update(i as int, e));
                assert forall|a: int, b: int| 0 <= a < b < hp.len() implies header_pairs(h@)[a].0 != header_pairs(h@)[b].0 by {
                    if a == i {
                        assert(hp[i as int].0 == e.0);
                    } else if b == i {
                        assert(hp[i as int].0 == e.0);
                    }
                }
            }
        },
        None => {
            h.push((k, v));
            proof {
                assert(header_pairs(h@) =~= hp.push(e));
                assert forall|a: int, b: int| 0 <= a < b < hp.push(e).len() implies hp.push(e)[a].0 != hp.push(e)[b].0 by {
                    if b == hp.len() && hp[a].0 == e.0 {
                        assert(has_key(hp, e.0));
                    }
                }
            }
        },
    }
}

/// Whether every field of an object holds a string.
pub open spec fn all_text(f: Seq<(Seq<char>, JsonLeaf)>) -> bool {
    forall|i: int| 0 <= i < f.len() ==> (#[trigger] f[i]).1 is Text
}

/// The string fields of an object as headers.
pub open spec fn text_pairs(f: Seq<(Seq<char>, JsonLeaf)>) -> Seq<(Seq<char>, Seq<char>)> {
    f.map_values(|x: (Seq<char>, JsonLeaf)| (x.0, x.1->Text_0))
}

/// The headers a JSON text gives when read as a map of strings to
/// strings: `None` unless it is a JSON object whose values are all strings.
pub open spec fn json_headers(text: Seq<char>) -> Option<Seq<(Seq<char>, Seq<char>)>> {
    let items = json_items(text);
    if json_valid(text) && !items.0 && items.1.len() == 1 && items.1[0] is Some && all_text(
        items.1[0]->Some_0,
    ) {
        Some(text_pairs(items.1[0]->Some_0))
    } else {
        None
    }
}

/// Reads a JSON object of strings as headers.
pub fn headers_from_json(text: &str) -> (r: Option<Vec<(String, String)>>)
    ensures
        match r {
            Some(v) => json_headers(text@) == Some(header_pairs(v@)),
            None => json_headers(text@) is None,
        },
{
    let doc = match parse_json_doc(text) {
        None => return None,
        Some(d) => d,
    };
    let (is_array, items) = top_level_items(&doc);
    if is_array || items.len() != 1 {
        return None;
    }
    let fields = match &items[0] {
        None => return None,
        Some(f) => f,
    };
    let ghost fv = fields_view(fields@);
    proof {
        assert(json_items(text@).1[0] == Some(fv));
    }
    let mut out: Vec<(String, String)> = Vec::new();
    let mut i: usize = 0;
    while i < fields.len()
        invariant
            i <= fields@.len(),
            fv == fields_view(fields@),
            json_valid(text@),
            !json_items(text@).0,
            json_items(text@).1.len() == 1,
            json_items(text@).1[0] == Some(fv),
            all_text(fv.take(i as int)),
            header_pairs(out@) == text_pairs(fv.take(i as int)),
        decreases fields@.len() - i,
    {
        match &fields[i].1 {
            JsonScalar::Text(t) => {
                let ghost before = out@;
                out.push((fields[i].0.clone(), t.clone()));
                proof {
                    assert(fv[i as int] == (fields@[i as int].0@, JsonLeaf::Text(t@)));
                    assert(fv.take(i + 1) =~= fv.take(i as int).push(fv[i as int]));
                    assert(text_pairs(fv.take(i + 1)) =~= text_pairs(fv.take(i as int)).push((fv[i as int].0, t@)));
                    assert(header_pairs(out@) =~= header_pairs(before).push((fields@[i as int].0@, t@)));
                    assert forall|j: int| 0 <= j < i + 1 implies (#[trigger] fv.take(i + 1)[j]).1 is Text by {
                        if j < i {
                            assert(fv.take(i + 1)[j] == fv.take(i as int)[j]);
                        }
                    }
                }
            },
            _ => {
                proof {
                    assert(!(fv[i as int].1 is Text));
                    assert(!all_text(fv));
                }
                return None;
            },
        }
        i = i + 1;
    }
    proof {
        assert(fv.take(fields@.len() as int) =~= fv);
    }
    Some(out)
}

pub open spec fn base_timeout(base: Option<HttpClientConfig>) -> u64 {
    match base {
        Some(b) => b.timeout,
        None => 30,
    }
}

pub open spec fn base_max_concurrent(base: Option<HttpClientConfig>) -> usize {
    match base {
        Some(b) => b.max_concurrent,
        None => 10,
    }
}

pub open spec fn base_headers(base: Option<HttpClientConfig>) -> Seq<(Seq<char>, Seq<char>)> {
    match base {
        Some(b) => header_pairs(b.default_headers@),
        None => Seq::empty(),
    }
}

/// The headers of a source's client: the base headers extended by those
/// of the source's header text, when it reads as a map of strings.
pub open spec fn source_headers(base: Seq<(Seq<char>, Seq<char>)>, header: Option<String>) -> Seq<(Seq<char>, Seq<char>)> {
    match header {
        Some(h) => match json_headers(h@) {
            Some(new) => extend_headers(base, new),
            None => base,
        },
        None => base,
    }
}

/// The concurrency limit of a source's client: its rate when that is a
/// number, the base limit otherwise.
pub open spec fn source_max_concurrent(base: usize, rate: Option<String>) -> usize {
    match rate {
        Some(r) => match parse_usize_spec(r@) {
            Some(n) => n,
            None => base,
        },
        None => base,
    }
}

/// The settings of the client for a book source: the base settings (or the
/// defaults), the source's cookie switch, its headers and its rate.
pub fn source_client_config(source: &BookSource, base: Option<HttpClientConfig>) -> (c: HttpClientConfig)
    requires
        base matches Some(b) ==> distinct_keys(header_pairs(b.default_headers@)),
    ensures
        c.timeout == base_timeout(base),
        c.enable_cookie_jar == source.enabled_cookie_jar,
        c.max_concurrent == source_max_concurrent(base_max_concurrent(base), source.concurrent_rate),
        header_pairs(c.default_headers@) == source_headers(base_headers(base), source.header),
        distinct_keys(header_pairs(c.default_headers@)),
{
    let mut config = match base {
        Some(b) => b,
        None => HttpClientConfig::default(),
    };
    proof {
        assert(header_pairs(config.default_headers@) =~= base_headers(base));
    }
    config.enable_cookie_jar = source.enabled_cookie_jar;
    if let Some(header) = &source.header {
        if let Some(new) = headers_from_json(header.as_str()) {
            let ghost np = header_pairs(new@);
            let ghost start = header_pairs(config.default_headers@);
            let mut i: usize = 0;
            while i < new.len()
                invariant
                    i <= new@.len(),
                    np == header_pairs(new@),
                    config.timeout == base_timeout(base),
                    config.max_concurrent == base_max_concurrent(base),
                    config.enable_cookie_jar == source.enabled_cookie_jar,
                    header_pairs(config.default_headers@) == extend_headers(start, np.take(i as int)),
                    distinct_keys(header_pairs(config.default_headers@)),
                decreases new@.len() - i,
            {
                let k = new[i].0.clone();
                let v = new[i].1.clone();
                set_header_in(&mut config.default_headers, k, v);
                proof {
                    assert(np.take(i + 1).drop_last() =~= np.take(i as int));
                }
                i = i + 1;
            }
            proof {
                assert(np.take(new@.len() as int) =~= np);
            }
        }
    }
    if let Some(rate) = &source.concurrent_rate {
        let rc = chars_of(rate.as_str());
        if let Some(n) = parse_usize(&rc) {
            config.max_concurrent = n;
        }
    }
    config
}

/// How many requests a client lets run at once: `None` for no limit
/// (a limit of zero).
pub fn concurrency_limit(config: &HttpClientConfig) -> (r: Option<usize>)
    ensures
        r == (if config.max_concurrent > 0 {
            Some(config.max_concurrent)
        } else {
            None
        }),
{
    if config.max_concurrent > 0 {
        Some(config.max_concurrent)
    } else {
        None
    }
}


/// Whether no header name occurs twice.
pub fn headers_distinct(h: &Vec<(String, String)>) -> (b: bool)
    ensures
        b == distinct_keys(header_pairs(h@)),
{
    let ghost hp = header_pairs(h@);
    let mut j: usize = 1;
    while j < h.len()
        invariant
            1 <= j,
            hp == header_pairs(h@),
            j <= h@.len() || h@.len() == 0,
            forall|a: int, b: int| 0 <= a < b < j && b < hp.len() ==> hp[a].0 != hp[b].0,
        decreases h@.len() - j,
    {
        let mut a: usize = 0;
        while a < j
            invariant
                a <= j,
                j < h@.len(),
                hp == header_pairs(h@),
                forall|x: int, y: int| 0 <= x < y < j ==> hp[x].0 != hp[y].0,
                forall|x: int| 0 <= x < a ==> hp[x].0 != hp[j as int].0,
            decreases j - a,
        {
            if str_eq(h[a].0.as_str(), h[j].0.as_str()) {
                proof {
                    assert(hp[a as int].0 == hp[j as int].0);
                }
                return false;
            }
            a = a + 1;
        }
        j = j + 1;
    }
    true
}

} // verus!
