//! A small map between namespace names (prefixes to URIs, or URIs to prefixes).

use vstd::prelude::*;

use crate::impls::str_chars;
use crate::strings::str_eq;

verus! {

/// The map that a sequence of insertions builds: later insertions win.
pub open spec fn pairs_map(s: Seq<(Seq<char>, Seq<char>)>) -> Map<Seq<char>, Seq<char>>
    decreases s.len(),
{
    if s.len() == 0 {
        Map::empty()
    } else {
        pairs_map(s.drop_last()).insert(s.last().0, s.last().1)
    }
}

/// The pairs that are not keyed by `k`.
pub open spec fn pairs_without(s: Seq<(Seq<char>, Seq<char>)>, k: Seq<char>) -> Seq<
    (Seq<char>, Seq<char>),
> {
    s.filter(|p: (Seq<char>, Seq<char>)| p.0 != k)
}


/// The order of strings by their characters' code points, the first that differ deciding, a
/// prefix coming first: the order of `str`.
pub open spec fn chars_lt(a: Seq<char>, b: Seq<char>) -> bool
    decreases a.len(),
{
    if a.len() == 0 {
        b.len() > 0
    } else if b.len() == 0 {
        false
    } else if a[0] != b[0] {
        a[0] < b[0]
    } else {
        chars_lt(a.drop_first(), b.drop_first())
    }
}

pub proof fn lemma_chars_lt_irreflexive(a: Seq<char>)
    ensures
        !chars_lt(a, a),
    decreases a.len(),
{
    if a.len() > 0 {
        lemma_chars_lt_irreflexive(a.drop_first());
    }
}

pub proof fn lemma_chars_lt_asymmetric(a: Seq<char>, b: Seq<char>)
    ensures
        !(chars_lt(a, b) && chars_lt(b, a)),
    decreases a.len(),
{
    if a.len() > 0 && b.len() > 0 && a[0] == b[0] {
        lemma_chars_lt_asymmetric(a.drop_first(), b.drop_first());
    }
}

pub proof fn lemma_chars_lt_transitive(a: Seq<char>, b: Seq<char>, c: Seq<char>)
    requires
        chars_lt(a, b),
        chars_lt(b, c),
    ensures
        chars_lt(a, c),
    decreases a.len(),
{
    if a.len() > 0 && b.len() > 0 && c.len() > 0 && a[0] == b[0] && b[0] == c[0] {
        lemma_chars_lt_transitive(a.drop_first(), b.drop_first(), c.drop_first());
    }
}

pub proof fn lemma_chars_lt_total(a: Seq<char>, b: Seq<char>)
    requires
        a != b,
    ensures
        chars_lt(a, b) || chars_lt(b, a),
    decreases a.len(),
{
    if a.len() > 0 && b.len() > 0 {
        if a[0] == b[0] {
            if a.drop_first() == b.drop_first() {
                assert(a =~= seq![a[0]] + a.drop_first());
                assert(b =~= seq![b[0]] + b.drop_first());
            }
            lemma_chars_lt_total(a.drop_first(), b.drop_first());
        }
    } else if a.len() == 0 && b.len() == 0 {
        assert(a =~= b);
    }
}

/// The texts of a sequence of strings.
pub open spec fn str_views<'a>(s: Seq<&'a str>) -> Seq<Seq<char>> {
    s.map_values(|k: &'a str| k@)
}

/// Whether `s` is in strictly increasing order.
pub open spec fn keys_sorted(s: Seq<Seq<char>>) -> bool {
    forall|i: int, j: int| 0 <= i < j < s.len() ==> chars_lt(#[trigger] s[i], #[trigger] s[j])
}

/// The keys of `m` in increasing order.
pub open spec fn sorted_keys(m: Map<Seq<char>, Seq<char>>) -> Seq<Seq<char>> {
    choose|s: Seq<Seq<char>>|
        keys_sorted(s) && forall|k: Seq<char>| #[trigger] s.contains(k) <==> m.dom().contains(k)
}

/// Two increasing sequences of the same elements are the same.
pub proof fn lemma_sorted_unique(a: Seq<Seq<char>>, b: Seq<Seq<char>>)
    requires
        keys_sorted(a),
        keys_sorted(b),
        forall|k: Seq<char>| #[trigger] a.contains(k) <==> b.contains(k),
    ensures
        a == b,
    decreases a.len(),
{
    if a.len() == 0 {
        if b.len() > 0 {
            assert(b.contains(b[0]));
            assert(a.contains(b[0]));
            assert(false);
        }
        assert(a =~= b);
    } else {
        assert(a.contains(a[0]));
        assert(b.contains(a[0]));
        assert(b.len() > 0);
        assert(b.contains(b[0]));
        assert(a.contains(b[0]));
        let j = choose|j: int| 0 <= j < b.len() && b[j] == a[0];
        let i = choose|i: int| 0 <= i < a.len() && a[i] == b[0];
        if j > 0 {
            assert(chars_lt(b[0], b[j]));
            if i > 0 {
                assert(chars_lt(a[0], a[i]));
                lemma_chars_lt_asymmetric(a[0], b[0]);
            } else {
                lemma_chars_lt_irreflexive(a[0]);
            }
        }
        assert(a[0] == b[0]);
        let a1 = a.drop_first();
        let b1 = b.drop_first();
        assert forall|k: Seq<char>| #[trigger] a1.contains(k) <==> b1.contains(k) by {
            if a1.contains(k) {
                let x = choose|x: int| 0 <= x < a1.len() && a1[x] == k;
                assert(a[x + 1] == k);
                assert(chars_lt(a[0], k));
                lemma_chars_lt_irreflexive(k);
                assert(a.contains(k));
                assert(b.contains(k));
                let y = choose|y: int| 0 <= y < b.len() && b[y] == k;
                assert(y != 0);
                assert(b1[y - 1] == k);
            }
            if b1.contains(k) {
                let x = choose|x: int| 0 <= x < b1.len() && b1[x] == k;
                assert(b[x + 1] == k);
                assert(chars_lt(b[0], k));
                lemma_chars_lt_irreflexive(k);
                assert(b.contains(k));
                assert(a.contains(k));
                let y = choose|y: int| 0 <= y < a.len() && a[y] == k;
                assert(y != 0);
                assert(a1[y - 1] == k);
            }
        }
        assert forall|x: int, y: int| 0 <= x < y < a1.len() implies chars_lt(
            #[trigger] a1[x],
            #[trigger] a1[y],
        ) by {
            assert(a1[x] == a[x + 1] && a1[y] == a[y + 1]);
        }
        assert forall|x: int, y: int| 0 <= x < y < b1.len() implies chars_lt(
            #[trigger] b1[x],
            #[trigger] b1[y],
        ) by {
            assert(b1[x] == b[x + 1] && b1[y] == b[y + 1]);
        }
        lemma_sorted_unique(a1, b1);
        assert(a =~= seq![a[0]] + a1);
        assert(b =~= seq![b[0]] + b1);
    }
}

/// Whether `a` comes before `b` in the order of `str`.
pub fn str_lt(a: &str, b: &str) -> (r: bool)
    ensures
        r == chars_lt(a@, b@),
{
    let x = str_chars(a);
    let y = str_chars(b);
    let mut i: usize = 0;
    assert(x@.skip(0) =~= x@);
    assert(y@.skip(0) =~= y@);
    while i < x.len() && i < y.len() && x[i] == y[i]
        invariant
            i <= x.len(),
            i <= y.len(),
            chars_lt(a@, b@) == chars_lt(x@.skip(i as int), y@.skip(i as int)),
            x@ == a@,
            y@ == b@,
        decreases x.len() - i,
    {
        assert(x@.skip(i as int).drop_first() =~= x@.skip(i + 1));
        assert(y@.skip(i as int).drop_first() =~= y@.skip(i + 1));
        i += 1;
    }
    if i == x.len() {
        i < y.len()
    } else if i == y.len() {
        false
    } else {
        assert(x@.skip(i as int)[0] == x@[i as int]);
        assert(y@.skip(i as int)[0] == y@[i as int]);
        x[i] < y[i]
    }
}

/// A map from strings to strings, kept as the insertions that built it.
#[derive(Debug)]
pub struct PrefixMap<'a> {
    entries: Vec<(&'a str, &'a str)>,
}

impl<'a> PrefixMap<'a> {
    /// The insertions, as plain values.
    pub closed spec fn pairs(&self) -> Seq<(Seq<char>, Seq<char>)> {
        self.entries@.map_values(|e: (&'a str, &'a str)| (e.0@, e.1@))
    }

    pub open spec fn map(&self) -> Map<Seq<char>, Seq<char>> {
        pairs_map(self.pairs())
    }

    pub fn new() -> (m: Self)
        ensures
            m.map() == Map::<Seq<char>, Seq<char>>::empty(),
    {
        let m = PrefixMap { entries: Vec::new() };
        assert(m.pairs() =~= Seq::<(Seq<char>, Seq<char>)>::empty());
        m
    }

    /// Number of insertions kept.
    pub fn len(&self) -> (n: usize)
        ensures
            n == self.pairs().len(),
    {
        self.entries.len()
    }

    /// Associates `value` with `key`, replacing what `key` was associated with before.
    pub fn insert(&mut self, key: &'a str, value: &'a str)
        ensures
            final(self).map() == old(self).map().insert(key@, value@),
    {
        let ghost old_pairs = self.pairs();
        self.entries.push((key, value));
        assert(self.pairs().drop_last() =~= old_pairs);
    }

    /// The value associated with `key`.
    pub fn get(&self, key: &str) -> (r: Option<&'a str>)
        ensures
            match r {
                Some(v) => self.map().dom().contains(key@) && self.map()[key@] == v@,
                None => !self.map().dom().contains(key@),
            },
    {
        let mut j = self.entries.len();
        assert(self.pairs().take(j as int) =~= self.pairs());
        while j > 0
            invariant
                j <= self.entries.len(),
                pairs_map(self.pairs().take(j as int)).dom().contains(key@) == self.map().dom().contains(key@),
                pairs_map(self.pairs().take(j as int)).dom().contains(key@) ==> pairs_map(self.pairs().take(j as int))[key@] == self.map()[key@],
            decreases j,
        {
            let ghost t = self.pairs().take(j as int);
            assert(t.drop_last() =~= self.pairs().take(j - 1));
            assert(t.last() == (self.entries@[j - 1].0@, self.entries@[j - 1].1@));
            let (k, v) = self.entries[j - 1];
            if str_eq(k, key) {
                return Some(v);
            }
            j -= 1;
        }
        assert(self.pairs().take(0) =~= Seq::<(Seq<char>, Seq<char>)>::empty());
        None
    }

    /// Whether `key` is associated with a value.
    pub fn contains_key(&self, key: &str) -> (r: bool)
        ensures
            r == self.map().dom().contains(key@),
    {
        self.get(key).is_some()
    }


    /// The keys of the map, in increasing order.
    pub fn sorted_keys(&self) -> (r: Vec<&'a str>)
        ensures
            str_views(r@) == sorted_keys(self.map()),
            keys_sorted(str_views(r@)),
            forall|k: Seq<char>| #[trigger] str_views(r@).contains(k) <==> self.map().dom().contains(k),
    {
        let ghost ps = self.pairs();
        let mut out: Vec<&'a str> = Vec::new();
        let mut j: usize = 0;
        assert(ps.take(0) =~= Seq::<(Seq<char>, Seq<char>)>::empty());
        while j < self.entries.len()
            invariant
                j <= self.entries.len(),
                ps == self.pairs(),
                ps.len() == self.entries.len(),
                keys_sorted(str_views(out@)),
                forall|k: Seq<char>|
                    #[trigger] str_views(out@).contains(k) <==> pairs_map(
                        ps.take(j as int),
                    ).dom().contains(k),
            decreases self.entries.len() - j,
        {
            let k = self.entries[j].0;
            let ghost kv = k@;
            let ghost ov = str_views(out@);
            assert(ps.take(j + 1).drop_last() =~= ps.take(j as int));
            assert(ps.take(j + 1).last().0 == kv);
            let mut p: usize = 0;
            loop
                invariant
                    p <= out.len(),
                    ov == str_views(out@),
                    kv == k@,
                    forall|q: int| 0 <= q < p ==> chars_lt(#[trigger] ov[q], kv),
                ensures
                    p <= out.len(),
                    forall|q: int| 0 <= q < p ==> chars_lt(#[trigger] ov[q], kv),
                    p < out.len() ==> (ov[p as int] == kv || chars_lt(kv, ov[p as int])),
                decreases out.len() - p,
            {
                if p == out.len() {
                    break;
                }
                assert(ov[p as int] == out@[p as int]@);
                let same = str_eq(out[p], k);
                let before = str_lt(k, out[p]);
                if same || before {
                    break;
                }
                proof {
                    lemma_chars_lt_total(ov[p as int], kv);
                }
                p += 1;
            }
            let found = p < out.len() && str_eq(out[p], k);
            assert(p < out.len() ==> ov[p as int] == out@[p as int]@);
            if !found {
                proof {
                    if p < ov.len() {
                        assert(chars_lt(kv, ov[p as int]));
                    }
                    assert forall|q: int| p <= q < ov.len() implies chars_lt(kv, #[trigger] ov[q]) by {
                        if q > p {
                            lemma_chars_lt_transitive(kv, ov[p as int], ov[q]);
                        }
                    }
                }
                out.insert(p, k);
                proof {
                    let nv = str_views(out@);
                    assert(nv =~= ov.insert(p as int, kv));
                    assert forall|x: int, y: int| 0 <= x < y < nv.len() implies chars_lt(
                        #[trigger] nv[x],
                        #[trigger] nv[y],
                    ) by {
                        if y < p {
                        } else if y == p {
                        } else if x < p {
                            lemma_chars_lt_transitive(nv[x], kv, nv[y]);
                        } else if x == p {
                        } else {
                        }
                    }
                    assert forall|k2: Seq<char>| #[trigger] nv.contains(k2) <==> pairs_map(
                        ps.take(j + 1),
                    ).dom().contains(k2) by {
                        if nv.contains(k2) && k2 != kv {
                            let x = choose|x: int| 0 <= x < nv.len() && nv[x] == k2;
                            if x < p {
                                assert(ov[x] == k2);
                            } else {
                                assert(ov[x - 1] == k2);
                            }
                            assert(ov.contains(k2));
                        }
                        if k2 == kv {
                            assert(nv[p as int] == kv);
                        } else if ov.contains(k2) {
                            let x = choose|x: int| 0 <= x < ov.len() && ov[x] == k2;
                            if x < p {
                                assert(nv[x] == k2);
                            } else {
                                assert(nv[x + 1] == k2);
                            }
                        }
                    }
                }
            } else {
                proof {
                    assert(ov[p as int] == kv);
                    assert(ov.contains(kv));
                    assert forall|k2: Seq<char>| #[trigger] ov.contains(k2) <==> pairs_map(
                        ps.take(j + 1),
                    ).dom().contains(k2) by {}
                }
            }
            j += 1;
        }
        assert(ps.take(j as int) =~= ps);
        proof {
            let v = str_views(out@);
            let m = self.map();
            assert(keys_sorted(v) && forall|k: Seq<char>| #[trigger] v.contains(k) <==> m.dom().contains(k));
            let w = sorted_keys(m);
            lemma_sorted_unique(v, w);
        }
        out
    }

    /// Removes what `key` is associated with.
    pub fn remove(&mut self, key: &str)
        ensures
            final(self).map() == old(self).map().remove(key@),
    {
        let ghost old_pairs = self.pairs();
        let mut kept: Vec<(&'a str, &'a str)> = Vec::new();
        let mut i: usize = 0;
        while i < self.entries.len()
            invariant
                i <= self.entries.len(),
                old_pairs == self.pairs(),
                kept@.map_values(|e: (&'a str, &'a str)| (e.0@, e.1@)) == pairs_without(
                    old_pairs.take(i as int),
                    key@,
                ),
            decreases self.entries.len() - i,
        {
            let (k, v) = self.entries[i];
            let ghost before = kept@.map_values(|e: (&'a str, &'a str)| (e.0@, e.1@));
            assert(old_pairs.take(i + 1) =~= old_pairs.take(i as int).push((k@, v@)));
            proof {
                lemma_filter_push(old_pairs.take(i as int), (k@, v@), key@);
            }
            if !str_eq(k, key) {
                kept.push((k, v));
                assert(kept@.map_values(|e: (&'a str, &'a str)| (e.0@, e.1@)) =~= before.push(
                    (k@, v@),
                ));
            }
            i += 1;
        }
        assert(old_pairs.take(i as int) =~= old_pairs);
        self.entries = kept;
        proof {
            lemma_pairs_without(old_pairs, key@);
        }
    }
}

proof fn lemma_filter_push(s: Seq<(Seq<char>, Seq<char>)>, p: (Seq<char>, Seq<char>), k: Seq<char>)
    ensures
        pairs_without(s.push(p), k) == if p.0 != k {
            pairs_without(s, k).push(p)
        } else {
            pairs_without(s, k)
        },
{
    let f = |q: (Seq<char>, Seq<char>)| q.0 != k;
    assert(s.push(p).drop_last() =~= s);
    reveal_with_fuel(Seq::filter, 1);
}

/// Dropping the insertions of `k` removes `k` from the map.
pub proof fn lemma_pairs_without(s: Seq<(Seq<char>, Seq<char>)>, k: Seq<char>)
    ensures
        pairs_map(pairs_without(s, k)) == pairs_map(s).remove(k),
    decreases s.len(),
{
    if s.len() == 0 {
        assert(pairs_without(s, k) =~= s);
        assert(pairs_map(s).remove(k) =~= pairs_map(s));
    } else {
        let t = s.drop_last();
        let p = s.last();
        assert(t.push(p) =~= s);
        lemma_filter_push(t, p, k);
        lemma_pairs_without(t, k);
        if p.0 != k {
            assert(pairs_without(s, k).drop_last() =~= pairs_without(t, k));
            assert(pairs_map(pairs_without(s, k)) =~= pairs_map(s).remove(k));
        } else {
            assert(pairs_map(pairs_without(s, k)) =~= pairs_map(s).remove(k));
        }
    }
}

} // verus!
