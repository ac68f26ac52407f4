use std::collections::HashMap;
use vstd::prelude::*;
use vstd::std_specs::hash::spec_hash_map_iter;
use vstd::std_specs::iter::IteratorSpec;

verus! {

broadcast use vstd::std_specs::hash::group_hash_axioms;

/// Whether `entries` lists every entry of `m`, each under its key, and no key twice.
pub open spec fn lists<K, V>(entries: Seq<(K, V)>, m: Map<K, V>) -> bool {
    &&& forall|j: int|
        0 <= j < entries.len() ==> m.contains_key((#[trigger] entries[j]).0) && m[entries[j].0]
            == entries[j].1
    &&& forall|k: K| #[trigger]
        m.contains_key(k) ==> exists|j: int| 0 <= j < entries.len() && (#[trigger] entries[j]).0 == k
    &&& forall|j1: int, j2: int|
        0 <= j1 < j2 < entries.len() ==> (#[trigger] entries[j1]).0 != (#[trigger] entries[j2]).0
}

/// The entries of `m`, each once, in the order in which the map hands them out.
pub fn map_entries<V: Copy>(m: &HashMap<u64, V>) -> (r: Vec<(u64, V)>)
    ensures
        lists(r@, m@),
{
    let mut out: Vec<(u64, V)> = Vec::new();
    let ghost pairs = spec_hash_map_iter(m).remaining();
    for pair in it: m.iter()
        invariant
            it.seq() == pairs,
            pairs.no_duplicates(),
            out@.len() == it.index(),
            forall|j: int| 0 <= j < out@.len() ==> #[trigger] out@[j] == (*pairs[j].0, *pairs[j].1),
    {
        let (k, v) = pair;
        out.push((*k, *v));
    }
    proof {
        assert(out@.len() == pairs.len());
        assert forall|k: u64| #[trigger] m@.contains_key(k) implies exists|j: int|
            0 <= j < out@.len() && (#[trigger] out@[j]).0 == k by {
            assert(pairs.contains((&k, &m@[k])));
            let j = choose|j: int| 0 <= j < pairs.len() && pairs[j] == (&k, &m@[k]);
            assert(out@[j].0 == k);
        }
        assert forall|j1: int, j2: int| 0 <= j1 < j2 < out@.len() implies (#[trigger] out@[j1]).0 != (
        #[trigger] out@[j2]).0 by {
            if out@[j1].0 == out@[j2].0 {
                assert(m@[*pairs[j1].0] == *pairs[j1].1);
                assert(m@[*pairs[j2].0] == *pairs[j2].1);
                assert(pairs[j1] == pairs[j2]);
            }
        }
        assert forall|j: int| 0 <= j < out@.len() implies m@.contains_key((#[trigger] out@[j]).0)
            && m@[out@[j].0] == out@[j].1 by {
            assert(m@.contains_key(*pairs[j].0));
            assert(m@[*pairs[j].0] == *pairs[j].1);
        }
    }
    out
}

/// A finite map keyed by a pair of integers, stored as one bucket per first
/// component so that everything under one first component can be taken out
/// at once. A bucket that `remove` empties is dropped.
pub struct PairMap<V> {
    buckets: HashMap<u64, HashMap<u64, V>>,
}

impl<V> View for PairMap<V> {
    type V = Map<(u64, u64), V>;

    closed spec fn view(&self) -> Map<(u64, u64), V> {
        Map::new(
            |k: (u64, u64)|
                self.buckets@.contains_key(k.0) && self.buckets@[k.0]@.contains_key(k.1),
            |k: (u64, u64)| self.buckets@[k.0]@[k.1],
        )
    }
}

impl<V> PairMap<V> {
    /// The empty map.
    pub fn new() -> (m: Self)
        ensures
            m@ == Map::<(u64, u64), V>::empty(),
    {
        let m = PairMap { buckets: HashMap::new() };
        assert(m@ =~= Map::<(u64, u64), V>::empty());
        m
    }

    /// Whether `(a, b)` is a key of the map.
    pub fn contains_key(&self, a: u64, b: u64) -> (r: bool)
        ensures
            r == self@.contains_key((a, b)),
    {
        match self.buckets.get(&a) {
            Some(bucket) => bucket.contains_key(&b),
            None => false,
        }
    }

    /// The value stored under `(a, b)`, if there is one.
    pub fn get(&self, a: u64, b: u64) -> (r: Option<V>) where V: Copy
        ensures
            r == (if self@.contains_key((a, b)) {
                Some(self@[(a, b)])
            } else {
                None
            }),
    {
        match self.buckets.get(&a) {
            Some(bucket) => match bucket.get(&b) {
                Some(v) => Some(*v),
                None => None,
            },
            None => None,
        }
    }

    /// Stores `v` under `(a, b)`, replacing what was there.
    pub fn insert(&mut self, a: u64, b: u64, v: V)
        ensures
            final(self)@ == old(self)@.insert((a, b), v),
    {
        let mut bucket = match self.buckets.remove(&a) {
            Some(bucket) => bucket,
            None => HashMap::new(),
        };
        bucket.insert(b, v);
        self.buckets.insert(a, bucket);
        assert(self@ =~= old(self)@.insert((a, b), v));
    }

    /// Removes the entry under `(a, b)`, if there is one.
    pub fn remove(&mut self, a: u64, b: u64)
        ensures
            final(self)@ == old(self)@.remove((a, b)),
    {
        match self.buckets.remove(&a) {
            Some(bucket) => {
                let mut bucket = bucket;
                bucket.remove(&b);
                if !bucket.is_empty() {
                    self.buckets.insert(a, bucket);
                }
            },
            None => {},
        }
        assert(self@ =~= old(self)@.remove((a, b)));
    }

    /// Removes every entry whose first component is `a` and hands back what
    /// was stored under them, keyed by second component.
    pub fn take_prefix(&mut self, a: u64) -> (taken: HashMap<u64, V>)
        ensures
            final(self)@ == Self::without_prefix(old(self)@, a),
            taken@ == Self::under_prefix(old(self)@, a),
    {
        let taken = match self.buckets.remove(&a) {
            Some(bucket) => bucket,
            None => HashMap::new(),
        };
        assert(self@ =~= Self::without_prefix(old(self)@, a));
        assert(taken@ =~= Self::under_prefix(old(self)@, a));
        taken
    }

    /// The entries of the map, each once.
    pub fn entries(&self) -> (r: Vec<((u64, u64), V)>) where V: Copy
        ensures
            lists(r@, self@),
    {
        let mut out: Vec<((u64, u64), V)> = Vec::new();
        let ghost buckets = spec_hash_map_iter(&self.buckets).remaining();
        for pair in it: self.buckets.iter()
            invariant
                it.seq() == buckets,
                buckets.no_duplicates(),
                forall|i: int|
                    0 <= i < buckets.len() ==> self.buckets@.contains_key(*(#[trigger] buckets[i]).0)
                        && self.buckets@[*buckets[i].0] == *buckets[i].1,
                forall|j: int|
                    0 <= j < out@.len() ==> self@.contains_key((#[trigger] out@[j]).0)
                        && self@[out@[j].0] == out@[j].1 && Self::among(
                        buckets,
                        it.index(),
                        out@[j].0.0,
                    ),
                forall|k: (u64, u64)| #[trigger]
                    self@.contains_key(k) && Self::among(buckets, it.index(), k.0) ==> exists|j: int|
                        0 <= j < out@.len() && (#[trigger] out@[j]).0 == k,
                forall|j1: int, j2: int|
                    0 <= j1 < j2 < out@.len() ==> (#[trigger] out@[j1]).0 != (#[trigger] out@[j2]).0,
        {
            let (a, bucket) = pair;
            let ghost n = it.index();
            let ghost base = out@;
            assert(self.buckets@.contains_key(*a) && self.buckets@[*a] == *bucket);
            let inner = map_entries(bucket);
            let mut t: usize = 0;
            while t < inner.len()
                invariant
                    t <= inner.len(),
                    out@.len() == base.len() + t,
                    forall|j: int| 0 <= j < base.len() ==> #[trigger] out@[j] == base[j],
                    forall|u: int|
                        0 <= u < t ==> #[trigger] out@[base.len() + u] == ((*a, inner@[u].0), inner@[u].1),
                decreases inner.len() - t,
            {
                let (b, v) = inner[t];
                out.push(((*a, b), v));
                t += 1;
            }
            proof {
                assert forall|j: int| 0 <= j < out@.len() implies self@.contains_key(
                    (#[trigger] out@[j]).0,
                ) && self@[out@[j].0] == out@[j].1 && Self::among(buckets, n + 1, out@[j].0.0) by {
                    if j < base.len() {
                        assert(out@[j] == base[j]);
                        let i = choose|i: int| 0 <= i < n && *(#[trigger] buckets[i]).0 == base[j].0.0;
                        assert(0 <= i < n + 1 && *buckets[i].0 == out@[j].0.0);
                    } else {
                        let u = j - base.len();
                        assert(out@[base.len() + u] == ((*a, inner@[u].0), inner@[u].1));
                        assert(bucket@.contains_key(inner@[u].0));
                        assert(0 <= n < n + 1 && *buckets[n].0 == *a);
                    }
                }
                assert forall|k: (u64, u64)| #[trigger]
                    self@.contains_key(k) && Self::among(buckets, n + 1, k.0) implies exists|j: int|
                    0 <= j < out@.len() && (#[trigger] out@[j]).0 == k by {
                    let i = choose|i: int| 0 <= i < n + 1 && *(#[trigger] buckets[i]).0 == k.0;
                    if i < n {
                        assert(Self::among(buckets, n, k.0));
                        let j = choose|j: int| 0 <= j < base.len() && (#[trigger] base[j]).0 == k;
                        assert(out@[j] == base[j]);
                    } else {
                        assert(k.0 == *a);
                        assert(bucket@.contains_key(k.1));
                        let u = choose|u: int| 0 <= u < inner@.len() && (#[trigger] inner@[u]).0 == k.1;
                        assert(out@[base.len() + u] == ((*a, inner@[u].0), inner@[u].1));
                        assert(out@[base.len() + u].0 == k);
                    }
                }
                assert forall|j1: int, j2: int| 0 <= j1 < j2 < out@.len() implies (
                #[trigger] out@[j1]).0 != (#[trigger] out@[j2]).0 by {
                    if j2 < base.len() {
                        assert(out@[j1] == base[j1] && out@[j2] == base[j2]);
                    } else if j1 >= base.len() {
                        let u1 = j1 - base.len();
                        let u2 = j2 - base.len();
                        assert(out@[base.len() + u1] == ((*a, inner@[u1].0), inner@[u1].1));
                        assert(out@[base.len() + u2] == ((*a, inner@[u2].0), inner@[u2].1));
                        assert(inner@[u1].0 != inner@[u2].0);
                    } else {
                        let u2 = j2 - base.len();
                        assert(out@[j1] == base[j1]);
                        assert(out@[base.len() + u2] == ((*a, inner@[u2].0), inner@[u2].1));
                        let i = choose|i: int| 0 <= i < n && *(#[trigger] buckets[i]).0 == base[j1].0.0;
                        if *buckets[i].0 == *a {
                            assert(self.buckets@[*buckets[i].0] == *buckets[i].1);
                            assert(self.buckets@[*buckets[n].0] == *buckets[n].1);
                            assert(buckets[i] == buckets[n]);
                        }
                    }
                }
            }
        }
        proof {
            assert forall|k: (u64, u64)| #[trigger] self@.contains_key(k) implies exists|j: int|
                0 <= j < out@.len() && (#[trigger] out@[j]).0 == k by {
                assert(self.buckets@.contains_key(k.0));
                assert(buckets.contains((&k.0, &self.buckets@[k.0])));
                let i = choose|i: int|
                    0 <= i < buckets.len() && buckets[i] == (&k.0, &self.buckets@[k.0]);
                assert(*buckets[i].0 == k.0);
                assert(Self::among(buckets, buckets.len() as int, k.0));
            }
        }
        out
    }

    /// Whether `a` is the key of one of the first `n` of `buckets`.
    spec fn among(buckets: Seq<(&u64, &HashMap<u64, V>)>, n: int, a: u64) -> bool {
        exists|i: int| 0 <= i < n && *(#[trigger] buckets[i]).0 == a
    }

    /// `m` without the entries whose first component is `a`.
    pub open spec fn without_prefix(m: Map<(u64, u64), V>, a: u64) -> Map<(u64, u64), V> {
        Map::new(|k: (u64, u64)| m.contains_key(k) && k.0 != a, |k: (u64, u64)| m[k])
    }

    /// The entries of `m` whose first component is `a`, keyed by second component.
    pub open spec fn under_prefix(m: Map<(u64, u64), V>, a: u64) -> Map<u64, V> {
        Map::new(|b: u64| m.contains_key((a, b)), |b: u64| m[(a, b)])
    }
}

} // verus!
