//! Map from 128-bit identifiers to values that remembers insertion order.

use crate::select::{is_flagged, keep_flagged, lemma_select, select};
use std::collections::HashMap;
use vstd::prelude::*;

verus! {

broadcast use vstd::std_specs::hash::group_hash_axioms;

/// Whether one of the pairs carries the key `k`.
pub open spec fn has_key<V>(s: Seq<(u128, V)>, k: u128) -> bool {
    exists|i: int| 0 <= i < s.len() && (#[trigger] s[i]).0 == k
}

/// The position of the pair that carries the key `k`.
pub open spec fn position<V>(s: Seq<(u128, V)>, k: u128) -> int {
    choose|i: int| 0 <= i < s.len() && (#[trigger] s[i]).0 == k
}

/// The value stored under `k`.
pub open spec fn lookup<V>(s: Seq<(u128, V)>, k: u128) -> Option<V> {
    if has_key(s, k) {
        Some(s[position(s, k)].1)
    } else {
        None
    }
}

/// `s` with `v` stored under `k`: in place of the value that was there, or at the end.
pub open spec fn upsert<V>(s: Seq<(u128, V)>, k: u128, v: V) -> Seq<(u128, V)> {
    if has_key(s, k) {
        s.update(position(s, k), (k, v))
    } else {
        s.push((k, v))
    }
}

/// No key occurs twice.
pub open spec fn unique_keys<V>(s: Seq<(u128, V)>) -> bool {
    forall|i: int, j: int| 0 <= i < j < s.len() ==> (#[trigger] s[i]).0 != (#[trigger] s[j]).0
}

/// The keys, as a set.
pub open spec fn key_set<V>(s: Seq<(u128, V)>) -> Set<u128> {
    Set::new(|k: u128| has_key(s, k))
}

/// Storing a value keeps keys unique, makes the value the one found under its key and leaves
/// what is stored under other keys as it was.
pub proof fn lemma_upsert<V>(s: Seq<(u128, V)>, k: u128, v: V)
    requires
        unique_keys(s),
    ensures
        unique_keys(upsert(s, k, v)),
        has_key(upsert(s, k, v), k),
        lookup(upsert(s, k, v), k) == Some(v),
        forall|j: u128| j != k ==> #[trigger] lookup(upsert(s, k, v), j) == lookup(s, j),
        forall|j: u128| j != k ==> #[trigger] has_key(upsert(s, k, v), j) == has_key(s, j),
        key_set(upsert(s, k, v)) == key_set(s).insert(k),
{
    let t = upsert(s, k, v);
    if has_key(s, k) {
        let p = position(s, k);
        assert(t[p].0 == k);
    } else {
        assert(t[s.len() as int].0 == k);
    }
    assert(has_key(t, k));
    assert(t[position(t, k)].1 == v);
    assert forall|j: u128| j != k implies #[trigger] has_key(t, j) == has_key(s, j) && lookup(
        t,
        j,
    ) == lookup(s, j) by {
        if has_key(s, j) {
            let p = position(s, j);
            assert(t[p] == s[p]);
            assert(has_key(t, j));
            let q = position(t, j);
            assert(t[q].0 == j);
            assert(q == p);
        }
        if has_key(t, j) {
            let q = position(t, j);
            assert(s[q] == t[q]);
        }
    }
    assert(key_set(t) =~= key_set(s).insert(k));
}

/// Selecting pairs keeps keys unique.
pub proof fn lemma_select_unique<V>(s: Seq<(u128, V)>, flags: Seq<bool>)
    requires
        s.len() <= flags.len(),
        unique_keys(s),
    ensures
        unique_keys(select(s, flags)),
    decreases s.len(),
{
    if s.len() > 0 {
        let before = s.drop_last();
        assert forall|i: int, j: int| 0 <= i < j < before.len() implies (#[trigger]
        before[i]).0 != (#[trigger] before[j]).0 by {
            assert(before[i] == s[i] && before[j] == s[j]);
        }
        lemma_select_unique(before, flags);
        lemma_select(before, flags);
        let kept_before = select(before, flags);
        let kept = select(s, flags);
        let n = s.len() - 1;
        assert forall|i: int, j: int| 0 <= i < j < kept.len() implies (#[trigger] kept[i]).0 != (
        #[trigger] kept[j]).0 by {
            assert(kept[i] == kept_before[i]);
            if j < kept_before.len() {
                assert(kept[j] == kept_before[j]);
            } else {
                assert(kept[j] == s[n]);
                assert(is_flagged(before, flags, kept_before[i]));
                let a = choose|a: int|
                    0 <= a < before.len() && flags[a] && (#[trigger] before[a]) == kept_before[i];
                assert(s[a] == before[a]);
            }
        }
    }
}

/// Values by identifier, in the order in which the identifiers first came.
pub struct IdMap<V> {
    items: Vec<(u128, V)>,
    index: HashMap<u128, usize>,
}

impl<V> View for IdMap<V> {
    type V = Seq<(u128, V)>;

    closed spec fn view(&self) -> Seq<(u128, V)> {
        self.items@
    }
}

impl<V> IdMap<V> {
    /// Keys are unique and the index finds each of them.
    pub closed spec fn wf(&self) -> bool {
        &&& unique_keys(self.items@)
        &&& forall|k: u128| #[trigger] self.index@.contains_key(k) <==> has_key(self.items@, k)
        &&& forall|k: u128| #[trigger]
            self.index@.contains_key(k) ==> self.index@[k] < self.items@.len()
                && self.items@[self.index@[k] as int].0 == k
    }

    /// A well-formed map holds no key twice.
    pub broadcast proof fn lemma_wf_unique(&self)
        requires
            #[trigger] self.wf(),
        ensures
            unique_keys(self@),
    {
    }

    /// An empty map.
    pub fn new() -> (r: Self)
        ensures
            r.wf(),
            r@ == Seq::<(u128, V)>::empty(),
    {
        IdMap { items: Vec::new(), index: HashMap::new() }
    }

    /// The number of identifiers.
    pub fn len(&self) -> (n: usize)
        ensures
            n == self@.len(),
    {
        self.items.len()
    }

    /// Whether `k` is stored.
    pub fn contains_key(&self, k: u128) -> (r: bool)
        requires
            self.wf(),
        ensures
            r == has_key(self@, k),
    {
        self.index.contains_key(&k)
    }

    /// The value stored under `k`.
    pub fn get(&self, k: u128) -> (r: Option<&V>)
        requires
            self.wf(),
        ensures
            match r {
                Some(v) => lookup(self@, k) == Some(*v),
                None => lookup(self@, k) is None,
            },
    {
        match self.index.get(&k) {
            Some(i) => {
                let at: usize = *i;
                assert(self.items@[position(self.items@, k)].0 == k);
                assert(position(self.items@, k) == at);
                Some(&self.items[at].1)
            },
            None => None,
        }
    }

    /// The identifier at position `i`.
    pub fn key_at(&self, i: usize) -> (k: u128)
        requires
            i < self@.len(),
        ensures
            k == self@[i as int].0,
    {
        self.items[i].0
    }

    /// The value at position `i`.
    pub fn value_at(&self, i: usize) -> (v: &V)
        requires
            i < self@.len(),
        ensures
            *v == self@[i as int].1,
    {
        &self.items[i].1
    }

    /// Keeps the pairs whose flag is set.
    pub fn keep(&mut self, flags: &Vec<bool>)
        requires
            old(self).wf(),
            flags@.len() == old(self)@.len(),
        ensures
            final(self).wf(),
            final(self)@ == select(old(self)@, flags@),
    {
        let ghost all = self.items@;
        proof {
            lemma_select_unique(all, flags@);
        }
        keep_flagged(&mut self.items, flags);
        let mut index: HashMap<u128, usize> = HashMap::new();
        let mut i: usize = 0;
        while i < self.items.len()
            invariant
                i <= self.items@.len(),
                unique_keys(self.items@),
                forall|k: u128| #[trigger]
                    index@.contains_key(k) <==> has_key(self.items@.take(i as int), k),
                forall|k: u128| #[trigger]
                    index@.contains_key(k) ==> index@[k] < i && self.items@[index@[k] as int].0
                        == k,
            decreases self.items@.len() - i,
        {
            let key: u128 = self.items[i].0;
            let ghost before = self.items@.take(i as int);
            let ghost now = self.items@.take(i + 1);
            index.insert(key, i);
            proof {
                assert forall|k: u128| #[trigger] index@.contains_key(k) <==> has_key(now, k) by {
                    if has_key(before, k) {
                        let p = position(before, k);
                        assert(now[p] == before[p]);
                    }
                    if k == key {
                        assert(now[i as int].0 == k);
                    }
                    if has_key(now, k) && k != key {
                        let p = position(now, k);
                        assert(before[p] == now[p]);
                    }
                }
            }
            i = i + 1;
        }
        assert(self.items@.take(i as int) =~= self.items@);
        self.index = index;
    }

    /// Stores `v` under `k`.
    pub fn insert(&mut self, k: u128, v: V)
        requires
            old(self).wf(),
        ensures
            final(self).wf(),
            final(self)@ == upsert(old(self)@, k, v),
    {
        let ghost before = self.items@;
        proof {
            lemma_upsert(before, k, v);
        }
        let found = match self.index.get(&k) {
            Some(i) => Some(*i),
            None => None,
        };
        match found {
            Some(at) => {
                assert(before[position(before, k)].0 == k);
                assert(position(before, k) == at);
                self.items[at] = (k, v);
            },
            None => {
                let at: usize = self.items.len();
                self.items.push((k, v));
                self.index.insert(k, at);
                assert(self.items@[at as int].0 == k);
            },
        }
        assert(self.items@ == upsert(before, k, v));
    }
}

} // verus!
