//! An insertion-ordered table keyed by strings.
//!
//! The table is modelled as a sequence of `(key, value)` pairs in which no key
//! occurs twice; `to_map` forgets the order.

use vstd::prelude::*;
use crate::text::str_eq;

verus! {

/// Some pair of `s` has the key `k`.
pub open spec fn has_key<T>(s: Seq<(Seq<char>, T)>, k: Seq<char>) -> bool {
    exists|i: int| 0 <= i < s.len() && (#[trigger] s[i]).0 == k
}

/// A position of `s` that holds the key `k`, if there is one.
pub open spec fn key_index<T>(s: Seq<(Seq<char>, T)>, k: Seq<char>) -> int {
    choose|i: int| 0 <= i < s.len() && (#[trigger] s[i]).0 == k
}

/// No key occurs at two positions of `s`.
pub open spec fn unique_keys<T>(s: Seq<(Seq<char>, T)>) -> bool {
    forall|i: int, j: int| 0 <= i < j < s.len() ==> (#[trigger] s[i]).0 != (#[trigger] s[j]).0
}

/// The mapping from keys to values that `s` stands for.
pub open spec fn to_map<T>(s: Seq<(Seq<char>, T)>) -> Map<Seq<char>, T> {
    Map::new(|k: Seq<char>| has_key(s, k), |k: Seq<char>| s[key_index(s, k)].1)
}

/// `s` with `k` bound to `v`: in place where `k` was bound, at the end otherwise.
pub open spec fn put<T>(s: Seq<(Seq<char>, T)>, k: Seq<char>, v: T) -> Seq<(Seq<char>, T)> {
    if has_key(s, k) {
        s.update(key_index(s, k), (k, v))
    } else {
        s.push((k, v))
    }
}

/// `s` without the pair of key `k`; the other pairs keep their order.
pub open spec fn discard<T>(s: Seq<(Seq<char>, T)>, k: Seq<char>) -> Seq<(Seq<char>, T)> {
    if has_key(s, k) {
        s.remove(key_index(s, k))
    } else {
        s
    }
}

/// The values of `s`, in their order.
pub open spec fn values_of<T>(s: Seq<(Seq<char>, T)>) -> Seq<T> {
    Seq::new(s.len(), |i: int| s[i].1)
}

/// The empty table stands for the empty mapping.
pub proof fn lemma_empty_map<T>()
    ensures
        to_map(Seq::<(Seq<char>, T)>::empty()) == Map::<Seq<char>, T>::empty(),
        unique_keys(Seq::<(Seq<char>, T)>::empty()),
{
    assert(to_map(Seq::<(Seq<char>, T)>::empty()) =~= Map::<Seq<char>, T>::empty());
}

/// In a table without repeated keys, a key found at `i` is found nowhere else.
pub proof fn lemma_key_index<T>(s: Seq<(Seq<char>, T)>, i: int)
    requires
        unique_keys(s),
        0 <= i < s.len(),
    ensures
        has_key(s, s[i].0),
        key_index(s, s[i].0) == i,
        to_map(s).contains_key(s[i].0),
        to_map(s)[s[i].0] == s[i].1,
{
    let j = key_index(s, s[i].0);
    if j < i {
        assert(s[j].0 != s[i].0);
    } else if i < j {
        assert(s[i].0 != s[j].0);
    }
}

/// `put` keeps keys unique and acts on the mapping as `Map::insert`.
pub proof fn lemma_put<T>(s: Seq<(Seq<char>, T)>, k: Seq<char>, v: T)
    requires
        unique_keys(s),
    ensures
        unique_keys(put(s, k, v)),
        to_map(put(s, k, v)) == to_map(s).insert(k, v),
        has_key(put(s, k, v), k),
        put(s, k, v).len() == if has_key(s, k) { s.len() } else { s.len() + 1 },
        forall|q: Seq<char>| #[trigger] has_key(put(s, k, v), q) == (q == k || has_key(s, q)),
{
    let r = put(s, k, v);
    let at = if has_key(s, k) { key_index(s, k) } else { s.len() as int };
    assert(r[at] == (k, v));
    assert forall|i: int, j: int| 0 <= i < j < r.len() implies (#[trigger] r[i]).0 != (
    #[trigger] r[j]).0 by {
        if has_key(s, k) {
            assert(s[at].0 == k);
            assert(s[i].0 != s[j].0);
        } else {
            if j == s.len() {
                assert(s[i].0 != k);
            } else {
                assert(s[i].0 != s[j].0);
            }
        }
    }
    assert forall|q: Seq<char>| #[trigger] has_key(r, q) == (q == k || has_key(s, q)) by {
        if has_key(r, q) {
            let i = key_index(r, q);
            if i != at {
                assert(s[i].0 == q);
            }
        }
        if q != k && has_key(s, q) {
            let i = key_index(s, q);
            assert(r[i].0 == q);
        }
    }
    assert forall|q: Seq<char>| has_key(r, q) implies #[trigger] to_map(r)[q] == to_map(s).insert(
        k,
        v,
    )[q] by {
        let i = key_index(r, q);
        lemma_key_index(r, i);
        if q == k {
            lemma_key_index(r, at);
        } else {
            let j = key_index(s, q);
            assert(r[j] == s[j]);
            lemma_key_index(r, j);
        }
    }
    assert(to_map(r) =~= to_map(s).insert(k, v));
}

/// `discard` keeps keys unique and acts on the mapping as `Map::remove`.
pub proof fn lemma_discard<T>(s: Seq<(Seq<char>, T)>, k: Seq<char>)
    requires
        unique_keys(s),
    ensures
        unique_keys(discard(s, k)),
        to_map(discard(s, k)) == to_map(s).remove(k),
        !has_key(discard(s, k), k),
        discard(s, k).len() == if has_key(s, k) { s.len() - 1 } else { s.len() as int },
        forall|q: Seq<char>| #[trigger] has_key(discard(s, k), q) == (q != k && has_key(s, q)),
{
    let r = discard(s, k);
    if has_key(s, k) {
        let at = key_index(s, k);
        assert forall|i: int| 0 <= i < r.len() implies #[trigger] r[i] == s[if i < at { i } else { i + 1 }] by {}
        assert forall|i: int, j: int| 0 <= i < j < r.len() implies (#[trigger] r[i]).0 != (
        #[trigger] r[j]).0 by {
            let i2 = if i < at { i } else { i + 1 };
            let j2 = if j < at { j } else { j + 1 };
            assert(s[i2].0 != s[j2].0);
        }
        assert forall|q: Seq<char>| #[trigger] has_key(r, q) == (q != k && has_key(s, q)) by {
            if has_key(r, q) {
                let i = key_index(r, q);
                let i2 = if i < at { i } else { i + 1 };
                assert(s[i2].0 == q);
                if q == k {
                    lemma_key_index(s, i2);
                }
            }
            if q != k && has_key(s, q) {
                let i = key_index(s, q);
                let i2 = if i < at { i } else { i - 1 };
                assert(r[i2].0 == q);
            }
        }
        assert forall|q: Seq<char>| has_key(r, q) implies #[trigger] to_map(r)[q] == to_map(
            s,
        ).remove(k)[q] by {
            let i = key_index(r, q);
            let i2 = if i < at { i } else { i + 1 };
            lemma_key_index(s, i2);
        }
        assert(to_map(r) =~= to_map(s).remove(k));
    } else {
        assert(to_map(r) =~= to_map(s).remove(k));
    }
}

/// A table from strings to values of type `V` that remembers the order in
/// which its keys were first bound.
pub struct KeyedList<V> {
    entries: Vec<(String, V)>,
}

impl<V: View> View for KeyedList<V> {
    type V = Seq<(Seq<char>, V::V)>;

    closed spec fn view(&self) -> Seq<(Seq<char>, V::V)> {
        Seq::new(self.entries@.len(), |i: int| (self.entries@[i].0@, self.entries@[i].1@))
    }
}

impl<V: View> KeyedList<V> {
    /// No key is bound twice.
    pub open spec fn wf(&self) -> bool {
        unique_keys(self@)
    }

    /// The mapping from keys to the views of their values.
    pub open spec fn map(&self) -> Map<Seq<char>, V::V> {
        to_map(self@)
    }

    /// The table without any binding.
    pub fn new() -> (t: Self)
        ensures
            t@ == Seq::<(Seq<char>, V::V)>::empty(),
            t.wf(),
            t.map() == Map::<Seq<char>, V::V>::empty(),
    {
        let t = KeyedList { entries: Vec::new() };
        proof {
            assert(t@ =~= Seq::<(Seq<char>, V::V)>::empty());
            lemma_empty_map::<V::V>();
        }
        t
    }

    /// The number of bindings.
    pub fn len(&self) -> (n: usize)
        ensures
            n == self@.len(),
    {
        self.entries.len()
    }

    /// The key of the binding at position `i`.
    pub fn key_at(&self, i: usize) -> (k: &String)
        requires
            i < self@.len(),
        ensures
            k@ == self@[i as int].0,
    {
        &self.entries[i].0
    }

    /// The value of the binding at position `i`.
    pub fn value_at(&self, i: usize) -> (v: &V)
        requires
            i < self@.len(),
        ensures
            v@ == self@[i as int].1,
    {
        &self.entries[i].1
    }

    /// The position at which `key` is bound, if it is.
    pub fn position(&self, key: &str) -> (r: Option<usize>)
        requires
            self.wf(),
        ensures
            r is Some <==> has_key(self@, key@),
            r matches Some(i) ==> i < self@.len() && key_index(self@, key@) == i && self@[i as int].0
                == key@,
    {
        let mut i: usize = 0;
        while i < self.entries.len()
            invariant
                i <= self.entries@.len(),
                self@.len() == self.entries@.len(),
                self.wf(),
                forall|j: int| 0 <= j < i ==> (#[trigger] self@[j]).0 != key@,
            decreases self.entries@.len() - i,
        {
            if str_eq(self.entries[i].0.as_str(), key) {
                proof {
                    lemma_key_index(self@, i as int);
                }
                return Some(i);
            }
            i += 1;
        }
        None
    }

    /// Whether `key` is bound.
    pub fn contains_key(&self, key: &str) -> (b: bool)
        requires
            self.wf(),
        ensures
            b == has_key(self@, key@),
            b == self.map().contains_key(key@),
    {
        self.position(key).is_some()
    }

    /// The value bound to `key`, if any.
    pub fn get(&self, key: &str) -> (r: Option<&V>)
        requires
            self.wf(),
        ensures
            r is Some <==> self.map().contains_key(key@),
            r matches Some(v) ==> v@ == self.map()[key@],
    {
        match self.position(key) {
            Some(i) => {
                proof {
                    lemma_key_index(self@, i as int);
                }
                Some(&self.entries[i].1)
            },
            None => None,
        }
    }

    /// Binds `key` to `value`, in place of an earlier binding of `key` if there is one.
    pub fn insert(&mut self, key: String, value: V)
        requires
            old(self).wf(),
        ensures
            final(self)@ == put(old(self)@, key@, value@),
            final(self).wf(),
            final(self).map() == old(self).map().insert(key@, value@),
    {
        proof {
            lemma_put(self@, key@, value@);
        }
        match self.position(key.as_str()) {
            Some(i) => {
                self.entries.set(i, (key, value));
                assert(self@ =~= put(old(self)@, key@, value@));
            },
            None => {
                self.entries.push((key, value));
                assert(self@ =~= put(old(self)@, key@, value@));
            },
        }
    }

    /// Removes the binding of `key`, if there is one, and hands its value out.
    pub fn remove(&mut self, key: &str) -> (r: Option<V>)
        requires
            old(self).wf(),
        ensures
            final(self)@ == discard(old(self)@, key@),
            final(self).wf(),
            final(self).map() == old(self).map().remove(key@),
            r is Some <==> old(self).map().contains_key(key@),
            r matches Some(v) ==> v@ == old(self).map()[key@],
    {
        proof {
            lemma_discard(self@, key@);
        }
        match self.position(key) {
            Some(i) => {
                proof {
                    lemma_key_index(self@, i as int);
                }
                let pair = self.entries.remove(i);
                assert(self@ =~= discard(old(self)@, key@));
                Some(pair.1)
            },
            None => None,
        }
    }

    /// Removes every binding.
    pub fn clear(&mut self)
        ensures
            final(self)@ == Seq::<(Seq<char>, V::V)>::empty(),
            final(self).wf(),
            final(self).map() == Map::<Seq<char>, V::V>::empty(),
    {
        self.entries.clear();
        proof {
            assert(self@ =~= Seq::<(Seq<char>, V::V)>::empty());
            lemma_empty_map::<V::V>();
        }
    }
}

} // verus!
