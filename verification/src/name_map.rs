//! A map keyed by names, kept in the order of names.
//!
//! This is what the declarative definitions (`actions.yaml`, `flows.yaml`,
//! `targets.yaml`) are read into: every name occurs once, and the entries are
//! walked in the order of their names.
use vstd::prelude::*;

use crate::text::{
    chars_of, lemma_name_lt_irreflexive, lemma_name_lt_total, lemma_name_lt_transitive, name_less,
    name_lt, strictly_sorted, views,
};

verus! {

/// Entries keyed by names; every name occurs once and the entries are kept in
/// the order of their names.
#[derive(Debug, Clone, PartialEq, Eq)]
pub struct NameMap<V> {
    entries: Vec<(String, V)>,
}

impl<V> NameMap<V> {
    /// The names, in order.
    pub closed spec fn keys(&self) -> Seq<Seq<char>> {
        self.entries@.map_values(|e: (String, V)| e.0@)
    }

    /// The names as strings, in order.
    pub closed spec fn key_strings(&self) -> Seq<String> {
        self.entries@.map_values(|e: (String, V)| e.0)
    }

    /// The names are the views of the name strings.
    pub proof fn lemma_key_strings(&self)
        ensures
            self.keys() == views(self.key_strings()),
            self.key_strings().len() == self.keys().len(),
    {
        assert(self.keys() =~= views(self.key_strings()));
    }

    /// The values, in the order of their names.
    pub closed spec fn values(&self) -> Seq<V> {
        self.entries@.map_values(|e: (String, V)| e.1)
    }

    /// Every name occurs once and the names are in order.
    pub open spec fn wf(&self) -> bool {
        &&& self.keys().len() == self.values().len()
        &&& strictly_sorted(self.keys())
    }

    /// Whether `k` is one of the names.
    pub open spec fn contains_key(&self, k: Seq<char>) -> bool {
        self.keys().contains(k)
    }

    /// The value under the name `k`.
    pub open spec fn value_of(&self, k: Seq<char>) -> V
        recommends
            self.contains_key(k),
    {
        self.values()[self.position_of(k)]
    }

    /// The position of the name `k`.
    pub open spec fn position_of(&self, k: Seq<char>) -> int
        recommends
            self.contains_key(k),
    {
        choose|i: int| 0 <= i < self.keys().len() && self.keys()[i] == k
    }

    /// The entries as a mathematical map.
    pub open spec fn to_map(&self) -> Map<Seq<char>, V> {
        Map::new(|k: Seq<char>| self.contains_key(k), |k: Seq<char>| self.value_of(k))
    }

    /// The value at position `i` is the value under the name at position `i`.
    pub proof fn lemma_value_at(&self, i: int)
        requires
            self.wf(),
            0 <= i < self.keys().len(),
        ensures
            self.contains_key(self.keys()[i]),
            self.value_of(self.keys()[i]) == self.values()[i],
            self.to_map().contains_key(self.keys()[i]),
            self.to_map()[self.keys()[i]] == self.values()[i],
    {
        let k = self.keys()[i];
        assert(self.keys()[i] == k);
        assert(exists|j: int| 0 <= j < self.keys().len() && self.keys()[j] == k);
        assert(self.keys().contains(k));
        let j = self.position_of(k);
        if j != i {
            if j < i {
                assert(name_lt(self.keys()[j], self.keys()[i]));
            } else {
                assert(name_lt(self.keys()[i], self.keys()[j]));
            }
            lemma_name_lt_irreflexive(k);
        }
        assert(j == i);
        assert(self.value_of(k) == self.values()[j]);
    }

    /// The empty map.
    pub fn new() -> (m: Self)
        ensures
            m.wf(),
            m.keys() == Seq::<Seq<char>>::empty(),
            m.values() == Seq::<V>::empty(),
    {
        let m = NameMap { entries: Vec::new() };
        assert(m.keys() =~= Seq::<Seq<char>>::empty());
        assert(m.values() =~= Seq::<V>::empty());
        m
    }

    /// The number of entries.
    pub fn len(&self) -> (n: usize)
        ensures
            n == self.keys().len(),
            n == self.values().len(),
    {
        self.entries.len()
    }

    /// The name at position `i`.
    pub fn key_at(&self, i: usize) -> (k: &String)
        requires
            i < self.keys().len(),
        ensures
            k@ == self.keys()[i as int],
            *k == self.key_strings()[i as int],
    {
        &self.entries[i].0
    }

    /// The value at position `i`.
    pub fn value_at(&self, i: usize) -> (v: &V)
        requires
            i < self.values().len(),
        ensures
            *v == self.values()[i as int],
    {
        &self.entries[i].1
    }

    /// The position of the name `key`, if it is one of the names.
    pub fn find(&self, key: &str) -> (r: Option<usize>)
        ensures
            match r {
                Some(i) => i < self.keys().len() && self.keys()[i as int] == key@,
                None => !self.contains_key(key@),
            },
    {
        let n = self.entries.len();
        let mut i: usize = 0;
        while i < n
            invariant
                n == self.entries@.len(),
                i <= n,
                forall|j: int| 0 <= j < i ==> self.keys()[j] != key@,
            decreases n - i,
        {
            if string_eq_str(&self.entries[i].0, key) {
                return Some(i);
            }
            i = i + 1;
        }
        None
    }

    /// The value under the name `key`, if it is one of the names.
    pub fn get(&self, key: &str) -> (r: Option<&V>)
        requires
            self.wf(),
        ensures
            match r {
                Some(v) => self.contains_key(key@) && *v == self.value_of(key@),
                None => !self.contains_key(key@),
            },
    {
        match self.find(key) {
            Some(i) => {
                proof {
                    self.lemma_value_at(i as int);
                }
                Some(&self.entries[i].1)
            },
            None => None,
        }
    }

    /// Puts `value` under the name `key`, in place of the value that was
    /// there.
    pub fn insert(&mut self, key: String, value: V)
        requires
            old(self).wf(),
        ensures
            final(self).wf(),
            final(self).to_map() == old(self).to_map().insert(key@, value),
    {
        let n = self.entries.len();
        let mut p: usize = 0;
        while p < n && name_less(self.entries[p].0.as_str(), key.as_str())
            invariant
                n == self.entries@.len(),
                p <= n,
                forall|q: int| 0 <= q < p ==> name_lt(#[trigger] self.keys()[q], key@),
            decreases n - p,
        {
            p = p + 1;
        }
        let ghost old_self = *self;
        let ghost key_view = key@;
        let ghost ks = self.keys();
        let ghost vs = self.values();
        proof {
            if p < n {
                assert(!name_lt(ks[p as int], key@));
                assert forall|q: int| p < q < n implies name_lt(key@, #[trigger] ks[q]) by {
                    lemma_name_lt_total(ks[p as int], key@);
                    if ks[p as int] != key@ {
                        lemma_name_lt_transitive(key@, ks[p as int], ks[q]);
                    }
                }
            }
        }
        if p < n && string_eq(&self.entries[p].0, &key) {
            self.entries.set(p, (key, value));
            proof {
                assert(self.keys() =~= ks);
                assert(self.values() =~= vs.update(p as int, value));
                Self::lemma_put(old_self, *self, key_view, value, p as int, true);
            }
        } else {
            self.entries.insert(p, (key, value));
            proof {
                assert(self.keys() =~= ks.insert(p as int, key@));
                assert(self.values() =~= vs.insert(p as int, value));
                if p < n {
                    lemma_name_lt_total(ks[p as int], key@);
                }
                assert forall|i: int, j: int|
                    0 <= i < j < self.keys().len() implies name_lt(
                    #[trigger] self.keys()[i],
                    #[trigger] self.keys()[j],
                ) by {
                    let nk = self.keys();
                    if j < p {
                    } else if j == p {
                    } else if i < p {
                        assert(nk[j] == ks[j - 1]);
                        if j - 1 == p {
                        } else {
                            lemma_name_lt_transitive(nk[i], key@, ks[p as int]);
                            lemma_name_lt_transitive(nk[i], ks[p as int], ks[j - 1]);
                        }
                    } else if i == p {
                        assert(nk[j] == ks[j - 1]);
                        if j - 1 > p {
                            lemma_name_lt_transitive(key@, ks[p as int], ks[j - 1]);
                        }
                    } else {
                        assert(nk[i] == ks[i - 1]);
                        assert(nk[j] == ks[j - 1]);
                    }
                }
                Self::lemma_put(old_self, *self, key_view, value, p as int, false);
            }
        }
    }

    /// Replacing or inserting one entry changes the map at that name only.
    proof fn lemma_put(old_m: Self, new_m: Self, key: Seq<char>, value: V, p: int, replaced: bool)
        requires
            old_m.wf(),
            new_m.wf(),
            replaced ==> {
                &&& 0 <= p < old_m.keys().len()
                &&& old_m.keys()[p] == key
                &&& new_m.keys() == old_m.keys()
                &&& new_m.values() == old_m.values().update(p, value)
            },
            !replaced ==> {
                &&& 0 <= p <= old_m.keys().len()
                &&& new_m.keys() == old_m.keys().insert(p, key)
                &&& new_m.values() == old_m.values().insert(p, value)
            },
        ensures
            new_m.to_map() == old_m.to_map().insert(key, value),
    {
        let ok = old_m.keys();
        let nk = new_m.keys();
        let expect = old_m.to_map().insert(key, value);
        let got = new_m.to_map();
        assert(nk[p] == key);
        // where an old entry sits in the new map
        assert forall|i: int| 0 <= i < ok.len() && ok[i] != key implies {
            let j = if replaced || i < p { i } else { i + 1 };
            &&& 0 <= j < nk.len()
            &&& nk[j] == ok[i]
            &&& new_m.values()[j] == old_m.values()[i]
        } by {}
        assert forall|k: Seq<char>| got.contains_key(k) <==> expect.contains_key(k) by {
            if got.contains_key(k) && k != key {
                let j = choose|j: int| 0 <= j < nk.len() && nk[j] == k;
                if replaced || j < p {
                    assert(ok[j] == k);
                } else {
                    assert(ok[j - 1] == k);
                }
            }
            if expect.contains_key(k) {
                if k == key {
                    assert(nk[p] == k);
                } else {
                    let i = choose|i: int| 0 <= i < ok.len() && ok[i] == k;
                    let j = if replaced || i < p { i } else { i + 1 };
                    assert(nk[j] == k);
                }
            }
        }
        assert forall|k: Seq<char>| got.contains_key(k) implies got[k] == expect[k] by {
            if k == key {
                new_m.lemma_value_at(p);
            } else {
                let i = choose|i: int| 0 <= i < ok.len() && ok[i] == k;
                let j = if replaced || i < p { i } else { i + 1 };
                old_m.lemma_value_at(i);
                new_m.lemma_value_at(j);
            }
        }
        assert(got =~= expect);
    }
}

/// Whether two strings are equal.
pub fn string_eq(a: &String, b: &String) -> (r: bool)
    ensures
        r == (a@ == b@),
{
    *a == *b
}

/// Whether a string equals a string slice.
pub fn string_eq_str(a: &String, b: &str) -> (r: bool)
    ensures
        r == (a@ == b@),
{
    let ca = chars_of(a.as_str());
    let cb = chars_of(b);
    if ca.len() != cb.len() {
        proof {
            assert(ca@.len() != cb@.len());
        }
        return false;
    }
    let mut i: usize = 0;
    while i < ca.len()
        invariant
            ca@ == a@,
            cb@ == b@,
            ca@.len() == cb@.len(),
            i <= ca@.len(),
            forall|j: int| 0 <= j < i ==> ca@[j] == cb@[j],
        decreases ca@.len() - i,
    {
        if ca[i] != cb[i] {
            return false;
        }
        i = i + 1;
    }
    assert(ca@ =~= cb@);
    true
}

} // verus!
