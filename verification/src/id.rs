//! Node identities, and small maps and sets keyed by them.

use vstd::prelude::*;

verus! {

/// A node's public key: 32 bytes, compared byte for byte.
#[derive(Clone, Copy, Debug, PartialEq, Eq)]
pub struct EndpointId {
    pub bytes: [u8; 32],
}

/// A process on the mesh: the node that runs it and its handle there.
#[derive(Clone, Copy, Debug, PartialEq, Eq)]
pub struct ProcKey {
    pub node: EndpointId,
    pub handle: u64,
}

/// A key that can be compared exactly.
pub trait Key: Copy {
    /// Whether both are the same key.
    fn same(&self, other: &Self) -> (r: bool)
        ensures
            r == (*self == *other),
    ;
}

impl Key for EndpointId {
    fn same(&self, other: &Self) -> (r: bool) {
        let mut i: usize = 0;
        while i < 32
            invariant
                i <= 32,
                forall|j: int| 0 <= j < i ==> self.bytes[j] == other.bytes[j],
            decreases 32 - i,
        {
            if self.bytes[i] != other.bytes[i] {
                return false;
            }
            i = i + 1;
        }
        assert(self.bytes =~= other.bytes);
        true
    }
}

impl Key for ProcKey {
    fn same(&self, other: &Self) -> (r: bool) {
        self.node.same(&other.node) && self.handle == other.handle
    }
}

/// Whether `s` holds an entry for `k`.
pub open spec fn has_key<K, V>(s: Seq<(K, V)>, k: K) -> bool {
    exists|i: int| 0 <= i < s.len() && (#[trigger] s[i]).0 == k
}

/// The position of the entry for `k`.
pub open spec fn key_index<K, V>(s: Seq<(K, V)>, k: K) -> int {
    choose|i: int| 0 <= i < s.len() && (#[trigger] s[i]).0 == k
}

/// The map that a list of entries with distinct keys stands for.
pub open spec fn entries_map<K, V>(s: Seq<(K, V)>) -> Map<K, V> {
    Map::new(|k: K| has_key(s, k), |k: K| s[key_index(s, k)].1)
}

/// No key occurs twice.
pub open spec fn distinct_keys<K, V>(s: Seq<(K, V)>) -> bool {
    forall|i: int, j: int| 0 <= i < s.len() && 0 <= j < s.len() && (#[trigger] s[i]).0 == (#[trigger] s[j]).0 ==> i == j
}

/// What `entries_map` holds for the key at position `i`.
pub proof fn lemma_entry_at<K, V>(s: Seq<(K, V)>, i: int)
    requires
        distinct_keys(s),
        0 <= i < s.len(),
    ensures
        entries_map(s).contains_key(s[i].0),
        entries_map(s)[s[i].0] == s[i].1,
{
    assert(has_key(s, s[i].0));
    let j = key_index(s, s[i].0);
    assert(0 <= j < s.len() && s[j].0 == s[i].0);
}

/// A list of entries with distinct keys stands for a finite map of that size.
pub proof fn lemma_entry_count<K, V>(s: Seq<(K, V)>)
    requires
        distinct_keys(s),
    ensures
        entries_map(s).dom().finite(),
        entries_map(s).len() == s.len(),
{
    let keys = Seq::new(s.len(), |i: int| s[i].0);
    assert(keys.no_duplicates());
    keys.unique_seq_to_set();
    assert forall|k: K| entries_map(s).dom().contains(k) == keys.to_set().contains(k) by {
        if has_key(s, k) {
            let i = key_index(s, k);
            assert(keys[i] == k);
        }
        if keys.contains(k) {
            let i = choose|i: int| 0 <= i < keys.len() && keys[i] == k;
            assert(s[i].0 == k);
        }
    }
    assert(entries_map(s).dom() =~= keys.to_set());
}

/// A map with few keys, held as a list in which no key occurs twice.
#[derive(Debug)]
pub struct KeyMap<K, V> {
    entries: Vec<(K, V)>,
}

impl<K, V> View for KeyMap<K, V> {
    type V = Map<K, V>;

    closed spec fn view(&self) -> Map<K, V> {
        entries_map(self.entries@)
    }
}

impl<K: Key, V: Copy> KeyMap<K, V> {
    /// No key occurs twice.
    pub closed spec fn wf(&self) -> bool {
        distinct_keys(self.entries@)
    }

    /// The empty map.
    pub fn new() -> (m: KeyMap<K, V>)
        ensures
            m.wf(),
            m@ == Map::<K, V>::empty(),
    {
        let m: KeyMap<K, V> = KeyMap { entries: Vec::new() };
        assert(m@ =~= Map::<K, V>::empty());
        m
    }

    fn find(&self, k: &K) -> (r: Option<usize>)
        requires
            self.wf(),
        ensures
            match r {
                Some(i) => i < self.entries@.len() && self.entries@[i as int].0 == *k,
                None => !has_key(self.entries@, *k),
            },
    {
        let mut i: usize = 0;
        while i < self.entries.len()
            invariant
                i <= self.entries@.len(),
                forall|j: int| 0 <= j < i ==> (#[trigger] self.entries@[j]).0 != *k,
            decreases self.entries@.len() - i,
        {
            if self.entries[i].0.same(k) {
                return Some(i);
            }
            i = i + 1;
        }
        None
    }

    /// What is held for `k`.
    pub fn get(&self, k: &K) -> (r: Option<V>)
        requires
            self.wf(),
        ensures
            r == (if self@.contains_key(*k) {
                Some(self@[*k])
            } else {
                None
            }),
    {
        match self.find(k) {
            Some(i) => {
                proof {
                    lemma_entry_at(self.entries@, i as int);
                }
                Some(self.entries[i].1)
            },
            None => None,
        }
    }

    /// Holds `v` for `k`, in place of what was held before; hands that back.
    pub fn insert(&mut self, k: K, v: V) -> (r: Option<V>)
        requires
            old(self).wf(),
        ensures
            final(self).wf(),
            final(self)@ == old(self)@.insert(k, v),
            r == (if old(self)@.contains_key(k) {
                Some(old(self)@[k])
            } else {
                None
            }),
    {
        let ghost before = self.entries@;
        match self.find(&k) {
            Some(i) => {
                proof {
                    lemma_entry_at(before, i as int);
                }
                let was = self.entries[i].1;
                self.entries.set(i, (k, v));
                proof {
                    let after = self.entries@;
                    assert forall|a: int, b: int|
                        0 <= a < after.len() && 0 <= b < after.len() && (#[trigger] after[a]).0 == (
                        #[trigger] after[b]).0 implies a == b by {
                        assert(after[a].0 == before[a].0 && after[b].0 == before[b].0);
                    }
                    assert forall|q: K| has_key(after, q) == has_key(before, q) by {
                        if has_key(after, q) {
                            let a = key_index(after, q);
                            assert(before[a].0 == q);
                        }
                        if has_key(before, q) {
                            let a = key_index(before, q);
                            assert(after[a].0 == q);
                        }
                    }
                    assert forall|q: K| has_key(after, q) implies entries_map(after)[q]
                        == entries_map(before).insert(k, v)[q] by {
                        let a = key_index(after, q);
                        lemma_entry_at(after, a);
                        assert(before[a].0 == q);
                        lemma_entry_at(before, a);
                    }
                    assert(entries_map(after) =~= entries_map(before).insert(k, v));
                }
                Some(was)
            },
            None => {
                self.entries.push((k, v));
                proof {
                    let after = self.entries@;
                    let n = before.len() as int;
                    assert forall|a: int, b: int|
                        0 <= a < after.len() && 0 <= b < after.len() && (#[trigger] after[a]).0 == (
                        #[trigger] after[b]).0 implies a == b by {
                        if a < n {
                            assert(after[a] == before[a]);
                        }
                        if b < n {
                            assert(after[b] == before[b]);
                        }
                    }
                    assert forall|q: K| has_key(after, q) == (has_key(before, q) || q == k) by {
                        if has_key(after, q) {
                            let a = key_index(after, q);
                            if a < n {
                                assert(before[a].0 == q);
                            }
                        }
                        if has_key(before, q) {
                            let a = key_index(before, q);
                            assert(after[a].0 == q);
                        }
                        assert(after[n].0 == k);
                    }
                    assert forall|q: K| has_key(after, q) implies entries_map(after)[q]
                        == entries_map(before).insert(k, v)[q] by {
                        let a = key_index(after, q);
                        lemma_entry_at(after, a);
                        if a < n {
                            assert(before[a] == after[a]);
                            lemma_entry_at(before, a);
                        }
                    }
                    assert(entries_map(after) =~= entries_map(before).insert(k, v));
                }
                None
            },
        }
    }

    /// The number of entries.
    pub fn len(&self) -> (n: usize)
        requires
            self.wf(),
        ensures
            n == self@.len(),
    {
        proof {
            lemma_entry_count(self.entries@);
        }
        self.entries.len()
    }

    /// The entry at position `i`.
    pub closed spec fn at_spec(&self, i: int) -> (K, V) {
        self.entries@[i]
    }

    /// The entry at position `i`.
    pub fn at(&self, i: usize) -> (r: (K, V))
        requires
            self.wf(),
            i < self@.len(),
        ensures
            r == self.at_spec(i as int),
            self@.contains_key(r.0),
            self@[r.0] == r.1,
    {
        proof {
            lemma_entry_count(self.entries@);
            lemma_entry_at(self.entries@, i as int);
        }
        (self.entries[i].0, self.entries[i].1)
    }

    /// A map of this kind is finite.
    pub proof fn lemma_finite(&self)
        requires
            self.wf(),
        ensures
            self@.dom().finite(),
    {
        lemma_entry_count(self.entries@);
    }

    /// Every key is found at some position.
    pub proof fn lemma_position(&self, k: K) -> (i: int)
        requires
            self.wf(),
            self@.contains_key(k),
        ensures
            0 <= i < self@.len(),
            self.at_spec(i).0 == k,
            self.at_spec(i).1 == self@[k],
    {
        lemma_entry_count(self.entries@);
        key_index(self.entries@, k)
    }

    /// Drops the entry at position `i`; those before it stay where they are.
    pub fn remove_at(&mut self, i: usize)
        requires
            old(self).wf(),
            i < old(self)@.len(),
        ensures
            final(self).wf(),
            final(self)@ == old(self)@.remove(old(self).at_spec(i as int).0),
            final(self)@.len() == old(self)@.len() - 1,
            forall|j: int| 0 <= j < i ==> #[trigger] final(self).at_spec(j) == old(self).at_spec(j),
    {
        let ghost before = self.entries@;
        let ghost n = i as int;
        let ghost k = before[n].0;
        proof {
            lemma_entry_count(before);
        }
        self.entries.remove(i);
        proof {
            let after = self.entries@;
            assert(after =~= before.remove(n));
            assert forall|a: int, b: int|
                0 <= a < after.len() && 0 <= b < after.len() && (#[trigger] after[a]).0 == (
                #[trigger] after[b]).0 implies a == b by {
                let a0 = if a < n { a } else { a + 1 };
                let b0 = if b < n { b } else { b + 1 };
                assert(after[a] == before[a0] && after[b] == before[b0]);
            }
            assert forall|q: K| has_key(after, q) == (has_key(before, q) && q != k) by {
                if has_key(after, q) {
                    let a = key_index(after, q);
                    let a0 = if a < n { a } else { a + 1 };
                    assert(before[a0].0 == q);
                }
                if has_key(before, q) && q != k {
                    let b = key_index(before, q);
                    let b1 = if b < n { b } else { b - 1 };
                    assert(after[b1].0 == q);
                }
            }
            assert forall|q: K| has_key(after, q) implies entries_map(after)[q]
                == entries_map(before)[q] by {
                let a = key_index(after, q);
                let a0 = if a < n { a } else { a + 1 };
                lemma_entry_at(after, a);
                assert(before[a0] == after[a]);
                lemma_entry_at(before, a0);
            }
            assert(entries_map(after) =~= entries_map(before).remove(k));
            lemma_entry_count(after);
        }
    }
}

} // verus!
