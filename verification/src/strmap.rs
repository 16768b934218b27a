//! An ordered map keyed by strings.
//!
//! Entries are kept strictly sorted by key (lexicographic order of the
//! key's characters), so walking the map by index visits keys in ascending
//! order, as a `BTreeMap<String, V>` does.
use vstd::prelude::*;
use crate::text::{seq_lt, strictly_sorted, lemma_seq_lt_irreflexive, lemma_seq_lt_total, lemma_seq_lt_transitive, lemma_seq_lt_asymmetric, str_lt, eq_str};

verus! {

/// A map from strings to values with keys in ascending order.
#[derive(Debug, PartialEq, Eq)]
pub struct StrMap<V> {
    entries: Vec<(String, V)>,
}

impl<V> StrMap<V> {
    /// The keys, in ascending order.
    pub closed spec fn keys(&self) -> Seq<Seq<char>> {
        self.entries@.map_values(|e: (String, V)| e.0@)
    }

    /// The values, in the order of their keys.
    pub closed spec fn vals(&self) -> Seq<V> {
        self.entries@.map_values(|e: (String, V)| e.1)
    }

    #[verifier::type_invariant]
    closed spec fn wf(&self) -> bool {
        strictly_sorted(self.keys())
    }

    /// The map from keys to values.
    pub open spec fn view(&self) -> Map<Seq<char>, V> {
        Map::new(|k: Seq<char>| self.keys().contains(k), |k: Seq<char>| self.vals()[self.keys().index_of(k)])
    }

    /// An empty map.
    pub fn new() -> (m: Self)
        ensures
            m.keys().len() == 0,
            m.vals().len() == 0,
            m.view() == Map::<Seq<char>, V>::empty(),
    {
        let m = StrMap { entries: Vec::new() };
        assert(m.view() =~= Map::<Seq<char>, V>::empty());
        m
    }

    /// Number of entries.
    pub fn len(&self) -> (r: usize)
        ensures
            r == self.keys().len(),
            self.keys().len() == self.vals().len(),
            strictly_sorted(self.keys()),
    {
        proof { use_type_invariant(self); }
        self.entries.len()
    }

    /// Facts that every map satisfies: keys sorted and unique, one value per key,
    /// and the view agrees with the entries.
    pub fn lemma_shape(&self)
        ensures
            strictly_sorted(self.keys()),
            self.keys().len() == self.vals().len(),
            self.keys().no_duplicates(),
            forall|i: int| 0 <= i < self.keys().len() ==> #[trigger] self.view()[self.keys()[i]] == self.vals()[i],
            forall|k: Seq<char>| #[trigger] self.view().contains_key(k) <==> self.keys().contains(k),
            self.view().dom().finite(),
            self.view().len() == self.keys().len(),
    {
        proof {
            use_type_invariant(self);
            Self::lemma_unique(self.keys());
            assert forall|i: int| 0 <= i < self.keys().len() implies #[trigger] self.view()[self.keys()[i]] == self.vals()[i] by {
                Self::lemma_index_of(self.keys(), i);
            }
            assert(self.view().dom() =~= self.keys().to_set());
            self.keys().unique_seq_to_set();
        }
    }

    /// Strictly sorted keys hold no duplicates.
    proof fn lemma_unique(keys: Seq<Seq<char>>)
        requires
            strictly_sorted(keys),
        ensures
            keys.no_duplicates(),
    {
        assert forall|i: int, j: int| 0 <= i < keys.len() && 0 <= j < keys.len() && i != j implies keys[i] != keys[j] by {
            if i < j {
                if keys[i] == keys[j] {
                    lemma_seq_lt_irreflexive(keys[i]);
                }
            } else {
                if keys[i] == keys[j] {
                    lemma_seq_lt_irreflexive(keys[i]);
                }
            }
        }
    }

    /// In strictly sorted keys, `index_of` finds the position of a key.
    proof fn lemma_index_of(keys: Seq<Seq<char>>, i: int)
        requires
            strictly_sorted(keys),
            0 <= i < keys.len(),
        ensures
            keys.index_of(keys[i]) == i,
    {
        Self::lemma_unique(keys);
        assert(keys.contains(keys[i]));
        let j = keys.index_of(keys[i]);
        assert(0 <= j < keys.len() && keys[j] == keys[i]);
    }

    /// The position of key `k`, if present.
    fn position(&self, k: &str) -> (r: Option<usize>)
        ensures
            match r {
                Some(i) => i < self.keys().len() && self.keys()[i as int] == k@,
                None => !self.keys().contains(k@),
            },
    {
        let mut i: usize = 0;
        while i < self.entries.len()
            invariant
                i <= self.entries.len(),
                forall|j: int| 0 <= j < i ==> self.keys()[j] != k@,
            decreases self.entries.len() - i,
        {
            if eq_str(self.entries[i].0.as_str(), k) {
                return Some(i);
            }
            i = i + 1;
        }
        None
    }

    /// Whether `k` is a key.
    pub fn contains_key(&self, k: &str) -> (r: bool)
        ensures
            r == self.view().contains_key(k@),
    {
        self.position(k).is_some()
    }

    /// The value stored under `k`.
    pub fn get(&self, k: &str) -> (r: Option<&V>)
        ensures
            match r {
                Some(v) => self.view().contains_key(k@) && *v == self.view()[k@],
                None => !self.view().contains_key(k@),
            },
    {
        proof { use_type_invariant(self); }
        match self.position(k) {
            Some(i) => {
                proof { Self::lemma_index_of(self.keys(), i as int); }
                Some(&self.entries[i].1)
            },
            None => None,
        }
    }

    /// The key at position `i` (ascending order).
    pub fn key_at(&self, i: usize) -> (r: &String)
        requires
            i < self.keys().len(),
        ensures
            r@ == self.keys()[i as int],
    {
        &self.entries[i].0
    }

    /// The value at position `i` (ascending key order).
    pub fn value_at(&self, i: usize) -> (r: &V)
        requires
            i < self.keys().len(),
        ensures
            *r == self.vals()[i as int],
    {
        &self.entries[i].1
    }

    /// The first position whose key is not below `k`.
    fn lower_bound(&self, k: &str) -> (r: usize)
        ensures
            r <= self.keys().len(),
            forall|j: int| 0 <= j < r ==> seq_lt(#[trigger] self.keys()[j], k@),
            forall|j: int| r <= j < self.keys().len() ==> !seq_lt(#[trigger] self.keys()[j], k@),
    {
        proof { use_type_invariant(self); }
        let mut i: usize = 0;
        while i < self.entries.len()
            invariant
                i <= self.entries.len(),
                strictly_sorted(self.keys()),
                forall|j: int| 0 <= j < i ==> seq_lt(#[trigger] self.keys()[j], k@),
            decreases self.entries.len() - i,
        {
            if !str_lt(self.entries[i].0.as_str(), k) {
                proof {
                    assert forall|j: int| i <= j < self.keys().len() implies !seq_lt(#[trigger] self.keys()[j], k@) by {
                        if j > i && seq_lt(self.keys()[j], k@) {
                            lemma_seq_lt_transitive(self.keys()[i as int], self.keys()[j], k@);
                        }
                    }
                }
                return i;
            }
            i = i + 1;
        }
        i
    }

    /// Inserts `v` under `k`, replacing any earlier value; returns the earlier value.
    pub fn insert(&mut self, k: String, v: V) -> (r: Option<V>)
        ensures
            final(self).view() == old(self).view().insert(k@, v),
            match r {
                Some(x) => old(self).view().contains_key(k@) && x == old(self).view()[k@],
                None => !old(self).view().contains_key(k@),
            },
    {
        proof { use_type_invariant(&*self); }
        let ghost old_keys = self.keys();
        let ghost old_view = self.view();
        let pos = self.lower_bound(k.as_str());
        let mut entries: Vec<(String, V)> = Vec::new();
        std::mem::swap(&mut entries, &mut self.entries);
        assert(entries@.map_values(|e: (String, V)| e.0@) == old_keys);
        let present = pos < entries.len() && eq_str(entries[pos].0.as_str(), k.as_str());
        let ghost kk = k@;
        if present {
            let old_entry = entries.remove(pos);
            entries.insert(pos, (k, v));
            let ghost nk = entries@.map_values(|e: (String, V)| e.0@);
            assert(nk =~= old_keys.update(pos as int, kk));
            assert(nk =~= old_keys);
            self.entries = entries;
            proof {
                Self::lemma_unique(old_keys);
                assert(old_keys.index_of(kk) == pos as int) by { Self::lemma_index_of(old_keys, pos as int); }
                assert(self.keys() == old_keys);
                assert forall|q: Seq<char>| #[trigger] self.view().contains_key(q) <==> old_view.insert(kk, v).contains_key(q) by {
                    if q == kk {
                        assert(old_keys[pos as int] == kk);
                    }
                }
                assert forall|q: Seq<char>| self.view().contains_key(q) implies #[trigger] self.view()[q] == old_view.insert(kk, v)[q] by {
                    let j = old_keys.index_of(q);
                    Self::lemma_index_of(old_keys, j);
                    assert(self.keys().index_of(q) == j);
                }
                assert(self.view() =~= old_view.insert(kk, v));
            }
            Some(old_entry.1)
        } else {
            entries.insert(pos, (k, v));
            let ghost nk = entries@.map_values(|e: (String, V)| e.0@);
            assert(nk =~= old_keys.insert(pos as int, kk));
            proof {
                assert forall|j: int| pos <= j < old_keys.len() implies seq_lt(kk, #[trigger] old_keys[j]) by {
                    let kp = old_keys[pos as int];
                    assert(!seq_lt(kp, kk));
                    if kp == kk {
                        assert(present);
                    }
                    lemma_seq_lt_total(kp, kk);
                    if j > pos {
                        lemma_seq_lt_transitive(kk, kp, old_keys[j]);
                    }
                }
                assert forall|a: int, b: int| 0 <= a < b < nk.len() implies seq_lt(#[trigger] nk[a], #[trigger] nk[b]) by {
                    if a < pos && b == pos {
                    } else if a == pos as int && b > pos {
                        assert(nk[b] == old_keys[b - 1]);
                    } else if a < pos && b > pos {
                        assert(nk[b] == old_keys[b - 1]);
                        lemma_seq_lt_transitive(nk[a], kk, nk[b]);
                    } else if a > pos {
                        assert(nk[a] == old_keys[a - 1]);
                        assert(nk[b] == old_keys[b - 1]);
                    }
                }
            }
            self.entries = entries;
            proof {
                assert(!old_keys.contains(kk)) by {
                    if old_keys.contains(kk) {
                        let j = old_keys.index_of(kk);
                        if j < pos {
                            lemma_seq_lt_irreflexive(kk);
                        } else if j > pos {
                            lemma_seq_lt_transitive(old_keys[pos as int], old_keys[j], old_keys[pos as int]);
                            lemma_seq_lt_irreflexive(kk);
                        }
                    }
                }
                Self::lemma_unique(self.keys());
                Self::lemma_unique(old_keys);
                assert forall|q: Seq<char>| #[trigger] self.view().contains_key(q) <==> old_view.insert(kk, v).contains_key(q) by {
                    assert(self.keys() == nk);
                    if old_keys.contains(q) {
                        let j = old_keys.index_of(q);
                        if j < pos { assert(nk[j] == q); } else { assert(nk[j + 1] == q); }
                    }
                    if q == kk {
                        assert(nk[pos as int] == kk);
                    }
                    if nk.contains(q) {
                        let j = nk.index_of(q);
                        if j < pos { assert(old_keys[j] == q); } else if j > pos { assert(old_keys[j - 1] == q); }
                    }
                }
                assert forall|q: Seq<char>| self.view().contains_key(q) implies #[trigger] self.view()[q] == old_view.insert(kk, v)[q] by {
                    if q == kk {
                        Self::lemma_index_of(nk, pos as int);
                    } else {
                        let j = old_keys.index_of(q);
                        Self::lemma_index_of(old_keys, j);
                        if j < pos {
                            Self::lemma_index_of(nk, j);
                        } else {
                            Self::lemma_index_of(nk, j + 1);
                        }
                    }
                }
                assert(self.view() =~= old_view.insert(kk, v));
            }
            None
        }
    }

    /// Removes the entry under `k`; returns its value.
    pub fn remove(&mut self, k: &str) -> (r: Option<V>)
        ensures
            final(self).view() == old(self).view().remove(k@),
            match r {
                Some(x) => old(self).view().contains_key(k@) && x == old(self).view()[k@],
                None => !old(self).view().contains_key(k@),
            },
    {
        proof { use_type_invariant(&*self); }
        let ghost old_keys = self.keys();
        let ghost old_view = self.view();
        match self.position(k) {
            None => {
                assert(self.view() =~= old_view.remove(k@));
                None
            },
            Some(pos) => {
                let mut entries: Vec<(String, V)> = Vec::new();
                std::mem::swap(&mut entries, &mut self.entries);
                assert(entries@.map_values(|e: (String, V)| e.0@) == old_keys);
                let old_entry = entries.remove(pos);
                let ghost nk = entries@.map_values(|e: (String, V)| e.0@);
                assert(nk =~= old_keys.remove(pos as int));
                self.entries = entries;
                proof {
                    Self::lemma_unique(old_keys);
                    Self::lemma_index_of(old_keys, pos as int);
                    assert forall|q: Seq<char>| #[trigger] self.view().contains_key(q) <==> old_view.remove(k@).contains_key(q) by {
                        if old_keys.contains(q) && q != k@ {
                            let j = old_keys.index_of(q);
                            if j < pos { assert(nk[j] == q); } else { assert(nk[j - 1] == q); }
                        }
                    }
                    assert forall|q: Seq<char>| self.view().contains_key(q) implies #[trigger] self.view()[q] == old_view.remove(k@)[q] by {
                        let j = old_keys.index_of(q);
                        Self::lemma_index_of(old_keys, j);
                        if j < pos {
                            Self::lemma_index_of(nk, j);
                        } else {
                            Self::lemma_index_of(nk, j - 1);
                        }
                    }
                    assert(self.view() =~= old_view.remove(k@));
                }
                Some(old_entry.1)
            },
        }
    }
}

impl StrMap<String> {
    /// A copy of a map of strings.
    pub fn clone_strings(&self) -> (r: Self)
        ensures
            r.keys() == self.keys(),
            r.vals() == self.vals(),
            r@ == self@,
    {
        proof { use_type_invariant(self); }
        let mut entries: Vec<(String, String)> = Vec::new();
        let mut i: usize = 0;
        while i < self.entries.len()
            invariant
                i <= self.entries.len(),
                entries@ == self.entries@.subrange(0, i as int),
            decreases self.entries.len() - i,
        {
            let k = self.entries[i].0.clone();
            let v = self.entries[i].1.clone();
            entries.push((k, v));
            assert(entries@ =~= self.entries@.subrange(0, i + 1));
            i = i + 1;
        }
        assert(entries@ =~= self.entries@);
        let r = StrMap { entries };
        assert(r.keys() =~= self.keys());
        assert(r.vals() =~= self.vals());
        assert(r@ =~= self@);
        r
    }
}

impl<V> StrMap<V> {
    /// The position of key `k` in ascending key order, if present.
    pub fn index_of(&self, k: &str) -> (r: Option<usize>)
        ensures
            match r {
                Some(i) => i < self.keys().len() && self.keys()[i as int] == k@,
                None => !self.view().contains_key(k@),
            },
    {
        self.position(k)
    }
}

impl<V> StrMap<V> {
    /// The entries in ascending key order, consuming the map.
    pub fn into_entries(self) -> (r: Vec<(String, V)>)
        ensures
            r@.len() == self.keys().len(),
            r@.map_values(|e: (String, V)| e.0@) == self.keys(),
            r@.map_values(|e: (String, V)| e.1) == self.vals(),
    {
        self.entries
    }
}

} // verus!
