use vstd::prelude::*;
use crate::fs_path::FsPath;

verus! {

/// One binding of a directory path to a value.
pub struct AssocEntry<T> {
    pub key: FsPath,
    pub val: T,
}

impl<T: DeepView> DeepView for AssocEntry<T> {
    type V = (Seq<Seq<char>>, T::V);

    open spec fn deep_view(&self) -> (Seq<Seq<char>>, T::V) {
        (self.key@, self.val.deep_view())
    }
}

/// The map that a sequence of bindings stands for; a later binding for a
/// key overrides an earlier one, though distinct keys make that moot.
pub open spec fn assoc_map<K, W>(s: Seq<(K, W)>) -> Map<K, W>
    decreases s.len(),
{
    if s.len() == 0 {
        Map::empty()
    } else {
        assoc_map(s.drop_last()).insert(s.last().0, s.last().1)
    }
}

/// A key is bound in the map exactly when some binding carries it.
pub proof fn lemma_assoc_map_dom<K, W>(s: Seq<(K, W)>, k: K)
    ensures
        assoc_map(s).dom().contains(k) <==> exists|i: int| 0 <= i < s.len() && s[i].0 == k,
    decreases s.len(),
{
    if s.len() > 0 {
        lemma_assoc_map_dom(s.drop_last(), k);
        if assoc_map(s).dom().contains(k) {
            if s.last().0 != k {
                let i = choose|i: int| 0 <= i < s.drop_last().len() && s.drop_last()[i].0 == k;
                assert(s[i].0 == k);
            }
        }
        if exists|i: int| 0 <= i < s.len() && s[i].0 == k {
            let i = choose|i: int| 0 <= i < s.len() && s[i].0 == k;
            if i < s.len() - 1 {
                assert(s.drop_last()[i].0 == k);
            }
        }
    }
}

/// With pairwise distinct keys, the map sends each bound key to the value
/// of its one binding.
pub proof fn lemma_assoc_map_at<K, W>(s: Seq<(K, W)>, i: int)
    requires
        forall|p: int, q: int| 0 <= p < q < s.len() ==> s[p].0 != s[q].0,
        0 <= i < s.len(),
    ensures
        assoc_map(s).dom().contains(s[i].0),
        assoc_map(s)[s[i].0] == s[i].1,
    decreases s.len(),
{
    if i == s.len() - 1 {
    } else {
        lemma_assoc_map_at(s.drop_last(), i);
        assert(s.drop_last()[i] == s[i]);
        assert(s.last().0 != s[i].0);
    }
}

/// Dropping the one binding of a key removes that key from the map and
/// keeps every other binding.
pub proof fn lemma_assoc_map_remove<K, W>(s: Seq<(K, W)>, i: int)
    requires
        forall|p: int, q: int| 0 <= p < q < s.len() ==> s[p].0 != s[q].0,
        0 <= i < s.len(),
    ensures
        assoc_map(s.remove(i)) == assoc_map(s).remove(s[i].0),
    decreases s.len(),
{
    let k = s[i].0;
    if i == s.len() - 1 {
        assert(s.remove(i) =~= s.drop_last());
        lemma_assoc_map_dom(s.drop_last(), k);
        assert(!assoc_map(s.drop_last()).dom().contains(k)) by {
            if exists|j: int| 0 <= j < s.drop_last().len() && s.drop_last()[j].0 == k {
                let j = choose|j: int| 0 <= j < s.drop_last().len() && s.drop_last()[j].0 == k;
                assert(s[j].0 == s[i].0);
            }
        }
        assert(assoc_map(s.drop_last()).insert(k, s[i].1).remove(k) =~= assoc_map(s.drop_last()));
    } else {
        lemma_assoc_map_remove(s.drop_last(), i);
        assert(s.remove(i).drop_last() =~= s.drop_last().remove(i));
        assert(s.remove(i).last() == s.last());
        assert(s.drop_last()[i] == s[i]);
        assert(s.last().0 != k);
        assert(assoc_map(s.drop_last()).remove(k).insert(s.last().0, s.last().1) =~= assoc_map(
            s.drop_last(),
        ).insert(s.last().0, s.last().1).remove(k));
    }
}

/// A map from directory paths to values, held as a vector of bindings with
/// pairwise distinct keys. It stands in for a hash map: the state model
/// reads it as a mathematical map.
pub struct PathMap<T> {
    pub entries: Vec<AssocEntry<T>>,
}

impl<T: DeepView> View for PathMap<T> {
    type V = Map<Seq<Seq<char>>, T::V>;

    open spec fn view(&self) -> Map<Seq<Seq<char>>, T::V> {
        assoc_map(self.entries.deep_view())
    }
}

impl<T: DeepView> PathMap<T> {
    /// No two bindings carry the same key.
    pub open spec fn distinct_keys(&self) -> bool {
        forall|p: int, q: int|
            0 <= p < q < self.entries.len() ==> self.entries[p].key@ != self.entries[q].key@
    }

    pub fn empty() -> (r: PathMap<T>)
        ensures
            r.distinct_keys(),
            r@ == Map::<Seq<Seq<char>>, T::V>::empty(),
    {
        PathMap { entries: Vec::new() }
    }

    fn find_idx(&self, key: &FsPath) -> (r: Option<usize>)
        ensures
            r matches Some(i) ==> (i < self.entries.len() && self.entries[i as int].key@ == key@),
            r is None ==> forall|i: int|
                0 <= i < self.entries.len() ==> self.entries[i].key@ != key@,
    {
        let n = self.entries.len();
        let mut i: usize = 0;
        while i < n
            invariant
                0 <= i <= n,
                n == self.entries.len(),
                forall|j: int| 0 <= j < i ==> self.entries[j].key@ != key@,
            decreases n - i,
        {
            if self.entries[i].key.eq_path(key) {
                return Some(i);
            }
            i += 1;
        }
        None
    }

    /// The value bound to `key`, if any.
    pub fn get(&self, key: &FsPath) -> (r: Option<&T>)
        requires
            self.distinct_keys(),
        ensures
            r matches Some(v) ==> (self@.dom().contains(key@) && self@[key@] == v.deep_view()),
            r is None ==> !self@.dom().contains(key@),
    {
        proof {
            lemma_assoc_map_dom(self.entries.deep_view(), key@);
        }
        match self.find_idx(key) {
            Some(i) => {
                proof {
                    lemma_assoc_map_at(self.entries.deep_view(), i as int);
                }
                Some(&self.entries[i].val)
            },
            None => {
                proof {
                    assert(forall|i: int|
                        0 <= i < self.entries.deep_view().len()
                            ==> self.entries.deep_view()[i].0 != key@);
                }
                None
            },
        }
    }

    /// Binds `key` to `val`, replacing any earlier binding.
    pub fn set(&mut self, key: FsPath, val: T)
        requires
            old(self).distinct_keys(),
        ensures
            final(self).distinct_keys(),
            final(self)@ == old(self)@.insert(key@, val.deep_view()),
    {
        let ghost s0 = self.entries.deep_view();
        match self.find_idx(&key) {
            Some(i) => {
                self.entries.remove(i);
                proof {
                    assert(self.entries.deep_view() =~= s0.remove(i as int));
                    lemma_assoc_map_remove(s0, i as int);
                }
                let ghost s1 = self.entries.deep_view();
                self.entries.push(AssocEntry { key, val });
                proof {
                    assert(self.entries.deep_view().drop_last() =~= s1);
                    assert(assoc_map(s0).remove(key@).insert(key@, val.deep_view()) =~= assoc_map(
                        s0,
                    ).insert(key@, val.deep_view()));
                }
            },
            None => {
                self.entries.push(AssocEntry { key, val });
                proof {
                    assert(self.entries.deep_view().drop_last() =~= s0);
                }
            },
        }
    }

    /// Drops the binding of `key`, if there is one.
    pub fn remove_key(&mut self, key: &FsPath)
        requires
            old(self).distinct_keys(),
        ensures
            final(self).distinct_keys(),
            final(self)@ == old(self)@.remove(key@),
    {
        let ghost s0 = self.entries.deep_view();
        match self.find_idx(key) {
            Some(i) => {
                self.entries.remove(i);
                proof {
                    assert(self.entries.deep_view() =~= s0.remove(i as int));
                    lemma_assoc_map_remove(s0, i as int);
                }
            },
            None => {
                proof {
                    lemma_assoc_map_dom(s0, key@);
                    assert(!assoc_map(s0).dom().contains(key@));
                    assert(assoc_map(s0).remove(key@) =~= assoc_map(s0));
                }
            },
        }
    }
}

} // verus!
