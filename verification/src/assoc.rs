//! A map from strings to values, kept as a vector of entries with pairwise
//! distinct keys and viewed as a mathematical `Map`. It backs the deployment
//! registry and the last-activity clock.

use vstd::prelude::*;

verus! {

/// The map denoted by a sequence of key/value pairs; on duplicate keys the
/// later entry wins (well-formed maps have no duplicates).
pub open spec fn amap_of<T>(s: Seq<(Seq<char>, T)>) -> Map<Seq<char>, T>
    decreases s.len(),
{
    if s.len() == 0 {
        Map::empty()
    } else {
        amap_of(s.drop_last()).insert(s.last().0, s.last().1)
    }
}

/// Pairwise distinct keys.
pub open spec fn distinct_keys<T>(s: Seq<(Seq<char>, T)>) -> bool {
    forall|i: int, j: int| 0 <= i < j < s.len() ==> s[i].0 != s[j].0
}

pub proof fn lemma_amap_contains<T>(s: Seq<(Seq<char>, T)>, k: Seq<char>)
    ensures
        amap_of(s).contains_key(k) <==> exists|i: int| 0 <= i < s.len() && s[i].0 == k,
    decreases s.len(),
{
    if s.len() > 0 {
        lemma_amap_contains(s.drop_last(), k);
        if s.last().0 == k {
            assert(s[s.len() - 1].0 == k);
        } else {
            if amap_of(s).contains_key(k) {
                let i = choose|i: int| 0 <= i < s.drop_last().len() && s.drop_last()[i].0 == k;
                assert(s[i].0 == k);
            }
            if exists|i: int| 0 <= i < s.len() && s[i].0 == k {
                let i = choose|i: int| 0 <= i < s.len() && s[i].0 == k;
                assert(s.drop_last()[i].0 == k);
            }
        }
    }
}

pub proof fn lemma_amap_index<T>(s: Seq<(Seq<char>, T)>, i: int)
    requires
        distinct_keys(s),
        0 <= i < s.len(),
    ensures
        amap_of(s).contains_key(s[i].0),
        amap_of(s)[s[i].0] == s[i].1,
    decreases s.len(),
{
    if i == s.len() - 1 {
    } else {
        assert(distinct_keys(s.drop_last())) by {
            assert(forall|x: int, y: int|
                0 <= x < y < s.drop_last().len() ==> s.drop_last()[x].0 != s.drop_last()[y].0);
        }
        lemma_amap_index(s.drop_last(), i);
        assert(s[i].0 != s.last().0);
    }
}

proof fn lemma_amap_update<T>(s: Seq<(Seq<char>, T)>, i: int, v: T)
    requires
        distinct_keys(s),
        0 <= i < s.len(),
    ensures
        amap_of(s.update(i, (s[i].0, v))) == amap_of(s).insert(s[i].0, v),
    decreases s.len(),
{
    let k = s[i].0;
    let t = s.update(i, (k, v));
    if i == s.len() - 1 {
        assert(t.drop_last() =~= s.drop_last());
        assert(amap_of(t) =~= amap_of(s).insert(k, v));
    } else {
        assert(distinct_keys(s.drop_last())) by {
            assert(forall|x: int, y: int|
                0 <= x < y < s.drop_last().len() ==> s.drop_last()[x].0 != s.drop_last()[y].0);
        }
        lemma_amap_update(s.drop_last(), i, v);
        assert(t.drop_last() =~= s.drop_last().update(i, (k, v)));
        assert(t.last() == s.last());
        assert(k != s.last().0);
        assert(amap_of(t) =~= amap_of(s).insert(k, v));
    }
}

proof fn lemma_amap_remove_at<T>(s: Seq<(Seq<char>, T)>, i: int)
    requires
        distinct_keys(s),
        0 <= i < s.len(),
    ensures
        amap_of(s.remove(i)) == amap_of(s).remove(s[i].0),
    decreases s.len(),
{
    let k = s[i].0;
    if i == s.len() - 1 {
        assert(s.remove(i) =~= s.drop_last());
        lemma_amap_contains(s.drop_last(), k);
        assert(forall|x: int|
            0 <= x < s.drop_last().len() ==> #[trigger] s.drop_last()[x].0 == s[x].0);
        assert(!amap_of(s.drop_last()).contains_key(k));
        assert(amap_of(s.drop_last()) =~= amap_of(s).remove(k));
    } else {
        assert(distinct_keys(s.drop_last())) by {
            assert(forall|x: int, y: int|
                0 <= x < y < s.drop_last().len() ==> s.drop_last()[x].0 != s.drop_last()[y].0);
        }
        lemma_amap_remove_at(s.drop_last(), i);
        assert(s.remove(i).drop_last() =~= s.drop_last().remove(i));
        assert(s.remove(i).last() == s.last());
        assert(k != s.last().0);
        assert(amap_of(s.remove(i)) =~= amap_of(s).remove(k));
    }
}

proof fn lemma_amap_push<T>(s: Seq<(Seq<char>, T)>, k: Seq<char>, v: T)
    ensures
        amap_of(s.push((k, v))) == amap_of(s).insert(k, v),
{
    assert(s.push((k, v)).drop_last() =~= s);
}

/// A string-keyed map held as entries with distinct keys.
pub struct AssocMap<V> {
    entries: Vec<(String, V)>,
}

impl<V: View> AssocMap<V> {
    /// The entries as model pairs, in storage order.
    pub closed spec fn pairs(&self) -> Seq<(Seq<char>, V::V)> {
        self.entries@.map_values(|p: (String, V)| (p.0@, p.1@))
    }

    /// Keys are pairwise distinct.
    pub closed spec fn wf(&self) -> bool {
        distinct_keys(self.pairs())
    }

    pub fn new() -> (r: Self)
        ensures
            r.wf(),
            r@ == Map::<Seq<char>, V::V>::empty(),
            r.spec_len() == 0,
    {
        AssocMap { entries: Vec::new() }
    }

    pub open spec fn spec_len(&self) -> nat {
        self.pairs().len()
    }

    pub fn len(&self) -> (r: usize)
        ensures
            r == self.spec_len(),
    {
        self.entries.len()
    }

    pub fn key_at(&self, i: usize) -> (r: &String)
        requires
            i < self.spec_len(),
        ensures
            r@ == self.pairs()[i as int].0,
    {
        &self.entries[i].0
    }

    pub fn value_at(&self, i: usize) -> (r: &V)
        requires
            i < self.spec_len(),
        ensures
            r@ == self.pairs()[i as int].1,
    {
        &self.entries[i].1
    }

    /// Each stored entry is in the map.
    pub proof fn lemma_entry_in_map(&self, i: int)
        requires
            self.wf(),
            0 <= i < self.spec_len(),
        ensures
            self@.contains_key(self.pairs()[i].0),
            self@[self.pairs()[i].0] == self.pairs()[i].1,
    {
        lemma_amap_index(self.pairs(), i);
    }

    /// Stored keys are pairwise distinct.
    pub proof fn lemma_keys_distinct(&self)
        requires
            self.wf(),
        ensures
            distinct_keys(self.pairs()),
    {
    }

    /// Every key of the map is a stored entry.
    pub proof fn lemma_key_has_entry(&self, k: Seq<char>)
        requires
            self@.contains_key(k),
        ensures
            exists|i: int| 0 <= i < self.spec_len() && self.pairs()[i].0 == k,
    {
        lemma_amap_contains(self.pairs(), k);
    }

    fn find_index(&self, key: &String) -> (r: Option<usize>)
        ensures
            match r {
                Some(i) => i < self.spec_len() && self.pairs()[i as int].0 == key@,
                None => forall|i: int| 0 <= i < self.spec_len() ==> self.pairs()[i].0 != key@,
            },
    {
        let mut i: usize = 0;
        while i < self.entries.len()
            invariant
                i <= self.spec_len(),
                forall|j: int| 0 <= j < i ==> self.pairs()[j].0 != key@,
            decreases self.spec_len() - i,
        {
            if self.entries[i].0 == *key {
                return Some(i);
            }
            i = i + 1;
        }
        None
    }

    pub fn contains(&self, key: &String) -> (r: bool)
        requires
            self.wf(),
        ensures
            r == self@.contains_key(key@),
    {
        proof {
            lemma_amap_contains(self.pairs(), key@);
        }
        match self.find_index(key) {
            Some(_) => true,
            None => false,
        }
    }

    pub fn get<'a>(&'a self, key: &String) -> (r: Option<&'a V>)
        requires
            self.wf(),
        ensures
            match r {
                Some(v) => self@.contains_key(key@) && v@ == self@[key@],
                None => !self@.contains_key(key@),
            },
    {
        proof {
            lemma_amap_contains(self.pairs(), key@);
        }
        match self.find_index(key) {
            Some(i) => {
                proof {
                    lemma_amap_index(self.pairs(), i as int);
                }
                Some(&self.entries[i].1)
            },
            None => None,
        }
    }

    /// Binds the key to the value, replacing any prior binding.
    pub fn insert(&mut self, key: String, value: V)
        requires
            old(self).wf(),
        ensures
            final(self).wf(),
            final(self)@ == old(self)@.insert(key@, value@),
    {
        let ghost s = self.pairs();
        let ghost kv = key@;
        match self.find_index(&key) {
            Some(i) => {
                proof {
                    lemma_amap_update(s, i as int, value@);
                }
                self.entries.set(i, (key, value));
                proof {
                    assert(self.pairs() =~= s.update(i as int, (s[i as int].0, value@)));
                }
            },
            None => {
                proof {
                    lemma_amap_push(s, key@, value@);
                }
                self.entries.push((key, value));
                proof {
                    assert(self.pairs() =~= s.push((kv, value@)));
                }
            },
        }
    }

    /// Removes the key's binding; reports whether one was there. Idempotent.
    pub fn remove(&mut self, key: &String) -> (r: bool)
        requires
            old(self).wf(),
        ensures
            final(self).wf(),
            final(self)@ == old(self)@.remove(key@),
            r == old(self)@.contains_key(key@),
    {
        let ghost s = self.pairs();
        proof {
            lemma_amap_contains(s, key@);
        }
        match self.find_index(key) {
            Some(i) => {
                proof {
                    lemma_amap_remove_at(s, i as int);
                }
                self.entries.remove(i);
                proof {
                    assert(self.pairs() =~= s.remove(i as int));
                }
                true
            },
            None => {
                proof {
                    assert(self@ =~= self@.remove(key@));
                }
                false
            },
        }
    }
}

impl<V: View> View for AssocMap<V> {
    type V = Map<Seq<char>, V::V>;

    open spec fn view(&self) -> Map<Seq<char>, V::V> {
        amap_of(self.pairs())
    }
}

/// Taking one more element of a sequence adds exactly that element to the
/// set of values taken so far.
pub proof fn lemma_take_step(s: Seq<Seq<char>>, i: int)
    requires
        0 < i <= s.len(),
    ensures
        forall|k: Seq<char>|
            #[trigger] s.take(i).contains(k) == (s.take(i - 1).contains(k) || k == s[i - 1]),
{
    assert forall|k: Seq<char>|
        #[trigger] s.take(i).contains(k) == (s.take(i - 1).contains(k) || k == s[i - 1]) by {
        if s.take(i).contains(k) {
            let j = choose|j: int| 0 <= j < i && #[trigger] s.take(i)[j] == k;
            if j < i - 1 {
                assert(s.take(i - 1)[j] == k);
            }
        }
        if s.take(i - 1).contains(k) {
            let j = choose|j: int| 0 <= j < i - 1 && #[trigger] s.take(i - 1)[j] == k;
            assert(s.take(i)[j] == k);
        }
        if k == s[i - 1] {
            assert(s.take(i)[i - 1] == k);
        }
    }
}

} // verus!
