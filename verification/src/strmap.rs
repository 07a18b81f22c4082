//! A small association map from `String` keys to values, modelled as a
//! `Map<Seq<char>, V>`.
//!
//! The managers key their tables (arrays, effects, values, universes, light
//! groups) by strings; this container gives those tables a precise
//! mathematical view.

use vstd::prelude::*;

use crate::strutil::str_eq;

verus! {

/// The map that a sequence of key/value entries denotes; a later entry for
/// the same key wins.
pub open spec fn entries_map<V>(s: Seq<(String, V)>) -> Map<Seq<char>, V>
    decreases s.len(),
{
    if s.len() == 0 {
        Map::empty()
    } else {
        entries_map(s.drop_last()).insert(s.last().0@, s.last().1)
    }
}

/// No two entries share a key.
pub open spec fn keys_distinct<V>(s: Seq<(String, V)>) -> bool {
    forall|i: int, j: int|
        0 <= i < j < s.len() ==> (#[trigger] s[i]).0@ != (#[trigger] s[j]).0@
}

#[derive(Debug)]
pub struct StrMap<V> {
    pub entries: Vec<(String, V)>,
}

impl<V> View for StrMap<V> {
    type V = Map<Seq<char>, V>;

    open spec fn view(&self) -> Map<Seq<char>, V> {
        entries_map(self.entries@)
    }
}

proof fn lemma_entries_map_get<V>(s: Seq<(String, V)>, i: int)
    requires
        keys_distinct(s),
        0 <= i < s.len(),
    ensures
        entries_map(s).contains_key(s[i].0@),
        entries_map(s)[s[i].0@] == s[i].1,
    decreases s.len(),
{
    if i == s.len() - 1 {
    } else {
        assert(keys_distinct(s.drop_last()));
        lemma_entries_map_get(s.drop_last(), i);
        assert(s.drop_last()[i] == s[i]);
        assert(s[i].0@ != s.last().0@);
    }
}

proof fn lemma_entries_map_absent<V>(s: Seq<(String, V)>, k: Seq<char>)
    requires
        forall|i: int| 0 <= i < s.len() ==> (#[trigger] s[i]).0@ != k,
    ensures
        !entries_map(s).contains_key(k),
    decreases s.len(),
{
    if s.len() > 0 {
        lemma_entries_map_absent(s.drop_last(), k);
    }
}

proof fn lemma_entries_map_update<V>(s: Seq<(String, V)>, i: int, k: String, v: V)
    requires
        keys_distinct(s),
        0 <= i < s.len(),
        s[i].0@ == k@,
    ensures
        entries_map(s.update(i, (k, v))) == entries_map(s).insert(k@, v),
        keys_distinct(s.update(i, (k, v))),
    decreases s.len(),
{
    let t = s.update(i, (k, v));
    assert(keys_distinct(t)) by {
        assert(forall|p: int, q: int|
            0 <= p < q < t.len() ==> (#[trigger] t[p]).0@ != (#[trigger] t[q]).0@) by {
            assert(forall|p: int| 0 <= p < t.len() && p != i ==> t[p] == s[p]);
            assert(t[i].0@ == s[i].0@);
        }
    }
    if i == s.len() - 1 {
        assert(t.drop_last() =~= s.drop_last());
        assert(entries_map(t) == entries_map(s.drop_last()).insert(k@, v));
        assert(entries_map(s).insert(k@, v) == entries_map(s.drop_last()).insert(
            s.last().0@,
            s.last().1,
        ).insert(k@, v));
        assert(entries_map(s.drop_last()).insert(s.last().0@, s.last().1).insert(k@, v)
            =~= entries_map(s.drop_last()).insert(k@, v));
    } else {
        assert(keys_distinct(s.drop_last()));
        lemma_entries_map_update(s.drop_last(), i, k, v);
        assert(t.drop_last() =~= s.drop_last().update(i, (k, v)));
        assert(t.last() == s.last());
        assert(entries_map(t) == entries_map(s.drop_last()).insert(k@, v).insert(
            s.last().0@,
            s.last().1,
        ));
        assert(s[i].0@ != s.last().0@);
        assert(entries_map(s.drop_last()).insert(k@, v).insert(s.last().0@, s.last().1)
            =~= entries_map(s.drop_last()).insert(s.last().0@, s.last().1).insert(k@, v));
    }
}

proof fn lemma_entries_map_remove<V>(s: Seq<(String, V)>, i: int)
    requires
        keys_distinct(s),
        0 <= i < s.len(),
    ensures
        entries_map(s.remove(i)) == entries_map(s).remove(s[i].0@),
        keys_distinct(s.remove(i)),
    decreases s.len(),
{
    let t = s.remove(i);
    assert(keys_distinct(t)) by {
        assert(forall|p: int, q: int|
            0 <= p < q < t.len() ==> (#[trigger] t[p]).0@ != (#[trigger] t[q]).0@) by {
            assert(forall|p: int| 0 <= p < i ==> t[p] == s[p]);
            assert(forall|p: int| i <= p < t.len() ==> t[p] == s[p + 1]);
        }
    }
    if i == s.len() - 1 {
        assert(t =~= s.drop_last());
        assert(forall|p: int| 0 <= p < t.len() ==> (#[trigger] t[p]).0@ != s[i].0@);
        lemma_entries_map_absent(t, s[i].0@);
        assert(entries_map(s).remove(s[i].0@) =~= entries_map(t));
    } else {
        assert(keys_distinct(s.drop_last()));
        lemma_entries_map_remove(s.drop_last(), i);
        assert(t.drop_last() =~= s.drop_last().remove(i));
        assert(t.last() == s.last());
        assert(s.drop_last()[i] == s[i]);
        assert(entries_map(t) == entries_map(s.drop_last()).remove(s[i].0@).insert(
            s.last().0@,
            s.last().1,
        ));
        assert(s[i].0@ != s.last().0@);
        assert(entries_map(s.drop_last()).remove(s[i].0@).insert(s.last().0@, s.last().1)
            =~= entries_map(s.drop_last()).insert(s.last().0@, s.last().1).remove(s[i].0@));
    }
}

/// The keys of the denoted map are exactly the views of the entry keys.
pub proof fn lemma_entries_map_dom<V>(s: Seq<(String, V)>)
    ensures
        forall|k: Seq<char>|
            #[trigger] entries_map(s).contains_key(k) <==> exists|p: int|
                0 <= p < s.len() && (#[trigger] s[p]).0@ == k,
    decreases s.len(),
{
    if s.len() > 0 {
        lemma_entries_map_dom(s.drop_last());
        assert forall|k: Seq<char>| #[trigger]
            entries_map(s).contains_key(k) implies exists|p: int|
            0 <= p < s.len() && (#[trigger] s[p]).0@ == k by {
            if k == s.last().0@ {
                assert(s[s.len() - 1].0@ == k);
            } else {
                assert(entries_map(s.drop_last()).contains_key(k));
                let p = choose|p: int|
                    0 <= p < s.drop_last().len() && (#[trigger] s.drop_last()[p]).0@ == k;
                assert(s[p].0@ == k);
            }
        }
        assert forall|k: Seq<char>|
            (exists|p: int| 0 <= p < s.len() && (#[trigger] s[p]).0@ == k) implies #[trigger]
            entries_map(s).contains_key(k) by {
            let p = choose|p: int| 0 <= p < s.len() && (#[trigger] s[p]).0@ == k;
            if p == s.len() - 1 {
            } else {
                assert(s.drop_last()[p].0@ == k);
                assert(entries_map(s.drop_last()).contains_key(k));
            }
        }
    }
}

/// With distinct keys, the denoted map splits off its first entry.
pub proof fn lemma_entries_map_front<V>(s: Seq<(String, V)>)
    requires
        keys_distinct(s),
        s.len() > 0,
    ensures
        entries_map(s) == entries_map(s.subrange(1, s.len() as int)).insert(s[0].0@, s[0].1),
        !entries_map(s.subrange(1, s.len() as int)).contains_key(s[0].0@),
    decreases s.len(),
{
    let tail = s.subrange(1, s.len() as int);
    assert(keys_distinct(tail)) by {
        assert(forall|p: int, q: int|
            0 <= p < q < tail.len() ==> (#[trigger] tail[p]).0@ != (#[trigger] tail[q]).0@) by {
            assert(forall|p: int| 0 <= p < tail.len() ==> #[trigger] tail[p] == s[p + 1]);
        }
    }
    assert(forall|p: int| 0 <= p < tail.len() ==> (#[trigger] tail[p]).0@ != s[0].0@) by {
        assert(forall|p: int| 0 <= p < tail.len() ==> #[trigger] tail[p] == s[p + 1]);
    }
    lemma_entries_map_absent(tail, s[0].0@);
    if s.len() == 1 {
        assert(tail =~= Seq::<(String, V)>::empty());
        assert(s.drop_last() =~= Seq::<(String, V)>::empty());
        assert(entries_map(s) =~= entries_map(tail).insert(s[0].0@, s[0].1));
    } else {
        lemma_entries_map_front(s.drop_last());
        assert(s.drop_last().subrange(1, s.drop_last().len() as int) =~= tail.drop_last());
        assert(s.drop_last()[0] == s[0]);
        assert(tail.last() == s.last());
        assert(entries_map(s) == entries_map(s.drop_last()).insert(s.last().0@, s.last().1));
        assert(entries_map(s.drop_last()) == entries_map(tail.drop_last()).insert(
            s[0].0@,
            s[0].1,
        ));
        assert(s[0].0@ != s.last().0@);
        assert(entries_map(tail.drop_last()).insert(s[0].0@, s[0].1).insert(
            s.last().0@,
            s.last().1,
        ) =~= entries_map(tail.drop_last()).insert(s.last().0@, s.last().1).insert(
            s[0].0@,
            s[0].1,
        ));
    }
}

/// With distinct keys, the map holds each entry's value under its key.
pub proof fn lemma_entries_map_get_pub<V>(s: Seq<(String, V)>, i: int)
    requires
        keys_distinct(s),
        0 <= i < s.len(),
    ensures
        entries_map(s).contains_key(s[i].0@),
        entries_map(s)[s[i].0@] == s[i].1,
{
    lemma_entries_map_get(s, i);
}

impl<V> StrMap<V> {
    /// The internal entries all have distinct keys.
    pub open spec fn wf(&self) -> bool {
        keys_distinct(self.entries@)
    }

    pub fn new() -> (r: StrMap<V>)
        ensures
            r.wf(),
            r@ == Map::<Seq<char>, V>::empty(),
    {
        StrMap { entries: Vec::new() }
    }

    /// Index of the entry holding `k`, if any.
    fn find(&self, k: &str) -> (r: Option<usize>)
        ensures
            match r {
                Some(i) => i < self.entries@.len() && self.entries@[i as int].0@ == k@,
                None => forall|i: int|
                    0 <= i < self.entries@.len() ==> (#[trigger] self.entries@[i]).0@ != k@,
            },
    {
        let mut i: usize = 0;
        while i < self.entries.len()
            invariant
                i <= self.entries@.len(),
                forall|j: int| 0 <= j < i ==> (#[trigger] self.entries@[j]).0@ != k@,
            decreases self.entries@.len() - i,
        {
            if str_eq(self.entries[i].0.as_str(), k) {
                return Some(i);
            }
            i = i + 1;
        }
        None
    }

    pub fn contains_key(&self, k: &str) -> (r: bool)
        requires
            self.wf(),
        ensures
            r == self@.contains_key(k@),
    {
        match self.find(k) {
            Some(i) => {
                proof {
                    lemma_entries_map_get(self.entries@, i as int);
                }
                true
            },
            None => {
                proof {
                    lemma_entries_map_absent(self.entries@, k@);
                }
                false
            },
        }
    }

    pub fn get(&self, k: &str) -> (r: Option<&V>)
        requires
            self.wf(),
        ensures
            match r {
                Some(v) => self@.contains_key(k@) && *v == self@[k@],
                None => !self@.contains_key(k@),
            },
    {
        match self.find(k) {
            Some(i) => {
                proof {
                    lemma_entries_map_get(self.entries@, i as int);
                }
                Some(&self.entries[i].1)
            },
            None => {
                proof {
                    lemma_entries_map_absent(self.entries@, k@);
                }
                None
            },
        }
    }

    pub fn insert(&mut self, k: String, v: V)
        requires
            old(self).wf(),
        ensures
            final(self).wf(),
            final(self)@ == old(self)@.insert(k@, v),
    {
        match self.find(k.as_str()) {
            Some(i) => {
                proof {
                    lemma_entries_map_update(self.entries@, i as int, k, v);
                }
                self.entries.set(i, (k, v));
            },
            None => {
                proof {
                    let s = self.entries@.push((k, v));
                    assert(s.drop_last() =~= self.entries@);
                    assert(keys_distinct(s)) by {
                        assert(forall|p: int|
                            0 <= p < s.len() - 1 ==> (#[trigger] s[p]) == self.entries@[p]);
                    }
                }
                self.entries.push((k, v));
            },
        }
    }

    /// Removes the entry under `k` and hands its value out.
    pub fn remove_take(&mut self, k: &str) -> (r: Option<V>)
        requires
            old(self).wf(),
        ensures
            final(self).wf(),
            match r {
                Some(v) => old(self)@.contains_key(k@) && v == old(self)@[k@] && final(self)@ == old(
                    self,
                )@.remove(k@),
                None => !old(self)@.contains_key(k@) && final(self)@ == old(self)@,
            },
    {
        match self.find(k) {
            Some(i) => {
                proof {
                    lemma_entries_map_get(self.entries@, i as int);
                    lemma_entries_map_remove(self.entries@, i as int);
                }
                let (_, v) = self.entries.remove(i);
                Some(v)
            },
            None => {
                proof {
                    lemma_entries_map_absent(self.entries@, k@);
                }
                None
            },
        }
    }

    pub fn remove(&mut self, k: &str)
        requires
            old(self).wf(),
        ensures
            final(self).wf(),
            final(self)@ == old(self)@.remove(k@),
    {
        match self.find(k) {
            Some(i) => {
                proof {
                    lemma_entries_map_remove(self.entries@, i as int);
                }
                let _ = self.entries.remove(i);
            },
            None => {
                proof {
                    lemma_entries_map_absent(self.entries@, k@);
                    assert(self@.remove(k@) =~= self@);
                }
            },
        }
    }

    pub fn len(&self) -> (r: usize)
        ensures
            r == self.entries@.len(),
    {
        self.entries.len()
    }

    /// Number of keys in the map; with distinct keys this is the entry count.
    pub open spec fn spec_len(&self) -> int {
        self.entries@.len() as int
    }

    /// The key of the entry at position `i`, for iteration.
    pub fn key_at(&self, i: usize) -> (r: &String)
        requires
            self.wf(),
            i < self.spec_len(),
        ensures
            self@.contains_key(r@),
            self@[r@] == self.entries@[i as int].1,
            r@ == self.entries@[i as int].0@,
    {
        proof {
            lemma_entries_map_get(self.entries@, i as int);
        }
        &self.entries[i].0
    }

    /// The value of the entry at position `i`, for iteration.
    pub fn val_at(&self, i: usize) -> (r: &V)
        requires
            self.wf(),
            i < self.spec_len(),
        ensures
            *r == self.entries@[i as int].1,
            self@.contains_key(self.entries@[i as int].0@),
            self@[self.entries@[i as int].0@] == *r,
    {
        proof {
            lemma_entries_map_get(self.entries@, i as int);
        }
        &self.entries[i].1
    }

    /// The entry sequence behind the map, for iteration invariants.
    pub open spec fn spec_entries(&self) -> Seq<(String, V)> {
        self.entries@
    }

    /// Hands the entries out and leaves the map empty.
    pub fn take_entries(&mut self) -> (r: Vec<(String, V)>)
        requires
            old(self).wf(),
        ensures
            final(self).wf(),
            final(self)@ == Map::<Seq<char>, V>::empty(),
            r@ == old(self).spec_entries(),
            keys_distinct(r@),
            entries_map(r@) == old(self)@,
    {
        let mut taken: Vec<(String, V)> = Vec::new();
        core::mem::swap(&mut taken, &mut self.entries);
        taken
    }

    /// Rebuilds a map from entries with distinct keys.
    pub fn from_entries(entries: Vec<(String, V)>) -> (r: StrMap<V>)
        requires
            keys_distinct(entries@),
        ensures
            r.wf(),
            r@ == entries_map(entries@),
            r.spec_entries() == entries@,
    {
        StrMap { entries }
    }
}

} // verus!
