//! A string-keyed map held as a list of distinct keys.
//!
//! The abstract view is a `Map<Seq<char>, V>`; the entries keep the order
//! in which keys were first inserted.

use vstd::prelude::*;

verus! {

#[derive(Clone)]
pub struct StrMap<V> {
    entries: Vec<(String, V)>,
    contents: Ghost<Map<Seq<char>, V>>,
}

impl<V> View for StrMap<V> {
    type V = Map<Seq<char>, V>;

    closed spec fn view(&self) -> Map<Seq<char>, V> {
        self.contents@
    }
}

impl<V> StrMap<V> {
    /// The keys, in insertion order.
    pub closed spec fn key_seq(&self) -> Seq<Seq<char>> {
        self.entries@.map_values(|e: (String, V)| e.0@)
    }

    /// The values, in the order of `key_seq`.
    pub closed spec fn value_seq(&self) -> Seq<V> {
        self.entries@.map_values(|e: (String, V)| e.1)
    }

    /// Keys are distinct and the view holds exactly the entries.
    pub closed spec fn wf(&self) -> bool {
        &&& forall|i: int, j: int|
            0 <= i < j < self.entries@.len() ==> #[trigger] self.entries@[i].0@
                != #[trigger] self.entries@[j].0@
        &&& forall|i: int|
            0 <= i < self.entries@.len() ==> self.contents@.contains_key(
                #[trigger] self.entries@[i].0@,
            ) && self.contents@[self.entries@[i].0@] == self.entries@[i].1
        &&& forall|k: Seq<char>|
            #[trigger] self.contents@.contains_key(k) ==> exists|i: int|
                0 <= i < self.entries@.len() && #[trigger] self.entries@[i].0@ == k
    }

    pub proof fn lemma_keys(&self)
        requires
            self.wf(),
        ensures
            self.key_seq().len() == self.value_seq().len(),
            self.key_seq().no_duplicates(),
            forall|i: int|
                0 <= i < self.key_seq().len() ==> self@.contains_key(#[trigger] self.key_seq()[i])
                    && self@[self.key_seq()[i]] == self.value_seq()[i],
            forall|k: Seq<char>| #[trigger]
                self@.contains_key(k) ==> self.key_seq().contains(k),
            self@.dom().finite(),
    {
        assert forall|k: Seq<char>| #[trigger] self@.contains_key(k) implies self.key_seq().contains(k) by {
            let i = choose|i: int| 0 <= i < self.entries@.len() && #[trigger] self.entries@[i].0@ == k;
            assert(self.key_seq()[i] == k);
        }
        assert(self@.dom() =~= self.key_seq().to_set());
        self.key_seq().lemma_cardinality_of_set();
    }

    pub fn new() -> (m: StrMap<V>)
        ensures
            m.wf(),
            m@ == Map::<Seq<char>, V>::empty(),
            m.key_seq().len() == 0,
    {
        StrMap { entries: Vec::new(), contents: Ghost(Map::empty()) }
    }

    pub fn len(&self) -> (n: usize)
        requires
            self.wf(),
        ensures
            n == self.key_seq().len(),
    {
        self.entries.len()
    }

    /// Position of `key` among the entries.
    fn find(&self, key: &str) -> (r: Option<usize>)
        requires
            self.wf(),
        ensures
            match r {
                Some(i) => i < self.entries@.len() && self.entries@[i as int].0@ == key@,
                None => !self@.contains_key(key@),
            },
    {
        let mut i: usize = 0;
        while i < self.entries.len()
            invariant
                self.wf(),
                i <= self.entries@.len(),
                forall|j: int| 0 <= j < i ==> self.entries@[j].0@ != key@,
            decreases self.entries@.len() - i,
        {
            if crate::text::str_eq(self.entries[i].0.as_str(), key) {
                return Some(i);
            }
            i += 1;
        }
        proof {
            if self@.contains_key(key@) {
                let j = choose|j: int| 0 <= j < self.entries@.len() && #[trigger] self.entries@[j].0@ == key@;
                assert(self.entries@[j].0@ != key@);
            }
        }
        None
    }

    pub fn contains_key(&self, key: &str) -> (b: bool)
        requires
            self.wf(),
        ensures
            b == self@.contains_key(key@),
    {
        self.find(key).is_some()
    }

    pub fn get(&self, key: &str) -> (r: Option<&V>)
        requires
            self.wf(),
        ensures
            match r {
                Some(v) => self@.contains_key(key@) && *v == self@[key@],
                None => !self@.contains_key(key@),
            },
    {
        match self.find(key) {
            Some(i) => Some(&self.entries[i].1),
            None => None,
        }
    }

    /// The stored key equal to `key`, with its value.
    pub fn get_key_value(&self, key: &str) -> (r: Option<(&String, &V)>)
        requires
            self.wf(),
        ensures
            match r {
                Some((k, v)) => self@.contains_key(key@) && k@ == key@ && *v == self@[key@],
                None => !self@.contains_key(key@),
            },
    {
        match self.find(key) {
            Some(i) => Some((&self.entries[i].0, &self.entries[i].1)),
            None => None,
        }
    }

    /// Entry at position `i` of the insertion order.
    pub fn entry_at(&self, i: usize) -> (r: (&String, &V))
        requires
            self.wf(),
            i < self.key_seq().len(),
        ensures
            r.0@ == self.key_seq()[i as int],
            *r.1 == self.value_seq()[i as int],
            *r.1 == self@[self.key_seq()[i as int]],
    {
        proof { self.lemma_keys(); }
        let e = &self.entries[i];
        (&e.0, &e.1)
    }

    /// The entries, in insertion order.
    pub fn into_entries(self) -> (v: Vec<(String, V)>)
        requires
            self.wf(),
        ensures
            v@.len() == self.key_seq().len(),
            forall|i: int| 0 <= i < v@.len() ==> (#[trigger] v@[i]).0@ == self.key_seq()[i]
                && v@[i].1 == self.value_seq()[i],
    {
        self.entries
    }

    pub fn insert(&mut self, key: String, value: V)
        requires
            old(self).wf(),
        ensures
            final(self).wf(),
            final(self)@ == old(self)@.insert(key@, value),
            old(self)@.contains_key(key@) ==> final(self).key_seq() == old(self).key_seq(),
            !old(self)@.contains_key(key@) ==> final(self).key_seq() == old(self).key_seq().push(
                key@,
            ),
    {
        let ghost k = key@;
        match self.find(key.as_str()) {
            Some(i) => {
                self.entries.set(i, (key, value));
                proof {
                    self.contents@ = self.contents@.insert(k, value);
                    assert forall|a: int| 0 <= a < self.entries@.len() implies #[trigger] self.entries@[a].0@
                        == old(self).entries@[a].0@ by {}
                    assert(self.key_seq() =~= old(self).key_seq());
                    assert forall|a: int, b: int| 0 <= a < b < self.entries@.len() implies #[trigger] self.entries@[a].0@
                        != #[trigger] self.entries@[b].0@ by {
                        assert(old(self).entries@[a].0@ == self.entries@[a].0@);
                        assert(old(self).entries@[b].0@ == self.entries@[b].0@);
                    }
                    assert forall|a: int| 0 <= a < self.entries@.len() implies self.contents@.contains_key(
                        #[trigger] self.entries@[a].0@,
                    ) && self.contents@[self.entries@[a].0@] == self.entries@[a].1 by {
                        if a != i {
                            assert(old(self).entries@[a].0@ != old(self).entries@[i as int].0@);
                        }
                    }
                    assert forall|kk: Seq<char>| #[trigger] self.contents@.contains_key(kk) implies exists|j: int|
                        0 <= j < self.entries@.len() && #[trigger] self.entries@[j].0@ == kk by {
                        if kk != k {
                            let j = choose|j: int| 0 <= j < old(self).entries@.len() && #[trigger] old(self).entries@[j].0@ == kk;
                            assert(self.entries@[j].0@ == kk);
                        } else {
                            assert(self.entries@[i as int].0@ == kk);
                        }
                    }
                }
            }
            None => {
                self.entries.push((key, value));
                proof {
                    self.contents@ = self.contents@.insert(k, value);
                    assert(self.key_seq() =~= old(self).key_seq().push(k));
                    let n = old(self).entries@.len();
                    assert forall|a: int| 0 <= a < n implies old(self).entries@[a].0@ != k by {
                        assert(old(self).contents@.contains_key(old(self).entries@[a].0@));
                    }
                    assert forall|a: int, b: int| 0 <= a < b < self.entries@.len() implies #[trigger] self.entries@[a].0@
                        != #[trigger] self.entries@[b].0@ by {
                        assert(self.entries@[a] == old(self).entries@[a]);
                        if b < n {
                            assert(self.entries@[b] == old(self).entries@[b]);
                        }
                    }
                    assert forall|a: int| 0 <= a < self.entries@.len() implies self.contents@.contains_key(
                        #[trigger] self.entries@[a].0@,
                    ) && self.contents@[self.entries@[a].0@] == self.entries@[a].1 by {
                        if a < n {
                            assert(self.entries@[a] == old(self).entries@[a]);
                        }
                    }
                    assert forall|kk: Seq<char>| #[trigger] self.contents@.contains_key(kk) implies exists|j: int|
                        0 <= j < self.entries@.len() && #[trigger] self.entries@[j].0@ == kk by {
                        if kk != k {
                            let j = choose|j: int| 0 <= j < old(self).entries@.len() && #[trigger] old(self).entries@[j].0@ == kk;
                            assert(self.entries@[j].0@ == kk);
                        } else {
                            assert(self.entries@[self.entries@.len() - 1].0@ == kk);
                        }
                    }
                }
            }
        }
    }

    pub fn remove(&mut self, key: &str)
        requires
            old(self).wf(),
        ensures
            final(self).wf(),
            final(self)@ == old(self)@.remove(key@),
    {
        match self.find(key) {
            Some(i) => {
                let _ = self.entries.remove(i);
                proof {
                    self.contents@ = self.contents@.remove(key@);
                    let oe = old(self).entries@;
                    assert forall|a: int, b: int| 0 <= a < b < self.entries@.len() implies #[trigger] self.entries@[a].0@
                        != #[trigger] self.entries@[b].0@ by {
                        let a2 = if a < i { a } else { a + 1 };
                        let b2 = if b < i { b } else { b + 1 };
                        assert(self.entries@[a] == oe[a2]);
                        assert(self.entries@[b] == oe[b2]);
                    }
                    assert forall|a: int| 0 <= a < self.entries@.len() implies self.contents@.contains_key(
                        #[trigger] self.entries@[a].0@,
                    ) && self.contents@[self.entries@[a].0@] == self.entries@[a].1 by {
                        let a2 = if a < i { a } else { a + 1 };
                        assert(self.entries@[a] == oe[a2]);
                        assert(oe[a2].0@ != oe[i as int].0@);
                    }
                    assert forall|kk: Seq<char>| #[trigger] self.contents@.contains_key(kk) implies exists|j: int|
                        0 <= j < self.entries@.len() && #[trigger] self.entries@[j].0@ == kk by {
                        let j = choose|j: int| 0 <= j < oe.len() && #[trigger] oe[j].0@ == kk;
                        assert(j != i);
                        let j2 = if j < i { j } else { j - 1 };
                        assert(self.entries@[j2] == oe[j]);
                    }
                }
            }
            None => {
                proof {
                    assert(old(self)@.remove(key@) =~= old(self)@);
                }
            }
        }
    }

    pub fn clear(&mut self)
        ensures
            final(self).wf(),
            final(self)@ == Map::<Seq<char>, V>::empty(),
            final(self).key_seq().len() == 0,
    {
        self.entries.clear();
        proof {
            self.contents@ = Map::empty();
        }
    }
}

} // verus!
