//! Items kept by key.

use vstd::prelude::*;

verus! {

/// A small map from text keys to items, each key once.
#[derive(Debug)]
pub struct KeyIndex<V> {
    entries: Vec<(String, V)>,
}

impl<V> View for KeyIndex<V> {
    type V = Map<Seq<char>, V>;

    closed spec fn view(&self) -> Map<Seq<char>, V> {
        Map::new(
            |key: Seq<char>| exists|i: int| self.holds(i, key),
            |key: Seq<char>| self.entries@[choose|i: int| self.holds(i, key)].1,
        )
    }
}

impl<V> KeyIndex<V> {
    /// Entry `i` is there, under `key`.
    spec fn holds(&self, i: int, key: Seq<char>) -> bool {
        0 <= i < self.entries@.len() && self.entries@[i].0@ == key
    }

    /// No key occurs twice.
    pub closed spec fn wf(&self) -> bool {
        forall|i: int, j: int|
            0 <= i < j < self.entries@.len() ==> (#[trigger] self.entries@[i]).0@ != (
            #[trigger] self.entries@[j]).0@
    }

    /// What the view holds under the key of entry `i`.
    proof fn lemma_entry(&self, i: int, key: Seq<char>)
        requires
            self.wf(),
            self.holds(i, key),
        ensures
            self@.contains_key(key),
            self@[key] == self.entries@[i].1,
    {
        let j = choose|j: int| self.holds(j, key);
        assert(self.holds(j, key));
        assert(i == j);
    }

    /// Every entry is in the view.
    proof fn lemma_entries(&self)
        requires
            self.wf(),
        ensures
            forall|i: int|
                0 <= i < self.entries@.len() ==> {
                    let entry = #[trigger] self.entries@[i];
                    self@.contains_key(entry.0@) && self@[entry.0@] == entry.1
                },
    {
        assert forall|i: int| 0 <= i < self.entries@.len() implies {
            let entry = #[trigger] self.entries@[i];
            self@.contains_key(entry.0@) && self@[entry.0@] == entry.1
        } by {
            self.lemma_entry(i, self.entries@[i].0@);
        }
    }

    /// A map that holds what the entries hold, and nothing else, is the view.
    proof fn lemma_view_is(&self, m: Map<Seq<char>, V>)
        requires
            self.wf(),
            forall|i: int|
                0 <= i < self.entries@.len() ==> {
                    let entry = #[trigger] self.entries@[i];
                    m.contains_key(entry.0@) && m[entry.0@] == entry.1
                },
            forall|key: Seq<char>| #[trigger]
                m.contains_key(key) ==> exists|i: int| self.holds(i, key),
        ensures
            self@ == m,
    {
        assert forall|key: Seq<char>| #[trigger] m.contains_key(key) implies self@.contains_key(key)
            && self@[key] == m[key] by {
            let i = choose|i: int| self.holds(i, key);
            self.lemma_entry(i, key);
        }
        assert(self@ =~= m);
    }

    /// An index without items.
    pub fn new() -> (index: Self)
        ensures
            index.wf(),
            index@ == Map::<Seq<char>, V>::empty(),
    {
        let index = KeyIndex { entries: Vec::new() };
        assert(index@ =~= Map::<Seq<char>, V>::empty());
        index
    }

    /// Where `key` is.
    fn find(&self, key: &String) -> (at: Option<usize>)
        ensures
            match at {
                Some(i) => self.holds(i as int, key@),
                None => !self@.contains_key(key@),
            },
    {
        let mut i: usize = 0;
        while i < self.entries.len()
            invariant
                i <= self.entries@.len(),
                forall|j: int| 0 <= j < i ==> !#[trigger] self.holds(j, key@),
            decreases self.entries@.len() - i,
        {
            if self.entries[i].0 == *key {
                return Some(i);
            }
            i = i + 1;
        }
        None
    }

    /// Puts `item` under `key`, in place of the item that was there, if any.
    pub fn insert(&mut self, key: String, item: V)
        requires
            old(self).wf(),
        ensures
            final(self).wf(),
            final(self)@ == old(self)@.insert(key@, item),
    {
        let ghost before = *self;
        let ghost added = key@;
        let ghost at: int = self.entries@.len() as int;
        proof {
            before.lemma_entries();
        }
        match self.find(&key) {
            Some(i) => {
                proof {
                    at = i as int;
                }
                self.entries.set(i, (key, item));
            },
            None => {
                self.entries.push((key, item));
            },
        }
        proof {
            let after = before@.insert(added, item);
            assert(self.holds(at, added));
            assert forall|k: Seq<char>| #[trigger] after.contains_key(k) implies exists|i: int|
                self.holds(i, k) by {
                if k != added {
                    let i = choose|i: int| before.holds(i, k);
                    assert(self.holds(i, k));
                }
            }
            self.lemma_view_is(after);
        }
    }

    /// Takes the item under `key` out, if there is one.
    pub fn remove(&mut self, key: &String) -> (item: Option<V>)
        requires
            old(self).wf(),
        ensures
            final(self).wf(),
            final(self)@ == old(self)@.remove(key@),
            item == if old(self)@.contains_key(key@) {
                Some(old(self)@[key@])
            } else {
                None
            },
    {
        let ghost before = *self;
        proof {
            before.lemma_entries();
        }
        match self.find(key) {
            Some(i) => {
                let (_, item) = self.entries.swap_remove(i);
                proof {
                    let after = before@.remove(key@);
                    let last = before.entries@.len() - 1;
                    assert forall|k: Seq<char>| #[trigger] after.contains_key(k) implies exists|
                        j: int,
                    | self.holds(j, k) by {
                        let j = choose|j: int| before.holds(j, k);
                        if j == last {
                            assert(self.holds(i as int, k));
                        } else {
                            assert(self.holds(j, k));
                        }
                    }
                    self.lemma_view_is(after);
                }
                Some(item)
            },
            None => {
                assert(before@.remove(key@) =~= before@);
                None
            },
        }
    }
}

} // verus!
