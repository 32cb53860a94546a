//! Values by name.

use crate::text::same_text;
use vstd::prelude::*;

verus! {

/// Values by name.
pub struct NamedMap<V> {
    entries: Vec<(String, V)>,
}

impl<V> NamedMap<V> {
    /// The value of each name.
    pub closed spec fn view(&self) -> Map<Seq<char>, V> {
        Map::new(
            |name: Seq<char>| self.has(name),
            |name: Seq<char>| self.entries@[self.place(name)].1,
        )
    }

    spec fn has(&self, name: Seq<char>) -> bool {
        exists|i: int| 0 <= i < self.entries@.len() && (#[trigger] self.entries@[i]).0@ == name
    }

    spec fn place(&self, name: Seq<char>) -> int {
        choose|i: int| 0 <= i < self.entries@.len() && (#[trigger] self.entries@[i]).0@ == name
    }

    /// No name has two values.
    pub closed spec fn wf(&self) -> bool {
        forall|i: int, j: int|
            0 <= i < j < self.entries@.len() ==> (#[trigger] self.entries@[i]).0@ != (
            #[trigger] self.entries@[j]).0@
    }

    proof fn lemma_view(&self)
        requires
            self.wf(),
        ensures
            forall|i: int|
                0 <= i < self.entries@.len() ==> self@.contains_key(
                    (#[trigger] self.entries@[i]).0@,
                ) && self@[self.entries@[i].0@] == self.entries@[i].1,
            forall|name: Seq<char>| #[trigger]
                self@.contains_key(name) ==> 0 <= self.place(name) < self.entries@.len()
                    && self.entries@[self.place(name)].0@ == name,
    {
        assert forall|i: int| 0 <= i < self.entries@.len() implies self@.contains_key(
            (#[trigger] self.entries@[i]).0@,
        ) && self@[self.entries@[i].0@] == self.entries@[i].1 by {
            let name = self.entries@[i].0@;
            assert(self.has(name));
            let j = self.place(name);
            if i < j {
                assert(self.entries@[i].0@ != self.entries@[j].0@);
            } else if j < i {
                assert(self.entries@[j].0@ != self.entries@[i].0@);
            }
        }
    }

    /// No values.
    pub fn new() -> (r: NamedMap<V>)
        ensures
            r.wf(),
            r@ == Map::<Seq<char>, V>::empty(),
    {
        let r = NamedMap { entries: Vec::new() };
        assert(r@ =~= Map::<Seq<char>, V>::empty());
        r
    }

    fn position(&self, name: &str) -> (r: Option<usize>)
        ensures
            match r {
                Some(i) => i < self.entries@.len() && self.entries@[i as int].0@ == name@,
                None => !self.has(name@),
            },
    {
        for i in 0..self.entries.len()
            invariant
                forall|j: int| 0 <= j < i ==> (#[trigger] self.entries@[j]).0@ != name@,
        {
            if same_text(self.entries[i].0.as_str(), name) {
                return Some(i);
            }
        }
        None
    }

    /// The value of a name.
    pub fn get(&self, name: &str) -> (r: Option<&V>)
        requires
            self.wf(),
        ensures
            match r {
                Some(v) => self@.contains_key(name@) && *v == self@[name@],
                None => !self@.contains_key(name@),
            },
    {
        match self.position(name) {
            Some(i) => {
                proof {
                    self.lemma_view();
                }
                Some(&self.entries[i].1)
            },
            None => None,
        }
    }

    /// Puts a value in, in place of the one with its name.
    pub fn insert(&mut self, name: String, value: V)
        requires
            old(self).wf(),
        ensures
            final(self).wf(),
            final(self)@ == old(self)@.insert(name@, value),
    {
        let ghost before = *self;
        let ghost mut at: int = self.entries@.len() as int;
        match self.position(name.as_str()) {
            Some(i) => {
                proof {
                    at = i as int;
                }
                self.entries.set(i, (name, value));
            },
            None => {
                self.entries.push((name, value));
            },
        }
        proof {
            before.lemma_view();
            self.lemma_view();
            assert forall|n: Seq<char>| self@.contains_key(n) == before@.insert(
                name@,
                value,
            ).contains_key(n) by {
                if self@.contains_key(n) && n != name@ {
                    let j = self.place(n);
                    assert(before.entries@[j] == self.entries@[j]);
                    assert(before@.contains_key(n));
                }
                if before@.contains_key(n) && n != name@ {
                    let j = before.place(n);
                    assert(before.entries@[j] == self.entries@[j]);
                    assert(self@.contains_key(n));
                }
                assert(self.entries@[at].0@ == name@);
            }
            assert(self@ =~= before@.insert(name@, value));
        }
    }

    /// Takes a value out.
    pub fn remove(&mut self, name: &str) -> (r: Option<V>)
        requires
            old(self).wf(),
        ensures
            final(self).wf(),
            match r {
                Some(v) => old(self)@.contains_key(name@) && v == old(self)@[name@]
                    && final(self)@ == old(self)@.remove(name@),
                None => !old(self)@.contains_key(name@) && final(self)@ == old(self)@,
            },
    {
        let ghost before = *self;
        match self.position(name) {
            Some(i) => {
                let (_, value) = self.entries.remove(i);
                proof {
                    before.lemma_view();
                    self.lemma_removed(before, i as int, name@);
                }
                Some(value)
            },
            None => None,
        }
    }

    proof fn lemma_removed(&self, before: NamedMap<V>, i: int, name: Seq<char>)
        requires
            before.wf(),
            0 <= i < before.entries@.len(),
            before.entries@[i].0@ == name,
            self.entries@ == before.entries@.remove(i),
        ensures
            self.wf(),
            self@ == before@.remove(name),
    {
        before.lemma_view();
        assert forall|a: int, b: int| 0 <= a < b < self.entries@.len() implies (
        #[trigger] self.entries@[a]).0@ != (#[trigger] self.entries@[b]).0@ by {
            let c = if a < i {
                a
            } else {
                a + 1
            };
            let d = if b < i {
                b
            } else {
                b + 1
            };
            assert(before.entries@[c].0@ != before.entries@[d].0@);
        }
        self.lemma_view();
        assert forall|n: Seq<char>| self@.contains_key(n) == before@.remove(name).contains_key(
            n,
        ) by {
            if self@.contains_key(n) {
                let j = self.place(n);
                let k = if j < i {
                    j
                } else {
                    j + 1
                };
                assert(before.entries@[k] == self.entries@[j]);
                assert(before@.contains_key(n));
                if k < i {
                    assert(before.entries@[k].0@ != before.entries@[i].0@);
                } else {
                    assert(before.entries@[i].0@ != before.entries@[k].0@);
                }
            }
            if before@.contains_key(n) && n != name {
                let j = before.place(n);
                let k = if j < i {
                    j
                } else {
                    j - 1
                };
                assert(before.entries@[j] == self.entries@[k]);
                assert(self@.contains_key(n));
            }
        }
        assert forall|n: Seq<char>| self@.contains_key(n) implies self@[n] == before@[n] by {
            let j = self.place(n);
            let k = if j < i {
                j
            } else {
                j + 1
            };
            assert(before.entries@[k] == self.entries@[j]);
        }
        assert(self@ =~= before@.remove(name));
    }
}

} // verus!
