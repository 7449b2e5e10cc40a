//! A small table from texts to values.

use vstd::prelude::*;

use crate::text;

verus! {

/// A table from texts to values. No key is there twice.
#[derive(Debug)]
pub struct Table<T> {
    keys: Vec<String>,
    values: Vec<T>,
}

impl<T> Table<T> {
    spec fn at(self, key: Seq<char>, i: int) -> bool {
        0 <= i < self.keys@.len() && self.keys@[i]@ == key
    }

    /// What the table holds.
    pub closed spec fn entries(self) -> Map<Seq<char>, T> {
        Map::new(
            |key: Seq<char>| exists|i: int| self.at(key, i),
            |key: Seq<char>| self.values@[choose|i: int| self.at(key, i)],
        )
    }

    /// How many entries the table holds.
    pub closed spec fn size(self) -> nat {
        self.keys@.len()
    }

    /// Every key has a value, and none is there twice.
    pub closed spec fn valid(self) -> bool {
        &&& self.keys@.len() == self.values@.len()
        &&& forall|key: Seq<char>, i: int, j: int|
            #[trigger] self.at(key, i) && #[trigger] self.at(key, j) ==> i == j
    }

    /// An empty table.
    pub fn new() -> (r: Table<T>)
        ensures
            r.valid(),
            r.entries() == Map::<Seq<char>, T>::empty(),
            r.size() == 0,
    {
        let r = Table { keys: Vec::new(), values: Vec::new() };
        assert(r.entries() =~= Map::<Seq<char>, T>::empty());
        r
    }

    /// The number of entries.
    pub fn len(&self) -> (n: usize)
        ensures
            n == self.size(),
    {
        self.keys.len()
    }

    fn position(&self, key: &str) -> (r: Option<usize>)
        requires
            self.valid(),
        ensures
            match r {
                Some(i) => self.at(key@, i as int) && self.entries().dom().contains(key@)
                    && self.entries()[key@] == self.values@[i as int],
                None => !self.entries().dom().contains(key@) && forall|i: int|
                    !#[trigger] self.at(key@, i),
            },
    {
        for i in 0..self.keys.len()
            invariant
                forall|j: int| j < i ==> !#[trigger] self.at(key@, j),
                self.valid(),
        {
            if text::same(self.keys[i].as_str(), key) {
                assert(self.at(key@, i as int));
                return Some(i);
            }
            assert(!self.at(key@, i as int));
        }
        None
    }

    /// The value for a key.
    pub fn get(&self, key: &str) -> (r: Option<&T>)
        requires
            self.valid(),
        ensures
            match r {
                Some(v) => self.entries().dom().contains(key@) && self.entries()[key@] == *v,
                None => !self.entries().dom().contains(key@),
            },
    {
        match self.position(key) {
            Some(i) => Some(&self.values[i]),
            None => None,
        }
    }

    /// Sets the value for a key, in place of an earlier one.
    pub fn insert(&mut self, key: String, value: T)
        requires
            old(self).valid(),
        ensures
            final(self).valid(),
            final(self).entries() == old(self).entries().insert(key@, value),
            final(self).size() == old(self).size() + if old(self).entries().dom().contains(key@) {
                0nat
            } else {
                1nat
            },
    {
        let ghost before = *self;
        match self.position(key.as_str()) {
            Some(i) => {
                self.values.set(i, value);
                proof {
                    assert forall|k: Seq<char>, j: int| #[trigger] self.at(k, j) == before.at(
                        k,
                        j,
                    ) by {}
                    assert forall|k: Seq<char>, a: int, b: int|
                        #[trigger] self.at(k, a) && #[trigger] self.at(k, b) implies a == b by {
                        assert(before.at(k, a) && before.at(k, b));
                    }
                    self.lemma_inserted(before, key@, i as int, value);
                }
            },
            None => {
                self.keys.push(key);
                self.values.push(value);
                proof {
                    let n = before.keys@.len() as int;
                    assert(self.at(key@, n));
                    assert forall|k: Seq<char>, j: int| j != n implies #[trigger] self.at(k, j)
                        == before.at(k, j) by {}
                    assert forall|k: Seq<char>, i: int, j: int|
                        #[trigger] self.at(k, i) && #[trigger] self.at(k, j) implies i == j by {
                        if i != n && j != n {
                            assert(before.at(k, i) && before.at(k, j));
                        } else if i != n {
                            assert(before.at(key@, i));
                        } else if j != n {
                            assert(before.at(key@, j));
                        }
                    }
                    self.lemma_inserted(before, key@, n, value);
                }
            },
        }
    }

    proof fn lemma_inserted(self, before: Table<T>, key: Seq<char>, n: int, value: T)
        requires
            before.valid(),
            self.valid(),
            self.at(key, n),
            self.values@[n] == value,
            forall|k: Seq<char>, j: int| j != n ==> #[trigger] self.at(k, j) == before.at(k, j),
            forall|k: Seq<char>| k != key ==> !#[trigger] before.at(k, n),
            forall|j: int| 0 <= j < before.values@.len() && j != n ==> self.values@[j]
                == before.values@[j],
        ensures
            self.entries() == before.entries().insert(key, value),
    {
        let after = self.entries();
        let want = before.entries().insert(key, value);
        assert forall|k: Seq<char>| after.dom().contains(k) == want.dom().contains(k) by {
            if k == key {
                assert(self.at(k, n));
            } else {
                if after.dom().contains(k) {
                    let i = choose|i: int| self.at(k, i);
                    assert(self.at(k, i));
                    if i == n {
                        assert(self.keys@[n]@ == key);
                    }
                    assert(before.at(k, i));
                }
                if before.entries().dom().contains(k) {
                    let i = choose|i: int| before.at(k, i);
                    assert(before.at(k, i));
                    assert(self.at(k, i));
                }
            }
        }
        assert forall|k: Seq<char>| after.dom().contains(k) implies after[k] == want[k] by {
            let i = choose|i: int| self.at(k, i);
            assert(self.at(k, i));
            if k == key {
                assert(i == n);
            } else {
                if i == n {
                    assert(self.keys@[n]@ == key);
                }
                assert(before.at(k, i));
                let j = choose|j: int| before.at(k, j);
                assert(before.at(k, j));
                assert(i == j);
            }
        }
        assert(after =~= want);
    }

    /// Takes the value for a key out.
    pub fn remove(&mut self, key: &str) -> (r: Option<T>)
        requires
            old(self).valid(),
        ensures
            final(self).valid(),
            match r {
                Some(v) => old(self).entries().dom().contains(key@) && old(self).entries()[key@]
                    == v && final(self).entries() == old(self).entries().remove(key@)
                    && final(self).size() + 1 == old(self).size(),
                None => !old(self).entries().dom().contains(key@) && final(self).entries() == old(
                    self,
                ).entries() && final(self).size() == old(self).size(),
            },
    {
        let ghost before = *self;
        match self.position(key) {
            Some(n) => {
                let _ = self.keys.remove(n);
                let v = self.values.remove(n);
                proof {
                    assert forall|k: Seq<char>, j: int| #[trigger] self.at(k, j) == before.at(
                        k,
                        if j < n {
                            j
                        } else {
                            j + 1
                        },
                    ) by {}
                    assert forall|k: Seq<char>, i: int, j: int|
                        #[trigger] self.at(k, i) && #[trigger] self.at(k, j) implies i == j by {
                        let a = if i < n {
                            i
                        } else {
                            i + 1
                        };
                        let b = if j < n {
                            j
                        } else {
                            j + 1
                        };
                        assert(before.at(k, a) && before.at(k, b));
                    }
                    let after = self.entries();
                    let want = before.entries().remove(key@);
                    assert forall|k: Seq<char>| after.dom().contains(k) == want.dom().contains(
                        k,
                    ) by {
                        if after.dom().contains(k) {
                            let i = choose|i: int| self.at(k, i);
                            assert(self.at(k, i));
                            let a = if i < n {
                                i
                            } else {
                                i + 1
                            };
                            assert(before.at(k, a));
                            if k == key@ {
                                assert(before.at(key@, n as int));
                            }
                        }
                        if want.dom().contains(k) {
                            let a = choose|a: int| before.at(k, a);
                            assert(before.at(k, a));
                            if a == n {
                                assert(before.keys@[n as int]@ == key@);
                            }
                            let i = if a < n {
                                a
                            } else {
                                a - 1
                            };
                            assert(self.at(k, i));
                        }
                    }
                    assert forall|k: Seq<char>| after.dom().contains(k) implies after[k]
                        == want[k] by {
                        let i = choose|i: int| self.at(k, i);
                        assert(self.at(k, i));
                        let a = if i < n {
                            i
                        } else {
                            i + 1
                        };
                        assert(before.at(k, a));
                        let b = choose|b: int| before.at(k, b);
                        assert(before.at(k, b));
                        assert(a == b);
                    }
                    assert(after =~= want);
                }
                Some(v)
            },
            None => None,
        }
    }
}

} // verus!
