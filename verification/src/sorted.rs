//! A set of strings kept in `String` order, as a `BTreeSet<String>` holds
//! and walks them. vstd states what a `BTreeSet` or `BTreeMap` holds only
//! for keys that obey its comparison specification, which `String` keys do
//! not, so the order is kept here and proved.
use vstd::prelude::*;
use crate::text::{chars_of, string_of};
use crate::trace::{ids_sorted, locate};

verus! {

/// Distinct strings in ascending order.
pub struct SortedStrings {
    keys: Vec<Vec<char>>,
}

impl View for SortedStrings {
    type V = Seq<Seq<char>>;

    closed spec fn view(&self) -> Seq<Seq<char>> {
        self.keys@.map_values(|k: Vec<char>| k@)
    }
}

impl SortedStrings {
    #[verifier::type_invariant]
    closed spec fn inv(&self) -> bool {
        ids_sorted(self.keys@.map_values(|k: Vec<char>| k@))
    }

    /// The empty set.
    pub fn new() -> (r: SortedStrings)
        ensures
            r@ == Seq::<Seq<char>>::empty(),
    {
        let r = SortedStrings { keys: Vec::new() };
        assert(r@ =~= Seq::<Seq<char>>::empty());
        r
    }

    /// The number of strings.
    pub fn len(&self) -> (r: usize)
        ensures
            r == self@.len(),
            ids_sorted(self@),
    {
        proof {
            use_type_invariant(self);
        }
        self.keys.len()
    }

    /// Whether `s` is one of the strings.
    pub fn contains(&self, s: &str) -> (r: bool)
        ensures
            r == self@.contains(s@),
    {
        proof {
            use_type_invariant(self);
        }
        let key = chars_of(s);
        match locate(&self.keys, &key) {
            Ok(k) => {
                assert(self@[k as int] == s@);
                true
            },
            Err(_) => {
                assert forall|j: int| 0 <= j < self@.len() implies self@[j] != s@ by {
                    assert(self@[j] == self.keys@[j]@);
                }
                false
            },
        }
    }

    /// Adds `s`; the order is kept and a string already there is not
    /// repeated.
    pub fn insert(&mut self, s: &str)
        ensures
            final(self)@.to_set() == old(self)@.to_set().insert(s@),
            old(self)@.contains(s@) ==> final(self)@ == old(self)@,
            !old(self)@.contains(s@) ==> final(self)@.len() == old(self)@.len() + 1,
            ids_sorted(final(self)@),
    {
        proof {
            use_type_invariant(&*self);
        }
        let key = chars_of(s);
        let ghost before = self@;
        match locate(&self.keys, &key) {
            Ok(k) => {
                proof {
                    assert(before[k as int] == s@);
                    assert(before.to_set().insert(s@) =~= before.to_set());
                }
            },
            Err(p) => {
                proof {
                    assert forall|j: int| 0 <= j < before.len() implies before[j] != s@ by {
                        assert(before[j] == self.keys@[j]@);
                    }
                }
                let mut keys: Vec<Vec<char>> = Vec::new();
                std::mem::swap(&mut keys, &mut self.keys);
                let ghost old_keys = keys@;
                keys.insert(p, key);
                proof {
                    let ov = old_keys.map_values(|k: Vec<char>| k@);
                    let nv = keys@.map_values(|k: Vec<char>| k@);
                    assert(ov == before);
                    assert(nv =~= ov.insert(p as int, s@));
                    assert forall|a: int, b: int| 0 <= a < b < nv.len() implies crate::text::seq_lt(
                        nv[a],
                        nv[b],
                    ) by {
                        if b < p {
                            assert(nv[a] == ov[a] && nv[b] == ov[b]);
                        } else if b == p {
                            assert(nv[a] == ov[a]);
                            assert(old_keys[a]@ == ov[a]);
                        } else if a == p {
                            assert(nv[b] == ov[b - 1]);
                            assert(old_keys[b - 1]@ == ov[b - 1]);
                        } else if a < p {
                            assert(nv[a] == ov[a] && nv[b] == ov[b - 1]);
                        } else {
                            assert(nv[a] == ov[a - 1] && nv[b] == ov[b - 1]);
                        }
                    }
                    assert(ov.insert(p as int, s@).to_set() =~= ov.to_set().insert(s@)) by {
                        assert forall|x: Seq<char>| #[trigger] ov.insert(p as int, s@).to_set().contains(x) <==> ov.to_set().insert(s@).contains(x) by {
                            if ov.contains(x) {
                                let j = choose|j: int| 0 <= j < ov.len() && ov[j] == x;
                                if j < p {
                                    assert(ov.insert(p as int, s@)[j] == x);
                                } else {
                                    assert(ov.insert(p as int, s@)[j + 1] == x);
                                }
                            }
                            if x == s@ {
                                assert(ov.insert(p as int, s@)[p as int] == x);
                            }
                            if ov.insert(p as int, s@).contains(x) {
                                let j = choose|j: int|
                                    0 <= j < ov.insert(p as int, s@).len() && ov.insert(
                                        p as int,
                                        s@,
                                    )[j] == x;
                                if j < p {
                                    assert(ov[j] == x);
                                } else if j > p {
                                    assert(ov[j - 1] == x);
                                }
                            }
                        }
                    }
                }
                self.keys = keys;
            },
        }
    }

    /// The strings in ascending order.
    pub fn to_vec(&self) -> (r: Vec<String>)
        ensures
            r@.map_values(|s: String| s@) == self@,
            ids_sorted(self@),
    {
        proof {
            use_type_invariant(self);
        }
        let mut r: Vec<String> = Vec::new();
        let mut i: usize = 0;
        while i < self.keys.len()
            invariant
                i <= self.keys.len(),
                r@.len() == i,
                forall|k: int| 0 <= k < i ==> #[trigger] r@[k]@ == self.keys@[k]@,
            decreases self.keys.len() - i,
        {
            r.push(string_of(&self.keys[i]));
            i = i + 1;
        }
        assert(r@.map_values(|s: String| s@) =~= self@);
        r
    }

    /// Drops the least string, if there is one.
    pub fn remove_first(&mut self)
        ensures
            old(self)@.len() > 0 ==> final(self)@ == old(self)@.drop_first(),
            old(self)@.len() == 0 ==> final(self)@ == old(self)@,
    {
        proof {
            use_type_invariant(&*self);
        }
        let mut keys: Vec<Vec<char>> = Vec::new();
        std::mem::swap(&mut keys, &mut self.keys);
        let ghost before = keys@;
        if keys.len() > 0 {
            keys.remove(0);
            proof {
                let ov = before.map_values(|k: Vec<char>| k@);
                let nv = keys@.map_values(|k: Vec<char>| k@);
                assert(nv =~= ov.drop_first());
            }
        }
        self.keys = keys;
    }

    /// Keeps the first `n` strings.
    pub fn truncate(&mut self, n: usize)
        ensures
            n <= old(self)@.len() ==> final(self)@ == old(self)@.take(n as int),
            n > old(self)@.len() ==> final(self)@ == old(self)@,
    {
        proof {
            use_type_invariant(&*self);
        }
        let mut keys: Vec<Vec<char>> = Vec::new();
        std::mem::swap(&mut keys, &mut self.keys);
        let ghost before = keys@;
        keys.truncate(n);
        proof {
            let ov = before.map_values(|k: Vec<char>| k@);
            let nv = keys@.map_values(|k: Vec<char>| k@);
            if n <= before.len() {
                assert(nv =~= ov.take(n as int));
            } else {
                assert(nv =~= ov);
            }
            assert forall|a: int, b: int| 0 <= a < b < nv.len() implies crate::text::seq_lt(
                nv[a],
                nv[b],
            ) by {
                assert(nv[a] == ov[a] && nv[b] == ov[b]);
            }
        }
        self.keys = keys;
    }
}

} // verus!
