use vstd::prelude::*;

verus! {

/// A map from names to values, kept as two parallel vectors.
///
/// Its view is a `Map` from the names' character sequences to the values.
/// std's `BTreeMap<String, V>` is not used: vstd models its lookups only for
/// keys whose order it knows, which `String` is not, so nothing about a
/// lookup by name could be proved.
pub struct NameMap<V> {
    keys: Vec<String>,
    vals: Vec<V>,
    contents: Ghost<Map<Seq<char>, V>>,
}

impl<V> NameMap<V> {
    pub closed spec fn view(&self) -> Map<Seq<char>, V> {
        self.contents@
    }

    pub closed spec fn wf(&self) -> bool {
        &&& self.keys.len() == self.vals.len()
        &&& forall|i: int, j: int|
            0 <= i < j < self.keys.len() ==> #[trigger] self.keys@[i]@ != #[trigger] self.keys@[j]@
        &&& forall|i: int|
            0 <= i < self.keys.len() ==> {
                &&& self.contents@.contains_key(#[trigger] self.keys@[i]@)
                &&& self.contents@[self.keys@[i]@] == self.vals@[i]
            }
        &&& forall|k: Seq<char>|
            #[trigger] self.contents@.contains_key(k) ==> exists|i: int|
                0 <= i < self.keys.len() && self.keys@[i]@ == k
    }

    pub fn new() -> (r: Self)
        ensures
            r.wf(),
            r@ == Map::<Seq<char>, V>::empty(),
    {
        NameMap { keys: Vec::new(), vals: Vec::new(), contents: Ghost(Map::empty()) }
    }

    /// The position of `k` among the keys, if it is one.
    fn position(&self, k: &String) -> (r: Option<usize>)
        requires
            self.wf(),
        ensures
            r is None <==> !self@.contains_key(k@),
            r matches Some(i) ==> i < self.keys.len() && self.keys@[i as int]@ == k@,
    {
        let mut i: usize = 0;
        while i < self.keys.len()
            invariant
                self.wf(),
                i <= self.keys.len(),
                forall|j: int| 0 <= j < i ==> self.keys@[j]@ != k@,
            decreases self.keys.len() - i,
        {
            if self.keys[i].eq(k) {
                return Some(i);
            }
            i = i + 1;
        }
        None
    }

    pub fn len(&self) -> (r: usize)
        requires
            self.wf(),
        ensures
            r == self@.dom().len(),
    {
        proof { self.lemma_dom_len(); }
        self.keys.len()
    }

    proof fn lemma_dom_len(&self)
        requires
            self.wf(),
        ensures
            self@.dom().finite(),
            self@.dom().len() == self.keys.len(),
    {
        let ks = self.keys@.map_values(|k: String| k@);
        assert(ks.no_duplicates()) by {
            assert forall|i: int, j: int| 0 <= i < ks.len() && 0 <= j < ks.len() && i != j
                implies ks[i] != ks[j] by {
                if i < j {
                    assert(self.keys@[i]@ != self.keys@[j]@);
                } else {
                    assert(self.keys@[j]@ != self.keys@[i]@);
                }
            }
        }
        assert(self@.dom() =~= ks.to_set()) by {
            assert forall|k: Seq<char>| self@.dom().contains(k) implies ks.to_set().contains(k) by {
                let i = choose|i: int| 0 <= i < self.keys.len() && self.keys@[i]@ == k;
                assert(ks[i] == k);
            }
            assert forall|k: Seq<char>| ks.to_set().contains(k) implies self@.dom().contains(k) by {
                let i = choose|i: int| 0 <= i < ks.len() && ks[i] == k;
                assert(self.keys@[i]@ == k);
            }
        }
        ks.unique_seq_to_set();
    }

    pub fn contains_key(&self, k: &String) -> (r: bool)
        requires
            self.wf(),
        ensures
            r == self@.contains_key(k@),
    {
        self.position(k).is_some()
    }

    pub fn get(&self, k: &String) -> (r: Option<&V>)
        requires
            self.wf(),
        ensures
            r is None <==> !self@.contains_key(k@),
            r matches Some(v) ==> *v == self@[k@],
    {
        match self.position(k) {
            Some(i) => Some(&self.vals[i]),
            None => None,
        }
    }

    /// Sets `k` to `v`; returns the value it had before, if any.
    pub fn insert(&mut self, k: String, v: V) -> (r: Option<V>)
        requires
            old(self).wf(),
        ensures
            final(self).wf(),
            final(self)@ == old(self)@.insert(k@, v),
            r is None <==> !old(self)@.contains_key(k@),
            r matches Some(p) ==> p == old(self)@[k@],
    {
        match self.position(&k) {
            Some(i) => {
                let mut v = v;
                self.vals.set_and_swap(i, &mut v);
                self.contents = Ghost(self.contents@.insert(k@, self.vals@[i as int]));
                proof {
                    assert forall|j: int| 0 <= j < self.keys.len() implies {
                        &&& self.contents@.contains_key(#[trigger] self.keys@[j]@)
                        &&& self.contents@[self.keys@[j]@] == self.vals@[j]
                    } by {
                        if j != i {
                            assert(self.keys@[j]@ != self.keys@[i as int]@) by {
                                if j < i {
                                    assert(self.keys@[j]@ != self.keys@[i as int]@);
                                } else {
                                    assert(self.keys@[i as int]@ != self.keys@[j]@);
                                }
                            }
                        }
                    }
                    assert forall|kk: Seq<char>| #[trigger] self.contents@.contains_key(kk)
                        implies exists|j: int| 0 <= j < self.keys.len() && self.keys@[j]@ == kk by {
                        if kk == k@ {
                            assert(self.keys@[i as int]@ == kk);
                        } else {
                            assert(old(self).contents@.contains_key(kk));
                            let j = choose|j: int| 0 <= j < old(self).keys.len() && old(self).keys@[j]@ == kk;
                            assert(self.keys@[j]@ == kk);
                        }
                    }
                }
                Some(v)
            },
            None => {
                let ghost kv = k@;
                self.keys.push(k);
                self.vals.push(v);
                self.contents = Ghost(self.contents@.insert(kv, v));
                proof {
                    let n = self.keys.len() - 1;
                    assert(self.keys@[n]@ == kv);
                    assert forall|i: int, j: int| 0 <= i < j < self.keys.len()
                        implies #[trigger] self.keys@[i]@ != #[trigger] self.keys@[j]@ by {
                        if j == n {
                            assert(old(self).keys@[i]@ != kv);
                        } else {
                            assert(old(self).keys@[i]@ != old(self).keys@[j]@);
                        }
                    }
                    assert forall|j: int| 0 <= j < self.keys.len() implies {
                        &&& self.contents@.contains_key(#[trigger] self.keys@[j]@)
                        &&& self.contents@[self.keys@[j]@] == self.vals@[j]
                    } by {
                        if j < n {
                            assert(old(self).keys@[j] == self.keys@[j]);
                            assert(old(self).contents@.contains_key(old(self).keys@[j]@));
                        }
                    }
                    assert forall|kk: Seq<char>| #[trigger] self.contents@.contains_key(kk)
                        implies exists|j: int| 0 <= j < self.keys.len() && self.keys@[j]@ == kk by {
                        if kk == kv {
                            assert(self.keys@[n]@ == kk);
                        } else {
                            assert(old(self).contents@.contains_key(kk));
                            let j = choose|j: int| 0 <= j < old(self).keys.len() && old(self).keys@[j]@ == kk;
                            assert(self.keys@[j] == old(self).keys@[j]);
                        }
                    }
                }
                None
            },
        }
    }

    /// Removes `k`; returns the value it had, if any. The other keys keep their order.
    pub fn remove(&mut self, k: &String) -> (r: Option<V>)
        requires
            old(self).wf(),
        ensures
            final(self).wf(),
            final(self)@ == old(self)@.remove(k@),
            r is None <==> !old(self)@.contains_key(k@),
            r matches Some(p) ==> p == old(self)@[k@],
    {
        match self.position(k) {
            Some(i) => {
                let ghost ok = old(self).keys@;
                let ghost ov = old(self).vals@;
                self.keys.remove(i);
                let v = self.vals.remove(i);
                self.contents = Ghost(self.contents@.remove(k@));
                proof {
                    assert forall|a: int| 0 <= a < self.keys.len() implies
                        self.keys@[a] == ok[if a < i { a } else { a + 1 }] && self.vals@[a] == ov[if a < i { a } else { a + 1 }] by {}
                    assert forall|a: int, b: int| 0 <= a < b < self.keys.len()
                        implies #[trigger] self.keys@[a]@ != #[trigger] self.keys@[b]@ by {
                        let a2 = if a < i { a } else { a + 1 };
                        let b2 = if b < i { b } else { b + 1 };
                        assert(ok[a2]@ != ok[b2]@);
                    }
                    assert forall|a: int| 0 <= a < self.keys.len() implies {
                        &&& self.contents@.contains_key(#[trigger] self.keys@[a]@)
                        &&& self.contents@[self.keys@[a]@] == self.vals@[a]
                    } by {
                        let a2 = if a < i { a } else { a + 1 };
                        assert(old(self).contents@.contains_key(ok[a2]@));
                        if a2 < i {
                            assert(ok[a2]@ != ok[i as int]@);
                        } else {
                            assert(ok[i as int]@ != ok[a2]@);
                        }
                    }
                    assert forall|kk: Seq<char>| #[trigger] self.contents@.contains_key(kk)
                        implies exists|j: int| 0 <= j < self.keys.len() && self.keys@[j]@ == kk by {
                        assert(old(self).contents@.contains_key(kk));
                        let j = choose|j: int| 0 <= j < ok.len() && ok[j]@ == kk;
                        assert(j != i);
                        if j < i {
                            assert(self.keys@[j]@ == kk);
                        } else {
                            assert(self.keys@[j - 1]@ == kk);
                        }
                    }
                }
                Some(v)
            },
            None => {
                proof {
                    assert(self.contents@ =~= self.contents@.remove(k@));
                }
                None
            },
        }
    }
}

} // verus!
