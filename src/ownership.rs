use vstd::prelude::*;

use crate::error::EngineError;
use crate::object::{ObjectKind, ObjectName};
use crate::table::NameMap;

verus! {

/// One ownership edge, seen from the owner: the kind and name of what it owns.
#[derive(Debug)]
pub struct Owned {
    pub kind: ObjectKind,
    pub name: ObjectName,
}

impl Owned {
    pub open spec fn view(&self) -> (Seq<char>, Seq<char>) {
        (self.kind@, self.name@)
    }

    fn same(&self, other: &Owned) -> (r: bool)
        ensures
            r == (self@ == other@),
    {
        self.kind.eq(&other.kind) && self.name.same(&other.name)
    }
}

/// The edges `v` holds, as (kind, name) pairs.
pub open spec fn edges(v: Seq<Owned>) -> Seq<(Seq<char>, Seq<char>)> {
    v.map_values(|o: Owned| o@)
}

/// The ownership index: for each owner, the objects it owns.
///
/// The objects of one owner are a `Vec` kept free of duplicates rather than a
/// `BTreeSet<Owned>`: the set's order would come from a derived `Ord` that the
/// verifier does not read, so its membership could not be proved.
pub struct Owners {
    inner: NameMap<Vec<Owned>>,
}

impl Owners {
    /// For each owner, the (kind, name) pairs it owns, in the order they were registered.
    pub closed spec fn view(&self) -> Map<Seq<char>, Seq<(Seq<char>, Seq<char>)>> {
        self.inner@.map_values(|v: Vec<Owned>| edges(v@))
    }

    pub closed spec fn wf(&self) -> bool {
        &&& self.inner.wf()
        &&& forall|o: Seq<char>| #[trigger] self.inner@.contains_key(o)
            ==> edges(self.inner@[o]@).no_duplicates()
        &&& forall|o: Seq<char>, j: int| #[trigger] self.inner@.contains_key(o) && 0 <= j < self.inner@[o]@.len()
            ==> (#[trigger] self.inner@[o]@[j]).name@ != o
    }

    /// No owner owns an object of its own name.
    pub proof fn lemma_no_self_edge(&self, o: Seq<char>, j: int)
        requires
            self.wf(),
            self@.contains_key(o),
            0 <= j < self@[o].len(),
        ensures
            self@[o][j].1 != o,
    {
        assert(self@[o][j] == self.inner@[o]@[j]@);
    }

    pub fn new() -> (r: Self)
        ensures
            r.wf(),
            r@ == Map::<Seq<char>, Seq<(Seq<char>, Seq<char>)>>::empty(),
    {
        let r = Owners { inner: NameMap::new() };
        assert(r@ =~= Map::empty());
        r
    }

    /// The (kind, name) pairs that `owner` owns; empty where it owns nothing.
    pub open spec fn owned_by(&self, owner: Seq<char>) -> Seq<(Seq<char>, Seq<char>)> {
        if self@.contains_key(owner) {
            self@[owner]
        } else {
            Seq::empty()
        }
    }

    /// Registers that `owner` owns the object `owned_name` of kind `owned_kind`.
    /// Refused, with nothing changed, when the owner is that object itself, or
    /// already owns it.
    pub fn own(&mut self, owner: ObjectName, owned_kind: ObjectKind, owned_name: ObjectName) -> (r: Result<(), EngineError>)
        requires
            old(self).wf(),
        ensures
            final(self).wf(),
            r is Ok <==> owner@ != owned_name@
                && !old(self).owned_by(owner@).contains((owned_kind@, owned_name@)),
            r is Err ==> final(self)@ == old(self)@,
            r matches Err(e) ==> if owner@ == owned_name@ {
                (e matches EngineError::SelfOwnership(n) && n == owner)
            } else {
                (e matches EngineError::AlreadyOwned(n) && n == owned_name)
            },
            r is Ok ==> final(self)@ == old(self)@.insert(
                owner@,
                old(self).owned_by(owner@).push((owned_kind@, owned_name@)),
            ),
    {
        if owner.same(&owned_name) {
            return Err(EngineError::SelfOwnership(owner));
        }
        let owned = Owned { kind: owned_kind, name: owned_name };
        let ghost pair = owned@;
        let key = owner.to_string();
        let mut list = match self.inner.remove(&key) {
            Some(v) => v,
            None => Vec::new(),
        };
        let ghost before = list@;
        assert(edges(before) == old(self).owned_by(owner@)) by {
            if !old(self).inner@.contains_key(owner@) {
                assert(edges(before) =~= Seq::empty());
            }
        }
        let mut i: usize = 0;
        while i < list.len()
            invariant
                list@ == before,
                self.inner.wf(),
                self.inner@ == old(self).inner@.remove(owner@),
                key@ == owner@,
                owned@ == pair,
                owned.name == owned_name,
                owner@ != owned_name@,
                pair == (owned_kind@, owned_name@),
                edges(before) == old(self).owned_by(owner@),
                old(self).wf(),
                old(self).inner@.contains_key(owner@) ==> list == old(self).inner@[owner@],
                !old(self).inner@.contains_key(owner@) ==> list@.len() == 0,
                i <= list.len(),
                forall|j: int| 0 <= j < i ==> list@[j]@ != pair,
            decreases list.len() - i,
        {
            if list[i].same(&owned) {
                self.inner.insert(key, list);
                proof {
                    assert(edges(before)[i as int] == pair);
                    assert(old(self).inner@.contains_key(owner@));
                    assert(self.inner@ =~= old(self).inner@);
                    assert(self@ =~= old(self)@);
                }
                return Err(EngineError::AlreadyOwned(owned.name));
            }
            i = i + 1;
        }
        proof {
            assert(!edges(before).contains(pair)) by {
                if edges(before).contains(pair) {
                    let j = choose|j: int| 0 <= j < edges(before).len() && edges(before)[j] == pair;
                    assert(list@[j]@ == pair);
                }
            }
        }
        list.push(owned);
        assert(edges(list@) =~= edges(before).push(pair));
        self.inner.insert(key, list);
        proof {
            assert(self@ =~= old(self)@.insert(owner@, old(self).owned_by(owner@).push(pair)));
            assert forall|o: Seq<char>| #[trigger] self.inner@.contains_key(o)
                implies edges(self.inner@[o]@).no_duplicates() by {
                if o != owner@ {
                    assert(old(self).inner@.contains_key(o));
                }
            }
            assert forall|o: Seq<char>, j: int| #[trigger] self.inner@.contains_key(o) && 0 <= j < self.inner@[o]@.len()
                implies (#[trigger] self.inner@[o]@[j]).name@ != o by {
                if o != owner@ {
                    assert(old(self).inner@.contains_key(o));
                } else if j < before.len() {
                    assert(old(self).inner@.contains_key(o));
                    assert(self.inner@[o]@[j] == before[j]);
                }
            }
        }
        Ok(())
    }

    /// Detaches and returns everything `owner` owns.
    pub fn remove_owner(&mut self, owner: &ObjectName) -> (r: Option<Vec<Owned>>)
        requires
            old(self).wf(),
        ensures
            final(self).wf(),
            final(self)@ == old(self)@.remove(owner@),
            r is Some <==> old(self)@.contains_key(owner@),
            r matches Some(v) ==> edges(v@) == old(self)@[owner@],
            r matches Some(v) ==> edges(v@).no_duplicates(),
            r matches Some(v) ==> forall|j: int| 0 <= j < v@.len() ==> (#[trigger] v@[j]).name@ != owner@,
    {
        let r = self.inner.remove(owner.as_string());
        proof {
            assert(self@ =~= old(self)@.remove(owner@));
        }
        r
    }
}

} // verus!
