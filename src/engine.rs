use vstd::prelude::*;

use crate::command::CommandAction;
use crate::error::EngineError;
use crate::object::{DynObjectManifest, ObjectKind, ObjectManifest, ObjectName};
use crate::ownership::{edges, Owned, Owners};
use crate::store::{Change, Store, StoreEvent};
use crate::table::NameMap;

verus! {

/// For each kind, the manifests of its store.
pub type KindTables<P> = Map<Seq<char>, Map<Seq<char>, ObjectManifest<P>>>;

/// The stores after removing the object `name` of kind `kind` together with the
/// objects `children` (as (kind, name) pairs) that it directly owned.
pub open spec fn cascade<P>(
    objs: KindTables<P>,
    kind: Seq<char>,
    name: Seq<char>,
    children: Seq<(Seq<char>, Seq<char>)>,
) -> KindTables<P> {
    Map::new(
        |k: Seq<char>| objs.contains_key(k),
        |k: Seq<char>| {
            let m = objs[k].remove_keys(Set::new(|n: Seq<char>| children.contains((k, n))));
            if k == kind {
                m.remove(name)
            } else {
                m
            }
        },
    )
}

/// The stores after removing only the objects `children` (as (kind, name) pairs).
pub open spec fn without<P>(objs: KindTables<P>, children: Seq<(Seq<char>, Seq<char>)>) -> KindTables<P> {
    Map::new(
        |k: Seq<char>| objs.contains_key(k),
        |k: Seq<char>| objs[k].remove_keys(Set::new(|n: Seq<char>| children.contains((k, n)))),
    )
}

/// Whether the object named by a (kind, name) pair is in `objs`.
pub open spec fn present<P>(objs: KindTables<P>) -> spec_fn((Seq<char>, Seq<char>)) -> bool {
    |p: (Seq<char>, Seq<char>)| objs.contains_key(p.0) && objs[p.0].contains_key(p.1)
}

/// The (kind, name) pairs of the objects that events are about.
pub open spec fn event_keys<P>(evs: Seq<(ObjectKind, StoreEvent<P>)>) -> Seq<(Seq<char>, Seq<char>)> {
    evs.map_values(|e: (ObjectKind, StoreEvent<P>)| (e.0@, e.1.manifest.meta.name@))
}

/// All the stores of the registered kinds, and the ownership index.
pub struct Engine<P> {
    stores: NameMap<Store<P>>,
    owners: Owners,
}

impl<P: Clone> Engine<P> {
    /// For each registered kind, the manifests of its store.
    pub closed spec fn objects(&self) -> KindTables<P> {
        self.stores@.map_values(|s: Store<P>| s@)
    }

    pub closed spec fn ownership(&self) -> Map<Seq<char>, Seq<(Seq<char>, Seq<char>)>> {
        self.owners@
    }

    pub closed spec fn wf(&self) -> bool {
        &&& self.stores.wf()
        &&& self.owners.wf()
        &&& forall|k: Seq<char>| #[trigger] self.stores@.contains_key(k)
            ==> self.stores@[k].wf() && self.stores@[k].spec_kind() == k
        &&& forall|o: Seq<char>, j: int| #[trigger] self.owners@.contains_key(o) && 0 <= j < self.owners@[o].len()
            ==> self.stores@.contains_key(#[trigger] self.owners@[o][j].0)
    }

    pub fn new() -> (r: Self)
        ensures
            r.wf(),
            r.objects() == KindTables::<P>::empty(),
            r.ownership() == Map::<Seq<char>, Seq<(Seq<char>, Seq<char>)>>::empty(),
    {
        let r = Engine { stores: NameMap::new(), owners: Owners::new() };
        assert(r.objects() =~= KindTables::<P>::empty());
        r
    }

    /// Creates an empty store for `kind`, unless there is one already.
    pub fn register_kind(&mut self, kind: ObjectKind)
        requires
            old(self).wf(),
        ensures
            final(self).wf(),
            final(self).ownership() == old(self).ownership(),
            final(self).objects() == if old(self).objects().contains_key(kind@) {
                old(self).objects()
            } else {
                old(self).objects().insert(kind@, Map::empty())
            },
    {
        if !self.stores.contains_key(&kind) {
            let tag = kind.clone();
            self.stores.insert(tag, Store::new(kind));
            proof {
                assert(self.objects() =~= old(self).objects().insert(kind@, Map::empty()));
            }
        }
    }

    pub fn is_registered(&self, kind: &ObjectKind) -> (r: bool)
        requires
            self.wf(),
        ensures
            r == self.objects().contains_key(kind@),
    {
        self.stores.contains_key(kind)
    }

    /// The manifest of the object `name` of kind `kind`, if there is one.
    pub fn manifest(&self, kind: &ObjectKind, name: &ObjectName) -> (r: Option<&ObjectManifest<P>>)
        requires
            self.wf(),
        ensures
            r is Some <==> self.objects().contains_key(kind@) && self.objects()[kind@].contains_key(name@),
            r matches Some(m) ==> *m == self.objects()[kind@][name@],
    {
        match self.stores.get(kind) {
            Some(s) => s.get(name),
            None => None,
        }
    }

    /// The (kind, name) pairs that the object `o` owns; empty where it owns nothing.
    pub open spec fn owned_by(&self, o: Seq<char>) -> Seq<(Seq<char>, Seq<char>)> {
        if self.ownership().contains_key(o) {
            self.ownership()[o]
        } else {
            Seq::empty()
        }
    }

    /// When an insert of `d` into kind `kind`, owned by `owner` if given, is applied.
    pub open spec fn insert_allowed(&self, kind: Seq<char>, d: DynObjectManifest<P>, owner: Option<ObjectName>) -> bool {
        let name = d.spec_manifest().meta.name@;
        &&& self.objects().contains_key(kind)
        &&& d.spec_kind() == kind
        &&& owner matches Some(o) ==> o@ != name && !self.owned_by(o@).contains((kind, name))
    }

    /// `e` is the error with which that insert is refused.
    pub open spec fn insert_error(&self, kind: Seq<char>, d: DynObjectManifest<P>, owner: Option<ObjectName>, e: EngineError) -> bool {
        let name = d.spec_manifest().meta.name@;
        if !self.objects().contains_key(kind) {
            e matches EngineError::UnknownKind(k) && k@ == kind
        } else if d.spec_kind() != kind {
            e matches EngineError::KindMismatch { expected, found } && expected@ == kind && found@ == d.spec_kind()
        } else {
            match owner {
                Some(o) => if o@ == name {
                    (e matches EngineError::SelfOwnership(n) && n == o)
                } else {
                    (e matches EngineError::AlreadyOwned(n) && n@ == name)
                },
                None => false,
            }
        }
    }

    /// `ev` is the event of that insert: a creation when the name was absent
    /// from the kind's store, an update otherwise, with a copy of the manifest.
    pub open spec fn insert_event(&self, kind: Seq<char>, d: DynObjectManifest<P>, ev: (ObjectKind, StoreEvent<P>)) -> bool {
        let m = d.spec_manifest();
        &&& ev.0@ == kind
        &&& ev.1.change == if self.objects()[kind].contains_key(m.meta.name@) {
            Change::Update
        } else {
            Change::Create
        }
        &&& ObjectManifest::copy_of(m, ev.1.manifest)
    }

    /// The engine `after` is `self` with that insert applied.
    pub open spec fn inserted(&self, after: &Self, kind: Seq<char>, d: DynObjectManifest<P>, owner: Option<ObjectName>) -> bool {
        let m = d.spec_manifest();
        let name = m.meta.name@;
        &&& after.objects() == self.objects().insert(kind, self.objects()[kind].insert(name, m))
        &&& after.ownership() == match owner {
            Some(o) => self.ownership().insert(o@, self.owned_by(o@).push((kind, name))),
            None => self.ownership(),
        }
    }

    /// The engine `after` is `self` with the object `name` of kind `kind` removed,
    /// together with the objects it directly owned.
    pub open spec fn removed(&self, after: &Self, kind: Seq<char>, name: Seq<char>) -> bool {
        &&& after.objects() == cascade(self.objects(), kind, name, self.owned_by(name))
        &&& after.ownership() == self.ownership().remove(name)
    }

    /// The objects, as (kind, name) pairs, that removing `name` of kind `kind`
    /// removes, in order: the objects it directly owned that are present, then
    /// itself if it is present.
    pub open spec fn removal_order(&self, kind: Seq<char>, name: Seq<char>) -> Seq<(Seq<char>, Seq<char>)> {
        let objs = self.objects();
        let cs = self.owned_by(name);
        cs.filter(present(objs)) + if without(objs, cs)[kind].contains_key(name) {
            seq![(kind, name)]
        } else {
            Seq::empty()
        }
    }

    /// Applies an insert: refused, with nothing changed, for a kind that is not
    /// registered, a manifest tagged with another kind, or an ownership edge
    /// that the index refuses. The store's event is appended to `events`.
    pub fn insert_manifest(
        &mut self,
        kind: ObjectKind,
        manifest: DynObjectManifest<P>,
        owner: Option<ObjectName>,
        events: &mut Vec<(ObjectKind, StoreEvent<P>)>,
    ) -> (r: Result<(), EngineError>)
        requires
            old(self).wf(),
        ensures
            final(self).wf(),
            r is Ok <==> old(self).insert_allowed(kind@, manifest, owner),
            r is Ok ==> old(self).inserted(&*final(self), kind@, manifest, owner),
            r is Ok ==> {
                &&& final(events)@.len() == old(events)@.len() + 1
                &&& final(events)@.take(old(events)@.len() as int) == old(events)@
                &&& old(self).insert_event(kind@, manifest, final(events)@.last())
            },
            r is Err ==> final(self).objects() == old(self).objects()
                && final(self).ownership() == old(self).ownership() && final(events)@ == old(events)@,
            r matches Err(e) ==> old(self).insert_error(kind@, manifest, owner, e),
    {
        if !self.stores.contains_key(&kind) {
            return Err(EngineError::UnknownKind(kind));
        }
        if !manifest.kind().eq(&kind) {
            let found = manifest.kind().clone();
            return Err(EngineError::KindMismatch { expected: kind, found });
        }
        match owner {
            Some(o) => {
                let owned_name = manifest.name().clone();
                match self.owners.own(o, kind.clone(), owned_name) {
                    Ok(()) => {},
                    Err(e) => {
                        return Err(e);
                    },
                }
            },
            None => {},
        }
        let ghost mid = self.owners@;
        let mut store = match self.stores.remove(&kind) {
            Some(s) => s,
            None => {
                return Err(EngineError::UnknownKind(kind));
            },
        };
        let r = store.insert_any(manifest);
        let tag = kind.clone();
        self.stores.insert(tag, store);
        match r {
            Ok(ev) => {
                proof {
                    let m = manifest.spec_manifest();
                    assert(self.objects() =~= old(self).objects().insert(
                        kind@,
                        old(self).objects()[kind@].insert(m.meta.name@, m),
                    ));
                    if owner is Some {
                        assert(self.owners@ =~= mid);
                    }
                }
                events.push((kind, ev));
                proof {
                    assert(events@.take(old(events)@.len() as int) =~= old(events)@);
                }
                Ok(())
            },
            Err(e) => Err(e),
        }
    }

    /// Applies a removal: refused, with nothing changed, for a kind that is not
    /// registered. Otherwise the objects that `name` directly owned are removed
    /// first, then `name` itself, and its ownership edges are dropped. Removing a
    /// name that is not there removes nothing of its own. A `Delete` event for
    /// each object removed is appended to `events`.
    pub fn remove_manifest(
        &mut self,
        kind: ObjectKind,
        name: ObjectName,
        events: &mut Vec<(ObjectKind, StoreEvent<P>)>,
    ) -> (r: Result<(), EngineError>)
        requires
            old(self).wf(),
        ensures
            final(self).wf(),
            r is Ok <==> old(self).objects().contains_key(kind@),
            r is Ok ==> old(self).removed(&*final(self), kind@, name@),
            r is Err ==> final(self).objects() == old(self).objects()
                && final(self).ownership() == old(self).ownership() && final(events)@ == old(events)@,
            r matches Err(e) ==> (e matches EngineError::UnknownKind(k) && k@ == kind@),
            r is Ok ==> event_keys(final(events)@.subrange(old(events)@.len() as int, final(events)@.len() as int))
                == old(self).removal_order(kind@, name@),
            final(events)@.len() >= old(events)@.len(),
            final(events)@.take(old(events)@.len() as int) == old(events)@,
            forall|j: int| old(events)@.len() <= j < final(events)@.len() ==> {
                let (k, ev) = #[trigger] final(events)@[j];
                &&& ev.change == Change::Delete
                &&& old(self).objects().contains_key(k@)
                &&& old(self).objects()[k@].contains_key(ev.manifest.meta.name@)
                &&& (old(self).owned_by(name@).contains((k@, ev.manifest.meta.name@))
                    || (k@ == kind@ && ev.manifest.meta.name@ == name@))
            },
    {
        if !self.stores.contains_key(&kind) {
            return Err(EngineError::UnknownKind(kind));
        }
        let ghost objs0 = self.objects();
        let ghost cs = self.owned_by(name@);
        let children: Vec<Owned> = match self.owners.remove_owner(&name) {
            Some(v) => v,
            None => Vec::new(),
        };
        proof {
            if !old(self).owners@.contains_key(name@) {
                assert(edges(children@) =~= cs);
            }
            assert(events@.subrange(old(events)@.len() as int, events@.len() as int) =~= Seq::empty());
            assert(cs.take(0) =~= Seq::empty());
            reveal(Seq::filter);
            assert(event_keys(events@.subrange(old(events)@.len() as int, events@.len() as int)) =~= cs.take(0).filter(present(objs0)));
            lemma_cascade_split(objs0, kind@, name@, cs);
        }
        let mut i: usize = 0;
        while i < children.len()
            invariant
                i <= children.len(),
                edges(children@) == cs,
                self.stores.wf(),
                self.owners.wf(),
                self.stores@.dom() == old(self).stores@.dom(),
                forall|k: Seq<char>| #[trigger] self.stores@.contains_key(k)
                    ==> self.stores@[k].wf() && self.stores@[k].spec_kind() == k,
                forall|o: Seq<char>, j: int| #[trigger] self.owners@.contains_key(o) && 0 <= j < self.owners@[o].len()
                    ==> self.stores@.contains_key(#[trigger] self.owners@[o][j].0),
                forall|j: int| 0 <= j < cs.len() ==> objs0.contains_key(#[trigger] cs[j].0),
                self.owners@ == old(self).owners@.remove(name@),
                objs0 == old(self).objects(),
                objs0.contains_key(kind@),
                self.objects() == without(objs0, cs.take(i as int)),
                events@.len() >= old(events)@.len(),
                events@.take(old(events)@.len() as int) == old(events)@,
                forall|j: int| old(events)@.len() <= j < events@.len() ==> {
                    let (k, ev) = #[trigger] events@[j];
                    &&& ev.change == Change::Delete
                    &&& objs0.contains_key(k@)
                    &&& objs0[k@].contains_key(ev.manifest.meta.name@)
                    &&& cs.take(i as int).contains((k@, ev.manifest.meta.name@))
                },
                cs.no_duplicates(),
                event_keys(events@.subrange(old(events)@.len() as int, events@.len() as int))
                    == cs.take(i as int).filter(present(objs0)),
            decreases children.len() - i,
        {
            let child = &children[i];
            assert(cs[i as int] == child@);
            assert(self.stores@.contains_key(child.kind@)) by {
                assert(objs0.contains_key(cs[i as int].0));
                assert(old(self).stores@.contains_key(child.kind@));
            }
            let mut store = match self.stores.remove(&child.kind) {
                Some(s) => s,
                None => {
                    return Err(EngineError::UnknownKind(kind));
                },
            };
            proof {
                assert(store.wf());
            }
            let ghost cur = store@;
            let ev = store.remove(&child.name);
            proof {
                if ev is Some {
                    assert(ev->0.manifest.meta.name@ == child.name@);
                }
                assert(cur == without(objs0, cs.take(i as int))[child.kind@]);
                assert(!cs.take(i as int).contains(cs[i as int])) by {
                    if cs.take(i as int).contains(cs[i as int]) {
                        let a = choose|a: int| 0 <= a < i && #[trigger] cs.take(i as int)[a] == cs[i as int];
                        assert(cs[a] == cs[i as int]);
                    }
                }
                assert(!Set::new(|n: Seq<char>| cs.take(i as int).contains((child.kind@, n))).contains(child.name@));
                assert((ev is Some) == present(objs0)(cs[i as int]));
            }
            let tag = child.kind.clone();
            self.stores.insert(tag, store);
            proof {
                lemma_without_step(objs0, cs, i as int);
                assert(self.objects() =~= without(objs0, cs.take(i + 1)));
                assert forall|j: int| 0 <= j < i implies cs.take(i + 1)[j] == cs.take(i as int)[j] by {}
                assert(cs.take(i + 1)[i as int] == child@);
            }
            let ghost prev = events@;
            match ev {
                Some(ev) => {
                    events.push((child.kind.clone(), ev));
                },
                None => {},
            }
            proof {
                assert(events@.take(old(events)@.len() as int) =~= prev.take(old(events)@.len() as int));
                let lo = old(events)@.len() as int;
                reveal(Seq::filter);
                assert(cs.take(i + 1).drop_last() =~= cs.take(i as int));
                assert(cs.take(i + 1).last() == cs[i as int]);
                if events@.len() > prev.len() {
                    assert(events@.subrange(lo, events@.len() as int) =~= prev.subrange(lo, prev.len() as int).push(events@.last()));
                    assert(event_keys(events@.subrange(lo, events@.len() as int)) =~=
                        event_keys(prev.subrange(lo, prev.len() as int)).push(cs[i as int]));
                } else {
                    assert(events@ == prev);
                }
                assert(event_keys(events@.subrange(lo, events@.len() as int)) =~= cs.take(i + 1).filter(present(objs0)));
                assert forall|j: int| old(events)@.len() <= j < events@.len() implies {
                    let (k, ev) = #[trigger] events@[j];
                    &&& ev.change == Change::Delete
                    &&& objs0.contains_key(k@)
                    &&& objs0[k@].contains_key(ev.manifest.meta.name@)
                    &&& cs.take(i + 1).contains((k@, ev.manifest.meta.name@))
                } by {
                    let (k, ev) = events@[j];
                    if j < prev.len() {
                        assert(events@[j] == prev[j]);
                        let a = choose|a: int| 0 <= a < i && #[trigger] cs.take(i as int)[a] == (k@, ev.manifest.meta.name@);
                        assert(cs.take(i + 1)[a] == (k@, ev.manifest.meta.name@));
                    } else {
                        assert(cs.take(i + 1)[i as int] == (k@, ev.manifest.meta.name@));
                    }
                }
            }
            i = i + 1;
        }
        let mut store = match self.stores.remove(&kind) {
            Some(s) => s,
            None => {
                return Err(EngineError::UnknownKind(kind));
            },
        };
        proof {
            assert(store.wf());
        }
        let ghost cur = store@;
        let ev = store.remove(&name);
        proof {
            if ev is Some {
                assert(ev->0.manifest.meta.name@ == name@);
            }
            assert(cs.take(children@.len() as int) == cs);
            assert(cur == without(objs0, cs)[kind@]);
        }
        let ghost loop_events = events@;
        let tag = kind.clone();
        self.stores.insert(tag, store);
        proof {
            assert(cs.take(cs.len() as int) == cs);
            assert(self.objects() =~= cascade(objs0, kind@, name@, cs));
            assert forall|k: Seq<char>, n: Seq<char>| objs0.contains_key(k) && cs.contains((k, n))
                implies !#[trigger] self.objects()[k].contains_key(n) by {
                assert(Set::new(|n2: Seq<char>| cs.contains((k, n2))).contains(n));
            }
        }
        match ev {
            Some(ev) => {
                events.push((kind, ev));
            },
            None => {},
        }
        proof {
            let lo = old(events)@.len() as int;
            assert(cs.take(children@.len() as int) == cs);
            if events@.len() > loop_events.len() {
                assert(events@.subrange(lo, events@.len() as int) =~= loop_events.subrange(lo, loop_events.len() as int).push(events@.last()));
                assert(event_keys(events@.subrange(lo, events@.len() as int)) =~=
                    event_keys(loop_events.subrange(lo, loop_events.len() as int)).push((kind@, name@)));
                assert(event_keys(events@.subrange(lo, events@.len() as int)) =~= old(self).removal_order(kind@, name@));
            } else {
                assert(events@ == loop_events);
                assert(event_keys(events@.subrange(lo, events@.len() as int)) =~= old(self).removal_order(kind@, name@));
            }
            assert(events@.take(old(events)@.len() as int) =~= loop_events.take(old(events)@.len() as int));
            assert forall|j: int| old(events)@.len() <= j < events@.len() implies {
                let (k, ev) = #[trigger] events@[j];
                &&& ev.change == Change::Delete
                &&& objs0.contains_key(k@)
                &&& objs0[k@].contains_key(ev.manifest.meta.name@)
                &&& (cs.contains((k@, ev.manifest.meta.name@))
                    || (k@ == kind@ && ev.manifest.meta.name@ == name@))
            } by {
                if j < loop_events.len() {
                    assert(events@[j] == loop_events[j]);
                    assert(children@.len() == cs.len());
                    assert(cs.take(children@.len() as int) == cs);
                }
            }
        }
        Ok(())
    }

    /// Applies one command to the stores and the ownership index, appending the
    /// stores' events to `events`.
    pub fn apply(&mut self, action: CommandAction<P>, events: &mut Vec<(ObjectKind, StoreEvent<P>)>) -> (r: Result<(), EngineError>)
        requires
            old(self).wf(),
        ensures
            final(self).wf(),
            r is Err ==> final(self).objects() == old(self).objects()
                && final(self).ownership() == old(self).ownership() && final(events)@ == old(events)@,
            action matches CommandAction::InsertManifest(k, d, o) ==> {
                &&& r is Ok <==> old(self).insert_allowed(k@, d, o)
                &&& r is Ok ==> old(self).inserted(&*final(self), k@, d, o)
                &&& r matches Err(e) ==> old(self).insert_error(k@, d, o, e)
                &&& r is Ok ==> {
                    &&& final(events)@.len() == old(events)@.len() + 1
                    &&& final(events)@.take(old(events)@.len() as int) == old(events)@
                    &&& old(self).insert_event(k@, d, final(events)@.last())
                }
            },
            action matches CommandAction::RemoveManifest(k, n) ==> {
                &&& r is Ok <==> old(self).objects().contains_key(k@)
                &&& r is Ok ==> old(self).removed(&*final(self), k@, n@)
                &&& r matches Err(e) ==> (e matches EngineError::UnknownKind(k2) && k2@ == k@)
                &&& r is Ok ==> event_keys(final(events)@.subrange(old(events)@.len() as int, final(events)@.len() as int))
                    == old(self).removal_order(k@, n@)
                &&& final(events)@.len() >= old(events)@.len()
                &&& final(events)@.take(old(events)@.len() as int) == old(events)@
                &&& forall|j: int| old(events)@.len() <= j < final(events)@.len()
                    ==> (#[trigger] final(events)@[j]).1.change == Change::Delete
            },
    {
        match action {
            CommandAction::InsertManifest(kind, manifest, owner) => self.insert_manifest(kind, manifest, owner, events),
            CommandAction::RemoveManifest(kind, name) => self.remove_manifest(kind, name, events),
        }
    }

    /// Replaces, without an event, the manifest of an object that the store of
    /// `kind` holds.
    pub fn patch(&mut self, kind: &ObjectKind, manifest: ObjectManifest<P>) -> (r: Result<(), EngineError>)
        requires
            old(self).wf(),
        ensures
            final(self).wf(),
            final(self).ownership() == old(self).ownership(),
            r is Ok <==> old(self).objects().contains_key(kind@)
                && old(self).objects()[kind@].contains_key(manifest.meta.name@),
            r is Ok ==> final(self).objects() == old(self).objects().insert(
                kind@,
                old(self).objects()[kind@].insert(manifest.meta.name@, manifest),
            ),
            r is Err ==> final(self).objects() == old(self).objects(),
            r matches Err(e) ==> if old(self).objects().contains_key(kind@) {
                (e matches EngineError::NotFound(n) && n == manifest.meta.name)
            } else {
                (e matches EngineError::UnknownKind(k) && k@ == kind@)
            },
    {
        let mut store = match self.stores.remove(kind) {
            Some(s) => s,
            None => {
                proof { assert(self.stores@ =~= old(self).stores@); }
                return Err(EngineError::UnknownKind(kind.clone()));
            },
        };
        let r = store.patch(manifest);
        let tag = kind.clone();
        self.stores.insert(tag, store);
        proof {
            if r is Ok {
                assert(self.objects() =~= old(self).objects().insert(
                    kind@,
                    old(self).objects()[kind@].insert(manifest.meta.name@, manifest),
                ));
            } else {
                assert(self.objects() =~= old(self).objects());
            }
        }
        r
    }
}


/// Removing the children one more at a time.
proof fn lemma_without_step<P>(objs: KindTables<P>, cs: Seq<(Seq<char>, Seq<char>)>, i: int)
    requires
        0 <= i < cs.len(),
        objs.contains_key(cs[i].0),
    ensures
        without(objs, cs.take(i + 1)) == without(objs, cs.take(i)).insert(
            cs[i].0,
            without(objs, cs.take(i))[cs[i].0].remove(cs[i].1),
        ),
{
    let a = without(objs, cs.take(i + 1));
    let b = without(objs, cs.take(i));
    let c = b.insert(cs[i].0, b[cs[i].0].remove(cs[i].1));
    assert forall|k: Seq<char>| a.contains_key(k) implies a[k] == c[k] by {
        assert forall|n: Seq<char>| cs.take(i + 1).contains((k, n))
            <==> (cs.take(i).contains((k, n)) || (k, n) == cs[i]) by {
            if cs.take(i + 1).contains((k, n)) {
                let j = choose|j: int| 0 <= j < i + 1 && #[trigger] cs.take(i + 1)[j] == (k, n);
                if j < i {
                    assert(cs.take(i)[j] == (k, n));
                }
            }
            if cs.take(i).contains((k, n)) {
                let j = choose|j: int| 0 <= j < i && #[trigger] cs.take(i)[j] == (k, n);
                assert(cs.take(i + 1)[j] == (k, n));
            }
            if (k, n) == cs[i] {
                assert(cs.take(i + 1)[i] == (k, n));
            }
        }
        assert(a[k] =~= c[k]);
    }
    assert(a =~= c);
}

/// Removing the owner after its children is the cascade.
proof fn lemma_cascade_split<P>(objs: KindTables<P>, kind: Seq<char>, name: Seq<char>, cs: Seq<(Seq<char>, Seq<char>)>)
    requires
        objs.contains_key(kind),
    ensures
        cascade(objs, kind, name, cs) == without(objs, cs).insert(kind, without(objs, cs)[kind].remove(name)),
        without(objs, cs.take(0)) == objs,
        cs.take(cs.len() as int) == cs,
{
    assert(cascade(objs, kind, name, cs) =~= without(objs, cs).insert(kind, without(objs, cs)[kind].remove(name)));
    let w = without(objs, cs.take(0));
    assert forall|k: Seq<char>| w.contains_key(k) implies w[k] == objs[k] by {
        assert(w[k] =~= objs[k]);
    }
    assert(w =~= objs);
    assert(cs.take(cs.len() as int) =~= cs);
}

/// Removing an object removes exactly the objects it directly owned and the
/// object itself: afterwards none of them can be found, and every other object
/// is still there, unchanged. Without owned objects, only the object itself goes.
pub proof fn lemma_remove_cascades<P>(
    objs: KindTables<P>,
    kind: Seq<char>,
    name: Seq<char>,
    children: Seq<(Seq<char>, Seq<char>)>,
)
    requires
        objs.contains_key(kind),
    ensures
        !cascade(objs, kind, name, children)[kind].contains_key(name),
        forall|j: int| 0 <= j < children.len() && objs.contains_key(children[j].0)
            ==> !(#[trigger] cascade(objs, kind, name, children)[children[j].0]).contains_key(children[j].1),
        forall|k: Seq<char>, n: Seq<char>|
            objs.contains_key(k) && objs[k].contains_key(n) && !children.contains((k, n)) && !(k == kind && n == name)
            ==> #[trigger] cascade(objs, kind, name, children)[k].contains_key(n)
                && cascade(objs, kind, name, children)[k][n] == objs[k][n],
        cascade(objs, kind, name, children).dom() == objs.dom(),
        children.len() == 0 ==> cascade(objs, kind, name, children) == objs.insert(kind, objs[kind].remove(name)),
{
    let c = cascade(objs, kind, name, children);
    assert forall|j: int| 0 <= j < children.len() && objs.contains_key(children[j].0)
        implies !(#[trigger] c[children[j].0]).contains_key(children[j].1) by {
        let (k, n) = children[j];
        assert(children.contains((k, n)));
        assert(Set::new(|n2: Seq<char>| children.contains((k, n2))).contains(n));
    }
    assert(c.dom() =~= objs.dom());
    if children.len() == 0 {
        assert forall|k: Seq<char>| c.contains_key(k) implies c[k] == objs.insert(kind, objs[kind].remove(name))[k] by {
            assert(Set::new(|n2: Seq<char>| children.contains((k, n2))) =~= Set::empty());
            if k == kind {
                assert(c[k] =~= objs[kind].remove(name));
            } else {
                assert(c[k] =~= objs[k]);
            }
        }
        assert(c =~= objs.insert(kind, objs[kind].remove(name)));
    }
}

impl<P: Clone> Engine<P> {
    /// No object is among the objects it owns, whatever their kind; so in the
    /// events of a removal, the removed object's own event comes after those of
    /// everything it owned.
    pub proof fn lemma_owner_not_among_owned(&self, name: Seq<char>, kind: Seq<char>)
        requires
            self.wf(),
        ensures
            !self.owned_by(name).contains((kind, name)),
    {
        if self.owned_by(name).contains((kind, name)) {
            let j = choose|j: int| 0 <= j < self.owned_by(name).len() && self.owned_by(name)[j] == (kind, name);
            self.owners.lemma_no_self_edge(name, j);
        }
    }

    /// Removing the same object twice: the second removal changes nothing.
    pub proof fn lemma_remove_twice(e1: &Self, e2: &Self, e3: &Self, kind: Seq<char>, name: Seq<char>)
        requires
            e1.objects().contains_key(kind),
            e1.removed(e2, kind, name),
            e2.removed(e3, kind, name),
        ensures
            e3.objects() == e2.objects(),
            e3.ownership() == e2.ownership(),
    {
        lemma_remove_cascades(e1.objects(), kind, name, e1.owned_by(name));
        assert(e2.owned_by(name) == Seq::<(Seq<char>, Seq<char>)>::empty());
        lemma_remove_cascades(e2.objects(), kind, name, e2.owned_by(name));
        assert(e2.objects().insert(kind, e2.objects()[kind].remove(name)) =~= e2.objects()) by {
            assert(e2.objects()[kind].remove(name) =~= e2.objects()[kind]);
        }
        assert(e3.ownership() =~= e2.ownership());
    }

    /// After an owned insert, inserting the same manifest under the same owner
    /// again is refused (and so, by `apply`, changes nothing).
    pub proof fn lemma_own_twice_refused(e1: &Self, e2: &Self, kind: Seq<char>, d: DynObjectManifest<P>, owner: ObjectName)
        requires
            e1.insert_allowed(kind, d, Some(owner)),
            e1.inserted(e2, kind, d, Some(owner)),
        ensures
            !e2.insert_allowed(kind, d, Some(owner)),
    {
        let pair = (kind, d.spec_manifest().meta.name@);
        let s = e1.owned_by(owner@).push(pair);
        assert(e2.owned_by(owner@) == s);
        assert(s[s.len() - 1] == pair);
    }

    /// Inserting a manifest whose name is new to its kind's store gives a
    /// creation event; inserting one of that name again, after it was applied,
    /// gives an update event.
    pub proof fn lemma_create_then_update(
        e1: &Self,
        e2: &Self,
        kind: Seq<char>,
        d1: DynObjectManifest<P>,
        o1: Option<ObjectName>,
        ev1: (ObjectKind, StoreEvent<P>),
        d2: DynObjectManifest<P>,
        ev2: (ObjectKind, StoreEvent<P>),
    )
        requires
            e1.insert_allowed(kind, d1, o1),
            !e1.objects()[kind].contains_key(d1.spec_manifest().meta.name@),
            e1.insert_event(kind, d1, ev1),
            e1.inserted(e2, kind, d1, o1),
            d2.spec_manifest().meta.name@ == d1.spec_manifest().meta.name@,
            e2.insert_event(kind, d2, ev2),
        ensures
            ev1.1.change == Change::Create,
            ev2.1.change == Change::Update,
    {
    }
}

} // verus!
