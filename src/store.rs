use vstd::prelude::*;

use crate::error::EngineError;
use crate::object::{DynObjectManifest, ObjectKind, ObjectManifest, ObjectName};
use crate::table::NameMap;

verus! {

/// How a mutation changed a store.
#[derive(Clone, Copy, Debug, PartialEq, Eq, Structural)]
pub enum Change {
    Create,
    Update,
    Delete,
}

/// A mutation of a store: its change, and the resulting or the removed manifest.
#[derive(Debug)]
pub struct StoreEvent<P> {
    pub change: Change,
    pub manifest: ObjectManifest<P>,
}

impl<P> StoreEvent<P> {
    pub fn new(change: Change, manifest: ObjectManifest<P>) -> (r: Self)
        ensures
            r.change == change,
            r.manifest == manifest,
    {
        StoreEvent { change, manifest }
    }
}

/// The table of manifests of one kind, keyed by name.
pub struct Store<P> {
    kind: ObjectKind,
    manifests: NameMap<ObjectManifest<P>>,
}

impl<P: Clone> Store<P> {
    pub closed spec fn view(&self) -> Map<Seq<char>, ObjectManifest<P>> {
        self.manifests@
    }

    pub closed spec fn spec_kind(&self) -> Seq<char> {
        self.kind@
    }

    pub closed spec fn wf(&self) -> bool {
        &&& self.manifests.wf()
        &&& forall|n: Seq<char>| #[trigger] self.manifests@.contains_key(n)
            ==> self.manifests@[n].meta.name@ == n
    }

    pub fn new(kind: ObjectKind) -> (r: Self)
        ensures
            r.wf(),
            r@ == Map::<Seq<char>, ObjectManifest<P>>::empty(),
            r.spec_kind() == kind@,
    {
        Store { kind, manifests: NameMap::new() }
    }

    pub fn kind(&self) -> (r: &ObjectKind)
        ensures
            r@ == self.spec_kind(),
    {
        &self.kind
    }

    /// Stores `manifest` under its name. The event is a `Create` when no
    /// manifest had that name, an `Update` otherwise, and carries a copy of it.
    pub fn insert(&mut self, manifest: ObjectManifest<P>) -> (r: StoreEvent<P>)
        requires
            old(self).wf(),
        ensures
            final(self).wf(),
            final(self).spec_kind() == old(self).spec_kind(),
            final(self)@ == old(self)@.insert(manifest.meta.name@, manifest),
            r.change == (if old(self)@.contains_key(manifest.meta.name@) {
                Change::Update
            } else {
                Change::Create
            }),
            ObjectManifest::copy_of(manifest, r.manifest),
    {
        let copy = manifest.duplicate();
        let key = manifest.meta.name.to_string();
        let prev = self.manifests.insert(key, manifest);
        let change = match prev {
            Some(_) => Change::Update,
            None => Change::Create,
        };
        StoreEvent::new(change, copy)
    }

    /// Replaces the manifest stored under the same name, with no event; a name
    /// that the store does not hold is refused.
    pub fn patch(&mut self, manifest: ObjectManifest<P>) -> (r: Result<(), EngineError>)
        requires
            old(self).wf(),
        ensures
            final(self).wf(),
            final(self).spec_kind() == old(self).spec_kind(),
            r is Ok <==> old(self)@.contains_key(manifest.meta.name@),
            r is Ok ==> final(self)@ == old(self)@.insert(manifest.meta.name@, manifest),
            r is Err ==> final(self)@ == old(self)@,
            r matches Err(e) ==> (e matches EngineError::NotFound(n) && n == manifest.meta.name),
    {
        let key = manifest.meta.name.to_string();
        if self.manifests.contains_key(&key) {
            self.manifests.insert(key, manifest);
            Ok(())
        } else {
            Err(EngineError::NotFound(manifest.meta.name))
        }
    }

    /// Removes the manifest named `name`; the event is a `Delete` with the
    /// removed manifest. Removing a name that the store does not hold does nothing.
    pub fn remove(&mut self, name: &ObjectName) -> (r: Option<StoreEvent<P>>)
        requires
            old(self).wf(),
        ensures
            final(self).wf(),
            final(self).spec_kind() == old(self).spec_kind(),
            final(self)@ == old(self)@.remove(name@),
            r is Some <==> old(self)@.contains_key(name@),
            r matches Some(ev) ==> ev.change == Change::Delete && ev.manifest == old(self)@[name@]
                && ev.manifest.meta.name@ == name@,
    {
        match self.manifests.remove(name.as_string()) {
            Some(m) => Some(StoreEvent::new(Change::Delete, m)),
            None => None,
        }
    }

    pub fn get(&self, name: &ObjectName) -> (r: Option<&ObjectManifest<P>>)
        requires
            self.wf(),
        ensures
            r is Some <==> self@.contains_key(name@),
            r matches Some(m) ==> *m == self@[name@],
    {
        self.manifests.get(name.as_string())
    }

    pub fn contains(&self, name: &ObjectName) -> (r: bool)
        requires
            self.wf(),
        ensures
            r == self@.contains_key(name@),
    {
        self.manifests.contains_key(name.as_string())
    }

    /// Stores a type-erased manifest, which must be of this store's kind.
    pub fn insert_any(&mut self, manifest: DynObjectManifest<P>) -> (r: Result<StoreEvent<P>, EngineError>)
        requires
            old(self).wf(),
        ensures
            final(self).wf(),
            final(self).spec_kind() == old(self).spec_kind(),
            r is Ok <==> manifest.spec_kind() == old(self).spec_kind(),
            r is Err ==> final(self)@ == old(self)@,
            r matches Ok(ev) ==> {
                let m = manifest.spec_manifest();
                &&& final(self)@ == old(self)@.insert(m.meta.name@, m)
                &&& ev.change == (if old(self)@.contains_key(m.meta.name@) {
                    Change::Update
                } else {
                    Change::Create
                })
                &&& ObjectManifest::copy_of(m, ev.manifest)
            },
    {
        let m = manifest.as_manifest(&self.kind)?;
        Ok(self.insert(m))
    }
}

} // verus!
