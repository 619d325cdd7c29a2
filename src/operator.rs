use std::collections::HashSet;

use vstd::prelude::*;

use crate::engine::Engine;
use crate::error::EngineError;
use crate::object::{ObjectKind, ObjectManifest, ObjectName};
use crate::store::{Change, StoreEvent};
use crate::table::NameMap;

verus! {

/// The runtime identity of an object, assigned once when it is first observed.
pub type ObjectId = u128;

/// Relies on uuid::Uuid::new_v4, read as its 128-bit value: a random identifier,
/// of which nothing is promised.
#[verifier::external_body]
fn new_object_id() -> (r: ObjectId) {
    uuid::Uuid::new_v4().as_u128()
}

/// A live object: its identity, its current manifest, and a handle to its
/// runtime state.
#[derive(Debug)]
pub struct Object<P, S> {
    pub id: ObjectId,
    pub manifest: ObjectManifest<P>,
    pub state: S,
}

impl<P, S> Object<P, S> {
    /// A new live object with a fresh identity.
    pub fn new(manifest: ObjectManifest<P>, state: S) -> (r: Self)
        ensures
            r.manifest == manifest,
            r.state == state,
    {
        Object { id: new_object_id(), manifest, state }
    }
}

/// The live objects of one kind, keyed by name.
pub struct Objects<P, S> {
    inner: NameMap<Object<P, S>>,
}

impl<P, S> Objects<P, S> {
    pub closed spec fn view(&self) -> Map<Seq<char>, Object<P, S>> {
        self.inner@
    }

    pub closed spec fn wf(&self) -> bool {
        self.inner.wf()
    }

    pub fn new() -> (r: Self)
        ensures
            r.wf(),
            r@ == Map::<Seq<char>, Object<P, S>>::empty(),
    {
        Objects { inner: NameMap::new() }
    }

    /// Records `object` under `name`, in place of any object of that name.
    pub fn insert(&mut self, name: ObjectName, object: Object<P, S>)
        requires
            old(self).wf(),
        ensures
            final(self).wf(),
            final(self)@ == old(self)@.insert(name@, object),
    {
        self.inner.insert(name.to_string(), object);
    }

    /// Replaces the manifest of the object of the same name, keeping its
    /// identity and its state; returns its identity, or `None` where there is
    /// no such object.
    pub fn patch_manifest(&mut self, manifest: ObjectManifest<P>) -> (r: Option<ObjectId>)
        requires
            old(self).wf(),
        ensures
            final(self).wf(),
            r is Some <==> old(self)@.contains_key(manifest.meta.name@),
            r is None ==> final(self)@ == old(self)@,
            r matches Some(id) ==> {
                let prev = old(self)@[manifest.meta.name@];
                &&& id == prev.id
                &&& final(self)@ == old(self)@.insert(
                    manifest.meta.name@,
                    Object { id: prev.id, manifest, state: prev.state },
                )
            },
    {
        let key = manifest.meta.name.to_string();
        match self.inner.remove(&key) {
            Some(prev) => {
                let id = prev.id;
                let object = Object { id, manifest, state: prev.state };
                self.inner.insert(key, object);
                proof {
                    assert(self@ =~= old(self)@.insert(key@, object));
                }
                Some(id)
            },
            None => {
                proof {
                    assert(self@ =~= old(self)@);
                }
                None
            },
        }
    }

    /// Removes and returns the object named `name`.
    pub fn remove(&mut self, name: &ObjectName) -> (r: Option<Object<P, S>>)
        requires
            old(self).wf(),
        ensures
            final(self).wf(),
            final(self)@ == old(self)@.remove(name@),
            r is Some <==> old(self)@.contains_key(name@),
            r matches Some(o) ==> o == old(self)@[name@],
    {
        self.inner.remove(name.as_string())
    }

    pub fn get(&self, name: &ObjectName) -> (r: Option<&Object<P, S>>)
        requires
            self.wf(),
        ensures
            r is Some <==> self@.contains_key(name@),
            r matches Some(o) ==> *o == self@[name@],
    {
        self.inner.get(name.as_string())
    }

    pub fn len(&self) -> (r: usize)
        requires
            self.wf(),
        ensures
            r == self@.dom().len(),
    {
        self.inner.len()
    }

    /// An object appears: it is recorded under its name with a fresh identity.
    pub fn created(&mut self, manifest: ObjectManifest<P>, state: S) -> (r: ObjectId)
        requires
            old(self).wf(),
        ensures
            final(self).wf(),
            final(self)@ == old(self)@.insert(
                manifest.meta.name@,
                Object { id: r, manifest, state },
            ),
    {
        let name = manifest.meta.name.clone();
        let object = Object::new(manifest, state);
        let id = object.id;
        self.insert(name, object);
        id
    }

    /// An object changes: its manifest is replaced; an update of an object that
    /// was never created is refused.
    pub fn updated(&mut self, manifest: ObjectManifest<P>) -> (r: Result<ObjectId, EngineError>)
        requires
            old(self).wf(),
        ensures
            final(self).wf(),
            r is Ok <==> old(self)@.contains_key(manifest.meta.name@),
            r is Err ==> final(self)@ == old(self)@,
            r matches Err(e) ==> (e matches EngineError::NoObject(n) && n@ == manifest.meta.name@),
            r matches Ok(id) ==> {
                let prev = old(self)@[manifest.meta.name@];
                &&& id == prev.id
                &&& final(self)@ == old(self)@.insert(
                    manifest.meta.name@,
                    Object { id: prev.id, manifest, state: prev.state },
                )
            },
    {
        let name = manifest.meta.name.clone();
        match self.patch_manifest(manifest) {
            Some(id) => Ok(id),
            None => Err(EngineError::NoObject(name)),
        }
    }

    /// An object goes: it is removed and returned; a removal of an object that
    /// is not live is refused.
    pub fn deleted(&mut self, name: &ObjectName) -> (r: Result<Object<P, S>, EngineError>)
        requires
            old(self).wf(),
        ensures
            final(self).wf(),
            final(self)@ == old(self)@.remove(name@),
            r is Ok <==> old(self)@.contains_key(name@),
            r matches Ok(o) ==> o == old(self)@[name@],
            r matches Err(e) ==> (e matches EngineError::NoObject(n) && n@ == name@),
    {
        match self.remove(name) {
            Some(o) => Ok(o),
            None => Err(EngineError::NoObject(name.clone())),
        }
    }
}

/// The identities of the objects whose reconciliation is in flight; at most one
/// reconciliation runs for each.
pub struct Reconciler {
    pending: HashSet<ObjectId>,
}

impl Reconciler {
    pub closed spec fn view(&self) -> Set<ObjectId> {
        self.pending@
    }

    pub closed spec fn wf(&self) -> bool {
        true
    }

    pub fn new() -> (r: Self)
        ensures
            r.wf(),
            r@ == Set::<ObjectId>::empty(),
    {
        broadcast use vstd::std_specs::hash::group_hash_axioms;
        Reconciler { pending: HashSet::new() }
    }

    pub fn is_pending(&self, id: ObjectId) -> (r: bool)
        requires
            self.wf(),
        ensures
            r == self@.contains(id),
    {
        broadcast use vstd::std_specs::hash::group_hash_axioms;
        self.pending.contains(&id)
    }

    /// Asks to reconcile the object `id`: `true` when a reconciliation should
    /// start now, and `id` is then pending; `false`, with nothing changed, when
    /// one is in flight already.
    pub fn reconcile(&mut self, id: ObjectId) -> (r: bool)
        requires
            old(self).wf(),
        ensures
            final(self).wf(),
            r == !old(self)@.contains(id),
            final(self)@ == old(self)@.insert(id),
    {
        broadcast use vstd::std_specs::hash::group_hash_axioms;
        self.pending.insert(id)
    }

    /// The reconciliation of `id` has finished, with success or an error.
    pub fn complete(&mut self, id: ObjectId)
        requires
            old(self).wf(),
        ensures
            final(self).wf(),
            final(self)@ == old(self)@.remove(id),
    {
        broadcast use vstd::std_specs::hash::group_hash_axioms;
        self.pending.remove(&id);
    }
}

/// Where an operator is in the handling of one store event.
#[derive(Debug)]
pub enum Phase<P> {
    /// Waiting for the next store event.
    Idle,
    /// The manifest of a created object is with the controller for admission.
    Creating,
    /// The admitted manifest of a created object awaits its initial state.
    Initializing(ObjectManifest<P>),
    /// The manifest of an updated object is with the controller for admission.
    Updating(ObjectId),
    /// The controller is asked whether to reconcile the object.
    Asking(ObjectId, ObjectManifest<P>),
    /// The controller terminates a removed object.
    Terminating,
}

/// What the controller or the store handed back to an operator.
pub enum OperatorEvent<P, S> {
    /// A mutation of the operator's store.
    Store(StoreEvent<P>),
    /// The admitted manifest, or `None` where admission failed.
    Admitted(Option<ObjectManifest<P>>),
    /// The initial runtime state, or `None` where initialization failed.
    Initialized(Option<S>),
    /// Whether to reconcile, or `None` where the controller failed to say.
    ShouldReconcile(Option<bool>),
    /// Whether termination succeeded.
    Terminated(bool),
}

/// What an operator asks to be done next.
#[derive(Debug)]
pub enum OperatorAction<P> {
    /// Hand the manifest to the controller for admission.
    Admit(ObjectManifest<P>),
    /// Ask the controller for the initial state of the object.
    Initialize(ObjectManifest<P>),
    /// Ask the controller whether to reconcile the object.
    AskReconcile(ObjectManifest<P>),
    /// Start a reconciliation of the object against the manifest.
    Reconcile(ObjectId, ObjectManifest<P>),
    /// Ask the controller to terminate the object.
    Terminate(ObjectManifest<P>),
    /// The event is handled.
    Done,
    /// The handling of the event failed; the operator waits for the next one.
    Fail(EngineError),
}

/// The error with which patching manifest `m` of kind `kind` into `e` fails.
pub open spec fn patch_error<P: Clone>(e: Engine<P>, kind: Seq<char>, m: ObjectManifest<P>, err: EngineError) -> bool {
    if e.objects().contains_key(kind) {
        err matches EngineError::NotFound(n) && n == m.meta.name
    } else {
        err matches EngineError::UnknownKind(k) && k@ == kind
    }
}

/// The live objects of one kind, the reconciliations in flight, and the phase
/// of the store event being handled.
pub struct Operator<P, S> {
    objects: Objects<P, S>,
    reconciler: Reconciler,
    phase: Phase<P>,
}

impl<P: Clone, S> Operator<P, S> {
    pub closed spec fn objects(&self) -> Map<Seq<char>, Object<P, S>> {
        self.objects@
    }

    pub closed spec fn pending(&self) -> Set<ObjectId> {
        self.reconciler@
    }

    pub closed spec fn phase(&self) -> Phase<P> {
        self.phase
    }

    pub closed spec fn wf(&self) -> bool {
        self.objects.wf() && self.reconciler.wf()
    }

    pub fn new() -> (r: Self)
        ensures
            r.wf(),
            r.objects() == Map::<Seq<char>, Object<P, S>>::empty(),
            r.pending() == Set::<ObjectId>::empty(),
            r.phase() is Idle,
    {
        Operator { objects: Objects::new(), reconciler: Reconciler::new(), phase: Phase::Idle }
    }

    pub fn object(&self, name: &ObjectName) -> (r: Option<&Object<P, S>>)
        requires
            self.wf(),
        ensures
            r is Some <==> self.objects().contains_key(name@),
            r matches Some(o) ==> *o == self.objects()[name@],
    {
        self.objects.get(name)
    }

    /// The handling of `ev` while waiting for a store event.
    pub open spec fn from_idle(
        a: Self,
        b: Self,
        e0: Engine<P>,
        e1: Engine<P>,
        kind: Seq<char>,
        ev: OperatorEvent<P, S>,
        r: OperatorAction<P>,
    ) -> bool {
        let same_engine = e1.objects() == e0.objects() && e1.ownership() == e0.ownership();
        let same_objects = b.objects() == a.objects();
        let same_pending = b.pending() == a.pending();
        let failed = b.phase() is Idle && same_objects && same_pending;
        let out_of_order = (r matches OperatorAction::Fail(EngineError::OutOfOrder)) && same_engine
            && same_objects && same_pending && b.phase() == a.phase();
        match ev {
            OperatorEvent::Store(se) => {
                let m = se.manifest;
                let n = m.meta.name@;
                &&& same_engine
                &&& same_pending
                &&& match se.change {
                    Change::Create => r == OperatorAction::Admit(m) && b.phase() is Creating && same_objects,
                    Change::Update => if a.objects().contains_key(n) {
                        let prev = a.objects()[n];
                        &&& b.objects() == a.objects().insert(n, Object { id: prev.id, manifest: m, state: prev.state })
                        &&& b.phase() == Phase::<P>::Updating(prev.id)
                        &&& (r matches OperatorAction::Admit(x) && ObjectManifest::copy_of(m, x))
                    } else {
                        failed && (r matches OperatorAction::Fail(EngineError::NoObject(x)) && x@ == n)
                    },
                    Change::Delete => if a.objects().contains_key(n) {
                        &&& b.objects() == a.objects().remove(n)
                        &&& b.phase() is Terminating
                        &&& r == OperatorAction::Terminate(m)
                    } else {
                        failed && (r matches OperatorAction::Fail(EngineError::NoObject(x)) && x@ == n)
                    },
                }
            },
            _ => out_of_order,
        }
    }

    /// The handling of `ev` while a created object's manifest is being admitted.
    pub open spec fn from_creating(
        a: Self,
        b: Self,
        e0: Engine<P>,
        e1: Engine<P>,
        kind: Seq<char>,
        ev: OperatorEvent<P, S>,
        r: OperatorAction<P>,
    ) -> bool {
        let same_engine = e1.objects() == e0.objects() && e1.ownership() == e0.ownership();
        let same_objects = b.objects() == a.objects();
        let same_pending = b.pending() == a.pending();
        let failed = b.phase() is Idle && same_objects && same_pending;
        let out_of_order = (r matches OperatorAction::Fail(EngineError::OutOfOrder)) && same_engine
            && same_objects && same_pending && b.phase() == a.phase();
        match ev {
            OperatorEvent::Admitted(Some(m)) => {
                let n = m.meta.name@;
                &&& same_objects
                &&& same_pending
                &&& if e0.objects().contains_key(kind) && e0.objects()[kind].contains_key(n) {
                    &&& e1.objects() == e0.objects().insert(kind, e0.objects()[kind].insert(n, m))
                    &&& e1.ownership() == e0.ownership()
                    &&& (r matches OperatorAction::Initialize(x) && ObjectManifest::copy_of(m, x))
                    &&& (b.phase() matches Phase::Initializing(y) && ObjectManifest::copy_of(m, y))
                } else {
                    &&& same_engine
                    &&& b.phase() is Idle
                    &&& (r matches OperatorAction::Fail(err) && patch_error(e0, kind, m, err))
                }
            },
            OperatorEvent::Admitted(None) => failed && same_engine
                && (r matches OperatorAction::Fail(EngineError::HookFailed)),
            _ => out_of_order,
        }
    }

    /// The handling of `ev` while a created object's admitted manifest `m` awaits its state.
    pub open spec fn from_initializing(
        a: Self,
        b: Self,
        e0: Engine<P>,
        e1: Engine<P>,
        kind: Seq<char>,
        ev: OperatorEvent<P, S>,
        r: OperatorAction<P>,
        m: ObjectManifest<P>,
    ) -> bool {
        let same_engine = e1.objects() == e0.objects() && e1.ownership() == e0.ownership();
        let same_objects = b.objects() == a.objects();
        let same_pending = b.pending() == a.pending();
        let failed = b.phase() is Idle && same_objects && same_pending;
        let out_of_order = (r matches OperatorAction::Fail(EngineError::OutOfOrder)) && same_engine
            && same_objects && same_pending && b.phase() == a.phase();
        match ev {
            OperatorEvent::Initialized(Some(s)) => {
                &&& same_engine
                &&& same_pending
                &&& (b.phase() matches Phase::Asking(id, x) && ObjectManifest::copy_of(m, x)
                    && b.objects() == a.objects().insert(m.meta.name@, Object { id, manifest: m, state: s }))
                &&& (r matches OperatorAction::AskReconcile(y) && ObjectManifest::copy_of(m, y))
            },
            OperatorEvent::Initialized(None) => failed && same_engine
                && (r matches OperatorAction::Fail(EngineError::HookFailed)),
            _ => out_of_order,
        }
    }

    /// The handling of `ev` while the updated object `id` is being admitted.
    pub open spec fn from_updating(
        a: Self,
        b: Self,
        e0: Engine<P>,
        e1: Engine<P>,
        kind: Seq<char>,
        ev: OperatorEvent<P, S>,
        r: OperatorAction<P>,
        id: ObjectId,
    ) -> bool {
        let same_engine = e1.objects() == e0.objects() && e1.ownership() == e0.ownership();
        let same_objects = b.objects() == a.objects();
        let same_pending = b.pending() == a.pending();
        let failed = b.phase() is Idle && same_objects && same_pending;
        let out_of_order = (r matches OperatorAction::Fail(EngineError::OutOfOrder)) && same_engine
            && same_objects && same_pending && b.phase() == a.phase();
        match ev {
            OperatorEvent::Admitted(Some(m)) => {
                let n = m.meta.name@;
                &&& same_pending
                &&& if e0.objects().contains_key(kind) && e0.objects()[kind].contains_key(n) {
                    &&& e1.objects() == e0.objects().insert(kind, e0.objects()[kind].insert(n, m))
                    &&& e1.ownership() == e0.ownership()
                    &&& if a.objects().contains_key(n) {
                        let prev = a.objects()[n];
                        &&& b.objects() == a.objects().insert(n, Object { id: prev.id, manifest: b.objects()[n].manifest, state: prev.state })
                        &&& ObjectManifest::copy_of(m, b.objects()[n].manifest)
                    } else {
                        same_objects
                    }
                    &&& (r matches OperatorAction::AskReconcile(x) && ObjectManifest::copy_of(m, x))
                    &&& (b.phase() matches Phase::Asking(id2, y) && id2 == id && ObjectManifest::copy_of(m, y))
                } else {
                    &&& same_engine
                    &&& failed
                    &&& (r matches OperatorAction::Fail(err) && patch_error(e0, kind, m, err))
                }
            },
            OperatorEvent::Admitted(None) => failed && same_engine
                && (r matches OperatorAction::Fail(EngineError::HookFailed)),
            _ => out_of_order,
        }
    }

    /// The handling of `ev` while the controller is asked whether to reconcile object `id` against `m`.
    pub open spec fn from_asking(
        a: Self,
        b: Self,
        e0: Engine<P>,
        e1: Engine<P>,
        kind: Seq<char>,
        ev: OperatorEvent<P, S>,
        r: OperatorAction<P>,
        id: ObjectId,
        m: ObjectManifest<P>,
    ) -> bool {
        let same_engine = e1.objects() == e0.objects() && e1.ownership() == e0.ownership();
        let same_objects = b.objects() == a.objects();
        let same_pending = b.pending() == a.pending();
        let failed = b.phase() is Idle && same_objects && same_pending;
        let out_of_order = (r matches OperatorAction::Fail(EngineError::OutOfOrder)) && same_engine
            && same_objects && same_pending && b.phase() == a.phase();
        match ev {
            OperatorEvent::ShouldReconcile(Some(true)) => {
                &&& same_engine
                &&& same_objects
                &&& b.phase() is Idle
                &&& b.pending() == a.pending().insert(id)
                &&& r == if a.pending().contains(id) {
                    OperatorAction::Done
                } else {
                    OperatorAction::Reconcile(id, m)
                }
            },
            OperatorEvent::ShouldReconcile(Some(false)) => failed && same_engine && r == OperatorAction::<P>::Done,
            OperatorEvent::ShouldReconcile(None) => failed && same_engine
                && (r matches OperatorAction::Fail(EngineError::HookFailed)),
            _ => out_of_order,
        }
    }

    /// The handling of `ev` while a removed object is terminated.
    pub open spec fn from_terminating(
        a: Self,
        b: Self,
        e0: Engine<P>,
        e1: Engine<P>,
        kind: Seq<char>,
        ev: OperatorEvent<P, S>,
        r: OperatorAction<P>,
    ) -> bool {
        let same_engine = e1.objects() == e0.objects() && e1.ownership() == e0.ownership();
        let same_objects = b.objects() == a.objects();
        let same_pending = b.pending() == a.pending();
        let failed = b.phase() is Idle && same_objects && same_pending;
        let out_of_order = (r matches OperatorAction::Fail(EngineError::OutOfOrder)) && same_engine
            && same_objects && same_pending && b.phase() == a.phase();
        match ev {
            OperatorEvent::Terminated(ok) => failed && same_engine && if ok {
                r == OperatorAction::<P>::Done
            } else {
                (r matches OperatorAction::Fail(EngineError::HookFailed))
            },
            _ => out_of_order,
        }
    }

    /// Handles one event from the store or the controller. A created object is
    /// admitted, its admitted manifest patched into the store, then initialized,
    /// and only then recorded; an updated object is admitted and patched, never
    /// initialized again; a removed object is dropped from the record before it
    /// is terminated. A failed hook leaves no partial record. Whether to
    /// reconcile is asked last, and a reconciliation starts only where none is
    /// in flight for the object.
    pub fn step(&mut self, engine: &mut Engine<P>, kind: &ObjectKind, ev: OperatorEvent<P, S>) -> (r: OperatorAction<P>)
        requires
            old(self).wf(),
            old(engine).wf(),
        ensures
            final(self).wf(),
            final(engine).wf(),
            old(self).phase() is Idle ==> Self::from_idle(*old(self), *final(self), *old(engine), *final(engine), kind@, ev, r),
            old(self).phase() is Creating ==> Self::from_creating(*old(self), *final(self), *old(engine), *final(engine), kind@, ev, r),
            old(self).phase() matches Phase::Initializing(m)
                ==> Self::from_initializing(*old(self), *final(self), *old(engine), *final(engine), kind@, ev, r, m),
            old(self).phase() matches Phase::Updating(id)
                ==> Self::from_updating(*old(self), *final(self), *old(engine), *final(engine), kind@, ev, r, id),
            old(self).phase() matches Phase::Asking(id, m)
                ==> Self::from_asking(*old(self), *final(self), *old(engine), *final(engine), kind@, ev, r, id, m),
            old(self).phase() is Terminating ==> Self::from_terminating(*old(self), *final(self), *old(engine), *final(engine), kind@, ev, r),
    {
        let mut phase = Phase::Idle;
        std::mem::swap(&mut self.phase, &mut phase);
        match phase {
            Phase::Idle => match ev {
                OperatorEvent::Store(se) => {
                    let StoreEvent { change, manifest } = se;
                    match change {
                        Change::Create => {
                            self.phase = Phase::Creating;
                            OperatorAction::Admit(manifest)
                        },
                        Change::Update => {
                            let copy = manifest.duplicate();
                            match self.objects.updated(manifest) {
                                Ok(id) => {
                                    self.phase = Phase::Updating(id);
                                    let rr = OperatorAction::Admit(copy);
                                    rr
                                },
                                Err(e) => OperatorAction::Fail(e),
                            }
                        },
                        Change::Delete => match self.objects.deleted(&manifest.meta.name) {
                            Ok(_) => {
                                self.phase = Phase::Terminating;
                                OperatorAction::Terminate(manifest)
                            },
                            Err(e) => {
                                assert(self.objects@ =~= old(self).objects@);
                                OperatorAction::Fail(e)
                            },
                        },
                    }
                },
                _ => {
                    self.phase = Phase::Idle;
                    OperatorAction::Fail(EngineError::OutOfOrder)
                },
            },
            Phase::Creating => match ev {
                OperatorEvent::Admitted(Some(m)) => {
                    let next = m.duplicate();
                    let out = m.duplicate();
                    match engine.patch(kind, m) {
                        Ok(()) => {
                            self.phase = Phase::Initializing(next);
                            let rr = OperatorAction::Initialize(out);
                            rr
                        },
                        Err(e) => OperatorAction::Fail(e),
                    }
                },
                OperatorEvent::Admitted(None) => OperatorAction::Fail(EngineError::HookFailed),
                _ => {
                    self.phase = Phase::Creating;
                    OperatorAction::Fail(EngineError::OutOfOrder)
                },
            },
            Phase::Initializing(m) => match ev {
                OperatorEvent::Initialized(Some(s)) => {
                    let next = m.duplicate();
                    let out = m.duplicate();
                    let id = self.objects.created(m, s);
                    self.phase = Phase::Asking(id, next);
                    let rr = OperatorAction::AskReconcile(out);
                    rr
                },
                OperatorEvent::Initialized(None) => OperatorAction::Fail(EngineError::HookFailed),
                _ => {
                    self.phase = Phase::Initializing(m);
                    OperatorAction::Fail(EngineError::OutOfOrder)
                },
            },
            Phase::Updating(id) => match ev {
                OperatorEvent::Admitted(Some(m)) => {
                    let record = m.duplicate();
                    let next = m.duplicate();
                    let out = m.duplicate();
                    match engine.patch(kind, m) {
                        Ok(()) => {
                            self.objects.patch_manifest(record);
                            self.phase = Phase::Asking(id, next);
                            let rr = OperatorAction::AskReconcile(out);
                            rr
                        },
                        Err(e) => OperatorAction::Fail(e),
                    }
                },
                OperatorEvent::Admitted(None) => OperatorAction::Fail(EngineError::HookFailed),
                _ => {
                    self.phase = Phase::Updating(id);
                    OperatorAction::Fail(EngineError::OutOfOrder)
                },
            },
            Phase::Asking(id, m) => match ev {
                OperatorEvent::ShouldReconcile(Some(yes)) => {
                    if yes {
                        if self.reconciler.reconcile(id) {
                            OperatorAction::Reconcile(id, m)
                        } else {
                            OperatorAction::Done
                        }
                    } else {
                        OperatorAction::Done
                    }
                },
                OperatorEvent::ShouldReconcile(None) => OperatorAction::Fail(EngineError::HookFailed),
                _ => {
                    self.phase = Phase::Asking(id, m);
                    OperatorAction::Fail(EngineError::OutOfOrder)
                },
            },
            Phase::Terminating => match ev {
                OperatorEvent::Terminated(ok) => {
                    if ok {
                        OperatorAction::Done
                    } else {
                        OperatorAction::Fail(EngineError::HookFailed)
                    }
                },
                _ => {
                    self.phase = Phase::Terminating;
                    OperatorAction::Fail(EngineError::OutOfOrder)
                },
            },
        }
    }

    /// The reconciliation of `id` has finished, with success or an error.
    pub fn reconcile_done(&mut self, id: ObjectId)
        requires
            old(self).wf(),
        ensures
            final(self).wf(),
            final(self).objects() == old(self).objects(),
            final(self).phase() == old(self).phase(),
            final(self).pending() == old(self).pending().remove(id),
    {
        self.reconciler.complete(id);
    }

    /// A reconciliation of the object `name` with identity `id` asked to be run
    /// again, and its delay has passed. It starts again, against the manifest
    /// that the store of `kind` holds now, only where the object is still live
    /// under that identity, the store still holds it, and no reconciliation of
    /// it is in flight.
    pub fn requeue(&mut self, engine: &Engine<P>, kind: &ObjectKind, id: ObjectId, name: &ObjectName) -> (r: Option<ObjectManifest<P>>)
        requires
            old(self).wf(),
            engine.wf(),
        ensures
            final(self).wf(),
            final(self).objects() == old(self).objects(),
            final(self).phase() == old(self).phase(),
            ({
                let live = old(self).objects().contains_key(name@) && old(self).objects()[name@].id == id
                    && engine.objects().contains_key(kind@) && engine.objects()[kind@].contains_key(name@);
                &&& r is Some <==> live && !old(self).pending().contains(id)
                &&& final(self).pending() == if live { old(self).pending().insert(id) } else { old(self).pending() }
                &&& r matches Some(m) ==> ObjectManifest::copy_of(engine.objects()[kind@][name@], m)
            }),
    {
        let same = match self.objects.get(name) {
            Some(o) => o.id == id,
            None => false,
        };
        if !same {
            return None;
        }
        match engine.manifest(kind, name) {
            Some(m) => {
                if self.reconciler.reconcile(id) {
                    Some(m.duplicate())
                } else {
                    None
                }
            },
            None => None,
        }
    }
}

impl<P: Clone, S> Operator<P, S> {
    /// While an updated object is admitted, the operator never asks for an
    /// initial state, and every recorded object keeps its identity and state.
    pub proof fn lemma_update_never_initializes(
        a: Self,
        b: Self,
        e0: Engine<P>,
        e1: Engine<P>,
        kind: Seq<char>,
        ev: OperatorEvent<P, S>,
        r: OperatorAction<P>,
        id: ObjectId,
    )
        requires
            Self::from_updating(a, b, e0, e1, kind, ev, r, id),
        ensures
            !(r is Initialize),
            forall|n: Seq<char>| #[trigger] b.objects().contains_key(n) ==> a.objects().contains_key(n)
                && b.objects()[n].id == a.objects()[n].id && b.objects()[n].state == a.objects()[n].state,
    {
    }

    /// A created object is recorded only once its initial state is there:
    /// while its manifest is admitted nothing is recorded, and the state
    /// handed back is recorded under the admitted manifest's name.
    pub proof fn lemma_create_records_after_initialization(
        a: Self,
        b: Self,
        c: Self,
        e0: Engine<P>,
        e1: Engine<P>,
        e2: Engine<P>,
        kind: Seq<char>,
        admitted: ObjectManifest<P>,
        r1: OperatorAction<P>,
        s: S,
        r2: OperatorAction<P>,
    )
        requires
            a.phase() is Creating,
            Self::from_creating(a, b, e0, e1, kind, OperatorEvent::Admitted(Some(admitted)), r1),
            r1 is Initialize,
            b.phase() matches Phase::Initializing(m) && Self::from_initializing(b, c, e1, e2, kind, OperatorEvent::Initialized(Some(s)), r2, m),
        ensures
            b.objects() == a.objects(),
            c.objects().contains_key(admitted.meta.name@),
            c.objects()[admitted.meta.name@].state == s,
            c.objects()[admitted.meta.name@].manifest.meta == admitted.meta,
            forall|n: Seq<char>| n != admitted.meta.name@ ==> (#[trigger] c.objects().contains_key(n)) == a.objects().contains_key(n),
    {
    }
}

/// Two requests to reconcile the same object, the second made before the first
/// completes, start one reconciliation; a third request made after completion
/// starts a second one. `b`, `c` and `d` are the reconciler after the first
/// request, the second request and the completion.
pub proof fn lemma_reconcile_once(a: &Reconciler, b: &Reconciler, c: &Reconciler, d: &Reconciler, id: ObjectId)
    requires
        !a@.contains(id),
        b@ == a@.insert(id),
        c@ == b@.insert(id),
        d@ == c@.remove(id),
    ensures
        !a@.contains(id),
        b@.contains(id),
        !d@.contains(id),
        d@ == a@,
{
    assert(d@ =~= a@);
}

} // verus!
