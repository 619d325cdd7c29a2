use std::cell::RefCell;
use std::rc::Rc;

use gusto::{
    Change, CommandAction, Engine, EngineError, ObjectManifest, ObjectName, Objects, Operator, OperatorAction,
    OperatorEvent, Reconciler, StoreEvent,
};

#[derive(Clone, Debug, PartialEq)]
struct FooProps {
    foo: bool,
}

#[derive(Debug, PartialEq)]
struct FooState {
    foo: bool,
}

#[test]
fn two_requests_before_completion_start_one_reconcile() {
    let mut r = Reconciler::new();
    assert!(r.reconcile(7));
    assert!(!r.reconcile(7));
    assert!(r.is_pending(7));
    assert!(r.reconcile(8));
    r.complete(7);
    assert!(!r.is_pending(7));
    assert!(r.reconcile(7));
}

#[test]
fn update_keeps_identity_and_state() {
    let mut objs: Objects<FooProps, FooState> = Objects::new();
    let m = ObjectManifest::new(ObjectName::from("x"), FooProps { foo: true });
    let id = objs.created(m, FooState { foo: true });
    let id2 = objs.updated(ObjectManifest::new(ObjectName::from("x"), FooProps { foo: false })).unwrap();
    assert_eq!(id, id2);
    let o = objs.get(&ObjectName::from("x")).unwrap();
    assert_eq!(o.id, id);
    assert_eq!(o.manifest.props, FooProps { foo: false });
    assert_eq!(o.state, FooState { foo: true });
    assert_eq!(objs.len(), 1);
}

#[test]
fn update_or_delete_of_unknown_object_is_refused() {
    let mut objs: Objects<FooProps, FooState> = Objects::new();
    let r = objs.updated(ObjectManifest::new(ObjectName::from("x"), FooProps { foo: false }));
    assert!(matches!(r, Err(EngineError::NoObject(n)) if n == ObjectName::from("x")));
    let r = objs.deleted(&ObjectName::from("x"));
    assert!(matches!(r, Err(EngineError::NoObject(_))));
    assert!(objs.patch_manifest(ObjectManifest::new(ObjectName::from("x"), FooProps { foo: true })).is_none());
}

#[test]
fn fresh_objects_get_distinct_identities() {
    let mut objs: Objects<FooProps, FooState> = Objects::new();
    let a = objs.created(ObjectManifest::new(ObjectName::from("a"), FooProps { foo: true }), FooState { foo: true });
    let b = objs.created(ObjectManifest::new(ObjectName::from("b"), FooProps { foo: true }), FooState { foo: true });
    assert_ne!(a, b);
}

type Shared = Rc<RefCell<FooState>>;

#[derive(Default)]
struct Calls {
    admissions: u32,
    initialize: u32,
    reconcile: u32,
    terminate: u32,
}

/// Runs the controller's part of one store event: admission keeps the
/// manifest, the state copies the props, reconciliation copies the props into
/// the state.
fn drive(
    op: &mut Operator<FooProps, Shared>,
    engine: &mut Engine<FooProps>,
    kind: &String,
    event: StoreEvent<FooProps>,
    calls: &mut Calls,
) -> OperatorAction<FooProps> {
    let mut next = OperatorEvent::Store(event);
    loop {
        next = match op.step(engine, kind, next) {
            OperatorAction::Admit(m) => {
                calls.admissions += 1;
                OperatorEvent::Admitted(Some(m))
            }
            OperatorAction::Initialize(m) => {
                calls.initialize += 1;
                OperatorEvent::Initialized(Some(Rc::new(RefCell::new(FooState { foo: m.props.foo }))))
            }
            OperatorAction::AskReconcile(_) => OperatorEvent::ShouldReconcile(Some(true)),
            OperatorAction::Terminate(_) => {
                calls.terminate += 1;
                OperatorEvent::Terminated(true)
            }
            OperatorAction::Reconcile(id, m) => {
                calls.reconcile += 1;
                op.object(m.name()).unwrap().state.borrow_mut().foo = m.props.foo;
                op.reconcile_done(id);
                return OperatorAction::Done;
            }
            other => return other,
        };
    }
}

#[test]
fn foo_lifecycle_through_engine_and_operator() {
    let kind = "Foo".to_string();
    let mut engine: Engine<FooProps> = Engine::new();
    engine.register_kind(kind.clone());
    let mut op: Operator<FooProps, Shared> = Operator::new();
    let mut calls = Calls::default();
    let x = ObjectName::from("x");

    let mut ev = Vec::new();
    let m = ObjectManifest::new(x.clone(), FooProps { foo: true });
    engine.apply(CommandAction::insert(kind.clone(), m), &mut ev).unwrap();
    assert_eq!(ev.len(), 1);
    assert_eq!(ev[0].1.change, Change::Create);
    let (_, event) = ev.remove(0);
    assert!(matches!(drive(&mut op, &mut engine, &kind, event, &mut calls), OperatorAction::Done));
    assert_eq!((calls.admissions, calls.initialize, calls.reconcile), (1, 1, 1));
    let id = op.object(&x).unwrap().id;
    assert_eq!(*op.object(&x).unwrap().state.borrow(), FooState { foo: true });

    let m = ObjectManifest::new(x.clone(), FooProps { foo: false });
    engine.apply(CommandAction::insert(kind.clone(), m), &mut ev).unwrap();
    assert_eq!(ev.len(), 1);
    assert_eq!(ev[0].1.change, Change::Update);
    let (_, event) = ev.remove(0);
    assert!(matches!(drive(&mut op, &mut engine, &kind, event, &mut calls), OperatorAction::Done));
    assert_eq!((calls.admissions, calls.initialize, calls.reconcile), (2, 1, 2));
    assert_eq!(op.object(&x).unwrap().id, id);
    assert_eq!(*op.object(&x).unwrap().state.borrow(), FooState { foo: false });

    engine.apply(CommandAction::remove(kind.clone(), x.clone()), &mut ev).unwrap();
    assert_eq!(ev.len(), 1);
    assert_eq!(ev[0].1.change, Change::Delete);
    let (_, event) = ev.remove(0);
    assert!(matches!(drive(&mut op, &mut engine, &kind, event, &mut calls), OperatorAction::Done));
    assert_eq!(calls.terminate, 1);
    assert!(op.object(&x).is_none());
    assert!(engine.manifest(&kind, &x).is_none());
}

#[test]
fn failed_initialization_leaves_no_record() {
    let kind = "Foo".to_string();
    let mut engine: Engine<FooProps> = Engine::new();
    engine.register_kind(kind.clone());
    let mut op: Operator<FooProps, Shared> = Operator::new();
    let mut ev = Vec::new();
    let m = ObjectManifest::new(ObjectName::from("x"), FooProps { foo: true });
    engine.apply(CommandAction::insert(kind.clone(), m), &mut ev).unwrap();
    let (_, event) = ev.remove(0);
    let a = op.step(&mut engine, &kind, OperatorEvent::Store(event));
    let OperatorAction::Admit(m) = a else { panic!("expected admission") };
    let a = op.step(&mut engine, &kind, OperatorEvent::Admitted(Some(m)));
    assert!(matches!(a, OperatorAction::Initialize(_)));
    let a = op.step(&mut engine, &kind, OperatorEvent::Initialized(None));
    assert!(matches!(a, OperatorAction::Fail(EngineError::HookFailed)));
    assert!(op.object(&ObjectName::from("x")).is_none());
}

#[test]
fn admission_result_is_patched_into_the_store() {
    let kind = "Foo".to_string();
    let mut engine: Engine<FooProps> = Engine::new();
    engine.register_kind(kind.clone());
    let mut op: Operator<FooProps, Shared> = Operator::new();
    let mut ev = Vec::new();
    let x = ObjectName::from("x");
    engine.apply(CommandAction::insert(kind.clone(), ObjectManifest::new(x.clone(), FooProps { foo: true })), &mut ev).unwrap();
    let (_, event) = ev.remove(0);
    op.step(&mut engine, &kind, OperatorEvent::Store(event));
    let a = op.step(&mut engine, &kind, OperatorEvent::Admitted(Some(ObjectManifest::new(x.clone(), FooProps { foo: false }))));
    assert!(matches!(a, OperatorAction::Initialize(m) if !m.props.foo));
    assert_eq!(engine.manifest(&kind, &x).unwrap().props, FooProps { foo: false });
    assert!(ev.is_empty());
}

#[test]
fn update_or_delete_without_a_record_fails() {
    let kind = "Foo".to_string();
    let mut engine: Engine<FooProps> = Engine::new();
    engine.register_kind(kind.clone());
    let mut op: Operator<FooProps, Shared> = Operator::new();
    let m = ObjectManifest::new(ObjectName::from("x"), FooProps { foo: true });
    let a = op.step(&mut engine, &kind, OperatorEvent::Store(StoreEvent::new(Change::Update, m.clone())));
    assert!(matches!(a, OperatorAction::Fail(EngineError::NoObject(_))));
    let a = op.step(&mut engine, &kind, OperatorEvent::Store(StoreEvent::new(Change::Delete, m)));
    assert!(matches!(a, OperatorAction::Fail(EngineError::NoObject(_))));
}

#[test]
fn unexpected_event_is_refused() {
    let kind = "Foo".to_string();
    let mut engine: Engine<FooProps> = Engine::new();
    let mut op: Operator<FooProps, Shared> = Operator::new();
    let a = op.step(&mut engine, &kind, OperatorEvent::Terminated(true));
    assert!(matches!(a, OperatorAction::Fail(EngineError::OutOfOrder)));
}

#[test]
fn declined_reconcile_finishes_without_one() {
    let kind = "Foo".to_string();
    let mut engine: Engine<FooProps> = Engine::new();
    engine.register_kind(kind.clone());
    let mut op: Operator<FooProps, Shared> = Operator::new();
    let mut ev = Vec::new();
    let x = ObjectName::from("x");
    engine.apply(CommandAction::insert(kind.clone(), ObjectManifest::new(x.clone(), FooProps { foo: true })), &mut ev).unwrap();
    let (_, event) = ev.remove(0);
    let OperatorAction::Admit(m) = op.step(&mut engine, &kind, OperatorEvent::Store(event)) else { panic!() };
    op.step(&mut engine, &kind, OperatorEvent::Admitted(Some(m)));
    let s = Rc::new(RefCell::new(FooState { foo: true }));
    assert!(matches!(op.step(&mut engine, &kind, OperatorEvent::Initialized(Some(s))), OperatorAction::AskReconcile(_)));
    assert!(matches!(op.step(&mut engine, &kind, OperatorEvent::ShouldReconcile(Some(false))), OperatorAction::Done));
    assert!(op.object(&x).is_some());
}

#[test]
fn requeue_runs_again_only_for_a_live_idle_object() {
    let kind = "Foo".to_string();
    let mut engine: Engine<FooProps> = Engine::new();
    engine.register_kind(kind.clone());
    let mut op: Operator<FooProps, Shared> = Operator::new();
    let mut calls = Calls::default();
    let mut ev = Vec::new();
    let x = ObjectName::from("x");
    engine.apply(CommandAction::insert(kind.clone(), ObjectManifest::new(x.clone(), FooProps { foo: true })), &mut ev).unwrap();
    let (_, event) = ev.remove(0);
    drive(&mut op, &mut engine, &kind, event, &mut calls);
    let id = op.object(&x).unwrap().id;
    let again = op.requeue(&engine, &kind, id, &x).unwrap();
    assert!(again.props.foo);
    assert!(op.requeue(&engine, &kind, id, &x).is_none());
    op.reconcile_done(id);
    assert!(op.requeue(&engine, &kind, id.wrapping_add(1), &x).is_none());
    engine.apply(CommandAction::remove(kind.clone(), x.clone()), &mut ev).unwrap();
    assert!(op.requeue(&engine, &kind, id, &x).is_none());
}
