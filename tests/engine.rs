use gusto::{Change, CommandAction, Engine, EngineError, ObjectKind, ObjectManifest, ObjectName, StoreEvent};

fn kind(s: &str) -> ObjectKind {
    s.to_string()
}

fn insert(e: &mut Engine<u32>, k: &str, name: &str, v: u32, ev: &mut Vec<(ObjectKind, StoreEvent<u32>)>) -> Result<(), EngineError> {
    let a = CommandAction::insert(kind(k), ObjectManifest::new(ObjectName::from(name), v));
    e.apply(a, ev)
}

fn insert_owned(e: &mut Engine<u32>, k: &str, owner: &str, name: &str, ev: &mut Vec<(ObjectKind, StoreEvent<u32>)>) -> Result<(), EngineError> {
    let a = CommandAction::insert_owned(kind(k), ObjectName::from(owner), ObjectManifest::new(ObjectName::from(name), 0))?;
    e.apply(a, ev)
}

fn remove(e: &mut Engine<u32>, k: &str, name: &str, ev: &mut Vec<(ObjectKind, StoreEvent<u32>)>) -> Result<(), EngineError> {
    e.apply(CommandAction::remove(kind(k), ObjectName::from(name)), ev)
}

#[test]
fn insert_of_new_name_gives_one_create() {
    let mut e: Engine<u32> = Engine::new();
    e.register_kind(kind("Foo"));
    let mut ev = Vec::new();
    insert(&mut e, "Foo", "x", 1, &mut ev).unwrap();
    assert_eq!(ev.len(), 1);
    assert_eq!(ev[0].0, "Foo");
    assert_eq!(ev[0].1.change, Change::Create);
    assert_eq!(e.manifest(&kind("Foo"), &ObjectName::from("x")).unwrap().props, 1);
}

#[test]
fn insert_of_present_name_gives_an_update() {
    let mut e: Engine<u32> = Engine::new();
    e.register_kind(kind("Foo"));
    let mut ev = Vec::new();
    insert(&mut e, "Foo", "x", 1, &mut ev).unwrap();
    insert(&mut e, "Foo", "x", 2, &mut ev).unwrap();
    assert_eq!(ev.len(), 2);
    assert_eq!(ev[1].1.change, Change::Update);
    assert_eq!(e.manifest(&kind("Foo"), &ObjectName::from("x")).unwrap().props, 2);
}

#[test]
fn unknown_kind_is_refused() {
    let mut e: Engine<u32> = Engine::new();
    let mut ev = Vec::new();
    let r = insert(&mut e, "Foo", "x", 1, &mut ev);
    assert!(matches!(r, Err(EngineError::UnknownKind(k)) if k == "Foo"));
    assert!(ev.is_empty());
    let r = remove(&mut e, "Foo", "x", &mut ev);
    assert!(matches!(r, Err(EngineError::UnknownKind(_))));
}

#[test]
fn registering_twice_keeps_the_store() {
    let mut e: Engine<u32> = Engine::new();
    e.register_kind(kind("Foo"));
    let mut ev = Vec::new();
    insert(&mut e, "Foo", "x", 1, &mut ev).unwrap();
    e.register_kind(kind("Foo"));
    assert!(e.is_registered(&kind("Foo")));
    assert!(e.manifest(&kind("Foo"), &ObjectName::from("x")).is_some());
}

#[test]
fn removing_without_children_removes_only_that_object() {
    let mut e: Engine<u32> = Engine::new();
    e.register_kind(kind("Foo"));
    let mut ev = Vec::new();
    insert(&mut e, "Foo", "a", 1, &mut ev).unwrap();
    insert(&mut e, "Foo", "b", 2, &mut ev).unwrap();
    ev.clear();
    remove(&mut e, "Foo", "a", &mut ev).unwrap();
    assert_eq!(ev.len(), 1);
    assert_eq!(ev[0].1.change, Change::Delete);
    assert!(e.manifest(&kind("Foo"), &ObjectName::from("a")).is_none());
    assert!(e.manifest(&kind("Foo"), &ObjectName::from("b")).is_some());
}

#[test]
fn owning_twice_fails_without_mutation() {
    let mut e: Engine<u32> = Engine::new();
    e.register_kind(kind("Parent"));
    e.register_kind(kind("Child"));
    let mut ev = Vec::new();
    insert_owned(&mut e, "Child", "parent", "Sara", &mut ev).unwrap();
    e.patch(&kind("Child"), ObjectManifest::new(ObjectName::from("Sara"), 9)).unwrap();
    ev.clear();
    let r = insert_owned(&mut e, "Child", "parent", "Sara", &mut ev);
    assert!(matches!(r, Err(EngineError::AlreadyOwned(_))));
    assert!(ev.is_empty());
    assert_eq!(e.manifest(&kind("Child"), &ObjectName::from("Sara")).unwrap().props, 9);
}

#[test]
fn self_owned_insert_fails_before_any_mutation() {
    let mut e: Engine<u32> = Engine::new();
    e.register_kind(kind("Foo"));
    let mut ev = Vec::new();
    let r = insert_owned(&mut e, "Foo", "a", "a", &mut ev);
    assert!(matches!(r, Err(EngineError::SelfOwnership(_))));
    assert!(ev.is_empty());
    assert!(e.manifest(&kind("Foo"), &ObjectName::from("a")).is_none());
}

#[test]
fn patch_of_unknown_object_or_kind_is_refused() {
    let mut e: Engine<u32> = Engine::new();
    e.register_kind(kind("Foo"));
    let r = e.patch(&kind("Foo"), ObjectManifest::new(ObjectName::from("x"), 1));
    assert!(matches!(r, Err(EngineError::NotFound(_))));
    let r = e.patch(&kind("Bar"), ObjectManifest::new(ObjectName::from("x"), 1));
    assert!(matches!(r, Err(EngineError::UnknownKind(_))));
}

#[test]
fn removing_parent_removes_its_children_and_is_idempotent() {
    let mut e: Engine<u32> = Engine::new();
    e.register_kind(kind("Parent"));
    e.register_kind(kind("Child"));
    let mut ev = Vec::new();
    insert(&mut e, "Parent", "parent", 0, &mut ev).unwrap();
    insert_owned(&mut e, "Child", "parent", "Sara", &mut ev).unwrap();
    insert_owned(&mut e, "Child", "parent", "Michael", &mut ev).unwrap();
    insert(&mut e, "Child", "Other", 0, &mut ev).unwrap();
    ev.clear();
    remove(&mut e, "Parent", "parent", &mut ev).unwrap();
    assert_eq!(ev.len(), 3);
    assert!(ev.iter().all(|(_, x)| x.change == Change::Delete));
    let removed: Vec<(String, String)> = ev.iter().map(|(k, x)| (k.clone(), x.manifest.name().to_string())).collect();
    assert!(removed.contains(&("Child".to_string(), "Sara".to_string())));
    assert!(removed.contains(&("Child".to_string(), "Michael".to_string())));
    assert!(removed.contains(&("Parent".to_string(), "parent".to_string())));
    assert!(e.manifest(&kind("Child"), &ObjectName::from("Sara")).is_none());
    assert!(e.manifest(&kind("Child"), &ObjectName::from("Michael")).is_none());
    assert!(e.manifest(&kind("Parent"), &ObjectName::from("parent")).is_none());
    assert!(e.manifest(&kind("Child"), &ObjectName::from("Other")).is_some());
    ev.clear();
    remove(&mut e, "Parent", "parent", &mut ev).unwrap();
    assert!(ev.is_empty());
    assert!(e.manifest(&kind("Child"), &ObjectName::from("Other")).is_some());
}

#[test]
fn manifest_tagged_with_another_kind_is_refused() {
    let mut e: Engine<u32> = Engine::new();
    e.register_kind(kind("Foo"));
    let mut ev = Vec::new();
    let d = gusto::DynObjectManifest::new(kind("Bar"), ObjectManifest::new(ObjectName::from("x"), 1));
    let r = e.apply(CommandAction::InsertManifest(kind("Foo"), d, None), &mut ev);
    assert!(matches!(r, Err(EngineError::KindMismatch { .. })));
    assert!(ev.is_empty());
    assert!(e.manifest(&kind("Foo"), &ObjectName::from("x")).is_none());
}
