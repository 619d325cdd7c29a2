use gusto::{EngineError, ObjectName, Owners};

#[test]
fn owning_the_same_pair_twice_fails() {
    let mut o = Owners::new();
    o.own(ObjectName::from("parent"), "Child".to_string(), ObjectName::from("Sara")).unwrap();
    match o.own(ObjectName::from("parent"), "Child".to_string(), ObjectName::from("Sara")) {
        Err(EngineError::AlreadyOwned(n)) => assert_eq!(n, ObjectName::from("Sara")),
        other => panic!("unexpected: {:?}", other),
    }
    let owned = o.remove_owner(&ObjectName::from("parent")).unwrap();
    assert_eq!(owned.len(), 1);
}

#[test]
fn same_name_of_another_kind_is_a_new_edge() {
    let mut o = Owners::new();
    o.own(ObjectName::from("parent"), "Child".to_string(), ObjectName::from("Sara")).unwrap();
    o.own(ObjectName::from("parent"), "Pet".to_string(), ObjectName::from("Sara")).unwrap();
    let owned = o.remove_owner(&ObjectName::from("parent")).unwrap();
    assert_eq!(owned.len(), 2);
    assert_eq!(owned[0].kind, "Child");
    assert_eq!(owned[1].kind, "Pet");
}

#[test]
fn an_object_cannot_own_itself() {
    let mut o = Owners::new();
    let r = o.own(ObjectName::from("a"), "K".to_string(), ObjectName::from("a"));
    assert!(matches!(r, Err(EngineError::SelfOwnership(_))));
    assert!(o.remove_owner(&ObjectName::from("a")).is_none());
}

#[test]
fn remove_owner_detaches_all_edges() {
    let mut o = Owners::new();
    o.own(ObjectName::from("p"), "C".to_string(), ObjectName::from("a")).unwrap();
    o.own(ObjectName::from("p"), "C".to_string(), ObjectName::from("b")).unwrap();
    let owned = o.remove_owner(&ObjectName::from("p")).unwrap();
    let names: Vec<String> = owned.iter().map(|e| e.name.to_string()).collect();
    assert_eq!(names, vec!["a".to_string(), "b".to_string()]);
    assert!(o.remove_owner(&ObjectName::from("p")).is_none());
}
