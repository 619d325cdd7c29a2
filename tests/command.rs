use gusto::{CommandAction, EngineError, ObjectManifest, ObjectName};

#[test]
fn owned_insert_of_itself_is_refused() {
    let m = ObjectManifest::new(ObjectName::from("a"), 0u8);
    let r = CommandAction::insert_owned("K".to_string(), ObjectName::from("a"), m);
    match r {
        Err(EngineError::SelfOwnership(n)) => assert_eq!(n, ObjectName::from("a")),
        Err(e) => panic!("unexpected: {:?}", e),
        Ok(_) => panic!("self-ownership accepted"),
    }
}

#[test]
fn owned_insert_carries_owner_and_kind() {
    let m = ObjectManifest::new(ObjectName::from("Sara"), 0u8);
    let a = CommandAction::insert_owned("Child".to_string(), ObjectName::from("parent"), m).unwrap();
    assert_eq!(a.variant_name(), "InsertManifest");
    match a {
        CommandAction::InsertManifest(k, d, Some(o)) => {
            assert_eq!(k, "Child");
            assert_eq!(d.kind(), "Child");
            assert_eq!(d.name(), &ObjectName::from("Sara"));
            assert_eq!(o, ObjectName::from("parent"));
        }
        _ => panic!("unexpected action"),
    }
}

#[test]
fn remove_action_names_its_target() {
    let a: CommandAction<u8> = CommandAction::remove("K".to_string(), ObjectName::from("x"));
    assert_eq!(a.variant_name(), "RemoveManifest");
    assert!(matches!(a, CommandAction::RemoveManifest(k, n) if k == "K" && n == ObjectName::from("x")));
}
