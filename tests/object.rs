use gusto::{DynObjectManifest, EngineError, ObjectDefinition, ObjectManifest, ObjectName};

struct Foo;

impl ObjectDefinition for Foo {
    fn kind() -> String {
        "Foo".to_string()
    }
}

#[derive(Clone, Debug, PartialEq)]
struct FooProps {
    foo: bool,
}

#[test]
fn erased_manifest_recovers_as_its_own_kind() {
    let m = ObjectManifest::new(ObjectName::from("x"), FooProps { foo: true });
    let d = DynObjectManifest::new("Foo".to_string(), m.clone());
    assert_eq!(d.kind(), "Foo");
    assert_eq!(d.name(), &ObjectName::from("x"));
    let back = d.as_manifest(&"Foo".to_string()).unwrap();
    assert_eq!(back.name(), m.name());
    assert_eq!(back.props, m.props);
}

#[test]
fn erased_manifest_refuses_another_kind() {
    let m = ObjectManifest::new(ObjectName::from("x"), FooProps { foo: true });
    let d = DynObjectManifest::new("Foo".to_string(), m);
    match d.as_manifest(&"Bar".to_string()) {
        Err(EngineError::KindMismatch { expected, found }) => {
            assert_eq!(expected, "Bar");
            assert_eq!(found, "Foo");
        }
        other => panic!("unexpected: {:?}", other),
    }
}

#[test]
fn manifest_tagged_by_definition_kind() {
    let m = ObjectManifest::new(ObjectName::from("y"), FooProps { foo: false });
    let d = DynObjectManifest::of::<Foo>(m);
    assert_eq!(d.kind(), "Foo");
    let back = d.as_manifest(&Foo::kind()).unwrap();
    assert_eq!(back.props, FooProps { foo: false });
}

#[test]
fn object_name_conversions() {
    let a = ObjectName::from("abc");
    let b = ObjectName::from("abc".to_string());
    let c = ObjectName::new("abd".to_string());
    assert_eq!(a, b);
    assert!(a.same(&b));
    assert!(!a.same(&c));
    assert!(a < c);
    assert_eq!(a.to_string(), "abc");
    assert_eq!(a.as_string(), "abc");
}
