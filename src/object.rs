use vstd::prelude::*;

use crate::error::EngineError;

verus! {

/// Anything that may cross task boundaries.
pub trait Safe: Send + Sync + 'static {}

impl<T: Send + Sync + 'static> Safe for T {}

/// The desired-state schema of a kind: duplicable by value.
pub trait Props: Clone + Safe {}

impl<T: Clone + Safe> Props for T {}

/// The runtime-state schema of a kind.
pub trait State: Safe {}

impl<T: Safe> State for T {}

/// A kind of object: its stable tag routes commands to its store.
pub trait ObjectDefinition: Safe {
    fn kind() -> String;
}

/// The tag of a kind.
pub type ObjectKind = String;

/// The name of an object, unique within its kind.
#[derive(Debug, PartialEq, Eq, PartialOrd, Ord, Hash)]
pub struct ObjectName(String);

impl ObjectName {
    pub closed spec fn view(&self) -> Seq<char> {
        self.0@
    }

    pub fn new(s: String) -> (r: Self)
        ensures
            r@ == s@,
    {
        ObjectName(s)
    }

    pub fn as_string(&self) -> (r: &String)
        ensures
            r@ == self@,
    {
        &self.0
    }

    /// The name as an owned string.
    pub fn to_string(&self) -> (r: String)
        ensures
            r@ == self@,
    {
        self.0.clone()
    }

    pub fn same(&self, other: &ObjectName) -> (r: bool)
        ensures
            r == (self@ == other@),
    {
        self.0.eq(&other.0)
    }
}

impl Clone for ObjectName {
    fn clone(&self) -> (r: Self)
        ensures
            r == *self,
    {
        ObjectName(self.0.clone())
    }
}

impl From<String> for ObjectName {
    fn from(s: String) -> (r: Self) {
        ObjectName(s)
    }
}

impl vstd::std_specs::convert::FromSpecImpl<String> for ObjectName {
    open spec fn obeys_from_spec() -> bool {
        true
    }

    closed spec fn from_spec(s: String) -> ObjectName {
        ObjectName(s)
    }
}

impl From<&str> for ObjectName {
    fn from(s: &str) -> (r: Self) {
        ObjectName(s.to_owned())
    }
}

impl vstd::std_specs::convert::FromSpecImpl<&str> for ObjectName {
    open spec fn obeys_from_spec() -> bool {
        false
    }

    open spec fn from_spec(s: &str) -> ObjectName {
        arbitrary()
    }
}

/// Identifying metadata of a manifest.
#[derive(Debug)]
pub struct ObjectMeta {
    pub name: ObjectName,
}

impl Clone for ObjectMeta {
    fn clone(&self) -> (r: Self)
        ensures
            r == *self,
    {
        ObjectMeta { name: self.name.clone() }
    }
}

/// The desired state of one object: its metadata and its kind's props.
#[derive(Debug)]
pub struct ObjectManifest<P> {
    pub meta: ObjectMeta,
    pub props: P,
}

impl<P> ObjectManifest<P> {
    pub fn new(name: ObjectName, props: P) -> (r: Self)
        ensures
            r.meta.name == name,
            r.props == props,
    {
        ObjectManifest { meta: ObjectMeta { name }, props }
    }

    pub fn name(&self) -> (r: &ObjectName)
        ensures
            *r == self.meta.name,
    {
        &self.meta.name
    }
}

impl<P: Clone> ObjectManifest<P> {
    /// `b` is a copy of `a`: the same metadata, and props that `P::clone` could give.
    pub open spec fn copy_of(a: Self, b: Self) -> bool {
        &&& b.meta == a.meta
        &&& cloned(a.props, b.props)
    }

    pub fn duplicate(&self) -> (r: Self)
        ensures
            Self::copy_of(*self, r),
    {
        ObjectManifest { meta: self.meta.clone(), props: self.props.clone() }
    }
}

impl<P: Clone> Clone for ObjectManifest<P> {
    fn clone(&self) -> (r: Self)
        ensures
            Self::copy_of(*self, r),
    {
        self.duplicate()
    }
}

/// Access to the name of a manifest, whatever its kind.
pub trait AnyObjectManifest {
    fn manifest_name(&self) -> &ObjectName;
}

impl<P> AnyObjectManifest for ObjectManifest<P> {
    fn manifest_name(&self) -> &ObjectName {
        &self.meta.name
    }
}

/// A manifest with its kind tag, as it crosses the command boundary; it is
/// recovered as a manifest of one kind only.
#[derive(Debug)]
pub struct DynObjectManifest<P> {
    kind: ObjectKind,
    manifest: ObjectManifest<P>,
}

impl<P> DynObjectManifest<P> {
    pub closed spec fn spec_kind(&self) -> Seq<char> {
        self.kind@
    }

    pub closed spec fn spec_manifest(&self) -> ObjectManifest<P> {
        self.manifest
    }

    /// The manifest that recovering `self` as kind `kind` gives, if any.
    pub open spec fn recover(self, kind: Seq<char>) -> Option<ObjectManifest<P>> {
        if self.spec_kind() == kind {
            Some(self.spec_manifest())
        } else {
            None
        }
    }

    pub fn new(kind: ObjectKind, manifest: ObjectManifest<P>) -> (r: Self)
        ensures
            r.spec_kind() == kind@,
            r.spec_manifest() == manifest,
    {
        DynObjectManifest { kind, manifest }
    }

    /// Tags `manifest` with the kind of `O`.
    pub fn of<O: ObjectDefinition>(manifest: ObjectManifest<P>) -> (r: Self)
        ensures
            r.spec_manifest() == manifest,
    {
        DynObjectManifest { kind: O::kind(), manifest }
    }

    pub fn kind(&self) -> (r: &ObjectKind)
        ensures
            r@ == self.spec_kind(),
    {
        &self.kind
    }

    pub fn name(&self) -> (r: &ObjectName)
        ensures
            *r == self.spec_manifest().meta.name,
    {
        &self.manifest.meta.name
    }

    /// Recovers the manifest as one of kind `kind`; any other kind is refused.
    pub fn as_manifest(self, kind: &ObjectKind) -> (r: Result<ObjectManifest<P>, EngineError>)
        ensures
            r is Ok <==> self.recover(kind@) is Some,
            r matches Ok(m) ==> self.recover(kind@) == Some(m),
            r matches Err(e) ==> (e matches EngineError::KindMismatch { expected, found }
                && expected@ == kind@ && found@ == self.spec_kind()),
    {
        if self.kind.eq(kind) {
            Ok(self.manifest)
        } else {
            Err(EngineError::KindMismatch { expected: kind.clone(), found: self.kind })
        }
    }
}

impl<P> AnyObjectManifest for DynObjectManifest<P> {
    fn manifest_name(&self) -> &ObjectName {
        &self.manifest.meta.name
    }
}

/// Recovering a tagged manifest as its own kind gives back, by value, the
/// manifest that was tagged; recovering it as any other kind gives nothing.
pub proof fn lemma_erase_recover<P>(kind: Seq<char>, other: Seq<char>, m: ObjectManifest<P>, d: DynObjectManifest<P>)
    requires
        d.spec_kind() == kind,
        d.spec_manifest() == m,
        other != kind,
    ensures
        d.recover(kind) == Some(m),
        d.recover(other) is None,
{
}

} // verus!
