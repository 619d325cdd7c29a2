use vstd::prelude::*;

use crate::error::EngineError;
use crate::object::{DynObjectManifest, ObjectKind, ObjectManifest, ObjectName};

verus! {

/// A mutation request, tagged with the kind it targets.
pub enum CommandAction<P> {
    /// Insert a manifest of the kind, owned by the named object when one is given.
    InsertManifest(ObjectKind, DynObjectManifest<P>, Option<ObjectName>),
    /// Remove the named object of the kind, and what it owns.
    RemoveManifest(ObjectKind, ObjectName),
}

impl<P> CommandAction<P> {
    /// The name of the variant.
    pub fn variant_name(&self) -> (r: &'static str)
        ensures
            self is InsertManifest ==> r@ == "InsertManifest"@,
            self is RemoveManifest ==> r@ == "RemoveManifest"@,
    {
        match self {
            CommandAction::InsertManifest(_, _, _) => "InsertManifest",
            CommandAction::RemoveManifest(_, _) => "RemoveManifest",
        }
    }

    /// Insert `manifest` as an object of kind `kind`.
    pub fn insert(kind: ObjectKind, manifest: ObjectManifest<P>) -> (r: Self)
        ensures
            r matches CommandAction::InsertManifest(k, d, owner) && k == kind && owner is None
                && d.spec_kind() == kind@ && d.spec_manifest() == manifest,
    {
        let tag = kind.clone();
        CommandAction::InsertManifest(kind, DynObjectManifest::new(tag, manifest), None)
    }

    /// Insert `manifest` as an object of kind `kind`, owned by `owner`; an
    /// object cannot own itself.
    pub fn insert_owned(kind: ObjectKind, owner: ObjectName, manifest: ObjectManifest<P>) -> (r: Result<Self, EngineError>)
        ensures
            r is Ok <==> owner@ != manifest.meta.name@,
            r matches Ok(a) ==> (a matches CommandAction::InsertManifest(k, d, o) && k == kind
                && o == Some(owner) && d.spec_kind() == kind@ && d.spec_manifest() == manifest),
            r matches Err(e) ==> (e matches EngineError::SelfOwnership(n) && n == owner),
    {
        if owner.same(&manifest.meta.name) {
            return Err(EngineError::SelfOwnership(owner));
        }
        let tag = kind.clone();
        Ok(CommandAction::InsertManifest(kind, DynObjectManifest::new(tag, manifest), Some(owner)))
    }

    /// Remove the object named `name` of kind `kind`.
    pub fn remove(kind: ObjectKind, name: ObjectName) -> (r: Self)
        ensures
            r matches CommandAction::RemoveManifest(k, n) && k == kind && n == name,
    {
        CommandAction::RemoveManifest(kind, name)
    }
}

} // verus!
