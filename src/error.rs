use vstd::prelude::*;

use crate::object::ObjectName;

verus! {

/// Why a mutation, a lookup or the handling of an event failed.
#[derive(Debug)]
pub enum EngineError {
    /// An object was asked to own itself.
    SelfOwnership(ObjectName),
    /// The owner already owns an object of that kind and name.
    AlreadyOwned(ObjectName),
    /// No store was registered for the kind.
    UnknownKind(String),
    /// A type-erased manifest was recovered as a kind other than its own.
    KindMismatch { expected: String, found: String },
    /// A patch named an object that the store does not hold.
    NotFound(ObjectName),
    /// An update or a removal named an object that the operator does not manage.
    NoObject(ObjectName),
    /// A controller hook failed.
    HookFailed,
    /// The operator was handed an event that it was not waiting for.
    OutOfOrder,
}

} // verus!
