//! An in-process declarative reconciliation engine: typed object kinds,
//! per-kind stores that classify mutations, an ownership index for cascading
//! removal, and the per-object scheduling rules of reconciliation.

pub mod command;
pub mod engine;
pub mod error;
pub mod object;
pub mod operator;
pub mod ownership;
pub mod store;
pub mod table;

pub use command::CommandAction;
pub use engine::Engine;
pub use error::EngineError;
pub use object::{
    AnyObjectManifest, DynObjectManifest, ObjectDefinition, ObjectKind, ObjectManifest,
    ObjectMeta, ObjectName, Props, Safe, State,
};
pub use operator::{
    Object, ObjectId, Objects, Operator, OperatorAction, OperatorEvent, Phase, Reconciler,
};
pub use ownership::{Owned, Owners};
pub use store::{Change, Store, StoreEvent};
pub use table::NameMap;
