//! Storage for a two-level data model: namespaces hold named objects, and each
//! object is a key/value container of byte rows. The backend keeps each
//! namespace in a sled database and each object in one of its keyspaces.
pub mod backend;
pub mod engine;
pub mod error;
pub mod keyed;
pub mod laws;

pub use backend::{BackendStorage, Key, ReadCursor, Row, SledBackendStorage, Values};
pub use engine::EngineError;
pub use error::{
    map_engine_error, CreateObjectError, DropObjectError, ErrorCause, NamespaceAlreadyExists, StorageErrorMapper,
    NamespaceDoesNotExist, OperationOnObjectError, SledErrorMapper, SystemError, SystemErrorKind,
    SystemResult,
};
