//! A key-value persistence adapter over an embedded SQL engine.
//!
//! Entities — values with a unique identifier and a textual encoding — are
//! stored as rows of a two-column table `data(key TEXT PRIMARY KEY, value TEXT)`.
//! The adapter offers upsert, point lookup, paginated scan and delete, and a
//! closed set of error kinds. Its behaviour is specified against a ghost model
//! of the table: an ordered sequence of `(key, value)` rows with distinct keys.

pub mod engine;
pub mod entity;
pub mod laws;
pub mod model;
pub mod my_data;
pub mod numeral;
pub mod storage;

pub use entity::CodecFault;
pub use entity::Entity;
pub use entity::Key;
pub use my_data::MyData;
pub use storage::StorageError;
pub use storage::SqliteStorage;
