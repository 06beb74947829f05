//! Verified core of a Kanban board: boards contain ordered columns, columns
//! contain ordered tasks. The store is a flat relational model with unique
//! ids, referential integrity and cascading deletes; every command validates
//! its input, applies field-presence update semantics and returns a typed
//! error when it cannot succeed.

pub mod board;
pub mod column;
pub mod dates;
pub mod db;
pub mod laws;
pub mod model;
pub mod store;
pub mod task;
