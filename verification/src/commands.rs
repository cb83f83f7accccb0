//! The commands: loading a store into one record, saving a record into a
//! store, and listing the namespaces of a store.
//!
//! A command never touches the store itself. It is told what happened last
//! and answers with what is to be done next, until it answers with its result.
pub mod open;
pub mod save;
pub mod trees;
