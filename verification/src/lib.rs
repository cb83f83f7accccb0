//! Structured records in an ordered byte-keyed store: the transcoding between
//! structured values, documents and stored bytes, and the commands that load a
//! store into one record and save one record into a store.
pub mod codec;
pub mod commands;
pub mod document;
pub mod entries;
pub mod error;
pub mod plugin;
pub mod store;
pub mod text;
pub mod transcode;
pub mod value;
