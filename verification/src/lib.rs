//! A verified core for a desktop clipboard history recorder.
//!
//! The library covers the logic of the recorder: the change-detection and
//! deduplication policy of the monitor loop, the JSON document format in
//! which a history is persisted, and the query and wipe operations over a
//! store.  Reading the operating-system clipboard, the filesystem and the
//! user interface live outside the library and hand it plain values.

pub mod codec;
pub mod entry;
pub mod json;
pub mod monitor;
pub mod roundtrip;
pub mod store;
