//! An in-memory key/value form editor: scratch buffers for the key and value
//! being typed, an append-only list of committed pairs, and a verified JSON
//! export of that list.

pub mod form;
pub mod json;
pub mod roundtrip;
