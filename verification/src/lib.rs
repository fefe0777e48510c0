//! Structured JSON logging core: a call-site registry with duplicate-field
//! masks, per-span field stores, field-to-JSON coercion, an extract buffer,
//! and an event formatter that assembles one JSON line per event.
//!
//! The companion storage-index module tracks layer-file metadata for a
//! remote-storage index.


pub mod callsite;
pub mod ext;
pub mod extract;
pub mod spanfields;
pub mod fields;
pub mod format;
pub mod index;
pub mod json;
pub mod laws;
pub mod routes;
pub mod timefmt;
pub mod visitors;

