//! Decoder core for an Android-style compiled-bytecode archive: a shareable
//! byte source, fixed-layout id-table record readers, a delta-compressed
//! variable-length array decoder, and resolution of encoded field and method
//! records into fully materialized entities.

pub mod dex;
pub mod encoded_item;
pub mod error;
pub mod field;
pub mod jtype;
pub mod method;
pub mod raw;
pub mod source;
pub mod uleb;
