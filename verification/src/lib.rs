//! Resource-bundling and virtual-resolution layer for an embedded document
//! compiler: wire-format codecs for flattened resource bundles, an in-memory
//! resource store queried during compilation, and transport encoders for the
//! compiled output.

pub mod b64;
pub mod bundle;
pub mod clock;
pub mod codec;
pub mod engine;
pub mod exports;
pub mod source;
pub mod strutil;
pub mod world;
