//! A schema-driven XML data binder.
//!
//! Record types are described by immutable `Schema` values: a tag name, a
//! leaf flag, and an ordered list of field roles (attribute, text, flattened
//! text, single child, repeated children).  A single generic reader and
//! writer interpret a schema to turn a stream of XML tokens into a `Record`
//! and back.  Tagged unions dispatch on the peeked tag name.

pub mod error;
pub mod token;
pub mod scalar;
pub mod schema;
pub mod value;
pub mod writer;
pub mod reader;
pub mod text;
pub mod union;
pub mod records;
pub mod laws;
