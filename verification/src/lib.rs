//! Reconstruction of Thrift RPC messages from raw TCP payload bytes.
//!
//! Given a byte buffer captured on a network link, the library determines
//! which wire encoding is in use (Binary, Compact, or Binary wrapped in a
//! THeader transport envelope), strips any transport framing, and decodes
//! the message envelope (kind, method name, sequence id) together with its
//! fields, including nested structs, lists, sets and maps. Every read is
//! bounds-checked: malformed or truncated input yields a typed error, never
//! a panic.

pub mod cursor;
pub mod detect;
pub mod errors;
pub mod message;
pub mod service;
pub mod theader;
pub mod value;
pub mod varint;
