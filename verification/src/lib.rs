//! A byte buffer with independent read and write cursors over a pluggable
//! storage backend, and a typed codec on top of it: fixed-width little-endian
//! integers, booleans, strings, and LEB128-style variable-length integers of
//! arbitrary precision.
//!
//! Every executable function carries a contract over [`store::Store`], the
//! mathematical model of what a backend holds, and is proved against it.

pub mod backend_mem;
pub mod bigint;
pub mod bits;
pub mod buffer;
pub mod laws;
pub mod store;
pub mod text;
mod varint;
pub mod wire;
