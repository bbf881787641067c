//! An in-memory key/value server core speaking RESP2: codec, keyspace,
//! eviction, active expiration and the command dispatcher.

pub mod number;
pub mod resp;
pub mod codec_laws;
pub mod object_type_encoding;
pub mod stats;
pub mod store;
pub mod eviction;
pub mod io_multiplexer;
pub mod active_expiration;
pub mod client;
pub mod cmd;
