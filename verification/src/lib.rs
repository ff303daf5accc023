//! A verified core for a small RESP-style key-value server.
//!
//! The crate decodes protocol frames incrementally from a byte buffer
//! (zero-copy, as offset pairs into the buffer), materializes decoded
//! frames into owned values, interprets a materialized frame as a command
//! against a key-value table, and serializes the typed results back to
//! wire format.  Every step is specified against a mathematical model of
//! the wire protocol and proved to follow it.
pub mod bufview;
pub mod num;
pub mod types;
pub mod redis;
pub mod table;
pub mod command;
pub mod props;
