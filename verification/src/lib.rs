//! Incremental decoder for multipart bodies.
//!
//! The decoder splits a multipart byte stream, delivered as arbitrarily
//! chunked input, into its parts: each part carries header metadata and a
//! body byte sequence.  Input enters through `feed`, parts and body bytes
//! leave through pull operations, so the engine is a pure transducer with
//! no I/O of its own.

pub mod boundary;
pub mod chunk;
pub mod disposition;
pub mod errors;
pub mod headers;
pub mod laws;
pub mod parser;
pub mod part;
pub mod scan;
