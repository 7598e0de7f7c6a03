//! Core types for declaring the wire contract of Matrix-style HTTP API
//! endpoints and for converting between typed request/response values and
//! raw HTTP messages.
//!
//! An endpoint is described by a [`Metadata`](metadata::Metadata) value (HTTP
//! method and URL path template) together with a [`Schema`](schema::Schema):
//! a declarative table assigning each field of the request or response a
//! placement on the wire (path segment, query string, header, or body).
//! The generic codec in [`codec`] encodes a typed value into a wire message
//! and decodes a wire message back, in both the client and the server
//! direction, and the types in [`error`] classify every way a conversion can
//! fail, including application-level rejections reported by a server.

use vstd::prelude::*;

pub mod codec;
pub mod error;
pub mod json;
pub mod metadata;
pub mod pct;
pub mod query;
pub mod schema;
pub mod strings;
pub mod wire;

verus! {

/// A type that can be sent to another party speaking the Matrix protocol.
///
/// The associated type names the "receiving" shape used when decoding: a
/// possibly different type that tolerates wire values this schema version
/// does not know about. For plain data the receiving shape is the type
/// itself.
pub trait Outgoing {
    /// The 'Incoming' variant of `Self`.
    type Incoming;
}

} // verus!
