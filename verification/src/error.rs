//! Error kinds surfaced by the client library, the store backends and
//! the session engine.

use vstd::prelude::*;

verus! {

/// Errors surfaced by the client library.
#[derive(Debug, Clone, PartialEq, Eq)]
pub enum YakError {
    /// The bootstrap location string did not parse as a URL.
    UrlParseError,
    /// The URL parsed but lacks a host, a port or a path.
    InvalidUrl,
    /// A transport failure: connect, read, write or flush.
    IoError,
    /// A frame failed to decode, or carried an unknown tag.
    CodecError,
    /// A structurally valid message arrived where it was not expected.
    ProtocolError,
}

/// A backend-specific store failure, wrapped opaquely for callers.
#[derive(Debug, Clone, PartialEq, Eq)]
pub struct StoreError {
    pub message: String,
}

impl StoreError {
    pub fn new(message: String) -> (r: StoreError)
        ensures
            r.message == message,
    {
        StoreError { message }
    }
}

/// Errors that terminate a server-side session.
#[derive(Debug, Clone, PartialEq, Eq)]
pub enum ServerError {
    /// A transport failure on the inbound connection.
    IoError,
    /// An inbound frame failed to decode.
    CodecError,
    /// A failure wrapping a call to the downstream node.
    DownstreamError(YakError),
    /// A failure reported by the store backend.
    StoreError(StoreError),
}

} // verus!
