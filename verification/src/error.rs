//! Client error taxonomy: every failure a call can surface to its caller.

use vstd::prelude::*;
use crate::rpc::RpcError;

verus! {

/// What can go wrong between building a call and obtaining its typed result.
///
/// Nothing in this pipeline retries: every failure reaches the caller as soon
/// as it is detected.
#[derive(Debug, PartialEq, Eq)]
pub enum Error {
    /// The transport failed; its own description is passed through verbatim.
    Transport(String),
    /// Inbound bytes were malformed or of an unexpected shape; carries a
    /// diagnostic description.
    InvalidResponse(String),
    /// The remote party reported a failure; code, message and data are kept
    /// unchanged.
    Rpc(RpcError),
    /// A wire value did not match the shape the requested type expects.
    Decoder(String),
    /// A state the design asserts cannot occur.
    Unreachable,
}

} // verus!
