//! The error kinds the core recognizes and hands to its callers.

use vstd::prelude::*;

verus! {

/// What went wrong, as the propagation policy distinguishes it.
#[derive(Clone, Copy, Debug, PartialEq, Eq, Structural)]
pub enum ProxyError {
    /// Malformed first line, or a missing or empty Host header.
    InvalidRequest,
    /// Resolution or connect failed for every destination candidate.
    Unreachable,
    /// Read or write failure on an established tunnel.
    UpstreamIo,
    /// The blacklist file was missing at startup in FILE mode.
    BlacklistIo,
    /// The listener could not bind.
    BindFailure,
}

} // verus!
