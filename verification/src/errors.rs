//! Error taxonomy of the discovery client.
//!
//! Connection-level failures are fatal for the connection they concern and
//! propagate to the caller of `open`/`discover_services`; browse failures are
//! synchronous and non-fatal; resolution failures are reported per request
//! through the event channel and never terminate the session.

use vstd::prelude::*;

verus! {

/// Handshake or transport failure: fatal for this connection attempt.
/// Carries the human-readable diagnostic sourced from the responder.
#[derive(Debug)]
pub struct ConnectionError {
    pub reason: String,
}

/// A browse subscription was rejected; the connection is unaffected.
#[derive(Clone, Copy, PartialEq, Eq, Structural, Debug)]
pub enum BrowseError {
    /// The service type does not follow the `_name._tcp` / `_name._udp` shape.
    MalformedServiceType,
    /// The connection was not in the `Running` state.
    ConnectionNotRunning,
}

/// Per-instance resolution failure, reported through the dispatcher.
#[derive(Clone, Copy, PartialEq, Eq, Structural, Debug)]
pub enum ResolveError {
    /// The advisory timeout for the request fired before a result arrived.
    Timeout,
    /// The responder knows no such instance.
    NotFound,
    /// The instance was removed while the resolution was outstanding.
    InstanceGone,
    /// The request could not be carried over the connection.
    Transport,
}

/// What a failed discovery session reports to its caller.
#[derive(Debug)]
pub enum DiscoveryError {
    Connection(ConnectionError),
    Browse(BrowseError),
}

} // verus!
