//! Client-side service discovery over multicast DNS (DNS-SD).
//!
//! The crate models the discovery client's runtime: the state machine of the
//! connection to the local responder, the browse subscription with its tracked
//! set of service instances, the per-instance resolver with coalesced in-flight
//! requests, and the single-threaded session loop that turns decoded responder
//! events into dispatched discovery events.  All decision logic is verified;
//! the transport to the responder process is left to the embedding program,
//! which feeds decoded events in and performs I/O outside this crate.

pub mod browser;
pub mod connection;
pub mod errors;
pub mod events;
pub mod keys;
pub mod manager;
pub mod resolver;
pub mod service_type;
