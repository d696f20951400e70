//! Typed events on both sides of the session loop.
//!
//! A `BrowseEvent` is one decoded notification of the responder for a browse
//! subscription.  A `DiscoveryEvent` is what the dispatcher hands to the
//! user-supplied handler: instance arrivals and departures, settle signals,
//! and resolution completions.

use vstd::prelude::*;

use crate::errors::ResolveError;
use crate::keys::KeyModel;
use crate::keys::ResolvedModel;
use crate::keys::ResolvedService;
use crate::keys::ServiceDescription;
use crate::keys::ServiceKey;

verus! {

/// Mathematical image of a `ServiceDescription`.
pub ghost struct DescriptionModel {
    pub name: Seq<char>,
    pub service_type: Seq<char>,
    pub domain: Seq<char>,
}

impl View for ServiceDescription {
    type V = DescriptionModel;

    open spec fn view(&self) -> DescriptionModel {
        DescriptionModel { name: self.name@, service_type: self.service_type@, domain: self.domain@ }
    }
}

/// The raw triple a key's name, type and domain components form.
pub open spec fn description_of(k: KeyModel) -> DescriptionModel {
    DescriptionModel { name: k.name, service_type: k.service_type, domain: k.domain }
}

/// One decoded browse notification from the responder, as a closed
/// tagged-variant type.
pub enum BrowseEvent {
    /// An instance was first seen, or re-announced.
    New { key: ServiceKey },
    /// An instance is no longer present.
    Removed { key: ServiceKey },
    /// End of the initial burst for this subscription: a settle signal, which
    /// may recur after a responder-side cache restart.
    AllForNow,
    /// The responder's cache holds no further records; informational.
    CacheExhausted,
}

/// Mathematical image of a `BrowseEvent`.
pub ghost enum BrowseEventModel {
    New { key: KeyModel },
    Removed { key: KeyModel },
    AllForNow,
    CacheExhausted,
}

impl View for BrowseEvent {
    type V = BrowseEventModel;

    open spec fn view(&self) -> BrowseEventModel {
        match self {
            BrowseEvent::New { key } => BrowseEventModel::New { key: key@ },
            BrowseEvent::Removed { key } => BrowseEventModel::Removed { key: key@ },
            BrowseEvent::AllForNow => BrowseEventModel::AllForNow,
            BrowseEvent::CacheExhausted => BrowseEventModel::CacheExhausted,
        }
    }
}

/// One event dispatched to the user handler.
pub enum DiscoveryEvent {
    /// A new instance entered the tracked set; carries the raw fields of the
    /// notification beside the composite key.
    InstanceAdded { key: ServiceKey, description: ServiceDescription },
    /// A tracked instance left the tracked set.
    InstanceRemoved { key: ServiceKey },
    /// The subscription's initial burst settled (`AllForNow` forwarded).
    BrowseSettled,
    /// The responder reported cache exhaustion (forwarded as-is).
    CacheExhausted,
    /// An outstanding resolution completed, successfully or not.
    ResolveCompleted { key: ServiceKey, outcome: Result<ResolvedService, ResolveError> },
}

/// Mathematical image of a `DiscoveryEvent`.
pub ghost enum DiscoveryEventModel {
    InstanceAdded { key: KeyModel, description: DescriptionModel },
    InstanceRemoved { key: KeyModel },
    BrowseSettled,
    CacheExhausted,
    ResolveCompleted { key: KeyModel, outcome: Result<ResolvedModel, ResolveError> },
}

impl View for DiscoveryEvent {
    type V = DiscoveryEventModel;

    open spec fn view(&self) -> DiscoveryEventModel {
        match self {
            DiscoveryEvent::InstanceAdded { key, description } => DiscoveryEventModel::InstanceAdded {
                key: key@,
                description: description@,
            },
            DiscoveryEvent::InstanceRemoved { key } => DiscoveryEventModel::InstanceRemoved {
                key: key@,
            },
            DiscoveryEvent::BrowseSettled => DiscoveryEventModel::BrowseSettled,
            DiscoveryEvent::CacheExhausted => DiscoveryEventModel::CacheExhausted,
            DiscoveryEvent::ResolveCompleted { key, outcome } => DiscoveryEventModel::ResolveCompleted {
                key: key@,
                outcome: match outcome {
                    Ok(r) => Ok(r@),
                    Err(e) => Err(*e),
                },
            },
        }
    }
}

/// The image of an optional dispatched event.
pub open spec fn opt_event_model(o: Option<DiscoveryEvent>) -> Option<DiscoveryEventModel> {
    match o {
        Some(e) => Some(e@),
        None => None,
    }
}

/// An optional emitted event as a sequence of zero or one events.
pub open spec fn opt_to_seq(o: Option<DiscoveryEventModel>) -> Seq<DiscoveryEventModel> {
    match o {
        Some(e) => seq![e],
        None => Seq::empty(),
    }
}

} // verus!
