//! The service browser: one browse subscription and its tracked set.
//!
//! The browser turns the responder's notifications into dispatched events
//! under a fixed decoding policy: a `New` for an unknown key creates the
//! instance and emits `InstanceAdded`; a re-delivered `New` only refreshes the
//! timestamp; a `Removed` for a tracked key deletes the instance and emits
//! `InstanceRemoved`; a `Removed` for an unknown key is a no-op; `AllForNow`
//! and `CacheExhausted` are forwarded without touching the tracked set.

use vstd::prelude::*;

use crate::connection::ConnectionState;
use crate::connection::ResponderConnection;
use crate::errors::BrowseError;
use crate::events::BrowseEvent;
use crate::events::BrowseEventModel;
use crate::events::DiscoveryEvent;
use crate::events::DiscoveryEventModel;
use crate::events::description_of;
use crate::events::opt_event_model;
use crate::keys::KeyModel;
use crate::keys::ServiceDescription;
use crate::keys::ServiceInstance;
use crate::service_type::valid_service_type;
use crate::service_type::check_service_type;

verus! {

/// How one browse notification changes the set of tracked keys.
pub open spec fn browse_step(s: Set<KeyModel>, ev: BrowseEventModel) -> Set<KeyModel> {
    match ev {
        BrowseEventModel::New { key } => s.insert(key),
        BrowseEventModel::Removed { key } => s.remove(key),
        BrowseEventModel::AllForNow => s,
        BrowseEventModel::CacheExhausted => s,
    }
}

/// What one browse notification makes the browser emit, given the tracked
/// keys at its arrival.
pub open spec fn browse_emit(s: Set<KeyModel>, ev: BrowseEventModel) -> Option<
    DiscoveryEventModel,
> {
    match ev {
        BrowseEventModel::New { key } => if s.contains(key) {
            None
        } else {
            Some(DiscoveryEventModel::InstanceAdded { key, description: description_of(key) })
        },
        BrowseEventModel::Removed { key } => if s.contains(key) {
            Some(DiscoveryEventModel::InstanceRemoved { key })
        } else {
            None
        },
        BrowseEventModel::AllForNow => Some(DiscoveryEventModel::BrowseSettled),
        BrowseEventModel::CacheExhausted => Some(DiscoveryEventModel::CacheExhausted),
    }
}

/// The tracked keys after a whole sequence of notifications, starting from an
/// empty set.
pub open spec fn tracked_after(evs: Seq<BrowseEventModel>) -> Set<KeyModel>
    decreases evs.len(),
{
    if evs.len() == 0 {
        Set::empty()
    } else {
        browse_step(tracked_after(evs.drop_last()), evs.last())
    }
}

/// Notification `i` announced key `k`.
pub open spec fn new_at(evs: Seq<BrowseEventModel>, i: int, k: KeyModel) -> bool {
    0 <= i < evs.len() && evs[i] == (BrowseEventModel::New { key: k })
}

/// Some notification after `i` removed key `k`.
pub open spec fn removed_after(evs: Seq<BrowseEventModel>, i: int, k: KeyModel) -> bool {
    exists|j: int| i < j < evs.len() && evs[j] == (BrowseEventModel::Removed { key: k })
}

/// Key `k` has a `New` more recent than any `Removed` in `evs`.
pub open spec fn live_since_new(evs: Seq<BrowseEventModel>, k: KeyModel) -> bool {
    exists|i: int| #[trigger] new_at(evs, i, k) && !removed_after(evs, i, k)
}

/// The add/remove algebra of the tracked set: after any sequence of
/// notifications the tracked keys are exactly those with a `New` more recent
/// than any subsequent `Removed`.  Duplicate `New`s and `Removed`s for
/// untracked keys change nothing.
pub proof fn lemma_tracked_set_characterization(evs: Seq<BrowseEventModel>)
    ensures
        forall|k: KeyModel| tracked_after(evs).contains(k) <==> live_since_new(evs, k),
    decreases evs.len(),
{
    if evs.len() == 0 {
        assert forall|k: KeyModel| !live_since_new(evs, k) by {
            assert(forall|i: int| !new_at(evs, i, k));
        }
    } else {
        let prefix = evs.drop_last();
        let last = evs.last();
        let n = evs.len() - 1;
        lemma_tracked_set_characterization(prefix);
        assert forall|k: KeyModel| tracked_after(evs).contains(k) <==> live_since_new(evs, k) by {
            // Liveness in the prefix carries over whenever the appended
            // notification does not remove `k`, and vice versa.
            if last != (BrowseEventModel::Removed { key: k }) {
                if live_since_new(prefix, k) {
                    let i = choose|i: int|
                        #[trigger] new_at(prefix, i, k) && !removed_after(prefix, i, k);
                    assert(evs[i] == prefix[i]);
                    assert(new_at(evs, i, k));
                    if removed_after(evs, i, k) {
                        let j = choose|j: int|
                            i < j < evs.len() && evs[j] == (BrowseEventModel::Removed { key: k });
                        assert(j < n);
                        assert(prefix[j] == evs[j]);
                        assert(removed_after(prefix, i, k));
                    }
                    assert(live_since_new(evs, k));
                }
                if live_since_new(evs, k) && evs[n] != (BrowseEventModel::New { key: k }) {
                    let i = choose|i: int| #[trigger] new_at(evs, i, k) && !removed_after(evs, i, k);
                    assert(i < n);
                    assert(prefix[i] == evs[i]);
                    assert(new_at(prefix, i, k));
                    if removed_after(prefix, i, k) {
                        let j = choose|j: int|
                            i < j < prefix.len() && prefix[j] == (BrowseEventModel::Removed {
                                key: k,
                            });
                        assert(evs[j] == prefix[j]);
                        assert(removed_after(evs, i, k));
                    }
                    assert(live_since_new(prefix, k));
                }
            }
            match last {
                BrowseEventModel::New { key } => {
                    if key == k {
                        assert(new_at(evs, n, k));
                        if removed_after(evs, n, k) {
                            let j = choose|j: int|
                                n < j < evs.len() && evs[j] == (BrowseEventModel::Removed {
                                    key: k,
                                });
                            assert(false);
                        }
                        assert(live_since_new(evs, k));
                        assert(tracked_after(evs).contains(k));
                    }
                },
                BrowseEventModel::Removed { key } => {
                    if key == k {
                        assert(!tracked_after(evs).contains(k));
                        if live_since_new(evs, k) {
                            let i = choose|i: int|
                                #[trigger] new_at(evs, i, k) && !removed_after(evs, i, k);
                            assert(i < n);
                            assert(evs[n] == (BrowseEventModel::Removed { key: k }));
                            assert(removed_after(evs, i, k));
                        }
                    } else {
                        assert(tracked_after(evs).contains(k) == tracked_after(prefix).contains(k));
                    }
                },
                BrowseEventModel::AllForNow => {},
                BrowseEventModel::CacheExhausted => {},
            }
        }
    }
}

/// One active (service type, domain) browse.
pub struct BrowseSubscription {
    pub service_type: String,
    pub domain: String,
}

/// The browser for one subscription: owns the tracked set of instances.
pub struct ServiceBrowser {
    pub subscription: BrowseSubscription,
    /// Tracked instances; at most one per key.
    pub instances: Vec<ServiceInstance>,
    /// Cleared by `unsubscribe`; no events are decoded for a dead
    /// subscription.
    pub active: bool,
}

impl ServiceBrowser {
    /// At most one tracked instance per key.
    pub open spec fn wf(&self) -> bool {
        forall|i: int, j: int|
            0 <= i < j < self.instances@.len() ==> self.instances@[i].key@ != self.instances@[j].key@
    }

    /// The key is in the tracked set.
    pub open spec fn tracks(&self, k: KeyModel) -> bool {
        exists|i: int| 0 <= i < self.instances@.len() && self.instances@[i].key@ == k
    }

    /// The tracked set, as a set of key images.
    pub open spec fn key_set(&self) -> Set<KeyModel> {
        Set::new(|k: KeyModel| self.tracks(k))
    }

    /// Registers interest in instances of `service_type` within `domain` over
    /// `conn`.  Fails synchronously, without touching the connection, when
    /// the connection is not running or the service type is malformed; the
    /// new browser starts with an empty tracked set.
    pub fn subscribe(conn: &ResponderConnection, service_type: String, domain: String) -> (r:
        Result<ServiceBrowser, BrowseError>)
        ensures
            r matches Ok(b) ==> conn.state == ConnectionState::Running && valid_service_type(
                service_type@,
            ) && b.wf() && b.active && b.instances@.len() == 0 && b.subscription.service_type@
                == service_type@ && b.subscription.domain@ == domain@,
            conn.state != ConnectionState::Running ==> (r matches Err(e) && e
                == BrowseError::ConnectionNotRunning),
            conn.state == ConnectionState::Running && !valid_service_type(service_type@) ==> (
            r matches Err(e) && e == BrowseError::MalformedServiceType),
            conn.state == ConnectionState::Running && valid_service_type(service_type@)
                ==> r is Ok,
    {
        match conn.current_state() {
            ConnectionState::Running => {},
            _ => {
                return Err(BrowseError::ConnectionNotRunning);
            },
        }
        if !check_service_type(service_type.as_str()) {
            return Err(BrowseError::MalformedServiceType);
        }
        Ok(
            ServiceBrowser {
                subscription: BrowseSubscription { service_type, domain },
                instances: Vec::new(),
                active: true,
            },
        )
    }

    /// Decodes one notification for this subscription.  The tracked set moves
    /// by `browse_step`, the returned event is `browse_emit`; a re-delivered
    /// `New` refreshes the instance's timestamp and emits nothing.
    pub fn handle_event(&mut self, ev: BrowseEvent, now: u64) -> (out: Option<DiscoveryEvent>)
        requires
            old(self).wf(),
            old(self).active,
        ensures
            final(self).wf(),
            final(self).active,
            final(self).subscription == old(self).subscription,
            final(self).key_set() == browse_step(old(self).key_set(), ev@),
            opt_event_model(out) == browse_emit(old(self).key_set(), ev@),
            match ev@ {
                BrowseEventModel::New { key } => if old(self).tracks(key) {
                    // Idempotent re-delivery: nothing observable changes but
                    // the timestamp of the re-announced instance.
                    &&& final(self).instances@.len() == old(self).instances@.len()
                    &&& forall|q: int|
                        0 <= q < old(self).instances@.len() ==> {
                            &&& (#[trigger] final(self).instances@[q]).key@
                                == old(self).instances@[q].key@
                            &&& final(self).instances@[q].stale == old(self).instances@[q].stale
                            &&& final(self).instances@[q].discovered_at == (
                            if old(self).instances@[q].key@ == key {
                                now
                            } else {
                                old(self).instances@[q].discovered_at
                            })
                        }
                } else {
                    &&& final(self).instances@.len() == old(self).instances@.len() + 1
                    &&& forall|q: int|
                        0 <= q < old(self).instances@.len()
                            ==> #[trigger] final(self).instances@[q] == old(self).instances@[q]
                    &&& final(self).instances@.last().key@ == key
                    &&& final(self).instances@.last().discovered_at == now
                    &&& !final(self).instances@.last().stale
                },
                BrowseEventModel::Removed { key } => if old(self).tracks(key) {
                    final(self).instances@.len() == old(self).instances@.len() - 1
                } else {
                    final(self).instances == old(self).instances
                },
                BrowseEventModel::AllForNow => final(self).instances == old(self).instances,
                BrowseEventModel::CacheExhausted => final(self).instances == old(self).instances,
            },
    {
        let result = match ev {
            BrowseEvent::New { key } => {
                let mut found: Option<usize> = None;
                let mut i: usize = 0;
                while i < self.instances.len()
                    invariant
                        0 <= i <= self.instances@.len(),
                        match found {
                            Some(p) => 0 <= p < i && self.instances@[p as int].key@ == key@,
                            None => forall|q: int| 0 <= q < i ==> self.instances@[q].key@ != key@,
                        },
                    decreases self.instances@.len() - i,
                {
                    if self.instances[i].key.key_eq(&key) {
                        found = Some(i);
                    }
                    i += 1;
                }
                match found {
                    Some(p) => {
                        // Idempotent re-delivery: refresh the timestamp only.
                        let ghost pre = self.instances@;
                        let mut instance = self.instances.remove(p);
                        instance.discovered_at = now;
                        self.instances.insert(p, instance);
                        proof {
                            assert(self.instances@.len() == pre.len());
                            assert(forall|q: int|
                                0 <= q < pre.len() ==> self.instances@[q].key@ == pre[q].key@);
                            assert(old(self).tracks(key@));
                            assert forall|k: KeyModel| self.tracks(k) == old(self).tracks(k) by {
                                if self.tracks(k) {
                                    let q = choose|q: int|
                                        0 <= q < self.instances@.len() && self.instances@[q].key@ == k;
                                    assert(pre[q].key@ == k);
                                }
                                if old(self).tracks(k) {
                                    let q = choose|q: int| 0 <= q < pre.len() && pre[q].key@ == k;
                                    assert(self.instances@[q].key@ == k);
                                }
                            }
                            assert(self.key_set() =~= browse_step(old(self).key_set(), ev@));
                        }
                        None
                    },
                    None => {
                        let ghost pre = self.instances@;
                        let description = ServiceDescription::new(
                            key.name.clone(),
                            key.service_type.clone(),
                            key.domain.clone(),
                        );
                        let emitted_key = key.duplicate();
                        self.instances.push(
                            ServiceInstance { key, discovered_at: now, stale: false },
                        );
                        proof {
                            assert(!old(self).tracks(emitted_key@));
                            assert forall|k: KeyModel|
                                self.tracks(k) == (old(self).tracks(k) || k == emitted_key@) by {
                                if self.tracks(k) {
                                    let q = choose|q: int|
                                        0 <= q < self.instances@.len() && self.instances@[q].key@ == k;
                                    if q < pre.len() {
                                        assert(pre[q].key@ == k);
                                    }
                                }
                                if old(self).tracks(k) {
                                    let q = choose|q: int| 0 <= q < pre.len() && pre[q].key@ == k;
                                    assert(self.instances@[q].key@ == k);
                                }
                                if k == emitted_key@ {
                                    assert(self.instances@.last().key@ == k);
                                }
                            }
                            assert(self.key_set() =~= browse_step(old(self).key_set(), ev@));
                        }
                        Some(DiscoveryEvent::InstanceAdded { key: emitted_key, description })
                    },
                }
            },
            BrowseEvent::Removed { key } => {
                let mut found: Option<usize> = None;
                let mut i: usize = 0;
                while i < self.instances.len()
                    invariant
                        0 <= i <= self.instances@.len(),
                        match found {
                            Some(p) => 0 <= p < i && self.instances@[p as int].key@ == key@,
                            None => forall|q: int| 0 <= q < i ==> self.instances@[q].key@ != key@,
                        },
                    decreases self.instances@.len() - i,
                {
                    if self.instances[i].key.key_eq(&key) {
                        found = Some(i);
                    }
                    i += 1;
                }
                match found {
                    Some(p) => {
                        let ghost pre = self.instances@;
                        let _removed = self.instances.remove(p);
                        proof {
                            assert(old(self).tracks(key@));
                            assert forall|k: KeyModel|
                                self.tracks(k) == (old(self).tracks(k) && k != key@) by {
                                if self.tracks(k) {
                                    let q = choose|q: int|
                                        0 <= q < self.instances@.len() && self.instances@[q].key@ == k;
                                    if q < p {
                                        assert(pre[q].key@ == k);
                                        assert(pre[p as int].key@ != k);
                                    } else {
                                        assert(pre[q + 1].key@ == k);
                                        assert(pre[p as int].key@ != k);
                                    }
                                }
                                if old(self).tracks(k) && k != key@ {
                                    let q = choose|q: int| 0 <= q < pre.len() && pre[q].key@ == k;
                                    assert(q != p);
                                    if q < p {
                                        assert(self.instances@[q].key@ == k);
                                    } else {
                                        assert(self.instances@[q - 1].key@ == k);
                                    }
                                }
                            }
                            assert(self.key_set() =~= browse_step(old(self).key_set(), ev@));
                        }
                        Some(DiscoveryEvent::InstanceRemoved { key })
                    },
                    None => {
                        // Removal of an unknown key: a no-op by policy.
                        proof {
                            assert(!old(self).tracks(key@));
                            assert(self.key_set() =~= browse_step(old(self).key_set(), ev@));
                        }
                        None
                    },
                }
            },
            BrowseEvent::AllForNow => {
                proof {
                    assert(self.key_set() =~= browse_step(old(self).key_set(), ev@));
                }
                Some(DiscoveryEvent::BrowseSettled)
            },
            BrowseEvent::CacheExhausted => {
                proof {
                    assert(self.key_set() =~= browse_step(old(self).key_set(), ev@));
                }
                Some(DiscoveryEvent::CacheExhausted)
            },
        };
        result
    }

    /// Stops further events for this subscription; safe to call however the
    /// connection ended, and idempotent.
    pub fn unsubscribe(&mut self)
        ensures
            !final(self).active,
            final(self).instances == old(self).instances,
            final(self).subscription == old(self).subscription,
    {
        self.active = false;
    }
}

} // verus!
