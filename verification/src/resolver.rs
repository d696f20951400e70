//! The resolver: bounded in-flight resolution requests, one per key.
//!
//! A resolution request for a key already in flight is coalesced: no second
//! wire request is issued, and the one eventual completion answers every
//! requester.  When a tracked instance vanishes while its resolution is
//! outstanding, the request is cancelled and completes with
//! `ResolveError::InstanceGone`; a responder result arriving for a key no
//! longer pending is dropped, so no stale `ResolvedService` is ever
//! delivered.

use vstd::prelude::*;

use crate::errors::ResolveError;
use crate::events::DiscoveryEvent;
use crate::events::DiscoveryEventModel;
use crate::events::opt_event_model;
use crate::keys::KeyModel;
use crate::keys::ResolvedModel;
use crate::keys::ResolvedService;
use crate::keys::ServiceKey;

verus! {

/// What issuing a resolution request does to the pending set.
pub open spec fn resolve_step(s: Set<KeyModel>, k: KeyModel) -> Set<KeyModel> {
    s.insert(k)
}

/// What a responder result for `k` does to the pending set.
pub open spec fn completion_step(s: Set<KeyModel>, k: KeyModel) -> Set<KeyModel> {
    s.remove(k)
}

/// What a responder result for `k` makes the resolver emit: the completion
/// when `k` is still pending, nothing when it is not.
pub open spec fn completion_emit(
    s: Set<KeyModel>,
    k: KeyModel,
    outcome: Result<ResolvedModel, ResolveError>,
) -> Option<DiscoveryEventModel> {
    if s.contains(k) {
        Some(DiscoveryEventModel::ResolveCompleted { key: k, outcome })
    } else {
        None
    }
}

/// What the removal of instance `k` makes the resolver emit: a cancellation
/// completing with `InstanceGone` when a resolution for `k` is outstanding.
pub open spec fn removal_emit(s: Set<KeyModel>, k: KeyModel) -> Option<DiscoveryEventModel> {
    if s.contains(k) {
        Some(
            DiscoveryEventModel::ResolveCompleted {
                key: k,
                outcome: Err(ResolveError::InstanceGone),
            },
        )
    } else {
        None
    }
}

/// Whether a resolution request for `key` was issued on the wire or folded
/// into one already in flight.
#[derive(Clone, Copy, PartialEq, Eq, Structural, Debug)]
pub enum ResolveRequest {
    /// No resolution for this key was in flight: the driver must issue one
    /// wire request.
    Issued,
    /// A resolution for this key is already in flight: no second wire
    /// request; the caller shares its eventual result.
    Coalesced,
}

/// In-flight resolutions, keyed by service key; at most one per key, so the
/// set is bounded by the keys the session touches.
pub struct Resolver {
    pub pending: Vec<ServiceKey>,
}

impl Resolver {
    /// At most one in-flight resolution per key.
    pub open spec fn wf(&self) -> bool {
        forall|i: int, j: int|
            0 <= i < j < self.pending@.len() ==> self.pending@[i]@ != self.pending@[j]@
    }

    /// A resolution for `k` is outstanding.
    pub open spec fn is_pending(&self, k: KeyModel) -> bool {
        exists|i: int| 0 <= i < self.pending@.len() && self.pending@[i]@ == k
    }

    /// The pending set, as a set of key images.
    pub open spec fn pending_set(&self) -> Set<KeyModel> {
        Set::new(|k: KeyModel| self.is_pending(k))
    }

    /// A resolver with nothing in flight.
    pub fn new() -> (r: Resolver)
        ensures
            r.wf(),
            r.pending@.len() == 0,
    {
        Resolver { pending: Vec::new() }
    }

    /// Starts a resolution for `key`, or coalesces it into the one already
    /// in flight for the same key.
    pub fn resolve(&mut self, key: &ServiceKey) -> (r: ResolveRequest)
        requires
            old(self).wf(),
        ensures
            final(self).wf(),
            final(self).pending_set() == resolve_step(old(self).pending_set(), key@),
            r == ResolveRequest::Issued <==> !old(self).is_pending(key@),
            r == ResolveRequest::Coalesced <==> old(self).is_pending(key@),
    {
        let ghost pre = self.pending@;
        let mut found = false;
        let mut i: usize = 0;
        while i < self.pending.len()
            invariant
                0 <= i <= self.pending@.len(),
                found == (exists|q: int| 0 <= q < i && self.pending@[q]@ == key@),
            decreases self.pending@.len() - i,
        {
            if self.pending[i].key_eq(key) {
                found = true;
            }
            i += 1;
        }
        if found {
            proof {
                assert(old(self).is_pending(key@));
                assert(self.pending_set() =~= resolve_step(old(self).pending_set(), key@));
            }
            ResolveRequest::Coalesced
        } else {
            self.pending.push(key.duplicate());
            proof {
                assert(!old(self).is_pending(key@));
                assert forall|k: KeyModel|
                    self.is_pending(k) == (old(self).is_pending(k) || k == key@) by {
                    if self.is_pending(k) {
                        let q = choose|q: int|
                            0 <= q < self.pending@.len() && self.pending@[q]@ == k;
                        if q < pre.len() {
                            assert(pre[q]@ == k);
                        }
                    }
                    if old(self).is_pending(k) {
                        let q = choose|q: int| 0 <= q < pre.len() && pre[q]@ == k;
                        assert(self.pending@[q]@ == k);
                    }
                    if k == key@ {
                        assert(self.pending@.last()@ == k);
                    }
                }
                assert(self.pending_set() =~= resolve_step(old(self).pending_set(), key@));
            }
            ResolveRequest::Issued
        }
    }

    /// Drops the pending entry for `key`, if any, and reports whether one
    /// existed.  Shared by completion and cancellation.
    fn drop_pending(&mut self, key: &ServiceKey) -> (was_pending: bool)
        requires
            old(self).wf(),
        ensures
            final(self).wf(),
            was_pending == old(self).is_pending(key@),
            final(self).pending_set() == completion_step(old(self).pending_set(), key@),
    {
        let ghost pre = self.pending@;
        let mut found: Option<usize> = None;
        let mut i: usize = 0;
        while i < self.pending.len()
            invariant
                0 <= i <= self.pending@.len(),
                match found {
                    Some(p) => 0 <= p < i && self.pending@[p as int]@ == key@,
                    None => forall|q: int| 0 <= q < i ==> self.pending@[q]@ != key@,
                },
            decreases self.pending@.len() - i,
        {
            if self.pending[i].key_eq(key) {
                found = Some(i);
            }
            i += 1;
        }
        match found {
            Some(p) => {
                let _gone = self.pending.remove(p);
                proof {
                    assert(old(self).is_pending(key@));
                    assert forall|k: KeyModel|
                        self.is_pending(k) == (old(self).is_pending(k) && k != key@) by {
                        if self.is_pending(k) {
                            let q = choose|q: int|
                                0 <= q < self.pending@.len() && self.pending@[q]@ == k;
                            if q < p {
                                assert(pre[q]@ == k);
                                assert(pre[p as int]@ != k);
                            } else {
                                assert(pre[q + 1]@ == k);
                                assert(pre[p as int]@ != k);
                            }
                        }
                        if old(self).is_pending(k) && k != key@ {
                            let q = choose|q: int| 0 <= q < pre.len() && pre[q]@ == k;
                            assert(q != p);
                            if q < p {
                                assert(self.pending@[q]@ == k);
                            } else {
                                assert(self.pending@[q - 1]@ == k);
                            }
                        }
                    }
                    assert(self.pending_set() =~= completion_step(old(self).pending_set(), key@));
                }
                true
            },
            None => {
                proof {
                    assert(!old(self).is_pending(key@));
                    assert(self.pending_set() =~= completion_step(old(self).pending_set(), key@));
                }
                false
            },
        }
    }

    /// Takes a responder result for `key` in.  Emits the completion when a
    /// resolution for `key` is still outstanding; a result for a key no
    /// longer pending is dropped, so a cancelled resolution can never
    /// deliver a stale value.
    pub fn complete(&mut self, key: ServiceKey, outcome: Result<ResolvedService, ResolveError>)
        -> (out: Option<DiscoveryEvent>)
        requires
            old(self).wf(),
        ensures
            final(self).wf(),
            final(self).pending_set() == completion_step(old(self).pending_set(), key@),
            opt_event_model(out) == completion_emit(
                old(self).pending_set(),
                key@,
                match outcome {
                    Ok(r) => Ok(r@),
                    Err(e) => Err(e),
                },
            ),
    {
        let was_pending = self.drop_pending(&key);
        if was_pending {
            Some(DiscoveryEvent::ResolveCompleted { key, outcome })
        } else {
            None
        }
    }

    /// Cancels the outstanding resolution for a key whose instance left the
    /// tracked set: it completes with `InstanceGone` rather than ever
    /// delivering a stale result.
    pub fn cancel_removed(&mut self, key: ServiceKey) -> (out: Option<DiscoveryEvent>)
        requires
            old(self).wf(),
        ensures
            final(self).wf(),
            final(self).pending_set() == completion_step(old(self).pending_set(), key@),
            opt_event_model(out) == removal_emit(old(self).pending_set(), key@),
    {
        let was_pending = self.drop_pending(&key);
        if was_pending {
            Some(
                DiscoveryEvent::ResolveCompleted {
                    key,
                    outcome: Err(ResolveError::InstanceGone),
                },
            )
        } else {
            None
        }
    }

    /// Invalidates every outstanding resolution, silently: part of the
    /// scoped release that precedes closing the connection, after which no
    /// resolver callback may fire.
    pub fn cancel_all(&mut self)
        ensures
            final(self).wf(),
            final(self).pending@.len() == 0,
            forall|k: KeyModel| !final(self).is_pending(k),
    {
        self.pending = Vec::new();
    }
}

/// One input to the resolver, as a mathematical value.
pub ghost enum ResolverOpModel {
    /// A caller asked to resolve `key`.
    Request { key: KeyModel },
    /// The responder answered the request for `key`.
    Answer { key: KeyModel, outcome: Result<ResolvedModel, ResolveError> },
    /// The browser dropped `key` from the tracked set.
    Gone { key: KeyModel },
}

/// How one resolver input moves the pending set.
pub open spec fn resolver_op_step(s: Set<KeyModel>, op: ResolverOpModel) -> Set<KeyModel> {
    match op {
        ResolverOpModel::Request { key } => resolve_step(s, key),
        ResolverOpModel::Answer { key, outcome } => completion_step(s, key),
        ResolverOpModel::Gone { key } => completion_step(s, key),
    }
}

/// What one resolver input makes the resolver emit.
pub open spec fn resolver_op_emit(s: Set<KeyModel>, op: ResolverOpModel) -> Option<
    DiscoveryEventModel,
> {
    match op {
        ResolverOpModel::Request { key } => None,
        ResolverOpModel::Answer { key, outcome } => completion_emit(s, key, outcome),
        ResolverOpModel::Gone { key } => removal_emit(s, key),
    }
}

/// Everything the resolver emits over a run of inputs from pending set `s`.
pub open spec fn resolver_run_emits(s: Set<KeyModel>, ops: Seq<ResolverOpModel>) -> Seq<
    DiscoveryEventModel,
>
    decreases ops.len(),
{
    if ops.len() == 0 {
        Seq::empty()
    } else {
        let head = match resolver_op_emit(s, ops.first()) {
            Some(e) => seq![e],
            None => Seq::<DiscoveryEventModel>::empty(),
        };
        head + resolver_run_emits(resolver_op_step(s, ops.first()), ops.drop_first())
    }
}

/// The event is a resolution completion for key `k`.
pub open spec fn completion_for(e: DiscoveryEventModel, k: KeyModel) -> bool {
    e matches DiscoveryEventModel::ResolveCompleted { key, outcome } && key == k
}

/// Law: a duplicate `resolve` while one is outstanding is coalesced.  It
/// leaves the pending set as it was, and the one eventual completion for the
/// key is the same event both requesters observe.
pub proof fn lemma_duplicate_resolve_coalesced(
    s: Set<KeyModel>,
    k: KeyModel,
    outcome: Result<ResolvedModel, ResolveError>,
)
    requires
        s.contains(k),
    ensures
        resolve_step(s, k) == s,
        completion_emit(resolve_step(s, k), k, outcome) == completion_emit(s, k, outcome),
{
    assert(resolve_step(s, k) =~= s);
}

/// Law: once a key's instance is gone, its cancelled resolution completes
/// with `InstanceGone`, and as long as no new request for the key is made,
/// no further completion for it — stale success included — is ever emitted.
pub proof fn lemma_removal_cancels_resolution(
    s: Set<KeyModel>,
    k: KeyModel,
    ops: Seq<ResolverOpModel>,
)
    requires
        s.contains(k),
        forall|i: int| 0 <= i < ops.len() ==> ops[i] != (ResolverOpModel::Request { key: k }),
    ensures
        removal_emit(s, k) == Some(
            DiscoveryEventModel::ResolveCompleted {
                key: k,
                outcome: Err(ResolveError::InstanceGone),
            },
        ),
        forall|i: int|
            0 <= i < resolver_run_emits(completion_step(s, k), ops).len() ==> !completion_for(
                #[trigger] resolver_run_emits(completion_step(s, k), ops)[i],
                k,
            ),
{
    lemma_silent_while_not_pending(completion_step(s, k), k, ops);
}

/// A resolver whose pending set does not hold `k` emits no completion for
/// `k` over any run of inputs that never requests `k` again.
pub proof fn lemma_silent_while_not_pending(
    s: Set<KeyModel>,
    k: KeyModel,
    ops: Seq<ResolverOpModel>,
)
    requires
        !s.contains(k),
        forall|i: int| 0 <= i < ops.len() ==> ops[i] != (ResolverOpModel::Request { key: k }),
    ensures
        forall|i: int|
            0 <= i < resolver_run_emits(s, ops).len() ==> !completion_for(
                #[trigger] resolver_run_emits(s, ops)[i],
                k,
            ),
    decreases ops.len(),
{
    if ops.len() > 0 {
        let op = ops.first();
        let rest = ops.drop_first();
        let s1 = resolver_op_step(s, op);
        assert(ops[0] != (ResolverOpModel::Request { key: k }));
        assert(!s1.contains(k));
        assert(forall|i: int| 0 <= i < rest.len() ==> rest[i] == ops[i + 1]);
        lemma_silent_while_not_pending(s1, k, rest);
        let emitted = resolver_run_emits(s, ops);
        let head = match resolver_op_emit(s, op) {
            Some(e) => seq![e],
            None => Seq::<DiscoveryEventModel>::empty(),
        };
        assert forall|i: int| 0 <= i < emitted.len() implies !completion_for(emitted[i], k) by {
            if i < head.len() {
                assert(emitted[i] == head[0]);
                assert(resolver_op_emit(s, op) == Some(head[0]));
            } else {
                assert(emitted[i] == resolver_run_emits(s1, rest)[i - head.len()]);
            }
        }
    }
}

} // verus!
