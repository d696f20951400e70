//! The discovery session: one single-threaded loop over decoded responder
//! events, and the façade that runs it.
//!
//! The loop owns a running connection, one browse subscription and the
//! resolver.  Each decoded event moves a mathematical session model by
//! `session_step` and dispatches exactly `session_emit` to the handler log,
//! in arrival order — the only ordering guarantee.  A stop request or a fatal
//! connection failure deactivates the session; an inactive session dispatches
//! nothing, which is the stop guarantee proved in
//! `lemma_stop_truncates_session`.

use vstd::prelude::*;

use crate::browser::ServiceBrowser;
use crate::browser::browse_emit;
use crate::browser::live_since_new;
use crate::browser::tracked_after;
use crate::browser::lemma_tracked_set_characterization;
use crate::browser::browse_step;
use crate::connection::ConnectionState;
use crate::connection::HandshakeOutcome;
use crate::connection::ResponderConnection;
use crate::errors::BrowseError;
use crate::errors::ConnectionError;
use crate::errors::DiscoveryError;
use crate::errors::ResolveError;
use crate::events::BrowseEvent;
use crate::events::BrowseEventModel;
use crate::events::DiscoveryEvent;
use crate::events::DiscoveryEventModel;
use crate::events::opt_to_seq;
use crate::keys::KeyModel;
use crate::keys::ResolvedModel;
use crate::keys::ResolvedService;
use crate::keys::ServiceKey;
use crate::resolver::ResolveRequest;
use crate::resolver::Resolver;
use crate::resolver::completion_emit;
use crate::resolver::completion_step;
use crate::resolver::removal_emit;
use crate::resolver::resolve_step;
use crate::service_type::valid_service_type;

verus! {

/// One event the driver hands to the session loop: a decoded browse
/// notification, a responder answer to a resolution request (an advisory
/// timeout fires as such an answer carrying `ResolveError::Timeout`), a fatal
/// connection failure, or a stop request raised from inside or outside a
/// handler.
pub enum ResponderEvent {
    Browse { event: BrowseEvent },
    Resolution { key: ServiceKey, outcome: Result<ResolvedService, ResolveError> },
    ConnectionFailed { diagnostic: String },
    StopRequested,
}

/// Mathematical image of a `ResponderEvent`.
pub ghost enum ResponderEventModel {
    Browse { event: BrowseEventModel },
    Resolution { key: KeyModel, outcome: Result<ResolvedModel, ResolveError> },
    ConnectionFailed { diagnostic: Seq<char> },
    StopRequested,
}

impl View for ResponderEvent {
    type V = ResponderEventModel;

    open spec fn view(&self) -> ResponderEventModel {
        match self {
            ResponderEvent::Browse { event } => ResponderEventModel::Browse { event: event@ },
            ResponderEvent::Resolution { key, outcome } => ResponderEventModel::Resolution {
                key: key@,
                outcome: match outcome {
                    Ok(r) => Ok(r@),
                    Err(e) => Err(*e),
                },
            },
            ResponderEvent::ConnectionFailed { diagnostic } => ResponderEventModel::ConnectionFailed {
                diagnostic: diagnostic@,
            },
            ResponderEvent::StopRequested => ResponderEventModel::StopRequested,
        }
    }
}

/// The images of a sequence of driver events.
pub open spec fn responder_views(s: Seq<ResponderEvent>) -> Seq<ResponderEventModel> {
    s.map_values(|e: ResponderEvent| e@)
}

/// The images of a sequence of dispatched events.
pub open spec fn event_views(s: Seq<DiscoveryEvent>) -> Seq<DiscoveryEventModel> {
    s.map_values(|e: DiscoveryEvent| e@)
}

/// Mathematical state of one discovery session.
#[verifier::ext_equal]
pub ghost struct SessionModel {
    /// Connection state; `Failed` is reached only through a
    /// `ConnectionFailed` event.
    pub conn: ConnectionState,
    /// Diagnostic of the fatal failure, when one occurred.
    pub failure: Option<Seq<char>>,
    /// A stop was requested.
    pub stopped: bool,
    /// Keys in the browser's tracked set.
    pub instances: Set<KeyModel>,
    /// Keys with an outstanding resolution.
    pub pending: Set<KeyModel>,
}

/// The state a session starts from: running, not stopped, nothing tracked,
/// nothing pending.
pub open spec fn initial_session_model() -> SessionModel {
    SessionModel {
        conn: ConnectionState::Running,
        failure: None,
        stopped: false,
        instances: Set::empty(),
        pending: Set::empty(),
    }
}

/// The loop keeps dispatching only while the connection runs and no stop was
/// requested.
pub open spec fn session_active(m: SessionModel) -> bool {
    m.conn == ConnectionState::Running && !m.stopped
}

/// How one driver event moves the session state.  An inactive session is
/// inert: every event leaves it unchanged.
pub open spec fn session_step(m: SessionModel, ev: ResponderEventModel) -> SessionModel {
    if !session_active(m) {
        m
    } else {
        match ev {
            ResponderEventModel::Browse { event } => SessionModel {
                instances: browse_step(m.instances, event),
                pending: match event {
                    BrowseEventModel::Removed { key } => if m.instances.contains(key) {
                        m.pending.remove(key)
                    } else {
                        m.pending
                    },
                    _ => m.pending,
                },
                ..m
            },
            ResponderEventModel::Resolution { key, outcome } => SessionModel {
                pending: completion_step(m.pending, key),
                ..m
            },
            ResponderEventModel::ConnectionFailed { diagnostic } => SessionModel {
                conn: ConnectionState::Failed,
                failure: Some(diagnostic),
                ..m
            },
            ResponderEventModel::StopRequested => SessionModel { stopped: true, ..m },
        }
    }
}

/// What one driver event makes the session dispatch.  A removal of a tracked
/// key first dispatches the browser's `InstanceRemoved`, then the resolver's
/// cancellation, when one was outstanding.  An inactive session dispatches
/// nothing.
pub open spec fn session_emit(m: SessionModel, ev: ResponderEventModel) -> Seq<
    DiscoveryEventModel,
> {
    if !session_active(m) {
        Seq::empty()
    } else {
        match ev {
            ResponderEventModel::Browse { event } => opt_to_seq(browse_emit(m.instances, event))
                + match event {
                BrowseEventModel::Removed { key } => if m.instances.contains(key) {
                    opt_to_seq(removal_emit(m.pending, key))
                } else {
                    Seq::empty()
                },
                _ => Seq::empty(),
            },
            ResponderEventModel::Resolution { key, outcome } => opt_to_seq(
                completion_emit(m.pending, key, outcome),
            ),
            ResponderEventModel::ConnectionFailed { diagnostic } => Seq::empty(),
            ResponderEventModel::StopRequested => Seq::empty(),
        }
    }
}

/// The session state after a whole run of driver events.
pub open spec fn session_run(m: SessionModel, evs: Seq<ResponderEventModel>) -> SessionModel
    decreases evs.len(),
{
    if evs.len() == 0 {
        m
    } else {
        session_run(session_step(m, evs.first()), evs.drop_first())
    }
}

/// Everything a whole run of driver events dispatches, in arrival order.
pub open spec fn session_run_emits(m: SessionModel, evs: Seq<ResponderEventModel>) -> Seq<
    DiscoveryEventModel,
>
    decreases evs.len(),
{
    if evs.len() == 0 {
        Seq::empty()
    } else {
        session_emit(m, evs.first()) + session_run_emits(
            session_step(m, evs.first()),
            evs.drop_first(),
        )
    }
}

/// An inactive session stays inactive, unchanged, and silent over any run.
pub proof fn lemma_session_inactive_absorbs(m: SessionModel, evs: Seq<ResponderEventModel>)
    requires
        !session_active(m),
    ensures
        session_run(m, evs) == m,
        session_run_emits(m, evs) == Seq::<DiscoveryEventModel>::empty(),
    decreases evs.len(),
{
    if evs.len() > 0 {
        assert(session_step(m, evs.first()) == m);
        lemma_session_inactive_absorbs(m, evs.drop_first());
        assert(session_run_emits(m, evs) =~= Seq::<DiscoveryEventModel>::empty());
    }
}

/// A run decomposes around any split of its event sequence.
pub proof fn lemma_session_run_concat(
    m: SessionModel,
    a: Seq<ResponderEventModel>,
    b: Seq<ResponderEventModel>,
)
    ensures
        session_run(m, a + b) == session_run(session_run(m, a), b),
        session_run_emits(m, a + b) == session_run_emits(m, a) + session_run_emits(
            session_run(m, a),
            b,
        ),
    decreases a.len(),
{
    if a.len() == 0 {
        assert(a + b =~= b);
        assert(session_run_emits(m, a) + session_run_emits(m, b) =~= session_run_emits(m, b));
    } else {
        let ab = a + b;
        assert(ab.first() == a.first());
        assert(ab.drop_first() =~= a.drop_first() + b);
        let m1 = session_step(m, a.first());
        lemma_session_run_concat(m1, a.drop_first(), b);
        assert(session_run_emits(m, ab) =~= session_run_emits(m, a) + session_run_emits(
            session_run(m, a),
            b,
        ));
    }
}

/// Appending one event to a run steps the final state once.
pub proof fn lemma_session_run_snoc(
    m: SessionModel,
    s: Seq<ResponderEventModel>,
    e: ResponderEventModel,
)
    ensures
        session_run(m, s.push(e)) == session_step(session_run(m, s), e),
        session_run_emits(m, s.push(e)) == session_run_emits(m, s) + session_emit(
            session_run(m, s),
            e,
        ),
    decreases s.len(),
{
    let p = s.push(e);
    if s.len() == 0 {
        assert(p.len() == 1);
        assert(p.first() == e);
        assert(p.drop_first() =~= Seq::<ResponderEventModel>::empty());
        let m1 = session_step(m, e);
        assert(session_run(m, p) == session_run(m1, p.drop_first()));
        assert(session_run(m1, p.drop_first()) == m1);
        assert(session_run(m, s) == m);
        assert(session_run_emits(m, p) == session_emit(m, p.first()) + session_run_emits(
            m1,
            p.drop_first(),
        ));
        assert(session_run_emits(m1, p.drop_first()) =~= Seq::<DiscoveryEventModel>::empty());
        assert(session_emit(m, e) + Seq::<DiscoveryEventModel>::empty() =~= session_emit(m, e));
        assert(session_run_emits(m, s) =~= Seq::<DiscoveryEventModel>::empty());
        assert(session_run_emits(m, s) + session_emit(m, e) =~= session_emit(m, e));
    } else {
        assert(p.first() == s.first());
        assert(p.drop_first() =~= s.drop_first().push(e));
        let m1 = session_step(m, s.first());
        lemma_session_run_snoc(m1, s.drop_first(), e);
        assert(session_run(m, p) == session_run(m1, p.drop_first()));
        assert(session_run(m1, p.drop_first()) == session_step(session_run(m1, s.drop_first()), e));
        assert(session_run(m, s) == session_run(m1, s.drop_first()));
        let u = session_emit(m, s.first());
        let v = session_run_emits(m1, s.drop_first());
        let w = session_emit(session_run(m, s), e);
        assert(session_run_emits(m, p) == u + session_run_emits(m1, p.drop_first()));
        assert(session_run_emits(m1, p.drop_first()) == v + w);
        assert(session_run_emits(m, s) == u + v);
        assert(u + (v + w) =~= (u + v) + w);
    }
}

/// Law: a stop request, raised from inside a handler or from outside the
/// loop, takes effect within the iteration that sees it.  Whatever the run
/// dispatches, it dispatched by the end of that iteration — no handler runs
/// for events arriving after the stop — and the session is inactive from
/// then on.
pub proof fn lemma_stop_truncates_session(
    m: SessionModel,
    evs: Seq<ResponderEventModel>,
    i: int,
)
    requires
        0 <= i < evs.len(),
        evs[i] == ResponderEventModel::StopRequested,
    ensures
        session_run_emits(m, evs) == session_run_emits(m, evs.take(i + 1)),
        !session_active(session_run(m, evs.take(i + 1))),
{
    let a = evs.take(i + 1);
    let b = evs.skip(i + 1);
    assert(evs =~= a + b);
    lemma_session_run_concat(m, a, b);
    let a0 = evs.take(i);
    assert(a =~= a0.push(evs[i]));
    lemma_session_run_snoc(m, a0, evs[i]);
    let before = session_run(m, a0);
    assert(session_run(m, a) == session_step(before, ResponderEventModel::StopRequested));
    assert(!session_active(session_run(m, a)));
    lemma_session_inactive_absorbs(session_run(m, a), b);
    assert(session_run_emits(m, evs) =~= session_run_emits(m, a));
}

/// A sequence of browse notifications, wrapped as driver events.
pub open spec fn browse_script(evs: Seq<BrowseEventModel>) -> Seq<ResponderEventModel> {
    evs.map_values(|b: BrowseEventModel| ResponderEventModel::Browse { event: b })
}

/// Law: over any sequence of browse notifications, a fresh session tracks
/// exactly the keys with a `New` more recent than any subsequent `Removed`,
/// and it stays running.
pub proof fn lemma_session_tracks_live_keys(evs: Seq<BrowseEventModel>)
    ensures
        session_run(initial_session_model(), browse_script(evs)).instances == tracked_after(evs),
        session_run(initial_session_model(), browse_script(evs)).conn == ConnectionState::Running,
        !session_run(initial_session_model(), browse_script(evs)).stopped,
        forall|k: KeyModel|
            session_run(initial_session_model(), browse_script(evs)).instances.contains(k)
                <==> live_since_new(evs, k),
    decreases evs.len(),
{
    let m0 = initial_session_model();
    if evs.len() == 0 {
        assert(browse_script(evs) =~= Seq::<ResponderEventModel>::empty());
        assert(session_run(m0, browse_script(evs)) == m0);
        assert(m0.instances =~= tracked_after(evs));
    } else {
        let prefix = evs.drop_last();
        let b = evs.last();
        lemma_session_tracks_live_keys(prefix);
        assert(browse_script(evs) =~= browse_script(prefix).push(
            ResponderEventModel::Browse { event: b },
        ));
        lemma_session_run_snoc(m0, browse_script(prefix), ResponderEventModel::Browse { event: b });
        let before = session_run(m0, browse_script(prefix));
        assert(session_active(before));
        assert(session_run(m0, browse_script(evs)).instances == browse_step(
            before.instances,
            b,
        ));
        assert(browse_step(tracked_after(prefix), b) == tracked_after(evs));
    }
    lemma_tracked_set_characterization(evs);
}

/// What one finished discovery session hands back: everything that was
/// dispatched, in order, and whether the session ended cleanly or by a fatal
/// connection failure.
pub struct DiscoveryReport {
    pub events: Vec<DiscoveryEvent>,
    pub conclusion: Result<(), ConnectionError>,
}

/// One live discovery session: connection, subscription, resolver, the
/// dispatched-event log, and a logical clock for discovery timestamps.
pub struct DiscoverySession {
    pub connection: ResponderConnection,
    pub browser: ServiceBrowser,
    pub resolver: Resolver,
    pub stop_requested: bool,
    pub dispatched: Vec<DiscoveryEvent>,
    pub clock: u64,
}

impl DiscoverySession {
    /// Internal consistency: browser and resolver keep their key sets
    /// duplicate-free, the subscription is alive while the connection runs,
    /// and a failure diagnostic exists exactly in the `Failed` state.
    pub open spec fn wf(&self) -> bool {
        &&& self.browser.wf()
        &&& self.resolver.wf()
        &&& (self.connection.state == ConnectionState::Running ==> self.browser.active)
        &&& (self.connection.state == ConnectionState::Failed <==> self.connection.failure is Some)
    }

    /// The session's mathematical state.
    pub open spec fn model(&self) -> SessionModel {
        SessionModel {
            conn: self.connection.state,
            failure: match self.connection.failure {
                Some(d) => Some(d@),
                None => None,
            },
            stopped: self.stop_requested,
            instances: self.browser.key_set(),
            pending: self.resolver.pending_set(),
        }
    }

    /// Everything dispatched so far, in order.
    pub open spec fn log(&self) -> Seq<DiscoveryEventModel> {
        event_views(self.dispatched@)
    }

    /// Starts a session over a freshly opened connection and a fresh
    /// subscription.
    pub fn begin(connection: ResponderConnection, browser: ServiceBrowser) -> (s: DiscoverySession)
        requires
            connection.state == ConnectionState::Running,
            connection.failure is None,
            browser.wf(),
            browser.active,
            browser.instances@.len() == 0,
        ensures
            s.wf(),
            s.model() == initial_session_model(),
            s.log() == Seq::<DiscoveryEventModel>::empty(),
    {
        let s = DiscoverySession {
            connection,
            browser,
            resolver: Resolver::new(),
            stop_requested: false,
            dispatched: Vec::new(),
            clock: 0,
        };
        proof {
            assert(s.model().instances =~= Set::<KeyModel>::empty());
            assert(s.model().pending =~= Set::<KeyModel>::empty());
            assert(s.model() =~= initial_session_model());
            assert(s.log() =~= Seq::<DiscoveryEventModel>::empty());
        }
        s
    }

    /// The loop still dispatches events.
    pub fn is_active(&self) -> (b: bool)
        ensures
            b == session_active(self.model()),
    {
        match self.connection.current_state() {
            ConnectionState::Running => !self.stop_requested,
            _ => false,
        }
    }

    /// Requests the loop to stop.  Safe to call from inside an event handler
    /// or from outside, and idempotent; the next loop iteration observes it.
    pub fn stop(&mut self)
        ensures
            final(self).connection == old(self).connection,
            final(self).browser == old(self).browser,
            final(self).resolver == old(self).resolver,
            final(self).dispatched == old(self).dispatched,
            final(self).clock == old(self).clock,
            final(self).stop_requested,
            final(self).model() == (SessionModel { stopped: true, ..old(self).model() }),
            final(self).log() == old(self).log(),
    {
        self.stop_requested = true;
        proof {
            assert(final(self).model() =~= (SessionModel { stopped: true, ..old(self).model() }));
        }
    }

    /// Appends one event to the handler log.
    fn dispatch(&mut self, e: DiscoveryEvent)
        ensures
            final(self).connection == old(self).connection,
            final(self).browser == old(self).browser,
            final(self).resolver == old(self).resolver,
            final(self).stop_requested == old(self).stop_requested,
            final(self).clock == old(self).clock,
            final(self).log() == old(self).log().push(e@),
    {
        self.dispatched.push(e);
        proof {
            assert(final(self).log() =~= old(self).log().push(e@));
        }
    }

    /// Asks for resolution of `key`, as a handler does upon a discovery.  On
    /// an active session the request is issued, or coalesced into the one
    /// already in flight for the same key; an inactive session refuses it, so
    /// nothing is issued after a stop.
    pub fn request_resolution(&mut self, key: &ServiceKey) -> (r: Option<ResolveRequest>)
        requires
            old(self).wf(),
        ensures
            final(self).wf(),
            final(self).log() == old(self).log(),
            !session_active(old(self).model()) ==> r is None && final(self).model() == old(
                self,
            ).model(),
            session_active(old(self).model()) ==> {
                &&& final(self).model() == (SessionModel {
                    pending: resolve_step(old(self).model().pending, key@),
                    ..old(self).model()
                })
                &&& (r == Some(ResolveRequest::Issued) <==> !old(self).model().pending.contains(
                    key@,
                ))
                &&& (r == Some(ResolveRequest::Coalesced) <==> old(self).model().pending.contains(
                    key@,
                ))
            },
    {
        if !self.is_active() {
            return None;
        }
        let req = self.resolver.resolve(key);
        proof {
            assert(old(self).resolver.is_pending(key@) == old(self).model().pending.contains(
                key@,
            ));
            assert(final(self).model() =~= (SessionModel {
                pending: resolve_step(old(self).model().pending, key@),
                ..old(self).model()
            }));
        }
        Some(req)
    }

    /// Processes one driver event: the session model moves by
    /// `session_step`, and exactly `session_emit` is appended to the log.
    /// Returns how many events were dispatched.
    pub fn step(&mut self, ev: ResponderEvent) -> (n: usize)
        requires
            old(self).wf(),
        ensures
            final(self).wf(),
            final(self).model() == session_step(old(self).model(), ev@),
            final(self).log() == old(self).log() + session_emit(old(self).model(), ev@),
            n as int == session_emit(old(self).model(), ev@).len(),
    {
        let ghost m0 = old(self).model();
        let ghost evm = ev@;
        if !self.is_active() {
            proof {
                assert(old(self).log() + session_emit(m0, evm) =~= old(self).log());
            }
            return 0;
        }
        self.clock = if self.clock < u64::MAX {
            self.clock + 1
        } else {
            self.clock
        };
        let now = self.clock;
        match ev {
            ResponderEvent::Browse { event } => {
                match event {
                    BrowseEvent::Removed { key } => {
                        let cancel_key = key.duplicate();
                        let out1 = self.browser.handle_event(
                            BrowseEvent::Removed { key },
                            now,
                        );
                        match out1 {
                            Some(e1) => {
                                let ghost e1m = e1@;
                                self.dispatch(e1);
                                let out2 = self.resolver.cancel_removed(cancel_key);
                                match out2 {
                                    Some(e2) => {
                                        let ghost e2m = e2@;
                                        self.dispatch(e2);
                                        proof {
                                            assert(final(self).model() =~= session_step(m0, evm));
                                            assert(final(self).log() =~= old(self).log()
                                                + session_emit(m0, evm));
                                        }
                                        2
                                    },
                                    None => {
                                        proof {
                                            assert(final(self).model() =~= session_step(m0, evm));
                                            assert(final(self).log() =~= old(self).log()
                                                + session_emit(m0, evm));
                                        }
                                        1
                                    },
                                }
                            },
                            None => {
                                proof {
                                    assert(final(self).model() =~= session_step(m0, evm));
                                    assert(final(self).log() =~= old(self).log() + session_emit(
                                        m0,
                                        evm,
                                    ));
                                }
                                0
                            },
                        }
                    },
                    other => {
                        let out = self.browser.handle_event(other, now);
                        match out {
                            Some(e) => {
                                let ghost em = e@;
                                self.dispatch(e);
                                proof {
                                    assert(final(self).model() =~= session_step(m0, evm));
                                    assert(final(self).log() =~= old(self).log() + session_emit(
                                        m0,
                                        evm,
                                    ));
                                }
                                1
                            },
                            None => {
                                proof {
                                    assert(final(self).model() =~= session_step(m0, evm));
                                    assert(final(self).log() =~= old(self).log() + session_emit(
                                        m0,
                                        evm,
                                    ));
                                }
                                0
                            },
                        }
                    },
                }
            },
            ResponderEvent::Resolution { key, outcome } => {
                let out = self.resolver.complete(key, outcome);
                match out {
                    Some(e) => {
                        self.dispatch(e);
                        proof {
                            assert(final(self).model() =~= session_step(m0, evm));
                            assert(final(self).log() =~= old(self).log() + session_emit(m0, evm));
                        }
                        1
                    },
                    None => {
                        proof {
                            assert(final(self).model() =~= session_step(m0, evm));
                            assert(final(self).log() =~= old(self).log() + session_emit(m0, evm));
                        }
                        0
                    },
                }
            },
            ResponderEvent::ConnectionFailed { diagnostic } => {
                self.connection.fail(diagnostic);
                proof {
                    assert(final(self).model() =~= session_step(m0, evm));
                    assert(final(self).log() =~= old(self).log() + session_emit(m0, evm));
                }
                0
            },
            ResponderEvent::StopRequested => {
                self.stop_requested = true;
                proof {
                    assert(final(self).model() =~= session_step(m0, evm));
                    assert(final(self).log() =~= old(self).log() + session_emit(m0, evm));
                }
                0
            },
        }
    }

    /// Pumps a whole sequence of driver events through the loop, leaving as
    /// soon as the session goes inactive.  The log grows by exactly what the
    /// model run dispatches: nothing is dispatched for events after a stop
    /// or a failure.
    pub fn run_script(&mut self, script: Vec<ResponderEvent>)
        requires
            old(self).wf(),
        ensures
            final(self).wf(),
            final(self).model() == session_run(old(self).model(), responder_views(script@)),
            final(self).log() == old(self).log() + session_run_emits(
                old(self).model(),
                responder_views(script@),
            ),
    {
        let ghost evs = responder_views(script@);
        let ghost m0 = old(self).model();
        let ghost l0 = old(self).log();
        let mut remaining = script;
        let mut go = self.is_active();
        proof {
            assert(responder_views(remaining@) =~= evs.skip(0));
            assert(evs.take(0) =~= Seq::<ResponderEventModel>::empty());
        }
        while go && remaining.len() > 0
            invariant
                self.wf(),
                go == session_active(self.model()),
                remaining@.len() <= evs.len(),
                responder_views(remaining@) == evs.skip(evs.len() - remaining@.len()),
                self.model() == session_run(m0, evs.take(evs.len() - remaining@.len())),
                self.log() == l0 + session_run_emits(
                    m0,
                    evs.take(evs.len() - remaining@.len()),
                ),
            decreases remaining@.len(),
        {
            let ghost k = evs.len() - remaining@.len();
            let ghost pre = remaining@;
            let ev = remaining.remove(0);
            proof {
                assert(pre.remove(0) =~= pre.skip(1));
                assert(responder_views(pre)[0] == ev@);
                assert(evs.skip(k)[0] == evs[k]);
                assert(ev@ == evs[k]);
                assert forall|q: int| 0 <= q < remaining@.len() implies responder_views(
                    remaining@,
                )[q] == evs.skip(k + 1)[q] by {
                    assert(responder_views(remaining@)[q] == remaining@[q]@);
                    assert(remaining@[q] == pre[q + 1]);
                    assert(responder_views(pre)[q + 1] == pre[q + 1]@);
                    assert(evs.skip(k)[q + 1] == evs[k + q + 1]);
                }
                assert(responder_views(remaining@) =~= evs.skip(k + 1));
            }
            self.step(ev);
            proof {
                assert(evs.take(k + 1) =~= evs.take(k).push(evs[k]));
                lemma_session_run_snoc(m0, evs.take(k), evs[k]);
            }
            go = self.is_active();
        }
        proof {
            let k = evs.len() - remaining@.len();
            if remaining@.len() > 0 {
                let a = evs.take(k);
                let b = evs.skip(k);
                assert(evs =~= a + b);
                lemma_session_run_concat(m0, a, b);
                lemma_session_inactive_absorbs(session_run(m0, a), b);
                assert(l0 + session_run_emits(m0, a) =~= l0 + session_run_emits(m0, evs));
            } else {
                assert(evs.take(k) =~= evs);
            }
        }
    }

    /// Ends the session with scoped release, in order: the subscription is
    /// cancelled, every pending resolution is invalidated, and only then is
    /// the connection closed, so no callback can fire against a closed
    /// connection.  The report carries the full dispatched log and, after a
    /// fatal failure, the responder's diagnostic.
    pub fn finish(self) -> (r: DiscoveryReport)
        requires
            self.wf(),
        ensures
            event_views(r.events@) == self.log(),
            self.model().conn == ConnectionState::Failed ==> (r.conclusion matches Err(ce)
                && self.model().failure matches Some(d) && ce.reason@ == d),
            self.model().conn != ConnectionState::Failed ==> r.conclusion is Ok,
    {
        let mut s = self;
        s.browser.unsubscribe();
        s.resolver.cancel_all();
        s.connection.close();
        let conclusion = match s.connection.failure {
            Some(d) => Err(ConnectionError { reason: d }),
            None => Ok(()),
        };
        DiscoveryReport { events: s.dispatched, conclusion }
    }
}

/// The façade: opens a connection, subscribes a browser, runs the loop,
/// and guarantees scoped release on every exit path.
pub struct ServiceDiscoveryManager {}

impl ServiceDiscoveryManager {
    /// A discovery manager; it holds no state of its own, each call to
    /// `discover_services` runs one self-contained session.
    pub fn new() -> (m: ServiceDiscoveryManager) {
        ServiceDiscoveryManager {}
    }

    /// Runs one whole discovery session for `service_type` in `domain`: open
    /// the connection with the handshake outcome the transport reported,
    /// subscribe, pump the driver events, and tear everything down in scoped
    /// order.  A rejected handshake surfaces as `ConnectionError` before any
    /// event is processed — the loop never starts; a malformed service type
    /// as `BrowseError`; otherwise the report holds exactly what the model
    /// run dispatches, and a fatal mid-run failure ends in its diagnostic.
    pub fn discover_services(
        &self,
        service_type: String,
        domain: String,
        handshake: HandshakeOutcome,
        script: Vec<ResponderEvent>,
    ) -> (r: Result<DiscoveryReport, DiscoveryError>)
        ensures
            handshake matches HandshakeOutcome::Rejected { diagnostic } ==> (r matches Err(
                DiscoveryError::Connection(e),
            ) && e.reason@ == diagnostic@),
            handshake matches HandshakeOutcome::Established && !valid_service_type(service_type@)
                ==> (r matches Err(DiscoveryError::Browse(e)) && e
                == BrowseError::MalformedServiceType),
            handshake matches HandshakeOutcome::Established && valid_service_type(service_type@)
                ==> (r matches Ok(report) && {
                let outputs = session_run_emits(initial_session_model(), responder_views(script@));
                let m1 = session_run(initial_session_model(), responder_views(script@));
                &&& event_views(report.events@) == outputs
                &&& (m1.conn == ConnectionState::Failed ==> (report.conclusion matches Err(ce)
                    && m1.failure matches Some(d) && ce.reason@ == d))
                &&& (m1.conn != ConnectionState::Failed ==> report.conclusion is Ok)
            }),
    {
        let connection = match ResponderConnection::open(handshake) {
            Ok(c) => c,
            Err(e) => {
                return Err(DiscoveryError::Connection(e));
            },
        };
        let browser = match ServiceBrowser::subscribe(&connection, service_type, domain) {
            Ok(b) => b,
            Err(e) => {
                let mut dead = connection;
                dead.close();
                return Err(DiscoveryError::Browse(e));
            },
        };
        let mut session = DiscoverySession::begin(connection, browser);
        session.run_script(script);
        proof {
            assert(Seq::<DiscoveryEventModel>::empty() + session_run_emits(
                initial_session_model(),
                responder_views(script@),
            ) =~= session_run_emits(initial_session_model(), responder_views(script@)));
        }
        Ok(session.finish())
    }
}

} // verus!
