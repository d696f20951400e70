//! The connection to the local responder and its state machine.
//!
//! A connection is `Connecting` while the handshake runs, `Running` after a
//! successful handshake, `Failed` after an unrecoverable transport or protocol
//! error, and `Closed` after an explicit close.  `Failed` and `Closed` are
//! terminal; a new connection, not a reconnect, follows them.

use vstd::prelude::*;

use crate::errors::ConnectionError;

verus! {

/// Lifecycle state of one responder connection.
#[derive(Clone, Copy, PartialEq, Eq, Structural, Debug)]
pub enum ConnectionState {
    Connecting,
    Running,
    Failed,
    Closed,
}

/// What the handshake with the responder came to.  The embedding program
/// performs the actual transport work and reports its outcome as this plain
/// value; a rejection carries the responder's diagnostic text.
pub enum HandshakeOutcome {
    Established,
    Rejected { diagnostic: String },
}

/// The transitions the connection state machine allows, reflexive steps
/// included.  `Failed` and `Closed` admit no further movement.
pub open spec fn connection_may_step(from: ConnectionState, to: ConnectionState) -> bool {
    match from {
        ConnectionState::Connecting => to == ConnectionState::Connecting || to
            == ConnectionState::Running || to == ConnectionState::Failed || to
            == ConnectionState::Closed,
        ConnectionState::Running => to == ConnectionState::Running || to
            == ConnectionState::Failed || to == ConnectionState::Closed,
        ConnectionState::Failed => to == ConnectionState::Failed,
        ConnectionState::Closed => to == ConnectionState::Closed,
    }
}

/// Terminal states admit only themselves: once `Failed` or `Closed`, a
/// connection never moves again.
pub proof fn lemma_terminal_states_are_final(to: ConnectionState)
    ensures
        connection_may_step(ConnectionState::Failed, to) ==> to == ConnectionState::Failed,
        connection_may_step(ConnectionState::Closed, to) ==> to == ConnectionState::Closed,
{
}

/// Handle to the local responder, owning the connection state machine.
#[derive(Debug)]
pub struct ResponderConnection {
    /// Current lifecycle state.
    pub state: ConnectionState,
    /// Diagnostic of the failure that moved the connection to `Failed`.
    pub failure: Option<String>,
}

impl ResponderConnection {
    /// Performs the post-handshake part of opening a connection: the outcome
    /// the transport reported becomes either a `Running` connection or a
    /// `ConnectionError` carrying the responder's diagnostic.  A rejected
    /// handshake is immediately fatal for this attempt; no connection value
    /// exists afterwards.
    pub fn open(outcome: HandshakeOutcome) -> (r: Result<ResponderConnection, ConnectionError>)
        ensures
            match outcome {
                HandshakeOutcome::Established => r matches Ok(c) && c.state
                    == ConnectionState::Running && c.failure is None,
                HandshakeOutcome::Rejected { diagnostic } => r matches Err(e) && e.reason@
                    == diagnostic@,
            },
    {
        match outcome {
            HandshakeOutcome::Established => Ok(
                ResponderConnection { state: ConnectionState::Running, failure: None },
            ),
            HandshakeOutcome::Rejected { diagnostic } => Err(ConnectionError { reason: diagnostic }),
        }
    }

    /// Pure observation of the connection state.
    pub fn current_state(&self) -> (s: ConnectionState)
        ensures
            s == self.state,
    {
        self.state
    }

    /// Records an unrecoverable transport or protocol error.  Allowed while
    /// the handshake runs or the connection is running; `Failed` is terminal.
    pub fn fail(&mut self, diagnostic: String)
        requires
            old(self).state == ConnectionState::Connecting || old(self).state
                == ConnectionState::Running,
        ensures
            final(self).state == ConnectionState::Failed,
            final(self).failure matches Some(d) && d@ == diagnostic@,
            connection_may_step(old(self).state, final(self).state),
    {
        self.state = ConnectionState::Failed;
        self.failure = Some(diagnostic);
    }

    /// Explicit close.  Idempotent; a connection that already failed stays
    /// `Failed`, every other state moves to `Closed`.
    pub fn close(&mut self)
        ensures
            final(self).state == (if old(self).state == ConnectionState::Failed {
                ConnectionState::Failed
            } else {
                ConnectionState::Closed
            }),
            final(self).failure == old(self).failure,
            connection_may_step(old(self).state, final(self).state),
    {
        match self.state {
            ConnectionState::Failed => {},
            _ => {
                self.state = ConnectionState::Closed;
            },
        }
    }
}

} // verus!
