//! The initiator's handoff session: the life of one outstanding control
//! request, from sending it to a terminal answer. The protocol itself has
//! no correlation identifier, so at most one request is outstanding at a
//! time; silence ends in `Abandoned` after an explicit timeout rather than
//! waiting forever.

use vstd::prelude::*;

verus! {

/// How long an unanswered control request stays outstanding before it is
/// abandoned, in milliseconds.
pub const HANDOFF_TIMEOUT_MS: u64 = 10000;

/// The states of one handoff negotiation, seen from the initiator.
#[derive(Clone, Copy, PartialEq, Eq, Structural, Debug)]
pub enum HandoffState {
    /// No request outstanding.
    Idle,
    /// A control request went out at this clock value and no answer has
    /// arrived yet.
    RequestSent { sent_at: u64 },
    /// The peer accepted; the relay session may open.
    Accepted,
    /// The peer declined.
    Declined,
    /// No answer arrived within the timeout.
    Abandoned,
}

/// One handoff negotiation.
pub struct HandoffSession {
    pub state: HandoffState,
}

impl HandoffSession {
    /// A session with no request outstanding.
    pub fn new() -> (r: Self)
        ensures
            r.state == HandoffState::Idle,
    {
        HandoffSession { state: HandoffState::Idle }
    }

    /// Record that a control request went out at clock `now`.
    pub fn start(&mut self, now: u64)
        requires
            old(self).state == HandoffState::Idle,
        ensures
            final(self).state == (HandoffState::RequestSent { sent_at: now }),
    {
        self.state = HandoffState::RequestSent { sent_at: now };
    }

    /// Record the peer's answer. An answer that arrives with no request
    /// outstanding changes nothing (the protocol cannot correlate it).
    pub fn on_response(&mut self, accepted: bool)
        ensures
            (old(self).state matches HandoffState::RequestSent { .. }) ==> final(self).state == (
            if accepted {
                HandoffState::Accepted
            } else {
                HandoffState::Declined
            }),
            !(old(self).state matches HandoffState::RequestSent { .. }) ==> final(self).state
                == old(self).state,
    {
        match self.state {
            HandoffState::RequestSent { .. } => {
                if accepted {
                    self.state = HandoffState::Accepted;
                } else {
                    self.state = HandoffState::Declined;
                }
            },
            _ => {},
        }
    }

    /// Abandon a request that has waited longer than the timeout.
    pub fn check_timeout(&mut self, now: u64)
        ensures
            (old(self).state matches HandoffState::RequestSent { sent_at } && now as int
                - sent_at as int > HANDOFF_TIMEOUT_MS) ==> final(self).state
                == HandoffState::Abandoned,
            !(old(self).state matches HandoffState::RequestSent { sent_at } && now as int
                - sent_at as int > HANDOFF_TIMEOUT_MS) ==> final(self).state == old(self).state,
    {
        match self.state {
            HandoffState::RequestSent { sent_at } => {
                if now > sent_at && now - sent_at > HANDOFF_TIMEOUT_MS {
                    self.state = HandoffState::Abandoned;
                }
            },
            _ => {},
        }
    }

    /// Return from a terminal state to `Idle`, ready for the next request.
    pub fn reset(&mut self)
        requires
            old(self).state == HandoffState::Accepted || old(self).state == HandoffState::Declined
                || old(self).state == HandoffState::Abandoned,
        ensures
            final(self).state == HandoffState::Idle,
    {
        self.state = HandoffState::Idle;
    }
}

} // verus!
