//! Upstream session lifecycle: the portal's two response shapes, the
//! sentinel that signals an expired session, and the state machine that
//! drives the login-once-and-retry-once protocol. The surrounding
//! transport code performs each requested action and feeds the outcome
//! back in as an event.

use vstd::prelude::*;

verus! {

/// The eligibility block of a detailed upstream response.
pub struct CheckInEligibility {
    pub code: String,
    pub eligible: bool,
}

/// The two shapes the upstream identity lookup returns: the normal
/// detailed payload, or a terse object whose message can carry the
/// session-expiry sentinel.
pub enum CheckInAtrium {
    Detailed { success: bool, html: String, eligibility: CheckInEligibility },
    Undetailed { success: bool, message: String },
}

/// Whether a response is the sentinel meaning the session has expired:
/// the terse shape with `success` false and the message `"log_out"`.
pub open spec fn spec_is_expiry(r: CheckInAtrium) -> bool {
    &&& r matches CheckInAtrium::Undetailed { success, message }
    &&& !success
    &&& message@ == "log_out"@
}

/// Recognise the session-expiry sentinel.
pub fn is_expiry_signal(r: &CheckInAtrium) -> (b: bool)
    ensures
        b == spec_is_expiry(*r),
{
    match r {
        CheckInAtrium::Undetailed { success, message } => {
            if *success {
                false
            } else {
                let sentinel: String = "log_out".to_owned();
                *message == sentinel
            }
        },
        _ => false,
    }
}

/// Where the lookup protocol stands.
#[derive(PartialEq, Eq, Structural, Clone, Copy, Debug)]
pub enum LookupState {
    /// The first lookup request is in flight.
    FirstLookup,
    /// The expiry sentinel came back; a fresh login is in flight.
    Reauth,
    /// Login succeeded; the single retry of the lookup is in flight.
    RetryLookup,
    /// A response was accepted and handed to the caller.
    Settled,
    /// Transport or login failed; the upstream is unavailable.
    Unavailable,
}

/// What the transport must do next.
pub enum LookupAction {
    /// Send the identity lookup with the current session.
    SendLookup,
    /// Post the operator credentials to the login endpoint, replacing the
    /// shared session with the freshly authenticated one.
    Login,
    /// The protocol is over: hand this response to the caller.
    Finish(CheckInAtrium),
    /// The protocol is over: surface the upstream as unavailable.
    Fail,
}

/// What the transport reports back.
pub enum LookupEvent {
    /// The lookup request in flight came back with this body.
    Response(CheckInAtrium),
    /// The login request in flight succeeded.
    LoginSucceeded,
    /// The login request in flight failed.
    LoginFailed,
    /// A request could not be sent or its body could not be read.
    TransportFailed,
}

/// One step of the protocol. An expiry sentinel on the first lookup asks
/// for a login; a successful login asks for the one retry; the retried
/// response settles whatever it holds, so no second login or retry can
/// ever be asked for. Everything else — transport faults, login failure,
/// events in a terminal state — fails the protocol.
pub open spec fn spec_step(s: LookupState, e: LookupEvent) -> (LookupState, LookupAction) {
    match (s, e) {
        (LookupState::FirstLookup, LookupEvent::Response(r)) => {
            if spec_is_expiry(r) {
                (LookupState::Reauth, LookupAction::Login)
            } else {
                (LookupState::Settled, LookupAction::Finish(r))
            }
        },
        (LookupState::Reauth, LookupEvent::LoginSucceeded) => (
            LookupState::RetryLookup,
            LookupAction::SendLookup,
        ),
        (LookupState::RetryLookup, LookupEvent::Response(r)) => (
            LookupState::Settled,
            LookupAction::Finish(r),
        ),
        _ => (LookupState::Unavailable, LookupAction::Fail),
    }
}

/// Drive the protocol one step.
pub fn lookup_step(s: LookupState, e: LookupEvent) -> (r: (LookupState, LookupAction))
    ensures
        r == spec_step(s, e),
{
    match (s, e) {
        (LookupState::FirstLookup, LookupEvent::Response(resp)) => {
            if is_expiry_signal(&resp) {
                (LookupState::Reauth, LookupAction::Login)
            } else {
                (LookupState::Settled, LookupAction::Finish(resp))
            }
        },
        (LookupState::Reauth, LookupEvent::LoginSucceeded) => (
            LookupState::RetryLookup,
            LookupAction::SendLookup,
        ),
        (LookupState::RetryLookup, LookupEvent::Response(resp)) => (
            LookupState::Settled,
            LookupAction::Finish(resp),
        ),
        _ => (LookupState::Unavailable, LookupAction::Fail),
    }
}

/// Session-expiry protocol: when the first response is the expiry
/// sentinel and the second lookup gets a response, the machine performs
/// exactly one login and exactly one retry and settles on the retried
/// response — while a first response that is not the sentinel settles at
/// once, with no login at all.
pub proof fn lemma_expiry_single_retry(r1: CheckInAtrium, r2: CheckInAtrium)
    ensures
        spec_is_expiry(r1) ==> spec_step(LookupState::FirstLookup, LookupEvent::Response(r1)) == (
            LookupState::Reauth,
            LookupAction::Login,
        ),
        !spec_is_expiry(r1) ==> spec_step(LookupState::FirstLookup, LookupEvent::Response(r1)) == (
            LookupState::Settled,
            LookupAction::Finish(r1),
        ),
        spec_step(LookupState::Reauth, LookupEvent::LoginSucceeded) == (
            LookupState::RetryLookup,
            LookupAction::SendLookup,
        ),
        spec_step(LookupState::RetryLookup, LookupEvent::Response(r2)) == (
            LookupState::Settled,
            LookupAction::Finish(r2),
        ),
{
}

} // verus!
