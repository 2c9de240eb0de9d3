//! Transport policy decisions.
//!
//! The sockets themselves are unverified I/O and live outside the library;
//! what is decided about them — above all the Unix listener's stale-path
//! recovery — is fixed here, so the code around the socket only carries the
//! decisions out.

use vstd::prelude::*;

verus! {

/// How one attempt to bind the Unix listener ended.
#[derive(Debug, Clone, Copy, PartialEq, Eq, Structural)]
pub enum BindOutcome {
    /// The listener is bound.
    Bound,
    /// The path is already in use by an earlier socket file.
    AddrInUse,
    /// Any other bind failure.
    OtherError,
}

/// What to do after a bind attempt.
#[derive(Debug, Clone, Copy, PartialEq, Eq, Structural)]
pub enum BindAction {
    /// Use the listener.
    Ready,
    /// Delete the stale socket file and bind once more.
    RemoveAndRetry,
    /// Give the failure up to the caller.
    Fail,
}

/// The stale-path recovery policy: a bind onto a path already in use is
/// retried once, after deleting the stale file; any other failure, or a
/// failure of the retry itself, surfaces.
pub open spec fn spec_unix_bind_action(first_try: bool, outcome: BindOutcome) -> BindAction {
    match outcome {
        BindOutcome::Bound => BindAction::Ready,
        BindOutcome::AddrInUse => if first_try {
            BindAction::RemoveAndRetry
        } else {
            BindAction::Fail
        },
        BindOutcome::OtherError => BindAction::Fail,
    }
}

/// Decides what to do after a bind attempt on the Unix listener's path.
pub fn unix_bind_action(first_try: bool, outcome: &BindOutcome) -> (a: BindAction)
    ensures
        a == spec_unix_bind_action(first_try, *outcome),
{
    match outcome {
        BindOutcome::Bound => BindAction::Ready,
        BindOutcome::AddrInUse => {
            if first_try {
                BindAction::RemoveAndRetry
            } else {
                BindAction::Fail
            }
        },
        BindOutcome::OtherError => BindAction::Fail,
    }
}

/// The bind is retried at most once: whatever the second attempt brings, the
/// policy never asks for another retry.
pub proof fn lemma_unix_bind_retries_once(outcome: BindOutcome)
    ensures
        spec_unix_bind_action(false, outcome) != BindAction::RemoveAndRetry,
{
}

} // verus!
