//! The status enums of the protocol: the coordinator's phase and the
//! participant-tagged status values that double as the protocol's messages.

use vstd::prelude::*;

verus! {

/// The coordinator's view of the transaction.
///
/// `Ready → WaitPrepared → WaitCommitted → Success` is the happy path;
/// `WaitPrepared → Failure` and `WaitCommitted → Rollback` are the two
/// timeout/abort paths. `Success`, `Failure` and `Rollback` are terminal.
#[derive(Clone, Copy, Debug, PartialEq, Eq, Structural)]
pub enum CoordinatorStatus {
    Ready,
    Failure,
    Rollback,
    WaitPrepared,
    WaitCommitted,
    Success,
}

impl CoordinatorStatus {
    /// A terminal status admits no further transition.
    pub open spec fn spec_is_terminal(self) -> bool {
        self is Failure || self is Success || self is Rollback
    }
}

/// A participant status, tagged with the id of the participant it belongs to.
///
/// The same values travel through the mailboxes in both directions: the
/// coordinator commands participant `i` to prepare, commit, fail or roll
/// back by enqueueing `Prepared(i)`, `Commited(i)`, `Failure(i)` or
/// `Rollback(i)` into that participant's mailbox, and a participant reports
/// its own new status back under its own id.
#[derive(Clone, Copy, Debug, PartialEq, Eq, Structural)]
pub enum ParticipantStatus {
    Ready(u8),
    Failure(u8),
    Prepared(u8),
    Commited(u8),
    Rollback(u8),
}

impl ParticipantStatus {
    /// `Commited`, `Failure` and `Rollback` are terminal for a participant.
    pub open spec fn spec_is_terminal(self) -> bool {
        self is Failure || self is Commited || self is Rollback
    }

    /// The participant id a status value is tagged with.
    pub open spec fn tag(self) -> u8 {
        match self {
            ParticipantStatus::Ready(i) => i,
            ParticipantStatus::Failure(i) => i,
            ParticipantStatus::Prepared(i) => i,
            ParticipantStatus::Commited(i) => i,
            ParticipantStatus::Rollback(i) => i,
        }
    }
}

} // verus!
