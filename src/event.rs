//! Completion events: their status machine and handles.
use vstd::prelude::*;

verus! {

/// Where an event's operation stands. `Complete` and `Error` are terminal.
#[derive(Clone, Copy, Debug, PartialEq, Eq, Structural)]
pub enum EventStatus {
    Queued,
    Submitted,
    Running,
    Complete,
    Error,
}

impl EventStatus {
    /// Position in the order `Queued < Submitted < Running < {Complete, Error}`.
    pub open spec fn rank(self) -> nat {
        match self {
            EventStatus::Queued => 0,
            EventStatus::Submitted => 1,
            EventStatus::Running => 2,
            EventStatus::Complete => 3,
            EventStatus::Error => 3,
        }
    }

    pub open spec fn is_terminal(self) -> bool {
        self.rank() == 3
    }

    /// A status moves only forward, and never out of a terminal one.
    pub open spec fn can_move_to(self, next: EventStatus) -> bool {
        !self.is_terminal() && self.rank() < next.rank()
    }

    /// The status code handed to a callback: zero for `Complete`, a negative
    /// code for `Error`, and the positive codes 1 to 3 for the states before.
    pub open spec fn code_spec(self) -> i32 {
        match self {
            EventStatus::Queued => 3,
            EventStatus::Submitted => 2,
            EventStatus::Running => 1,
            EventStatus::Complete => 0,
            EventStatus::Error => -1i32,
        }
    }

    pub fn is_done(&self) -> (r: bool)
        ensures
            r == self.is_terminal(),
    {
        match self {
            EventStatus::Complete => true,
            EventStatus::Error => true,
            _ => false,
        }
    }

    pub fn code(&self) -> (r: i32)
        ensures
            r == self.code_spec(),
    {
        match self {
            EventStatus::Queued => 3,
            EventStatus::Submitted => 2,
            EventStatus::Running => 1,
            EventStatus::Complete => 0,
            EventStatus::Error => -1,
        }
    }

    /// Moves to `next` when the status machine allows it; otherwise leaves the
    /// status as it is and returns `EventError`.
    pub fn move_to(&mut self, next: EventStatus) -> (r: Result<(), crate::error::OclError>)
        ensures
            r is Ok <==> old(self).can_move_to(next),
            r is Ok ==> *final(self) == next,
            r is Err ==> *final(self) == *old(self) && r == Err::<(), _>(
                crate::error::OclError::EventError,
            ),
    {
        let rank_now: u8 = match self {
            EventStatus::Queued => 0,
            EventStatus::Submitted => 1,
            EventStatus::Running => 2,
            _ => 3,
        };
        let rank_next: u8 = match next {
            EventStatus::Queued => 0,
            EventStatus::Submitted => 1,
            EventStatus::Running => 2,
            _ => 3,
        };
        if rank_now < 3 && rank_now < rank_next {
            *self = next;
            Ok(())
        } else {
            Err(crate::error::OclError::EventError)
        }
    }
}

/// A handle to the completion of one enqueued command. Copies of a handle
/// name the same operation; copying never repeats it.
#[derive(Clone, Copy, Debug, PartialEq, Eq, Structural)]
pub struct Event {
    pub id: usize,
}

/// What a fired callback received: the event, its terminal status code, and
/// the context handle given at registration.
#[derive(Clone, Copy, Debug, PartialEq, Eq, Structural)]
pub struct Delivery {
    pub event: Event,
    pub status: i32,
    pub context: u64,
}

} // verus!
