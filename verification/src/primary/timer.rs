//! Timers that fire once their time has come.
//!
//! Time is counted in milliseconds from a moment of the caller's choosing.

use crate::primary::error::{Slot, ViewNumber};
use crate::primary::messages::Vote;
use vstd::prelude::*;

verus! {

/// The moment `duration` after `now`, or the end of time.
pub open spec fn moment_after(now: u64, duration: u64) -> u64 {
    if now + duration > u64::MAX {
        u64::MAX
    } else {
        (now + duration) as u64
    }
}

fn after(now: u64, duration: u64) -> (moment: u64)
    ensures
        moment == moment_after(now, duration),
{
    match now.checked_add(duration) {
        Some(moment) => moment,
        None => u64::MAX,
    }
}

/// Fires when a view of a slot has taken too long.
#[derive(Clone, Copy, Debug, PartialEq, Eq, Structural)]
pub struct Timer {
    pub slot: Slot,
    pub view: ViewNumber,
    pub duration: u64,
    pub deadline: u64,
}

impl Timer {
    /// A timer that fires `duration` after `now`.
    pub fn new(slot: Slot, view: ViewNumber, duration: u64, now: u64) -> (timer: Self)
        ensures
            timer == (Timer { slot, view, duration, deadline: moment_after(now, duration) }),
    {
        Timer { slot, view, duration, deadline: after(now, duration) }
    }

    /// Starts the timer over.
    pub fn reset(&mut self, now: u64)
        ensures
            *final(self) == (Timer {
                deadline: moment_after(now, old(self).duration),
                ..*old(self)
            }),
    {
        self.deadline = after(now, self.duration);
    }

    /// The slot and view that ran out of time, if the timer has fired.
    pub fn poll(&self, now: u64) -> (fired: Option<(Slot, ViewNumber)>)
        ensures
            fired == (if now >= self.deadline {
                Some((self.slot, self.view))
            } else {
                None
            }),
    {
        if now >= self.deadline {
            Some((self.slot, self.view))
        } else {
            None
        }
    }
}

/// Fires when waiting for everyone's vote has taken too long; gives back the
/// vote that completed the quorum.
pub struct FastTimer {
    pub vote: Vote,
    pub duration: u64,
    pub deadline: u64,
}

impl FastTimer {
    /// A timer that fires `duration` after `now`.
    pub fn new(vote: Vote, duration: u64, now: u64) -> (timer: Self)
        ensures
            timer == (FastTimer { vote, duration, deadline: moment_after(now, duration) }),
    {
        FastTimer { vote, duration, deadline: after(now, duration) }
    }

    /// Starts the timer over.
    pub fn reset(&mut self, now: u64)
        ensures
            *final(self) == (FastTimer {
                deadline: moment_after(now, old(self).duration),
                ..*old(self)
            }),
    {
        self.deadline = after(now, self.duration);
    }

    /// The vote, if the timer has fired; else the timer itself.
    pub fn poll(self, now: u64) -> (fired: Result<Vote, FastTimer>)
        ensures
            fired == (if now >= self.deadline {
                Ok::<Vote, FastTimer>(self.vote)
            } else {
                Err(self)
            }),
    {
        if now >= self.deadline {
            Ok(self.vote)
        } else {
            Err(self)
        }
    }
}

/// A timer that was started over fires exactly when its duration has passed
/// again.
pub proof fn lemma_reset_fires_after(now: u64, duration: u64, later: u64)
    requires
        now + duration <= u64::MAX,
    ensures
        later >= moment_after(now, duration) <==> later >= now + duration,
{
}

} // verus!
