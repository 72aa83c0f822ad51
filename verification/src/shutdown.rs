//! Signals that ask the server to stop.
use vstd::prelude::*;

verus! {

/// The code with which a forced exit ends.
pub const FORCED_EXIT_CODE: i32 = 130;

/// What a signal leads to.
#[derive(Clone, Copy, Debug, PartialEq, Eq, Structural)]
pub enum Reaction {
    /// Begin to shut down.
    ShutDown,
    /// Say that it takes time, and that one more signal forces the exit.
    Wait,
    /// Exit now, with this code.
    Exit(i32),
}

/// Counts the signals that came.
pub struct Signals {
    received: usize,
}

impl Signals {
    /// How many signals came.
    pub closed spec fn count(self) -> nat {
        self.received as nat
    }

    /// No signal has come.
    pub fn new() -> (signals: Signals)
        ensures
            signals.count() == 0,
    {
        Signals { received: 0 }
    }

    /// A signal came: the first begins the shutdown, the second only warns,
    /// and any further one forces the exit.
    pub fn signal(&mut self) -> (reaction: Reaction)
        ensures
            final(self).count() == if old(self).count() < 3 {
                old(self).count() + 1
            } else {
                old(self).count()
            },
            reaction == if old(self).count() == 0 {
                Reaction::ShutDown
            } else if old(self).count() == 1 {
                Reaction::Wait
            } else {
                Reaction::Exit(FORCED_EXIT_CODE)
            },
            old(self).count() >= 2 ==> reaction == Reaction::Exit(130),
    {
        if self.received < 3 {
            self.received = self.received + 1;
        }
        if self.received == 1 {
            Reaction::ShutDown
        } else if self.received == 2 {
            Reaction::Wait
        } else {
            Reaction::Exit(FORCED_EXIT_CODE)
        }
    }
}

} // verus!
