//! Bounds on work in progress: how many exchanges an upstream server takes
//! at a time, and how many requests a listener takes at a time.

use vstd::prelude::*;

verus! {

/// Most exchanges at a time with a server that is spoken to over a stream,
/// where no other number is set.
pub const DEFAULT_MAX_CONNS: usize = 16;

/// What becomes of a request for an exchange.
#[derive(Debug, Clone, Copy, PartialEq, Eq, Hash, Structural)]
pub enum Admission {
    /// The exchange starts now.
    Granted,
    /// The exchange waits for another one to end.
    Queued,
    /// The exchange fails at once: too many are waiting already.
    Rejected,
}

/// The exchanges with one upstream server.
#[derive(Debug, Clone, Copy, PartialEq, Eq, Hash, Structural)]
pub struct Pool {
    /// Most exchanges at a time; `None` for no bound.
    pub max_conns: Option<usize>,
    /// Most exchanges that wait.
    pub queue_depth: usize,
    /// Exchanges that are going on.
    pub in_use: usize,
    /// Exchanges that wait.
    pub waiting: usize,
}

impl Pool {
    /// The counts are within their bounds.
    pub open spec fn well_formed(self) -> bool {
        &&& self.waiting <= self.queue_depth
        &&& self.max_conns matches Some(m) ==> self.in_use <= m
        &&& self.waiting > 0 ==> self.max_conns == Some(self.in_use)
    }

    /// What becomes of a request for an exchange, and the pool after it:
    /// the exchange starts if the bound allows one more, waits if there is
    /// room to wait, and fails otherwise.
    pub open spec fn acquired(self) -> (Pool, Admission) {
        if self.max_conns matches Some(m) && self.in_use >= m {
            if self.waiting < self.queue_depth {
                (Pool { waiting: (self.waiting + 1) as usize, ..self }, Admission::Queued)
            } else {
                (self, Admission::Rejected)
            }
        } else if self.in_use < usize::MAX {
            (Pool { in_use: (self.in_use + 1) as usize, ..self }, Admission::Granted)
        } else {
            (self, Admission::Rejected)
        }
    }

    /// The pool after an exchange ends: where one waits, it starts in the
    /// place of the one that ended.
    pub open spec fn released(self) -> Pool {
        if self.waiting > 0 {
            Pool { waiting: (self.waiting - 1) as usize, ..self }
        } else if self.in_use > 0 {
            Pool { in_use: (self.in_use - 1) as usize, ..self }
        } else {
            self
        }
    }

    /// The pool of a server while nothing goes on.
    pub fn new(max_conns: Option<usize>, queue_depth: usize) -> (out: Pool)
        ensures
            out == (Pool { max_conns, queue_depth, in_use: 0, waiting: 0 }),
            out.well_formed(),
    {
        Pool { max_conns, queue_depth, in_use: 0, waiting: 0 }
    }

    /// Asks for an exchange.
    pub fn acquire(&mut self) -> (r: Admission)
        requires
            old(self).well_formed(),
        ensures
            (*final(self), r) == old(self).acquired(),
            final(self).well_formed(),
    {
        let full = match self.max_conns {
            Some(m) => self.in_use >= m,
            None => false,
        };
        if full {
            if self.waiting < self.queue_depth {
                self.waiting = self.waiting + 1;
                Admission::Queued
            } else {
                Admission::Rejected
            }
        } else if self.in_use < usize::MAX {
            self.in_use = self.in_use + 1;
            Admission::Granted
        } else {
            Admission::Rejected
        }
    }

    /// Ends an exchange, and says whether one that waited starts in its
    /// place.
    pub fn release(&mut self) -> (next: bool)
        requires
            old(self).well_formed(),
        ensures
            *final(self) == old(self).released(),
            next == (old(self).waiting > 0),
            final(self).well_formed(),
    {
        if self.waiting > 0 {
            self.waiting = self.waiting - 1;
            true
        } else {
            if self.in_use > 0 {
                self.in_use = self.in_use - 1;
            }
            false
        }
    }
}

/// What a listener does with a request that comes in.
#[derive(Debug, Clone, Copy, PartialEq, Eq, Hash, Structural)]
pub enum Intake {
    /// It takes the request.
    Accept,
    /// It drops the request: a datagram that comes while the listener is at
    /// its bound.
    Drop,
    /// It stops taking connections until a request is done.
    Pause,
}

/// What a listener that handles `active` requests at the moment does with
/// one more, where `cap` is the most that it handles at a time: below the
/// bound it takes the request; at the bound a datagram is dropped and a
/// listener for streams stops taking connections.
pub fn intake(active: usize, cap: usize, stream: bool) -> (r: Intake)
    ensures
        r == if active < cap {
            Intake::Accept
        } else if stream {
            Intake::Pause
        } else {
            Intake::Drop
        },
{
    if active < cap {
        Intake::Accept
    } else if stream {
        Intake::Pause
    } else {
        Intake::Drop
    }
}

} // verus!
