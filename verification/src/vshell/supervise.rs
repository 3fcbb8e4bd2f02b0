//! Decisions about a child in flight: when to end it, how much of its output to keep and
//! what its end means.

use vstd::prelude::*;

use super::exec::ChildOutcome;
use crate::text::push_bytes;

verus! {

/// Why a child is being ended.
#[derive(Debug, Clone, Copy, PartialEq, Eq, Structural)]
pub enum KillReason {
    Timeout,
    Cancel,
    StdoutOverflow,
    StderrOverflow,
}

/// The stream that went over its cap first.
#[derive(Debug, Clone, Copy, PartialEq, Eq, Structural)]
pub enum Overflow {
    Nothing,
    Stdout,
    Stderr,
}

/// What to send to the child.
#[derive(Debug, Clone, Copy, PartialEq, Eq, Structural)]
pub enum Order {
    Wait,
    Terminate,
    Kill,
}

/// What a look at a running child shows.
#[derive(Debug, Clone, Copy)]
pub struct Sighting {
    pub past_deadline: bool,
    pub cancelled: bool,
    pub overflow: Overflow,
    /// The time that a child has between the two orders is over.
    pub past_grace: bool,
}

/// The watch over one child.
#[derive(Debug, Clone, Copy)]
pub struct Supervisor {
    pub killed_for: Option<KillReason>,
    /// Terminated, but not killed yet.
    pub kill_pending: bool,
}

/// The reason to end a child that a look at it gives. The deadline comes first, then the
/// cancel token, then the caps.
pub open spec fn reason(s: Sighting) -> Option<KillReason> {
    if s.past_deadline {
        Some(KillReason::Timeout)
    } else if s.cancelled {
        Some(KillReason::Cancel)
    } else {
        match s.overflow {
            Overflow::Stdout => Some(KillReason::StdoutOverflow),
            Overflow::Stderr => Some(KillReason::StderrOverflow),
            Overflow::Nothing => None,
        }
    }
}

/// What the end of a child means.
pub open spec fn outcome(killed_for: Option<KillReason>, code: i32) -> ChildOutcome {
    match killed_for {
        Some(KillReason::Timeout) => ChildOutcome::TimedOut,
        Some(KillReason::Cancel) => ChildOutcome::Cancelled,
        Some(KillReason::StdoutOverflow) => ChildOutcome::StdoutOverflow,
        Some(KillReason::StderrOverflow) => ChildOutcome::StderrOverflow,
        None => ChildOutcome::Exited(code),
    }
}

impl Supervisor {
    /// The watch over a child that has just started.
    pub fn new() -> (res: Self)
        ensures
            res.killed_for is None,
            !res.kill_pending,
    {
        Supervisor { killed_for: None, kill_pending: false }
    }

    /// Decides what to do with a child that still runs: terminate it once, for the first
    /// reason that shows, and kill it once when the grace time is over.
    pub fn look(&mut self, s: Sighting) -> (order: Order)
        ensures
            old(self).killed_for is None ==> {
                &&& final(self).killed_for == reason(s)
                &&& reason(s) is Some ==> order == Order::Terminate && final(self).kill_pending
                &&& reason(s) is None ==> order == Order::Wait && *final(self) == *old(self)
            },
            old(self).killed_for is Some ==> {
                &&& final(self).killed_for == old(self).killed_for
                &&& if old(self).kill_pending && s.past_grace {
                    order == Order::Kill && !final(self).kill_pending
                } else {
                    order == Order::Wait && *final(self) == *old(self)
                }
            },
    {
        if self.killed_for.is_none() {
            let why = if s.past_deadline {
                Some(KillReason::Timeout)
            } else if s.cancelled {
                Some(KillReason::Cancel)
            } else {
                match s.overflow {
                    Overflow::Stdout => Some(KillReason::StdoutOverflow),
                    Overflow::Stderr => Some(KillReason::StderrOverflow),
                    Overflow::Nothing => None,
                }
            };
            if why.is_some() {
                self.killed_for = why;
                self.kill_pending = true;
                return Order::Terminate;
            }
        } else if self.kill_pending && s.past_grace {
            self.kill_pending = false;
            return Order::Kill;
        }
        Order::Wait
    }

    /// What the end of the child means.
    pub fn outcome_for(&self, code: i32) -> (res: ChildOutcome)
        ensures
            res == outcome(self.killed_for, code),
    {
        match self.killed_for {
            Some(KillReason::Timeout) => ChildOutcome::TimedOut,
            Some(KillReason::Cancel) => ChildOutcome::Cancelled,
            Some(KillReason::StdoutOverflow) => ChildOutcome::StdoutOverflow,
            Some(KillReason::StderrOverflow) => ChildOutcome::StderrOverflow,
            None => ChildOutcome::Exited(code),
        }
    }
}

/// The exit code of a child: its own, or 128 and the number of the signal that ended it,
/// or 128 where neither is known.
pub fn exit_status(code: Option<i32>, signal: Option<i32>) -> (res: i32)
    requires
        signal matches Some(n) ==> n <= i32::MAX - 128,
    ensures
        res == (match (code, signal) {
            (Some(c), _) => c as int,
            (None, Some(n)) => 128 + n,
            (None, None) => 128,
        }),
{
    match code {
        Some(c) => c,
        None => match signal {
            Some(n) => 128 + n,
            None => 128,
        },
    }
}

/// What is kept of a stream.
#[derive(Debug)]
pub struct Capture {
    pub buf: Vec<u8>,
    pub overflowed: bool,
}

/// The part of a stream that is kept under a cap.
pub open spec fn kept(stream: Seq<u8>, cap: nat) -> Seq<u8> {
    if stream.len() <= cap {
        stream
    } else {
        stream.take(cap as int)
    }
}

impl Capture {
    /// True when this is what is kept of `stream` under `cap`.
    pub open spec fn holds(&self, stream: Seq<u8>, cap: nat) -> bool {
        self.buf@ == kept(stream, cap) && self.overflowed == (stream.len() > cap)
    }

    /// Nothing was read yet.
    pub fn new() -> (res: Self)
        ensures
            forall|cap: nat| #[trigger] res.holds(Seq::empty(), cap),
    {
        let res = Capture { buf: Vec::new(), overflowed: false };
        proof {
            assert(res.buf@ =~= Seq::<u8>::empty());
        }
        res
    }

    /// Takes in the next chunk of the stream, however the stream was cut; true when it
    /// is the one that goes over the cap.
    pub fn absorb(&mut self, chunk: &[u8], cap: usize) -> (over: bool)
        requires
            old(self).buf@.len() <= cap,
            old(self).overflowed ==> old(self).buf@.len() == cap,
        ensures
            forall|stream: Seq<u8>| #[trigger]
                old(self).holds(stream, cap as nat) ==> final(self).holds(
                    stream + chunk@,
                    cap as nat,
                ),
            over == (final(self).overflowed && !old(self).overflowed),
            final(self).buf@.len() <= cap,
            final(self).overflowed ==> final(self).buf@.len() == cap,
    {
        if self.overflowed {
            proof {
                assert forall|stream: Seq<u8>| #[trigger]
                    old(self).holds(stream, cap as nat) implies self.holds(
                    stream + chunk@,
                    cap as nat,
                ) by {
                    assert((stream + chunk@).take(cap as int) =~= stream.take(cap as int));
                }
            }
            return false;
        }
        let room = cap - self.buf.len();
        if chunk.len() <= room {
            push_bytes(&mut self.buf, chunk);
            false
        } else {
            push_bytes(&mut self.buf, vstd::slice::slice_subrange(chunk, 0, room));
            self.overflowed = true;
            proof {
                assert forall|stream: Seq<u8>| #[trigger]
                    old(self).holds(stream, cap as nat) implies self.holds(
                    stream + chunk@,
                    cap as nat,
                ) by {
                    assert((stream + chunk@).take(cap as int) =~= stream + chunk@.subrange(
                        0,
                        room as int,
                    ));
                }
            }
            true
        }
    }
}

// ---------------------------------------------------------------------------------
// Laws
// ---------------------------------------------------------------------------------
/// A child is ended for its deadline before all else, then because it is cancelled, then for the
/// stream that went over its cap, and for nothing else; its end then means that, whatever its
/// exit code. A child that was not ended means its exit code.
pub proof fn law_why_a_child_ends(s: Sighting, code: i32)
    ensures
        s.past_deadline ==> outcome(reason(s), code) == ChildOutcome::TimedOut,
        !s.past_deadline && s.cancelled ==> outcome(reason(s), code) == ChildOutcome::Cancelled,
        !s.past_deadline && !s.cancelled ==> outcome(reason(s), code) == (match s.overflow {
            Overflow::Stdout => ChildOutcome::StdoutOverflow,
            Overflow::Stderr => ChildOutcome::StderrOverflow,
            Overflow::Nothing => ChildOutcome::Exited(code),
        }),
        outcome(None, code) == ChildOutcome::Exited(code),
        reason(s) is None <==> !s.past_deadline && !s.cancelled && s.overflow == Overflow::Nothing,
{
}

/// What is kept of a stream is its beginning, all of it unless it is longer than the cap.
pub proof fn law_beginning_is_kept(stream: Seq<u8>, cap: nat)
    ensures
        kept(stream, cap).is_prefix_of(stream),
        kept(stream, cap).len() == if stream.len() <= cap {
            stream.len()
        } else {
            cap
        },
{
}

} // verus!
