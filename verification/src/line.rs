//! A line to the displays that keeps a record of its use.
//!
//! The record is ghost state. Whoever holds a line can use it only through
//! `write` and `sleep`, and each use adds one step, so the record says exactly
//! what was done with the line, in order.

use vstd::prelude::*;

verus! {

/// One use of a line.
pub enum LineStep {
    /// A message with these bytes was written.
    Wrote(Seq<u8>),
    /// A message with these bytes was refused.
    Refused(Seq<u8>),
    /// A pause of this many milliseconds.
    Slept(u32),
}

/// What sends messages, what pauses, and the record of both.
pub struct Line<W, S> {
    put: W,
    wait: S,
    log: Ghost<Seq<LineStep>>,
}

impl<W, S> Line<W, S> {
    /// What sends messages.
    pub closed spec fn writer(&self) -> W {
        self.put
    }

    /// What pauses.
    pub closed spec fn sleeper(&self) -> S {
        self.wait
    }

    /// What was done with the line so far.
    pub closed spec fn log(&self) -> Seq<LineStep> {
        self.log@
    }

    /// A line that has not been used.
    pub fn new(put: W, wait: S) -> (r: Self)
        ensures
            r.writer() == put,
            r.sleeper() == wait,
            r.log() == Seq::<LineStep>::empty(),
    {
        Line { put, wait, log: Ghost(Seq::empty()) }
    }

    /// Send one message.
    pub fn write<E>(self, m: &[u8]) -> (r: (Self, Result<(), E>)) where
        W: FnMut(&[u8]) -> Result<(), E>,

        requires
            call_requires(self.writer(), (m,)),
        ensures
            call_ensures(self.writer(), (m,), r.1),
            r.0.writer() == self.writer(),
            r.0.sleeper() == self.sleeper(),
            r.0.log() == self.log().push(
                match r.1 {
                    Ok(_) => LineStep::Wrote(m@),
                    Err(_) => LineStep::Refused(m@),
                },
            ),
    {
        let mut put = self.put;
        let outcome = put(m);
        let ghost step = match outcome {
            Ok(_) => LineStep::Wrote(m@),
            Err(_) => LineStep::Refused(m@),
        };
        (Line { put, wait: self.wait, log: Ghost(self.log@.push(step)) }, outcome)
    }

    /// Pause.
    pub fn sleep(self, ms: u32) -> (r: Self) where S: FnMut(u32)
        requires
            call_requires(self.sleeper(), (ms,)),
        ensures
            call_ensures(self.sleeper(), (ms,), ()),
            r.writer() == self.writer(),
            r.sleeper() == self.sleeper(),
            r.log() == self.log().push(LineStep::Slept(ms)),
    {
        let mut wait = self.wait;
        wait(ms);
        Line { put: self.put, wait, log: Ghost(self.log@.push(LineStep::Slept(ms))) }
    }
}

/// How many messages a record holds, written or refused.
pub open spec fn messages_in(log: Seq<LineStep>) -> nat
    decreases log.len(),
{
    if log.len() == 0 {
        0
    } else {
        messages_in(log.drop_last()) + if log.last() is Slept {
            0nat
        } else {
            1nat
        }
    }
}

/// How many milliseconds the pauses of a record add up to.
pub open spec fn paused_in(log: Seq<LineStep>) -> nat
    decreases log.len(),
{
    if log.len() == 0 {
        0
    } else {
        paused_in(log.drop_last()) + match log.last() {
            LineStep::Slept(ms) => ms as nat,
            _ => 0nat,
        }
    }
}

} // verus!
