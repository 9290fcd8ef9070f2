//! Ceilings on time, memory, tables and streamed bytes of an attempt.

use vstd::prelude::*;

use crate::host::ExecutionError;
use crate::manifest::Mode;

verus! {

/// The most linear memory of a guest, all memories together, in bytes.
pub const MAX_MEMORY_BYTES: usize = 512 * 1024 * 1024;

/// The most table elements of a guest, all tables together.
pub const MAX_TABLE_ELEMENTS: usize = 100_000;

/// How long a foreground action may run, in nanoseconds: five minutes.
pub const FOREGROUND_DEADLINE: u64 = 5 * 60 * 1_000_000_000;

/// How long a background action may run, in nanoseconds: six hours.
pub const BACKGROUND_DEADLINE: u64 = 6 * 60 * 60 * 1_000_000_000;

/// Returns how long an action may run, in nanoseconds.
pub fn attempt_duration(mode: Mode) -> (duration: u64)
    ensures
        duration == (match mode {
            Mode::Foreground => FOREGROUND_DEADLINE,
            Mode::Background => BACKGROUND_DEADLINE,
        }),
{
    match mode {
        Mode::Foreground => FOREGROUND_DEADLINE,
        Mode::Background => BACKGROUND_DEADLINE,
    }
}

/// The absolute instants, on one clock, at which an attempt ends: its own, the end
/// of the grace period after a cancellation, and that of the operation.
#[derive(Clone, Copy, Debug, PartialEq, Eq, Structural)]
pub struct Deadline {
    pub attempt: u64,
    pub stopping: Option<u64>,
    pub native: Option<u64>,
}

/// An instant has come.
pub open spec fn reached(instant: Option<u64>, now: u64) -> bool {
    instant matches Some(instant) && now >= instant
}

impl Deadline {
    /// The first instant at which the attempt ends.
    pub open spec fn first(&self) -> u64 {
        let native = match self.native {
            Some(native) => if native < self.attempt {
                native
            } else {
                self.attempt
            },
            None => self.attempt,
        };
        match self.stopping {
            Some(stopping) => if stopping < native {
                stopping
            } else {
                native
            },
            None => native,
        }
    }

    /// Returns why the attempt has ended by `now`; a cancellation comes first.
    pub fn expired(&self, now: u64) -> (error: Option<ExecutionError>)
        ensures
            error == if reached(self.stopping, now) {
                Some(ExecutionError::Stopped)
            } else if now >= self.attempt || reached(self.native, now) {
                Some(ExecutionError::Deadline)
            } else {
                None
            },
    {
        if let Some(stopping) = self.stopping {
            if now >= stopping {
                return Some(ExecutionError::Stopped);
            }
        }
        if now >= self.attempt {
            return Some(ExecutionError::Deadline);
        }
        if let Some(native) = self.native {
            if now >= native {
                return Some(ExecutionError::Deadline);
            }
        }
        None
    }

    /// Returns the instant until which a waiter may sleep.
    pub fn next_wake(&self) -> (instant: u64)
        ensures
            instant == self.first(),
    {
        let mut next: u64 = self.attempt;
        if let Some(native) = self.native {
            if native < next {
                next = native;
            }
        }
        if let Some(stopping) = self.stopping {
            if stopping < next {
                next = stopping;
            }
        }
        next
    }
}

/// A waiter that sleeps until the next instant wakes up exactly when the attempt
/// has ended.
pub proof fn law_waiting_ends_at_the_deadline(deadline: Deadline, now: u64)
    ensures
        now >= deadline.first() <==> reached(deadline.stopping, now) || now >= deadline.attempt || reached(
            deadline.native,
            now,
        ),
{
}

/// What the memories and tables of a guest take together.
#[derive(Clone, Copy, Debug, PartialEq, Eq, Structural)]
pub struct Limits {
    pub memory: usize,
    pub tables: usize,
    pub exceeded: bool,
}

/// The total after growth, `None` where growth is refused without a fault.
pub open spec fn grown(total: usize, current: usize, desired: usize) -> Option<int> {
    if desired < current || total + (desired - current) > usize::MAX {
        None
    } else {
        Some(total + (desired - current))
    }
}

/// The growth is over `ceiling`, or over the declared maximum.
pub open spec fn over(total: int, ceiling: usize, desired: usize, maximum: Option<usize>) -> bool {
    total > ceiling || (maximum matches Some(maximum) && desired > maximum)
}

impl Limits {
    /// Both totals are within their ceilings.
    pub open spec fn wf(&self) -> bool {
        self.memory <= MAX_MEMORY_BYTES && self.tables <= MAX_TABLE_ELEMENTS
    }

    /// Nothing is taken.
    pub fn new() -> (limits: Limits)
        ensures
            limits.wf(),
            limits == (Limits { memory: 0, tables: 0, exceeded: false }),
    {
        Limits { memory: 0, tables: 0, exceeded: false }
    }

    /// Decides whether a memory may grow from `current` to `desired` bytes.
    pub fn memory_growing(&mut self, current: usize, desired: usize, maximum: Option<usize>) -> (allowed: bool)
        requires
            old(self).wf(),
        ensures
            final(self).wf(),
            match grown(old(self).memory, current, desired) {
                None => !allowed && *final(self) == *old(self),
                Some(total) => if over(total, MAX_MEMORY_BYTES, desired, maximum) {
                    !allowed && *final(self) == (Limits { exceeded: true, ..*old(self) })
                } else {
                    allowed && *final(self) == (Limits { memory: total as usize, ..*old(self) })
                },
            },
    {
        if desired < current || desired - current > usize::MAX - self.memory {
            return false;
        }
        let total: usize = self.memory + (desired - current);
        if total > MAX_MEMORY_BYTES || exceeds(desired, maximum) {
            self.exceeded = true;
            return false;
        }
        self.memory = total;
        true
    }

    /// Decides whether a table may grow from `current` to `desired` elements.
    pub fn table_growing(&mut self, current: usize, desired: usize, maximum: Option<usize>) -> (allowed: bool)
        requires
            old(self).wf(),
        ensures
            final(self).wf(),
            match grown(old(self).tables, current, desired) {
                None => !allowed && *final(self) == *old(self),
                Some(total) => if over(total, MAX_TABLE_ELEMENTS, desired, maximum) {
                    !allowed && *final(self) == (Limits { exceeded: true, ..*old(self) })
                } else {
                    allowed && *final(self) == (Limits { tables: total as usize, ..*old(self) })
                },
            },
    {
        if desired < current || desired - current > usize::MAX - self.tables {
            return false;
        }
        let total: usize = self.tables + (desired - current);
        if total > MAX_TABLE_ELEMENTS || exceeds(desired, maximum) {
            self.exceeded = true;
            return false;
        }
        self.tables = total;
        true
    }
}

fn exceeds(desired: usize, maximum: Option<usize>) -> (result: bool)
    ensures
        result == (maximum matches Some(maximum) && desired > maximum),
{
    match maximum {
        Some(maximum) => desired > maximum,
        None => false,
    }
}

/// How the bytes of a produced source come in.
#[derive(Clone, Copy, Debug, PartialEq, Eq, Structural)]
pub struct Intake {
    /// The most bytes that the source may have.
    pub bound: u64,
    /// The bytes taken so far.
    pub written: u64,
    /// More bytes were offered than the bound allows.
    pub exceeded: bool,
    /// The stream failed; what was taken is not to be kept.
    pub failed: bool,
}

impl Intake {
    /// Never more bytes than the bound were taken, and excess is a failure.
    pub open spec fn wf(&self) -> bool {
        self.written <= self.bound && (self.exceeded ==> self.failed)
    }

    /// Nothing is taken yet.
    pub fn new(bound: u64) -> (intake: Intake)
        ensures
            intake.wf(),
            intake == (Intake { bound, written: 0, exceeded: false, failed: false }),
    {
        Intake { bound, written: 0, exceeded: false, failed: false }
    }

    /// Decides whether the offered bytes may be taken. Offered bytes beyond the
    /// bound fail the stream before any of them is taken.
    pub fn offer(&mut self, length: u64) -> (admitted: bool)
        requires
            old(self).wf(),
        ensures
            final(self).wf(),
            admitted == (old(self).written + length <= old(self).bound),
            *final(self) == if admitted {
                *old(self)
            } else {
                Intake { exceeded: true, failed: true, ..*old(self) }
            },
    {
        if length > self.bound - self.written {
            self.exceeded = true;
            self.failed = true;
            return false;
        }
        true
    }

    /// Notes that `length` of the admitted bytes were taken.
    pub fn take(&mut self, length: u64)
        requires
            old(self).wf(),
            old(self).written + length <= old(self).bound,
        ensures
            final(self).wf(),
            *final(self) == (Intake { written: (old(self).written + length) as u64, ..*old(self) }),
    {
        self.written += length;
    }

    /// Notes that the stream failed or was cancelled.
    pub fn fail(&mut self)
        requires
            old(self).wf(),
        ensures
            final(self).wf(),
            *final(self) == (Intake { failed: true, ..*old(self) }),
    {
        self.failed = true;
    }
}

/// An attempt ends at the first of its instants.
pub proof fn law_first_deadline(deadline: Deadline)
    ensures
        deadline.first() <= deadline.attempt,
        deadline.stopping matches Some(stopping) ==> deadline.first() <= stopping,
        deadline.native matches Some(native) ==> deadline.first() <= native,
        deadline.first() == deadline.attempt || deadline.stopping == Some(deadline.first()) || deadline.native == Some(
            deadline.first(),
        ),
{
}

/// Growth adds what is new to the total; it is over where the total passes the ceiling, or what
/// is desired passes its own maximum.
pub proof fn law_growth(total: usize, current: usize, desired: usize, ceiling: usize, maximum: Option<usize>)
    ensures
        grown(total, current, desired) matches Some(after) ==> current <= desired && after - total == desired - current,
        grown(total, current, desired) is None <==> desired < current || total + desired - current > usize::MAX,
        forall|after: int| #[trigger]
            over(after, ceiling, desired, maximum) <==> after > ceiling || (maximum is Some && desired > maximum->0),
{
}

} // verus!
