//! How bytes and items pass between the streams of a guest and the host.

use vstd::prelude::*;

use crate::limits::Intake;

verus! {

/// The most bytes that pass at a time.
pub const STREAM_CHUNK_BYTES: usize = 64 * 1024;

/// What became of a read or a write that was polled.
#[derive(Clone, Copy, Debug, PartialEq, Eq, Structural)]
pub enum Polled {
    /// So many bytes passed.
    Ready(usize),
    Failed,
    Pending,
}

/// How a stream goes on.
#[derive(Clone, Copy, Debug, PartialEq, Eq, Structural)]
pub enum Progress {
    /// Nothing passes before the stream is woken.
    Pending,
    /// Something may have passed, and more may follow.
    Completed,
    /// Nothing more passes.
    Dropped,
    /// The guest took its request back before anything passed.
    Cancelled,
    /// The stream breaks.
    Failed,
}

/// The most bytes that are read at a time into a buffer with this much room.
pub open spec fn chunk(room: usize) -> usize {
    if room < STREAM_CHUNK_BYTES {
        room
    } else {
        STREAM_CHUNK_BYTES
    }
}

/// How the stream of a lent source goes on after a read. Where a guest takes its request
/// back, `finish` is set.
pub open spec fn produced(read: Polled, finish: bool) -> Progress {
    match read {
        Polled::Ready(count) => if count == 0 {
            Progress::Dropped
        } else {
            Progress::Completed
        },
        Polled::Failed => Progress::Failed,
        Polled::Pending => if finish {
            Progress::Cancelled
        } else {
            Progress::Pending
        },
    }
}

/// Hands more bytes of a lent source to a guest whose buffer has this much room. `read`
/// reads at most so many bytes into the buffer; it is not called where there is no room.
pub fn produce<R: FnOnce(usize) -> Polled>(room: usize, finish: bool, read: R) -> (progress: Progress)
    requires
        room > 0 ==> call_requires(read, (chunk(room),)),
    ensures
        if room == 0 {
            progress == Progress::Completed
        } else {
            exists|polled: Polled| #[trigger]
                call_ensures(read, (chunk(room),), polled) && progress == produced(polled, finish)
        },
{
    if room == 0 {
        return Progress::Completed;
    }
    let capacity: usize = if room < STREAM_CHUNK_BYTES {
        room
    } else {
        STREAM_CHUNK_BYTES
    };
    let polled = read(capacity);
    assert(call_ensures(read, (chunk(room),), polled));
    match polled {
        Polled::Ready(count) => if count == 0 {
            Progress::Dropped
        } else {
            Progress::Completed
        },
        Polled::Failed => Progress::Failed,
        Polled::Pending => if finish {
            Progress::Cancelled
        } else {
            Progress::Pending
        },
    }
}

/// What a write of admitted bytes makes of the intake of a produced source, and how the
/// stream goes on.
pub open spec fn consumed(intake: Intake, written: Polled, finish: bool) -> (Intake, Progress) {
    match written {
        Polled::Ready(count) => (Intake { written: (intake.written + count) as u64, ..intake }, Progress::Completed),
        Polled::Failed => (Intake { failed: true, ..intake }, Progress::Failed),
        Polled::Pending => if finish {
            (Intake { failed: true, ..intake }, Progress::Cancelled)
        } else {
            (intake, Progress::Pending)
        },
    }
}

impl Intake {
    /// Takes the bytes that a guest offers for a produced source. `write` writes some of
    /// them; it is not called where they are too many, and the source has failed then.
    pub fn consume<W: FnOnce() -> Polled>(&mut self, offered: usize, finish: bool, write: W) -> (progress: Progress)
        requires
            old(self).wf(),
            old(self).written + offered <= old(self).bound ==> call_requires(write, ()),
            forall|polled: Polled| #[trigger]
                call_ensures(write, (), polled) ==> (polled matches Polled::Ready(count) ==> count <= offered),
        ensures
            final(self).wf(),
            if old(self).written + offered > old(self).bound {
                progress == Progress::Dropped && *final(self) == (Intake {
                    exceeded: true,
                    failed: true,
                    ..*old(self)
                })
            } else {
                exists|polled: Polled| #[trigger]
                    call_ensures(write, (), polled) && (*final(self), progress) == consumed(*old(self), polled, finish)
            },
    {
        if !self.offer(offered as u64) {
            return Progress::Dropped;
        }
        let polled = write();
        assert(call_ensures(write, (), polled));
        match polled {
            Polled::Ready(count) => {
                self.take(count as u64);
                Progress::Completed
            },
            Polled::Failed => {
                self.fail();
                Progress::Failed
            },
            Polled::Pending => if finish {
                self.fail();
                Progress::Cancelled
            } else {
                Progress::Pending
            },
        }
    }
}

/// A produced source that has failed, or was offered too many bytes, stays so whatever
/// becomes of later writes, and the count of its bytes never falls.
pub proof fn law_failed_intake_stays_failed(intake: Intake, written: Polled, finish: bool)
    requires
        intake.wf(),
        written matches Polled::Ready(count) ==> intake.written + count <= intake.bound,
    ensures
        intake.failed ==> consumed(intake, written, finish).0.failed,
        intake.exceeded ==> consumed(intake, written, finish).0.exceeded,
        intake.written <= consumed(intake, written, finish).0.written,
{
}

/// Whether the host has room for another item.
#[derive(Clone, Copy, Debug, PartialEq, Eq, Structural)]
pub enum Reserved {
    /// A place is kept for it.
    Granted,
    /// The host takes no more items.
    Closed,
    Pending,
}

/// What happens to the place that is kept for an item.
#[derive(Debug)]
pub struct ItemStep {
    pub progress: Progress,
    /// The item that takes the place.
    pub sent: Option<String>,
    /// The place, or the wish for one, is given back.
    pub aborted: bool,
}

/// What happens to the place that is kept for an item, once the item was read.
pub open spec fn passed(item: Result<Option<String>, ()>) -> ItemStep {
    match item {
        Ok(Some(item)) => ItemStep { progress: Progress::Completed, sent: Some(item), aborted: false },
        Ok(None) => ItemStep { progress: Progress::Completed, sent: None, aborted: true },
        Err(_) => ItemStep { progress: Progress::Failed, sent: None, aborted: true },
    }
}

/// Hands an item of a guest to the host. `read` reads the next item, where there is one;
/// it is not called before a place is kept for the item.
pub fn consume_item<R: FnOnce() -> Result<Option<String>, ()>>(reserved: Reserved, finish: bool, read: R) -> (step: ItemStep)
    requires
        reserved == Reserved::Granted ==> call_requires(read, ()),
    ensures
        match reserved {
            Reserved::Closed => step == (ItemStep { progress: Progress::Dropped, sent: None, aborted: false }),
            Reserved::Pending => step == if finish {
                ItemStep { progress: Progress::Cancelled, sent: None, aborted: true }
            } else {
                ItemStep { progress: Progress::Pending, sent: None, aborted: false }
            },
            Reserved::Granted => exists|item: Result<Option<String>, ()>| #[trigger]
                call_ensures(read, (), item) && step == passed(item),
        },
{
    match reserved {
        Reserved::Granted => {},
        Reserved::Closed => return ItemStep { progress: Progress::Dropped, sent: None, aborted: false },
        Reserved::Pending => return if finish {
            ItemStep { progress: Progress::Cancelled, sent: None, aborted: true }
        } else {
            ItemStep { progress: Progress::Pending, sent: None, aborted: false }
        },
    }
    let item = read();
    let ghost found = item;
    assert(call_ensures(read, (), found));
    let step = match item {
        Ok(Some(item)) => ItemStep { progress: Progress::Completed, sent: Some(item), aborted: false },
        Ok(None) => ItemStep { progress: Progress::Completed, sent: None, aborted: true },
        Err(_) => ItemStep { progress: Progress::Failed, sent: None, aborted: true },
    };
    assert(step == passed(found));
    step
}

/// Reads bytes of a produced source for the host. `failed` says whether the stream had
/// failed before; `read` reads, and says whether the stream had failed after that. It is
/// not called where the stream had failed before.
pub fn checked_read<R: FnOnce() -> (Polled, bool)>(failed: bool, read: R) -> (polled: Polled)
    requires
        !failed ==> call_requires(read, ()),
    ensures
        if failed {
            polled == Polled::Failed
        } else {
            exists|found: Polled, after: bool| #[trigger]
                call_ensures(read, (), (found, after)) && polled == if after {
                    Polled::Failed
                } else {
                    found
                }
        },
{
    if failed {
        return Polled::Failed;
    }
    let (found, after) = read();
    assert(call_ensures(read, (), (found, after)));
    if after {
        Polled::Failed
    } else {
        found
    }
}

/// A chunk is as large as the room for it, up to the largest.
pub proof fn law_chunks(room: usize)
    ensures
        chunk(room) <= room,
        chunk(room) <= STREAM_CHUNK_BYTES,
        chunk(room) == room || chunk(room) == STREAM_CHUNK_BYTES,
{
}

/// A stream goes on where bytes came, ends where none came, fails where reading failed, and is
/// cancelled where none are there and no more are wanted.
pub proof fn law_streams_go_on(read: Polled, finish: bool)
    ensures
        produced(read, finish) == Progress::Completed <==> (read matches Polled::Ready(count) && count > 0),
        produced(read, finish) == Progress::Dropped <==> read == Polled::Ready(0),
        produced(read, finish) == Progress::Failed <==> read == Polled::Failed,
        produced(read, finish) == Progress::Cancelled <==> read == Polled::Pending && finish,
        produced(read, finish) == Progress::Pending <==> read == Polled::Pending && !finish,
{
}

/// What was written is counted; a failed write and a cancelled one fail the source, and nothing
/// else does.
pub proof fn law_intake_counts(intake: Intake, written: Polled, finish: bool)
    requires
        intake.wf(),
        written matches Polled::Ready(count) ==> intake.written + count <= intake.bound,
    ensures
        ({
            let (after, progress) = consumed(intake, written, finish);
            &&& after.written == intake.written + match written {
                Polled::Ready(count) => count as int,
                _ => 0,
            }
            &&& after.failed <==> intake.failed || written == Polled::Failed || (written == Polled::Pending && finish)
            &&& after.bound == intake.bound && after.exceeded == intake.exceeded
            &&& progress == Progress::Completed <==> written is Ready
            &&& progress == Progress::Failed <==> written == Polled::Failed
            &&& progress == Progress::Cancelled <==> written == Polled::Pending && finish
            &&& progress == Progress::Pending <==> written == Polled::Pending && !finish
        }),
{
}

/// An item that was read is sent; where there was none, or reading failed, the place that was
/// kept for it is given back.
pub proof fn law_items_are_passed_on(item: Result<Option<String>, ()>)
    ensures
        passed(item).sent is Some <==> (item matches Ok(read) && read is Some),
        item matches Ok(Some(text)) ==> passed(item).sent == Some(text),
        passed(item).aborted <==> passed(item).sent is None,
        passed(item).progress == Progress::Failed <==> item is Err,
        item is Ok ==> passed(item).progress == Progress::Completed,
{
}

} // verus!
