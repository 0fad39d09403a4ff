//! The decisions of the event loop: which ids are handed out, which
//! connections are still read from or written to, and what a finished read
//! or write leads to. The loop itself, with its sockets and its poller,
//! performs what these functions decide.
use vstd::prelude::*;

use crate::protocol::{commands_view, dispatch, payload_commands};
use crate::reader::{outcome_view, IoFailure};
use crate::subs::{holds, lemma_without_id, no_dups, remove_id, without_id, Cmd, Command};

verus! {

/// What the event loop does after the reads of one readable event.
pub struct Readable {
    /// Commands for the registry, to be sent in this order.
    pub commands: Vec<Cmd>,
    /// The connection is finished: stop watching it and forget it.
    pub close: bool,
}

/// The ids the event loop has handed out and the connections it still
/// serves: `reading` are those in the read-side map, `writing` those in the
/// write-side map.
pub struct Reactor {
    next_id: usize,
    reading: Vec<usize>,
    writing: Vec<usize>,
}

/// The commands a finished read of connection `id` gives: those of its
/// bytes, if it is still read from and the read succeeded; none otherwise.
pub open spec fn readable_commands(
    readers: Seq<usize>,
    id: usize,
    outcome: Result<Seq<u8>, IoFailure>,
) -> Seq<Command> {
    if !readers.contains(id) {
        Seq::empty()
    } else {
        match outcome {
            Ok(bytes) => payload_commands(id, bytes),
            Err(_) => Seq::empty(),
        }
    }
}

/// The connections still read from after a finished read of `id`: a failed
/// read, a zero-byte one included, removes it.
pub open spec fn readers_after(
    readers: Seq<usize>,
    id: usize,
    outcome: Result<Seq<u8>, IoFailure>,
) -> Seq<usize> {
    if readers.contains(id) && outcome is Err {
        without_id(readers, id)
    } else {
        readers
    }
}

/// Once a read of a connection has failed, a zero-byte read included, the
/// connection is no longer read from, and no later readable event for it
/// gives any command.
pub proof fn lemma_failed_read_removes(
    readers: Seq<usize>,
    id: usize,
    failure: IoFailure,
    later: Result<Seq<u8>, IoFailure>,
)
    requires
        no_dups(readers),
    ensures
        !readers_after(readers, id, Err(failure)).contains(id),
        readable_commands(readers_after(readers, id, Err(failure)), id, later).len() == 0,
{
    lemma_without_id(readers, id);
}

impl Reactor {
    /// The id the next accepted connection gets.
    pub closed spec fn next(&self) -> nat {
        self.next_id as nat
    }

    /// The connections in the read-side map.
    pub closed spec fn readers(&self) -> Seq<usize> {
        self.reading@
    }

    /// The connections in the write-side map.
    pub closed spec fn writers(&self) -> Seq<usize> {
        self.writing@
    }

    /// Ids are positive and below the next one; no connection is listed twice.
    pub open spec fn wf(&self) -> bool {
        &&& 1 <= self.next()
        &&& no_dups(self.readers())
        &&& no_dups(self.writers())
        &&& forall|i: int|
            0 <= i < self.readers().len() ==> 1 <= #[trigger] self.readers()[i] < self.next()
        &&& forall|i: int|
            0 <= i < self.writers().len() ==> 1 <= #[trigger] self.writers()[i] < self.next()
    }

    /// No connection yet; the first gets id 1.
    pub fn new() -> (r: Reactor)
        ensures
            r.wf(),
            r.next() == 1,
            r.readers() == Seq::<usize>::empty(),
            r.writers() == Seq::<usize>::empty(),
    {
        Reactor { next_id: 1, reading: Vec::new(), writing: Vec::new() }
    }

    /// Gives an accepted connection the next id and lists it on both sides.
    /// Ids are never reused: `None` once they are all spent.
    pub fn accept(&mut self) -> (r: Option<usize>)
        requires
            old(self).wf(),
        ensures
            final(self).wf(),
            old(self).next() < usize::MAX ==> {
                &&& r == Some(old(self).next() as usize)
                &&& final(self).next() == old(self).next() + 1
                &&& !old(self).readers().contains(old(self).next() as usize)
                &&& !old(self).writers().contains(old(self).next() as usize)
                &&& final(self).readers() == old(self).readers().push(old(self).next() as usize)
                &&& final(self).writers() == old(self).writers().push(old(self).next() as usize)
            },
            old(self).next() == usize::MAX ==> r is None && *final(self) == *old(self),
    {
        if self.next_id == usize::MAX {
            return None;
        }
        let id = self.next_id;
        let ghost r0 = self.reading@;
        let ghost w0 = self.writing@;
        self.reading.push(id);
        self.writing.push(id);
        self.next_id = id + 1;
        assert(!r0.contains(id)) by {
            if r0.contains(id) {
                let k = choose|k: int| 0 <= k < r0.len() && r0[k] == id;
                assert(1 <= r0[k] < id);
            }
        }
        assert(!w0.contains(id)) by {
            if w0.contains(id) {
                let k = choose|k: int| 0 <= k < w0.len() && w0[k] == id;
                assert(1 <= w0[k] < id);
            }
        }
        assert forall|i: int, j: int|
            0 <= i < j < self.reading@.len() implies self.reading@[i] != self.reading@[j] by {
            if j == r0.len() {
                assert(r0[i] == self.reading@[i]);
            }
        }
        assert forall|i: int, j: int|
            0 <= i < j < self.writing@.len() implies self.writing@[i] != self.writing@[j] by {
            if j == w0.len() {
                assert(w0[i] == self.writing@[i]);
            }
        }
        Some(id)
    }

    /// Takes the outcome of the reads of one readable event of connection
    /// `id`: the bytes read, or the failure that ended them. Bytes give the
    /// commands of the message they hold; a failure, a zero-byte read
    /// included, closes the connection and removes it from the read side.
    /// A connection no longer read from gives nothing.
    pub fn on_readable(&mut self, id: usize, outcome: Result<Vec<u8>, IoFailure>) -> (r: Readable)
        requires
            old(self).wf(),
        ensures
            final(self).wf(),
            final(self).next() == old(self).next(),
            final(self).writers() == old(self).writers(),
            final(self).readers() == readers_after(old(self).readers(), id, outcome_view(outcome)),
            commands_view(r.commands@) == readable_commands(
                old(self).readers(),
                id,
                outcome_view(outcome),
            ),
            r.close == (old(self).readers().contains(id) && outcome is Err),
    {
        if !holds(&self.reading, id) {
            return Readable { commands: Vec::new(), close: false };
        }
        match outcome {
            Ok(bytes) => Readable { commands: dispatch(id, &bytes), close: false },
            Err(_) => {
                let ghost r0 = self.reading@;
                self.reading = remove_id(&self.reading, id);
                proof {
                    lemma_without_id(r0, id);
                    assert forall|i: int|
                        0 <= i < self.reading@.len() implies 1 <= #[trigger] self.reading@[i]
                        < self.next_id by {
                        let x = self.reading@[i];
                        assert(self.reading@.contains(x));
                        assert(without_id(r0, id).contains(x));
                        let k = choose|k: int| 0 <= k < r0.len() && r0[k] == x;
                        assert(1 <= r0[k]);
                    }
                }
                Readable { commands: Vec::new(), close: true }
            },
        }
    }

    /// Takes the outcome of the one write of a writable event of connection
    /// `id`. A failed write closes the connection and removes it from the
    /// write side; the result says whether to forget it.
    pub fn on_writable(&mut self, id: usize, wrote: bool) -> (r: bool)
        requires
            old(self).wf(),
        ensures
            final(self).wf(),
            final(self).next() == old(self).next(),
            final(self).readers() == old(self).readers(),
            r == (old(self).writers().contains(id) && !wrote),
            final(self).writers() == if r {
                without_id(old(self).writers(), id)
            } else {
                old(self).writers()
            },
    {
        if wrote || !holds(&self.writing, id) {
            return false;
        }
        let ghost w0 = self.writing@;
        self.writing = remove_id(&self.writing, id);
        proof {
            lemma_without_id(w0, id);
            assert forall|i: int|
                0 <= i < self.writing@.len() implies 1 <= #[trigger] self.writing@[i]
                < self.next_id by {
                let x = self.writing@[i];
                        assert(self.writing@.contains(x));
                        assert(without_id(w0, id).contains(x));
                        let k = choose|k: int| 0 <= k < w0.len() && w0[k] == x;
                        assert(1 <= w0[k]);
            }
        }
        true
    }
}

} // verus!
