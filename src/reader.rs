use vstd::prelude::*;

verus! {

/// Size of the buffer a read starts with.
pub const INITIAL_CAPACITY: usize = 4096;

/// How much the buffer grows each time it is filled exactly.
pub const GROWTH: usize = 1024;

/// How an OS-level read attempt failed.
#[derive(Clone, Copy, Debug, PartialEq, Eq, Structural)]
pub enum IoFailure {
    /// No more data is ready right now.
    WouldBlock,
    /// The call was interrupted by a signal and may be retried.
    Interrupted,
    /// The peer closed its side: a read returned zero bytes.
    Closed,
    /// Any other error, fatal to the connection.
    Other,
}

/// True when the failure only says that no data is ready yet.
pub fn would_block(err: &IoFailure) -> (r: bool)
    ensures
        r == (*err == IoFailure::WouldBlock),
{
    matches!(err, IoFailure::WouldBlock)
}

/// True when the failed call should simply be retried.
pub fn interrupted(err: &IoFailure) -> (r: bool)
    ensures
        r == (*err == IoFailure::Interrupted),
{
    matches!(err, IoFailure::Interrupted)
}

/// What the read loop does after one OS-level read.
#[derive(Clone, Copy, Debug, PartialEq, Eq, Structural)]
pub enum ReadStep {
    /// Read again.
    More,
    /// Nothing more is ready: the bytes gathered so far are the payload.
    Done,
    /// The connection is finished: closed by the peer or broken.
    Failed(IoFailure),
}

/// The bytes gathered by the reads of one readable event, and the size of
/// the buffer they are read into.
pub struct Reader {
    data: Vec<u8>,
    capacity: usize,
}

/// Capacity after `added` bytes were appended to `len` bytes in a buffer of
/// size `cap`: one more increment whenever the buffer became exactly full.
pub open spec fn next_capacity(len: nat, cap: nat, added: nat) -> nat {
    if len + added == cap {
        cap + GROWTH as nat
    } else {
        cap
    }
}

/// The state of a reader after one read: its bytes and its capacity.
pub open spec fn after_read(
    data: Seq<u8>,
    cap: nat,
    outcome: Result<Seq<u8>, IoFailure>,
) -> (Seq<u8>, nat) {
    match outcome {
        Ok(chunk) => (data + chunk, next_capacity(data.len(), cap, chunk.len())),
        Err(_) => (data, cap),
    }
}

/// A read outcome with its bytes seen as a sequence.
pub open spec fn outcome_view(outcome: Result<Vec<u8>, IoFailure>) -> Result<Seq<u8>, IoFailure> {
    match outcome {
        Ok(chunk) => Ok(chunk@),
        Err(e) => Err(e),
    }
}

/// The step the read loop takes on one read outcome.
pub open spec fn step_of(outcome: Result<Seq<u8>, IoFailure>) -> ReadStep {
    match outcome {
        Ok(chunk) => if chunk.len() == 0 {
            ReadStep::Failed(IoFailure::Closed)
        } else {
            ReadStep::More
        },
        Err(e) => if e == IoFailure::WouldBlock {
            ReadStep::Done
        } else if e == IoFailure::Interrupted {
            ReadStep::More
        } else {
            ReadStep::Failed(e)
        },
    }
}

impl View for Reader {
    type V = Seq<u8>;

    closed spec fn view(&self) -> Seq<u8> {
        self.data@
    }
}

impl Reader {
    /// The size of the buffer, of which `view().len()` bytes are filled.
    pub closed spec fn cap(&self) -> nat {
        self.capacity as nat
    }

    /// The buffer is never full and never smaller than it started.
    pub closed spec fn wf(&self) -> bool {
        &&& INITIAL_CAPACITY <= self.capacity
        &&& self.data@.len() < self.capacity
    }

    /// An empty reader with a buffer of the initial size.
    pub fn new() -> (r: Reader)
        ensures
            r.wf(),
            r@ == Seq::<u8>::empty(),
            r.cap() == INITIAL_CAPACITY,
    {
        Reader { data: Vec::new(), capacity: INITIAL_CAPACITY }
    }

    /// How many bytes the next read may deliver: the free part of the buffer.
    pub fn room(&self) -> (r: usize)
        requires
            self.wf(),
        ensures
            r == self.cap() - self@.len(),
            r > 0,
    {
        self.capacity - self.data.len()
    }

    /// The size of the buffer.
    pub fn capacity(&self) -> (r: usize)
        ensures
            r == self.cap(),
    {
        self.capacity
    }

    /// The bytes gathered so far, trimmed to exactly what was read.
    pub fn into_bytes(self) -> (r: Vec<u8>)
        ensures
            r@ == self@,
    {
        self.data
    }
}

/// Takes one OS-level read outcome into the reader and says what the read
/// loop does next. A chunk of bytes is appended as it came and the loop reads
/// again; zero bytes mean the peer closed; "would block" ends the loop with
/// the bytes gathered; an interrupt is retried; any other error is fatal.
pub fn read(reader: &mut Reader, outcome: Result<Vec<u8>, IoFailure>) -> (r: ReadStep)
    requires
        old(reader).wf(),
        old(reader).cap() + GROWTH <= usize::MAX,
        outcome matches Ok(chunk) ==> chunk@.len() <= old(reader).cap() - old(reader)@.len(),
    ensures
        final(reader).wf(),
        r == step_of(outcome_view(outcome)),
        (final(reader)@, final(reader).cap()) == after_read(
            old(reader)@,
            old(reader).cap(),
            outcome_view(outcome),
        ),
{
    match outcome {
        Ok(chunk) => {
            if chunk.len() == 0 {
                return ReadStep::Failed(IoFailure::Closed);
            }
            let mut i: usize = 0;
            let ghost start = reader.data@;
            while i < chunk.len()
                invariant
                    i <= chunk@.len(),
                    start == old(reader)@,
                    reader.capacity == old(reader).capacity,
                    reader.data@ == start + chunk@.subrange(0, i as int),
                    start.len() + chunk@.len() <= reader.capacity,
                decreases chunk@.len() - i,
            {
                reader.data.push(chunk[i]);
                i = i + 1;
            }
            assert(chunk@.subrange(0, chunk@.len() as int) == chunk@);
            if reader.data.len() == reader.capacity {
                reader.capacity = reader.capacity + GROWTH;
            }
            ReadStep::More
        },
        Err(e) => {
            if would_block(&e) {
                ReadStep::Done
            } else if interrupted(&e) {
                ReadStep::More
            } else {
                ReadStep::Failed(e)
            }
        },
    }
}

/// The bytes and capacity of a fresh reader after it took each chunk in turn.
pub open spec fn fed(chunks: Seq<Seq<u8>>) -> (Seq<u8>, nat)
    decreases chunks.len(),
{
    if chunks.len() == 0 {
        (Seq::empty(), INITIAL_CAPACITY as nat)
    } else {
        let before = fed(chunks.drop_last());
        after_read(before.0, before.1, Ok(chunks.last()))
    }
}

/// Each chunk is no larger than the room the buffer had when it was read.
pub open spec fn fits(chunks: Seq<Seq<u8>>) -> bool
    decreases chunks.len(),
{
    chunks.len() == 0 || {
        let before = fed(chunks.drop_last());
        fits(chunks.drop_last()) && chunks.last().len() <= before.1 - before.0.len()
    }
}

/// The chunks laid end to end.
pub open spec fn joined(chunks: Seq<Seq<u8>>) -> Seq<u8>
    decreases chunks.len(),
{
    if chunks.len() == 0 {
        Seq::empty()
    } else {
        joined(chunks.drop_last()) + chunks.last()
    }
}

/// A payload that arrives over several reads, each filling at most the free
/// part of the buffer, is gathered as exactly the reads' bytes laid end to
/// end, whatever its size: the buffer grows before it is ever full, so
/// nothing is cut off or overwritten.
pub proof fn lemma_chunks_reassemble(chunks: Seq<Seq<u8>>)
    requires
        fits(chunks),
    ensures
        fed(chunks).0 == joined(chunks),
        fed(chunks).0.len() < fed(chunks).1,
        INITIAL_CAPACITY <= fed(chunks).1,
    decreases chunks.len(),
{
    if chunks.len() > 0 {
        lemma_chunks_reassemble(chunks.drop_last());
    }
}

} // verus!
