use vstd::prelude::*;
use crate::error::ServeError;

verus! {

/// Largest number of file bytes carried by one chunk.
pub const CHUNK_SIZE: u64 = 1024;

/// `n / d` rounded up.
pub open spec fn ceil_div(n: nat, d: nat) -> nat
    recommends
        d > 0,
{
    if n % d == 0 {
        n / d
    } else {
        n / d + 1
    }
}

/// Number of chunks needed to carry a file of `file_size` bytes.
pub fn chunk_count(file_size: u64) -> (r: u64)
    ensures
        r == ceil_div(file_size as nat, CHUNK_SIZE as nat),
{
    if file_size % CHUNK_SIZE == 0 {
        file_size / CHUNK_SIZE
    } else {
        file_size / CHUNK_SIZE + 1
    }
}

/// The eight bytes of `n`, most significant first.
pub open spec fn be_bytes(n: u64) -> Seq<u8> {
    Seq::new(8, |i: int| ((n >> ((56 - 8 * i) as u64)) & 0xff) as u8)
}

/// The header that announces `count` chunks: `count` as eight big-endian bytes.
pub fn encode_count(count: u64) -> (r: Vec<u8>)
    ensures
        r@ == be_bytes(count),
{
    let mut out: Vec<u8> = Vec::new();
    let mut i: u64 = 0;
    while i < 8
        invariant
            i <= 8,
            out@.len() == i,
            forall|j: int| 0 <= j < i ==> out@[j] == be_bytes(count)[j],
        decreases 8 - i,
    {
        out.push(((count >> (56 - 8 * i)) & 0xff) as u8);
        i += 1;
    }
    assert(out@ =~= be_bytes(count));
    out
}

/// The chunks a file's contents are cut into: full chunks of `CHUNK_SIZE`
/// bytes, then whatever is left.
pub open spec fn chunks_of(f: Seq<u8>) -> Seq<Seq<u8>>
    decreases f.len(),
{
    if f.len() == 0 {
        seq![]
    } else if f.len() <= CHUNK_SIZE {
        seq![f]
    } else {
        seq![f.take(CHUNK_SIZE as int)] + chunks_of(f.skip(CHUNK_SIZE as int))
    }
}

/// Cutting a file into chunks loses and adds nothing: the chunks put back
/// together are the file, there are `ceil(len / CHUNK_SIZE)` of them, every
/// one is non-empty, and all but the last are full.
pub proof fn lemma_chunks_of(f: Seq<u8>)
    ensures
        chunks_of(f).flatten() == f,
        chunks_of(f).len() == ceil_div(f.len(), CHUNK_SIZE as nat),
        forall|i: int|
            0 <= i < chunks_of(f).len() ==> 0 < #[trigger] chunks_of(f)[i].len() <= CHUNK_SIZE,
        forall|i: int|
            0 <= i < chunks_of(f).len() - 1 ==> #[trigger] chunks_of(f)[i].len() == CHUNK_SIZE,
    decreases f.len(),
{
    let c = chunks_of(f);
    if f.len() == 0 {
        assert(c.flatten() =~= f);
    } else if f.len() <= CHUNK_SIZE {
        assert(c.drop_first() =~= Seq::<Seq<u8>>::empty());
        assert(c.drop_first().flatten() =~= Seq::<u8>::empty());
        assert(c.first() == f);
        assert(c.flatten() =~= f);
    } else {
        let rest = f.skip(CHUNK_SIZE as int);
        lemma_chunks_of(rest);
        assert(c.drop_first() =~= chunks_of(rest));
        assert(f.take(CHUNK_SIZE as int) + rest =~= f);
        assert(ceil_div(f.len(), CHUNK_SIZE as nat) == ceil_div(rest.len(), CHUNK_SIZE as nat) + 1)
            by (nonlinear_arith)
            requires rest.len() == f.len() - 1024;
        assert forall|i: int| 0 <= i < c.len() implies 0 < #[trigger] c[i].len() <= CHUNK_SIZE by {
            if i > 0 {
                assert(c[i] == chunks_of(rest)[i - 1]);
            }
        }
        assert forall|i: int| 0 <= i < c.len() - 1 implies #[trigger] c[i].len() == CHUNK_SIZE by {
            if i > 0 {
                assert(c[i] == chunks_of(rest)[i - 1]);
            }
        }
    }
}

} // verus!

verus! {

/// Where a sender stands in its exchange with one connection.
#[derive(Clone, Copy, Debug, PartialEq, Eq, Structural)]
pub enum Phase {
    /// Waiting for the file's size.
    Measuring,
    /// The chunk-count header has been handed out for writing.
    SendingHeader,
    /// Waiting for the next piece of the file.
    Reading,
    /// A chunk has been handed out for writing.
    SendingChunk,
    /// Nothing more will be sent.
    Closed,
}

/// What the connection loop is to do next.
#[derive(Debug, PartialEq, Eq)]
pub enum Step {
    /// Write these bytes to the connection, then report with `on_written`.
    Write(Vec<u8>),
    /// Read up to this many bytes of the file, then report with `on_read`
    /// or `on_read_failed`.
    Read(usize),
    /// Write the error's message and the end marker, then close.
    Fail(ServeError),
    /// Write the end marker, then close.
    Finish,
}

/// The abstract form of a `Step`.
pub enum StepView {
    Write(Seq<u8>),
    Read(nat),
    Fail(ServeError),
    Finish,
}

impl View for Step {
    type V = StepView;

    open spec fn view(&self) -> StepView {
        match self {
            Step::Write(b) => StepView::Write(b@),
            Step::Read(n) => StepView::Read(*n as nat),
            Step::Fail(e) => StepView::Fail(*e),
            Step::Finish => StepView::Finish,
        }
    }
}

/// The abstract state of a sender.
pub struct SenderView {
    pub phase: Phase,
    /// The chunk count announced in the header (0 before the size is known).
    pub count: nat,
    /// The file bytes whose writes have succeeded, in order.
    pub forwarded: Seq<u8>,
    /// The chunk whose write is awaited.
    pub pending: Seq<u8>,
}

/// The state of a sender before anything is known of the file.
pub open spec fn initial() -> SenderView {
    SenderView { phase: Phase::Measuring, count: 0, forwarded: seq![], pending: seq![] }
}

/// The state after a report that came in the wrong phase: the stream is closed.
pub open spec fn abandoned(s: SenderView) -> (SenderView, StepView) {
    (SenderView { phase: Phase::Closed, ..s }, StepView::Finish)
}

/// On the file's size (or on the failure to learn it).
pub open spec fn after_metadata(s: SenderView, size: Option<u64>) -> (SenderView, StepView) {
    if s.phase != Phase::Measuring {
        abandoned(s)
    } else {
        match size {
            None => (SenderView { phase: Phase::Closed, ..s }, StepView::Fail(ServeError::Metadata)),
            Some(n) => {
                let count = ceil_div(n as nat, CHUNK_SIZE as nat);
                (
                    SenderView { phase: Phase::SendingHeader, count, ..s },
                    StepView::Write(be_bytes(count as u64)),
                )
            },
        }
    }
}

/// On the outcome of a write of the header or of a chunk.
pub open spec fn after_write(s: SenderView, ok: bool) -> (SenderView, StepView) {
    if s.phase != Phase::SendingHeader && s.phase != Phase::SendingChunk {
        abandoned(s)
    } else if !ok {
        (SenderView { phase: Phase::Closed, pending: seq![], ..s }, StepView::Finish)
    } else {
        (
            SenderView {
                phase: Phase::Reading,
                forwarded: s.forwarded + s.pending,
                pending: seq![],
                ..s
            },
            StepView::Read(CHUNK_SIZE as nat),
        )
    }
}

/// On a piece of the file; an empty piece is the end of the file.
pub open spec fn after_read(s: SenderView, data: Seq<u8>) -> (SenderView, StepView) {
    if s.phase != Phase::Reading {
        abandoned(s)
    } else if data.len() == 0 {
        (SenderView { phase: Phase::Closed, ..s }, StepView::Finish)
    } else {
        (SenderView { phase: Phase::SendingChunk, pending: data, ..s }, StepView::Write(data))
    }
}

/// On a failed read of the file.
pub open spec fn after_read_failure(s: SenderView, e: ServeError) -> (SenderView, StepView) {
    if s.phase != Phase::Reading {
        abandoned(s)
    } else {
        (SenderView { phase: Phase::Closed, ..s }, StepView::Fail(e))
    }
}

/// Streams one file over one connection: a chunk-count header, the file's
/// bytes in chunks of at most `CHUNK_SIZE`, then the end marker. The
/// connection loop performs each step it is given and reports the outcome.
pub struct ChunkSender {
    phase: Phase,
    count: u64,
    forwarded: Ghost<Seq<u8>>,
    pending: Ghost<Seq<u8>>,
}

impl View for ChunkSender {
    type V = SenderView;

    closed spec fn view(&self) -> SenderView {
        SenderView {
            phase: self.phase,
            count: self.count as nat,
            forwarded: self.forwarded@,
            pending: self.pending@,
        }
    }
}

impl ChunkSender {
    pub fn new() -> (r: ChunkSender)
        ensures
            r@ == initial(),
    {
        ChunkSender {
            phase: Phase::Measuring,
            count: 0,
            forwarded: Ghost(Seq::empty()),
            pending: Ghost(Seq::empty()),
        }
    }

    pub fn phase(&self) -> (r: Phase)
        ensures
            r == self@.phase,
    {
        self.phase
    }

    /// The chunk count announced in the header.
    pub fn count(&self) -> (r: u64)
        ensures
            r == self@.count,
    {
        self.count
    }

    fn close(&mut self)
        ensures
            final(self)@ == (SenderView { phase: Phase::Closed, ..old(self)@ }),
    {
        self.phase = Phase::Closed;
    }

    /// Reports the file's size, or `None` when it could not be learned.
    pub fn on_metadata(&mut self, size: Option<u64>) -> (r: Step)
        ensures
            (final(self)@, r@) == after_metadata(old(self)@, size),
    {
        if self.phase != Phase::Measuring {
            self.close();
            return Step::Finish;
        }
        match size {
            None => {
                self.close();
                Step::Fail(ServeError::Metadata)
            },
            Some(n) => {
                let count = chunk_count(n);
                self.count = count;
                self.phase = Phase::SendingHeader;
                Step::Write(encode_count(count))
            },
        }
    }

    /// Reports whether the last write succeeded.
    pub fn on_written(&mut self, ok: bool) -> (r: Step)
        ensures
            (final(self)@, r@) == after_write(old(self)@, ok),
    {
        if self.phase != Phase::SendingHeader && self.phase != Phase::SendingChunk {
            self.close();
            return Step::Finish;
        }
        if !ok {
            self.phase = Phase::Closed;
            self.pending = Ghost(Seq::empty());
            Step::Finish
        } else {
            self.forwarded = Ghost(self.forwarded@ + self.pending@);
            self.pending = Ghost(Seq::empty());
            self.phase = Phase::Reading;
            Step::Read(CHUNK_SIZE as usize)
        }
    }

    /// Reports the bytes just read from the file; none means its end.
    pub fn on_read(&mut self, data: Vec<u8>) -> (r: Step)
        ensures
            (final(self)@, r@) == after_read(old(self)@, data@),
    {
        if self.phase != Phase::Reading {
            self.close();
            return Step::Finish;
        }
        if data.len() == 0 {
            self.close();
            Step::Finish
        } else {
            self.pending = Ghost(data@);
            self.phase = Phase::SendingChunk;
            Step::Write(data)
        }
    }

    /// Reports that reading the file failed, with the reason.
    pub fn on_read_failed(&mut self, reason: String) -> (r: Step)
        ensures
            (final(self)@, r@) == after_read_failure(old(self)@, ServeError::FileRead(reason)),
    {
        if self.phase != Phase::Reading {
            self.close();
            return Step::Finish;
        }
        self.close();
        Step::Fail(ServeError::FileRead(reason))
    }
}

} // verus!

verus! {

/// Feeds a sender waiting on the file the given pieces, one read each, with
/// every chunk write succeeding; gives the final state and the steps that the
/// reads produced.
pub open spec fn replay(s: SenderView, reads: Seq<Seq<u8>>) -> (SenderView, Seq<StepView>)
    decreases reads.len(),
{
    if reads.len() == 0 {
        (s, seq![])
    } else {
        let (s1, step) = after_read(s, reads[0]);
        if s1.phase == Phase::SendingChunk {
            let (s2, _) = after_write(s1, true);
            let (s3, rest) = replay(s2, reads.drop_first());
            (s3, seq![step] + rest)
        } else {
            (s1, seq![step])
        }
    }
}

/// The step that writes one chunk.
pub open spec fn write_step(c: Seq<u8>) -> StepView {
    StepView::Write(c)
}

proof fn lemma_replay_chunks(s: SenderView, f: Seq<u8>)
    requires
        s.phase == Phase::Reading,
        s.pending == Seq::<u8>::empty(),
    ensures
        ({
            let (t, steps) = replay(s, chunks_of(f).push(seq![]));
            &&& steps == chunks_of(f).map_values(|c: Seq<u8>| write_step(c)).push(StepView::Finish)
            &&& t.forwarded == s.forwarded + f
            &&& t.phase == Phase::Closed
            &&& t.count == s.count
        }),
    decreases f.len(),
{
    let reads = chunks_of(f).push(seq![]);
    lemma_chunks_of(f);
    if f.len() == 0 {
        assert(reads =~= seq![Seq::<u8>::empty()]);
        assert(reads.drop_first().len() == 0);
        let (t, steps) = replay(s, reads);
        assert(steps =~= chunks_of(f).map_values(|c: Seq<u8>| write_step(c)).push(StepView::Finish));
        assert(s.forwarded + f =~= s.forwarded);
    } else {
        let first = chunks_of(f)[0];
        let rest = if f.len() <= CHUNK_SIZE { Seq::<u8>::empty() } else { f.skip(CHUNK_SIZE as int) };
        assert(chunks_of(rest).len() == 0 || f.len() > CHUNK_SIZE);
        assert(chunks_of(f) =~= seq![first] + chunks_of(rest));
        assert(first + rest =~= f);
        assert(reads.drop_first() =~= chunks_of(rest).push(seq![]));
        let (s1, step) = after_read(s, reads[0]);
        let (s2, _) = after_write(s1, true);
        lemma_replay_chunks(s2, rest);
        let (t, steps) = replay(s, reads);
        let (t2, rest_steps) = replay(s2, reads.drop_first());
        assert(steps == seq![step] + rest_steps);
        assert(steps =~= chunks_of(f).map_values(|c: Seq<u8>| write_step(c)).push(StepView::Finish));
        assert(s.forwarded + f =~= s.forwarded + first + rest);
    }
}

/// A file of `f.len()` bytes whose reads give it in full chunks is streamed
/// whole: the header announces `ceil(len / CHUNK_SIZE)` chunks, one write
/// follows for each chunk of the file, then the end marker, and the bytes
/// written in chunks are the file, byte for byte.
pub proof fn lemma_file_is_streamed(f: Seq<u8>)
    requires
        f.len() <= u64::MAX,
    ensures
        ({
            let (s0, header) = after_metadata(initial(), Some(f.len() as u64));
            let (s1, first) = after_write(s0, true);
            let (t, steps) = replay(s1, chunks_of(f).push(seq![]));
            &&& header == StepView::Write(be_bytes(ceil_div(f.len(), CHUNK_SIZE as nat) as u64))
            &&& first == StepView::Read(CHUNK_SIZE as nat)
            &&& steps == chunks_of(f).map_values(|c: Seq<u8>| write_step(c)).push(StepView::Finish)
            &&& chunks_of(f).len() == ceil_div(f.len(), CHUNK_SIZE as nat)
            &&& t.count == ceil_div(f.len(), CHUNK_SIZE as nat)
            &&& t.forwarded == f
            &&& t.phase == Phase::Closed
        }),
{
    let (s0, header) = after_metadata(initial(), Some(f.len() as u64));
    let (s1, first) = after_write(s0, true);
    lemma_chunks_of(f);
    lemma_replay_chunks(s1, f);
    assert(s1.forwarded =~= Seq::<u8>::empty());
    assert(s1.forwarded + f =~= f);
}

} // verus!
