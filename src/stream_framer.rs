//! Self-terminating chunk framing for file bodies.
//!
//! A stream is a sequence of chunks, each a 4-byte little-endian length
//! followed by that many bytes; a chunk of length zero ends the stream.
//! [`ChunkedWriter`] frames bytes handed to it and [`ChunkedReader`] takes
//! framed bytes apart again, both without touching any socket: the caller
//! moves the bytes.
use vstd::prelude::*;

verus! {

/// Size of the chunks that a writer emits while data keeps coming.
pub const CHUNK_SIZE: usize = 8192;

/// The four little-endian bytes of `n`.
pub open spec fn le32(n: u32) -> Seq<u8> {
    seq![
        (n & 0xff) as u8,
        ((n >> 8u32) & 0xff) as u8,
        ((n >> 16u32) & 0xff) as u8,
        ((n >> 24u32) & 0xff) as u8,
    ]
}

/// The number that four little-endian bytes stand for.
pub open spec fn le32_value(b: Seq<u8>) -> u32
    recommends
        b.len() == 4,
{
    (b[0] as u32) | ((b[1] as u32) << 8u32) | ((b[2] as u32) << 16u32) | ((b[3] as u32) << 24u32)
}

/// The framed form of a sequence of chunks, without the end marker.
pub open spec fn frame(chunks: Seq<Seq<u8>>) -> Seq<u8>
    decreases chunks.len(),
{
    if chunks.len() == 0 {
        Seq::empty()
    } else {
        frame(chunks.drop_last()) + le32(chunks.last().len() as u32) + chunks.last()
    }
}

/// The bytes of all chunks, one after the other.
pub open spec fn joined(chunks: Seq<Seq<u8>>) -> Seq<u8>
    decreases chunks.len(),
{
    if chunks.len() == 0 {
        Seq::empty()
    } else {
        joined(chunks.drop_last()) + chunks.last()
    }
}

/// Every chunk is non-empty (an empty one would end the stream) and its
/// length fits the 4-byte header.
pub open spec fn valid_chunks(chunks: Seq<Seq<u8>>) -> bool {
    forall|i: int| 0 <= i < chunks.len() ==> 0 < #[trigger] chunks[i].len() <= u32::MAX
}

/// A complete chunk stream: the chunks, then the end marker.
pub open spec fn chunk_stream(chunks: Seq<Seq<u8>>) -> Seq<u8> {
    frame(chunks) + le32(0)
}

/// Where a reader stands in the stream.
pub enum ReaderState {
    /// Reading a chunk header; holds the header bytes seen so far.
    Header(Seq<u8>),
    /// Inside a chunk body; holds the number of body bytes still to come.
    Body(u32),
    /// The end marker was read.
    Done,
}

/// One byte through the reader: the next state and the data bytes it yields.
pub open spec fn step(s: ReaderState, b: u8) -> (ReaderState, Seq<u8>) {
    match s {
        ReaderState::Header(got) => {
            let g = got.push(b);
            if g.len() < 4 {
                (ReaderState::Header(g), Seq::empty())
            } else if le32_value(g) == 0 {
                (ReaderState::Done, Seq::empty())
            } else {
                (ReaderState::Body(le32_value(g)), Seq::empty())
            }
        },
        ReaderState::Body(n) => {
            if n <= 1 {
                (ReaderState::Header(Seq::empty()), seq![b])
            } else {
                (ReaderState::Body((n - 1) as u32), seq![b])
            }
        },
        ReaderState::Done => (ReaderState::Done, Seq::empty()),
    }
}

/// A run of bytes through the reader: the final state and all data yielded.
pub open spec fn run(s: ReaderState, bytes: Seq<u8>) -> (ReaderState, Seq<u8>)
    decreases bytes.len(),
{
    if bytes.len() == 0 {
        (s, Seq::empty())
    } else {
        let (s1, o1) = run(s, bytes.drop_last());
        let (s2, o2) = step(s1, bytes.last());
        (s2, o1 + o2)
    }
}

/// The state of a reader that has not seen any byte.
pub open spec fn start() -> ReaderState {
    ReaderState::Header(Seq::empty())
}

/// The full chunks of `size` bytes that `d` splits into, from the front.
pub open spec fn full_chunks(d: Seq<u8>, size: nat) -> Seq<Seq<u8>>
    decreases d.len(),
{
    if size == 0 || d.len() < size {
        Seq::empty()
    } else {
        seq![d.take(size as int)] + full_chunks(d.skip(size as int), size)
    }
}

/// What is left of `d` after its full chunks of `size` bytes.
pub open spec fn remainder(d: Seq<u8>, size: nat) -> Seq<u8>
    decreases d.len(),
{
    if size == 0 || d.len() < size {
        d
    } else {
        remainder(d.skip(size as int), size)
    }
}

/// The chunks a writer frames `d` into when it is written and then
/// finished without a flush in between: full chunks, then one short chunk
/// for the rest, if any.
pub open spec fn chunked(d: Seq<u8>, size: nat) -> Seq<Seq<u8>> {
    if remainder(d, size).len() == 0 {
        full_chunks(d, size)
    } else {
        full_chunks(d, size).push(remainder(d, size))
    }
}

/// Every full chunk has exactly `size` bytes, and what is left is shorter.
pub proof fn lemma_full_chunks_sizes(d: Seq<u8>, size: nat)
    requires
        size > 0,
    ensures
        forall|i: int| 0 <= i < full_chunks(d, size).len() ==> #[trigger] full_chunks(d, size)[i].len() == size,
        remainder(d, size).len() < size,
    decreases d.len(),
{
    if d.len() >= size {
        lemma_full_chunks_sizes(d.skip(size as int), size);
        let rest = full_chunks(d.skip(size as int), size);
        assert forall|i: int| 0 <= i < full_chunks(d, size).len() implies #[trigger] full_chunks(d, size)[i].len() == size by {
            if i > 0 {
                assert(full_chunks(d, size)[i] == rest[i - 1]);
            }
        }
    }
}

pub(crate) proof fn lemma_le32_round_trip(n: u32)
    ensures
        le32_value(le32(n)) == n,
        le32(n).len() == 4,
{
    let b = le32(n);
    assert(b[0] == (n & 0xff) as u8);
    assert(b[1] == ((n >> 8u32) & 0xff) as u8);
    assert(b[2] == ((n >> 16u32) & 0xff) as u8);
    assert(b[3] == ((n >> 24u32) & 0xff) as u8);
    assert(((n & 0xff) as u8 as u32) | ((((n >> 8u32) & 0xff) as u8 as u32) << 8u32) | ((((n
        >> 16u32) & 0xff) as u8 as u32) << 16u32) | ((((n >> 24u32) & 0xff) as u8 as u32)
        << 24u32) == n) by (bit_vector);
}

/// Reading in pieces: feeding `a + b` to a reader is feeding `a`, then `b`
/// from where `a` left off, so where the input is cut makes no difference.
pub proof fn lemma_run_append(s: ReaderState, a: Seq<u8>, b: Seq<u8>)
    ensures
        run(s, a + b) == (run(run(s, a).0, b).0, run(s, a).1 + run(run(s, a).0, b).1),
    decreases b.len(),
{
    if b.len() == 0 {
        assert(a + b =~= a);
        assert(run(s, a).1 + Seq::<u8>::empty() =~= run(s, a).1);
    } else {
        assert((a + b).drop_last() =~= a + b.drop_last());
        assert((a + b).last() == b.last());
        lemma_run_append(s, a, b.drop_last());
        let (s1, o1) = run(run(s, a).0, b.drop_last());
        let (s2, o2) = step(s1, b.last());
        assert(run(s, a).1 + o1 + o2 =~= run(s, a).1 + (o1 + o2));
    }
}

/// A body of at most `n` bytes, read while `n` body bytes are due, comes out unchanged.
proof fn lemma_run_body(n: u32, c: Seq<u8>)
    requires
        0 < c.len() <= n,
    ensures
        run(ReaderState::Body(n), c) == (
            if c.len() == n {
                ReaderState::Header(Seq::empty())
            } else {
                ReaderState::Body((n - c.len()) as u32)
            },
            c,
        ),
    decreases c.len(),
{
    if c.len() == 1 {
        assert(c.drop_last() =~= Seq::<u8>::empty());
        assert(Seq::<u8>::empty() + seq![c.last()] =~= c);
        assert(run(ReaderState::Body(n), c.drop_last()) == (ReaderState::Body(n), Seq::<u8>::empty()));
    } else {
        let init = c.drop_last();
        lemma_run_body(n, init);
        assert(run(ReaderState::Body(n), init) == (ReaderState::Body((n - init.len()) as u32), init));
        assert(step(ReaderState::Body((n - init.len()) as u32), c.last()).1 == seq![c.last()]);
        assert(init + seq![c.last()] =~= c);
        assert(run(ReaderState::Body(n), c) == (step(ReaderState::Body((n - init.len()) as u32), c.last()).0, c));
    }
}

/// Four header bytes of a non-zero length put the reader inside a body of that length.
proof fn lemma_run_header(n: u32)
    ensures
        run(start(), le32(n)) == (
            if n == 0 {
                ReaderState::Done
            } else {
                ReaderState::Body(n)
            },
            Seq::<u8>::empty(),
        ),
{
    lemma_le32_round_trip(n);
    let b = le32(n);
    assert(b.take(0) =~= Seq::<u8>::empty());
    assert(b.take(1).drop_last() =~= b.take(0));
    assert(b.take(2).drop_last() =~= b.take(1));
    assert(b.take(3).drop_last() =~= b.take(2));
    assert(b.take(4).drop_last() =~= b.take(3));
    assert(Seq::<u8>::empty().push(b[0]) =~= b.take(1));
    assert(b.take(1).push(b[1]) =~= b.take(2));
    assert(b.take(2).push(b[2]) =~= b.take(3));
    assert(b.take(3).push(b[3]) =~= b.take(4));
    assert(b.take(4) =~= b);
    assert(b.take(1).last() == b[0]);
    assert(b.take(2).last() == b[1]);
    assert(b.take(3).last() == b[2]);
    assert(b.take(4).last() == b[3]);
    assert(Seq::<u8>::empty() + Seq::<u8>::empty() =~= Seq::<u8>::empty());
    assert(run(start(), b.take(0)) == (start(), Seq::<u8>::empty()));
    assert(run(start(), b.take(1)) == (ReaderState::Header(b.take(1)), Seq::<u8>::empty()));
    assert(run(start(), b.take(2)) == (ReaderState::Header(b.take(2)), Seq::<u8>::empty()));
    assert(run(start(), b.take(3)) == (ReaderState::Header(b.take(3)), Seq::<u8>::empty()));
}

/// Framed chunks read from the start leave the reader at the next header,
/// having yielded the chunks' bytes.
proof fn lemma_run_frame(chunks: Seq<Seq<u8>>)
    requires
        valid_chunks(chunks),
    ensures
        run(start(), frame(chunks)) == (start(), joined(chunks)),
    decreases chunks.len(),
{
    if chunks.len() == 0 {
    } else {
        let init = chunks.drop_last();
        let c = chunks.last();
        assert(valid_chunks(init)) by {
            assert forall|i: int| 0 <= i < init.len() implies 0 < #[trigger] init[i].len()
                <= u32::MAX by {
                assert(init[i] == chunks[i]);
            }
        }
        assert(0 < chunks[chunks.len() - 1].len() <= u32::MAX);
        let n = c.len() as u32;
        lemma_run_frame(init);
        lemma_run_append(start(), frame(init), le32(n));
        lemma_run_header(n);
        lemma_run_append(start(), frame(init) + le32(n), c);
        lemma_run_body(n, c);
        assert(joined(init) + Seq::<u8>::empty() =~= joined(init));
    }
}

/// Chunk framing round trip: a complete stream of any chunks, whatever
/// their sizes, reads back as exactly their bytes, and the reader stops at
/// the end marker.
pub proof fn lemma_chunk_stream_round_trip(chunks: Seq<Seq<u8>>)
    requires
        valid_chunks(chunks),
    ensures
        run(start(), chunk_stream(chunks)) == (ReaderState::Done, joined(chunks)),
{
    lemma_run_frame(chunks);
    lemma_run_append(start(), frame(chunks), le32(0));
    lemma_run_header(0);
    assert(joined(chunks) + Seq::<u8>::empty() =~= joined(chunks));
}

/// Appends `src[lo..hi]` to `out`.
pub fn push_range(out: &mut Vec<u8>, src: &[u8], lo: usize, hi: usize)
    requires
        lo <= hi <= src@.len(),
    ensures
        final(out)@ == old(out)@ + src@.subrange(lo as int, hi as int),
{
    let mut i: usize = lo;
    while i < hi
        invariant
            lo <= i <= hi <= src@.len(),
            out@ == old(out)@ + src@.subrange(lo as int, i as int),
        decreases hi - i,
    {
        out.push(src[i]);
        i = i + 1;
        assert(out@ =~= old(out)@ + src@.subrange(lo as int, i as int));
    }
}

/// Appends the four little-endian bytes of `n` to `out`.
pub fn push_le32(out: &mut Vec<u8>, n: u32)
    ensures
        final(out)@ == old(out)@ + le32(n),
{
    out.push((n & 0xff) as u8);
    out.push(((n >> 8u32) & 0xff) as u8);
    out.push(((n >> 16u32) & 0xff) as u8);
    out.push(((n >> 24u32) & 0xff) as u8);
    assert(out@ =~= old(out)@ + le32(n));
}

/// Builds chunk writers and readers.
pub struct StreamFramer;

impl StreamFramer {
    /// A reader at the start of a chunk stream.
    pub fn streaming_reader() -> (r: ChunkedReader)
        ensures
            r.wf(),
            r.state() == start(),
    {
        ChunkedReader { header: Vec::new(), remaining: 0, done: false }
    }

    /// A writer that has framed nothing yet and emits chunks of [`CHUNK_SIZE`] bytes.
    pub fn streaming_writer() -> (w: ChunkedWriter)
        ensures
            w.wf(),
            w.written() == Seq::<u8>::empty(),
            w.emitted() == Seq::<u8>::empty(),
            w.output() == Seq::<u8>::empty(),
            !w.is_finished(),
            w.frames_written(),
            w.chunk_size() == CHUNK_SIZE,
            w.chunks() == Seq::<Seq<u8>>::empty(),
            w.pending() == Seq::<u8>::empty(),
    {
        ChunkedWriter {
            buffer: Vec::new(),
            chunk_size: CHUNK_SIZE,
            output: Vec::new(),
            finished: false,
            chunks: Ghost(Seq::empty()),
            sent: Ghost(Seq::empty()),
            data: Ghost(Seq::empty()),
        }
    }
}

/// Takes a chunk stream apart, fed with bytes as they arrive.
pub struct ChunkedReader {
    header: Vec<u8>,
    remaining: u32,
    done: bool,
}

impl ChunkedReader {
    pub closed spec fn wf(&self) -> bool {
        &&& self.header@.len() < 4
        &&& self.remaining > 0 ==> self.header@.len() == 0
        &&& self.done ==> self.remaining == 0 && self.header@.len() == 0
    }

    /// Where the reader stands in the stream.
    pub closed spec fn state(&self) -> ReaderState {
        if self.done {
            ReaderState::Done
        } else if self.remaining > 0 {
            ReaderState::Body(self.remaining)
        } else {
            ReaderState::Header(self.header@)
        }
    }

    /// Whether the end marker has been read.
    pub fn is_done(&self) -> (r: bool)
        requires
            self.wf(),
        ensures
            r == (self.state() is Done),
    {
        self.done
    }

    fn push_byte(&mut self, b: u8, out: &mut Vec<u8>)
        requires
            old(self).wf(),
        ensures
            final(self).wf(),
            final(self).state() == step(old(self).state(), b).0,
            final(out)@ == old(out)@ + step(old(self).state(), b).1,
    {
        if self.done {
            assert(old(out)@ + Seq::<u8>::empty() =~= old(out)@);
        } else if self.remaining > 0 {
            out.push(b);
            self.remaining = self.remaining - 1;
            assert(self.header@ =~= Seq::<u8>::empty());
            assert(final(out)@ =~= old(out)@ + seq![b]);
        } else {
            self.header.push(b);
            assert(self.header@ == old(self).header@.push(b));
            if self.header.len() == 4 {
                let h = &self.header;
                let n: u32 = (h[0] as u32) | ((h[1] as u32) << 8u32) | ((h[2] as u32) << 16u32)
                    | ((h[3] as u32) << 24u32);
                assert(n == le32_value(self.header@));
                self.header = Vec::new();
                if n == 0 {
                    self.done = true;
                } else {
                    self.remaining = n;
                }
            }
            assert(old(out)@ + Seq::<u8>::empty() =~= old(out)@);
        }
    }

    /// Reads framed bytes until `input` runs out or the end marker is read.
    /// Returns how many bytes of `input` were taken, which is all of them
    /// unless the stream ended first, and the data bytes they carried.
    pub fn feed(&mut self, input: &[u8]) -> (r: (usize, Vec<u8>))
        requires
            old(self).wf(),
        ensures
            final(self).wf(),
            r.0 <= input@.len(),
            run(old(self).state(), input@.take(r.0 as int)) == (final(self).state(), r.1@),
            r.0 < input@.len() ==> final(self).state() is Done,
            old(self).state() is Done ==> r.0 == 0,
            forall|k: int| 0 <= k < r.0 ==> !(#[trigger] run(old(self).state(), input@.take(k)).0 is Done),
    {
        let mut out: Vec<u8> = Vec::new();
        let mut i: usize = 0;
        assert(input@.take(0) =~= Seq::<u8>::empty());
        while i < input.len() && !self.done
            invariant
                self.wf(),
                i <= input@.len(),
                run(old(self).state(), input@.take(i as int)) == (self.state(), out@),
                old(self).state() is Done ==> i == 0,
                forall|k: int| 0 <= k < i ==> !(#[trigger] run(old(self).state(), input@.take(k)).0 is Done),
            decreases input@.len() - i,
        {
            let ghost prev = input@.take(i as int);
            assert(input@.take(i + 1).drop_last() =~= prev);
            assert(input@.take(i + 1).last() == input@[i as int]);
            self.push_byte(input[i], &mut out);
            i = i + 1;
        }
        (i, out)
    }
}

/// Frames the bytes written to it into chunks of a fixed size; the framed
/// bytes wait in an output buffer until the caller takes them.
pub struct ChunkedWriter {
    buffer: Vec<u8>,
    chunk_size: usize,
    output: Vec<u8>,
    finished: bool,
    chunks: Ghost<Seq<Seq<u8>>>,
    sent: Ghost<Seq<u8>>,
    data: Ghost<Seq<u8>>,
}

impl ChunkedWriter {
    pub closed spec fn wf(&self) -> bool {
        &&& 0 < self.chunk_size <= u32::MAX
        &&& self.buffer@.len() < self.chunk_size
        &&& valid_chunks(self.chunks@)
        &&& joined(self.chunks@) + self.buffer@ == self.data@
        &&& self.sent@ + self.output@ == if self.finished {
            chunk_stream(self.chunks@)
        } else {
            frame(self.chunks@)
        }
        &&& self.finished ==> self.buffer@.len() == 0
    }

    /// Everything written so far.
    pub closed spec fn written(&self) -> Seq<u8> {
        self.data@
    }

    /// Framed bytes that wait to be taken.
    pub closed spec fn output(&self) -> Seq<u8> {
        self.output@
    }

    /// Every framed byte so far: those already taken, then those waiting.
    pub closed spec fn emitted(&self) -> Seq<u8> {
        self.sent@ + self.output@
    }

    /// Bytes written but not yet framed.
    pub closed spec fn pending(&self) -> Seq<u8> {
        self.buffer@
    }

    /// The chunks emitted so far, in order.
    pub closed spec fn chunks(&self) -> Seq<Seq<u8>> {
        self.chunks@
    }

    /// The size of the chunks emitted while data keeps coming.
    pub closed spec fn chunk_size(&self) -> nat {
        self.chunk_size as nat
    }

    /// What the writer's state says in public terms: the bytes emitted are
    /// the framed chunks (then the end marker once finished), the chunks and
    /// the pending bytes together are what was written, no chunk is empty,
    /// and fewer than a chunk's worth of bytes wait.
    pub open spec fn frames_written(&self) -> bool {
        &&& self.emitted() == if self.is_finished() {
            chunk_stream(self.chunks())
        } else {
            frame(self.chunks())
        }
        &&& joined(self.chunks()) + self.pending() == self.written()
        &&& valid_chunks(self.chunks())
        &&& self.pending().len() < self.chunk_size()
        &&& self.is_finished() ==> self.pending().len() == 0
    }

    /// Whether the end marker has been emitted.
    pub closed spec fn is_finished(&self) -> bool {
        self.finished
    }

    /// Chunk framing round trip: every byte that a finished writer emitted,
    /// read from the start, yields exactly the bytes written to it, whatever
    /// sizes the writes had, and leaves the reader at the end of the stream.
    pub proof fn lemma_writer_reader_round_trip(&self)
        requires
            self.wf(),
            self.is_finished(),
        ensures
            run(start(), self.emitted()) == (ReaderState::Done, self.written()),
    {
        assert(joined(self.chunks@) + self.buffer@ =~= joined(self.chunks@));
        lemma_chunk_stream_round_trip(self.chunks@);
    }

    /// Emits `src[lo..hi]` as one chunk.
    fn emit(&mut self, src: &[u8], lo: usize, hi: usize)
        requires
            lo < hi <= src@.len(),
            hi - lo <= u32::MAX,
        ensures
            final(self).chunk_size == old(self).chunk_size,
            final(self).buffer == old(self).buffer,
            final(self).finished == old(self).finished,
            final(self).sent == old(self).sent,
            final(self).data == old(self).data,
            final(self).chunks@ == old(self).chunks@.push(src@.subrange(lo as int, hi as int)),
            final(self).output@ == old(self).output@ + le32((hi - lo) as u32) + src@.subrange(
                lo as int,
                hi as int,
            ),
    {
        push_le32(&mut self.output, (hi - lo) as u32);
        push_range(&mut self.output, src, lo, hi);
        let ghost c = src@.subrange(lo as int, hi as int);
        self.chunks = Ghost(self.chunks@.push(c));
    }

    proof fn lemma_push_chunk(chunks: Seq<Seq<u8>>, c: Seq<u8>)
        requires
            valid_chunks(chunks),
            0 < c.len() <= u32::MAX,
        ensures
            valid_chunks(chunks.push(c)),
            frame(chunks.push(c)) == frame(chunks) + le32(c.len() as u32) + c,
            joined(chunks.push(c)) == joined(chunks) + c,
    {
        let p = chunks.push(c);
        assert(p.drop_last() =~= chunks);
        assert(p.last() == c);
        assert forall|i: int| 0 <= i < p.len() implies 0 < #[trigger] p[i].len() <= u32::MAX by {
            if i < chunks.len() {
                assert(p[i] == chunks[i]);
            }
        }
    }

    /// Frames `buf`; full chunks go to the output, the rest waits for more data.
    pub fn write(&mut self, buf: &[u8]) -> (n: usize)
        requires
            old(self).wf(),
            !old(self).is_finished(),
        ensures
            final(self).wf(),
            !final(self).is_finished(),
            final(self).frames_written(),
            n == buf@.len(),
            final(self).written() == old(self).written() + buf@,
            final(self).chunk_size() == old(self).chunk_size(),
            final(self).chunks() == old(self).chunks() + full_chunks(
                old(self).pending() + buf@,
                old(self).chunk_size(),
            ),
            final(self).pending() == remainder(old(self).pending() + buf@, old(self).chunk_size()),
            final(self).emitted() == old(self).emitted() + (final(self).output().skip(
                old(self).output().len() as int,
            )),
            old(self).output().is_prefix_of(final(self).output()),
    {
        let ghost old_out = self.output@;
        let ghost total = self.buffer@ + buf@;
        let ghost goal = self.chunks@ + full_chunks(total, self.chunk_size as nat);
        let ghost rem = remainder(total, self.chunk_size as nat);
        let cs = self.chunk_size;
        let mut i: usize = 0;
        assert(buf@.skip(0) =~= buf@);
        if self.buffer.len() > 0 {
            let room = cs - self.buffer.len();
            let take = if room < buf.len() {
                room
            } else {
                buf.len()
            };
            push_range(&mut self.buffer, buf, 0, take);
            i = take;
            assert(self.buffer@ + buf@.skip(i as int) =~= total);
            self.data = Ghost(self.data@ + buf@.subrange(0, take as int));
            assert(joined(self.chunks@) + self.buffer@ =~= self.data@);
            if self.buffer.len() == cs {
                let ghost c = self.buffer@;
                let ghost d = c + buf@.skip(i as int);
                assert(d.take(cs as int) =~= c);
                assert(d.skip(cs as int) =~= buf@.skip(i as int));
                assert(full_chunks(d, cs as nat) == seq![c] + full_chunks(buf@.skip(i as int), cs as nat));
                assert(remainder(d, cs as nat) == remainder(buf@.skip(i as int), cs as nat));
                proof {
                    Self::lemma_push_chunk(self.chunks@, c);
                }
                let ghost before = self.chunks@;
                let mut pending: Vec<u8> = Vec::new();
                std::mem::swap(&mut self.buffer, &mut pending);
                self.emit(pending.as_slice(), 0, cs);
                assert(pending@.subrange(0, cs as int) =~= c);
                assert(joined(self.chunks@) + self.buffer@ =~= self.data@);
                assert(self.sent@ + self.output@ =~= frame(self.chunks@));
                assert(self.buffer@ + buf@.skip(i as int) =~= buf@.skip(i as int));
                assert(self.chunks@ + full_chunks(buf@.skip(i as int), cs as nat) =~= before + (
                seq![c] + full_chunks(buf@.skip(i as int), cs as nat)));
            }
        }
        while i < buf.len() && buf.len() - i >= cs
            invariant
                self.wf(),
                !self.finished,
                self.chunk_size == cs,
                i <= buf@.len(),
                i < buf@.len() ==> self.buffer@.len() == 0,
                self.data@ == old(self).data@ + buf@.subrange(0, i as int),
                self.sent@ == old(self).sent@,
                old_out.is_prefix_of(self.output@),
                self.chunks@ + full_chunks(self.buffer@ + buf@.skip(i as int), cs as nat) == goal,
                remainder(self.buffer@ + buf@.skip(i as int), cs as nat) == rem,
            decreases buf@.len() - i,
        {
            let ghost c = buf@.subrange(i as int, (i + cs) as int);
            let ghost d = buf@.skip(i as int);
            assert(self.buffer@ + d =~= d);
            assert(d.take(cs as int) =~= c);
            assert(d.skip(cs as int) =~= buf@.skip(i + cs));
            assert(full_chunks(d, cs as nat) == seq![c] + full_chunks(buf@.skip(i + cs), cs as nat));
            let ghost chunks_before = self.chunks@;
            proof {
                Self::lemma_push_chunk(self.chunks@, c);
            }
            let ghost before = self.output@;
            self.emit(buf, i, i + cs);
            assert(old_out.is_prefix_of(self.output@)) by {
                assert forall|k: int| 0 <= k < old_out.len() implies self.output@[k]
                    == old_out[k] by {
                    assert(self.output@[k] == before[k]);
                }
            }
            self.data = Ghost(self.data@ + c);
            i = i + cs;
            assert(self.data@ =~= old(self).data@ + buf@.subrange(0, i as int));
            assert(joined(self.chunks@) + self.buffer@ =~= self.data@);
            assert(self.sent@ + self.output@ =~= frame(self.chunks@));
            assert(self.buffer@ + buf@.skip(i as int) =~= buf@.skip(i as int));
            assert(self.chunks@ + full_chunks(buf@.skip(i as int), cs as nat) =~= chunks_before + full_chunks(
                d,
                cs as nat,
            ));
        }
        let ghost tail = buf@.subrange(i as int, buf@.len() as int);
        let ghost d = self.buffer@ + buf@.skip(i as int);
        assert(d.len() < cs);
        assert(full_chunks(d, cs as nat) =~= Seq::<Seq<u8>>::empty());
        assert(self.chunks@ + Seq::<Seq<u8>>::empty() =~= self.chunks@);
        push_range(&mut self.buffer, buf, i, buf.len());
        assert(self.buffer@ =~= d);
        self.data = Ghost(self.data@ + tail);
        assert(self.data@ =~= old(self).data@ + buf@);
        assert(joined(self.chunks@) + self.buffer@ =~= self.data@);
        assert(self.sent@ + self.output@ == old(self).sent@ + self.output@);
        assert(old(self).sent@ + old_out + self.output@.skip(old_out.len() as int) =~= old(
            self,
        ).sent@ + self.output@);
        buf.len()
    }

    /// Emits the waiting bytes as one chunk, if there are any.
    pub fn flush(&mut self)
        requires
            old(self).wf(),
            !old(self).is_finished(),
        ensures
            final(self).wf(),
            !final(self).is_finished(),
            final(self).frames_written(),
            final(self).chunk_size() == old(self).chunk_size(),
            final(self).chunks() == if old(self).pending().len() == 0 {
                old(self).chunks()
            } else {
                old(self).chunks().push(old(self).pending())
            },
            final(self).written() == old(self).written(),
            final(self).pending() == Seq::<u8>::empty(),
            old(self).output().is_prefix_of(final(self).output()),
            final(self).emitted() == old(self).emitted() + (final(self).output().skip(
                old(self).output().len() as int,
            )),
    {
        let ghost old_out = self.output@;
        if self.buffer.len() > 0 {
            let len = self.buffer.len();
            let ghost c = self.buffer@;
            proof {
                Self::lemma_push_chunk(self.chunks@, c);
            }
            let mut pending: Vec<u8> = Vec::new();
                std::mem::swap(&mut self.buffer, &mut pending);
            self.emit(pending.as_slice(), 0, len);
            assert(pending@.subrange(0, len as int) =~= c);
            assert(joined(self.chunks@) + self.buffer@ =~= self.data@);
            assert(self.sent@ + self.output@ =~= frame(self.chunks@));
        }
        assert(self.buffer@ =~= Seq::<u8>::empty());
        assert(old(self).sent@ + old_out + self.output@.skip(old_out.len() as int) =~= old(
            self,
        ).sent@ + self.output@);
    }

    /// Emits the waiting bytes and the end marker. Nothing can be written after.
    pub fn finish(&mut self)
        requires
            old(self).wf(),
            !old(self).is_finished(),
        ensures
            final(self).wf(),
            final(self).is_finished(),
            final(self).frames_written(),
            final(self).chunk_size() == old(self).chunk_size(),
            final(self).chunks() == if old(self).pending().len() == 0 {
                old(self).chunks()
            } else {
                old(self).chunks().push(old(self).pending())
            },
            final(self).written() == old(self).written(),
            old(self).output().is_prefix_of(final(self).output()),
            final(self).emitted() == old(self).emitted() + (final(self).output().skip(
                old(self).output().len() as int,
            )),
    {
        let ghost old_out = self.output@;
        self.flush();
        push_le32(&mut self.output, 0);
        self.finished = true;
        assert(self.sent@ + self.output@ =~= chunk_stream(self.chunks@));
        assert(old(self).sent@ + old_out + self.output@.skip(old_out.len() as int) =~= old(
            self,
        ).sent@ + self.output@);
    }

    /// Hands out the framed bytes that wait.
    pub fn take_output(&mut self) -> (r: Vec<u8>)
        requires
            old(self).wf(),
        ensures
            final(self).wf(),
            r@ == old(self).output(),
            final(self).output() == Seq::<u8>::empty(),
            final(self).emitted() == old(self).emitted(),
            final(self).frames_written(),
            final(self).chunk_size() == old(self).chunk_size(),
            final(self).chunks() == old(self).chunks(),
            final(self).pending() == old(self).pending(),
            final(self).written() == old(self).written(),
            final(self).is_finished() == old(self).is_finished(),
    {
        let mut out: Vec<u8> = Vec::new();
        std::mem::swap(&mut self.output, &mut out);
        self.sent = Ghost(self.sent@ + out@);
        assert(self.sent@ + self.output@ =~= old(self).sent@ + old(self).output@);
        out
    }
}

} // verus!
