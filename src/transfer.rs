//! File bodies as they travel: optionally compressed, then chunk-framed.
use crate::stream_framer::{
    chunk_stream, chunked, run, start, ChunkedReader, ReaderState,
    StreamFramer, CHUNK_SIZE,
};
use vstd::prelude::*;

verus! {

/// The zstd frame that compressing `data` at `level` produces.
pub uninterp spec fn zstd_compressed(level: i32, data: Seq<u8>) -> Seq<u8>;

/// The bytes that decompressing the zstd frames in `data` yields.
pub uninterp spec fn zstd_decompressed(data: Seq<u8>) -> Seq<u8>;

/// Whether `data` is a sequence of well-formed zstd frames.
pub uninterp spec fn zstd_frames_ok(data: Seq<u8>) -> bool;

/// Relies on `zstd::encode_all`: compresses the bytes into one zstd frame at
/// the given level. Reading from a slice and writing into a `Vec` cannot
/// fail, so a level that zstd accepts (1 to 22) always succeeds.
#[verifier::external_body]
fn zstd_encode(data: &[u8], level: i32) -> (r: Option<Vec<u8>>)
    ensures
        r matches Some(v) ==> v@ == zstd_compressed(level, data@),
        1 <= level <= 22 ==> r is Some,
{
    zstd::encode_all(data, level).ok()
}

/// Relies on `zstd::decode_all`: decompresses zstd frames. It succeeds
/// exactly on well-formed frames, and zstd is lossless: the frame that
/// compressing some bytes produced decompresses to those bytes.
#[verifier::external_body]
fn zstd_decode(data: &[u8]) -> (r: Option<Vec<u8>>)
    ensures
        r matches Some(v) ==> v@ == zstd_decompressed(data@),
        r is Some <==> zstd_frames_ok(data@),
        r is Some || forall|made: (i32, Seq<u8>)|
            !(1 <= made.0 <= 22 && data@ == #[trigger] zstd_compressed(made.0, made.1)),
        r matches Some(v) ==> forall|made: (i32, Seq<u8>)|
            (1 <= made.0 <= 22 && data@ == #[trigger] zstd_compressed(made.0, made.1)) ==> v@ == made.1,
{
    zstd::decode_all(data).ok()
}

/// The compression level of file bodies.
pub const ENCODER_LEVEL: i32 = 3;

/// What a body carries once the chunk framing is removed.
pub open spec fn body_payload(contents: Seq<u8>, use_compression: bool) -> Seq<u8> {
    if use_compression {
        zstd_compressed(ENCODER_LEVEL, contents)
    } else {
        contents
    }
}

/// The bytes that the client sends as a file body: the file, compressed if
/// asked, as a complete chunk stream of full chunks, then one short chunk
/// for the rest, if any.
pub fn encode_body(contents: &[u8], use_compression: bool) -> (out: Vec<u8>)
    ensures
        out@ == chunk_stream(chunked(body_payload(contents@, use_compression), CHUNK_SIZE as nat)),
        run(start(), out@) == (ReaderState::Done, body_payload(contents@, use_compression)),
{
    let mut writer = StreamFramer::streaming_writer();
    let ghost payload = body_payload(contents@, use_compression);
    if use_compression {
        let packed = zstd_encode(contents, ENCODER_LEVEL).unwrap();
        writer.write(packed.as_slice());
    } else {
        writer.write(contents);
    }
    assert(Seq::<u8>::empty() + payload =~= payload);
    assert(Seq::<Seq<u8>>::empty() + crate::stream_framer::full_chunks(payload, CHUNK_SIZE as nat)
        =~= crate::stream_framer::full_chunks(payload, CHUNK_SIZE as nat));
    assert(writer.emitted() =~= writer.output());
    let ghost before = writer.output();
    writer.finish();
    assert(writer.output() =~= before + writer.output().skip(before.len() as int));
    assert(writer.emitted() =~= writer.output());
    proof {
        writer.lemma_writer_reader_round_trip();
    }
    let out = writer.take_output();
    assert(Seq::<u8>::empty() + out@ =~= out@);
    out
}

/// Recovers the file from a body's payload (what the chunk reader yielded):
/// unchanged, or decompressed if the request said it was compressed.
pub fn decode_body(payload: Vec<u8>, use_compression: bool) -> (r: Option<Vec<u8>>)
    ensures
        !use_compression ==> r == Some(payload),
        use_compression ==> (r is Some <==> zstd_frames_ok(payload@)),
        use_compression ==> (r matches Some(v) ==> v@ == zstd_decompressed(payload@)),
        use_compression ==> forall|x: Seq<u8>|
            payload@ == #[trigger] zstd_compressed(ENCODER_LEVEL, x) ==> (r matches Some(v) && v@ == x),
{
    if use_compression {
        let r = zstd_decode(payload.as_slice());
        assert forall|x: Seq<u8>| payload@ == #[trigger] zstd_compressed(ENCODER_LEVEL, x) implies (
        r matches Some(v) && v@ == x) by {
            let made = (ENCODER_LEVEL, x);
            assert(payload@ == zstd_compressed(made.0, made.1));
        }
        r
    } else {
        Some(payload)
    }
}

/// Reads a body out of `input`, all at once: the file bytes and how many
/// input bytes the body took, or `None` if `input` ends before the body does.
pub fn read_body(input: &[u8]) -> (r: Option<(Vec<u8>, usize)>)
    ensures
        match r {
            Some((data, n)) => n <= input@.len() && run(start(), input@.take(n as int)) == (
                ReaderState::Done,
                data@,
            ) && forall|k: int| 0 <= k < n ==> !(#[trigger] run(start(), input@.take(k)).0 is Done),
            None => !(run(start(), input@).0 is Done),
        },
{
    let mut reader: ChunkedReader = StreamFramer::streaming_reader();
    let (n, data) = reader.feed(input);
    if reader.is_done() {
        Some((data, n))
    } else {
        assert(input@.take(n as int) =~= input@);
        None
    }
}

} // verus!
