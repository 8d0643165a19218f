//! The compressed stream that a trace is kept in.

use vstd::prelude::*;
use flate2::read::MultiGzDecoder;
use flate2::write::GzEncoder;
use flate2::Compression;
use std::io::{Read, Write};

verus! {

/// How a compressed stream ends.
#[derive(Clone, Copy, PartialEq, Eq, Structural, Debug)]
pub enum GzEnd {
    /// With its trailer.
    Complete,
    /// In the middle: the run that wrote it was killed.
    Truncated,
    /// It is no stream of this kind, it is damaged, or its check sum does not hold.
    InvalidInput,
    /// The decoder calls its data invalid.
    InvalidData,
    /// For any other reason.
    Other,
}

/// What the decoder makes of raw bytes: the bytes it could decode, how the
/// stream ended, and the message of the failure, if there was one.
pub uninterp spec fn gunzipped(raw: Seq<u8>) -> (Seq<u8>, GzEnd, Seq<char>);

/// `MultiGzDecoder::read_to_end` on raw bytes. What it decodes before it stops
/// and how it stops is named after the bytes alone.
#[verifier::external_body]
pub(crate) fn gunzip(raw: &[u8]) -> (out: (Vec<u8>, GzEnd, String))
    ensures
        out.0@ == gunzipped(raw@).0,
        out.1 == gunzipped(raw@).1,
        out.2@ == gunzipped(raw@).2,
{
    let mut bytes: Vec<u8> = Vec::new();
    match MultiGzDecoder::new(raw).read_to_end(&mut bytes) {
        Ok(_) => (bytes, GzEnd::Complete, String::new()),
        Err(e) => {
            let end = match e.kind() {
                std::io::ErrorKind::UnexpectedEof => GzEnd::Truncated,
                std::io::ErrorKind::InvalidInput => GzEnd::InvalidInput,
                std::io::ErrorKind::InvalidData => GzEnd::InvalidData,
                _ => GzEnd::Other,
            };
            (bytes, end, e.to_string())
        },
    }
}

/// A `GzEncoder` over a vector: the bytes that were put into it, and the
/// compressed bytes that came out.
#[verifier::external_body]
pub struct Encoder {
    inner: GzEncoder<Vec<u8>>,
}

/// All the input that an encoder has accepted.
pub uninterp spec fn accepted(e: Encoder) -> Seq<u8>;

/// All the compressed bytes that an encoder has put out so far, whether they have
/// been taken away or not.
pub uninterp spec fn emitted(e: Encoder) -> Seq<u8>;

/// Those of the compressed bytes that have not been taken away yet.
pub uninterp spec fn held(e: Encoder) -> Seq<u8>;

/// Whether no compressed byte waits inside an encoder to be put out.
pub uninterp spec fn settled(e: Encoder) -> bool;

/// How many of the accepted bytes an encoder has not put into a block yet.
pub uninterp spec fn waiting(e: Encoder) -> nat;

/// Whether an encoder takes the whole of some bytes.
pub uninterp spec fn takes(e: Encoder, bytes: Seq<u8>) -> bool;

/// Whether an encoder can be flushed.
pub uninterp spec fn syncs(e: Encoder) -> bool;

/// Whether an encoder can end its stream.
pub uninterp spec fn finishes(e: Encoder) -> bool;

/// How many bytes an encoder at the fast level looks ahead.
pub open spec fn lookahead() -> nat {
    4096
}

/// Whether what an encoder put out between two moments is kept, and nothing else.
pub open spec fn goes_on(before: Encoder, after: Encoder) -> bool {
    exists|more: Seq<u8>|
        emitted(after) == #[trigger] (emitted(before) + more) && held(after) == held(before) + more
}

/// `GzEncoder::new` over an empty vector, at the fast level: nothing has been
/// accepted yet, and nothing has been put out.
#[verifier::external_body]
pub(crate) fn new_encoder() -> (e: Encoder)
    ensures
        accepted(e) == Seq::<u8>::empty(),
        emitted(e) == Seq::<u8>::empty(),
        held(e) == Seq::<u8>::empty(),
{
    Encoder { inner: GzEncoder::new(Vec::new(), Compression::fast()) }
}

/// `write_all` on a `GzEncoder`. Whether it succeeds is named after the encoder and
/// the bytes alone: the compressed bytes go into a vector, so nothing else decides.
/// Where it succeeds, the bytes have been accepted behind what was accepted before;
/// where it fails, nothing is said of how many were. Compressed bytes are only
/// ever added.
#[verifier::external_body]
pub(crate) fn write_bytes(e: &mut Encoder, bytes: &[u8]) -> (ok: bool)
    ensures
        ok == takes(*old(e), bytes@),
        ok ==> accepted(*final(e)) == accepted(*old(e)) + bytes@,
        goes_on(*old(e), *final(e)),
{
    e.inner.write_all(bytes).is_ok()
}

/// `flush` on a `GzEncoder`. Whether it succeeds is named after the encoder alone;
/// one that was flushed can be flushed again. It hands the compressor no input, so
/// nothing more is accepted either way, and compressed bytes are only ever added.
///
/// It asks the compressor for a sync point once, and then for the compressed bytes
/// that wait until there are none. The request is lost where compressed bytes wait
/// already, or where a block that is put out on the way to the sync point does not
/// fit. So one flush promises only that no compressed byte waits afterwards. Where
/// none waited before, all input that was accepted has gone into blocks but for at
/// most what the compressor looks ahead. Where no more than that had to go into a
/// block, it fits: the sync point is put out, and everything accepted can be decoded
/// from what has been emitted, though the stream has no end yet.
#[verifier::external_body]
pub(crate) fn sync(e: &mut Encoder) -> (ok: bool)
    ensures
        ok == syncs(*old(e)),
        accepted(*final(e)) == accepted(*old(e)),
        goes_on(*old(e), *final(e)),
        ok ==> syncs(*final(e)),
        ok ==> settled(*final(e)),
        ok && settled(*old(e)) ==> waiting(*final(e)) <= lookahead(),
        ok && settled(*old(e)) && waiting(*old(e)) <= lookahead() ==> gunzipped(
            emitted(*final(e)),
        ).0 == accepted(*old(e)) && gunzipped(emitted(*final(e))).1 == GzEnd::Truncated,
{
    e.inner.flush().is_ok()
}

/// `std::mem::take` of the vector behind `GzEncoder::get_mut`, as its documentation
/// allows: the compressed bytes that were held are handed out in their order, and
/// those that follow go into an empty vector. The stream itself goes on as before.
#[verifier::external_body]
pub(crate) fn take_output(e: &mut Encoder) -> (bytes: Vec<u8>)
    ensures
        bytes@ == held(*old(e)),
        held(*final(e)) == Seq::<u8>::empty(),
        emitted(*final(e)) == emitted(*old(e)),
        accepted(*final(e)) == accepted(*old(e)),
        forall|b: Seq<u8>| #[trigger] takes(*final(e), b) == takes(*old(e), b),
        syncs(*final(e)) == syncs(*old(e)),
        finishes(*final(e)) == finishes(*old(e)),
{
    std::mem::take(e.inner.get_mut())
}

/// `GzEncoder::finish`. Whether it succeeds is named after the encoder alone. Where
/// it succeeds, the rest of the stream with its trailer stands behind the bytes that
/// were held, and the whole stream decodes to everything that was accepted.
#[verifier::external_body]
pub(crate) fn close(e: Encoder) -> (raw: Option<Vec<u8>>)
    ensures
        raw is Some <==> finishes(e),
        raw matches Some(r) ==> exists|more: Seq<u8>| r@ == #[trigger] (held(e) + more)
            && gunzipped(emitted(e) + more).0 == accepted(e) && gunzipped(emitted(e) + more).1
            == GzEnd::Complete,
{
    e.inner.finish().ok()
}

}
