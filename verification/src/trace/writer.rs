//! The writer of a trace: one compressed stream of lines.

use vstd::prelude::*;
use vstd::utf8;
use vstd::string::StringSliceAdditionalSpecFns;
use crate::trace::gzip;
use crate::trace::gzip::{Encoder, GzEnd};
use crate::trace::load;

verus! {

/// Writer of one run's trace. After [`TraceWriter::finish`] it is inert. The
/// compressed bytes are taken away piece by piece.
pub struct TraceWriter {
    out: Option<Encoder>,
    /// The compressed bytes that were taken away.
    sent: Ghost<Seq<u8>>,
}

impl TraceWriter {
    /// What was taken away and what is still held is all that came out.
    #[verifier::type_invariant]
    spec fn keeps_all(self) -> bool {
        self.out matches Some(e) ==> gzip::emitted(e) == self.sent@ + gzip::held(e)
    }

    /// Whether lines are still taken.
    pub closed spec fn open(&self) -> bool {
        self.out is Some
    }

    /// All bytes that were taken so far.
    pub closed spec fn taken(&self) -> Seq<u8> {
        gzip::accepted(self.out->0)
    }

    /// All compressed bytes that are out so far.
    pub closed spec fn stream(&self) -> Seq<u8> {
        gzip::emitted(self.out->0)
    }

    /// All compressed bytes that were taken away so far.
    pub closed spec fn sent(&self) -> Seq<u8> {
        self.sent@
    }

    /// Whether the stream takes the whole of some bytes.
    pub closed spec fn takes(&self, bytes: Seq<u8>) -> bool {
        gzip::takes(self.out->0, bytes)
    }

    /// Whether the stream can be flushed.
    pub closed spec fn syncs(&self) -> bool {
        gzip::syncs(self.out->0)
    }

    /// Whether the stream can be ended.
    pub closed spec fn finishes(&self) -> bool {
        gzip::finishes(self.out->0)
    }

    /// A writer that has taken nothing yet.
    pub fn create() -> (w: Self)
        ensures
            w.open(),
            w.taken() == Seq::<u8>::empty(),
            w.stream() == Seq::<u8>::empty(),
            w.sent() == Seq::<u8>::empty(),
    {
        let encoder = gzip::new_encoder();
        assert(gzip::emitted(encoder) =~= Seq::<u8>::empty() + gzip::held(encoder));
        TraceWriter { out: Some(encoder), sent: Ghost(Seq::empty()) }
    }

    /// Whether lines are still taken.
    pub fn is_open(&self) -> (yes: bool)
        ensures
            yes == self.open(),
    {
        self.out.is_some()
    }

    /// Appends one record, as a line of its own, and says whether it was taken: that
    /// is so exactly while the writer is open and the stream takes the line with its
    /// line end. A writer that is finished stays as it is; where the stream refuses
    /// the line, nothing is known of what it took.
    pub fn write(&mut self, line: &str) -> (ok: bool)
        ensures
            final(self).open() == old(self).open(),
            final(self).sent() == old(self).sent(),
            !old(self).open() ==> *final(self) == *old(self),
            ok == (old(self).open() && old(self).takes(utf8::encode_utf8(line@).push(10))),
            ok ==> final(self).taken() == old(self).taken() + utf8::encode_utf8(line@).push(10),
    {
        proof {
            use_type_invariant(&*self);
        }
        let mut out: Option<Encoder> = None;
        std::mem::swap(&mut out, &mut self.out);
        match out {
            Some(encoder) => {
                let mut encoder = encoder;
                let ghost before = encoder;
                let mut bytes: Vec<u8> = vstd::slice::slice_to_vec(line.as_bytes());
                bytes.push(10);
                let ok = gzip::write_bytes(&mut encoder, bytes.as_slice());
                proof {
                    lemma_kept(self.sent@, before, encoder);
                }
                self.out = Some(encoder);
                ok
            },
            None => false,
        }
    }

    /// Flushes, and says whether the stream did: that is so exactly while the writer
    /// is open and the stream can be flushed. Then everything taken so far can be
    /// decoded from the compressed bytes that are out, also if the run is killed
    /// before the next flush. What was taken stays the same either way.
    ///
    /// A long run of lines can leave compressed bytes inside the stream. The first
    /// round brings these out, the second puts all but the last few bytes into
    /// blocks, and the third puts out the rest.
    pub fn flush(&mut self) -> (ok: bool)
        ensures
            final(self).open() == old(self).open(),
            final(self).sent() == old(self).sent(),
            !old(self).open() ==> *final(self) == *old(self),
            ok == (old(self).open() && old(self).syncs()),
            final(self).taken() == old(self).taken(),
            ok ==> gzip::gunzipped(final(self).stream()).0 == final(self).taken(),
            ok ==> gzip::gunzipped(final(self).stream()).1 == GzEnd::Truncated,
    {
        proof {
            use_type_invariant(&*self);
        }
        let mut out: Option<Encoder> = None;
        std::mem::swap(&mut out, &mut self.out);
        match out {
            Some(encoder) => {
                let mut encoder = encoder;
                let ghost sent = self.sent@;
                let ghost first = encoder;
                let mut ok = gzip::sync(&mut encoder);
                proof {
                    lemma_kept(sent, first, encoder);
                }
                if ok {
                    let ghost second = encoder;
                    ok = gzip::sync(&mut encoder);
                    proof {
                        lemma_kept(sent, second, encoder);
                    }
                    let ghost third = encoder;
                    ok = gzip::sync(&mut encoder);
                    proof {
                        lemma_kept(sent, third, encoder);
                    }
                }
                self.out = Some(encoder);
                ok
            },
            None => false,
        }
    }

    /// Takes the compressed bytes away that are out and were not taken away yet,
    /// while the writer is open. Then all that is out has been taken away.
    pub fn take_bytes(&mut self) -> (bytes: Option<Vec<u8>>)
        ensures
            final(self).open() == old(self).open(),
            bytes is Some <==> old(self).open(),
            bytes is None ==> *final(self) == *old(self),
            bytes matches Some(b) ==> final(self).sent() == old(self).sent() + b@
                && final(self).sent() == final(self).stream(),
            final(self).stream() == old(self).stream(),
            final(self).taken() == old(self).taken(),
            forall|b: Seq<u8>| #[trigger] final(self).takes(b) == old(self).takes(b),
            final(self).syncs() == old(self).syncs(),
            final(self).finishes() == old(self).finishes(),
    {
        proof {
            use_type_invariant(&*self);
        }
        let mut out: Option<Encoder> = None;
        std::mem::swap(&mut out, &mut self.out);
        match out {
            Some(encoder) => {
                let mut encoder = encoder;
                let bytes = gzip::take_output(&mut encoder);
                self.sent = Ghost(self.sent@ + bytes@);
                assert(gzip::emitted(encoder) =~= self.sent@ + gzip::held(encoder));
                self.out = Some(encoder);
                Some(bytes)
            },
            None => None,
        }
    }

    /// Ends the stream with its trailer and hands out what was not taken away yet:
    /// that is so exactly while the writer is open and the stream can be ended. The
    /// whole stream then decodes to all that was taken. Afterwards the writer is
    /// inert.
    pub fn finish(&mut self) -> (raw: Option<Vec<u8>>)
        ensures
            !final(self).open(),
            final(self).sent() == old(self).sent(),
            raw is Some <==> old(self).open() && old(self).finishes(),
            raw matches Some(r) ==> gzip::gunzipped(old(self).sent() + r@).0 == old(self).taken()
                && gzip::gunzipped(old(self).sent() + r@).1 == GzEnd::Complete,
    {
        proof {
            use_type_invariant(&*self);
        }
        let mut out: Option<Encoder> = None;
        std::mem::swap(&mut out, &mut self.out);
        match out {
            Some(encoder) => {
                let ghost sent = self.sent@;
                let raw = gzip::close(encoder);
                proof {
                    if raw is Some {
                        let r = raw->0;
                        let more = choose|more: Seq<u8>| r@ == #[trigger] (gzip::held(encoder) + more)
                            && gzip::gunzipped(gzip::emitted(encoder) + more).0 == gzip::accepted(
                            encoder,
                        ) && gzip::gunzipped(gzip::emitted(encoder) + more).1 == GzEnd::Complete;
                        assert(gzip::emitted(encoder) + more =~= sent + r@);
                    }
                }
                raw
            },
            None => None,
        }
    }
}

/// Where a stream goes on, what was taken away and what is held stay all that came
/// out.
proof fn lemma_kept(sent: Seq<u8>, before: Encoder, after: Encoder)
    requires
        gzip::emitted(before) == sent + gzip::held(before),
        gzip::goes_on(before, after),
    ensures
        gzip::emitted(after) == sent + gzip::held(after),
{
    let more = choose|more: Seq<u8>|
        gzip::emitted(after) == #[trigger] (gzip::emitted(before) + more) && gzip::held(after)
            == gzip::held(before) + more;
    assert(sent + gzip::held(before) + more =~= sent + (gzip::held(before) + more));
}

/// Whether a writer that had taken `before` took the first `k` of some lines behind
/// it, and the stream refused the next one.
pub open spec fn refused_at(w: TraceWriter, before: Seq<u8>, lines: Seq<Seq<char>>, k: int) -> bool {
    &&& 0 <= k < lines.len()
    &&& w.open()
    &&& w.taken() == before + utf8::encode_utf8(load::text_of(lines.take(k)))
    &&& !w.takes(utf8::encode_utf8(lines[k]).push(10))
}

/// Writes lines, each as a record of its own, up to the first that is refused, and
/// says whether all were taken.
pub fn write_all(w: &mut TraceWriter, lines: &Vec<String>) -> (ok: bool)
    ensures
        final(w).open() == old(w).open(),
        final(w).sent() == old(w).sent(),
        ok && old(w).open() ==> final(w).taken() == old(w).taken() + utf8::encode_utf8(
            load::text_of(crate::text::contents(lines@)),
        ),
        !ok && old(w).open() ==> exists|on_the_way: TraceWriter, k: int|
            refused_at(on_the_way, old(w).taken(), crate::text::contents(lines@), k),
        !old(w).open() ==> ok == (lines@.len() == 0) && *final(w) == *old(w),
{
    let ghost all = crate::text::contents(lines@);
    let ghost start = w.taken();
    proof {
        assert(load::text_of(all.take(0)) =~= Seq::empty());
        assert(utf8::encode_utf8(load::text_of(all.take(0))) =~= Seq::empty());
        assert(start + Seq::<u8>::empty() =~= start);
    }
    for i in 0..lines.len()
        invariant
            all == crate::text::contents(lines@),
            start == old(w).taken(),
            w.open() == old(w).open(),
            w.sent() == old(w).sent(),
            !old(w).open() ==> *w == *old(w),
            old(w).open() ==> w.taken() == start + utf8::encode_utf8(
                load::text_of(all.take(i as int)),
            ),
            !old(w).open() ==> i == 0,
    {
        let ghost before = w.taken();
        let ghost here = *w;
        if !w.write(lines[i].as_str()) {
            proof {
                if old(w).open() {
                    assert(all[i as int] == lines@[i as int]@);
                    assert(refused_at(here, start, all, i as int));
                }
            }
            return false;
        }
        proof {
            let line = all[i as int];
            assert(line == lines@[i as int]@);
            assert(all.take(i + 1) =~= all.take(i as int).push(line));
            lemma_text_push(all.take(i as int), line);
            load::lemma_encode_concat(load::text_of(all.take(i as int)), line + seq!['\n']);
            load::lemma_encode_concat(line, seq!['\n']);
            load::lemma_encode_newline();
            let tail = utf8::encode_utf8(line).push(10);
            assert(utf8::encode_utf8(line + seq!['\n']) =~= tail);
            assert(before + tail =~= start + (utf8::encode_utf8(
                load::text_of(all.take(i as int)),
            ) + tail));
        }
    }
    assert(all.take(lines@.len() as int) =~= all);
    true
}

/// One more line goes to the end of the text.
proof fn lemma_text_push(lines: Seq<Seq<char>>, line: Seq<char>)
    ensures
        load::text_of(lines.push(line)) == load::text_of(lines) + (line + seq!['\n']),
    decreases lines.len(),
{
    let more = lines.push(line);
    if lines.len() == 0 {
        assert(more.skip(1) =~= Seq::empty());
        assert(load::text_of(more.skip(1)) =~= Seq::empty());
        assert(more[0] == line);
        assert(load::text_of(more) =~= load::text_of(lines) + (line + seq!['\n']));
    } else {
        assert(more.skip(1) =~= lines.skip(1).push(line));
        lemma_text_push(lines.skip(1), line);
        assert(load::text_of(more) =~= load::text_of(lines) + (line + seq!['\n']));
    }
}

/// Flushed lines survive a kill: from the bytes that a writer has out after a
/// flush, a reader gets exactly the lines that the writer took.
pub proof fn law_flushed_lines_survive(w: TraceWriter, path: Seq<char>, lines: Seq<Seq<char>>)
    requires
        forall|i: int| 0 <= i < lines.len() ==> load::is_record_line(#[trigger] lines[i]),
        w.taken() == utf8::encode_utf8(load::text_of(lines)),
        gzip::gunzipped(w.stream()).0 == w.taken(),
        gzip::gunzipped(w.stream()).1 == GzEnd::Truncated,
    ensures
        load::decoded(path, w.stream()) == Ok::<Seq<char>, (load::FailureKind, Seq<char>)>(
            load::text_of(lines),
        ),
        load::record_lines(load::text_of(lines)) == lines,
{
    load::law_recorded_lines_are_read_back(path, w.stream(), lines);
}

/// A finished trace is read back: from the bytes that a writer hands out at the
/// end, a reader gets exactly the lines that the writer took.
pub proof fn law_finished_lines_are_read_back(
    w: TraceWriter,
    raw: Seq<u8>,
    path: Seq<char>,
    lines: Seq<Seq<char>>,
)
    requires
        forall|i: int| 0 <= i < lines.len() ==> load::is_record_line(#[trigger] lines[i]),
        w.taken() == utf8::encode_utf8(load::text_of(lines)),
        gzip::gunzipped(raw).0 == w.taken(),
        gzip::gunzipped(raw).1 == GzEnd::Complete,
    ensures
        load::decoded(path, raw) == Ok::<Seq<char>, (load::FailureKind, Seq<char>)>(
            load::text_of(lines),
        ),
        load::record_lines(load::text_of(lines)) == lines,
{
    load::law_recorded_lines_are_read_back(path, raw, lines);
}

/// A refusal is of one line: those before it were taken whole, each with its line end,
/// and it was not.
pub proof fn law_a_refusal_is_of_one_line(
    w: TraceWriter,
    before: Seq<u8>,
    lines: Seq<Seq<char>>,
    k: int,
)
    requires
        refused_at(w, before, lines, k),
    ensures
        0 <= k < lines.len(),
        w.open(),
        w.taken() == before + utf8::encode_utf8(load::text_of(lines.take(k))),
        !w.takes(utf8::encode_utf8(lines[k]).push(10)),
{
}

}
