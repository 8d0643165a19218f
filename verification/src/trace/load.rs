//! Reading a trace back: from the compressed bytes to its lines, and from the
//! lines to buckets of records, one for each frame.

use vstd::prelude::*;
use vstd::string::StringExecFns;
use vstd::utf8;
use serde_json::Value;
use crate::ieee;
use crate::ieee::F64;
use crate::text;
use crate::trace::gzip;
use crate::trace::gzip::GzEnd;
use crate::trace::input::InputRecord;
use crate::trace::json;
use crate::trace::record::{CoachRead, SCHEMA_VERSION};

verus! {

/// The kind of a failure to load.
#[derive(Clone, Copy, PartialEq, Eq, Structural, Debug)]
pub enum FailureKind {
    InvalidInput,
    InvalidData,
    Other,
}

/// Why a trace could not be loaded.
#[derive(PartialEq, Eq, Debug)]
pub struct LoadError {
    pub kind: FailureKind,
    pub message: String,
}

/// An error about the contents of a trace.
pub fn err(message: String) -> (e: LoadError)
    ensures
        e.kind is InvalidData,
        e.message@ == message@,
{
    LoadError { kind: FailureKind::InvalidData, message }
}

// ---- from bytes to text --------------------------------------------------

/// `std::str::from_utf8`: the text that the bytes encode, where they encode one.
#[verifier::external_body]
fn utf8_text(bytes: &[u8]) -> (t: Option<String>)
    ensures
        t is Some <==> utf8::valid_utf8(bytes@),
        t matches Some(s) ==> s@ == utf8::decode_utf8(bytes@),
{
    std::str::from_utf8(bytes).ok().map(String::from)
}

/// The bytes up to and with the last newline.
pub open spec fn whole_lines(bytes: Seq<u8>) -> Seq<u8>
    decreases bytes.len(),
{
    if bytes.len() == 0 || bytes.last() == 10 {
        bytes
    } else {
        whole_lines(bytes.drop_last())
    }
}

/// What is read from the raw bytes of the trace at `path`. A stream that ends in
/// the middle was left by a run that was killed: what was flushed is kept, and a
/// last line that was not completed is dropped.
pub open spec fn decoded(path: Seq<char>, raw: Seq<u8>) -> Result<Seq<char>, (FailureKind, Seq<char>)> {
    let (bytes, end, fault) = gzip::gunzipped(raw);
    match end {
        GzEnd::Complete => if utf8::valid_utf8(bytes) {
            Ok(utf8::decode_utf8(bytes))
        } else {
            Err((FailureKind::InvalidData, path + ": stream did not contain valid UTF-8"@))
        },
        GzEnd::Truncated => if utf8::valid_utf8(whole_lines(bytes)) {
            Ok(utf8::decode_utf8(whole_lines(bytes)))
        } else {
            Ok(Seq::empty())
        },
        GzEnd::InvalidInput => Err((FailureKind::InvalidInput, path + ": "@ + fault)),
        GzEnd::InvalidData => Err((FailureKind::InvalidData, path + ": "@ + fault)),
        GzEnd::Other => Err((FailureKind::Other, path + ": "@ + fault)),
    }
}

/// Whether a result is what a specification says.
pub open spec fn agrees(
    r: Result<String, LoadError>,
    s: Result<Seq<char>, (FailureKind, Seq<char>)>,
) -> bool {
    match (r, s) {
        (Ok(text), Ok(t)) => text@ == t,
        (Err(e), Err((kind, message))) => e.kind == kind && e.message@ == message,
        _ => false,
    }
}

fn located(path: &str, kind: FailureKind, what: &str) -> (e: LoadError)
    ensures
        e.kind == kind,
        e.message@ == path@ + what@,
{
    let mut message = String::new();
    message.append(path);
    message.append(what);
    LoadError { kind, message }
}

fn cut_to_whole_lines(bytes: &mut Vec<u8>)
    ensures
        final(bytes)@ == whole_lines(old(bytes)@),
{
    let ghost all = bytes@;
    while bytes.len() > 0 && bytes[bytes.len() - 1] != 10
        invariant
            whole_lines(bytes@) == whole_lines(all),
        decreases bytes@.len(),
    {
        let ghost before = bytes@;
        let _ = bytes.pop();
        assert(bytes@ =~= before.drop_last());
    }
}

/// Decodes the raw bytes of the trace at `path`, tolerating a missing trailer.
pub fn decode_gz(path: &str, raw: &[u8]) -> (text: Result<String, LoadError>)
    ensures
        agrees(text, decoded(path@, raw@)),
{
    let (bytes, end, fault) = gzip::gunzip(raw);
    match end {
        GzEnd::Complete => match utf8_text(bytes.as_slice()) {
            Some(text) => Ok(text),
            None => Err(
                located(path, FailureKind::InvalidData, ": stream did not contain valid UTF-8"),
            ),
        },
        GzEnd::Truncated => {
            let mut bytes = bytes;
            cut_to_whole_lines(&mut bytes);
            match utf8_text(bytes.as_slice()) {
                Some(text) => Ok(text),
                None => Ok(String::new()),
            }
        },
        _ => {
            let kind = match end {
                GzEnd::InvalidInput => FailureKind::InvalidInput,
                GzEnd::InvalidData => FailureKind::InvalidData,
                _ => FailureKind::Other,
            };
            let mut what = String::new();
            what.append(": ");
            what.append(fault.as_str());
            let e = located(path, kind, what.as_str());
            assert(path@ + (": "@ + fault@) =~= path@ + ": "@ + fault@);
            Err(e)
        },
    }
}

// ---- from text to lines --------------------------------------------------

/// Whether a character is white space: whether it has Unicode's property of that
/// name.
pub open spec fn whitespace(c: char) -> bool {
    let code = c as u32;
    ||| 0x9 <= code <= 0xd
    ||| code == 0x20
    ||| code == 0x85
    ||| code == 0xa0
    ||| code == 0x1680
    ||| 0x2000 <= code <= 0x200a
    ||| code == 0x2028
    ||| code == 0x2029
    ||| code == 0x202f
    ||| code == 0x205f
    ||| code == 0x3000
}

/// `char::is_whitespace`: whether the character has Unicode's White_Space property,
/// which these twenty-five characters have.
pub assume_specification[ char::is_whitespace ](c: char) -> (yes: bool)
    ensures
        yes == whitespace(c),
;

/// How many characters stand before the first newline.
pub open spec fn to_newline(s: Seq<char>) -> int
    decreases s.len(),
{
    if s.len() == 0 || s[0] == '\n' {
        0
    } else {
        1 + to_newline(s.skip(1))
    }
}

/// The first line of a text. A carriage return belongs to the newline after it.
pub open spec fn first_line(s: Seq<char>) -> Seq<char> {
    let k = to_newline(s);
    if 0 < k < s.len() && s[k - 1] == '\r' {
        s.take(k - 1)
    } else {
        s.take(k)
    }
}

/// Whether a line holds nothing but white space.
pub open spec fn blank(line: Seq<char>) -> bool {
    forall|i: int| 0 <= i < line.len() ==> whitespace(#[trigger] line[i])
}

/// The lines of a text that hold a record, in order: all that are not blank.
pub open spec fn record_lines(s: Seq<char>) -> Seq<Seq<char>>
    decreases s.len(),
{
    if s.len() == 0 {
        Seq::empty()
    } else {
        let k = to_newline(s);
        proof {
            lemma_to_newline(s);
        }
        let rest = if k < s.len() {
            record_lines(s.skip(k + 1))
        } else {
            Seq::empty()
        };
        if blank(first_line(s)) {
            rest
        } else {
            seq![first_line(s)] + rest
        }
    }
}

fn is_blank(chars: &Vec<char>, from: usize, to: usize) -> (yes: bool)
    requires
        from <= to <= chars@.len(),
    ensures
        yes == blank(chars@.subrange(from as int, to as int)),
{
    let ghost line = chars@.subrange(from as int, to as int);
    for i in from..to
        invariant
            from <= to <= chars@.len(),
            line == chars@.subrange(from as int, to as int),
            forall|j: int| from <= j < i ==> whitespace(#[trigger] chars@[j]),
    {
        if !chars[i].is_whitespace() {
            assert(line[i - from] == chars@[i as int]);
            return false;
        }
    }
    assert forall|i: int| 0 <= i < line.len() implies whitespace(#[trigger] line[i]) by {
        assert(line[i] == chars@[from + i]);
    }
    true
}

/// How far it is to the newline is no more than what is left.
pub proof fn lemma_to_newline(s: Seq<char>)
    ensures
        0 <= to_newline(s) <= s.len(),
        to_newline(s) < s.len() ==> s[to_newline(s)] == '\n',
    decreases s.len(),
{
    if s.len() > 0 && s[0] != '\n' {
        lemma_to_newline(s.skip(1));
    }
}

/// The lines of a text that hold a record, in order.
pub fn trace_lines(text: &str) -> (lines: Vec<String>)
    ensures
        text::contents(lines@) == record_lines(text@),
{
    let chars = text::chars_of(text);
    let n: usize = chars.len();
    let ghost s = text@;
    let mut lines: Vec<String> = Vec::new();
    let mut from: usize = 0;
    assert(s.skip(0) =~= s);
    assert(text::contents(lines@) =~= Seq::empty());
    assert(Seq::<Seq<char>>::empty() + record_lines(s) =~= record_lines(s));
    while from < n
        invariant
            from <= n,
            n == s.len(),
            chars@ == s,
            text::contents(lines@) + record_lines(s.skip(from as int)) == record_lines(s),
        decreases n - from,
    {
        let ghost rest = s.skip(from as int);
        let mut k: usize = from;
        while k < n && chars[k] != '\n'
            invariant
                from <= k <= n,
                n == s.len(),
                chars@ == s,
                rest == s.skip(from as int),
                to_newline(rest) == (k - from) + to_newline(s.skip(k as int)),
            decreases n - k,
        {
            assert(s.skip(k as int).skip(1) =~= s.skip(k + 1));
            k = k + 1;
        }
        proof {
            lemma_to_newline(rest);
            assert(to_newline(rest) == k - from);
        }
        let mut to: usize = k;
        if from < k && k < n && chars[k - 1] == '\r' {
            to = k - 1;
        }
        proof {
            assert(first_line(rest) =~= s.subrange(from as int, to as int));
            if k < n {
                assert(rest.skip(to_newline(rest) + 1) =~= s.skip(k + 1));
            }
        }
        let ghost held = text::contents(lines@);
        if !is_blank(&chars, from, to) {
            let line = text::string_of(&chars, from, to);
            let ghost l = line@;
            let ghost before = lines@;
            lines.push(line);
            assert(text::contents(lines@) =~= text::contents(before).push(l));
        }
        proof {
            let after = if k < n {
                record_lines(s.skip(k + 1))
            } else {
                Seq::empty()
            };
            assert(text::contents(lines@) + after =~= held + record_lines(rest));
        }
        if k < n {
            from = k + 1;
        } else {
            from = n;
            assert(s.skip(n as int) =~= Seq::empty());
        }
    }
    assert(s.skip(n as int) =~= Seq::empty());
    assert(text::contents(lines@) + Seq::<Seq<char>>::empty() =~= text::contents(lines@));
    lines
}

// ---- the header ----------------------------------------------------------

/// What a replay needs of the header: the format, and the window of the run.
#[derive(Clone, Copy, PartialEq, Eq, Structural, Debug)]
pub struct Header {
    pub schema: u32,
    pub width: F64,
    pub height: F64,
    pub scale_factor: F64,
}

/// The `i`-th number of an array, or zero.
pub open spec fn item_bits(items: Seq<Value>, i: int) -> u64 {
    if i < items.len() {
        match json::bits_of(items[i]) {
            Some(b) => b,
            None => 0,
        }
    } else {
        0
    }
}

/// The header that a line holds, or the message of why it holds none.
pub open spec fn header_of(line: Seq<char>) -> Result<Header, Seq<char>> {
    match json::json_of(line) {
        Err(e) => Err("bad header json: "@ + json::fault_text(e)),
        Ok(v) => if json::text_at(v, "k"@) != Some("run"@) {
            Err("first line is not a `run` header: "@ + line)
        } else {
            match (json::number_at(v, "schema"@), json::items_at(v, "window_logical"@)) {
                (None, _) => Err("header missing `schema`"@),
                (_, None) => Err("header missing `window_logical`"@),
                (Some(schema), Some(window)) => Ok(
                    Header {
                        schema: schema as u32,
                        width: F64 { bits: item_bits(window, 0) },
                        height: F64 { bits: item_bits(window, 1) },
                        scale_factor: F64 {
                            bits: match json::bits_at(v, "scale_factor"@) {
                                Some(b) => b,
                                None => ieee::ONE_64,
                            },
                        },
                    },
                ),
            }
        },
    }
}

fn message(parts: &str, tail: &str) -> (m: String)
    ensures
        m@ == parts@ + tail@,
{
    let mut m = String::new();
    m.append(parts);
    m.append(tail);
    m
}

fn plain(text: &str) -> (m: String)
    ensures
        m@ == text@,
{
    let mut m = String::new();
    m.append(text);
    m
}

fn bits_or_zero(items: &Vec<Value>, i: usize) -> (bits: u64)
    ensures
        bits == item_bits(items@, i as int),
{
    if i < items.len() {
        match json::float_bits(&items[i]) {
            Some(b) => b,
            None => 0,
        }
    } else {
        0
    }
}

/// Parses the header line. Only the fields that a replay needs are pulled.
pub fn parse_header(line: &str) -> (header: Result<Header, String>)
    ensures
        match (header, header_of(line@)) {
            (Ok(h), Ok(x)) => h == x,
            (Err(m), Err(x)) => m@ == x,
            _ => false,
        },
{
    let v = match json::parse(line) {
        Ok(v) => v,
        Err(e) => {
            return Err(message("bad header json: ", json::fault(&e).as_str()));
        },
    };
    let is_run = match json::get_string(&v, "k") {
        Some(k) => text::same(k, "run"),
        None => false,
    };
    if !is_run {
        return Err(message("first line is not a `run` header: ", line));
    }
    let schema: u64 = match json::get_number(&v, "schema") {
        Some(n) => n,
        None => {
            return Err(plain("header missing `schema`"));
        },
    };
    let window = match json::get_items(&v, "window_logical") {
        Some(w) => w,
        None => {
            return Err(plain("header missing `window_logical`"));
        },
    };
    let scale: u64 = match json::get_bits(&v, "scale_factor") {
        Some(b) => b,
        None => ieee::ONE_64,
    };
    Ok(
        Header {
            schema: #[verifier::truncate] (schema as u32),
            width: F64 { bits: bits_or_zero(window, 0) },
            height: F64 { bits: bits_or_zero(window, 1) },
            scale_factor: F64 { bits: scale },
        },
    )
}

// ---- frames --------------------------------------------------------------

/// Everything recorded in one frame.
pub struct FrameRecords {
    pub frame: u32,
    /// How far the clock was advanced.
    pub delta_s: Option<F64>,
    /// What the coach handed over.
    pub coach: Option<CoachRead>,
    /// The inputs, in recorded order.
    pub inputs: Vec<InputRecord>,
}

/// A frame's records as a mathematical value.
pub struct Bucket {
    pub frame: u32,
    pub delta_s: Option<F64>,
    pub coach: Option<CoachRead>,
    pub inputs: Seq<InputRecord>,
}

impl View for FrameRecords {
    type V = Bucket;

    open spec fn view(&self) -> Bucket {
        Bucket {
            frame: self.frame,
            delta_s: self.delta_s,
            coach: self.coach,
            inputs: self.inputs@,
        }
    }
}

/// The buckets of a list of frames.
pub open spec fn buckets(frames: Seq<FrameRecords>) -> Seq<Bucket> {
    frames.map_values(|f: FrameRecords| f@)
}

/// A bucket with nothing in it.
pub open spec fn empty_bucket(frame: u32) -> Bucket {
    Bucket { frame, delta_s: None, coach: None, inputs: Seq::empty() }
}

/// Whether the frames ascend, each occurring once.
pub open spec fn ascending(b: Seq<Bucket>) -> bool {
    forall|i: int, j: int| 0 <= i < j < b.len() ==> b[i].frame < b[j].frame
}

/// How many buckets stand before frame `f`.
pub open spec fn place(b: Seq<Bucket>, f: u32) -> nat
    decreases b.len(),
{
    if b.len() == 0 {
        0
    } else if b.last().frame < f {
        b.len()
    } else {
        place(b.drop_last(), f)
    }
}

/// Whether there is a bucket for frame `f`.
pub open spec fn has_frame(b: Seq<Bucket>, f: u32) -> bool {
    place(b, f) < b.len() && b[place(b, f) as int].frame == f
}

/// The buckets with one for frame `f`, which is empty where there was none.
pub open spec fn opened(b: Seq<Bucket>, f: u32) -> Seq<Bucket> {
    if has_frame(b, f) {
        b
    } else {
        b.insert(place(b, f) as int, empty_bucket(f))
    }
}

/// The buckets with the one of frame `f` replaced.
pub open spec fn replaced(b: Seq<Bucket>, f: u32, now: Bucket) -> Seq<Bucket> {
    opened(b, f).update(place(b, f) as int, now)
}

/// The bucket of frame `f`.
pub open spec fn bucket_of(b: Seq<Bucket>, f: u32) -> Bucket {
    opened(b, f)[place(b, f) as int]
}

/// A fully loaded trace: the header, and the frames that have a record.
pub struct LoadedTrace {
    pub header: Header,
    pub frames: Vec<FrameRecords>,
}

impl LoadedTrace {
    /// Whether the frames ascend.
    pub open spec fn valid(self) -> bool {
        ascending(buckets(self.frames@))
    }

    /// The greatest frame present, or 0 for a trace without frames.
    pub fn last_frame(&self) -> (f: u32)
        requires
            self.valid(),
        ensures
            self.frames@.len() == 0 ==> f == 0,
            self.frames@.len() > 0 ==> f == self.frames@.last().frame,
            forall|i: int| 0 <= i < self.frames@.len() ==> (#[trigger] self.frames@[i]).frame <= f,
    {
        let n: usize = self.frames.len();
        if n == 0 {
            0
        } else {
            let f: u32 = self.frames[n - 1].frame;
            assert forall|i: int| 0 <= i < self.frames@.len() implies (
            #[trigger] self.frames@[i]).frame <= f by {
                let b = buckets(self.frames@);
                assert(b[i].frame == self.frames@[i].frame);
                assert(b[n - 1].frame == f);
            }
            f
        }
    }
}

/// What a record line still needs before it can be filed.
#[derive(Clone, Copy, PartialEq, Eq, Structural, Debug)]
pub enum Payload {
    /// Nothing: it has been filed, or it is not replayed.
    Nothing,
    /// What the coach handed over in this frame.
    Coach(u32),
    /// An input of this frame.
    Input(u32),
}

/// What a record line says: its frame and its kind, or why it cannot be read.
pub open spec fn line_of(line: Seq<char>) -> Result<(u32, Seq<char>, Option<F64>), Seq<char>> {
    match json::json_of(line) {
        Err(e) => Err("bad json line: "@ + json::fault_text(e)),
        Ok(v) => match (json::number_at(v, "f"@), json::text_at(v, "k"@)) {
            (None, _) => Err("record missing `f`: "@ + line),
            (_, None) => Err("record missing `k`: "@ + line),
            (Some(f), Some(k)) => Ok(
                (
                    f as u32,
                    k,
                    match json::bits_at(v, "delta_s"@) {
                        Some(bits) => Some(F64 { bits }),
                        None => None,
                    },
                ),
            ),
        },
    }
}

/// The payload that a line of kind `k` still needs.
pub open spec fn payload_of(f: u32, k: Seq<char>) -> Payload {
    if k == "coach"@ {
        Payload::Coach(f)
    } else if k == "input"@ {
        Payload::Input(f)
    } else {
        Payload::Nothing
    }
}

proof fn lemma_buckets_insert(frames: Seq<FrameRecords>, i: int, f: FrameRecords)
    requires
        0 <= i <= frames.len(),
    ensures
        buckets(frames.insert(i, f)) == buckets(frames).insert(i, f@),
{
    assert(buckets(frames.insert(i, f)) =~= buckets(frames).insert(i, f@));
}

/// Where a frame's bucket stands, and that everything before it is earlier.
proof fn lemma_place(b: Seq<Bucket>, f: u32)
    requires
        ascending(b),
    ensures
        place(b, f) <= b.len(),
        forall|i: int| 0 <= i < place(b, f) ==> (#[trigger] b[i]).frame < f,
        forall|i: int| place(b, f) <= i < b.len() ==> (#[trigger] b[i]).frame >= f,
    decreases b.len(),
{
    if b.len() > 0 {
        let rest = b.drop_last();
        if b.last().frame < f {
            assert forall|i: int| 0 <= i < b.len() implies (#[trigger] b[i]).frame < f by {
                if i < b.len() - 1 {
                    assert(b[i].frame < b[b.len() - 1].frame);
                }
            }
        } else {
            assert(ascending(rest));
            lemma_place(rest, f);
            assert forall|i: int| 0 <= i < place(b, f) implies (#[trigger] b[i]).frame < f by {
                assert(b[i] == rest[i]);
            }
            assert forall|i: int| place(b, f) <= i < b.len() implies (#[trigger] b[i]).frame
                >= f by {
                if i < rest.len() {
                    assert(b[i] == rest[i]);
                }
            }
        }
    }
}

/// Opening a bucket keeps the frames ascending and loses none.
proof fn lemma_opened(b: Seq<Bucket>, f: u32)
    requires
        ascending(b),
    ensures
        ascending(opened(b, f)),
        place(b, f) < opened(b, f).len(),
        bucket_of(b, f).frame == f,
{
    lemma_place(b, f);
    let p = place(b, f) as int;
    if !has_frame(b, f) {
        let o = opened(b, f);
        assert forall|i: int, j: int| 0 <= i < j < o.len() implies o[i].frame < o[j].frame by {
            let x = if i < p {
                i
            } else {
                i - 1
            };
            let y = if j < p {
                j
            } else {
                j - 1
            };
            if i != p {
                assert(o[i] == b[x]);
            }
            if j != p {
                assert(o[j] == b[y]);
            }
            if i == p {
                assert(b[y].frame >= f && b[y].frame != f) by {
                    if y > p {
                        assert(b[p].frame < b[y].frame);
                    }
                }
            }
        }
    }
}

/// Replacing a bucket by one of the same frame keeps the frames ascending.
proof fn lemma_replaced(b: Seq<Bucket>, f: u32, now: Bucket)
    requires
        ascending(b),
        now.frame == f,
    ensures
        ascending(replaced(b, f, now)),
{
    lemma_opened(b, f);
    let o = opened(b, f);
    let r = replaced(b, f, now);
    assert forall|i: int, j: int| 0 <= i < j < r.len() implies r[i].frame < r[j].frame by {
        assert(r[i].frame == o[i].frame);
        assert(r[j].frame == o[j].frame);
    }
}

impl LoadedTrace {
    /// Starts a trace with its first line, which must be a header of the current
    /// format: what is served is served as it was recorded, so nothing else can
    /// be read.
    pub fn open(path: &str, first: Option<&String>) -> (trace: Result<LoadedTrace, LoadError>)
        ensures
            match first {
                None => trace matches Err(e) && e.kind is InvalidData && e.message@ == path@
                    + ": empty trace"@,
                Some(line) => match header_of(line@) {
                    Err(m) => trace matches Err(e) && e.kind is InvalidData && e.message@ == m,
                    Ok(h) => if h.schema == SCHEMA_VERSION {
                        trace matches Ok(t) && t.header == h && t.frames@.len() == 0 && t.valid()
                    } else {
                        trace matches Err(e) && e.kind is InvalidData && e.message@
                            == wrong_schema(path@, h.schema)
                    },
                },
            },
    {
        let line = match first {
            Some(line) => line,
            None => {
                return Err(err(message(path, ": empty trace")));
            },
        };
        let header = match parse_header(line.as_str()) {
            Ok(h) => h,
            Err(m) => {
                return Err(err(m));
            },
        };
        if header.schema != SCHEMA_VERSION {
            let mut m = String::new();
            m.append(path);
            m.append(": schema ");
            text::push_decimal(&mut m, header.schema as u64);
            m.append(" (replay needs ");
            text::push_decimal(&mut m, SCHEMA_VERSION as u64);
            m.append(") — re-record the trace");
            return Err(err(m));
        }
        let frames: Vec<FrameRecords> = Vec::new();
        assert(buckets(frames@) =~= Seq::empty());
        Ok(LoadedTrace { header, frames })
    }

    fn find(&self, f: u32) -> (i: usize)
        ensures
            i == place(buckets(self.frames@), f),
            i <= self.frames@.len(),
    {
        let ghost b = buckets(self.frames@);
        let mut i: usize = self.frames.len();
        assert(b.take(b.len() as int) =~= b);
        while i > 0 && self.frames[i - 1].frame >= f
            invariant
                i <= self.frames@.len(),
                b == buckets(self.frames@),
                place(b, f) == place(b.take(i as int), f),
            decreases i,
        {
            assert(b.take(i as int).drop_last() =~= b.take(i - 1));
            assert(b.take(i as int).last() == self.frames@[i - 1]@);
            i = i - 1;
        }
        proof {
            if i > 0 {
                assert(b.take(i as int).last() == self.frames@[i - 1]@);
            }
        }
        i
    }

    /// Finds the bucket of frame `f`, opening it where there is none.
    fn slot(&mut self, f: u32) -> (i: usize)
        requires
            old(self).valid(),
        ensures
            final(self).header == old(self).header,
            buckets(final(self).frames@) == opened(buckets(old(self).frames@), f),
            final(self).valid(),
            i == place(buckets(old(self).frames@), f),
            i < final(self).frames@.len(),
            final(self).frames@[i as int].frame == f,
    {
        let ghost b = buckets(self.frames@);
        proof {
            lemma_opened(b, f);
        }
        let i: usize = self.find(f);
        if i < self.frames.len() {
            assert(b[i as int].frame == self.frames@[i as int].frame);
            if self.frames[i].frame == f {
                return i;
            }
        }
        let fresh = FrameRecords { frame: f, delta_s: None, coach: None, inputs: Vec::new() };
        let ghost was = self.frames@;
        let ghost added = fresh;
        self.frames.insert(i, fresh);
        proof {
            assert(added@.inputs =~= Seq::empty());
            lemma_buckets_insert(was, i as int, added);
        }
        i
    }

    /// Reads one record line. The bucket of its frame is opened, a clock record
    /// is filed, and where the line carries more, the answer says what is still
    /// to be filed. Kinds that are only output are passed over.
    pub fn line(&mut self, line: &str) -> (payload: Result<Payload, LoadError>)
        requires
            old(self).valid(),
        ensures
            final(self).valid(),
            final(self).header == old(self).header,
            match line_of(line@) {
                Err(m) => *final(self) == *old(self) && (payload matches Err(e)
                    && e.kind is InvalidData && e.message@ == m),
                Ok((f, k, delta)) => payload == Ok::<Payload, LoadError>(payload_of(f, k)) && buckets(
                    final(self).frames@,
                ) == (if k == "frame"@ {
                    replaced(
                        buckets(old(self).frames@),
                        f,
                        Bucket { delta_s: delta, ..bucket_of(buckets(old(self).frames@), f) },
                    )
                } else {
                    opened(buckets(old(self).frames@), f)
                }),
            },
    {
        let v = match json::parse(line) {
            Ok(v) => v,
            Err(e) => {
                return Err(err(message("bad json line: ", json::fault(&e).as_str())));
            },
        };
        let number: u64 = match json::get_number(&v, "f") {
            Some(n) => n,
            None => {
                return Err(err(message("record missing `f`: ", line)));
            },
        };
        let f: u32 = #[verifier::truncate] (number as u32);
        let k = match json::get_string(&v, "k") {
            Some(k) => k,
            None => {
                return Err(err(message("record missing `k`: ", line)));
            },
        };
        let ghost b = buckets(self.frames@);
        proof {
            reveal_strlit("frame");
            reveal_strlit("coach");
            reveal_strlit("input");
            assert("frame"@[0] != "coach"@[0]);
            assert("frame"@[0] != "input"@[0]);
        }
        let i: usize = self.slot(f);
        if text::same(k, "frame") {
            let delta = match json::get_bits(&v, "delta_s") {
                Some(bits) => Some(F64 { bits }),
                None => None,
            };
            let ghost was = self.frames@;
            self.frames[i].delta_s = delta;
            proof {
                let now = Bucket { delta_s: delta, ..bucket_of(b, f) };
                assert(was[i as int]@ == opened(b, f)[i as int]);
                assert(buckets(self.frames@) =~= replaced(b, f, now));
                lemma_replaced(b, f, now);
            }
            return Ok(Payload::Nothing);
        }
        if text::same(k, "coach") {
            return Ok(Payload::Coach(f));
        }
        if text::same(k, "input") {
            return Ok(Payload::Input(f));
        }
        Ok(Payload::Nothing)
    }

    /// Files what the coach handed over in frame `f`.
    pub fn put_coach(&mut self, f: u32, read: CoachRead)
        requires
            old(self).valid(),
        ensures
            final(self).valid(),
            final(self).header == old(self).header,
            buckets(final(self).frames@) == replaced(
                buckets(old(self).frames@),
                f,
                Bucket { coach: Some(read), ..bucket_of(buckets(old(self).frames@), f) },
            ),
    {
        let ghost b = buckets(self.frames@);
        let i: usize = self.slot(f);
        let ghost was = self.frames@;
        self.frames[i].coach = Some(read);
        proof {
            let now = Bucket { coach: Some(read), ..bucket_of(b, f) };
            assert(was[i as int]@ == opened(b, f)[i as int]);
            assert(buckets(self.frames@) =~= replaced(b, f, now));
            lemma_replaced(b, f, now);
        }
    }

    /// Files an input of frame `f`, behind those that are already there.
    pub fn put_input(&mut self, f: u32, input: InputRecord)
        requires
            old(self).valid(),
        ensures
            final(self).valid(),
            final(self).header == old(self).header,
            buckets(final(self).frames@) == replaced(
                buckets(old(self).frames@),
                f,
                Bucket {
                    inputs: bucket_of(buckets(old(self).frames@), f).inputs.push(input),
                    ..bucket_of(buckets(old(self).frames@), f)
                },
            ),
    {
        let ghost b = buckets(self.frames@);
        let i: usize = self.slot(f);
        let ghost was = self.frames@;
        self.frames[i].inputs.push(input);
        proof {
            let now = Bucket {
                inputs: bucket_of(b, f).inputs.push(input),
                ..bucket_of(b, f)
            };
            assert(was[i as int]@ == opened(b, f)[i as int]);
            assert(buckets(self.frames@) =~= replaced(b, f, now));
            lemma_replaced(b, f, now);
        }
    }
}

// ---- the whole file ------------------------------------------------------

/// A line whose payload is still to be filed.
#[derive(PartialEq, Eq, Debug)]
pub struct Pending {
    pub payload: Payload,
    pub line: String,
}

/// A trace that has been read as far as its lines can be understood.
pub struct Loading {
    /// The frames, with the clock records filed.
    pub trace: LoadedTrace,
    /// The lines whose payload is still to be filed, in order.
    pub pending: Vec<Pending>,
    /// Where reading had to stop. A payload before that point that cannot be
    /// read is the earlier failure of the two.
    pub failure: Option<LoadError>,
}

/// What reading record lines comes to.
pub struct Scan {
    pub buckets: Seq<Bucket>,
    pub pending: Seq<(Payload, Seq<char>)>,
    pub failure: Option<Seq<char>>,
}

/// What reading one more record line comes to.
pub open spec fn scanned(before: Scan, line: Seq<char>) -> Scan {
    match line_of(line) {
        Err(m) => Scan { failure: Some(m), ..before },
        Ok((f, k, delta)) => Scan {
            buckets: if k == "frame"@ {
                replaced(
                    before.buckets,
                    f,
                    Bucket { delta_s: delta, ..bucket_of(before.buckets, f) },
                )
            } else {
                opened(before.buckets, f)
            },
            pending: if payload_of(f, k) is Nothing {
                before.pending
            } else {
                before.pending.push((payload_of(f, k), line))
            },
            failure: None,
        },
    }
}

/// What reading record lines comes to: they are read in order, up to the first
/// that cannot be understood.
pub open spec fn scan(lines: Seq<Seq<char>>) -> Scan
    decreases lines.len(),
{
    if lines.len() == 0 {
        Scan { buckets: Seq::empty(), pending: Seq::empty(), failure: None }
    } else {
        let before = scan(lines.drop_last());
        if before.failure is Some {
            before
        } else {
            scanned(before, lines.last())
        }
    }
}

/// The lines that wait for their payload.
pub open spec fn waiting(pending: Seq<Pending>) -> Seq<(Payload, Seq<char>)> {
    pending.map_values(|p: Pending| (p.payload, p.line@))
}

/// Whether a loaded trace is what reading `lines` comes to.
pub open spec fn holds(loading: Loading, header: Header, lines: Seq<Seq<char>>) -> bool {
    let s = scan(lines);
    &&& loading.trace.header == header
    &&& loading.trace.valid()
    &&& buckets(loading.trace.frames@) == s.buckets
    &&& waiting(loading.pending@) == s.pending
    &&& match (loading.failure, s.failure) {
        (None, None) => true,
        (Some(e), Some(m)) => e.kind is InvalidData && e.message@ == m,
        _ => false,
    }
}

/// The message with which the opening of a trace fails, if it does.
pub open spec fn refused(path: Seq<char>, lines: Seq<Seq<char>>) -> Option<Seq<char>> {
    if lines.len() == 0 {
        Some(path + ": empty trace"@)
    } else {
        match header_of(lines[0]) {
            Err(m) => Some(m),
            Ok(h) => if h.schema == SCHEMA_VERSION {
                None
            } else {
                Some(wrong_schema(path, h.schema))
            },
        }
    }
}

/// Loads the trace at `path` from its raw bytes.
pub fn load(path: &str, raw: &[u8]) -> (loaded: Result<Loading, LoadError>)
    ensures
        match decoded(path@, raw@) {
            Err((kind, m)) => loaded matches Err(e) && e.kind == kind && e.message@ == m,
            Ok(text) => match refused(path@, record_lines(text)) {
                Some(m) => loaded matches Err(e) && e.kind is InvalidData && e.message@ == m,
                None => loaded matches Ok(l) && holds(
                    l,
                    header_of(record_lines(text)[0])->Ok_0,
                    record_lines(text).skip(1),
                ),
            },
        },
{
    let text = match decode_gz(path, raw) {
        Ok(text) => text,
        Err(e) => {
            return Err(e);
        },
    };
    let lines = trace_lines(text.as_str());
    let ghost all = record_lines(text@);
    let first = if lines.len() > 0 {
        Some(&lines[0])
    } else {
        None
    };
    proof {
        assert(text::contents(lines@).len() == lines@.len());
        if lines@.len() > 0 {
            assert(text::contents(lines@)[0] == lines@[0]@);
        }
    }
    let trace = match LoadedTrace::open(path, first) {
        Ok(t) => t,
        Err(e) => {
            return Err(e);
        },
    };
    Ok(read_records(trace, &lines))
}

/// Reads the record lines behind the header.
fn read_records(start: LoadedTrace, lines: &Vec<String>) -> (loading: Loading)
    requires
        lines@.len() > 0,
        start.valid(),
        start.frames@.len() == 0,
    ensures
        holds(loading, start.header, text::contents(lines@).skip(1)),
{
    let ghost all = text::contents(lines@).skip(1);
    let mut trace = start;
    let mut pending: Vec<Pending> = Vec::new();
    assert(buckets(trace.frames@) =~= Seq::empty());
    assert(waiting(pending@) =~= Seq::empty());
    for i in 1..lines.len()
        invariant
            1 <= i <= lines@.len(),
            all == text::contents(lines@).skip(1),
            trace.header == start.header,
            trace.valid(),
            scan(all.take(i - 1)) == (Scan {
                buckets: buckets(trace.frames@),
                pending: waiting(pending@),
                failure: None,
            }),
    {
        proof {
            assert(all.take(i as int).drop_last() =~= all.take(i - 1));
            assert(all.take(i as int).last() == lines@[i as int]@);
        }
        match trace.line(lines[i].as_str()) {
            Err(e) => {
                proof {
                    lemma_scan_stops(all, i as int);
                }
                return Loading { trace, pending, failure: Some(e) };
            },
            Ok(payload) => {
                if payload != Payload::Nothing {
                    let line = lines[i].clone();
                    let ghost was = pending@;
                    pending.push(Pending { payload, line });
                    assert(waiting(pending@) =~= waiting(was).push((payload, lines@[i as int]@)));
                }
            },
        }
    }
    assert(all.take(lines@.len() - 1) =~= all);
    Loading { trace, pending, failure: None }
}

/// Once reading has stopped, what follows does not matter.
proof fn lemma_scan_stops(lines: Seq<Seq<char>>, k: int)
    requires
        0 <= k <= lines.len(),
        scan(lines.take(k)).failure is Some,
    ensures
        scan(lines) == scan(lines.take(k)),
    decreases lines.len() - k,
{
    if k < lines.len() {
        assert(lines.take(k + 1).drop_last() =~= lines.take(k));
        lemma_scan_stops(lines, k + 1);
    } else {
        assert(lines.take(k) =~= lines);
    }
}

/// The message for a trace of another format.
pub open spec fn wrong_schema(path: Seq<char>, schema: u32) -> Seq<char> {
    path + ": schema "@ + text::decimal(schema as nat) + " (replay needs "@ + text::decimal(
        SCHEMA_VERSION as nat,
    ) + ") — re-record the trace"@
}

/// The message for a `coach` line whose payload cannot be read.
pub fn bad_coach(fault: &str) -> (e: LoadError)
    ensures
        e.kind is InvalidData,
        e.message@ == "bad coach record: "@ + fault@,
{
    err(message("bad coach record: ", fault))
}

/// The message for an `input` line whose payload cannot be read.
pub fn bad_input(fault: &str) -> (e: LoadError)
    ensures
        e.kind is InvalidData,
        e.message@ == "bad input record: "@ + fault@,
{
    err(message("bad input record: ", fault))
}

// ---- the payloads --------------------------------------------------------

/// What was read of a line that waited for its payload.
pub enum Filed {
    /// Nothing was to be read.
    Nothing,
    Coach(CoachRead),
    Input(InputRecord),
}

/// Whether what was read of a line is what it waited for.
pub open spec fn answers(payload: Payload, read: Result<Filed, String>) -> bool {
    read matches Ok(x) ==> match payload {
        Payload::Nothing => x is Nothing,
        Payload::Coach(_) => x is Coach,
        Payload::Input(_) => x is Input,
    }
}

/// The buckets with one payload filed: what the coach handed over takes the place of
/// what was there, an input goes behind those that are there.
pub open spec fn filed(b: Seq<Bucket>, payload: Payload, x: Filed) -> Seq<Bucket> {
    match (payload, x) {
        (Payload::Coach(f), Filed::Coach(read)) => replaced(
            b,
            f,
            Bucket { coach: Some(read), ..bucket_of(b, f) },
        ),
        (Payload::Input(f), Filed::Input(input)) => replaced(
            b,
            f,
            Bucket { inputs: bucket_of(b, f).inputs.push(input), ..bucket_of(b, f) },
        ),
        _ => b,
    }
}

/// The message for a payload that cannot be read.
pub open spec fn bad_payload(payload: Payload, fault: Seq<char>) -> Seq<char> {
    match payload {
        Payload::Coach(_) => "bad coach record: "@ + fault,
        _ => "bad input record: "@ + fault,
    }
}

/// What filing payloads in order comes to: the buckets, or the message of the first
/// that could not be read.
pub open spec fn filing(
    b: Seq<Bucket>,
    pending: Seq<Pending>,
    payloads: Seq<Result<Filed, String>>,
) -> Result<Seq<Bucket>, Seq<char>>
    decreases pending.len(),
{
    if pending.len() == 0 {
        Ok(b)
    } else {
        match filing(b, pending.drop_last(), payloads.drop_last()) {
            Err(m) => Err(m),
            Ok(now) => match payloads.last() {
                Err(fault) => Err(bad_payload(pending.last().payload, fault@)),
                Ok(x) => Ok(filed(now, pending.last().payload, x)),
            },
        }
    }
}

/// Completes a loaded trace with what was read of the lines that waited for their
/// payload, in their order. The first failure in the file counts.
pub fn file_payloads(loading: Loading, payloads: Vec<Result<Filed, String>>) -> (loaded: Result<
    LoadedTrace,
    LoadError,
>)
    requires
        loading.trace.valid(),
        payloads@.len() == loading.pending@.len(),
        forall|i: int|
            0 <= i < payloads@.len() ==> answers(
                loading.pending@[i].payload,
                #[trigger] payloads@[i],
            ),
    ensures
        match filing(buckets(loading.trace.frames@), loading.pending@, payloads@) {
            Err(m) => loaded matches Err(e) && e.kind is InvalidData && e.message@ == m,
            Ok(b) => match loading.failure {
                Some(e) => loaded == Err::<LoadedTrace, LoadError>(e),
                None => loaded matches Ok(t) && t.header == loading.trace.header && t.valid()
                    && buckets(t.frames@) == b,
            },
        },
{
    let ghost start = buckets(loading.trace.frames@);
    let ghost all = payloads@;
    let ghost lines = loading.pending@;
    let ghost header = loading.trace.header;
    let mut trace = loading.trace;
    let pending = loading.pending;
    let mut rest = payloads;
    let mut i: usize = 0;
    assert(lines.take(0) =~= Seq::empty());
    while i < pending.len()
        invariant
            i <= pending@.len(),
            start == buckets(loading.trace.frames@),
            lines == loading.pending@,
            all == payloads@,
            pending@ == lines,
            all.len() == lines.len(),
            rest@.len() == all.len(),
            forall|j: int| i <= j < all.len() ==> #[trigger] rest@[j] == all[j],
            trace.valid(),
            trace.header == header,
            forall|j: int|
                0 <= j < all.len() ==> answers(lines[j].payload, #[trigger] all[j]),
            filing(start, lines.take(i as int), all.take(i as int)) == Ok::<
                Seq<Bucket>,
                Seq<char>,
            >(buckets(trace.frames@)),
        decreases pending@.len() - i,
    {
        let mut read: Result<Filed, String> = Ok(Filed::Nothing);
        std::mem::swap(&mut rest[i], &mut read);
        proof {
            assert(read == all[i as int]);
            assert(lines.take(i + 1).drop_last() =~= lines.take(i as int));
            assert(all.take(i + 1).drop_last() =~= all.take(i as int));
            assert(lines.take(i + 1).last() == lines[i as int]);
            assert(all.take(i + 1).last() == all[i as int]);
        }
        match read {
            Err(fault) => {
                proof {
                    lemma_filing_stops(start, lines, all, i + 1);
                }
                return match pending[i].payload {
                    Payload::Coach(_) => Err(bad_coach(fault.as_str())),
                    _ => Err(bad_input(fault.as_str())),
                };
            },
            Ok(Filed::Coach(read)) => {
                if let Payload::Coach(f) = pending[i].payload {
                    trace.put_coach(f, read);
                }
            },
            Ok(Filed::Input(input)) => {
                if let Payload::Input(f) = pending[i].payload {
                    trace.put_input(f, input);
                }
            },
            Ok(Filed::Nothing) => {},
        }
        i = i + 1;
    }
    assert(lines.take(lines.len() as int) =~= lines);
    assert(all.take(lines.len() as int) =~= all);
    match loading.failure {
        Some(e) => Err(e),
        None => Ok(trace),
    }
}

/// Once a payload could not be read, what follows does not matter.
proof fn lemma_filing_stops(
    b: Seq<Bucket>,
    pending: Seq<Pending>,
    payloads: Seq<Result<Filed, String>>,
    k: int,
)
    requires
        pending.len() == payloads.len(),
        0 <= k <= pending.len(),
        filing(b, pending.take(k), payloads.take(k)) is Err,
    ensures
        filing(b, pending, payloads) == filing(b, pending.take(k), payloads.take(k)),
    decreases pending.len() - k,
{
    if k < pending.len() {
        assert(pending.take(k + 1).drop_last() =~= pending.take(k));
        assert(payloads.take(k + 1).drop_last() =~= payloads.take(k));
        lemma_filing_stops(b, pending, payloads, k + 1);
    } else {
        assert(pending.take(k) =~= pending);
        assert(payloads.take(k) =~= payloads);
    }
}

// ---- laws ----------------------------------------------------------------

/// Filing something in one frame leaves every other frame as it was.
pub proof fn law_frames_do_not_mix(b: Seq<Bucket>, f: u32, g: u32, now: Bucket)
    requires
        ascending(b),
        now.frame == f,
        f != g,
    ensures
        has_frame(replaced(b, f, now), g) == has_frame(b, g),
        has_frame(b, g) ==> bucket_of(replaced(b, f, now), g) == bucket_of(b, g),
        has_frame(replaced(b, f, now), f),
        bucket_of(replaced(b, f, now), f) == now,
{
    let r = replaced(b, f, now);
    let p = place(b, f) as int;
    lemma_place(b, f);
    lemma_place(b, g);
    lemma_opened(b, f);
    lemma_replaced(b, f, now);
    lemma_place(r, f);
    lemma_place(r, g);
    assert(r[p].frame == f);
    assert(place(r, f) == p) by {
        let q = place(r, f) as int;
        if q < p {
            assert(r[q].frame >= f);
            assert(r[q].frame < r[p].frame);
        }
        if q > p {
            assert(r[p].frame < f);
        }
    }
    if has_frame(b, g) {
        let i = place(b, g) as int;
        let j = if has_frame(b, f) || i < p {
            i
        } else {
            i + 1
        };
        assert(r[j] == b[i]);
        lemma_find(r, g, j);
    }
    if has_frame(r, g) {
        let j = place(r, g) as int;
        let i = if has_frame(b, f) || j < p {
            j
        } else {
            j - 1
        };
        assert(j != p);
        assert(r[j] == b[i]);
        lemma_find(b, g, i);
    }
}

proof fn lemma_find(b: Seq<Bucket>, f: u32, i: int)
    requires
        ascending(b),
        0 <= i < b.len(),
        b[i].frame == f,
    ensures
        place(b, f) == i,
{
    lemma_place(b, f);
    let p = place(b, f) as int;
    if p < i {
        assert(b[p].frame < b[i].frame);
    }
}

/// Filing something in frame `f`, as every other frame sees it.
proof fn lemma_filed_elsewhere(b: Seq<Bucket>, f: u32, now: Bucket, g: u32)
    requires
        ascending(b),
        now.frame == f,
    ensures
        ascending(replaced(b, f, now)),
        has_frame(replaced(b, f, now), g) == (g == f || has_frame(b, g)),
        bucket_of(replaced(b, f, now), g) == (if g == f {
            now
        } else {
            bucket_of(b, g)
        }),
{
    let r = replaced(b, f, now);
    lemma_replaced(b, f, now);
    if g == f {
        let other: u32 = if f == 0 {
            1
        } else {
            0
        };
        law_frames_do_not_mix(b, f, other, now);
    } else {
        law_frames_do_not_mix(b, f, g, now);
        if !has_frame(b, g) {
            lemma_place(b, g);
            lemma_place(r, g);
        }
    }
}

/// Whether some of the lines belongs to frame `f`.
pub open spec fn records_frame(lines: Seq<Seq<char>>, f: u32) -> bool {
    exists|i: int| 0 <= i < lines.len() && line_frame(#[trigger] lines[i]) == Some(f)
}

/// The frame that a record line belongs to.
pub open spec fn line_frame(line: Seq<char>) -> Option<u32> {
    match line_of(line) {
        Ok((f, k, delta)) => Some(f),
        Err(m) => None,
    }
}

/// The frame that a line waits to be filed in.
pub open spec fn payload_frame(payload: Payload) -> Option<u32> {
    match payload {
        Payload::Coach(f) => Some(f),
        Payload::Input(f) => Some(f),
        Payload::Nothing => None,
    }
}

/// Reading lines opens one bucket for each frame that is recorded, with no input in
/// it yet, and every line that waits for its payload has its bucket.
proof fn lemma_scan(lines: Seq<Seq<char>>, f: u32)
    ensures
        ascending(scan(lines).buckets),
        scan(lines).failure is None ==> has_frame(scan(lines).buckets, f) == records_frame(
            lines,
            f,
        ),
        bucket_of(scan(lines).buckets, f).inputs == Seq::<InputRecord>::empty(),
        forall|i: int|
            0 <= i < scan(lines).pending.len() && payload_frame(
                (#[trigger] scan(lines).pending[i]).0,
            ) == Some(f) ==> has_frame(scan(lines).buckets, f),
    decreases lines.len(),
{
    if lines.len() > 0 {
        let start = lines.drop_last();
        let before = scan(start);
        lemma_scan(start, f);
        if before.failure is None {
            match line_of(lines.last()) {
                Err(m) => {},
                Ok((g, k, delta)) => {
                    let b = before.buckets;
                    let now = if k == "frame"@ {
                        Bucket { delta_s: delta, ..bucket_of(b, g) }
                    } else {
                        bucket_of(b, g)
                    };
                    lemma_opened(b, g);
                    assert(opened(b, g) =~= replaced(b, g, bucket_of(b, g)));
                    lemma_filed_elsewhere(b, g, now, f);
                    if f == g {
                        assert(line_frame(lines[lines.len() - 1]) == Some(f));
                    } else {
                        if records_frame(start, f) {
                            let i = choose|i: int|
                                0 <= i < start.len() && line_frame(#[trigger] start[i]) == Some(f);
                            assert(line_frame(lines[i]) == Some(f));
                        }
                        if records_frame(lines, f) {
                            let i = choose|i: int|
                                0 <= i < lines.len() && line_frame(#[trigger] lines[i]) == Some(f);
                            assert(i < lines.len() - 1);
                            assert(line_frame(start[i]) == Some(f));
                        }
                    }
                    let after = scan(lines);
                    assert forall|i: int|
                        0 <= i < after.pending.len() && payload_frame(
                            (#[trigger] after.pending[i]).0,
                        ) == Some(f) implies has_frame(after.buckets, f) by {
                        if i < before.pending.len() {
                            assert(after.pending[i] == before.pending[i]);
                        }
                    }
                },
            }
        }
    }
}

/// The inputs of frame `f` among payloads, in their order.
pub open spec fn inputs_of(
    pending: Seq<Pending>,
    payloads: Seq<Result<Filed, String>>,
    f: u32,
) -> Seq<InputRecord>
    decreases pending.len(),
{
    if pending.len() == 0 {
        Seq::empty()
    } else {
        let before = inputs_of(pending.drop_last(), payloads.drop_last(), f);
        match payloads.last() {
            Ok(Filed::Input(input)) => if pending.last().payload == Payload::Input(f) {
                before.push(input)
            } else {
                before
            },
            _ => before,
        }
    }
}

/// The inputs of every frame are filed in the order in which they were recorded,
/// behind those that are there, and nothing else is filed among them.
pub proof fn law_inputs_are_filed_in_order(
    b: Seq<Bucket>,
    pending: Seq<Pending>,
    payloads: Seq<Result<Filed, String>>,
    f: u32,
)
    requires
        ascending(b),
        pending.len() == payloads.len(),
        filing(b, pending, payloads) is Ok,
    ensures
        ascending(filing(b, pending, payloads)->Ok_0),
        bucket_of(filing(b, pending, payloads)->Ok_0, f).inputs == bucket_of(b, f).inputs
            + inputs_of(pending, payloads, f),
    decreases pending.len(),
{
    if pending.len() == 0 {
        assert(bucket_of(b, f).inputs + Seq::<InputRecord>::empty() =~= bucket_of(b, f).inputs);
    } else {
        law_inputs_are_filed_in_order(b, pending.drop_last(), payloads.drop_last(), f);
        let now = filing(b, pending.drop_last(), payloads.drop_last())->Ok_0;
        match (pending.last().payload, payloads.last()->Ok_0) {
            (Payload::Coach(g), Filed::Coach(read)) => {
                lemma_opened(now, g);
                lemma_filed_elsewhere(
                    now,
                    g,
                    Bucket { coach: Some(read), ..bucket_of(now, g) },
                    f,
                );
            },
            (Payload::Input(g), Filed::Input(input)) => {
                lemma_opened(now, g);
                lemma_filed_elsewhere(
                    now,
                    g,
                    Bucket {
                        inputs: bucket_of(now, g).inputs.push(input),
                        ..bucket_of(now, g)
                    },
                    f,
                );
                if f == g {
                    let before = inputs_of(pending.drop_last(), payloads.drop_last(), f);
                    assert((bucket_of(b, f).inputs + before).push(input) =~= bucket_of(b, f).inputs
                        + before.push(input));
                }
            },
            _ => {},
        }
    }
}

/// Filing payloads opens no bucket where every one of them has its bucket.
proof fn lemma_filing_opens_none(
    b: Seq<Bucket>,
    pending: Seq<Pending>,
    payloads: Seq<Result<Filed, String>>,
    f: u32,
)
    requires
        ascending(b),
        pending.len() == payloads.len(),
        filing(b, pending, payloads) is Ok,
        forall|i: int|
            0 <= i < pending.len() && payload_frame((#[trigger] pending[i]).payload) == Some(f)
                ==> has_frame(b, f),
    ensures
        has_frame(filing(b, pending, payloads)->Ok_0, f) == has_frame(b, f),
    decreases pending.len(),
{
    if pending.len() > 0 {
        let some = pending.drop_last();
        assert forall|i: int|
            0 <= i < some.len() && payload_frame((#[trigger] some[i]).payload) == Some(
                f,
            ) implies has_frame(b, f) by {
            assert(some[i] == pending[i]);
        }
        lemma_filing_opens_none(b, some, payloads.drop_last(), f);
        law_inputs_are_filed_in_order(b, some, payloads.drop_last(), f);
        let now = filing(b, some, payloads.drop_last())->Ok_0;
        assert(payload_frame(pending[pending.len() - 1].payload) == Some(f) ==> has_frame(b, f));
        match (pending.last().payload, payloads.last()->Ok_0) {
            (Payload::Coach(g), Filed::Coach(read)) => {
                lemma_opened(now, g);
                lemma_filed_elsewhere(
                    now,
                    g,
                    Bucket { coach: Some(read), ..bucket_of(now, g) },
                    f,
                );
            },
            (Payload::Input(g), Filed::Input(input)) => {
                lemma_opened(now, g);
                lemma_filed_elsewhere(
                    now,
                    g,
                    Bucket {
                        inputs: bucket_of(now, g).inputs.push(input),
                        ..bucket_of(now, g)
                    },
                    f,
                );
            },
            _ => {},
        }
    }
}

/// A loaded trace holds one bucket for each frame that some record belongs to, in
/// ascending order, and in it exactly the inputs of that frame as they were
/// recorded.
pub proof fn law_a_trace_holds_what_was_recorded(
    lines: Seq<Seq<char>>,
    pending: Seq<Pending>,
    payloads: Seq<Result<Filed, String>>,
    f: u32,
)
    requires
        scan(lines).failure is None,
        waiting(pending) == scan(lines).pending,
        pending.len() == payloads.len(),
        filing(scan(lines).buckets, pending, payloads) is Ok,
    ensures
        ascending(filing(scan(lines).buckets, pending, payloads)->Ok_0),
        has_frame(filing(scan(lines).buckets, pending, payloads)->Ok_0, f) <==> records_frame(
            lines,
            f,
        ),
        bucket_of(filing(scan(lines).buckets, pending, payloads)->Ok_0, f).inputs == inputs_of(
            pending,
            payloads,
            f,
        ),
{
    let b = scan(lines).buckets;
    lemma_scan(lines, f);
    assert forall|i: int|
        0 <= i < pending.len() && payload_frame((#[trigger] pending[i]).payload) == Some(
            f,
        ) implies has_frame(b, f) by {
        assert(waiting(pending)[i] == scan(lines).pending[i]);
    }
    lemma_filing_opens_none(b, pending, payloads, f);
    law_inputs_are_filed_in_order(b, pending, payloads, f);
    assert(Seq::<InputRecord>::empty() + inputs_of(pending, payloads, f) =~= inputs_of(
        pending,
        payloads,
        f,
    ));
}

/// The text of lines, each with its newline.
pub open spec fn text_of(lines: Seq<Seq<char>>) -> Seq<char>
    decreases lines.len(),
{
    if lines.len() == 0 {
        Seq::empty()
    } else {
        lines[0] + seq!['\n'] + text_of(lines.skip(1))
    }
}

/// Whether a line can be told from its neighbours: it holds no newline, does not
/// end in a carriage return, and is not blank.
pub open spec fn is_record_line(line: Seq<char>) -> bool {
    &&& forall|i: int| 0 <= i < line.len() ==> (#[trigger] line[i]) != '\n'
    &&& line.len() > 0 ==> line.last() != '\r'
    &&& !blank(line)
}

/// Lines that were written come back as they were.
pub proof fn law_lines_round_trip(lines: Seq<Seq<char>>)
    requires
        forall|i: int| 0 <= i < lines.len() ==> is_record_line(#[trigger] lines[i]),
    ensures
        record_lines(text_of(lines)) == lines,
    decreases lines.len(),
{
    if lines.len() > 0 {
        let line = lines[0];
        let rest = lines.skip(1);
        let s = text_of(lines);
        assert forall|i: int| 0 <= i < rest.len() implies is_record_line(#[trigger] rest[i]) by {
            assert(rest[i] == lines[i + 1]);
        }
        law_lines_round_trip(rest);
        assert(is_record_line(lines[0]));
        lemma_newline_at(line, seq!['\n'] + text_of(rest));
        assert(s =~= line + (seq!['\n'] + text_of(rest)));
        assert(to_newline(s) == line.len());
        assert(s.take(line.len() as int) =~= line);
        assert(first_line(s) == line) by {
            if line.len() > 0 {
                assert(s[line.len() - 1] == line.last());
            }
        }
        assert(s.skip(line.len() as int + 1) =~= text_of(rest));
        assert(seq![line] + rest =~= lines);
    } else {
        assert(lines =~= Seq::empty());
    }
}

proof fn lemma_newline_at(line: Seq<char>, tail: Seq<char>)
    requires
        forall|i: int| 0 <= i < line.len() ==> (#[trigger] line[i]) != '\n',
        tail.len() > 0,
        tail[0] == '\n',
    ensures
        to_newline(line + tail) == line.len(),
    decreases line.len(),
{
    let s = line + tail;
    if line.len() > 0 {
        let rest = line.skip(1);
        assert(s[0] == line[0]);
        assert forall|i: int| 0 <= i < rest.len() implies (#[trigger] rest[i]) != '\n' by {
            assert(rest[i] == line[i + 1]);
        }
        lemma_newline_at(rest, tail);
        assert(s.skip(1) =~= rest + tail);
    } else {
        assert(s =~= tail);
    }
}

/// The central promise of the flight recorder: a stream that holds whole record
/// lines is read back as exactly those lines, whether the run that wrote it
/// ended well or was killed right after a flush.
pub proof fn law_recorded_lines_are_read_back(path: Seq<char>, raw: Seq<u8>, lines: Seq<Seq<char>>)
    requires
        forall|i: int| 0 <= i < lines.len() ==> is_record_line(#[trigger] lines[i]),
        gzip::gunzipped(raw).0 == utf8::encode_utf8(text_of(lines)),
        gzip::gunzipped(raw).1 == GzEnd::Complete || gzip::gunzipped(raw).1 == GzEnd::Truncated,
    ensures
        decoded(path, raw) == Ok::<Seq<char>, (FailureKind, Seq<char>)>(text_of(lines)),
        record_lines(text_of(lines)) == lines,
{
    let text = text_of(lines);
    let bytes = utf8::encode_utf8(text);
    utf8::encode_utf8_valid_utf8(text);
    utf8::encode_utf8_decode_utf8(text);
    lemma_ends_in_newline(lines);
    assert(whole_lines(bytes) == bytes);
    law_lines_round_trip(lines);
}

/// The bytes of a text of lines end in a newline.
proof fn lemma_ends_in_newline(lines: Seq<Seq<char>>)
    ensures
        lines.len() > 0 ==> utf8::encode_utf8(text_of(lines)).len() > 0 && utf8::encode_utf8(
            text_of(lines),
        ).last() == 10,
        lines.len() == 0 ==> utf8::encode_utf8(text_of(lines)).len() == 0,
    decreases lines.len(),
{
    if lines.len() > 0 {
        let rest = lines.skip(1);
        let head = lines[0] + seq!['\n'];
        lemma_ends_in_newline(rest);
        lemma_encode_concat(head, text_of(rest));
        lemma_encode_concat(lines[0], seq!['\n']);
        lemma_encode_newline();
    }
}

/// The encoding of texts put together is the encodings put together.
pub proof fn lemma_encode_concat(a: Seq<char>, b: Seq<char>)
    ensures
        utf8::encode_utf8(a + b) == utf8::encode_utf8(a) + utf8::encode_utf8(b),
    decreases a.len(),
{
    if a.len() == 0 {
        assert(a + b =~= b);
        assert(utf8::encode_utf8(a) =~= Seq::empty());
        assert(utf8::encode_utf8(a) + utf8::encode_utf8(b) =~= utf8::encode_utf8(b));
    } else {
        lemma_encode_concat(a.drop_first(), b);
        assert((a + b).drop_first() =~= a.drop_first() + b);
        assert((a + b)[0] == a[0]);
        assert(utf8::encode_utf8(a + b) =~= utf8::encode_utf8(a) + utf8::encode_utf8(b));
    }
}

/// A newline is encoded as the byte 10.
pub proof fn lemma_encode_newline()
    ensures
        utf8::encode_utf8(seq!['\n']) == seq![10u8],
{
    let s = seq!['\n'];
    assert(s.drop_first() =~= Seq::empty());
    assert(utf8::encode_utf8(s.drop_first()) =~= Seq::empty());
    assert(10u32 & 0x7f == 10u32) by (bit_vector);
    assert(utf8::encode_scalar('\n' as u32) =~= seq![10u8]);
    assert(utf8::encode_utf8(s) =~= seq![10u8]);
}

// ---- what reading stands for -----------------------------------------------

/// Cutting bytes to whole lines keeps a beginning of them that is empty or ends in a
/// newline, and cuts off no newline.
pub proof fn law_whole_lines_are_kept(bytes: Seq<u8>, i: int)
    ensures
        ({
            let kept = whole_lines(bytes);
            &&& kept.len() <= bytes.len()
            &&& 0 <= i < kept.len() ==> kept[i] == bytes[i]
            &&& kept.len() > 0 ==> kept.last() == 10
            &&& kept.len() <= i < bytes.len() ==> bytes[i] != 10
        }),
    decreases bytes.len(),
{
    if bytes.len() > 0 && bytes.last() != 10 {
        law_whole_lines_are_kept(bytes.drop_last(), i);
        if 0 <= i < bytes.len() - 1 {
            assert(bytes.drop_last()[i] == bytes[i]);
        }
    }
}

/// How each end of a stream is read: a complete one has to be text, of one that ends
/// in the middle the whole lines are kept as far as they are text, and any other is
/// refused with the trouble named behind the path.
pub proof fn law_how_streams_are_read(path: Seq<char>, raw: Seq<u8>)
    ensures
        ({
            let (bytes, end, fault) = gzip::gunzipped(raw);
            let read = decoded(path, raw);
            &&& end is Complete && utf8::valid_utf8(bytes) ==> (read matches Ok(t) && t
                == utf8::decode_utf8(bytes))
            &&& end is Complete && !utf8::valid_utf8(bytes) ==> (read matches Err((kind, m))
                && kind is InvalidData && m == path + ": stream did not contain valid UTF-8"@)
            &&& end is Truncated && utf8::valid_utf8(whole_lines(bytes)) ==> (read matches Ok(t)
                && t == utf8::decode_utf8(whole_lines(bytes)))
            &&& end is Truncated && !utf8::valid_utf8(whole_lines(bytes)) ==> (read matches Ok(t)
                && t.len() == 0)
            &&& end is InvalidInput ==> (read matches Err((kind, m)) && kind is InvalidInput && m
                == path + ": "@ + fault)
            &&& end is InvalidData ==> (read matches Err((kind, m)) && kind is InvalidData && m
                == path + ": "@ + fault)
            &&& end is Other ==> (read matches Err((kind, m)) && kind is Other && m == path + ": "@
                + fault)
        }),
{
}

/// A text or an error is what a specification says where it is of the same kind and
/// has the same words.
pub proof fn law_results_agree(
    r: Result<String, LoadError>,
    s: Result<Seq<char>, (FailureKind, Seq<char>)>,
)
    requires
        agrees(r, s),
    ensures
        r is Ok <==> s is Ok,
        r matches Ok(text) ==> s == Ok::<Seq<char>, (FailureKind, Seq<char>)>(text@),
        r matches Err(e) ==> s == Err::<Seq<char>, (FailureKind, Seq<char>)>((e.kind, e.message@)),
{
}

/// Which characters are white space: the five controls from tab to carriage return,
/// the space, and nineteen beyond ASCII.
pub proof fn law_white_space(c: char)
    ensures
        c as u32 <= 0x7f ==> whitespace(c) == (c == '\t' || c == '\n' || c as u32 == 0xb || c as u32
            == 0xc || c == '\r' || c == ' '),
        0x7f < c as u32 <= 0x1fff ==> whitespace(c) == (c as u32 == 0x85 || c as u32 == 0xa0
            || c as u32 == 0x1680),
        c as u32 > 0x1fff ==> whitespace(c) == (c as u32 <= 0x200a || c as u32 == 0x2028 || c as u32
            == 0x2029 || c as u32 == 0x202f || c as u32 == 0x205f || c as u32 == 0x3000),
{
}

/// A line is blank where none of its characters is anything but white space; so the
/// empty one is, and of two put together both are.
pub proof fn law_blank_lines(a: Seq<char>, b: Seq<char>, c: char)
    ensures
        blank(Seq::<char>::empty()),
        blank(seq![c]) == whitespace(c),
        blank(a + b) == (blank(a) && blank(b)),
{
    assert(seq![c][0] == c);
    let all = a + b;
    if blank(all) {
        assert forall|i: int| 0 <= i < a.len() implies whitespace(#[trigger] a[i]) by {
            assert(all[i] == a[i]);
        }
        assert forall|i: int| 0 <= i < b.len() implies whitespace(#[trigger] b[i]) by {
            assert(all[a.len() + i] == b[i]);
        }
    }
    if blank(a) && blank(b) {
        assert forall|i: int| 0 <= i < all.len() implies whitespace(#[trigger] all[i]) by {
            if i < a.len() {
                assert(all[i] == a[i]);
            } else {
                assert(all[i] == b[i - a.len()]);
            }
        }
    }
}

proof fn lemma_first_lines(line: Seq<char>, rest: Seq<char>)
    requires
        forall|i: int| 0 <= i < line.len() ==> (#[trigger] line[i]) != '\n',
    ensures
        ({
            let kept = if line.len() > 0 && line.last() == '\r' {
                line.drop_last()
            } else {
                line
            };
            record_lines(line + seq!['\n'] + rest) == if blank(kept) {
                record_lines(rest)
            } else {
                seq![kept] + record_lines(rest)
            }
        }),
{
    let s = line + seq!['\n'] + rest;
    assert(s =~= line + (seq!['\n'] + rest));
    lemma_newline_at(line, seq!['\n'] + rest);
    let k = line.len() as int;
    assert(to_newline(s) == k);
    assert(s.skip(k + 1) =~= rest);
    assert(s.take(k) =~= line);
    if k > 0 {
        assert(s[k - 1] == line.last());
        assert(s.take(k - 1) =~= line.drop_last());
    }
}

/// A text is read line by line: a line ends at its newline, a carriage return before
/// that belongs to the newline, and a blank line is left out.
pub proof fn law_lines_end_at_newlines(line: Seq<char>, rest: Seq<char>)
    requires
        forall|i: int| 0 <= i < line.len() ==> (#[trigger] line[i]) != '\n',
        line.len() > 0 ==> line.last() != '\r',
    ensures
        !blank(line) ==> record_lines(line + seq!['\n'] + rest) == seq![line] + record_lines(rest),
        !blank(line) ==> record_lines(line + seq!['\r', '\n'] + rest) == seq![line] + record_lines(
            rest,
        ),
        blank(line) ==> record_lines(line + seq!['\n'] + rest) == record_lines(rest),
        blank(line) ==> record_lines(line + seq!['\r', '\n'] + rest) == record_lines(rest),
{
    lemma_first_lines(line, rest);
    let back = line.push('\r');
    assert forall|i: int| 0 <= i < back.len() implies (#[trigger] back[i]) != '\n' by {
        if i < line.len() {
            assert(back[i] == line[i]);
        }
    }
    lemma_first_lines(back, rest);
    assert(back.drop_last() =~= line);
    assert(back + seq!['\n'] + rest =~= line + seq!['\r', '\n'] + rest);
}

/// A last line without a newline is a line like any other, and keeps what stands at
/// its end.
pub proof fn law_a_last_line_needs_no_newline(line: Seq<char>)
    requires
        forall|i: int| 0 <= i < line.len() ==> (#[trigger] line[i]) != '\n',
    ensures
        !blank(line) ==> record_lines(line) == seq![line],
        blank(line) ==> record_lines(line).len() == 0,
{
    lemma_newline_at(line, seq!['\n']);
    lemma_no_newline(line);
    if line.len() > 0 {
        assert(line.take(line.len() as int) =~= line);
        assert(first_line(line) == line);
        assert(seq![line] + Seq::<Seq<char>>::empty() =~= seq![line]);
    }
}

proof fn lemma_no_newline(line: Seq<char>)
    requires
        forall|i: int| 0 <= i < line.len() ==> (#[trigger] line[i]) != '\n',
    ensures
        to_newline(line) == line.len(),
    decreases line.len(),
{
    if line.len() > 0 {
        let rest = line.skip(1);
        assert(line[0] != '\n');
        assert forall|i: int| 0 <= i < rest.len() implies (#[trigger] rest[i]) != '\n' by {
            assert(rest[i] == line[i + 1]);
        }
        lemma_no_newline(rest);
    }
}

/// What a header has to hold, and what is taken from it: the kind `run`, a format and
/// a window; a side of the window that is no number is zero, and a scale that is
/// missing is one.
pub proof fn law_headers_are_read(line: Seq<char>, v: Value, schema: u64, window: Seq<Value>)
    requires
        json::json_of(line) == Ok::<Value, serde_json::Error>(v),
    ensures
        json::text_at(v, "k"@) != Some("run"@) ==> header_of(line) == Err::<Header, Seq<char>>(
            "first line is not a `run` header: "@ + line,
        ),
        json::text_at(v, "k"@) == Some("run"@) && json::number_at(v, "schema"@) is None
            ==> header_of(line) == Err::<Header, Seq<char>>("header missing `schema`"@),
        json::text_at(v, "k"@) == Some("run"@) && json::number_at(v, "schema"@) is Some
            && json::items_at(v, "window_logical"@) is None ==> header_of(line) == Err::<
            Header,
            Seq<char>,
        >("header missing `window_logical`"@),
        json::text_at(v, "k"@) == Some("run"@) && json::number_at(v, "schema"@) == Some(schema)
            && json::items_at(v, "window_logical"@) == Some(window) ==> {
            &&& header_of(line) matches Ok(h)
            &&& schema <= 0xffff_ffff ==> h.schema == schema
            &&& window.len() > 0 ==> (json::bits_of(window[0]) matches Some(b) ==> h.width.bits
                == b)
            &&& window.len() == 0 || json::bits_of(window[0]) is None ==> h.width.bits == 0
            &&& window.len() > 1 ==> (json::bits_of(window[1]) matches Some(b) ==> h.height.bits
                == b)
            &&& window.len() <= 1 || json::bits_of(window[1]) is None ==> h.height.bits == 0
            &&& json::bits_at(v, "scale_factor"@) matches Some(b) ==> h.scale_factor.bits == b
            &&& json::bits_at(v, "scale_factor"@) is None ==> h.scale_factor.bits
                == 0x3ff0_0000_0000_0000
        },
{
}

/// A first line that is no JSON is refused with the reader's words.
pub proof fn law_a_header_has_to_be_json(line: Seq<char>, e: serde_json::Error)
    requires
        json::json_of(line) == Err::<Value, serde_json::Error>(e),
    ensures
        header_of(line) == Err::<Header, Seq<char>>("bad header json: "@ + json::fault_text(e)),
        line_of(line) == Err::<(u32, Seq<char>, Option<F64>), Seq<char>>(
            "bad json line: "@ + json::fault_text(e),
        ),
{
}

/// What a record line has to hold, and what is taken from it: a frame and a kind, and
/// the step of the clock where it has one.
pub proof fn law_record_lines_are_read(line: Seq<char>, v: Value, f: u64, k: Seq<char>)
    requires
        json::json_of(line) == Ok::<Value, serde_json::Error>(v),
    ensures
        json::number_at(v, "f"@) is None ==> line_of(line) == Err::<
            (u32, Seq<char>, Option<F64>),
            Seq<char>,
        >("record missing `f`: "@ + line),
        json::number_at(v, "f"@) is Some && json::text_at(v, "k"@) is None ==> line_of(line)
            == Err::<(u32, Seq<char>, Option<F64>), Seq<char>>("record missing `k`: "@ + line),
        json::number_at(v, "f"@) == Some(f) && json::text_at(v, "k"@) == Some(k) ==> {
            &&& line_of(line) matches Ok((frame, kind, delta))
            &&& f <= 0xffff_ffff ==> frame == f
            &&& kind == k
            &&& json::bits_at(v, "delta_s"@) matches Some(b) ==> delta == Some(F64 { bits: b })
            &&& json::bits_at(v, "delta_s"@) is None ==> delta is None
        },
{
}

/// Only what the coach handed over and the inputs wait for more than their line.
pub proof fn law_what_waits_for_its_payload(f: u32, k: Seq<char>)
    ensures
        payload_of(f, "coach"@) == Payload::Coach(f),
        payload_of(f, "input"@) == Payload::Input(f),
        k != "coach"@ && k != "input"@ ==> payload_of(f, k) is Nothing,
{
    reveal_strlit("coach");
    reveal_strlit("input");
    assert("coach"@[0] == 'c' && "input"@[0] == 'i');
}

/// A frame has a bucket exactly where one of the buckets is its own, and that one is
/// found; where there is none, an empty one is opened in order and the others stay.
pub proof fn law_buckets_are_found_by_frame(b: Seq<Bucket>, f: u32, i: int)
    requires
        ascending(b),
    ensures
        0 <= i < b.len() && b[i].frame == f ==> has_frame(b, f) && bucket_of(b, f) == b[i]
            && opened(b, f) == b,
        !has_frame(b, f) ==> {
            &&& 0 <= i < b.len() ==> b[i].frame != f
            &&& opened(b, f).len() == b.len() + 1
            &&& 0 <= i < b.len() && b[i].frame < f ==> opened(b, f)[i] == b[i]
            &&& 0 <= i < b.len() && b[i].frame > f ==> opened(b, f)[i + 1] == b[i]
            &&& bucket_of(b, f).frame == f
            &&& bucket_of(b, f).delta_s is None
            &&& bucket_of(b, f).coach is None
            &&& bucket_of(b, f).inputs.len() == 0
        },
        ascending(opened(b, f)),
{
    lemma_place(b, f);
    lemma_opened(b, f);
    if 0 <= i < b.len() && b[i].frame == f {
        lemma_find(b, f, i);
    }
}

/// A frame's records are a bucket of the same frame with the same contents, in the
/// same order.
pub proof fn law_buckets_hold_their_frames(frames: Seq<FrameRecords>, i: int)
    ensures
        buckets(frames).len() == frames.len(),
        0 <= i < frames.len() ==> {
            &&& buckets(frames)[i].frame == frames[i].frame
            &&& buckets(frames)[i].delta_s == frames[i].delta_s
            &&& buckets(frames)[i].coach == frames[i].coach
            &&& buckets(frames)[i].inputs == frames[i].inputs@
        },
{
}

/// Reading starts with nothing, and stops at the first line that cannot be read: what
/// was read before it stays, and what follows it does not count.
pub proof fn law_reading_stops_at_the_first_fault(
    lines: Seq<Seq<char>>,
    bad: Seq<char>,
    more: Seq<Seq<char>>,
    m: Seq<char>,
)
    requires
        scan(lines).failure is None,
        line_of(bad) == Err::<(u32, Seq<char>, Option<F64>), Seq<char>>(m),
    ensures
        scan(Seq::<Seq<char>>::empty()).buckets.len() == 0,
        scan(Seq::<Seq<char>>::empty()).pending.len() == 0,
        scan(Seq::<Seq<char>>::empty()).failure is None,
        scan(lines.push(bad) + more).failure == Some(m),
        scan(lines.push(bad) + more).buckets == scan(lines).buckets,
        scan(lines.push(bad) + more).pending == scan(lines).pending,
{
    let all = lines.push(bad) + more;
    let k = lines.len() as int + 1;
    assert(all.take(k) =~= lines.push(bad));
    assert(lines.push(bad).drop_last() =~= lines);
    lemma_scan_stops(all, k);
}

/// Reading one more line opens the bucket of its frame and sets the clock of that
/// frame where the line is of the kind `frame`. Everything else in the buckets stays;
/// a line that waits for its payload is put behind those that wait.
pub proof fn law_reading_one_more_line(
    lines: Seq<Seq<char>>,
    line: Seq<char>,
    f: u32,
    k: Seq<char>,
    delta: Option<F64>,
    g: u32,
)
    requires
        scan(lines).failure is None,
        line_of(line) == Ok::<(u32, Seq<char>, Option<F64>), Seq<char>>((f, k, delta)),
    ensures
        ({
            let before = scan(lines);
            let after = scan(lines.push(line));
            &&& after.failure is None
            &&& has_frame(after.buckets, f)
            &&& g != f ==> has_frame(after.buckets, g) == has_frame(before.buckets, g)
            &&& g != f ==> bucket_of(after.buckets, g) == bucket_of(before.buckets, g)
            &&& k == "frame"@ ==> bucket_of(after.buckets, f).delta_s == delta
            &&& k != "frame"@ ==> bucket_of(after.buckets, f).delta_s == bucket_of(
                before.buckets,
                f,
            ).delta_s
            &&& bucket_of(after.buckets, f).coach == bucket_of(before.buckets, f).coach
            &&& bucket_of(after.buckets, f).inputs == bucket_of(before.buckets, f).inputs
            &&& bucket_of(after.buckets, f).frame == f
            &&& k == "coach"@ ==> after.pending == before.pending.push((Payload::Coach(f), line))
            &&& k == "input"@ ==> after.pending == before.pending.push((Payload::Input(f), line))
            &&& k != "coach"@ && k != "input"@ ==> after.pending == before.pending
        }),
{
    assert(lines.push(line).drop_last() =~= lines);
    assert(lines.push(line).last() == line);
    law_what_waits_for_its_payload(f, k);
    lemma_scan(lines, f);
    let b = scan(lines).buckets;
    let now = if k == "frame"@ {
        Bucket { delta_s: delta, ..bucket_of(b, f) }
    } else {
        bucket_of(b, f)
    };
    lemma_opened(b, f);
    assert(opened(b, f) =~= replaced(b, f, bucket_of(b, f)));
    lemma_filed_elsewhere(b, f, now, g);
    lemma_filed_elsewhere(b, f, now, f);
}

/// What waits is told by its payload and its line, in order.
pub proof fn law_waiting_lines_keep_their_order(pending: Seq<Pending>, i: int)
    ensures
        waiting(pending).len() == pending.len(),
        0 <= i < pending.len() ==> waiting(pending)[i].0 == pending[i].payload && waiting(
            pending,
        )[i].1 == pending[i].line@,
{
}

/// A trace is refused where it has no line, where its first line is no header, and
/// where it is not of the fourth format; the message tells which format it is of.
pub proof fn law_which_traces_are_refused(path: Seq<char>, lines: Seq<Seq<char>>, h: Header)
    ensures
        lines.len() == 0 ==> refused(path, lines) == Some(path + ": empty trace"@),
        lines.len() > 0 ==> (header_of(lines[0]) matches Err(m) ==> refused(path, lines) == Some(m)),
        lines.len() > 0 && header_of(lines[0]) == Ok::<Header, Seq<char>>(h) && h.schema == 4
            ==> refused(path, lines) is None,
        lines.len() > 0 && header_of(lines[0]) == Ok::<Header, Seq<char>>(h) && h.schema != 4
            ==> refused(path, lines) == Some(
            path + ": schema "@ + text::decimal(h.schema as nat) + " (replay needs "@ + seq!['4']
                + ") — re-record the trace"@,
        ),
{
    assert(text::decimal(4) =~= seq!['4']) by {
        text::lemma_decimal_len(4);
        assert(text::digit(4) == '4');
    }
}

/// What is read of a line has to be of the kind that the line waits for.
pub proof fn law_payloads_are_of_their_kind(payload: Payload, x: Filed)
    ensures
        answers(payload, Ok(x)) <==> (payload is Nothing && x is Nothing || payload is Coach
            && x is Coach || payload is Input && x is Input),
{
}

/// What the coach handed over takes the place of what was there in its frame, and an
/// input goes behind those of its frame; nothing else of the frame changes, and no
/// other frame.
pub proof fn law_payloads_are_filed_in_their_frame(
    b: Seq<Bucket>,
    f: u32,
    g: u32,
    read: CoachRead,
    input: InputRecord,
)
    requires
        ascending(b),
    ensures
        ({
            let c = filed(b, Payload::Coach(f), Filed::Coach(read));
            let i = filed(b, Payload::Input(f), Filed::Input(input));
            let was = bucket_of(b, f);
            &&& bucket_of(c, f).coach == Some(read)
            &&& bucket_of(c, f).inputs == was.inputs
            &&& bucket_of(c, f).delta_s == was.delta_s
            &&& bucket_of(c, f).frame == f
            &&& bucket_of(i, f).inputs == was.inputs.push(input)
            &&& bucket_of(i, f).coach == was.coach
            &&& bucket_of(i, f).delta_s == was.delta_s
            &&& bucket_of(i, f).frame == f
            &&& g != f ==> bucket_of(c, g) == bucket_of(b, g) && bucket_of(i, g) == bucket_of(b, g)
            &&& g != f ==> has_frame(c, g) == has_frame(b, g) && has_frame(i, g) == has_frame(b, g)
            &&& has_frame(c, f) && has_frame(i, f)
        }),
        filed(b, Payload::Nothing, Filed::Nothing) == b,
{
    let was = bucket_of(b, f);
    let with_read = Bucket { coach: Some(read), ..was };
    let with_input = Bucket { inputs: was.inputs.push(input), ..was };
    lemma_opened(b, f);
    lemma_filed_elsewhere(b, f, with_read, f);
    lemma_filed_elsewhere(b, f, with_read, g);
    lemma_filed_elsewhere(b, f, with_input, f);
    lemma_filed_elsewhere(b, f, with_input, g);
}

/// Payloads are filed one behind the other, and the first that cannot be read decides
/// the outcome with its words.
pub proof fn law_filing_goes_in_order(
    b: Seq<Bucket>,
    pending: Seq<Pending>,
    payloads: Seq<Result<Filed, String>>,
    p: Pending,
    x: Filed,
    fault: String,
)
    requires
        pending.len() == payloads.len(),
    ensures
        filing(b, Seq::<Pending>::empty(), payloads) == Ok::<Seq<Bucket>, Seq<char>>(b),
        filing(b, pending, payloads) matches Err(m) ==> filing(
            b,
            pending.push(p),
            payloads.push(Ok(x)),
        ) == Err::<Seq<Bucket>, Seq<char>>(m) && filing(
            b,
            pending.push(p),
            payloads.push(Err(fault)),
        ) == Err::<Seq<Bucket>, Seq<char>>(m),
        filing(b, pending, payloads) matches Ok(now) ==> {
            &&& filing(b, pending.push(p), payloads.push(Ok(x))) == Ok::<Seq<Bucket>, Seq<char>>(
                filed(now, p.payload, x),
            )
            &&& p.payload is Coach ==> filing(b, pending.push(p), payloads.push(Err(fault)))
                == Err::<Seq<Bucket>, Seq<char>>("bad coach record: "@ + fault@)
            &&& p.payload is Input ==> filing(b, pending.push(p), payloads.push(Err(fault)))
                == Err::<Seq<Bucket>, Seq<char>>("bad input record: "@ + fault@)
        },
{
    assert(pending.push(p).drop_last() =~= pending);
    assert(payloads.push(Ok::<Filed, String>(x)).drop_last() =~= payloads);
    assert(payloads.push(Err::<Filed, String>(fault)).drop_last() =~= payloads);
}

/// A trace that was read holds its header, the buckets and the waiting lines that
/// reading came to, and the failure that reading stopped at, if it did.
pub proof fn law_what_a_loaded_trace_holds(
    loading: Loading,
    header: Header,
    lines: Seq<Seq<char>>,
)
    requires
        holds(loading, header, lines),
    ensures
        loading.trace.header == header,
        loading.trace.valid(),
        buckets(loading.trace.frames@) == scan(lines).buckets,
        waiting(loading.pending@) == scan(lines).pending,
        loading.failure is None <==> scan(lines).failure is None,
        loading.failure matches Some(e) ==> e.kind is InvalidData && scan(lines).failure == Some(
            e.message@,
        ),
{
}

/// The frames of a valid trace ascend, each occurring once.
pub proof fn law_frames_ascend(trace: LoadedTrace, i: int, j: int)
    requires
        trace.valid(),
        0 <= i < j < trace.frames@.len(),
    ensures
        trace.frames@[i].frame < trace.frames@[j].frame,
{
    let b = buckets(trace.frames@);
    assert(b[i].frame == trace.frames@[i].frame);
    assert(b[j].frame == trace.frames@[j].frame);
}

}
