//! What the command line prints: devices and pitches.

use vstd::prelude::*;
use vstd::string::StringExecFns;
use crate::port::{InputDevice, SampleRateSupport, StreamInfo, Transport};
use crate::text;

verus! {

// ---- devices -------------------------------------------------------------

/// The word for a transport.
pub open spec fn transport_word(t: Transport) -> Seq<char> {
    match t {
        Transport::BuiltIn => "built-in"@,
        Transport::Usb => "usb"@,
        Transport::Bluetooth => "bluetooth"@,
        Transport::Virtual => "virtual"@,
        Transport::Unknown => "unknown"@,
    }
}

/// The word for a transport.
pub fn transport_str(t: Transport) -> (word: &'static str)
    ensures
        word@ == transport_word(t),
{
    match t {
        Transport::BuiltIn => "built-in",
        Transport::Usb => "usb",
        Transport::Bluetooth => "bluetooth",
        Transport::Virtual => "virtual",
        Transport::Unknown => "unknown",
    }
}

/// The text for a range of rates: one number where its bounds are the same.
pub open spec fn range_text(range: (u32, u32)) -> Seq<char> {
    if range.0 == range.1 {
        text::decimal(range.0 as nat)
    } else {
        text::decimal(range.0 as nat) + "-"@ + text::decimal(range.1 as nat)
    }
}

/// The text for the rates of a stream.
pub open spec fn rates_text(rates: SampleRateSupport) -> Seq<char> {
    match rates {
        SampleRateSupport::List(list) => text::joined(
            list@.map_values(|rate: u32| text::decimal(rate as nat)),
            ", "@,
        ),
        SampleRateSupport::Ranges(ranges) => text::joined(
            ranges@.map_values(|range: (u32, u32)| range_text(range)),
            ", "@,
        ),
        SampleRateSupport::ProbeOnly => "probe-only"@,
    }
}

/// The text for the rates of a stream.
pub fn sample_rates_str(rates: &SampleRateSupport) -> (out: String)
    ensures
        out@ == rates_text(*rates),
{
    let mut words: Vec<String> = Vec::new();
    match rates {
        SampleRateSupport::List(list) => {
            let ghost wanted = list@.map_values(|rate: u32| text::decimal(rate as nat));
            for i in 0..list.len()
                invariant
                    wanted == list@.map_values(|rate: u32| text::decimal(rate as nat)),
                    text::contents(words@) == wanted.take(i as int),
            {
                let mut word = String::new();
                text::push_decimal(&mut word, list[i] as u64);
                assert(word@ =~= wanted[i as int]);
                let ghost before = words@;
                words.push(word);
                assert(text::contents(words@) =~= text::contents(before).push(wanted[i as int]));
                assert(wanted.take(i + 1) =~= wanted.take(i as int).push(wanted[i as int]));
            }
            assert(wanted.take(list@.len() as int) =~= wanted);
            text::join(&words, ", ")
        },
        SampleRateSupport::Ranges(ranges) => {
            let ghost wanted = ranges@.map_values(|range: (u32, u32)| range_text(range));
            for i in 0..ranges.len()
                invariant
                    wanted == ranges@.map_values(|range: (u32, u32)| range_text(range)),
                    text::contents(words@) == wanted.take(i as int),
            {
                let range: (u32, u32) = ranges[i];
                let mut word = String::new();
                text::push_decimal(&mut word, range.0 as u64);
                if range.0 != range.1 {
                    word.append("-");
                    text::push_decimal(&mut word, range.1 as u64);
                }
                assert(word@ =~= wanted[i as int]);
                let ghost before = words@;
                words.push(word);
                assert(text::contents(words@) =~= text::contents(before).push(wanted[i as int]));
                assert(wanted.take(i + 1) =~= wanted.take(i as int).push(wanted[i as int]));
            }
            assert(wanted.take(ranges@.len() as int) =~= wanted);
            text::join(&words, ", ")
        },
        SampleRateSupport::ProbeOnly => String::from_str("probe-only"),
    }
}

/// The lines for a stream.
pub open spec fn stream_lines(s: StreamInfo) -> Seq<Seq<char>> {
    seq![
        "    stream: "@ + s.name@,
        "      channels:     "@ + text::decimal(s.channels as nat),
        "      sample_rates: "@ + rates_text(s.sample_rates),
    ]
}

/// The lines for some streams, one after the other.
pub open spec fn streams_lines(streams: Seq<StreamInfo>) -> Seq<Seq<char>>
    decreases streams.len(),
{
    if streams.len() == 0 {
        Seq::empty()
    } else {
        streams_lines(streams.drop_last()) + stream_lines(streams.last())
    }
}

/// The lines for a device.
pub open spec fn device_lines(d: InputDevice) -> Seq<Seq<char>> {
    seq![
        Seq::empty(),
        "  "@ + d.name@,
        "    transport:     "@ + transport_word(d.transport),
        "    persistent_id: "@ + (match d.persistent_id {
            Some(id) => id@,
            None => "<none>"@,
        }),
    ] + streams_lines(d.streams@)
}

/// The lines for some devices, one after the other.
pub open spec fn devices_lines(devices: Seq<InputDevice>) -> Seq<Seq<char>>
    decreases devices.len(),
{
    if devices.len() == 0 {
        Seq::empty()
    } else {
        devices_lines(devices.drop_last()) + device_lines(devices.last())
    }
}

/// The lines that a listing of devices is printed as.
pub open spec fn listing(devices: Seq<InputDevice>) -> Seq<Seq<char>> {
    if devices.len() == 0 {
        seq!["No input devices found."@]
    } else {
        seq!["Input devices ("@ + text::decimal(devices.len()) + "):"@] + devices_lines(devices)
    }
}

fn line(head: &str, tail: &str) -> (line: String)
    ensures
        line@ == head@ + tail@,
{
    let mut line = String::from_str(head);
    line.append(tail);
    line
}

fn put(lines: &mut Vec<String>, line: String)
    ensures
        text::contents(final(lines)@) == text::contents(old(lines)@).push(line@),
{
    lines.push(line);
    assert(text::contents(lines@) =~= text::contents(old(lines)@).push(line@));
}

fn print_stream(lines: &mut Vec<String>, s: &StreamInfo)
    ensures
        text::contents(final(lines)@) == text::contents(old(lines)@) + stream_lines(*s),
{
    put(lines, line("    stream: ", s.name.as_str()));
    let mut channels = String::from_str("      channels:     ");
    text::push_decimal(&mut channels, s.channels as u64);
    put(lines, channels);
    put(lines, line("      sample_rates: ", sample_rates_str(&s.sample_rates).as_str()));
    assert(text::contents(lines@) =~= text::contents(old(lines)@) + stream_lines(*s));
}

/// Adds the lines for a device.
pub fn print_device(lines: &mut Vec<String>, d: &InputDevice)
    ensures
        text::contents(final(lines)@) == text::contents(old(lines)@) + device_lines(*d),
{
    let ghost before = text::contents(lines@);
    put(lines, String::new());
    put(lines, line("  ", d.name.as_str()));
    put(lines, line("    transport:     ", transport_str(d.transport)));
    match &d.persistent_id {
        Some(id) => put(lines, line("    persistent_id: ", id.as_str())),
        None => put(lines, line("    persistent_id: ", "<none>")),
    }
    let ghost head = device_lines(*d).take(4);
    proof {
        assert(head =~= seq![
            Seq::empty(),
            "  "@ + d.name@,
            "    transport:     "@ + transport_word(d.transport),
            "    persistent_id: "@ + (match d.persistent_id {
                Some(id) => id@,
                None => "<none>"@,
            }),
        ]);
        assert(text::contents(lines@) =~= before + head);
        assert(d.streams@.take(0) =~= Seq::empty());
        assert(before + head + streams_lines(d.streams@.take(0)) =~= before + head);
    }
    for i in 0..d.streams.len()
        invariant
            text::contents(lines@) == before + head + streams_lines(d.streams@.take(i as int)),
    {
        let ghost done = d.streams@.take(i as int);
        let ghost next = d.streams@.take(i + 1);
        proof {
            assert(next.drop_last() =~= done);
            assert(next.last() == d.streams@[i as int]);
        }
        print_stream(lines, &d.streams[i]);
        assert(before + head + streams_lines(done) + stream_lines(d.streams@[i as int]) =~= before
            + head + streams_lines(next));
    }
    assert(d.streams@.take(d.streams@.len() as int) =~= d.streams@);
    assert(before + head + streams_lines(d.streams@) =~= before + device_lines(*d));
}

/// The lines that a listing of devices is printed as.
pub fn print_device_list(devices: &Vec<InputDevice>) -> (lines: Vec<String>)
    ensures
        text::contents(lines@) == listing(devices@),
{
    let mut lines: Vec<String> = Vec::new();
    assert(text::contents(lines@) =~= Seq::empty());
    if devices.len() == 0 {
        put(&mut lines, String::from_str("No input devices found."));
        assert(text::contents(lines@) =~= listing(devices@));
        return lines;
    }
    let mut head = String::from_str("Input devices (");
    text::push_decimal(&mut head, devices.len() as u64);
    head.append("):");
    let ghost first = head@;
    put(&mut lines, head);
    proof {
        assert(devices@.take(0) =~= Seq::empty());
        assert(text::contents(lines@) =~= seq![first] + devices_lines(devices@.take(0)));
    }
    for i in 0..devices.len()
        invariant
            text::contents(lines@) == seq![first] + devices_lines(devices@.take(i as int)),
    {
        let ghost done = devices@.take(i as int);
        let ghost next = devices@.take(i + 1);
        proof {
            assert(next.drop_last() =~= done);
            assert(next.last() == devices@[i as int]);
        }
        print_device(&mut lines, &devices[i]);
        assert(seq![first] + devices_lines(done) + device_lines(devices@[i as int]) =~= seq![first]
            + devices_lines(next));
    }
    assert(devices@.take(devices@.len() as int) =~= devices@);
    lines
}

// ---- pitches -------------------------------------------------------------

/// `n` spaces.
pub open spec fn spaces(n: int) -> Seq<char> {
    Seq::new(
        if n < 0 {
            0
        } else {
            n as nat
        },
        |i: int| ' ',
    )
}

/// A text moved to the right edge of a column; a longer one is not cut.
pub open spec fn right(s: Seq<char>, width: nat) -> Seq<char> {
    spaces(width - s.len()) + s
}

/// Moves a text to the right edge of a column.
pub fn align_right(s: &str, width: usize) -> (out: String)
    ensures
        out@ == right(s@, width as nat),
{
    let len: usize = s.unicode_len();
    let mut out = String::new();
    let mut i: usize = len;
    assert(out@ =~= spaces(0));
    while i < width
        invariant
            len == s@.len(),
            len <= i,
            i <= width || i == len,
            out@ == spaces(i - len),
        decreases width - i,
    {
        out.push(' ');
        i = i + 1;
        assert(out@ =~= spaces(i - len));
    }
    assert(spaces(width - len) =~= spaces(i - len));
    out.append(s);
    out
}

/// The names of the twelve notes from C up.
pub open spec fn note_letter(k: int) -> Seq<char> {
    if k == 0 {
        "C"@
    } else if k == 1 {
        "C#"@
    } else if k == 2 {
        "D"@
    } else if k == 3 {
        "D#"@
    } else if k == 4 {
        "E"@
    } else if k == 5 {
        "F"@
    } else if k == 6 {
        "F#"@
    } else if k == 7 {
        "G"@
    } else if k == 8 {
        "G#"@
    } else if k == 9 {
        "A"@
    } else if k == 10 {
        "A#"@
    } else {
        "B"@
    }
}

/// The number of a note, counted so that A4 is 69, `semitones` above A4.
pub open spec fn note_number(semitones: int) -> int {
    69 + semitones
}

/// The name of the note `semitones` above A4, with its octave.
pub open spec fn note_text(semitones: int) -> Seq<char> {
    note_letter(note_number(semitones) % 12) + text::signed_decimal(
        note_number(semitones) / 12 - 1,
    )
}

fn letter(k: u64) -> (name: &'static str)
    requires
        k < 12,
    ensures
        name@ == note_letter(k as int),
{
    match k {
        0 => "C",
        1 => "C#",
        2 => "D",
        3 => "D#",
        4 => "E",
        5 => "F",
        6 => "F#",
        7 => "G",
        8 => "G#",
        9 => "A",
        10 => "A#",
        _ => "B",
    }
}

/// The name of the note `semitones` above A4, with its octave.
pub fn note_name(semitones: i32) -> (name: String)
    ensures
        name@ == note_text(semitones as int),
{
    // Enough octaves up to make every number positive.
    let lifted: u64 = (semitones as i64 + 69 + 178_956_971 * 12) as u64;
    let k: u64 = lifted % 12;
    let octave: i64 = (lifted / 12) as i64 - 178_956_971 - 1;
    proof {
        let n = note_number(semitones as int);
        assert(lifted == n + 178_956_971 * 12);
        assert(n % 12 == k);
        assert(n / 12 == octave + 1);
    }
    let mut name = String::from_str(letter(k));
    text::push_signed(&mut name, octave);
    name
}

/// A number of cents with its sign, moved to the right edge of its column.
pub open spec fn cents_text(cents: int) -> Seq<char> {
    right(
        if cents < 0 {
            seq!['-'] + text::decimal((-cents) as nat)
        } else {
            seq!['+'] + text::decimal(cents as nat)
        },
        5,
    )
}

/// A number of cents with its sign, moved to the right edge of its column.
pub fn cents_column(cents: i32) -> (out: String)
    ensures
        out@ == cents_text(cents as int),
{
    let mut out = String::new();
    if cents < 0 {
        text::push_signed(&mut out, cents as i64);
        assert(out@ =~= seq!['-'] + text::decimal((-cents) as nat));
    } else {
        out.push('+');
        text::push_decimal(&mut out, cents as u64);
        assert(out@ =~= seq!['+'] + text::decimal(cents as nat));
    }
    align_right(out.as_str(), 5)
}

/// A text in the colour of its tuning band: green within five cents, plain within
/// twenty, yellow beyond.
pub open spec fn painted(s: Seq<char>, cents: int) -> Seq<char> {
    if -5 <= cents <= 5 {
        "\u{1b}[32m"@ + s + "\u{1b}[0m"@
    } else if -20 <= cents <= 20 {
        s
    } else {
        "\u{1b}[33m"@ + s + "\u{1b}[0m"@
    }
}

/// Colours a text by tuning band.
pub fn paint_cents(s: &str, cents: i32) -> (out: String)
    ensures
        out@ == painted(s@, cents as int),
{
    if -5 <= cents && cents <= 5 {
        let mut out = String::from_str("\u{1b}[32m");
        out.append(s);
        out.append("\u{1b}[0m");
        out
    } else if -20 <= cents && cents <= 20 {
        String::from_str(s)
    } else {
        let mut out = String::from_str("\u{1b}[33m");
        out.append(s);
        out.append("\u{1b}[0m");
        out
    }
}

/// A pitch, worked out.
pub struct Tone {
    /// The frequency in hertz with two decimals, as text.
    pub hz: String,
    /// The nearest note, in semitones above A4.
    pub semitones: i32,
    /// How far off it is.
    pub cents: i32,
}

/// The time column of a pitch line.
pub open spec fn time_column(t_ms: nat) -> Seq<char> {
    "["@ + right(text::decimal(t_ms), 10) + " ms]  "@
}

/// The line for a reading.
pub open spec fn pitch_text(t_ms: nat, tone: Option<Tone>, use_color: bool) -> Seq<char> {
    match tone {
        None => time_column(t_ms) + "--"@,
        Some(tone) => time_column(t_ms) + right(tone.hz@, 10) + " Hz  "@ + right(
            note_text(tone.semitones as int),
            4,
        ) + "  "@ + (if use_color {
            painted(cents_text(tone.cents as int), tone.cents as int)
        } else {
            cents_text(tone.cents as int)
        }) + " cents"@,
    }
}

/// The line for a reading; an unvoiced one shows dashes.
pub fn print_pitch(t_ms: u64, tone: &Option<Tone>, use_color: bool) -> (out: String)
    ensures
        out@ == pitch_text(t_ms as nat, *tone, use_color),
{
    let mut time = String::new();
    text::push_decimal(&mut time, t_ms);
    assert(time@ =~= text::decimal(t_ms as nat));
    let mut out = String::from_str("[");
    out.append(align_right(time.as_str(), 10).as_str());
    out.append(" ms]  ");
    match tone {
        None => {
            out.append("--");
        },
        Some(tone) => {
            out.append(align_right(tone.hz.as_str(), 10).as_str());
            out.append(" Hz  ");
            out.append(align_right(note_name(tone.semitones).as_str(), 4).as_str());
            out.append("  ");
            let column = cents_column(tone.cents);
            if use_color {
                out.append(paint_cents(column.as_str(), tone.cents).as_str());
            } else {
                out.append(column.as_str());
            }
            out.append(" cents");
        },
    }
    out
}

/// Which readings are fresh: the publisher sets the pace, not the reader.
#[derive(Clone, Copy, PartialEq, Eq, Structural, Debug)]
pub struct PitchLoop {
    /// The time of the last reading that was printed.
    pub last_t_ms: u64,
}

impl PitchLoop {
    /// Before the first reading.
    pub fn new() -> (l: Self)
        ensures
            l == (PitchLoop { last_t_ms: u64::MAX }),
    {
        PitchLoop { last_t_ms: u64::MAX }
    }

    /// Whether a reading is to be printed: not where the one before has its time.
    pub fn fresh(&mut self, t_ms: u64) -> (yes: bool)
        ensures
            yes == (t_ms != old(self).last_t_ms),
            final(self).last_t_ms == t_ms,
    {
        let yes = t_ms != self.last_t_ms;
        self.last_t_ms = t_ms;
        yes
    }
}

/// The notes repeat every octave: twelve semitones up the letter is the same and
/// the octave one higher.
pub proof fn law_notes_repeat_by_octave(semitones: int)
    ensures
        note_letter(note_number(semitones + 12) % 12) == note_letter(
            note_number(semitones) % 12,
        ),
        note_number(semitones + 12) / 12 == note_number(semitones) / 12 + 1,
{
}

/// Colour only adds escapes: without it the text is what it was.
pub proof fn law_paint_keeps_the_text(s: Seq<char>, cents: int)
    ensures
        exists|head: Seq<char>, tail: Seq<char>| painted(s, cents) == head + s + tail,
{
    let none = Seq::<char>::empty();
    assert(painted(s, cents) =~= "\u{1b}[32m"@ + s + "\u{1b}[0m"@ || painted(s, cents) =~= "\u{1b}[33m"@
        + s + "\u{1b}[0m"@ || painted(s, cents) =~= none + s + none);
}

/// The twelve notes of every octave, from C up: their names in order, each with the
/// number of the octave. A4 is the note that the semitones count from.
pub proof fn law_notes_are_named_in_order(octave: int)
    ensures
        note_text(12 * (octave - 4) - 9) == "C"@ + text::signed_decimal(octave),
        note_text(12 * (octave - 4) - 8) == "C#"@ + text::signed_decimal(octave),
        note_text(12 * (octave - 4) - 7) == "D"@ + text::signed_decimal(octave),
        note_text(12 * (octave - 4) - 6) == "D#"@ + text::signed_decimal(octave),
        note_text(12 * (octave - 4) - 5) == "E"@ + text::signed_decimal(octave),
        note_text(12 * (octave - 4) - 4) == "F"@ + text::signed_decimal(octave),
        note_text(12 * (octave - 4) - 3) == "F#"@ + text::signed_decimal(octave),
        note_text(12 * (octave - 4) - 2) == "G"@ + text::signed_decimal(octave),
        note_text(12 * (octave - 4) - 1) == "G#"@ + text::signed_decimal(octave),
        note_text(12 * (octave - 4)) == "A"@ + text::signed_decimal(octave),
        note_text(12 * (octave - 4) + 1) == "A#"@ + text::signed_decimal(octave),
        note_text(12 * (octave - 4) + 2) == "B"@ + text::signed_decimal(octave),
{
    lemma_note_name(octave, 0);
    lemma_note_name(octave, 1);
    lemma_note_name(octave, 2);
    lemma_note_name(octave, 3);
    lemma_note_name(octave, 4);
    lemma_note_name(octave, 5);
    lemma_note_name(octave, 6);
    lemma_note_name(octave, 7);
    lemma_note_name(octave, 8);
    lemma_note_name(octave, 9);
    lemma_note_name(octave, 10);
    lemma_note_name(octave, 11);
}

proof fn lemma_note_name(octave: int, k: int)
    requires
        0 <= k < 12,
    ensures
        note_text(12 * (octave - 4) - 9 + k) == note_letter(k) + text::signed_decimal(octave),
{
    let n = note_number(12 * (octave - 4) - 9 + k);
    assert(n == 12 * (octave + 1) + k);
    assert(n % 12 == k);
    assert(n / 12 - 1 == octave);
}

/// The names of the octave from C4 to B4, in order.
pub proof fn law_the_octave_of_a4()
    ensures
        note_text(-9) == "C4"@,
        note_text(-8) == "C#4"@,
        note_text(-7) == "D4"@,
        note_text(-6) == "D#4"@,
        note_text(-5) == "E4"@,
        note_text(-4) == "F4"@,
        note_text(-3) == "F#4"@,
        note_text(-2) == "G4"@,
        note_text(-1) == "G#4"@,
        note_text(0) == "A4"@,
        note_text(1) == "A#4"@,
        note_text(2) == "B4"@,
{
    law_notes_are_named_in_order(4);
    reveal_strlit("C");
    reveal_strlit("C#");
    reveal_strlit("D");
    reveal_strlit("D#");
    reveal_strlit("E");
    reveal_strlit("F");
    reveal_strlit("F#");
    reveal_strlit("G");
    reveal_strlit("G#");
    reveal_strlit("A");
    reveal_strlit("A#");
    reveal_strlit("B");
    reveal_strlit("C4");
    reveal_strlit("C#4");
    reveal_strlit("D4");
    reveal_strlit("D#4");
    reveal_strlit("E4");
    reveal_strlit("F4");
    reveal_strlit("F#4");
    reveal_strlit("G4");
    reveal_strlit("G#4");
    reveal_strlit("A4");
    reveal_strlit("A#4");
    reveal_strlit("B4");
    assert(text::signed_decimal(4) =~= seq!['4']);
    assert("C"@ + seq!['4'] =~= "C4"@);
    assert("C#"@ + seq!['4'] =~= "C#4"@);
    assert("D"@ + seq!['4'] =~= "D4"@);
    assert("D#"@ + seq!['4'] =~= "D#4"@);
    assert("E"@ + seq!['4'] =~= "E4"@);
    assert("F"@ + seq!['4'] =~= "F4"@);
    assert("F#"@ + seq!['4'] =~= "F#4"@);
    assert("G"@ + seq!['4'] =~= "G4"@);
    assert("G#"@ + seq!['4'] =~= "G#4"@);
    assert("A"@ + seq!['4'] =~= "A4"@);
    assert("A#"@ + seq!['4'] =~= "A#4"@);
    assert("B"@ + seq!['4'] =~= "B4"@);
}

/// A text in a column stands at its right edge behind spaces, and is never cut.
pub proof fn law_columns_are_filled_on_the_left(s: Seq<char>, width: nat)
    ensures
        right(s, width).len() == (if s.len() < width {
            width
        } else {
            s.len()
        }),
        text::ends(right(s, width), s),
        forall|i: int|
            0 <= i < right(s, width).len() - s.len() ==> (#[trigger] right(s, width)[i]) == ' ',
{
    let r = right(s, width);
    assert(r.skip(r.len() - s.len()) =~= s);
}

/// Cents are printed with their sign, plus for none, in a column of five.
pub proof fn law_cents_carry_their_sign(n: nat)
    ensures
        cents_text(n as int) == right(seq!['+'] + text::decimal(n), 5),
        n > 0 ==> cents_text(-(n as int)) == right(seq!['-'] + text::decimal(n), 5),
        cents_text(n as int).len() >= 5,
{
}

/// Cents are green up to five off, plain up to twenty, and yellow beyond, whichever
/// way they are off.
pub proof fn law_colours_tell_how_far_off(s: Seq<char>, cents: int)
    ensures
        painted(s, cents) == painted(s, -cents),
        0 <= cents <= 5 ==> painted(s, cents) == "\u{1b}[32m"@ + s + "\u{1b}[0m"@,
        5 < cents <= 20 ==> painted(s, cents) == s,
        cents > 20 ==> painted(s, cents) == "\u{1b}[33m"@ + s + "\u{1b}[0m"@,
{
}

/// The line for a reading holds, in this order, the time, the frequency, the note and
/// the cents, each in its column; a reading without a tone shows two dashes. Colour
/// changes the column of the cents alone.
pub proof fn law_pitch_lines_hold_the_reading(t_ms: nat, tone: Tone, use_color: bool)
    ensures
        pitch_text(t_ms, None, use_color) == "["@ + right(text::decimal(t_ms), 10) + " ms]  "@
            + "--"@,
        pitch_text(t_ms, Some(tone), use_color) == "["@ + right(text::decimal(t_ms), 10)
            + " ms]  "@ + right(tone.hz@, 10) + " Hz  "@ + right(
            note_text(tone.semitones as int),
            4,
        ) + "  "@ + (if use_color {
            painted(cents_text(tone.cents as int), tone.cents as int)
        } else {
            cents_text(tone.cents as int)
        }) + " cents"@,
{
}

/// Each transport has its word.
pub proof fn law_transports_have_their_words()
    ensures
        transport_word(Transport::BuiltIn) == "built-in"@,
        transport_word(Transport::Usb) == "usb"@,
        transport_word(Transport::Bluetooth) == "bluetooth"@,
        transport_word(Transport::Virtual) == "virtual"@,
        transport_word(Transport::Unknown) == "unknown"@,
{
}

/// The rates of a stream are listed in order with commas; a range is written as its
/// bounds, or as one number where they are the same.
pub proof fn law_rates_are_listed(
    list: Vec<u32>,
    ranges: Vec<(u32, u32)>,
    words: Seq<Seq<char>>,
    pairs: Seq<Seq<char>>,
)
    requires
        words.len() == list@.len(),
        forall|i: int|
            0 <= i < list@.len() ==> (#[trigger] words[i]) == text::decimal(list@[i] as nat),
        pairs.len() == ranges@.len(),
        forall|i: int|
            0 <= i < ranges@.len() ==> (#[trigger] pairs[i]) == (if ranges@[i].0 == ranges@[i].1 {
                text::decimal(ranges@[i].0 as nat)
            } else {
                text::decimal(ranges@[i].0 as nat) + "-"@ + text::decimal(ranges@[i].1 as nat)
            }),
    ensures
        rates_text(SampleRateSupport::ProbeOnly) == "probe-only"@,
        rates_text(SampleRateSupport::List(list)) == text::joined(words, ", "@),
        rates_text(SampleRateSupport::Ranges(ranges)) == text::joined(pairs, ", "@),
{
    assert(list@.map_values(|rate: u32| text::decimal(rate as nat)) =~= words);
    assert(ranges@.map_values(|range: (u32, u32)| range_text(range)) =~= pairs);
}

/// A device is listed behind an empty line with its name, its transport and its
/// identifier, and then its streams in order, each with its name, its channels and
/// its rates.
pub proof fn law_devices_are_listed(d: InputDevice, s: int)
    ensures
        device_lines(d).len() == 4 + 3 * d.streams@.len(),
        device_lines(d)[0] == Seq::<char>::empty(),
        device_lines(d)[1] == "  "@ + d.name@,
        device_lines(d)[2] == "    transport:     "@ + transport_word(d.transport),
        device_lines(d)[3] == "    persistent_id: "@ + (match d.persistent_id {
            Some(id) => id@,
            None => "<none>"@,
        }),
        0 <= s < d.streams@.len() ==> device_lines(d)[4 + 3 * s] == "    stream: "@ + d.streams@[s].name@,
        0 <= s < d.streams@.len() ==> device_lines(d)[5 + 3 * s] == "      channels:     "@ + text::decimal(
            d.streams@[s].channels as nat,
        ),
        0 <= s < d.streams@.len() ==> device_lines(d)[6 + 3 * s] == "      sample_rates: "@ + rates_text(
            d.streams@[s].sample_rates,
        ),
{
    lemma_streams_len(d.streams@);
    if 0 <= s < d.streams@.len() {
        lemma_streams_in_order(d.streams@, s);
        let all = streams_lines(d.streams@);
        assert(device_lines(d)[4 + 3 * s] == all[3 * s]);
        assert(device_lines(d)[5 + 3 * s] == all[3 * s + 1]);
        assert(device_lines(d)[6 + 3 * s] == all[3 * s + 2]);
    }
}

proof fn lemma_streams_len(streams: Seq<StreamInfo>)
    ensures
        streams_lines(streams).len() == 3 * streams.len(),
    decreases streams.len(),
{
    if streams.len() > 0 {
        lemma_streams_len(streams.drop_last());
    }
}

proof fn lemma_streams_in_order(streams: Seq<StreamInfo>, s: int)
    requires
        0 <= s < streams.len(),
    ensures
        streams_lines(streams).len() == 3 * streams.len(),
        streams_lines(streams)[3 * s] == "    stream: "@ + streams[s].name@,
        streams_lines(streams)[3 * s + 1] == "      channels:     "@ + text::decimal(
            streams[s].channels as nat,
        ),
        streams_lines(streams)[3 * s + 2] == "      sample_rates: "@ + rates_text(
            streams[s].sample_rates,
        ),
    decreases streams.len(),
{
    let rest = streams.drop_last();
    lemma_streams_len(streams);
    lemma_streams_len(rest);
    if s < rest.len() {
        lemma_streams_in_order(rest, s);
        assert(rest[s] == streams[s]);
    } else {
        assert(streams.last() == streams[s]);
    }
}

/// A listing names how many devices there are and then lists them in order; without
/// any it says so.
pub proof fn law_listings_hold_every_device(a: Seq<InputDevice>, b: Seq<InputDevice>)
    ensures
        listing(Seq::<InputDevice>::empty()) == seq!["No input devices found."@],
        a.len() > 0 ==> listing(a).len() > 0 && listing(a)[0] == "Input devices ("@ + text::decimal(
            a.len(),
        ) + "):"@ && listing(a).skip(1) == devices_lines(a),
        devices_lines(a + b) == devices_lines(a) + devices_lines(b),
        b.len() == 1 ==> devices_lines(b) == device_lines(b[0]),
    decreases b.len(),
{
    if a.len() > 0 {
        assert(listing(a).skip(1) =~= devices_lines(a));
    }
    if b.len() == 0 {
        assert(a + b =~= a);
        assert(devices_lines(a) + devices_lines(b) =~= devices_lines(a));
    } else {
        assert((a + b).drop_last() =~= a + b.drop_last());
        law_listings_hold_every_device(a, b.drop_last());
        assert(devices_lines(a + b) =~= devices_lines(a) + devices_lines(b));
        if b.len() == 1 {
            assert(b.drop_last() =~= Seq::empty());
            assert(devices_lines(b) =~= device_lines(b[0]));
        }
    }
}

}
