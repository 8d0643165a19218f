//! The terminal head: its ring of readings, its chart and its console.

use vstd::prelude::*;
use vstd::string::StringExecFns;
use crate::features::FeatureSnapshot;
use crate::ieee::F32;
use crate::text;
use std::collections::VecDeque;

verus! {

/// How many readings the ring holds.
pub const FEATURE_RING_CAP: usize = 512;

/// How far back the chart reaches, in milliseconds.
pub const CHART_WINDOW_MS: u64 = 5_000;

// ---- the ring ------------------------------------------------------------

/// The state of the terminal head.
pub struct State {
    features: VecDeque<FeatureSnapshot>,
    last_t_ms: Option<u64>,
    console_open: bool,
}

impl State {
    /// The readings, oldest first.
    pub closed spec fn ring(self) -> Seq<FeatureSnapshot> {
        self.features@
    }

    /// The time of the last reading that was taken in.
    pub closed spec fn newest(self) -> Option<u64> {
        self.last_t_ms
    }

    /// Whether the console is shown.
    pub closed spec fn console(self) -> bool {
        self.console_open
    }

    #[verifier::type_invariant]
    closed spec fn bounded(self) -> bool {
        self.features@.len() <= FEATURE_RING_CAP
    }

    /// An empty ring and no console.
    pub fn new() -> (s: Self)
        ensures
            s.ring().len() == 0,
            s.newest() is None,
            !s.console(),
    {
        State { features: VecDeque::new(), last_t_ms: None, console_open: false }
    }

    /// Takes a reading in, unless it is the one taken in last. A full ring drops
    /// its oldest.
    pub fn ingest(&mut self, snap: FeatureSnapshot)
        ensures
            final(self).console() == old(self).console(),
            old(self).newest() == Some(snap.t_ms) ==> final(self).ring() == old(self).ring()
                && final(self).newest() == old(self).newest(),
            old(self).newest() != Some(snap.t_ms) ==> {
                &&& final(self).newest() == Some(snap.t_ms)
                &&& final(self).ring() == kept(old(self).ring()).push(snap)
            },
            final(self).ring().len() <= FEATURE_RING_CAP,
    {
        proof {
            use_type_invariant(&*self);
        }
        let known = match self.last_t_ms {
            Some(t) => t == snap.t_ms,
            None => false,
        };
        if known {
            return ;
        }
        let mut ring: VecDeque<FeatureSnapshot> = VecDeque::new();
        std::mem::swap(&mut ring, &mut self.features);
        if ring.len() == FEATURE_RING_CAP {
            let _ = ring.pop_front();
        }
        assert(ring@ =~= kept(old(self).ring()));
        ring.push_back(snap);
        self.last_t_ms = Some(snap.t_ms);
        self.features = ring;
    }

    /// The readings, oldest first.
    pub fn snapshots(&self) -> (all: Vec<FeatureSnapshot>)
        ensures
            all@ == self.ring(),
            all@.len() <= FEATURE_RING_CAP,
    {
        proof {
            use_type_invariant(self);
        }
        let mut all: Vec<FeatureSnapshot> = Vec::new();
        for i in 0..self.features.len()
            invariant
                all@ == self.features@.take(i as int),
        {
            all.push(self.features[i]);
            assert(all@ =~= self.features@.take(i + 1));
        }
        assert(self.features@.take(self.features@.len() as int) =~= self.features@);
        all
    }

    /// Whether the console is shown.
    pub fn is_console_open(&self) -> (yes: bool)
        ensures
            yes == self.console(),
    {
        self.console_open
    }

    /// A key was pressed, or let go of. Gives whether the head quits; a tilde shows
    /// or hides the console.
    pub fn on_key(&mut self, key: Key, control: bool, pressed: bool) -> (quit: bool)
        ensures
            quit == (pressed && quits(key, control)),
            final(self).ring() == old(self).ring(),
            final(self).newest() == old(self).newest(),
            final(self).console() == (if pressed && key == Key::Char('~') {
                !old(self).console()
            } else {
                old(self).console()
            }),
    {
        proof {
            use_type_invariant(&*self);
        }
        if !pressed {
            return false;
        }
        if should_quit(key, control) {
            return true;
        }
        match key {
            Key::Char(c) => {
                if c == '~' {
                    self.console_open = !self.console_open;
                }
            },
            _ => {},
        }
        false
    }
}

/// The ring with room for one more.
pub open spec fn kept(ring: Seq<FeatureSnapshot>) -> Seq<FeatureSnapshot> {
    if ring.len() == FEATURE_RING_CAP {
        ring.drop_first()
    } else {
        ring
    }
}

// ---- keys ----------------------------------------------------------------

/// The keys that matter.
#[derive(Clone, Copy, PartialEq, Eq, Structural, Debug)]
pub enum Key {
    Char(char),
    Esc,
    Other,
}

/// Whether a key quits.
pub open spec fn quits(key: Key, control: bool) -> bool {
    key == Key::Char('q') || key == Key::Esc || (key == Key::Char('c') && control)
}

/// Whether a key quits.
pub fn should_quit(key: Key, control: bool) -> (yes: bool)
    ensures
        yes == quits(key, control),
{
    match key {
        Key::Char(c) => c == 'q' || (c == 'c' && control),
        Key::Esc => true,
        Key::Other => false,
    }
}

// ---- the chart -----------------------------------------------------------

/// A point of the chart.
#[derive(Clone, Copy, PartialEq, Eq, Structural, Debug)]
pub struct ChartPoint {
    /// How long ago, in milliseconds.
    pub age_ms: u64,
    /// The frequency in hertz.
    pub f0_hz: F32,
}

/// Whether a reading is silent. What is no number is not.
pub open spec fn silent(s: FeatureSnapshot) -> bool {
    s.f0_hz.at_most(F32 { bits: 0 })
}

/// How old a reading is; one from the future is not old at all.
pub open spec fn age(s: FeatureSnapshot, now_ms: u64) -> u64 {
    if s.t_ms <= now_ms {
        (now_ms - s.t_ms) as u64
    } else {
        0
    }
}

/// Whether a reading is drawn.
pub open spec fn drawn(s: FeatureSnapshot, now_ms: u64) -> bool {
    !silent(s) && age(s, now_ms) <= CHART_WINDOW_MS
}

/// The point that a reading is drawn at.
pub open spec fn point_of(s: FeatureSnapshot, now_ms: u64) -> ChartPoint {
    ChartPoint { age_ms: age(s, now_ms), f0_hz: s.f0_hz }
}

/// The segment that is still open after some readings: the points since the last
/// silence.
pub open spec fn open_segment(s: Seq<FeatureSnapshot>, now_ms: u64) -> Seq<ChartPoint>
    decreases s.len(),
{
    if s.len() == 0 || silent(s.last()) {
        Seq::empty()
    } else if drawn(s.last(), now_ms) {
        open_segment(s.drop_last(), now_ms).push(point_of(s.last(), now_ms))
    } else {
        open_segment(s.drop_last(), now_ms)
    }
}

/// The segments that a silence has ended, those without a point left out.
pub open spec fn ended_segments(s: Seq<FeatureSnapshot>, now_ms: u64) -> Seq<Seq<ChartPoint>>
    decreases s.len(),
{
    if s.len() == 0 {
        Seq::empty()
    } else {
        let before = ended_segments(s.drop_last(), now_ms);
        let open = open_segment(s.drop_last(), now_ms);
        if silent(s.last()) && open.len() > 0 {
            before.push(open)
        } else {
            before
        }
    }
}

/// All segments: runs of readings between silences. A reading that is too old is
/// left out and ends nothing.
pub open spec fn segments_of(s: Seq<FeatureSnapshot>, now_ms: u64) -> Seq<Seq<ChartPoint>> {
    let open = open_segment(s, now_ms);
    if open.len() > 0 {
        ended_segments(s, now_ms).push(open)
    } else {
        ended_segments(s, now_ms)
    }
}

/// The contents of a list of segments.
pub open spec fn points(segments: Seq<Vec<ChartPoint>>) -> Seq<Seq<ChartPoint>> {
    segments.map_values(|seg: Vec<ChartPoint>| seg@)
}

/// Splits readings into runs between silences.
pub fn build_voiced_segments(features: &Vec<FeatureSnapshot>, now_ms: u64) -> (segments: Vec<
    Vec<ChartPoint>,
>)
    ensures
        points(segments@) == segments_of(features@, now_ms),
{
    let mut segments: Vec<Vec<ChartPoint>> = Vec::new();
    let mut current: Vec<ChartPoint> = Vec::new();
    proof {
        assert(features@.take(0) =~= Seq::empty());
        assert(points(segments@) =~= Seq::empty());
    }
    for i in 0..features.len()
        invariant
            points(segments@) == ended_segments(features@.take(i as int), now_ms),
            current@ == open_segment(features@.take(i as int), now_ms),
    {
        let s: FeatureSnapshot = features[i];
        proof {
            assert(features@.take(i + 1).drop_last() =~= features@.take(i as int));
            assert(features@.take(i + 1).last() == s);
        }
        if s.f0_hz.le(F32 { bits: 0 }) {
            if current.len() > 0 {
                let ghost before = points(segments@);
                let ghost run = current@;
                segments.push(current);
                assert(points(segments@) =~= before.push(run));
                current = Vec::new();
            }
            assert(current@ =~= Seq::empty());
        } else {
            let age_ms: u64 = if s.t_ms <= now_ms {
                now_ms - s.t_ms
            } else {
                0
            };
            if age_ms <= CHART_WINDOW_MS {
                current.push(ChartPoint { age_ms, f0_hz: s.f0_hz });
            }
        }
    }
    assert(features@.take(features@.len() as int) =~= features@);
    if current.len() > 0 {
        let ghost before = points(segments@);
        let ghost run = current@;
        segments.push(current);
        assert(points(segments@) =~= before.push(run));
    }
    segments
}

/// The lowest and the highest of some numbers.
pub open spec fn range_of(s: Seq<F32>) -> Option<(F32, F32)>
    decreases s.len(),
{
    if s.len() == 0 {
        None
    } else {
        match range_of(s.drop_last()) {
            None => Some((s.last(), s.last())),
            Some((lo, hi)) => Some((lo.lesser(s.last()), hi.greater(s.last()))),
        }
    }
}

/// The lowest and the highest of the voiced readings in semitones.
pub fn voiced_semitone_range(semitones: &Vec<F32>) -> (range: Option<(F32, F32)>)
    ensures
        range == range_of(semitones@),
{
    let mut range: Option<(F32, F32)> = None;
    for i in 0..semitones.len()
        invariant
            range == range_of(semitones@.take(i as int)),
    {
        assert(semitones@.take(i + 1).drop_last() =~= semitones@.take(i as int));
        let st: F32 = semitones[i];
        range = match range {
            None => Some((st, st)),
            Some((lo, hi)) => Some((lo.min(st), hi.max(st))),
        };
    }
    assert(semitones@.take(semitones@.len() as int) =~= semitones@);
    range
}

/// Whether the chart keeps its vertical window: nothing is voiced, or all that is
/// lies within the window and its slack. `low` and `high` are the edges of the
/// window with the slack added.
pub fn keeps_window(range: Option<(F32, F32)>, low: F32, high: F32) -> (keeps: bool)
    ensures
        keeps == (match range {
            None => true,
            Some((lo, hi)) => low.at_most(lo) && hi.at_most(high),
        }),
{
    match range {
        None => true,
        Some((lo, hi)) => low.le(lo) && hi.le(high),
    }
}

/// The labels of the octaves from `lo` to `hi`, octave 0 being that of A4.
pub fn octave_labels(lo: i32, hi: i32) -> (labels: Vec<String>)
    ensures
        labels@.len() == (if lo <= hi {
            hi - lo + 1
        } else {
            0
        }),
        forall|i: int|
            0 <= i < labels@.len() ==> (#[trigger] labels@[i])@ == "A"@ + text::signed_decimal(
                4 + lo + i,
            ),
{
    let mut labels: Vec<String> = Vec::new();
    let mut octave: i64 = lo as i64;
    while octave <= hi as i64
        invariant
            lo <= octave,
            octave <= hi + 1 || octave == lo,
            labels@.len() == octave - lo,
            forall|i: int|
                0 <= i < labels@.len() ==> (#[trigger] labels@[i])@ == "A"@ + text::signed_decimal(
                    4 + lo + i,
                ),
        decreases hi + 1 - octave,
    {
        let mut label = String::from_str("A");
        text::push_signed(&mut label, 4 + octave);
        labels.push(label);
        octave = octave + 1;
    }
    labels
}

// ---- the console ---------------------------------------------------------

/// How many rows the console takes of a terminal: two fifths, but at least six
/// and at most twenty.
pub fn console_rows(height: u16) -> (rows: u16)
    ensures
        rows == (if height * 40 / 100 < 6 {
            6
        } else if height * 40 / 100 > 20 {
            20
        } else {
            height * 40 / 100
        }),
{
    let share: u32 = height as u32 * 40 / 100;
    if share < 6 {
        6
    } else if share > 20 {
        20
    } else {
        share as u16
    }
}

/// The first log line that is shown: the last lines that fit inside the frame of
/// the console.
pub fn tail_start(lines: usize, height: u16) -> (start: usize)
    ensures
        start <= lines,
        lines - start == (if height <= 2 {
            0
        } else if height - 2 < lines {
            height - 2
        } else {
            lines as int
        }),
{
    let room: usize = if height <= 2 {
        0
    } else {
        (height - 2) as usize
    };
    if room < lines {
        lines - room
    } else {
        0
    }
}

/// How the level of a log line is tinted.
#[derive(Clone, Copy, PartialEq, Eq, Structural, Debug)]
pub enum Tint {
    Plain,
    /// Red and bold.
    Error,
    Yellow,
    Cyan,
    Gray,
    Magenta,
}

/// A log line in the console.
pub enum LogLine {
    /// A line without a level.
    Raw,
    /// The level with its brackets, its tint, and what follows it.
    Level { prefix: String, tint: Tint, rest: String },
}

/// The tint for a level.
pub open spec fn tint_of(prefix: Seq<char>) -> Tint {
    if prefix == "[ERROR]"@ {
        Tint::Error
    } else if prefix == "[WARN]"@ {
        Tint::Yellow
    } else if prefix == "[INFO]"@ {
        Tint::Cyan
    } else if prefix == "[DEBUG]"@ || prefix == "[TRACE]"@ {
        Tint::Gray
    } else if prefix == "[EVENT]"@ {
        Tint::Magenta
    } else {
        Tint::Plain
    }
}

fn tint(prefix: &str) -> (tint: Tint)
    ensures
        tint == tint_of(prefix@),
{
    if text::same(prefix, "[ERROR]") {
        Tint::Error
    } else if text::same(prefix, "[WARN]") {
        Tint::Yellow
    } else if text::same(prefix, "[INFO]") {
        Tint::Cyan
    } else if text::same(prefix, "[DEBUG]") || text::same(prefix, "[TRACE]") {
        Tint::Gray
    } else if text::same(prefix, "[EVENT]") {
        Tint::Magenta
    } else {
        Tint::Plain
    }
}

/// Splits a log line behind its first closing bracket and tints what stands
/// before it.
pub fn colourise(line: &str) -> (out: LogLine)
    ensures
        match out {
            LogLine::Raw => !line@.contains(']'),
            LogLine::Level { prefix, tint, rest } => {
                &&& prefix@.len() > 0
                &&& prefix@.last() == ']'
                &&& !prefix@.drop_last().contains(']')
                &&& line@ == prefix@ + rest@
                &&& tint == tint_of(prefix@)
            },
        },
{
    let chars = text::chars_of(line);
    let mut i: usize = 0;
    while i < chars.len()
        invariant
            i <= chars.len(),
            chars@ == line@,
            forall|k: int| 0 <= k < i ==> chars@[k] != ']',
        decreases chars.len() - i,
    {
        if chars[i] == ']' {
            let prefix = text::string_of(&chars, 0, i + 1);
            let rest = text::string_of(&chars, i + 1, chars.len());
            proof {
                assert(prefix@.last() == ']');
                assert forall|k: int| 0 <= k < prefix@.drop_last().len() implies #[trigger] prefix@.drop_last()[k]
                    != ']' by {
                    assert(prefix@.drop_last()[k] == chars@[k]);
                }
                assert(line@ =~= prefix@ + rest@);
            }
            let tint = tint(prefix.as_str());
            return LogLine::Level { prefix, tint, rest };
        }
        i = i + 1;
    }
    LogLine::Raw
}

// ---- laws ----------------------------------------------------------------

/// Everything in a list of segments, one after the other.
pub open spec fn all_points(segments: Seq<Seq<ChartPoint>>) -> Seq<ChartPoint>
    decreases segments.len(),
{
    if segments.len() == 0 {
        Seq::empty()
    } else {
        all_points(segments.drop_last()) + segments.last()
    }
}

/// The points of the readings that are drawn, in order.
pub open spec fn drawn_points(s: Seq<FeatureSnapshot>, now_ms: u64) -> Seq<ChartPoint>
    decreases s.len(),
{
    if s.len() == 0 {
        Seq::empty()
    } else if drawn(s.last(), now_ms) {
        drawn_points(s.drop_last(), now_ms).push(point_of(s.last(), now_ms))
    } else {
        drawn_points(s.drop_last(), now_ms)
    }
}

proof fn lemma_points(s: Seq<FeatureSnapshot>, now_ms: u64)
    ensures
        all_points(ended_segments(s, now_ms)) + open_segment(s, now_ms) == drawn_points(s, now_ms),
    decreases s.len(),
{
    if s.len() > 0 {
        let rest = s.drop_last();
        lemma_points(rest, now_ms);
        let before = ended_segments(rest, now_ms);
        let open = open_segment(rest, now_ms);
        if silent(s.last()) {
            assert(before.push(open).drop_last() =~= before);
            assert(all_points(ended_segments(s, now_ms)) + Seq::<ChartPoint>::empty()
                =~= all_points(before) + open);
        } else if drawn(s.last(), now_ms) {
            let p = point_of(s.last(), now_ms);
            assert(all_points(before) + open.push(p) =~= (all_points(before) + open).push(p));
        }
    } else {
        assert(all_points(ended_segments(s, now_ms)) + open_segment(s, now_ms) =~= Seq::empty());
    }
}

/// The segments hold every voiced reading of the window once, in order, and
/// nothing else.
pub proof fn law_segments_hold_every_reading(s: Seq<FeatureSnapshot>, now_ms: u64)
    ensures
        all_points(segments_of(s, now_ms)) == drawn_points(s, now_ms),
{
    lemma_points(s, now_ms);
    let ended = ended_segments(s, now_ms);
    let open = open_segment(s, now_ms);
    assert(ended.push(open).drop_last() =~= ended);
    assert(all_points(ended) + open =~= drawn_points(s, now_ms));
    if open.len() == 0 {
        assert(all_points(ended) + open =~= all_points(ended));
    }
}

proof fn lemma_ended_not_empty(s: Seq<FeatureSnapshot>, now_ms: u64)
    ensures
        forall|i: int|
            0 <= i < ended_segments(s, now_ms).len() ==> (#[trigger] ended_segments(
                s,
                now_ms,
            )[i]).len() > 0,
    decreases s.len(),
{
    if s.len() > 0 {
        let rest = s.drop_last();
        lemma_ended_not_empty(rest, now_ms);
        assert forall|i: int| 0 <= i < ended_segments(s, now_ms).len() implies (
        #[trigger] ended_segments(s, now_ms)[i]).len() > 0 by {
            if i < ended_segments(rest, now_ms).len() {
                assert(ended_segments(rest, now_ms)[i].len() > 0);
            }
        }
    }
}

/// No segment is empty.
pub proof fn law_no_segment_is_empty(s: Seq<FeatureSnapshot>, now_ms: u64, i: int)
    requires
        0 <= i < segments_of(s, now_ms).len(),
    ensures
        segments_of(s, now_ms)[i].len() > 0,
{
    lemma_ended_not_empty(s, now_ms);
}

// ---- what the ring, the chart and the console stand for -------------------

/// A full ring makes room by dropping its oldest reading; another loses nothing.
pub proof fn law_a_full_ring_drops_its_oldest(ring: Seq<FeatureSnapshot>, i: int)
    ensures
        ring.len() != 512 ==> kept(ring) == ring,
        ring.len() == 512 ==> kept(ring).len() == 511,
        ring.len() == 512 && 0 <= i < 511 ==> kept(ring)[i] == ring[i + 1],
        FEATURE_RING_CAP == 512,
        CHART_WINDOW_MS == 5_000,
{
}

/// Which keys quit: `q`, escape, and `c` together with control.
pub proof fn law_keys_that_quit(key: Key, control: bool)
    ensures
        quits(key, control) <==> match key {
            Key::Char(c) => c == 'q' || c == 'c' && control,
            Key::Esc => true,
            Key::Other => false,
        },
{
}

/// A reading is silent at zero and below. It is drawn where it is not silent and no
/// older than five seconds, at its age and its frequency.
pub proof fn law_which_readings_are_drawn(s: FeatureSnapshot, now_ms: u64)
    ensures
        silent(s) <==> s.f0_hz.bits == 0 || 0x8000_0000 <= s.f0_hz.bits <= 0xff80_0000,
        drawn(s, now_ms) <==> !silent(s) && now_ms <= s.t_ms + 5_000,
        s.t_ms <= now_ms ==> point_of(s, now_ms).age_ms + s.t_ms == now_ms,
        s.t_ms > now_ms ==> point_of(s, now_ms).age_ms == 0,
        point_of(s, now_ms).f0_hz == s.f0_hz,
{
}

proof fn lemma_segments_split(
    a: Seq<FeatureSnapshot>,
    x: FeatureSnapshot,
    b: Seq<FeatureSnapshot>,
    now_ms: u64,
)
    requires
        silent(x),
    ensures
        ended_segments(a.push(x) + b, now_ms) == segments_of(a, now_ms) + ended_segments(b, now_ms),
        open_segment(a.push(x) + b, now_ms) == open_segment(b, now_ms),
    decreases b.len(),
{
    let all = a.push(x) + b;
    if b.len() == 0 {
        assert(all =~= a.push(x));
        assert(a.push(x).drop_last() =~= a);
        assert(a.push(x).last() == x);
        assert(segments_of(a, now_ms) + ended_segments(b, now_ms) =~= segments_of(a, now_ms));
    } else {
        lemma_segments_split(a, x, b.drop_last(), now_ms);
        assert(all.drop_last() =~= a.push(x) + b.drop_last());
        assert(all.last() == b.last());
        let before = ended_segments(b.drop_last(), now_ms);
        let open = open_segment(b.drop_last(), now_ms);
        assert((segments_of(a, now_ms) + before).push(open) =~= segments_of(a, now_ms)
            + before.push(open));
    }
}

/// A silence parts the chart: what stands before it and what stands after it are
/// drawn apart, each as if it were alone.
pub proof fn law_a_silence_parts_the_chart(
    a: Seq<FeatureSnapshot>,
    x: FeatureSnapshot,
    b: Seq<FeatureSnapshot>,
    now_ms: u64,
)
    requires
        x.f0_hz.at_most(F32 { bits: 0 }),
    ensures
        segments_of(a.push(x) + b, now_ms) == segments_of(a, now_ms) + segments_of(b, now_ms),
{
    lemma_segments_split(a, x, b, now_ms);
    let open = open_segment(b, now_ms);
    assert((segments_of(a, now_ms) + ended_segments(b, now_ms)).push(open) =~= segments_of(
        a,
        now_ms,
    ) + ended_segments(b, now_ms).push(open));
}

/// How many of the first `n` readings are no older than five seconds.
pub open spec fn recent_before(s: Seq<FeatureSnapshot>, now_ms: u64, n: int) -> int
    decreases n,
{
    if n <= 0 {
        0
    } else {
        recent_before(s, now_ms, n - 1) + (if now_ms <= s[n - 1].t_ms + 5_000 {
            1int
        } else {
            0
        })
    }
}

proof fn lemma_a_run(s: Seq<FeatureSnapshot>, now_ms: u64, n: int)
    requires
        0 <= n <= s.len(),
        forall|i: int| 0 <= i < s.len() ==> !silent(#[trigger] s[i]),
    ensures
        ended_segments(s.take(n), now_ms).len() == 0,
        open_segment(s.take(n), now_ms).len() == recent_before(s, now_ms, n),
        forall|i: int|
            0 <= i < n && now_ms <= (#[trigger] s[i]).t_ms + 5_000 ==> 0 <= recent_before(
                s,
                now_ms,
                i,
            ) < open_segment(s.take(n), now_ms).len() && open_segment(
                s.take(n),
                now_ms,
            )[recent_before(s, now_ms, i)] == point_of(s[i], now_ms),
    decreases n,
{
    if n > 0 {
        lemma_a_run(s, now_ms, n - 1);
        assert(s.take(n).drop_last() =~= s.take(n - 1));
        assert(s.take(n).last() == s[n - 1]);
    }
}

/// Readings without a silence between them are drawn as one line, which holds every
/// recent one in its place, at its age and its frequency. Without a recent one there
/// is no line.
pub proof fn law_a_run_is_one_line(s: Seq<FeatureSnapshot>, now_ms: u64, i: int)
    requires
        forall|k: int|
            0 <= k < s.len() ==> !(#[trigger] s[k]).f0_hz.at_most(F32 { bits: 0 }),
        0 <= i < s.len(),
    ensures
        ({
            let all = segments_of(s, now_ms);
            let count = recent_before(s, now_ms, s.len() as int);
            let place = recent_before(s, now_ms, i);
            &&& count == 0 ==> all.len() == 0
            &&& count != 0 ==> all.len() == 1 && all[0].len() == count
            &&& now_ms <= s[i].t_ms + 5_000 ==> {
                &&& 0 <= place < count
                &&& all[0][place].f0_hz == s[i].f0_hz
                &&& all[0][place].age_ms == (if s[i].t_ms <= now_ms {
                    now_ms - s[i].t_ms
                } else {
                    0
                })
            }
        }),
{
    assert(s.take(s.len() as int) =~= s);
    assert forall|k: int| 0 <= k < s.len() implies !silent(#[trigger] s[k]) by {
        assert(!s[k].f0_hz.at_most(F32 { bits: 0 }));
    }
    lemma_a_run(s, now_ms, s.len() as int);
}

/// Without a reading there is no line.
pub proof fn law_no_reading_no_line(s: Seq<FeatureSnapshot>, now_ms: u64)
    requires
        s.len() == 0,
    ensures
        segments_of(s, now_ms).len() == 0,
{
}

/// The range of some numbers bounds them all, and both its ends are among them. There
/// is one exactly where there are numbers.
pub proof fn law_the_range_bounds_all(s: Seq<F32>, i: int)
    ensures
        range_of(s) is None <==> s.len() == 0,
        range_of(s) matches Some((lo, hi)) ==> {
            &&& s.contains(lo)
            &&& s.contains(hi)
            &&& 0 <= i < s.len() && !s[i].nan() ==> lo.at_most(s[i]) && s[i].at_most(hi)
        },
    decreases s.len(),
{
    if s.len() > 0 {
        let rest = s.drop_last();
        law_the_range_bounds_all(rest, i);
        assert(s[s.len() - 1] == s.last());
        match range_of(rest) {
            Some((lo, hi)) => {
                let a = choose|a: int| 0 <= a < rest.len() && rest[a] == lo;
                let b = choose|b: int| 0 <= b < rest.len() && rest[b] == hi;
                assert(s[a] == lo && s[b] == hi);
                if 0 <= i < rest.len() {
                    assert(rest[i] == s[i]);
                }
            },
            None => {},
        }
    }
}

/// Every level has its tint, and what is no level is plain.
pub proof fn law_levels_have_their_tint(prefix: Seq<char>)
    ensures
        tint_of("[ERROR]"@) is Error,
        tint_of("[WARN]"@) is Yellow,
        tint_of("[INFO]"@) is Cyan,
        tint_of("[DEBUG]"@) is Gray,
        tint_of("[TRACE]"@) is Gray,
        tint_of("[EVENT]"@) is Magenta,
        prefix != "[ERROR]"@ && prefix != "[WARN]"@ && prefix != "[INFO]"@ && prefix != "[DEBUG]"@
            && prefix != "[TRACE]"@ && prefix != "[EVENT]"@ ==> tint_of(prefix) is Plain,
{
    reveal_strlit("[ERROR]");
    reveal_strlit("[WARN]");
    reveal_strlit("[INFO]");
    reveal_strlit("[DEBUG]");
    reveal_strlit("[TRACE]");
    reveal_strlit("[EVENT]");
    assert("[WARN]"@.len() == 6 && "[INFO]"@.len() == 6);
    assert("[INFO]"@[1] == 'I' && "[WARN]"@[1] == 'W');
    assert("[ERROR]"@[1] == 'E' && "[ERROR]"@[2] == 'R');
    assert("[DEBUG]"@[1] == 'D' && "[TRACE]"@[1] == 'T');
    assert("[EVENT]"@[1] == 'E' && "[EVENT]"@[2] == 'V');
}

/// A list of segments holds the points of each segment, in order.
pub proof fn law_segments_are_their_points(segments: Seq<Vec<ChartPoint>>, i: int)
    ensures
        points(segments).len() == segments.len(),
        0 <= i < segments.len() ==> points(segments)[i] == segments[i]@,
{
}

}
