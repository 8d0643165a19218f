//! The semantic model behind the scrolling time graph: what of the history is
//! drawn, before any pixel is computed.

use vstd::prelude::*;
use crate::features::{FeatureHistory, Features};
use crate::features;
use crate::ieee::F32;
use crate::music::MusicInfo;

verus! {

/// One easing step never integrates more elapsed time than this, so that a
/// stalled feature stream resumes with a smooth step.
pub const MAX_EASE_STEP_MS: u64 = 250;

/// Bits of one thousandth of an octave: an edge this close to its target snaps
/// onto it.
pub const SNAP_EPSILON: u32 = 0x3a83_126f;

/// Bits of the breath level from which on a hop counts as breathing: one half.
pub const BREATH_ACTIVE_THRESHOLD: u32 = 0x3f00_0000;

/// The span of time on screen. `span_ms` is the full width, also where the
/// history is younger than that.
#[derive(Clone, Copy, PartialEq, Eq, Structural, Debug)]
pub struct TimeWindow {
    pub start_ms: u64,
    pub end_ms: u64,
    pub span_ms: u64,
}

/// The span of pitch on screen, in base-2 logarithms.
#[derive(Clone, Copy, PartialEq, Eq, Structural, Debug)]
pub struct PitchWindow {
    pub min: F32,
    pub max: F32,
}

/// One voiced hop.
#[derive(Clone, Copy, PartialEq, Eq, Structural, Debug)]
pub struct TracePoint {
    pub t_ms: u64,
    pub vibrato_t_ms: u64,
    pub pitch: F32,
    pub confidence: F32,
    pub vibrato_rate: F32,
    pub vibrato_depth: F32,
}

/// A run of voiced hops without a gap.
pub struct TraceSegment {
    pub points: Vec<TracePoint>,
}

/// A line of the grid: one slot of the tuning in one octave.
#[derive(Clone, Copy, PartialEq, Eq, Structural, Debug)]
pub struct GrooveLine {
    pub pitch: F32,
    pub slot: usize,
    pub active: bool,
}

/// An attack.
#[derive(Clone, Copy, PartialEq, Eq, Structural, Debug)]
pub struct OnsetTick {
    pub t_ms: u64,
    pub strength: F32,
}

/// A breath, from its first hop to its last.
#[derive(Clone, Copy, PartialEq, Eq, Structural, Debug)]
pub struct BreathSpan {
    pub start_ms: u64,
    pub end_ms: u64,
    pub peak: F32,
}

/// All that is drawn.
pub struct SemanticGraph {
    pub time_window: Option<TimeWindow>,
    pub pitch_window: Option<PitchWindow>,
    pub trace_segments: Vec<TraceSegment>,
    pub grooves: Vec<GrooveLine>,
    pub onset_ticks: Vec<OnsetTick>,
    pub breath_spans: Vec<BreathSpan>,
}

// ---- hops ----------------------------------------------------------------

/// The number of the hop that follows `hop`.
pub open spec fn next_hop(hop: u64) -> u64 {
    if hop == u64::MAX {
        0
    } else {
        (hop + 1) as u64
    }
}

/// Whether no hop is missing between the samples `i - 1` and `i`.
pub open spec fn contiguous(s: Seq<Features>, i: int) -> bool {
    0 < i < s.len() && s[i].hop_index == next_hop(s[i - 1].hop_index)
}

fn follows(previous: &Features, sample: &Features) -> (yes: bool)
    ensures
        yes == (sample.hop_index == next_hop(previous.hop_index)),
{
    let next: u64 = if previous.hop_index == u64::MAX {
        0
    } else {
        previous.hop_index + 1
    };
    sample.hop_index == next
}

// ---- the trace -----------------------------------------------------------

/// The point that a voiced sample draws.
pub open spec fn point_of(f: Features) -> TracePoint {
    TracePoint {
        t_ms: f.t_ms,
        vibrato_t_ms: f.vibrato_t_ms,
        pitch: f.pitch->0,
        confidence: f.confidence,
        vibrato_rate: f.vibrato_rate,
        vibrato_depth: f.vibrato_depth,
    }
}

/// Whether sample `i` continues the line that sample `i - 1` is on.
pub open spec fn joins(s: Seq<Features>, i: int) -> bool {
    contiguous(s, i) && s[i - 1].pitch is Some && s[i].pitch is Some
}

/// The lines of the trace: a voiced sample continues the line before it or
/// starts one, an unvoiced one draws nothing.
pub open spec fn segments_of(s: Seq<Features>) -> Seq<Seq<TracePoint>>
    decreases s.len(),
{
    if s.len() == 0 {
        Seq::empty()
    } else {
        let before = segments_of(s.drop_last());
        if s.last().pitch is None {
            before
        } else if joins(s, s.len() - 1) {
            before.drop_last().push(before.last().push(point_of(s.last())))
        } else {
            before.push(seq![point_of(s.last())])
        }
    }
}

/// The points of each segment.
pub open spec fn segment_points(segments: Seq<TraceSegment>) -> Seq<Seq<TracePoint>> {
    segments.map_values(|g: TraceSegment| g.points@)
}

/// The lines that are closed, and the one that may still grow.
spec fn with_open(segments: Seq<TraceSegment>, points: Seq<TracePoint>) -> Seq<Seq<TracePoint>> {
    if points.len() == 0 {
        segment_points(segments)
    } else {
        segment_points(segments).push(points)
    }
}

/// The lines of the trace, broken at silence and where hops are missing.
pub fn trace_segments(history: &Vec<Features>) -> (segments: Vec<TraceSegment>)
    ensures
        segment_points(segments@) == segments_of(history@),
{
    let mut segments: Vec<TraceSegment> = Vec::new();
    let mut points: Vec<TracePoint> = Vec::new();
    let ghost s = history@;
    assert(segment_points(segments@) =~= Seq::empty());
    for i in 0..history.len()
        invariant
            s == history@,
            with_open(segments@, points@) == segments_of(s.take(i as int)),
            points@.len() > 0 <==> i > 0 && s[i - 1].pitch is Some,
    {
        let sample = history[i];
        let ghost before = with_open(segments@, points@);
        proof {
            let t = s.take(i + 1);
            assert(t.drop_last() =~= s.take(i as int));
            assert(t.last() == s[i as int]);
            assert(joins(t, i as int) <==> joins(s, i as int));
        }
        let linked: bool = i > 0 && follows(&history[i - 1], &sample);
        match sample.pitch {
            Some(pitch) => {
                if i > 0 && !linked {
                    if points.len() > 0 {
                        let ghost done = segments@;
                        let ghost open = points@;
                        segments.push(TraceSegment { points });
                        points = Vec::new();
                        assert(segment_points(segments@) =~= segment_points(done).push(open));
                    }
                }
                let ghost open = points@;
                points.push(
                    TracePoint {
                        t_ms: sample.t_ms,
                        vibrato_t_ms: sample.vibrato_t_ms,
                        pitch,
                        confidence: sample.confidence,
                        vibrato_rate: sample.vibrato_rate,
                        vibrato_depth: sample.vibrato_depth,
                    },
                );
                proof {
                    if open.len() > 0 {
                        assert(before.drop_last() =~= segment_points(segments@));
                        assert(with_open(segments@, points@) =~= before.drop_last().push(
                            before.last().push(point_of(sample)),
                        ));
                    } else {
                        assert(points@ =~= seq![point_of(sample)]);
                        assert(with_open(segments@, points@) =~= before.push(
                            seq![point_of(sample)],
                        ));
                    }
                }
            },
            None => {
                if points.len() > 0 {
                    let ghost done = segments@;
                    let ghost open = points@;
                    segments.push(TraceSegment { points });
                    points = Vec::new();
                    assert(segment_points(segments@) =~= segment_points(done).push(open));
                }
            },
        }
    }
    assert(s.take(s.len() as int) =~= s);
    if points.len() > 0 {
        let ghost done = segments@;
        let ghost open = points@;
        segments.push(TraceSegment { points });
        assert(segment_points(segments@) =~= segment_points(done).push(open));
    }
    segments
}

/// The points of all voiced samples, in order.
pub open spec fn voiced_points(s: Seq<Features>) -> Seq<TracePoint>
    decreases s.len(),
{
    if s.len() == 0 {
        Seq::empty()
    } else if s.last().pitch is Some {
        voiced_points(s.drop_last()).push(point_of(s.last()))
    } else {
        voiced_points(s.drop_last())
    }
}

/// The lines, one after the other.
pub open spec fn end_to_end(lines: Seq<Seq<TracePoint>>) -> Seq<TracePoint>
    decreases lines.len(),
{
    if lines.len() == 0 {
        Seq::empty()
    } else {
        end_to_end(lines.drop_last()) + lines.last()
    }
}

/// The lines of the trace hold every voiced sample exactly once and in order,
/// and no line is empty.
pub proof fn law_segments_cover_the_voice(s: Seq<Features>)
    ensures
        end_to_end(segments_of(s)) == voiced_points(s),
        forall|k: int|
            0 <= k < segments_of(s).len() ==> (#[trigger] segments_of(s)[k]).len() > 0,
        s.len() > 0 && s.last().pitch is Some ==> segments_of(s).len() > 0 && segments_of(
            s,
        ).last().last() == point_of(s.last()),
    decreases s.len(),
{
    if s.len() > 0 {
        let rest = s.drop_last();
        law_segments_cover_the_voice(rest);
        let before = segments_of(rest);
        let now = segments_of(s);
        if s.last().pitch is Some {
            let p = point_of(s.last());
            if joins(s, s.len() - 1) {
                assert(rest.last() == s[s.len() - 2]);
                assert(now.drop_last() =~= before.drop_last());
                assert(end_to_end(now) =~= end_to_end(before).push(p));
                assert forall|k: int| 0 <= k < now.len() implies (#[trigger] now[k]).len() > 0 by {
                    if k < now.len() - 1 {
                        assert(now[k] == before[k]);
                    }
                }
            } else {
                assert(now.drop_last() =~= before);
                assert(end_to_end(now) =~= end_to_end(before).push(p));
                assert forall|k: int| 0 <= k < now.len() implies (#[trigger] now[k]).len() > 0 by {
                    if k < now.len() - 1 {
                        assert(now[k] == before[k]);
                    }
                }
            }
        }
    }
}

// ---- onsets --------------------------------------------------------------

/// The attacks: a tick for each sample whose onset is positive.
pub open spec fn ticks_of(s: Seq<Features>) -> Seq<OnsetTick>
    decreases s.len(),
{
    if s.len() == 0 {
        Seq::empty()
    } else if s.last().onset.positive() {
        ticks_of(s.drop_last()).push(
            OnsetTick { t_ms: s.last().t_ms, strength: s.last().onset },
        )
    } else {
        ticks_of(s.drop_last())
    }
}

/// The attacks of the history, with their timestamps.
pub fn onset_ticks(history: &Vec<Features>) -> (ticks: Vec<OnsetTick>)
    ensures
        ticks@ == ticks_of(history@),
{
    let mut ticks: Vec<OnsetTick> = Vec::new();
    for i in 0..history.len()
        invariant
            ticks@ == ticks_of(history@.take(i as int)),
    {
        assert(history@.take(i + 1).drop_last() =~= history@.take(i as int));
        let sample = history[i];
        if sample.onset.is_positive() {
            ticks.push(OnsetTick { t_ms: sample.t_ms, strength: sample.onset });
        }
    }
    assert(history@.take(history@.len() as int) =~= history@);
    ticks
}

// ---- breaths -------------------------------------------------------------

/// Whether a hop counts as breathing.
pub open spec fn breathing(f: Features) -> bool {
    (F32 { bits: BREATH_ACTIVE_THRESHOLD }).at_most(f.breath)
}

/// Whether sample `i` continues the breath that sample `i - 1` is in.
pub open spec fn continues(s: Seq<Features>, i: int) -> bool {
    contiguous(s, i) && breathing(s[i - 1]) && breathing(s[i])
}

/// The breaths: runs of breathing hops without a gap.
pub open spec fn spans_of(s: Seq<Features>) -> Seq<BreathSpan>
    decreases s.len(),
{
    if s.len() == 0 {
        Seq::empty()
    } else {
        let before = spans_of(s.drop_last());
        let f = s.last();
        if !breathing(f) {
            before
        } else if continues(s, s.len() - 1) {
            let open = before.last();
            before.drop_last().push(
                BreathSpan {
                    start_ms: open.start_ms,
                    end_ms: f.t_ms,
                    peak: open.peak.greater(f.breath),
                },
            )
        } else {
            before.push(BreathSpan { start_ms: f.t_ms, end_ms: f.t_ms, peak: f.breath })
        }
    }
}

spec fn with_active(spans: Seq<BreathSpan>, active: Option<BreathSpan>) -> Seq<BreathSpan> {
    match active {
        Some(span) => spans.push(span),
        None => spans,
    }
}

/// The breaths of the history: each from its first to its last breathing hop,
/// with the loudest level in between.
pub fn breath_spans(history: &Vec<Features>) -> (spans: Vec<BreathSpan>)
    ensures
        spans@ == spans_of(history@),
{
    let mut spans: Vec<BreathSpan> = Vec::new();
    let mut active: Option<BreathSpan> = None;
    let ghost s = history@;
    for i in 0..history.len()
        invariant
            s == history@,
            with_active(spans@, active) == spans_of(s.take(i as int)),
            active is Some <==> i > 0 && breathing(s[i - 1]),
    {
        let sample = history[i];
        let ghost before = with_active(spans@, active);
        proof {
            let t = s.take(i + 1);
            assert(t.drop_last() =~= s.take(i as int));
            assert(t.last() == s[i as int]);
            assert(continues(t, i as int) <==> continues(s, i as int));
        }
        if i > 0 && !follows(&history[i - 1], &sample) {
            if let Some(span) = active {
                spans.push(span);
                active = None;
            }
        }
        if (F32 { bits: BREATH_ACTIVE_THRESHOLD }).le(sample.breath) {
            match active {
                Some(span) => {
                    active = Some(
                        BreathSpan {
                            start_ms: span.start_ms,
                            end_ms: sample.t_ms,
                            peak: span.peak.max(sample.breath),
                        },
                    );
                    assert(before.drop_last() =~= spans@);
                },
                None => {
                    active = Some(
                        BreathSpan {
                            start_ms: sample.t_ms,
                            end_ms: sample.t_ms,
                            peak: sample.breath,
                        },
                    );
                    assert(before =~= spans@);
                },
            }
        } else if let Some(span) = active {
            spans.push(span);
            active = None;
        }
    }
    assert(s.take(s.len() as int) =~= s);
    if let Some(span) = active {
        spans.push(span);
    }
    spans
}

/// Every breath starts and ends at hops that breathe.
pub proof fn law_breaths_lie_on_breathing_hops(s: Seq<Features>, k: int)
    requires
        0 <= k < spans_of(s).len(),
    ensures
        exists|i: int|
            0 <= i < s.len() && breathing(#[trigger] s[i]) && s[i].t_ms == spans_of(s)[k].start_ms,
        exists|i: int|
            0 <= i < s.len() && breathing(#[trigger] s[i]) && s[i].t_ms == spans_of(s)[k].end_ms,
    decreases s.len(),
{
    if s.len() > 0 {
        let rest = s.drop_last();
        let before = spans_of(rest);
        let n = s.len() - 1;
        lemma_open_breath(s);
        if k < before.len() {
            law_breaths_lie_on_breathing_hops(rest, k);
            let a = choose|i: int|
                0 <= i < rest.len() && breathing(#[trigger] rest[i]) && rest[i].t_ms
                    == before[k].start_ms;
            let b = choose|i: int|
                0 <= i < rest.len() && breathing(#[trigger] rest[i]) && rest[i].t_ms
                    == before[k].end_ms;
            assert(s[a] == rest[a]);
            assert(s[b] == rest[b]);
            if breathing(s.last()) && continues(s, n) && k == before.len() - 1 {
                assert(breathing(s[n]) && s[n].t_ms == spans_of(s)[k].end_ms);
                assert(spans_of(s)[k].start_ms == before[k].start_ms);
            } else {
                assert(spans_of(s)[k] == before[k]);
            }
        } else {
            assert(breathing(s[n]) && s[n].t_ms == spans_of(s)[k].start_ms);
        }
    }
}

/// While the last hop breathes there is a breath, and it ends at that hop.
proof fn lemma_open_breath(s: Seq<Features>)
    ensures
        s.len() > 0 && breathing(s.last()) ==> spans_of(s).len() > 0 && spans_of(s).last().end_ms
            == s.last().t_ms,
        s.len() > 0 && continues(s, s.len() - 1) ==> spans_of(s.drop_last()).len() > 0,
    decreases s.len(),
{
    if s.len() > 0 {
        lemma_open_breath(s.drop_last());
        if continues(s, s.len() - 1) {
            assert(s.drop_last().last() == s[s.len() - 2]);
        }
    }
}

// ---- the pitch window ----------------------------------------------------

/// The lowest and the highest voiced pitch.
pub open spec fn extremes_of(s: Seq<Features>) -> Option<(F32, F32)>
    decreases s.len(),
{
    if s.len() == 0 {
        None
    } else {
        let before = extremes_of(s.drop_last());
        match s.last().pitch {
            None => before,
            Some(p) => match before {
                None => Some((p, p)),
                Some((lo, hi)) => Some((lo.lesser(p), hi.greater(p))),
            },
        }
    }
}

/// The lowest and the highest pitch of the voiced samples: the window is fitted
/// to everything that is still on screen.
pub fn pitch_extremes(history: &Vec<Features>) -> (range: Option<(F32, F32)>)
    ensures
        range == extremes_of(history@),
{
    let mut range: Option<(F32, F32)> = None;
    for i in 0..history.len()
        invariant
            range == extremes_of(history@.take(i as int)),
    {
        assert(history@.take(i + 1).drop_last() =~= history@.take(i as int));
        if let Some(p) = history[i].pitch {
            range = match range {
                None => Some((p, p)),
                Some((lo, hi)) => Some((lo.min(p), hi.max(p))),
            };
        }
    }
    assert(history@.take(history@.len() as int) =~= history@);
    range
}

/// No voiced pitch that is a number lies outside the extremes.
pub proof fn law_extremes_bound_the_voice(s: Seq<Features>, i: int)
    requires
        0 <= i < s.len(),
        s[i].pitch is Some,
        !s[i].pitch->0.nan(),
    ensures
        extremes_of(s) is Some,
        extremes_of(s) matches Some((lo, hi)) ==> lo.at_most(s[i].pitch->0)
            && s[i].pitch->0.at_most(hi),
    decreases s.len(),
{
    let rest = s.drop_last();
    if i < rest.len() {
        assert(rest[i] == s[i]);
        law_extremes_bound_the_voice(rest, i);
    }
}

/// What one update of the pitch window is to do.
#[derive(Clone, Copy, PartialEq, Eq, Structural, Debug)]
pub enum Refit {
    /// Nothing is voiced: the window stays where it is.
    Hold,
    /// The window has been set to the target.
    Snap,
    /// The window eases toward the target, `dt_ms` having elapsed.
    Ease { dt_ms: u64 },
}

/// Where an edge comes to stand after a step of contraction: the position that
/// the easing curve gives, and how far that still is from the target.
#[derive(Clone, Copy, PartialEq, Eq, Structural, Debug)]
pub struct EasedEdge {
    pub next: F32,
    pub left: F32,
}

/// The pitch window across frames, and the time of the last update.
pub struct GraphProjector {
    pub pitch_window: Option<PitchWindow>,
    pub last_ms: Option<u64>,
}

/// The time an easing step integrates.
pub open spec fn ease_time(last: Option<u64>, newest: Option<u64>) -> u64 {
    match (last, newest) {
        (Some(last), Some(now)) => {
            if now <= last {
                0
            } else if now - last > MAX_EASE_STEP_MS {
                MAX_EASE_STEP_MS
            } else {
                (now - last) as u64
            }
        },
        _ => 0,
    }
}

/// Whether two windows have no pitch in common.
pub open spec fn apart(target: PitchWindow, current: PitchWindow) -> bool {
    current.max.below(target.min) || target.max.below(current.min)
}

/// Where a contracting edge comes to stand.
pub open spec fn settled(toward: F32, eased: EasedEdge) -> F32 {
    if eased.left.below(F32 { bits: SNAP_EPSILON }) {
        toward
    } else {
        eased.next
    }
}

/// The window after an easing step: each edge moves on its own, outward at
/// once, inward along the easing curve.
pub open spec fn eased_window(
    current: PitchWindow,
    target: PitchWindow,
    min: EasedEdge,
    max: EasedEdge,
) -> PitchWindow {
    PitchWindow {
        min: if target.min.below(current.min) {
            target.min
        } else {
            settled(target.min, min)
        },
        max: if current.max.below(target.max) {
            target.max
        } else {
            settled(target.max, max)
        },
    }
}

/// The window after an update, where the easing curve gives `min` and `max`: it is
/// held while nothing is voiced, and set to a target that has nothing in common
/// with it.
pub open spec fn updated(
    current: PitchWindow,
    target: Option<PitchWindow>,
    min: EasedEdge,
    max: EasedEdge,
) -> PitchWindow {
    match target {
        None => current,
        Some(t) => if apart(t, current) {
            t
        } else {
            eased_window(current, t, min, max)
        },
    }
}

fn settle(toward: F32, eased: EasedEdge) -> (edge: F32)
    ensures
        edge == settled(toward, eased),
{
    if eased.left.lt(F32 { bits: SNAP_EPSILON }) {
        toward
    } else {
        eased.next
    }
}

impl Default for GraphProjector {
    fn default() -> (p: Self)
        ensures
            p == (GraphProjector { pitch_window: None, last_ms: None }),
    {
        GraphProjector { pitch_window: None, last_ms: None }
    }
}

impl GraphProjector {
    /// Forgets the window and the clock.
    pub fn clear(&mut self)
        ensures
            *final(self) == (GraphProjector { pitch_window: None, last_ms: None }),
    {
        *self = GraphProjector { pitch_window: None, last_ms: None };
    }

    /// First half of an update of the window. The clock advances, also while
    /// nothing is voiced. Without a window, or where the target has nothing in
    /// common with it (a jump of register), the window is set to the target.
    pub fn update_pitch_window(
        &mut self,
        target: Option<PitchWindow>,
        newest_ms: Option<u64>,
    ) -> (refit: Refit)
        ensures
            final(self).last_ms == (if newest_ms is Some {
                newest_ms
            } else {
                old(self).last_ms
            }),
            match (target, old(self).pitch_window) {
                (None, _) => refit is Hold && final(self).pitch_window == old(self).pitch_window,
                (Some(t), None) => refit is Snap && final(self).pitch_window == Some(t),
                (Some(t), Some(c)) => if apart(t, c) {
                    refit is Snap && final(self).pitch_window == Some(t)
                } else {
                    refit == (Refit::Ease { dt_ms: ease_time(old(self).last_ms, newest_ms) })
                        && final(self).pitch_window == old(self).pitch_window
                },
            },
            old(self).pitch_window is Some && !(refit is Ease) ==> forall|
                min: EasedEdge,
                max: EasedEdge,
            |
                final(self).pitch_window == Some(
                    #[trigger] updated(old(self).pitch_window->0, target, min, max),
                ),
    {
        let dt_ms: u64 = match (self.last_ms, newest_ms) {
            (Some(last), Some(now)) => {
                let gone: u64 = now.saturating_sub(last);
                if gone > MAX_EASE_STEP_MS {
                    MAX_EASE_STEP_MS
                } else {
                    gone
                }
            },
            _ => 0,
        };
        if newest_ms.is_some() {
            self.last_ms = newest_ms;
        }
        let target = match target {
            Some(t) => t,
            None => {
                return Refit::Hold;
            },
        };
        match self.pitch_window {
            None => {
                self.pitch_window = Some(target);
                Refit::Snap
            },
            Some(current) => {
                if current.max.lt(target.min) || target.max.lt(current.min) {
                    self.pitch_window = Some(target);
                    Refit::Snap
                } else {
                    Refit::Ease { dt_ms }
                }
            },
        }
    }

    /// Second half of an update that eases, with the positions that the easing
    /// curve gives for both edges.
    pub fn ease(&mut self, target: PitchWindow, min: EasedEdge, max: EasedEdge)
        requires
            old(self).pitch_window is Some,
        ensures
            final(self).pitch_window == Some(
                eased_window(old(self).pitch_window->0, target, min, max),
            ),
            !apart(target, old(self).pitch_window->0) ==> final(self).pitch_window == Some(
                updated(old(self).pitch_window->0, Some(target), min, max),
            ),
            final(self).last_ms == old(self).last_ms,
    {
        if let Some(current) = self.pitch_window {
            let lo = if target.min.lt(current.min) {
                target.min
            } else {
                settle(target.min, min)
            };
            let hi = if current.max.lt(target.max) {
                target.max
            } else {
                settle(target.max, max)
            };
            self.pitch_window = Some(PitchWindow { min: lo, max: hi });
        }
    }

    /// The time window of a history.
    pub fn time_window(history: &FeatureHistory) -> (window: Option<TimeWindow>)
        ensures
            window == window_of(history@),
    {
        match history.time_bounds() {
            Some((start_ms, end_ms)) => Some(
                TimeWindow { start_ms, end_ms, span_ms: history.window_ms() },
            ),
            None => None,
        }
    }

    /// The graph of a history, once the window is up to date. Without a pitch
    /// window there are no grooves.
    pub fn project(&self, history: &FeatureHistory, grooves: Vec<GrooveLine>) -> (graph:
        SemanticGraph)
        ensures
            graph.time_window == window_of(history@),
            graph.pitch_window == self.pitch_window,
            segment_points(graph.trace_segments@) == segments_of(history@.samples),
            graph.grooves@ == (if self.pitch_window is Some {
                grooves@
            } else {
                Seq::empty()
            }),
            graph.onset_ticks@ == ticks_of(history@.samples),
            graph.breath_spans@ == spans_of(history@.samples),
    {
        let samples = history.iter();
        SemanticGraph {
            time_window: Self::time_window(history),
            pitch_window: self.pitch_window,
            trace_segments: trace_segments(&samples),
            grooves: if self.pitch_window.is_some() {
                grooves
            } else {
                Vec::new()
            },
            onset_ticks: onset_ticks(&samples),
            breath_spans: breath_spans(&samples),
        }
    }
}

/// The time window of a history: what it retains, at its full width.
pub open spec fn window_of(h: features::History) -> Option<TimeWindow> {
    match h.newest {
        Some(newest) => Some(
            TimeWindow {
                start_ms: features::cutoff(newest, h.window_ms),
                end_ms: newest,
                span_ms: h.window_ms,
            },
        ),
        None => None,
    }
}

/// Whatever the easing curve gives, an edge that the target has passed is moved
/// out to it at once: no voiced pitch is ever left outside by easing.
pub proof fn law_expansion_is_instant(
    current: PitchWindow,
    target: PitchWindow,
    min: EasedEdge,
    max: EasedEdge,
)
    ensures
        target.min.below(current.min) ==> eased_window(current, target, min, max).min
            == target.min,
        current.max.below(target.max) ==> eased_window(current, target, min, max).max
            == target.max,
{
}

/// Whether the easing curve moves an edge no further than to its target, except
/// where the edge is set to the target anyway.
pub open spec fn stops_short(from: F32, toward: F32, eased: EasedEdge) -> bool {
    ||| eased.left.below(F32 { bits: SNAP_EPSILON })
    ||| from.at_most(eased.next) && eased.next.at_most(toward)
    ||| toward.at_most(eased.next) && eased.next.at_most(from)
}

/// The window expands at once and contracts without overshoot. It is held while
/// nothing is voiced; a target with nothing in common with it replaces it; else an
/// edge that the target has passed moves out to the target, and any other edge
/// comes to stand between where it was and the target.
pub proof fn law_contraction_never_overshoots(
    current: PitchWindow,
    target: Option<PitchWindow>,
    min: EasedEdge,
    max: EasedEdge,
)
    requires
        !current.min.nan(),
        !current.max.nan(),
        target matches Some(t) ==> !t.min.nan() && !t.max.nan() && stops_short(
            current.min,
            t.min,
            min,
        ) && stops_short(current.max, t.max, max),
    ensures
        target is None ==> updated(current, target, min, max) == current,
        target matches Some(t) ==> {
            let new = updated(current, target, min, max);
            &&& current.max.below(t.min) || t.max.below(current.min) ==> new == t
            &&& !(current.max.below(t.min) || t.max.below(current.min)) ==> {
                &&& t.min.below(current.min) ==> new.min == t.min
                &&& !t.min.below(current.min) ==> current.min.at_most(new.min) && new.min.at_most(
                    t.min,
                )
                &&& current.max.below(t.max) ==> new.max == t.max
                &&& !current.max.below(t.max) ==> t.max.at_most(new.max) && new.max.at_most(
                    current.max,
                )
            }
        },
{
}

/// Once both edges stand within the snap distance the window is exactly the
/// target, and stays there.
pub proof fn law_contraction_settles_on_the_target(
    current: PitchWindow,
    target: PitchWindow,
    min: EasedEdge,
    max: EasedEdge,
)
    requires
        min.left.below(F32 { bits: SNAP_EPSILON }),
        max.left.below(F32 { bits: SNAP_EPSILON }),
    ensures
        eased_window(current, target, min, max) == target,
{
}

// ---- grooves -------------------------------------------------------------

/// The lines of slot `slot`, one for each of its pitches.
pub open spec fn slot_lines(pitches: Seq<F32>, slot: usize, active: bool) -> Seq<GrooveLine> {
    pitches.map_values(|pitch: F32| GrooveLine { pitch, slot, active })
}

/// The lines of the first `n` slots, slot by slot.
pub open spec fn lines_of(slots: Seq<Vec<F32>>, degrees: Seq<u32>, n: nat) -> Seq<GrooveLine>
    decreases n,
{
    if n == 0 {
        Seq::empty()
    } else {
        let slot = (n - 1) as nat;
        lines_of(slots, degrees, slot) + slot_lines(
            slots[slot as int]@,
            slot as usize,
            is_degree(degrees, slot),
        )
    }
}

/// Whether a slot is a degree of the scale.
pub open spec fn is_degree(degrees: Seq<u32>, slot: nat) -> bool {
    exists|i: int| 0 <= i < degrees.len() && degrees[i] as nat == slot
}

/// `lines` with `line` put behind everything that is not above it.
pub open spec fn placed(lines: Seq<GrooveLine>, line: GrooveLine) -> Seq<GrooveLine>
    decreases lines.len(),
{
    if lines.len() == 0 || lines.last().pitch.total_rank() <= line.pitch.total_rank() {
        lines.push(line)
    } else {
        placed(lines.drop_last(), line).push(lines.last())
    }
}

/// The lines from the lowest to the highest; lines of one pitch keep their order.
pub open spec fn by_pitch(lines: Seq<GrooveLine>) -> Seq<GrooveLine>
    decreases lines.len(),
{
    if lines.len() == 0 {
        lines
    } else {
        placed(by_pitch(lines.drop_last()), lines.last())
    }
}

fn has_degree(degrees: &Vec<u32>, slot: usize) -> (yes: bool)
    ensures
        yes == is_degree(degrees@, slot as nat),
{
    for i in 0..degrees.len()
        invariant
            forall|j: int| 0 <= j < i ==> degrees@[j] as nat != slot as nat,
    {
        if degrees[i] as u64 == slot as u64 {
            return true;
        }
    }
    false
}

/// Puts one line into lines that are already arranged.
fn place(lines: &mut Vec<GrooveLine>, line: GrooveLine)
    ensures
        final(lines)@ == placed(old(lines)@, line),
{
    let ghost all = lines@;
    let rank: i64 = line.pitch.total_order();
    let mut k: usize = lines.len();
    assert(all.take(all.len() as int) =~= all);
    assert(placed(all, line) =~= placed(all, line) + all.skip(all.len() as int));
    while k > 0 && lines[k - 1].pitch.total_order() > rank
        invariant
            k <= lines.len(),
            lines@ == all,
            rank == line.pitch.total_rank(),
            placed(all, line) == placed(all.take(k as int), line) + all.skip(k as int),
        decreases k,
    {
        k = k - 1;
        proof {
            let head = all.take(k + 1);
            assert(head.drop_last() =~= all.take(k as int));
            assert(placed(head, line) == placed(all.take(k as int), line).push(all[k as int]));
            assert(placed(all, line) =~= placed(all.take(k as int), line) + all.skip(k as int));
        }
    }
    proof {
        assert(placed(all.take(k as int), line) == all.take(k as int).push(line)) by {
            if k > 0 {
                assert(all.take(k as int).last() == all[k - 1]);
            }
        }
        assert(all.take(k as int).push(line) + all.skip(k as int) =~= all.insert(k as int, line));
    }
    lines.insert(k, line);
}

/// The grid lines: `slots[i]` holds the pitches that slot `i` of the tuning has
/// inside the window, and the degrees of the scale are lit. The register of the
/// scale takes no part.
pub fn groove_lines(slots: &Vec<Vec<F32>>, music: &MusicInfo) -> (lines: Vec<GrooveLine>)
    ensures
        lines@ == by_pitch(lines_of(slots@, music.scale.intervals.degrees(), slots@.len())),
{
    let lit: Vec<u32> = music.scale.intervals.degree_slots();
    let degrees: &Vec<u32> = &lit;
    let mut lines: Vec<GrooveLine> = Vec::new();
    let ghost mut unsorted: Seq<GrooveLine> = Seq::empty();
    for slot in 0..slots.len()
        invariant
            unsorted == lines_of(slots@, degrees@, slot as nat),
            lines@ == by_pitch(unsorted),
    {
        let active = has_degree(degrees, slot);
        let ghost whole = slot_lines(slots@[slot as int]@, slot, active);
        let ghost before = unsorted;
        assert(whole.take(0) =~= Seq::empty());
        assert(before + whole.take(0) =~= before);
        let pitches: &Vec<F32> = &slots[slot];
        for i in 0..pitches.len()
            invariant
                whole == slot_lines(pitches@, slot, active),
                unsorted == before + whole.take(i as int),
                lines@ == by_pitch(unsorted),
        {
            let line = GrooveLine { pitch: pitches[i], slot, active };
            proof {
                assert(whole[i as int] == line);
                let next = before + whole.take(i + 1);
                assert(next.drop_last() =~= unsorted);
                assert(next.last() == line);
                unsorted = next;
            }
            place(&mut lines, line);
        }
        proof {
            assert(whole.take(whole.len() as int) =~= whole);
            assert(unsorted == lines_of(slots@, degrees@, (slot + 1) as nat));
        }
    }
    lines
}

/// The grid lines stand in ascending order, and are the same lines.
pub proof fn law_grooves_ascend(lines: Seq<GrooveLine>)
    ensures
        forall|i: int, j: int|
            0 <= i <= j < by_pitch(lines).len() ==> by_pitch(lines)[i].pitch.total_rank()
                <= by_pitch(lines)[j].pitch.total_rank(),
        by_pitch(lines).to_multiset() == lines.to_multiset(),
    decreases lines.len(),
{
    broadcast use vstd::seq_lib::group_to_multiset_ensures;

    if lines.len() > 0 {
        law_grooves_ascend(lines.drop_last());
        lemma_placed(by_pitch(lines.drop_last()), lines.last());
        assert(lines.drop_last().push(lines.last()) =~= lines);
    }
}

proof fn lemma_placed(lines: Seq<GrooveLine>, line: GrooveLine)
    requires
        forall|i: int, j: int|
            0 <= i <= j < lines.len() ==> lines[i].pitch.total_rank()
                <= lines[j].pitch.total_rank(),
    ensures
        forall|i: int, j: int|
            0 <= i <= j < placed(lines, line).len() ==> placed(lines, line)[i].pitch.total_rank()
                <= placed(lines, line)[j].pitch.total_rank(),
        placed(lines, line).to_multiset() == lines.to_multiset().insert(line),
        placed(lines, line).len() == lines.len() + 1,
        forall|i: int|
            0 <= i < placed(lines, line).len() ==> {
                ||| (#[trigger] placed(lines, line)[i]) == line
                ||| lines.len() > 0 && placed(lines, line)[i].pitch.total_rank()
                    <= lines.last().pitch.total_rank()
            },
    decreases lines.len(),
{
    broadcast use vstd::seq_lib::group_to_multiset_ensures;

    if lines.len() == 0 || lines.last().pitch.total_rank() <= line.pitch.total_rank() {
    } else {
        let rest = lines.drop_last();
        lemma_placed(rest, line);
        let now = placed(lines, line);
        let before = placed(rest, line);
        assert(rest.push(lines.last()) =~= lines);
        assert forall|i: int| 0 <= i < now.len() implies (#[trigger] now[i]) == line
            || now[i].pitch.total_rank() <= lines.last().pitch.total_rank() by {
            if i < before.len() {
                assert(now[i] == before[i]);
                if now[i] != line {
                    assert(rest.last() == lines[lines.len() - 2]);
                }
            }
        }
        assert forall|i: int, j: int| 0 <= i <= j < now.len() implies now[i].pitch.total_rank()
            <= now[j].pitch.total_rank() by {
            if j < before.len() {
                assert(now[i] == before[i]);
                assert(now[j] == before[j]);
            } else if i < before.len() {
                assert(now[i] == before[i]);
            }
        }
        assert(lines.to_multiset() =~= rest.to_multiset().insert(lines.last()));
        assert(now.to_multiset() =~= lines.to_multiset().insert(line));
    }
}

/// Whether lines are the same but for which of them are lit.
pub open spec fn same_but_lit(one: Seq<GrooveLine>, other: Seq<GrooveLine>) -> bool {
    &&& one.len() == other.len()
    &&& forall|i: int|
        0 <= i < one.len() ==> (#[trigger] one[i]).pitch == other[i].pitch && one[i].slot
            == other[i].slot
}

proof fn lemma_lines_but_lit(slots: Seq<Vec<F32>>, one: Seq<u32>, other: Seq<u32>, n: nat)
    ensures
        same_but_lit(lines_of(slots, one, n), lines_of(slots, other, n)),
    decreases n,
{
    if n > 0 {
        lemma_lines_but_lit(slots, one, other, (n - 1) as nat);
    }
}

proof fn lemma_placed_but_lit(
    one: Seq<GrooveLine>,
    other: Seq<GrooveLine>,
    this: GrooveLine,
    that: GrooveLine,
)
    requires
        same_but_lit(one, other),
        this.pitch == that.pitch,
        this.slot == that.slot,
    ensures
        same_but_lit(placed(one, this), placed(other, that)),
    decreases one.len(),
{
    if one.len() > 0 {
        assert(one[one.len() - 1].pitch == other[other.len() - 1].pitch);
        assert(same_but_lit(one.drop_last(), other.drop_last())) by {
            assert forall|i: int| 0 <= i < one.len() - 1 implies (
            #[trigger] one.drop_last()[i]).pitch == other.drop_last()[i].pitch
                && one.drop_last()[i].slot == other.drop_last()[i].slot by {
                assert(one.drop_last()[i] == one[i]);
            }
        }
        lemma_placed_but_lit(one.drop_last(), other.drop_last(), this, that);
    }
}

proof fn lemma_by_pitch_but_lit(one: Seq<GrooveLine>, other: Seq<GrooveLine>)
    requires
        same_but_lit(one, other),
    ensures
        same_but_lit(by_pitch(one), by_pitch(other)),
    decreases one.len(),
{
    if one.len() > 0 {
        assert forall|i: int| 0 <= i < one.len() - 1 implies (#[trigger] one.drop_last()[i]).pitch
            == other.drop_last()[i].pitch && one.drop_last()[i].slot
            == other.drop_last()[i].slot by {
            assert(one.drop_last()[i] == one[i]);
        }
        lemma_by_pitch_but_lit(one.drop_last(), other.drop_last());
        assert(one[one.len() - 1].pitch == other[other.len() - 1].pitch);
        lemma_placed_but_lit(
            by_pitch(one.drop_last()),
            by_pitch(other.drop_last()),
            one.last(),
            other.last(),
        );
    }
}

/// The mask of the scale decides which grid lines are lit, and nothing else: under
/// any two masks the lines stand at the same pitches, for the same slots, in the
/// same order.
pub proof fn law_mask_changes_highlights_only(
    slots: Seq<Vec<F32>>,
    one: Seq<u32>,
    other: Seq<u32>,
)
    ensures
        same_but_lit(
            by_pitch(lines_of(slots, one, slots.len())),
            by_pitch(lines_of(slots, other, slots.len())),
        ),
{
    lemma_lines_but_lit(slots, one, other, slots.len());
    lemma_by_pitch_but_lit(
        lines_of(slots, one, slots.len()),
        lines_of(slots, other, slots.len()),
    );
}

/// The register of the scale takes no part in where the grid lines stand, nor in
/// which of them are lit.
pub proof fn law_grooves_ignore_the_register(slots: Seq<Vec<F32>>, low: MusicInfo, high: MusicInfo)
    requires
        low.scale.intervals == high.scale.intervals,
    ensures
        by_pitch(lines_of(slots, low.scale.intervals.degrees(), slots.len())) == by_pitch(
            lines_of(slots, high.scale.intervals.degrees(), slots.len()),
        ),
{
}

// ---- laws of the drawing -------------------------------------------------

/// Whether sample `i` begins a line of the trace: it is voiced, and the sample
/// before it is not there, is unvoiced, or is not the hop just before.
pub open spec fn begins_line(s: Seq<Features>, i: int) -> bool {
    s[i].pitch is Some && (i == 0 || s[i - 1].pitch is None || s[i].hop_index as int != (
    s[i - 1].hop_index + 1) % 0x1_0000_0000_0000_0000)
}

/// How many of the first `n` samples begin a line.
pub open spec fn lines_begun(s: Seq<Features>, n: int) -> int
    decreases n,
{
    if n <= 0 {
        0
    } else {
        lines_begun(s, n - 1) + (if begins_line(s, n - 1) {
            1int
        } else {
            0
        })
    }
}

/// How many samples stand between sample `i` and the beginning of its line.
pub open spec fn place_in_line(s: Seq<Features>, i: int) -> int
    decreases i,
{
    if i <= 0 || begins_line(s, i) {
        0
    } else {
        1 + place_in_line(s, i - 1)
    }
}

/// How many of the first `n` samples are voiced.
pub open spec fn voiced_before(s: Seq<Features>, n: int) -> int
    decreases n,
{
    if n <= 0 {
        0
    } else {
        voiced_before(s, n - 1) + (if s[n - 1].pitch is Some {
            1int
        } else {
            0
        })
    }
}

proof fn lemma_counts_look_back(s: Seq<Features>, n: int)
    requires
        0 <= n < s.len(),
    ensures
        lines_begun(s.drop_last(), n) == lines_begun(s, n),
        voiced_before(s.drop_last(), n) == voiced_before(s, n),
        n < s.len() - 1 ==> begins_line(s.drop_last(), n) == begins_line(s, n) && place_in_line(
            s.drop_last(),
            n,
        ) == place_in_line(s, n),
    decreases n,
{
    if n > 0 {
        lemma_counts_look_back(s, n - 1);
    }
}

/// Every voiced sample is drawn once, field by field as it was sung: it stands on
/// the line that its run of hops began, behind the samples of that run before it.
/// There are as many lines as runs, and no points but these.
pub proof fn law_voiced_samples_are_drawn_as_sung(s: Seq<Features>, i: int)
    requires
        0 <= i < s.len(),
        s[i].pitch is Some,
    ensures
        segments_of(s).len() == lines_begun(s, s.len() as int),
        end_to_end(segments_of(s)).len() == voiced_before(s, s.len() as int),
        ({
            let k = lines_begun(s, i + 1) - 1;
            let j = place_in_line(s, i);
            let point = segments_of(s)[k][j];
            &&& 0 <= k < segments_of(s).len()
            &&& 0 <= j < segments_of(s)[k].len()
            &&& point.t_ms == s[i].t_ms
            &&& point.vibrato_t_ms == s[i].vibrato_t_ms
            &&& Some(point.pitch) == s[i].pitch
            &&& point.confidence == s[i].confidence
            &&& point.vibrato_rate == s[i].vibrato_rate
            &&& point.vibrato_depth == s[i].vibrato_depth
        }),
        ({
            let point = end_to_end(segments_of(s))[voiced_before(s, i)];
            &&& 0 <= voiced_before(s, i) < end_to_end(segments_of(s)).len()
            &&& point.t_ms == s[i].t_ms
            &&& point.vibrato_t_ms == s[i].vibrato_t_ms
            &&& Some(point.pitch) == s[i].pitch
            &&& point.confidence == s[i].confidence
            &&& point.vibrato_rate == s[i].vibrato_rate
            &&& point.vibrato_depth == s[i].vibrato_depth
        }),
{
    lemma_lines_of_runs(s);
    lemma_points_in_order(s, i);
    lemma_point_on_its_line(s, i);
    law_segments_cover_the_voice(s);
}

proof fn lemma_lines_of_runs(s: Seq<Features>)
    ensures
        segments_of(s).len() == lines_begun(s, s.len() as int),
        voiced_points(s).len() == voiced_before(s, s.len() as int),
        s.len() > 0 && s.last().pitch is Some ==> segments_of(s).len() > 0
            && segments_of(s).last().len() == place_in_line(s, s.len() - 1) + 1,
    decreases s.len(),
{
    if s.len() > 0 {
        let rest = s.drop_last();
        let n = s.len() - 1;
        lemma_lines_of_runs(rest);
        lemma_counts_look_back(s, n);
        if n > 0 {
            lemma_counts_look_back(s, n - 1);
            assert(rest.last() == s[n - 1]);
        }
        assert(s.last().pitch is Some ==> (begins_line(s, n) <==> !joins(s, n)));
    }
}

proof fn lemma_points_in_order(s: Seq<Features>, i: int)
    requires
        0 <= i < s.len(),
        s[i].pitch is Some,
    ensures
        0 <= voiced_before(s, i) < voiced_points(s).len(),
        ({
            let point = voiced_points(s)[voiced_before(s, i)];
            &&& point.t_ms == s[i].t_ms
            &&& point.vibrato_t_ms == s[i].vibrato_t_ms
            &&& Some(point.pitch) == s[i].pitch
            &&& point.confidence == s[i].confidence
            &&& point.vibrato_rate == s[i].vibrato_rate
            &&& point.vibrato_depth == s[i].vibrato_depth
        }),
    decreases s.len(),
{
    let rest = s.drop_last();
    lemma_counts_look_back(s, i);
    lemma_lines_of_runs(rest);
    if i < rest.len() {
        lemma_points_in_order(rest, i);
        assert(rest[i] == s[i]);
    } else {
        assert(voiced_before(rest, i) == voiced_points(rest).len());
    }
}

proof fn lemma_point_on_its_line(s: Seq<Features>, i: int)
    requires
        0 <= i < s.len(),
        s[i].pitch is Some,
    ensures
        ({
            let k = lines_begun(s, i + 1) - 1;
            let j = place_in_line(s, i);
            let point = segments_of(s)[k][j];
            &&& 0 <= k < segments_of(s).len()
            &&& 0 <= j < segments_of(s)[k].len()
            &&& point.t_ms == s[i].t_ms
            &&& point.vibrato_t_ms == s[i].vibrato_t_ms
            &&& Some(point.pitch) == s[i].pitch
            &&& point.confidence == s[i].confidence
            &&& point.vibrato_rate == s[i].vibrato_rate
            &&& point.vibrato_depth == s[i].vibrato_depth
        }),
    decreases s.len(),
{
    let rest = s.drop_last();
    let n = s.len() - 1;
    lemma_lines_of_runs(s);
    lemma_lines_of_runs(rest);
    lemma_counts_look_back(s, n);
    law_segments_cover_the_voice(rest);
    let before = segments_of(rest);
    let now = segments_of(s);
    if n > 0 {
        assert(rest.last() == s[n - 1]);
    }
    if i < n {
        lemma_counts_look_back(s, i);
        lemma_point_on_its_line(rest, i);
        assert(rest[i] == s[i]);
        let k = lines_begun(s, i + 1) - 1;
        lemma_counts_look_back(s, i + 1);
        if s.last().pitch is Some && joins(s, n) && k == before.len() - 1 {
            let j = place_in_line(s, i);
            assert(now[k] == before[k].push(point_of(s.last())));
            assert(now[k][j] == before[k][j]);
        } else {
            assert(now[k] == before[k]);
        }
    } else {
        let k = now.len() - 1;
        assert(lines_begun(s, i + 1) - 1 == k);
        let j = place_in_line(s, i);
        assert(now[k].len() == j + 1);
        if joins(s, n) {
            assert(now[k] == before.last().push(point_of(s.last())));
        } else {
            assert(now[k] == seq![point_of(s.last())]);
        }
    }
}

/// How many of the first `n` samples are attacks.
pub open spec fn attacks_before(s: Seq<Features>, n: int) -> int
    decreases n,
{
    if n <= 0 {
        0
    } else {
        attacks_before(s, n - 1) + (if (F32 { bits: 0 }).below(s[n - 1].onset) {
            1int
        } else {
            0
        })
    }
}

proof fn lemma_attacks_look_back(s: Seq<Features>, n: int)
    requires
        0 <= n < s.len(),
    ensures
        attacks_before(s.drop_last(), n) == attacks_before(s, n),
    decreases n,
{
    if n > 0 {
        lemma_attacks_look_back(s, n - 1);
    }
}

proof fn lemma_ticks_count(s: Seq<Features>)
    ensures
        ticks_of(s).len() == attacks_before(s, s.len() as int),
    decreases s.len(),
{
    if s.len() > 0 {
        lemma_ticks_count(s.drop_last());
        lemma_attacks_look_back(s, s.len() - 1);
    }
}

/// Every sample with an onset above zero gives one tick, at its time and of its
/// strength, in order; there are no others.
pub proof fn law_attacks_are_ticked(s: Seq<Features>, i: int)
    requires
        0 <= i < s.len(),
        (F32 { bits: 0 }).below(s[i].onset),
    ensures
        ticks_of(s).len() == attacks_before(s, s.len() as int),
        0 <= attacks_before(s, i) < ticks_of(s).len(),
        ticks_of(s)[attacks_before(s, i)].t_ms == s[i].t_ms,
        ticks_of(s)[attacks_before(s, i)].strength == s[i].onset,
    decreases s.len(),
{
    let rest = s.drop_last();
    lemma_ticks_count(s);
    lemma_ticks_count(rest);
    lemma_attacks_look_back(s, i);
    if i < rest.len() {
        assert(rest[i] == s[i]);
        law_attacks_are_ticked(rest, i);
    }
}

/// Whether sample `i` breathes: its level is at least one half.
pub open spec fn breathes(s: Seq<Features>, i: int) -> bool {
    (F32 { bits: 0x3f00_0000 }).at_most(s[i].breath)
}

/// Whether sample `i` begins a breath: the sample before it is not there, does not
/// breathe, or is not the hop just before.
pub open spec fn begins_breath(s: Seq<Features>, i: int) -> bool {
    breathes(s, i) && (i == 0 || !breathes(s, i - 1) || s[i].hop_index as int != (s[i
        - 1].hop_index + 1) % 0x1_0000_0000_0000_0000)
}

/// How many of the first `n` samples begin a breath.
pub open spec fn breaths_begun(s: Seq<Features>, n: int) -> int
    decreases n,
{
    if n <= 0 {
        0
    } else {
        breaths_begun(s, n - 1) + (if begins_breath(s, n - 1) {
            1int
        } else {
            0
        })
    }
}

proof fn lemma_breaths_look_back(s: Seq<Features>, n: int)
    requires
        0 <= n < s.len(),
    ensures
        breaths_begun(s.drop_last(), n) == breaths_begun(s, n),
        n < s.len() - 1 ==> begins_breath(s.drop_last(), n) == begins_breath(s, n) && breathes(
            s.drop_last(),
            n,
        ) == breathes(s, n),
    decreases n,
{
    if n > 0 {
        lemma_breaths_look_back(s, n - 1);
    }
}

proof fn lemma_breaths_grow(s: Seq<Features>, a: int, b: int)
    requires
        0 <= a <= b,
    ensures
        breaths_begun(s, a) <= breaths_begun(s, b),
    decreases b,
{
    if a < b {
        lemma_breaths_grow(s, a, b - 1);
    }
}

/// A breath behind the end of a run is another one.
proof fn lemma_a_later_breath_is_another(s: Seq<Features>, i: int, m: int)
    requires
        0 <= i < m < s.len(),
        breathes(s, m),
        !breathes(s, i + 1) || begins_breath(s, i + 1),
    ensures
        breaths_begun(s, m + 1) > breaths_begun(s, i + 1),
    decreases m,
{
    if begins_breath(s, m) {
        lemma_breaths_grow(s, i + 1, m);
    } else {
        lemma_a_later_breath_is_another(s, i, m - 1);
    }
}

/// Every breathing sample lies in the breath that its run of hops began: that breath
/// starts at the first sample of the run, ends at its last, and its peak is no lower
/// than the sample's level and is the level of one of the run. There are as many
/// breaths as runs.
pub proof fn law_breaths_span_their_runs(s: Seq<Features>, i: int)
    requires
        0 <= i < s.len(),
        breathes(s, i),
    ensures
        spans_of(s).len() == breaths_begun(s, s.len() as int),
        ({
            let k = breaths_begun(s, i + 1) - 1;
            let span = spans_of(s)[k];
            &&& 0 <= k < spans_of(s).len()
            &&& begins_breath(s, i) ==> span.start_ms == s[i].t_ms
            &&& (i + 1 == s.len() || !breathes(s, i + 1) || begins_breath(s, i + 1))
                ==> span.end_ms == s[i].t_ms
            &&& s[i].breath.at_most(span.peak)
            &&& exists|j: int|
                0 <= j < s.len() && breathes(s, j) && breaths_begun(s, j + 1) - 1 == k
                    && span.peak == (#[trigger] s[j]).breath
        }),
    decreases s.len(),
{
    let rest = s.drop_last();
    let n = s.len() - 1;
    let before = spans_of(rest);
    let now = spans_of(s);
    lemma_breath_count(s);
    lemma_breath_count(rest);
    lemma_breaths_look_back(s, n);
    lemma_open_breath(s);
    let k = breaths_begun(s, i + 1) - 1;
    if n > 0 {
        lemma_breaths_look_back(s, n - 1);
        assert(breathes(s, n) ==> (begins_breath(s, n) <==> !continues(s, n)));
    }
    if i < n {
        lemma_breaths_look_back(s, i);
        lemma_breaths_look_back(s, i + 1);
        assert(breathes(rest, i));
        law_breaths_span_their_runs(rest, i);
        let j = choose|j: int|
            0 <= j < rest.len() && breathes(rest, j) && breaths_begun(rest, j + 1) - 1 == k
                && before[k].peak == (#[trigger] rest[j]).breath;
        lemma_breaths_look_back(s, j);
        lemma_breaths_look_back(s, j + 1);
        assert(s[j] == rest[j]);
        assert(s[i] == rest[i]);
        if breathes(s, n) && continues(s, n) && k == before.len() - 1 {
            assert(now[k].start_ms == before[k].start_ms);
            assert(now[k].peak == before[k].peak.greater(s[n].breath));
            if now[k].peak == before[k].peak {
                assert(now[k].peak == s[j].breath);
            } else {
                assert(now[k].peak == s[n].breath);
            }
            if !breathes(s, i + 1) || begins_breath(s, i + 1) {
                lemma_a_later_breath_is_another(s, i, n);
            }
            assert(breathes(s, n) && breaths_begun(s, n + 1) - 1 == k);
        } else {
            assert(now[k] == before[k]);
            assert(now[k].peak == s[j].breath);
        }
    } else {
        assert(k == now.len() - 1);
        if n > 0 && continues(s, n) {
            assert(breathes(rest, n - 1));
            law_breaths_span_their_runs(rest, n - 1);
            lemma_breaths_look_back(s, n - 1);
            let j = choose|j: int|
                0 <= j < rest.len() && breathes(rest, j) && breaths_begun(rest, j + 1) - 1 == k
                    && before[k].peak == (#[trigger] rest[j]).breath;
            lemma_breaths_look_back(s, j);
            lemma_breaths_look_back(s, j + 1);
            assert(s[j] == rest[j]);
            assert(now[k].peak == before[k].peak.greater(s[n].breath));
            if now[k].peak == before[k].peak {
                assert(now[k].peak == s[j].breath);
            } else {
                assert(now[k].peak == s[n].breath);
            }
        } else {
            assert(now[k].peak == s[n].breath);
        }
    }
}

proof fn lemma_breath_count(s: Seq<Features>)
    ensures
        spans_of(s).len() == breaths_begun(s, s.len() as int),
        s.len() > 0 && breathes(s, s.len() - 1) ==> spans_of(s).len() > 0,
    decreases s.len(),
{
    if s.len() > 0 {
        let rest = s.drop_last();
        let n = s.len() - 1;
        lemma_breath_count(rest);
        lemma_breaths_look_back(s, n);
        if n > 0 {
            lemma_breaths_look_back(s, n - 1);
            assert(rest.last() == s[n - 1]);
        }
        assert(breathes(s, n) ==> (begins_breath(s, n) <==> !continues(s, n)));
    }
}

/// The extremes are pitches that were sung, and there are none exactly where nothing
/// is voiced.
pub proof fn law_extremes_were_sung(s: Seq<Features>)
    ensures
        extremes_of(s) is None <==> forall|i: int|
            0 <= i < s.len() ==> (#[trigger] s[i]).pitch is None,
        extremes_of(s) matches Some((lo, hi)) ==> (exists|i: int|
            0 <= i < s.len() && (#[trigger] s[i]).pitch == Some(lo)) && (exists|i: int|
            0 <= i < s.len() && (#[trigger] s[i]).pitch == Some(hi)),
    decreases s.len(),
{
    if s.len() > 0 {
        let rest = s.drop_last();
        let n = s.len() - 1;
        law_extremes_were_sung(rest);
        if let Some((lo, hi)) = extremes_of(rest) {
            let a = choose|i: int| 0 <= i < rest.len() && (#[trigger] rest[i]).pitch == Some(lo);
            let b = choose|i: int| 0 <= i < rest.len() && (#[trigger] rest[i]).pitch == Some(hi);
            assert(s[a].pitch == Some(lo));
            assert(s[b].pitch == Some(hi));
            assert(s[n] == s.last());
        } else {
            assert forall|i: int| 0 <= i < n implies (#[trigger] s[i]).pitch is None by {
                assert(rest[i] == s[i]);
            }
            assert(s[n] == s.last());
        }
    }
}

/// An easing step integrates the time that went by, never backward and never more
/// than a quarter of a second; without two readings it integrates none.
pub proof fn law_easing_time_is_bounded(last: u64, now: u64, other: Option<u64>)
    ensures
        ease_time(Some(last), Some(now)) <= 250,
        last <= now <= last + 250 ==> ease_time(Some(last), Some(now)) == now - last,
        now > last + 250 ==> ease_time(Some(last), Some(now)) == 250,
        now <= last ==> ease_time(Some(last), Some(now)) == 0,
        ease_time(None, other) == 0,
        ease_time(other, None) == 0,
{
}

/// An edge that contracts is set on the target once less than a thousandth of an
/// octave is left, and stands where the curve puts it until then.
pub proof fn law_contraction_snaps_when_close(
    current: PitchWindow,
    target: PitchWindow,
    min: EasedEdge,
    max: EasedEdge,
)
    ensures
        !target.min.below(current.min) && min.left.below(F32 { bits: 0x3a83_126f }) ==> eased_window(
            current,
            target,
            min,
            max,
        ).min == target.min,
        !target.min.below(current.min) && !min.left.below(F32 { bits: 0x3a83_126f })
            ==> eased_window(current, target, min, max).min == min.next,
        !current.max.below(target.max) && max.left.below(F32 { bits: 0x3a83_126f }) ==> eased_window(
            current,
            target,
            min,
            max,
        ).max == target.max,
        !current.max.below(target.max) && !max.left.below(F32 { bits: 0x3a83_126f })
            ==> eased_window(current, target, min, max).max == max.next,
{
}

/// The window is refitted at once exactly where the target lies wholly above or
/// wholly below it.
pub proof fn law_windows_apart(target: PitchWindow, current: PitchWindow)
    ensures
        apart(target, current) <==> (current.max.below(target.min) || target.max.below(
            current.min,
        )),
        !current.min.nan() && !current.max.nan() && current.min.at_most(current.max) ==> !apart(
            current,
            current,
        ),
{
}

/// Every pitch of every slot gives one grid line at that pitch, for that slot, lit
/// exactly where the slot is a degree; the lines of all slots are these and no
/// others.
pub proof fn law_slots_give_their_lines(
    slots: Seq<Vec<F32>>,
    degrees: Seq<u32>,
    n: nat,
    slot: int,
    i: int,
)
    requires
        n <= slots.len(),
        slots.len() <= usize::MAX,
        0 <= slot < n,
        0 <= i < slots[slot]@.len(),
    ensures
        lines_of(slots, degrees, n).len() == pitches_in(slots, n as int),
        ({
            let at = pitches_in(slots, slot) + i;
            let line = lines_of(slots, degrees, n)[at];
            &&& 0 <= at < lines_of(slots, degrees, n).len()
            &&& line.pitch == slots[slot]@[i]
            &&& line.slot == slot
            &&& line.active <==> exists|d: int| 0 <= d < degrees.len() && degrees[d] == slot
        }),
    decreases n,
{
    lemma_line_count(slots, degrees, n);
    lemma_line_count(slots, degrees, (n - 1) as nat);
    if slot < n - 1 {
        law_slots_give_their_lines(slots, degrees, (n - 1) as nat, slot, i);
    } else {
        let lit = is_degree(degrees, slot as nat);
        assert(lit <==> exists|d: int| 0 <= d < degrees.len() && degrees[d] == slot) by {
            if lit {
                let d = choose|d: int|
                    0 <= d < degrees.len() && degrees[d] as nat == slot as nat;
                assert(degrees[d] == slot);
            }
            if exists|d: int| 0 <= d < degrees.len() && degrees[d] == slot {
                let d = choose|d: int| 0 <= d < degrees.len() && degrees[d] == slot;
                assert(degrees[d] as nat == slot as nat);
            }
        }
    }
}

/// How many pitches the first `n` slots have.
pub open spec fn pitches_in(slots: Seq<Vec<F32>>, n: int) -> int
    decreases n,
{
    if n <= 0 {
        0
    } else {
        pitches_in(slots, n - 1) + slots[n - 1]@.len()
    }
}

proof fn lemma_line_count(slots: Seq<Vec<F32>>, degrees: Seq<u32>, n: nat)
    ensures
        lines_of(slots, degrees, n).len() == pitches_in(slots, n as int),
        pitches_in(slots, n as int) >= 0,
    decreases n,
{
    if n > 0 {
        lemma_line_count(slots, degrees, (n - 1) as nat);
    }
}

/// The graph shows the full width of the history, ending at its newest sample.
pub proof fn law_window_shows_the_history(h: features::History)
    ensures
        window_of(h) is None <==> h.newest is None,
        window_of(h) matches Some(w) ==> Some(w.end_ms) == h.newest && w.span_ms == h.window_ms
            && w.start_ms <= w.end_ms && (w.end_ms >= h.window_ms ==> w.start_ms == w.end_ms
            - h.window_ms) && (w.end_ms < h.window_ms ==> w.start_ms == 0),
{
}

/// The lines of segments are their points, segment by segment.
pub proof fn law_segments_are_their_points(segments: Seq<TraceSegment>, i: int)
    ensures
        segment_points(segments).len() == segments.len(),
        0 <= i < segments.len() ==> segment_points(segments)[i] == segments[i].points@,
{
}

/// Lines that already stand from the lowest to the highest stay as they are, also
/// where several have one pitch.
pub proof fn law_arranged_lines_stay(lines: Seq<GrooveLine>)
    requires
        forall|i: int, j: int|
            0 <= i < j < lines.len() ==> lines[i].pitch.total_rank() <= lines[j].pitch.total_rank(),
    ensures
        by_pitch(lines) == lines,
    decreases lines.len(),
{
    if lines.len() > 0 {
        let rest = lines.drop_last();
        assert forall|i: int, j: int| 0 <= i < j < rest.len() implies rest[i].pitch.total_rank()
            <= rest[j].pitch.total_rank() by {
            assert(rest[i] == lines[i] && rest[j] == lines[j]);
        }
        law_arranged_lines_stay(rest);
        if rest.len() > 0 {
            assert(rest.last() == lines[lines.len() - 2]);
            assert(lines.last() == lines[lines.len() - 1]);
        }
        assert(rest.push(lines.last()) =~= lines);
    }
}

}
