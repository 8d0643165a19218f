//! Projection of the semantic graph onto the two axes of the lane.
//!
//! Whether something is shown is decided here, in milliseconds and in pitch. A
//! position in time is kept as an exact fraction of the window; a position in
//! pitch as the pitch itself.

use vstd::prelude::*;
use crate::ieee::F32;
use crate::semantic_graph::{
    BreathSpan, GrooveLine, OnsetTick, PitchWindow, SemanticGraph, TimeWindow, TracePoint,
    TraceSegment,
};
use crate::semantic_graph;

verus! {

/// Points in the window that smooths the half-heights of the band.
pub const BAND_SMOOTH_WINDOW: usize = 5;

/// Points in the window that smooths the centre of the band.
pub const BAND_CENTER_SMOOTH_WINDOW: usize = 9;

/// A position on the time axis: `age_ms` to the left of now, on an axis that is
/// `span_ms` wide. As a fraction of the width it is `1 - age_ms / span_ms`.
#[derive(Clone, Copy, PartialEq, Eq, Structural, Debug)]
pub struct TimePos {
    pub age_ms: u64,
    pub span_ms: u64,
}

/// A trace point that lies inside both windows. The trace and the vibrato band
/// are drawn from the same list of these.
#[derive(Clone, Copy, PartialEq, Eq, Structural, Debug)]
pub struct SurvivingPoint {
    /// When the pitch was sung.
    pub at: TimePos,
    /// The pitch.
    pub pitch: F32,
    /// When the vibrato was sung, where that is inside the window.
    pub vibrato_at: Option<TimePos>,
    /// The depth of the vibrato.
    pub vibrato_depth: F32,
    /// The confidence, which drives the opacity of both series.
    pub confidence: F32,
}

/// An attack in its place.
#[derive(Clone, Copy, PartialEq, Eq, Structural, Debug)]
pub struct PlacedTick {
    pub at: TimePos,
    pub strength: F32,
}

/// A breath in its place, clipped to the window.
#[derive(Clone, Copy, PartialEq, Eq, Structural, Debug)]
pub struct PlacedSpan {
    pub from: TimePos,
    pub to: TimePos,
    pub peak: F32,
}

/// The scene that is painted.
pub struct TimeGraphScene {
    pub segments: Vec<Vec<SurvivingPoint>>,
    pub grooves: Vec<GrooveLine>,
    pub onset_ticks: Vec<PlacedTick>,
    pub breath_spans: Vec<PlacedSpan>,
}

// ---- the time axis -------------------------------------------------------

/// Where an instant stands; nowhere if it lies outside the window or the window
/// has no width. The width is the full one from the first frame on, so that the
/// scrolling speed is constant and now is always at the right edge.
pub open spec fn time_pos(t_ms: u64, window: TimeWindow) -> Option<TimePos> {
    if window.span_ms == 0 || t_ms < window.start_ms || t_ms > window.end_ms {
        None
    } else {
        Some(TimePos { age_ms: (window.end_ms - t_ms) as u64, span_ms: window.span_ms })
    }
}

/// Where an end of an interval stands, moved to the edge where it lies outside.
pub open spec fn clamped_pos(t_ms: u64, window: TimeWindow) -> Option<TimePos> {
    if window.span_ms == 0 {
        None
    } else {
        let age = if t_ms >= window.end_ms {
            0
        } else {
            window.end_ms - t_ms
        };
        Some(
            TimePos {
                age_ms: if age > window.span_ms {
                    window.span_ms
                } else {
                    age as u64
                },
                span_ms: window.span_ms,
            },
        )
    }
}

/// Where an instant stands, or `None` where it is not shown.
pub fn normalize_time(t_ms: u64, window: TimeWindow) -> (pos: Option<TimePos>)
    ensures
        pos == time_pos(t_ms, window),
{
    if window.span_ms == 0 || t_ms < window.start_ms || t_ms > window.end_ms {
        None
    } else {
        Some(TimePos { age_ms: window.end_ms - t_ms, span_ms: window.span_ms })
    }
}

/// Where an end of an interval stands, clipped to the axis.
pub fn clamp_time(t_ms: u64, window: TimeWindow) -> (pos: Option<TimePos>)
    ensures
        pos == clamped_pos(t_ms, window),
{
    if window.span_ms == 0 {
        return None;
    }
    let age: u64 = window.end_ms.saturating_sub(t_ms);
    let age_ms: u64 = if age > window.span_ms {
        window.span_ms
    } else {
        age
    };
    Some(TimePos { age_ms, span_ms: window.span_ms })
}

// ---- the pitch axis ------------------------------------------------------

/// Whether a pitch is shown, `span` being the height of the window: the height
/// is not zero or less, and the pitch does not lie outside.
pub open spec fn pitch_shown(pitch: F32, window: PitchWindow, span: F32) -> bool {
    !span.at_most(F32 { bits: 0 }) && !pitch.below(window.min) && !window.max.below(pitch)
}

/// Whether a pitch is shown, `span` being the height of the window.
pub fn shows_pitch(pitch: F32, window: PitchWindow, span: F32) -> (yes: bool)
    ensures
        yes == pitch_shown(pitch, window, span),
{
    !span.le(F32 { bits: 0 }) && !pitch.lt(window.min) && !window.max.lt(pitch)
}

// ---- trace points --------------------------------------------------------

/// What becomes of a trace point.
pub open spec fn survivor(p: TracePoint, time: TimeWindow, pitch: PitchWindow, span: F32) -> Option<
    SurvivingPoint,
> {
    if time_pos(p.t_ms, time) is Some && pitch_shown(p.pitch, pitch, span) {
        Some(
            SurvivingPoint {
                at: time_pos(p.t_ms, time)->0,
                pitch: p.pitch,
                vibrato_at: time_pos(p.vibrato_t_ms, time),
                vibrato_depth: p.vibrato_depth,
                confidence: p.confidence,
            },
        )
    } else {
        None
    }
}

/// The points of a line that survive, in order.
pub open spec fn survivors(
    points: Seq<TracePoint>,
    time: TimeWindow,
    pitch: PitchWindow,
    span: F32,
) -> Seq<SurvivingPoint>
    decreases points.len(),
{
    if points.len() == 0 {
        Seq::empty()
    } else {
        let before = survivors(points.drop_last(), time, pitch, span);
        match survivor(points.last(), time, pitch, span) {
            Some(s) => before.push(s),
            None => before,
        }
    }
}

/// The points of a segment inside both windows. Points outside are dropped, not
/// moved to the edge.
pub fn filter_in_window(
    segment: &TraceSegment,
    time: TimeWindow,
    pitch: PitchWindow,
    span: F32,
) -> (kept: Vec<SurvivingPoint>)
    ensures
        kept@ == survivors(segment.points@, time, pitch, span),
{
    let mut kept: Vec<SurvivingPoint> = Vec::new();
    let points: &Vec<TracePoint> = &segment.points;
    for i in 0..points.len()
        invariant
            kept@ == survivors(points@.take(i as int), time, pitch, span),
    {
        assert(points@.take(i + 1).drop_last() =~= points@.take(i as int));
        let p = points[i];
        if let Some(at) = normalize_time(p.t_ms, time) {
            if shows_pitch(p.pitch, pitch, span) {
                kept.push(
                    SurvivingPoint {
                        at,
                        pitch: p.pitch,
                        vibrato_at: normalize_time(p.vibrato_t_ms, time),
                        vibrato_depth: p.vibrato_depth,
                        confidence: p.confidence,
                    },
                );
            }
        }
    }
    assert(points@.take(points@.len() as int) =~= points@);
    kept
}

/// The lines that still have a point, in order.
pub open spec fn shown_segments(
    segments: Seq<Seq<TracePoint>>,
    time: TimeWindow,
    pitch: PitchWindow,
    span: F32,
) -> Seq<Seq<SurvivingPoint>>
    decreases segments.len(),
{
    if segments.len() == 0 {
        Seq::empty()
    } else {
        let before = shown_segments(segments.drop_last(), time, pitch, span);
        let kept = survivors(segments.last(), time, pitch, span);
        if kept.len() == 0 {
            before
        } else {
            before.push(kept)
        }
    }
}

/// The points of each line.
pub open spec fn rows(segments: Seq<Vec<SurvivingPoint>>) -> Seq<Seq<SurvivingPoint>> {
    segments.map_values(|s: Vec<SurvivingPoint>| s@)
}

fn project_segments(
    segments: &Vec<TraceSegment>,
    time: TimeWindow,
    pitch: PitchWindow,
    span: F32,
) -> (shown: Vec<Vec<SurvivingPoint>>)
    ensures
        rows(shown@) == shown_segments(
            semantic_graph::segment_points(segments@),
            time,
            pitch,
            span,
        ),
{
    let mut shown: Vec<Vec<SurvivingPoint>> = Vec::new();
    let ghost all = semantic_graph::segment_points(segments@);
    assert(rows(shown@) =~= Seq::empty());
    for i in 0..segments.len()
        invariant
            all == semantic_graph::segment_points(segments@),
            rows(shown@) == shown_segments(all.take(i as int), time, pitch, span),
    {
        assert(all.take(i + 1).drop_last() =~= all.take(i as int));
        assert(all.take(i + 1).last() == segments@[i as int].points@);
        let kept = filter_in_window(&segments[i], time, pitch, span);
        if kept.len() > 0 {
            let ghost before = shown@;
            let ghost row = kept@;
            shown.push(kept);
            assert(rows(shown@) =~= rows(before).push(row));
        }
    }
    assert(all.take(all.len() as int) =~= all);
    shown
}

// ---- grooves, ticks and spans --------------------------------------------

/// The grid lines inside the pitch window, in order.
pub open spec fn shown_grooves(lines: Seq<GrooveLine>, pitch: PitchWindow, span: F32) -> Seq<
    GrooveLine,
>
    decreases lines.len(),
{
    if lines.len() == 0 {
        Seq::empty()
    } else {
        let before = shown_grooves(lines.drop_last(), pitch, span);
        if pitch_shown(lines.last().pitch, pitch, span) {
            before.push(lines.last())
        } else {
            before
        }
    }
}

fn project_grooves(lines: &Vec<GrooveLine>, pitch: PitchWindow, span: F32) -> (shown: Vec<
    GrooveLine,
>)
    ensures
        shown@ == shown_grooves(lines@, pitch, span),
{
    let mut shown: Vec<GrooveLine> = Vec::new();
    for i in 0..lines.len()
        invariant
            shown@ == shown_grooves(lines@.take(i as int), pitch, span),
    {
        assert(lines@.take(i + 1).drop_last() =~= lines@.take(i as int));
        if shows_pitch(lines[i].pitch, pitch, span) {
            shown.push(lines[i]);
        }
    }
    assert(lines@.take(lines@.len() as int) =~= lines@);
    shown
}

/// The attacks inside the time window, in order.
pub open spec fn shown_ticks(ticks: Seq<OnsetTick>, time: TimeWindow) -> Seq<PlacedTick>
    decreases ticks.len(),
{
    if ticks.len() == 0 {
        Seq::empty()
    } else {
        let before = shown_ticks(ticks.drop_last(), time);
        match time_pos(ticks.last().t_ms, time) {
            Some(at) => before.push(PlacedTick { at, strength: ticks.last().strength }),
            None => before,
        }
    }
}

fn project_ticks(ticks: &Vec<OnsetTick>, time: TimeWindow) -> (shown: Vec<PlacedTick>)
    ensures
        shown@ == shown_ticks(ticks@, time),
{
    let mut shown: Vec<PlacedTick> = Vec::new();
    for i in 0..ticks.len()
        invariant
            shown@ == shown_ticks(ticks@.take(i as int), time),
    {
        assert(ticks@.take(i + 1).drop_last() =~= ticks@.take(i as int));
        if let Some(at) = normalize_time(ticks[i].t_ms, time) {
            shown.push(PlacedTick { at, strength: ticks[i].strength });
        }
    }
    assert(ticks@.take(ticks@.len() as int) =~= ticks@);
    shown
}

/// Where a breath stands. It covers an interval, so one that reaches over the
/// edge is clipped; only one that lies entirely outside is dropped.
pub open spec fn placed_span(span: BreathSpan, time: TimeWindow) -> Option<PlacedSpan> {
    if span.end_ms < time.start_ms || span.start_ms > time.end_ms || time.span_ms == 0 {
        None
    } else {
        Some(
            PlacedSpan {
                from: clamped_pos(span.start_ms, time)->0,
                to: clamped_pos(span.end_ms, time)->0,
                peak: span.peak,
            },
        )
    }
}

/// Where a breath stands, or `None` where it is not shown.
pub fn normalize_breath_span(span: BreathSpan, time: TimeWindow) -> (placed: Option<PlacedSpan>)
    ensures
        placed == placed_span(span, time),
{
    if span.end_ms < time.start_ms || span.start_ms > time.end_ms {
        return None;
    }
    match (clamp_time(span.start_ms, time), clamp_time(span.end_ms, time)) {
        (Some(from), Some(to)) => Some(PlacedSpan { from, to, peak: span.peak }),
        _ => None,
    }
}

/// The breaths that are shown, in order.
pub open spec fn shown_spans(spans: Seq<BreathSpan>, time: TimeWindow) -> Seq<PlacedSpan>
    decreases spans.len(),
{
    if spans.len() == 0 {
        Seq::empty()
    } else {
        let before = shown_spans(spans.drop_last(), time);
        match placed_span(spans.last(), time) {
            Some(s) => before.push(s),
            None => before,
        }
    }
}

fn project_spans(spans: &Vec<BreathSpan>, time: TimeWindow) -> (shown: Vec<PlacedSpan>)
    ensures
        shown@ == shown_spans(spans@, time),
{
    let mut shown: Vec<PlacedSpan> = Vec::new();
    for i in 0..spans.len()
        invariant
            shown@ == shown_spans(spans@.take(i as int), time),
    {
        assert(spans@.take(i + 1).drop_last() =~= spans@.take(i as int));
        if let Some(s) = normalize_breath_span(spans[i], time) {
            shown.push(s);
        }
    }
    assert(spans@.take(spans@.len() as int) =~= spans@);
    shown
}

// ---- the scene -----------------------------------------------------------

/// The scene of a graph, `pitch_span` being the height of its pitch window.
/// Without a time window there is nothing; without a pitch window there are only
/// the events, which need no vertical axis.
pub fn project_scene(graph: &SemanticGraph, pitch_span: F32) -> (scene: TimeGraphScene)
    ensures
        graph.time_window is None ==> scene.segments@.len() == 0 && scene.grooves@.len() == 0
            && scene.onset_ticks@.len() == 0 && scene.breath_spans@.len() == 0,
        graph.time_window matches Some(time) ==> {
            &&& scene.onset_ticks@ == shown_ticks(graph.onset_ticks@, time)
            &&& scene.breath_spans@ == shown_spans(graph.breath_spans@, time)
            &&& graph.pitch_window is None ==> scene.segments@.len() == 0
                && scene.grooves@.len() == 0
            &&& graph.pitch_window matches Some(pitch) ==> {
                &&& scene.grooves@ == shown_grooves(graph.grooves@, pitch, pitch_span)
                &&& rows(scene.segments@) == shown_segments(
                    semantic_graph::segment_points(graph.trace_segments@),
                    time,
                    pitch,
                    pitch_span,
                )
            }
        },
{
    let time = match graph.time_window {
        Some(time) => time,
        None => {
            return TimeGraphScene {
                segments: Vec::new(),
                grooves: Vec::new(),
                onset_ticks: Vec::new(),
                breath_spans: Vec::new(),
            };
        },
    };
    let onset_ticks = project_ticks(&graph.onset_ticks, time);
    let breath_spans = project_spans(&graph.breath_spans, time);
    match graph.pitch_window {
        Some(pitch) => TimeGraphScene {
            segments: project_segments(&graph.trace_segments, time, pitch, pitch_span),
            grooves: project_grooves(&graph.grooves, pitch, pitch_span),
            onset_ticks,
            breath_spans,
        },
        None => TimeGraphScene {
            segments: Vec::new(),
            grooves: Vec::new(),
            onset_ticks,
            breath_spans,
        },
    }
}

// ---- the vibrato band ----------------------------------------------------

/// The indices that a smoothing window of `window` points around `i` averages:
/// from the first, up to but without the second. At the ends of the list the
/// window is smaller.
pub open spec fn window_around(i: int, window: int, n: int) -> (int, int) {
    let half = window / 2;
    (
        if i >= half {
            i - half
        } else {
            0
        },
        if i + half + 1 <= n {
            i + half + 1
        } else {
            n
        },
    )
}

/// The indices that a smoothing window of at least one point around `i` averages. A
/// window of one point averages that point alone.
pub fn smooth_range(i: usize, window: usize, n: usize) -> (range: (usize, usize))
    requires
        i < n,
        window >= 1,
        n + window <= usize::MAX,
    ensures
        range.0 as int == window_around(i as int, window as int, n as int).0,
        range.1 as int == window_around(i as int, window as int, n as int).1,
        range.0 <= i < range.1 <= n,
        window == 1 ==> range.0 == i && range.1 == i + 1,
{
    let half: usize = window / 2;
    let lo: usize = if i >= half {
        i - half
    } else {
        0
    };
    let hi: usize = if i + half + 1 <= n {
        i + half + 1
    } else {
        n
    };
    (lo, hi)
}

/// Which values the band centre is taken from.
#[derive(Clone, Copy, PartialEq, Eq, Structural, Debug)]
pub enum CenterSample {
    /// There is no value.
    Empty,
    /// The value of this index.
    At(usize),
    /// Between the value of this index and the next.
    Between(usize),
}

/// Whether the positions never decrease and all are numbers.
pub open spec fn ascending(xs: Seq<F32>) -> bool {
    &&& forall|i: int| 0 <= i < xs.len() ==> !(#[trigger] xs[i]).nan()
    &&& forall|i: int, j: int| 0 <= i <= j < xs.len() ==> xs[i].rank() <= xs[j].rank()
}

/// Which of the values at `xs` a query position is interpolated from. Outside
/// the positions the nearest end is taken.
pub fn sample_center_at_x(xs: &Vec<F32>, query: F32) -> (sample: CenterSample)
    ensures
        match sample {
            CenterSample::Empty => xs@.len() == 0,
            CenterSample::At(i) => i < xs@.len(),
            CenterSample::Between(i) => i + 1 < xs@.len(),
        },
        xs@.len() > 0 && (xs@.len() == 1 || query.at_most(xs@[0])) ==> sample == CenterSample::At(0),
        xs@.len() > 1 && !query.at_most(xs@[0]) && xs@.last().at_most(query) ==> sample
            == CenterSample::At((xs@.len() - 1) as usize),
        xs@.len() > 1 && ascending(xs@) && xs@[0].below(query) && query.below(xs@.last()) ==> (
        sample matches CenterSample::Between(i) && xs@[i as int].at_most(query) && query.below(
            xs@[i + 1],
        )),
{
    let n: usize = xs.len();
    if n == 0 {
        return CenterSample::Empty;
    }
    if n == 1 || query.le(xs[0]) {
        return CenterSample::At(0);
    }
    if xs[n - 1].le(query) {
        return CenterSample::At(n - 1);
    }
    let mut lo: usize = 0;
    let mut hi: usize = n - 1;
    while hi - lo > 1
        invariant
            n == xs@.len(),
            lo < hi < n,
            ascending(xs@) && xs@[0].below(query) && query.below(xs@[n - 1]) ==> xs@[lo as int].at_most(query)
                && query.below(xs@[hi as int]),
        decreases hi - lo,
    {
        let mid: usize = lo + (hi - lo) / 2;
        if xs[mid].le(query) {
            lo = mid;
        } else {
            hi = mid;
        }
    }
    CenterSample::Between(lo)
}

/// One point of the band: where it stands in time, and what its centre is taken
/// from. Both speak of the same moment.
#[derive(Clone, Copy, PartialEq, Eq, Structural, Debug)]
pub struct BandPoint {
    pub at: TimePos,
    pub center: CenterSample,
    pub confidence: F32,
}

/// Aligns the band with the moment in which the vibrato was sung: a point whose
/// vibrato is inside the window stands at that time and takes its centre from
/// there (`vibrato_xs[i]` being that time as a fraction of the width); any other
/// point keeps its own time and its own centre.
pub fn pdc_align(points: &Vec<SurvivingPoint>, xs: &Vec<F32>, vibrato_xs: &Vec<F32>) -> (band: Vec<
    BandPoint,
>)
    requires
        xs@.len() == points@.len(),
        vibrato_xs@.len() == points@.len(),
    ensures
        band@.len() == points@.len(),
        forall|i: int|
            0 <= i < band@.len() ==> {
                let p = points@[i];
                let b = #[trigger] band@[i];
                &&& b.confidence == p.confidence
                &&& p.vibrato_at is None ==> b.at == p.at && b.center == CenterSample::At(
                    i as usize,
                )
                &&& p.vibrato_at matches Some(v) ==> b.at == v && aligned(
                    xs@,
                    vibrato_xs@[i],
                    b.center,
                )
            },
{
    let mut band: Vec<BandPoint> = Vec::new();
    for i in 0..points.len()
        invariant
            xs@.len() == points@.len(),
            vibrato_xs@.len() == points@.len(),
            band@.len() == i,
            forall|k: int|
                0 <= k < band@.len() ==> {
                    let p = points@[k];
                    let b = #[trigger] band@[k];
                    &&& b.confidence == p.confidence
                    &&& p.vibrato_at is None ==> b.at == p.at && b.center == CenterSample::At(
                        k as usize,
                    )
                    &&& p.vibrato_at matches Some(v) ==> b.at == v && aligned(
                        xs@,
                        vibrato_xs@[k],
                        b.center,
                    )
                },
    {
        let p = points[i];
        let (at, center) = match p.vibrato_at {
            Some(at) => (at, sample_center_at_x(xs, vibrato_xs[i])),
            None => (p.at, CenterSample::At(i)),
        };
        band.push(BandPoint { at, center, confidence: p.confidence });
    }
    band
}

/// Whether a centre is taken from around the position `query`.
pub open spec fn aligned(xs: Seq<F32>, query: F32, center: CenterSample) -> bool {
    match center {
        CenterSample::Empty => xs.len() == 0,
        CenterSample::At(i) => i < xs.len() && (ascending(xs) && !query.nan() ==> (i == 0 && (
        xs.len() == 1 || query.at_most(xs[0]))) || (i + 1 == xs.len() && xs.last().at_most(query))),
        CenterSample::Between(i) => i + 1 < xs.len() && (ascending(xs) && !query.nan()
            ==> xs[i as int].at_most(query) && query.below(xs[i + 1])),
    }
}

// ---- laws ----------------------------------------------------------------

/// Every point that is drawn lies inside both windows: none is moved to the edge.
pub proof fn law_drawn_points_lie_inside(
    points: Seq<TracePoint>,
    time: TimeWindow,
    pitch: PitchWindow,
    span: F32,
    k: int,
)
    requires
        0 <= k < survivors(points, time, pitch, span).len(),
    ensures
        exists|i: int|
            0 <= i < points.len() && survivor(#[trigger] points[i], time, pitch, span) == Some(
                survivors(points, time, pitch, span)[k],
            ) && time.start_ms <= points[i].t_ms <= time.end_ms,
    decreases points.len(),
{
    let rest = points.drop_last();
    let before = survivors(rest, time, pitch, span);
    if k < before.len() {
        law_drawn_points_lie_inside(rest, time, pitch, span, k);
        let i = choose|i: int|
            0 <= i < rest.len() && survivor(#[trigger] rest[i], time, pitch, span) == Some(
                before[k],
            ) && time.start_ms <= rest[i].t_ms <= time.end_ms;
        assert(points[i] == rest[i]);
    } else {
        let i = points.len() - 1;
        assert(survivor(points[i], time, pitch, span) is Some);
    }
}

/// Every point inside both windows is drawn.
pub proof fn law_points_inside_are_drawn(
    points: Seq<TracePoint>,
    time: TimeWindow,
    pitch: PitchWindow,
    span: F32,
    i: int,
)
    requires
        0 <= i < points.len(),
        survivor(points[i], time, pitch, span) is Some,
    ensures
        survivors(points, time, pitch, span).contains(
            survivor(points[i], time, pitch, span)->0,
        ),
    decreases points.len(),
{
    let s = survivor(points[i], time, pitch, span)->0;
    let rest = points.drop_last();
    let now = survivors(points, time, pitch, span);
    if i < rest.len() {
        law_points_inside_are_drawn(rest, time, pitch, span, i);
        let before = survivors(rest, time, pitch, span);
        let k = choose|k: int| 0 <= k < before.len() && before[k] == s;
        assert(now[k] == s);
    } else {
        assert(now[now.len() - 1] == s);
    }
}

/// Now stands at the right edge, and what is older stands further left, in
/// proportion to its age.
pub proof fn law_time_runs_to_the_right(t: u64, u: u64, window: TimeWindow)
    requires
        time_pos(t, window) is Some,
        time_pos(u, window) is Some,
        t <= u,
    ensures
        time_pos(t, window)->0.age_ms - time_pos(u, window)->0.age_ms == u - t,
        time_pos(t, window)->0.span_ms == time_pos(u, window)->0.span_ms,
        time_pos(window.end_ms, window) == Some(
            TimePos { age_ms: 0, span_ms: window.span_ms },
        ),
{
}

/// A breath that is shown lies on the axis, from left to right.
pub proof fn law_breaths_are_clipped_to_the_axis(span: BreathSpan, time: TimeWindow)
    requires
        placed_span(span, time) is Some,
        span.start_ms <= span.end_ms,
    ensures
        placed_span(span, time)->0.to.age_ms <= placed_span(span, time)->0.from.age_ms
            <= time.span_ms,
{
}

/// Whether a point lies inside both windows: its time between the first and the last
/// moment of a window that has a width, its pitch neither below the least nor above
/// the greatest of one that has a height.
pub open spec fn point_inside(p: TracePoint, time: TimeWindow, pitch: PitchWindow, span: F32) -> bool {
    &&& time.span_ms > 0
    &&& time.start_ms <= p.t_ms <= time.end_ms
    &&& !span.at_most(F32 { bits: 0 })
    &&& !p.pitch.below(pitch.min)
    &&& !pitch.max.below(p.pitch)
}

/// How many of the first `n` points lie inside both windows.
pub open spec fn points_inside(
    points: Seq<TracePoint>,
    time: TimeWindow,
    pitch: PitchWindow,
    span: F32,
    n: int,
) -> int
    decreases n,
{
    if n <= 0 {
        0
    } else {
        points_inside(points, time, pitch, span, n - 1) + (if point_inside(
            points[n - 1],
            time,
            pitch,
            span,
        ) {
            1int
        } else {
            0
        })
    }
}

proof fn lemma_points_look_back(
    points: Seq<TracePoint>,
    time: TimeWindow,
    pitch: PitchWindow,
    span: F32,
    n: int,
)
    requires
        0 <= n < points.len(),
    ensures
        points_inside(points.drop_last(), time, pitch, span, n) == points_inside(
            points,
            time,
            pitch,
            span,
            n,
        ),
    decreases n,
{
    if n > 0 {
        lemma_points_look_back(points, time, pitch, span, n - 1);
    }
}

proof fn lemma_survivors_count(
    points: Seq<TracePoint>,
    time: TimeWindow,
    pitch: PitchWindow,
    span: F32,
)
    ensures
        survivors(points, time, pitch, span).len() == points_inside(
            points,
            time,
            pitch,
            span,
            points.len() as int,
        ),
    decreases points.len(),
{
    if points.len() > 0 {
        lemma_survivors_count(points.drop_last(), time, pitch, span);
        lemma_points_look_back(points, time, pitch, span, points.len() - 1);
    }
}

/// Every point inside both windows is drawn, in order and as it was sung: at its age
/// before now, at its pitch, with its depth and confidence, and with its vibrato at
/// the age that the vibrato has, where that is inside the window. No other point is.
pub proof fn law_points_are_drawn_as_sung(
    points: Seq<TracePoint>,
    time: TimeWindow,
    pitch: PitchWindow,
    span: F32,
    i: int,
)
    requires
        0 <= i < points.len(),
        point_inside(points[i], time, pitch, span),
    ensures
        survivors(points, time, pitch, span).len() == points_inside(
            points,
            time,
            pitch,
            span,
            points.len() as int,
        ),
        ({
            let p = points[i];
            let k = points_inside(points, time, pitch, span, i);
            let kept = survivors(points, time, pitch, span)[k];
            &&& 0 <= k < survivors(points, time, pitch, span).len()
            &&& kept.at.age_ms == time.end_ms - p.t_ms
            &&& kept.at.span_ms == time.span_ms
            &&& kept.pitch == p.pitch
            &&& kept.vibrato_depth == p.vibrato_depth
            &&& kept.confidence == p.confidence
            &&& kept.vibrato_at is Some <==> time.start_ms <= p.vibrato_t_ms <= time.end_ms
            &&& kept.vibrato_at matches Some(v) ==> v.age_ms == time.end_ms - p.vibrato_t_ms
                && v.span_ms == time.span_ms
        }),
    decreases points.len(),
{
    let rest = points.drop_last();
    lemma_survivors_count(points, time, pitch, span);
    lemma_survivors_count(rest, time, pitch, span);
    lemma_points_look_back(points, time, pitch, span, i);
    if i < rest.len() {
        assert(rest[i] == points[i]);
        law_points_are_drawn_as_sung(rest, time, pitch, span, i);
    }
}

/// Whether some point of a line lies inside both windows.
pub open spec fn line_inside(
    points: Seq<TracePoint>,
    time: TimeWindow,
    pitch: PitchWindow,
    span: F32,
) -> bool {
    exists|i: int| 0 <= i < points.len() && point_inside(#[trigger] points[i], time, pitch, span)
}

/// How many of the first `n` lines have a point inside both windows.
pub open spec fn lines_inside(
    segments: Seq<Seq<TracePoint>>,
    time: TimeWindow,
    pitch: PitchWindow,
    span: F32,
    n: int,
) -> int
    decreases n,
{
    if n <= 0 {
        0
    } else {
        lines_inside(segments, time, pitch, span, n - 1) + (if line_inside(
            segments[n - 1],
            time,
            pitch,
            span,
        ) {
            1int
        } else {
            0
        })
    }
}

proof fn lemma_line_survives(
    points: Seq<TracePoint>,
    time: TimeWindow,
    pitch: PitchWindow,
    span: F32,
)
    ensures
        survivors(points, time, pitch, span).len() > 0 <==> line_inside(points, time, pitch, span),
    decreases points.len(),
{
    if points.len() > 0 {
        let rest = points.drop_last();
        lemma_line_survives(rest, time, pitch, span);
        if line_inside(rest, time, pitch, span) {
            let i = choose|i: int|
                0 <= i < rest.len() && point_inside(#[trigger] rest[i], time, pitch, span);
            assert(point_inside(points[i], time, pitch, span));
        }
        if line_inside(points, time, pitch, span) {
            let i = choose|i: int|
                0 <= i < points.len() && point_inside(#[trigger] points[i], time, pitch, span);
            if i < rest.len() {
                assert(point_inside(rest[i], time, pitch, span));
            }
        }
        let last = points.len() - 1;
        assert(survivor(points.last(), time, pitch, span) is Some <==> point_inside(
            points[last],
            time,
            pitch,
            span,
        ));
    }
}

proof fn lemma_lines_look_back(
    segments: Seq<Seq<TracePoint>>,
    time: TimeWindow,
    pitch: PitchWindow,
    span: F32,
    n: int,
)
    requires
        0 <= n < segments.len(),
    ensures
        lines_inside(segments.drop_last(), time, pitch, span, n) == lines_inside(
            segments,
            time,
            pitch,
            span,
            n,
        ),
    decreases n,
{
    if n > 0 {
        lemma_lines_look_back(segments, time, pitch, span, n - 1);
    }
}

proof fn lemma_shown_count(
    segments: Seq<Seq<TracePoint>>,
    time: TimeWindow,
    pitch: PitchWindow,
    span: F32,
)
    ensures
        shown_segments(segments, time, pitch, span).len() == lines_inside(
            segments,
            time,
            pitch,
            span,
            segments.len() as int,
        ),
    decreases segments.len(),
{
    if segments.len() > 0 {
        lemma_shown_count(segments.drop_last(), time, pitch, span);
        lemma_lines_look_back(segments, time, pitch, span, segments.len() - 1);
        lemma_line_survives(segments.last(), time, pitch, span);
    }
}

/// Every line with a point inside both windows is shown with exactly its points that
/// survive, the lines stand in their order, and there are as many as such lines.
pub proof fn law_every_line_inside_is_shown(
    segments: Seq<Seq<TracePoint>>,
    time: TimeWindow,
    pitch: PitchWindow,
    span: F32,
    s: int,
)
    requires
        0 <= s < segments.len(),
        line_inside(segments[s], time, pitch, span),
    ensures
        shown_segments(segments, time, pitch, span).len() == lines_inside(
            segments,
            time,
            pitch,
            span,
            segments.len() as int,
        ),
        ({
            let k = lines_inside(segments, time, pitch, span, s);
            &&& 0 <= k < shown_segments(segments, time, pitch, span).len()
            &&& shown_segments(segments, time, pitch, span)[k] == survivors(
                segments[s],
                time,
                pitch,
                span,
            )
        }),
    decreases segments.len(),
{
    let rest = segments.drop_last();
    lemma_shown_count(segments, time, pitch, span);
    lemma_shown_count(rest, time, pitch, span);
    lemma_lines_look_back(segments, time, pitch, span, s);
    lemma_line_survives(segments[s], time, pitch, span);
    if s < rest.len() {
        assert(rest[s] == segments[s]);
        law_every_line_inside_is_shown(rest, time, pitch, span, s);
    }
}

/// The scene holds the points of its lines as they are.
pub proof fn law_rows_are_the_lines(segments: Seq<Vec<SurvivingPoint>>, k: int)
    requires
        0 <= k < segments.len(),
    ensures
        rows(segments).len() == segments.len(),
        rows(segments)[k] == segments[k]@,
{
}

/// How many of the first `n` grid lines stand inside the pitch window.
pub open spec fn grooves_inside(lines: Seq<GrooveLine>, pitch: PitchWindow, span: F32, n: int) -> int
    decreases n,
{
    if n <= 0 {
        0
    } else {
        grooves_inside(lines, pitch, span, n - 1) + (if !span.at_most(F32 { bits: 0 })
            && !lines[n - 1].pitch.below(pitch.min) && !pitch.max.below(lines[n - 1].pitch) {
            1int
        } else {
            0
        })
    }
}

proof fn lemma_grooves_count(lines: Seq<GrooveLine>, pitch: PitchWindow, span: F32, n: int)
    requires
        0 <= n <= lines.len(),
    ensures
        shown_grooves(lines.take(n), pitch, span).len() == grooves_inside(lines, pitch, span, n),
    decreases n,
{
    if n > 0 {
        lemma_grooves_count(lines, pitch, span, n - 1);
        assert(lines.take(n).drop_last() =~= lines.take(n - 1));
    }
}

/// Every grid line inside the pitch window is shown as it is, in order, and no other.
pub proof fn law_grooves_inside_are_shown(
    lines: Seq<GrooveLine>,
    pitch: PitchWindow,
    span: F32,
    i: int,
)
    requires
        0 <= i < lines.len(),
        !span.at_most(F32 { bits: 0 }),
        !lines[i].pitch.below(pitch.min),
        !pitch.max.below(lines[i].pitch),
    ensures
        shown_grooves(lines, pitch, span).len() == grooves_inside(
            lines,
            pitch,
            span,
            lines.len() as int,
        ),
        0 <= grooves_inside(lines, pitch, span, i) < shown_grooves(lines, pitch, span).len(),
        shown_grooves(lines, pitch, span)[grooves_inside(lines, pitch, span, i)] == lines[i],
{
    lemma_grooves_count(lines, pitch, span, i);
    lemma_grooves_count(lines, pitch, span, lines.len() as int);
    assert(lines.take(lines.len() as int) =~= lines);
    lemma_groove_stays(lines, pitch, span, i, lines.len() as int);
}

proof fn lemma_groove_stays(lines: Seq<GrooveLine>, pitch: PitchWindow, span: F32, i: int, n: int)
    requires
        0 <= i < n <= lines.len(),
        !span.at_most(F32 { bits: 0 }),
        !lines[i].pitch.below(pitch.min),
        !pitch.max.below(lines[i].pitch),
    ensures
        0 <= grooves_inside(lines, pitch, span, i) < shown_grooves(lines.take(n), pitch, span).len(),
        shown_grooves(lines.take(n), pitch, span)[grooves_inside(lines, pitch, span, i)]
            == lines[i],
    decreases n,
{
    assert(lines.take(n).drop_last() =~= lines.take(n - 1));
    assert(lines.take(n).last() == lines[n - 1]);
    if i < n - 1 {
        lemma_groove_stays(lines, pitch, span, i, n - 1);
    } else {
        lemma_grooves_count(lines, pitch, span, i);
    }
}

/// How many of the first `n` attacks lie inside the time window.
pub open spec fn ticks_inside(ticks: Seq<OnsetTick>, time: TimeWindow, n: int) -> int
    decreases n,
{
    if n <= 0 {
        0
    } else {
        ticks_inside(ticks, time, n - 1) + (if time.span_ms > 0 && time.start_ms
            <= ticks[n - 1].t_ms <= time.end_ms {
            1int
        } else {
            0
        })
    }
}

proof fn lemma_ticks_inside_count(ticks: Seq<OnsetTick>, time: TimeWindow, n: int)
    requires
        0 <= n <= ticks.len(),
    ensures
        shown_ticks(ticks.take(n), time).len() == ticks_inside(ticks, time, n),
    decreases n,
{
    if n > 0 {
        lemma_ticks_inside_count(ticks, time, n - 1);
        assert(ticks.take(n).drop_last() =~= ticks.take(n - 1));
    }
}

proof fn lemma_tick_stays(ticks: Seq<OnsetTick>, time: TimeWindow, i: int, n: int)
    requires
        0 <= i < n <= ticks.len(),
        time.span_ms > 0,
        time.start_ms <= ticks[i].t_ms <= time.end_ms,
    ensures
        0 <= ticks_inside(ticks, time, i) < shown_ticks(ticks.take(n), time).len(),
        ({
            let placed = shown_ticks(ticks.take(n), time)[ticks_inside(ticks, time, i)];
            &&& placed.at.age_ms == time.end_ms - ticks[i].t_ms
            &&& placed.at.span_ms == time.span_ms
            &&& placed.strength == ticks[i].strength
        }),
    decreases n,
{
    assert(ticks.take(n).drop_last() =~= ticks.take(n - 1));
    assert(ticks.take(n).last() == ticks[n - 1]);
    if i < n - 1 {
        lemma_tick_stays(ticks, time, i, n - 1);
    } else {
        lemma_ticks_inside_count(ticks, time, i);
    }
}

/// Every attack inside the time window is shown at its age before now and with its
/// strength, in order, and no other.
pub proof fn law_attacks_inside_are_shown(ticks: Seq<OnsetTick>, time: TimeWindow, i: int)
    requires
        0 <= i < ticks.len(),
        time.span_ms > 0,
        time.start_ms <= ticks[i].t_ms <= time.end_ms,
    ensures
        shown_ticks(ticks, time).len() == ticks_inside(ticks, time, ticks.len() as int),
        0 <= ticks_inside(ticks, time, i) < shown_ticks(ticks, time).len(),
        ({
            let placed = shown_ticks(ticks, time)[ticks_inside(ticks, time, i)];
            &&& placed.at.age_ms == time.end_ms - ticks[i].t_ms
            &&& placed.at.span_ms == time.span_ms
            &&& placed.strength == ticks[i].strength
        }),
{
    lemma_ticks_inside_count(ticks, time, ticks.len() as int);
    lemma_tick_stays(ticks, time, i, ticks.len() as int);
    assert(ticks.take(ticks.len() as int) =~= ticks);
}

/// How many of the first `n` breaths touch the time window.
pub open spec fn spans_touching(spans: Seq<BreathSpan>, time: TimeWindow, n: int) -> int
    decreases n,
{
    if n <= 0 {
        0
    } else {
        spans_touching(spans, time, n - 1) + (if time.span_ms > 0 && spans[n - 1].end_ms
            >= time.start_ms && spans[n - 1].start_ms <= time.end_ms {
            1int
        } else {
            0
        })
    }
}

proof fn lemma_spans_count(spans: Seq<BreathSpan>, time: TimeWindow, n: int)
    requires
        0 <= n <= spans.len(),
    ensures
        shown_spans(spans.take(n), time).len() == spans_touching(spans, time, n),
    decreases n,
{
    if n > 0 {
        lemma_spans_count(spans, time, n - 1);
        assert(spans.take(n).drop_last() =~= spans.take(n - 1));
    }
}

/// Where the end of a breath stands: at its age, but never right of now nor left of
/// the axis.
pub open spec fn clipped_age(t_ms: u64, time: TimeWindow) -> int {
    if t_ms > time.end_ms {
        0
    } else if time.end_ms - t_ms > time.span_ms {
        time.span_ms as int
    } else {
        time.end_ms - t_ms
    }
}

proof fn lemma_span_stays(spans: Seq<BreathSpan>, time: TimeWindow, i: int, n: int)
    requires
        0 <= i < n <= spans.len(),
        time.span_ms > 0,
        spans[i].end_ms >= time.start_ms,
        spans[i].start_ms <= time.end_ms,
    ensures
        0 <= spans_touching(spans, time, i) < shown_spans(spans.take(n), time).len(),
        ({
            let placed = shown_spans(spans.take(n), time)[spans_touching(spans, time, i)];
            &&& placed.from.age_ms == clipped_age(spans[i].start_ms, time)
            &&& placed.to.age_ms == clipped_age(spans[i].end_ms, time)
            &&& placed.from.span_ms == time.span_ms
            &&& placed.to.span_ms == time.span_ms
            &&& placed.peak == spans[i].peak
        }),
    decreases n,
{
    assert(spans.take(n).drop_last() =~= spans.take(n - 1));
    assert(spans.take(n).last() == spans[n - 1]);
    if i < n - 1 {
        lemma_span_stays(spans, time, i, n - 1);
    } else {
        lemma_spans_count(spans, time, i);
    }
}

/// Every breath that touches the time window is shown, from the age of its start to
/// the age of its end, clipped to the axis, with its peak, in order, and no other.
pub proof fn law_breaths_inside_are_shown(spans: Seq<BreathSpan>, time: TimeWindow, i: int)
    requires
        0 <= i < spans.len(),
        time.span_ms > 0,
        spans[i].end_ms >= time.start_ms,
        spans[i].start_ms <= time.end_ms,
    ensures
        shown_spans(spans, time).len() == spans_touching(spans, time, spans.len() as int),
        0 <= spans_touching(spans, time, i) < shown_spans(spans, time).len(),
        ({
            let placed = shown_spans(spans, time)[spans_touching(spans, time, i)];
            &&& placed.from.age_ms == clipped_age(spans[i].start_ms, time)
            &&& placed.to.age_ms == clipped_age(spans[i].end_ms, time)
            &&& placed.from.span_ms == time.span_ms
            &&& placed.to.span_ms == time.span_ms
            &&& placed.peak == spans[i].peak
        }),
{
    lemma_spans_count(spans, time, spans.len() as int);
    lemma_span_stays(spans, time, i, spans.len() as int);
    assert(spans.take(spans.len() as int) =~= spans);
}

/// A point in time outside the window, and any in a window without width, is shown
/// nowhere; an end of an interval has its place in every window that has a width.
pub proof fn law_places_in_time(t: u64, window: TimeWindow)
    ensures
        time_pos(t, window) is Some <==> window.span_ms > 0 && window.start_ms <= t
            <= window.end_ms,
        time_pos(t, window) matches Some(at) ==> at.age_ms == window.end_ms - t && at.span_ms
            == window.span_ms,
        clamped_pos(t, window) is Some <==> window.span_ms > 0,
        clamped_pos(t, window) matches Some(at) ==> at.age_ms == clipped_age(t, window)
            && at.span_ms == window.span_ms,
{
}

/// A smoothing window reaches as far to the left as to the right, by half its width,
/// but for the ends of the list; one step on it moves on by at most one at each end.
pub proof fn law_smoothing_is_centred(i: int, window: int, n: int)
    requires
        0 <= i < n,
        window >= 1,
    ensures
        i >= window / 2 && i + window / 2 < n ==> window_around(i, window, n) == (
            i - window / 2,
            i + window / 2 + 1,
        ),
        i < window / 2 ==> window_around(i, window, n).0 == 0,
        i + window / 2 >= n ==> window_around(i, window, n).1 == n,
        0 <= window_around(i, window, n).0 <= i < window_around(i, window, n).1 <= n,
{
}

/// Positions ascend where all are numbers and none lies below one before it.
pub proof fn law_which_positions_ascend(xs: Seq<F32>)
    ensures
        ascending(xs) <==> (forall|i: int| 0 <= i < xs.len() ==> !(#[trigger] xs[i]).nan()) && (
        forall|i: int, j: int| 0 <= i < j < xs.len() ==> !xs[j].below(xs[i])),
{
    if forall|i: int, j: int| 0 <= i < j < xs.len() ==> !xs[j].below(xs[i]) {
        if forall|i: int| 0 <= i < xs.len() ==> !(#[trigger] xs[i]).nan() {
            assert forall|i: int, j: int| 0 <= i <= j < xs.len() implies xs[i].rank()
                <= xs[j].rank() by {
                if i < j {
                    assert(!xs[j].below(xs[i]));
                    assert(!xs[i].nan() && !xs[j].nan());
                }
            }
        }
    }
}

/// A centre that is taken from around a position lies at the first value where the
/// position is not beyond it, at the last where it is not before it, and otherwise
/// between the two values that enclose it. So there is only one such centre between
/// them, and none is taken where there are no values.
pub proof fn law_centres_enclose_their_position(
    xs: Seq<F32>,
    query: F32,
    center: CenterSample,
    i: int,
)
    requires
        aligned(xs, query, center),
        ascending(xs),
        !query.nan(),
    ensures
        center is Empty <==> xs.len() == 0,
        center matches CenterSample::At(k) ==> k < xs.len() && (k == 0 && (xs.len() == 1
            || query.at_most(xs[0])) || k == xs.len() - 1 && xs[k as int].at_most(query)),
        center matches CenterSample::Between(k) ==> k + 1 < xs.len() && !query.below(xs[k as int])
            && query.below(xs[k + 1]),
        center matches CenterSample::Between(k) ==> (0 <= i && i + 1 < xs.len() && xs[i].at_most(
            query,
        ) && query.below(xs[i + 1]) ==> i == k),
{
    match center {
        CenterSample::Between(k) => {
            if 0 <= i && i + 1 < xs.len() {
                if i < k {
                    assert(xs[i + 1].rank() <= xs[k as int].rank());
                }
                if k < i {
                    assert(xs[k + 1].rank() <= xs[i].rank());
                }
            }
        },
        _ => {},
    }
}

}
