use gurukul::ieee::F32;
use gurukul::semantic_graph::{
    BreathSpan, GrooveLine, OnsetTick, PitchWindow, SemanticGraph, TimeWindow, TracePoint,
    TraceSegment,
};
use gurukul::time_graph::model::{
    clamp_time, normalize_time, pdc_align, project_scene, sample_center_at_x, smooth_range,
    CenterSample, SurvivingPoint, TimeGraphScene, TimePos,
};

const BAND_SMOOTH_WINDOW: usize = 5;
const BAND_CENTER_SMOOTH_WINDOW: usize = 9;

fn f(x: f32) -> F32 {
    F32 { bits: x.to_bits() }
}

fn v(x: F32) -> f32 {
    f32::from_bits(x.bits)
}

fn pitches(min: f32, max: f32) -> Option<PitchWindow> {
    Some(PitchWindow {
        min: f(min),
        max: f(max),
    })
}

fn times(start_ms: u64, end_ms: u64) -> Option<TimeWindow> {
    Some(TimeWindow {
        start_ms,
        end_ms,
        span_ms: end_ms - start_ms,
    })
}

fn point(t_ms: u64, vibrato_t_ms: u64, pitch: f32, conf: f32, rate: f32, depth: f32) -> TracePoint {
    TracePoint {
        t_ms,
        vibrato_t_ms,
        pitch: f(pitch),
        confidence: f(conf),
        vibrato_rate: f(rate),
        vibrato_depth: f(depth),
    }
}

fn trace_point(t_ms: u64, pitch: f32) -> TracePoint {
    point(t_ms, t_ms, pitch, 0.8, 0.0, 0.0)
}

fn only_trace(
    time_window: Option<TimeWindow>,
    pitch_window: Option<PitchWindow>,
    points: Vec<TracePoint>,
) -> SemanticGraph {
    SemanticGraph {
        time_window,
        pitch_window,
        trace_segments: vec![TraceSegment { points }],
        grooves: vec![],
        onset_ticks: vec![],
        breath_spans: vec![],
    }
}

/// A graph with both windows and one of every event.
fn full_graph() -> SemanticGraph {
    SemanticGraph {
        time_window: times(10, 110),
        pitch_window: pitches(8.0, 10.0),
        trace_segments: vec![TraceSegment {
            points: vec![trace_point(60, 9.0)],
        }],
        grooves: vec![GrooveLine {
            pitch: f(9.0),
            slot: 3,
            active: true,
        }],
        onset_ticks: vec![OnsetTick {
            t_ms: 35,
            strength: f(0.9),
        }],
        breath_spans: vec![BreathSpan {
            start_ms: 20,
            end_ms: 80,
            peak: f(0.7),
        }],
    }
}

fn scene_of(graph: &SemanticGraph) -> TimeGraphScene {
    let span = match graph.pitch_window {
        Some(w) => v(w.max) - v(w.min),
        None => 0.0,
    };
    project_scene(graph, f(span))
}

fn x_of(at: TimePos) -> f32 {
    1.0 - at.age_ms as f32 / at.span_ms as f32
}

fn y_of(pitch: F32, graph: &SemanticGraph) -> f32 {
    let w = graph.pitch_window.unwrap();
    (v(pitch) - v(w.min)) / (v(w.max) - v(w.min))
}

fn smooth(values: &[f32], window: usize) -> Vec<f32> {
    (0..values.len())
        .map(|i| {
            let (lo, hi) = smooth_range(i, window, values.len());
            let sum: f32 = values[lo..hi].iter().sum();
            sum / (hi - lo) as f32
        })
        .collect()
}

fn sampled(xs: &[f32], values: &[f32], center: CenterSample, query: f32) -> f32 {
    match center {
        CenterSample::Empty => 0.0,
        CenterSample::At(i) => values[i],
        CenterSample::Between(i) => {
            let span = xs[i + 1] - xs[i];
            if span <= 0.0 {
                values[i]
            } else {
                values[i] + (query - xs[i]) / span * (values[i + 1] - values[i])
            }
        }
    }
}

struct Painted {
    x: f32,
    center_y: f32,
    half_height: f32,
    confidence: f32,
}

/// The band of one segment, with its coordinates worked out.
fn band(points: &Vec<SurvivingPoint>, graph: &SemanticGraph) -> Vec<Painted> {
    let w = graph.pitch_window.unwrap();
    let span = v(w.max) - v(w.min);
    let xs: Vec<f32> = points.iter().map(|p| x_of(p.at)).collect();
    let ys: Vec<f32> = points.iter().map(|p| y_of(p.pitch, graph)).collect();
    let centers = smooth(&ys, BAND_CENTER_SMOOTH_WINDOW);
    let raw: Vec<f32> = points
        .iter()
        .map(|p| (v(p.vibrato_depth) / 1200.0) / span)
        .collect();
    let heights = smooth(&raw, BAND_SMOOTH_WINDOW);
    let vibrato_xs = points
        .iter()
        .map(|p| f(p.vibrato_at.map(x_of).unwrap_or(0.0)))
        .collect();
    pdc_align(points, &xs.iter().map(|x| f(*x)).collect(), &vibrato_xs)
        .iter()
        .zip(heights)
        .map(|(b, half_height)| Painted {
            x: x_of(b.at),
            center_y: sampled(&xs, &centers, b.center, x_of(b.at)),
            half_height,
            confidence: v(b.confidence),
        })
        .collect()
}

fn check_normalizes_times_pitches_and_events(rate: f32, depth: f32) {
    let mut graph = full_graph();
    graph.trace_segments = vec![TraceSegment {
        points: vec![
            point(10, 10, 8.0, 0.2, 0.0, 0.0),
            point(60, 60, 9.0, 0.8, rate, depth),
        ],
    }];
    let scene = scene_of(&graph);
    assert_eq!(scene.segments.len(), 1);
    assert_eq!(scene.grooves.len(), 1);
    assert_eq!(scene.onset_ticks.len(), 1);
    assert_eq!(scene.breath_spans.len(), 1);
    let p = scene.segments[0][1];
    assert!((x_of(p.at) - 0.5).abs() < 1e-5);
    assert!((y_of(p.pitch, &graph) - 0.5).abs() < 1e-5);
    assert!((y_of(scene.grooves[0].pitch, &graph) - 0.5).abs() < 1e-5);
    assert!((x_of(scene.onset_ticks[0].at) - 0.25).abs() < 1e-5);
    assert!((x_of(scene.breath_spans[0].from) - 0.10).abs() < 1e-5);
    assert!((x_of(scene.breath_spans[0].to) - 0.70).abs() < 1e-5);
}

#[test]
fn time_graph_project_scene_normalizes_times_pitches_and_events() {
    check_normalizes_times_pitches_and_events(5.0, 0.2);
}

#[test]
fn model_project_scene_normalizes_times_pitches_and_events() {
    check_normalizes_times_pitches_and_events(5.5, 60.0);
}

#[test]
fn out_of_window_trace_points_are_dropped_not_clamped() {
    let graph = only_trace(
        times(100, 200),
        pitches(8.0, 10.0),
        vec![
            trace_point(10, 9.0),
            trace_point(50, 9.0),
            trace_point(150, 9.0),
            trace_point(200, 9.0),
        ],
    );
    let scene = scene_of(&graph);
    assert_eq!(scene.segments.len(), 1, "segment survives via its tail");
    let xs: Vec<f32> = scene.segments[0].iter().map(|p| x_of(p.at)).collect();
    assert_eq!(xs.len(), 2, "only the two in-window points survive");
    assert!((xs[0] - 0.5).abs() < 1e-5, "150ms → 0.5, got {}", xs[0]);
    assert!((xs[1] - 1.0).abs() < 1e-5, "200ms → 1.0, got {}", xs[1]);
    assert!(xs.iter().all(|&x| x > 0.0), "no point piled on the edge");
}

#[test]
fn breath_span_straddling_the_window_edge_is_clipped_not_dropped() {
    let graph = SemanticGraph {
        time_window: times(100, 200),
        breath_spans: vec![
            BreathSpan {
                start_ms: 50,
                end_ms: 150,
                peak: f(0.7),
            },
            BreathSpan {
                start_ms: 0,
                end_ms: 80,
                peak: f(0.7),
            },
        ],
        ..full_graph()
    };
    let scene = scene_of(&graph);
    assert_eq!(scene.breath_spans.len(), 1, "the disjoint span is dropped");
    let span = scene.breath_spans[0];
    assert!((x_of(span.from) - 0.0).abs() < 1e-5, "start clipped to edge");
    assert!((x_of(span.to) - 0.5).abs() < 1e-5, "end at 150ms → 0.5");
}

#[test]
fn no_time_window_yields_empty_scene() {
    let graph = SemanticGraph {
        time_window: None,
        ..full_graph()
    };
    let scene = scene_of(&graph);
    assert!(scene.segments.is_empty());
    assert!(scene.grooves.is_empty());
    assert!(scene.onset_ticks.is_empty());
    assert!(scene.breath_spans.is_empty());
}

#[test]
fn no_pitch_window_drops_grooves_and_segments_but_keeps_events() {
    let graph = SemanticGraph {
        pitch_window: None,
        ..full_graph()
    };
    let scene = scene_of(&graph);
    assert!(scene.grooves.is_empty(), "no pitch axis → no grooves");
    assert!(scene.segments.is_empty(), "no pitch axis → no trace");
    assert_eq!(scene.onset_ticks.len(), 1, "time-only events survive");
    assert_eq!(scene.breath_spans.len(), 1, "time-only events survive");
}

#[test]
fn zero_span_time_window_drops_every_event() {
    let graph = SemanticGraph {
        time_window: times(50, 50),
        ..full_graph()
    };
    let scene = scene_of(&graph);
    assert!(scene.segments.is_empty());
    assert!(scene.onset_ticks.is_empty());
    assert!(scene.breath_spans.is_empty());
    // Grooves are pitch-only, unaffected by the collapsed time axis.
    assert_eq!(scene.grooves.len(), 1);
}

#[test]
fn non_positive_pitch_span_drops_grooves_and_segments() {
    let graph = SemanticGraph {
        pitch_window: pitches(9.0, 9.0),
        ..full_graph()
    };
    let scene = scene_of(&graph);
    assert!(scene.grooves.is_empty(), "zero pitch span → no grooves");
    assert!(scene.segments.is_empty(), "zero pitch span → no trace");
    assert_eq!(scene.onset_ticks.len(), 1);
    assert_eq!(scene.breath_spans.len(), 1);
}

#[test]
fn pitches_outside_the_window_are_dropped() {
    let graph = only_trace(
        times(0, 100),
        pitches(8.0, 10.0),
        vec![
            trace_point(10, 7.9),
            trace_point(20, 8.0),
            trace_point(30, 10.0),
            trace_point(40, 10.1),
        ],
    );
    let scene = scene_of(&graph);
    assert_eq!(scene.segments[0].len(), 2);
    let above = only_trace(times(0, 100), pitches(8.0, 10.0), vec![trace_point(10, 11.0)]);
    assert!(scene_of(&above).segments.is_empty(), "no empty segment");
}

#[test]
fn band_half_height_known_depth_projects_correctly() {
    let graph = only_trace(
        times(0, 100),
        pitches(8.0, 10.0),
        vec![point(50, 50, 9.0, 1.0, 5.5, 120.0)],
    );
    let scene = scene_of(&graph);
    let hh = band(&scene.segments[0], &graph)[0].half_height;
    assert!((hh - 0.05).abs() < 1e-4, "expected 0.05, got {hh}");
}

#[test]
fn band_center_y_tracks_mean_not_instantaneous_pitch() {
    let n_points = 12usize;
    let points: Vec<_> = (0..n_points)
        .map(|i| {
            let sign = if i % 2 == 0 { 1.0_f64 } else { -1.0_f64 };
            let pitch = ((0.5 + sign * 0.15) * 2.0 + 8.0) as f32;
            let t = i as u64 * 50;
            point(t, t, pitch, 0.0, 0.0, 0.0)
        })
        .collect();
    let graph = only_trace(times(0, 550), pitches(8.0, 10.0), points);
    let scene = scene_of(&graph);
    for (i, b) in band(&scene.segments[0], &graph).iter().enumerate() {
        if (4..=7).contains(&i) {
            assert!(
                (b.center_y - 0.5).abs() < 0.02,
                "interior point {i}: {}",
                b.center_y
            );
        }
    }
}

#[test]
fn band_half_height_zero_for_zero_depth_point() {
    let graph = only_trace(
        times(0, 100),
        pitches(8.0, 10.0),
        vec![point(50, 50, 9.0, 0.9, 0.0, 0.0)],
    );
    let scene = scene_of(&graph);
    assert_eq!(band(&scene.segments[0], &graph)[0].half_height, 0.0);
}

#[test]
fn band_half_height_nonzero_when_depth_nonzero_but_strength_zero() {
    let graph = only_trace(
        times(0, 100),
        pitches(8.0, 10.0),
        vec![point(50, 50, 9.0, 0.9, 0.0, 120.0)],
    );
    let scene = scene_of(&graph);
    let hh = band(&scene.segments[0], &graph)[0].half_height;
    assert!((hh - 0.05).abs() < 1e-4, "got {hh}");
}

#[test]
fn band_center_y_back_dated_on_rising_ramp() {
    let n_points = 20usize;
    let slope = (0.8 - 0.2) / (n_points as f64 - 1.0);
    let points: Vec<_> = (0..n_points)
        .map(|i| {
            let pitch = ((0.2 + i as f64 * slope) * 2.0 + 8.0) as f32;
            let t = i as u64 * 50;
            point(t, t.saturating_sub(250), pitch, 0.0, 0.0, 0.0)
        })
        .collect();
    let graph = only_trace(times(0, 950), pitches(8.0, 10.0), points);
    let scene = scene_of(&graph);
    let bands = band(&scene.segments[0], &graph);
    for i in 10..=14 {
        let current_y = y_of(scene.segments[0][i].pitch, &graph);
        let center = bands[i].center_y;
        assert!(
            center < current_y - 0.10,
            "point {i}: center_y={center:.4} should lie below {current_y:.4}"
        );
    }
}

#[test]
fn band_chain_matches_legacy_projection() {
    let n = 22usize;
    let points: Vec<_> = (0..n)
        .map(|i| {
            let sign = if i % 2 == 0 { 1.0_f32 } else { -1.0_f32 };
            let drift = i as f32 * 0.01;
            let ny = (0.5 + sign * 0.08 + drift).clamp(0.05, 0.95);
            let depth = [120.0, 60.0, 0.0][i % 3];
            let t = i as u64 * 50;
            point(
                t,
                t.saturating_sub(200),
                ny * 2.0 + 8.0,
                0.7 + (i as f32 * 0.01),
                5.5,
                depth,
            )
        })
        .collect();
    let graph = only_trace(times(200, 1050), pitches(8.0, 10.0), points);
    let scene = scene_of(&graph);
    let expected: Vec<(f32, f32, f32, f32)> = vec![
        (0.0, 0.5759999, 0.025, 0.74),
        (0.058823526, 0.565, 0.025, 0.75),
        (0.11764705, 0.5814285, 0.02, 0.76),
        (0.17647058, 0.575, 0.025, 0.77),
        (0.0, 0.5759999, 0.030000001, 0.78),
        (0.058823526, 0.565, 0.02, 0.78999996),
        (0.11764705, 0.5814285, 0.025, 0.79999995),
        (0.17647058, 0.575, 0.030000001, 0.81),
        (0.2352941, 0.5888889, 0.02, 0.82),
        (0.29411763, 0.58111113, 0.025, 0.83),
        (0.35294116, 0.60888886, 0.030000001, 0.84),
        (0.41176468, 0.6011111, 0.02, 0.84999996),
        (0.4705882, 0.62888885, 0.025, 0.86),
        (0.5294118, 0.62111115, 0.030000001, 0.87),
        (0.58823526, 0.6488889, 0.02, 0.88),
        (0.64705884, 0.64111114, 0.025, 0.89),
        (0.7058823, 0.66888887, 0.03125, 0.9),
        (0.7647059, 0.6611111, 0.025, 0.90999997),
    ];
    let bands = band(&scene.segments[0], &graph);
    assert_eq!(bands.len(), expected.len(), "point count mismatch");
    for (i, (b, &(x, cy, hh, conf))) in bands.iter().zip(expected.iter()).enumerate() {
        assert!((b.x - x).abs() < 1e-6, "point {i} x: {} vs {x}", b.x);
        assert!(
            (b.center_y - cy).abs() < 1e-6,
            "point {i} center: {} vs {cy}",
            b.center_y
        );
        assert!(
            (b.half_height - hh).abs() < 1e-6,
            "point {i} half height: {} vs {hh}",
            b.half_height
        );
        assert!((b.confidence - conf).abs() < 1e-6, "point {i} confidence");
    }
}

#[test]
fn band_center_samples_correct_pitch_when_leading_points_dropped() {
    let n_points = 24usize;
    let slope = (0.85 - 0.15) / (n_points as f64 - 1.0);
    let points: Vec<_> = (0..n_points)
        .map(|i| {
            let pitch = ((0.15 + i as f64 * slope) * 2.0 + 8.0) as f32;
            let t = i as u64 * 50;
            point(t, t.saturating_sub(200), pitch, 1.0, 5.5, 60.0)
        })
        .collect();
    // The first eight points lie before the window.
    let graph = only_trace(times(400, 1150), pitches(8.0, 10.0), points);
    let scene = scene_of(&graph);
    let survivors = &scene.segments[0];
    let bands = band(survivors, &graph);
    assert!(survivors.len() >= 8, "expected the in-window survivors only");
    assert_eq!(survivors.len(), bands.len());

    let xs: Vec<f32> = survivors.iter().map(|p| x_of(p.at)).collect();
    let ys: Vec<f32> = survivors.iter().map(|p| y_of(p.pitch, &graph)).collect();
    let smoothed = smooth(&ys, BAND_CENTER_SMOOTH_WINDOW);
    let keys: Vec<F32> = xs.iter().map(|x| f(*x)).collect();
    let mut checked = 0;
    for (i, b) in bands.iter().enumerate() {
        if (b.x - xs[i]).abs() < 1e-6 && i < 4 {
            continue;
        }
        let at = sample_center_at_x(&keys, f(b.x));
        let expected = sampled(&xs, &smoothed, at, b.x);
        assert!(
            (b.center_y - expected).abs() < 1e-4,
            "centre {:.5} vs survivors' curve {expected:.5}",
            b.center_y
        );
        checked += 1;
    }
    assert!(checked >= 4, "several back-dated points");
    for (i, b) in bands.iter().enumerate() {
        if (b.x - xs[i]).abs() > 1e-6 {
            assert!(b.center_y <= ys[i] + 1e-4, "rising ramp: centre above trace");
        }
    }
}

#[test]
fn sampling_clamps_to_the_ends() {
    let xs = vec![f(0.0), f(0.5), f(1.0)];
    assert_eq!(sample_center_at_x(&vec![], f(0.5)), CenterSample::Empty);
    assert_eq!(sample_center_at_x(&xs, f(-1.0)), CenterSample::At(0));
    assert_eq!(sample_center_at_x(&xs, f(2.0)), CenterSample::At(2));
    assert_eq!(sample_center_at_x(&xs, f(0.25)), CenterSample::Between(0));
    assert_eq!(sample_center_at_x(&xs, f(0.5)), CenterSample::Between(1));
}

#[test]
fn smoothing_windows_shrink_at_the_ends() {
    assert_eq!(smooth_range(0, 5, 10), (0, 3));
    assert_eq!(smooth_range(5, 5, 10), (3, 8));
    assert_eq!(smooth_range(9, 5, 10), (7, 10));
    assert_eq!(smooth_range(4, 1, 10), (4, 5));
}

#[test]
fn now_is_at_the_right_edge_from_the_first_frame() {
    // A young session: much less than the full width has been heard.
    let window = TimeWindow {
        start_ms: 0,
        end_ms: 100,
        span_ms: 20_000,
    };
    assert_eq!(x_of(normalize_time(100, window).unwrap()), 1.0);
    assert_eq!(
        normalize_time(50, window),
        Some(TimePos {
            age_ms: 50,
            span_ms: 20_000
        })
    );
    assert_eq!(normalize_time(101, window), None);
    assert_eq!(x_of(clamp_time(101, window).unwrap()), 1.0);
}
