use gurukul::features::{FeatureHistory, Features};
use gurukul::ieee::F32;
use gurukul::music::{MusicInfo, Scale, ScaleIntervals, Tuning, TuningKind};
use gurukul::semantic_graph::{
    breath_spans, groove_lines, pitch_extremes, BreathSpan, EasedEdge, GraphProjector, GrooveLine,
    OnsetTick, PitchWindow, Refit, SemanticGraph,
};

const PITCH_PADDING_OCTAVES: f32 = 0.25;
const MIN_PITCH_SPAN_OCTAVES: f32 = 0.5;
const CONTRACT_HALF_LIFE_MS: f32 = 1_000.0;

fn f(x: f32) -> F32 {
    F32 { bits: x.to_bits() }
}

fn v(x: F32) -> f32 {
    f32::from_bits(x.bits)
}

fn feature(hop: u64, t_ms: u64, pitch: Option<f32>) -> Features {
    Features {
        hop_index: hop,
        pitch: pitch.map(f),
        confidence: f(0.8),
        onset: f(0.0),
        breath: f(0.0),
        vibrato_rate: f(0.0),
        vibrato_depth: f(0.0),
        vibrato_t_ms: t_ms,
        t_ms,
    }
}

fn history(samples: &[Features]) -> FeatureHistory {
    let mut history = FeatureHistory::new(20_000, 4_096);
    history.extend(&samples.to_vec());
    history
}

/// The window around the voice, with its padding and its least height.
fn target(history: &FeatureHistory) -> Option<PitchWindow> {
    let (lo, hi) = pitch_extremes(&history.iter())?;
    let (mut min, mut max) = (v(lo), v(hi));
    min -= PITCH_PADDING_OCTAVES;
    max += PITCH_PADDING_OCTAVES;
    if max - min < MIN_PITCH_SPAN_OCTAVES {
        let center = (min + max) * 0.5;
        let half = MIN_PITCH_SPAN_OCTAVES * 0.5;
        min = center - half;
        max = center + half;
    }
    Some(PitchWindow {
        min: f(min),
        max: f(max),
    })
}

fn eased(edge: F32, toward: F32, dt_ms: u64) -> EasedEdge {
    let alpha = 1.0 - 0.5_f32.powf(dt_ms as f32 / CONTRACT_HALF_LIFE_MS);
    let next = v(edge) + (v(toward) - v(edge)) * alpha;
    EasedEdge {
        next: f(next),
        left: f((v(toward) - next).abs()),
    }
}

/// One whole projection, the arithmetic of the easing curve included.
fn project(projector: &mut GraphProjector, history: &FeatureHistory) -> SemanticGraph {
    let target = target(history);
    let newest = GraphProjector::time_window(history).map(|w| w.end_ms);
    if let Refit::Ease { dt_ms } = projector.update_pitch_window(target, newest) {
        let target = target.unwrap();
        let current = projector.pitch_window.unwrap();
        projector.ease(
            target,
            eased(current.min, target.min, dt_ms),
            eased(current.max, target.max, dt_ms),
        );
    }
    projector.project(history, vec![])
}

fn window_after(projector: &mut GraphProjector, history: &FeatureHistory) -> (f32, f32) {
    let w = project(projector, history).pitch_window.unwrap();
    (v(w.min), v(w.max))
}

fn broad() -> FeatureHistory {
    history(&[feature(0, 0, Some(8.0)), feature(1, 10, Some(9.0))])
}

#[test]
fn trace_breaks_at_silence_and_hop_gaps() {
    let history = history(&[
        feature(0, 0, Some(8.0)),
        feature(1, 10, Some(8.1)),
        feature(2, 20, None),
        feature(3, 30, Some(8.2)),
        feature(7, 40, Some(8.3)),
    ]);
    let graph = project(&mut GraphProjector::default(), &history);

    assert_eq!(
        graph
            .trace_segments
            .iter()
            .map(|segment| segment.points.len())
            .collect::<Vec<_>>(),
        vec![2, 1, 1]
    );
}

#[test]
fn silence_holds_window_but_resumed_octave_jump_refits_immediately() {
    let mut projector = GraphProjector::default();
    let initial = history(&[feature(0, 0, Some(8.0))]);
    let initial_window = project(&mut projector, &initial).pitch_window.unwrap();

    let silent = history(&[feature(1, 7_000, None)]);
    assert_eq!(
        project(&mut projector, &silent).pitch_window,
        Some(initial_window)
    );

    let resumed = history(&[feature(0, 8_000, Some(9.0))]);
    let (min, max) = window_after(&mut projector, &resumed);
    assert!(min > v(initial_window.max));
    assert!(min < 9.0 && max > 9.0);
}

#[test]
fn contraction_waits_for_extremes_to_scroll_out_of_history() {
    let mut projector = GraphProjector::default();
    let broad_window = project(&mut projector, &broad()).pitch_window.unwrap();

    // The extremes are still on screen: window holds.
    let recent = history(&[
        feature(0, 0, Some(8.0)),
        feature(1, 10, Some(9.0)),
        feature(2, 1_000, Some(8.5)),
    ]);
    assert_eq!(
        project(&mut projector, &recent).pitch_window,
        Some(broad_window)
    );

    // Only the narrow note remains in history: window contracts.
    let aged = history(&[feature(3, 5_000, Some(8.5)), feature(4, 5_800, Some(8.5))]);
    let (min, max) = window_after(&mut projector, &aged);
    assert!(max - min < v(broad_window.max) - v(broad_window.min));
}

#[test]
fn expansion_snaps_the_breached_edge_while_the_other_eases() {
    let mut projector = GraphProjector::default();
    let (broad_min, broad_max) = window_after(&mut projector, &broad());

    // A note slightly above the window top: max expands instantly, min only
    // eases a small step toward the new target.
    let higher = history(&[feature(3, 1_000, Some(9.3))]);
    let target_min = 9.3 - PITCH_PADDING_OCTAVES;
    let (min, max) = window_after(&mut projector, &higher);
    assert!(max > broad_max);
    assert!(min >= broad_min);
    assert!(min < broad_min + 0.3);
    assert!(min < target_min);
}

#[test]
fn expansion_below_the_window_snaps_the_min_edge() {
    let mut projector = GraphProjector::default();
    let (broad_min, broad_max) = window_after(&mut projector, &broad());

    // 7.6 padded overlaps the window bottom: min expands instantly.
    let lower = history(&[feature(3, 1_000, Some(7.6))]);
    let (min, max) = window_after(&mut projector, &lower);
    assert!(min < broad_min);
    assert!(max <= broad_max);
}

#[test]
fn downward_register_jump_refits_immediately() {
    let mut projector = GraphProjector::default();
    let (broad_min, _) = window_after(&mut projector, &broad());

    // 7.0 padded sits entirely below the window: full refit.
    let low = history(&[feature(3, 1_000, Some(7.0))]);
    let (min, max) = window_after(&mut projector, &low);
    assert!(max < broad_min);
    assert!(min < 7.0 && max > 7.0);
}

#[test]
fn contraction_is_framerate_independent() {
    let mut two_steps = GraphProjector::default();
    project(&mut two_steps, &broad());
    project(&mut two_steps, &history(&[feature(2, 110, Some(8.5))]));
    let fine = window_after(
        &mut two_steps,
        &history(&[feature(2, 110, Some(8.5)), feature(3, 210, Some(8.5))]),
    );

    let mut one_step = GraphProjector::default();
    project(&mut one_step, &broad());
    let coarse = window_after(&mut one_step, &history(&[feature(2, 210, Some(8.5))]));

    assert!((fine.0 - coarse.0).abs() < 1e-4);
    assert!((fine.1 - coarse.1).abs() < 1e-4);
}

#[test]
fn silence_does_not_inflate_the_next_easing_step() {
    let mut projector = GraphProjector::default();
    let (broad_min, broad_max) = window_after(&mut projector, &broad());
    let broad_span = broad_max - broad_min;

    // Silence holds the window but must still advance the clock, so the next
    // easing step integrates 100ms, not 590ms.
    project(&mut projector, &history(&[feature(2, 500, None)]));
    let (min, max) = window_after(&mut projector, &history(&[feature(3, 600, Some(8.5))]));
    assert!(max - min > broad_span - 0.1);
}

#[test]
fn contraction_never_passes_the_target() {
    let mut projector = GraphProjector::default();
    let mut last = window_after(&mut projector, &broad());
    let target = (8.25, 8.75);
    for i in 0..40u64 {
        let t = 1_000 + i * 100;
        let now = window_after(&mut projector, &history(&[feature(2 + i, t, Some(8.5))]));
        assert!(last.0 <= now.0 && now.0 <= target.0);
        assert!(target.1 <= now.1 && now.1 <= last.1);
        last = now;
    }
}

#[test]
fn contraction_settles_exactly_on_the_target() {
    let mut projector = GraphProjector::default();
    project(&mut projector, &broad());

    let mut settled = (0.0, 0.0);
    for i in 0..80u64 {
        let t = 1_000 + i * 250;
        settled = window_after(&mut projector, &history(&[feature(2 + i, t, Some(8.5))]));
    }
    let half = MIN_PITCH_SPAN_OCTAVES * 0.5;
    assert_eq!(settled.0, 8.5 - half);
    assert_eq!(settled.1, 8.5 + half);
}

#[test]
fn contraction_eases_toward_target_instead_of_snapping() {
    let mut projector = GraphProjector::default();
    let (broad_min, broad_max) = window_after(&mut projector, &broad());
    let broad_span = broad_max - broad_min;

    // Each projection step closes only part of the remaining gap.
    project(&mut projector, &history(&[feature(2, 1_000, Some(8.5))]));
    let first = window_after(
        &mut projector,
        &history(&[feature(2, 1_000, Some(8.5)), feature(3, 1_800, Some(8.5))]),
    );
    let second = window_after(
        &mut projector,
        &history(&[
            feature(2, 1_000, Some(8.5)),
            feature(3, 1_800, Some(8.5)),
            feature(4, 2_600, Some(8.5)),
        ]),
    );

    let first_span = first.1 - first.0;
    let second_span = second.1 - second.0;
    assert!(first_span < broad_span);
    assert!(second_span < first_span);
    // Neither step jumps straight to the minimum-span target.
    assert!(second_span > MIN_PITCH_SPAN_OCTAVES + 0.05);
}

#[test]
fn a_stalled_stream_resumes_with_a_bounded_step() {
    let mut projector = GraphProjector::default();
    project(&mut projector, &broad());
    let target = Some(PitchWindow {
        min: f(8.3),
        max: f(8.7),
    });
    assert_eq!(
        projector.update_pitch_window(target, Some(60_000)),
        Refit::Ease { dt_ms: 250 }
    );
    assert_eq!(
        projector.update_pitch_window(target, Some(59_000)),
        Refit::Ease { dt_ms: 0 }
    );
    assert_eq!(
        projector.update_pitch_window(None, Some(59_100)),
        Refit::Hold
    );
    assert_eq!(
        projector.update_pitch_window(target, Some(59_200)),
        Refit::Ease { dt_ms: 100 }
    );
}

// ---- grooves ----

/// Slot positions inside the octave.
fn positions(kind: TuningKind) -> Vec<f32> {
    let just: [f32; 12] = [
        1.0,
        16.0 / 15.0,
        9.0 / 8.0,
        6.0 / 5.0,
        5.0 / 4.0,
        4.0 / 3.0,
        45.0 / 32.0,
        3.0 / 2.0,
        8.0 / 5.0,
        5.0 / 3.0,
        9.0 / 5.0,
        15.0 / 8.0,
    ];
    match kind {
        TuningKind::TwelveTet => (0..12).map(|i| i as f32 / 12.0).collect(),
        TuningKind::HindustaniJust => just.iter().map(|r| r.log2()).collect(),
        TuningKind::TwentyTwoShruti => (0..22).map(|i| i as f32 / 22.0).collect(),
    }
}

/// A scale in a tuning that is rotated by 0.17 octaves.
fn music(kind: TuningKind, intervals: ScaleIntervals, octave: i32) -> MusicInfo {
    MusicInfo {
        scale: Scale {
            intervals,
            tuning: Tuning {
                kind,
                shift: 0,
                rotation: f(0.17),
            },
            octave,
        },
    }
}

/// The lines of a scale inside a window.
fn grooves(music: &MusicInfo, min: f32, max: f32) -> Vec<GrooveLine> {
    let tuning = music.scale.tuning;
    let slots: Vec<Vec<F32>> = positions(tuning.kind)
        .iter()
        .map(|p| {
            let base = v(tuning.rotation) + p;
            let first = (min - base).ceil() as i32;
            let last = (max - base).floor() as i32;
            (first..=last).map(|o| f(base + o as f32)).collect()
        })
        .collect();
    groove_lines(&slots, music)
}

fn bilawal() -> ScaleIntervals {
    ScaleIntervals::from_widths(&vec![2, 2, 1, 2, 2, 2, 1])
}

#[test]
fn groove_geometry_repeats_by_octave_and_ignores_scale_register() {
    let low = music(TuningKind::HindustaniJust, bilawal(), 4);
    let high = music(TuningKind::HindustaniJust, bilawal(), 11);
    let low_lines = grooves(&low, 7.2, 8.2);
    let high_lines = grooves(&high, 7.2, 8.2);
    assert_eq!(low_lines, high_lines);
    assert_eq!(low_lines.len(), 12);

    let above = grooves(&low, 8.2, 9.2);
    for (line, translated) in low_lines.iter().zip(&above) {
        assert_eq!(line.slot, translated.slot);
        assert!(
            ((v(translated.pitch) - v(line.pitch)) - 1.0).abs() < 1e-5,
            "expected an octave translation"
        );
    }
}

#[test]
fn tuning_slot_count_and_spacing_survive_projection() {
    let shape = ScaleIntervals::from_mask(1);
    let tet = grooves(&music(TuningKind::TwelveTet, shape, 8), 7.23, 8.23);
    let just = grooves(&music(TuningKind::HindustaniJust, shape, 8), 7.23, 8.23);
    let shruti = grooves(&music(TuningKind::TwentyTwoShruti, shape, 8), 7.23, 8.23);

    assert_eq!(tet.len(), 12);
    assert_eq!(just.len(), 12);
    assert_eq!(shruti.len(), 22);
    let gaps = |lines: &[GrooveLine]| -> Vec<f32> {
        lines
            .windows(2)
            .map(|pair| v(pair[1].pitch) - v(pair[0].pitch))
            .collect()
    };
    assert!(gaps(&tet)
        .windows(2)
        .all(|pair| (pair[0] - pair[1]).abs() < 1e-5));
    assert!(gaps(&just)
        .windows(2)
        .any(|pair| (pair[0] - pair[1]).abs() > 1e-3));
}

#[test]
fn scale_mask_changes_highlights_not_positions() {
    let sparse = ScaleIntervals::from_mask(1);
    let sparse_lines = grooves(&music(TuningKind::TwelveTet, sparse, 8), 7.23, 8.23);
    let bilawal_lines = grooves(&music(TuningKind::TwelveTet, bilawal(), 8), 7.23, 8.23);

    assert_eq!(
        sparse_lines.iter().map(|l| l.pitch).collect::<Vec<_>>(),
        bilawal_lines.iter().map(|l| l.pitch).collect::<Vec<_>>()
    );
    assert_ne!(
        sparse_lines.iter().map(|l| l.active).collect::<Vec<_>>(),
        bilawal_lines.iter().map(|l| l.active).collect::<Vec<_>>()
    );
    assert_eq!(bilawal_lines.iter().filter(|l| l.active).count(), 7);
}

#[test]
fn grooves_stand_in_ascending_order_and_ties_keep_theirs() {
    let slots = vec![vec![f(9.0), f(8.0)], vec![f(8.0), f(7.5)]];
    let lines = groove_lines(
        &slots,
        &music(TuningKind::TwelveTet, ScaleIntervals::from_mask(2), 8),
    );
    assert_eq!(
        lines
            .iter()
            .map(|l| (v(l.pitch), l.slot, l.active))
            .collect::<Vec<_>>(),
        vec![
            (7.5, 1, true),
            (8.0, 0, false),
            (8.0, 1, true),
            (9.0, 0, false)
        ]
    );
}

// ---- events ----

#[test]
fn onset_ticks_and_breath_spans_preserve_timestamps() {
    let mut samples = [
        feature(0, 10, None),
        feature(1, 20, None),
        feature(2, 30, None),
        feature(3, 40, None),
    ];
    samples[0].onset = f(0.7);
    samples[1].breath = f(1.0);
    samples[2].breath = f(0.8);
    samples[3].onset = f(0.4);
    let graph = project(&mut GraphProjector::default(), &history(&samples));

    assert_eq!(
        graph.onset_ticks,
        vec![
            OnsetTick {
                t_ms: 10,
                strength: f(0.7)
            },
            OnsetTick {
                t_ms: 40,
                strength: f(0.4)
            }
        ]
    );
    assert_eq!(
        graph.breath_spans,
        vec![BreathSpan {
            start_ms: 20,
            end_ms: 30,
            peak: f(1.0)
        }]
    );
}

#[test]
fn a_missing_hop_ends_a_breath() {
    let mut samples = vec![
        feature(0, 10, None),
        feature(1, 20, None),
        feature(5, 30, None),
    ];
    for s in samples.iter_mut() {
        s.breath = f(0.5);
    }
    let spans = breath_spans(&samples);
    assert_eq!(
        spans.iter().map(|s| (s.start_ms, s.end_ms)).collect::<Vec<_>>(),
        vec![(10, 20), (30, 30)]
    );
}

#[test]
fn a_wrapping_hop_counter_breaks_nothing() {
    let history = history(&[
        feature(u64::MAX, 10, Some(8.0)),
        feature(0, 20, Some(8.0)),
    ]);
    let graph = project(&mut GraphProjector::default(), &history);
    assert_eq!(graph.trace_segments.len(), 1);
    assert_eq!(graph.trace_segments[0].points.len(), 2);
}

#[test]
fn clearing_the_projector_forgets_window_and_clock() {
    let mut projector = GraphProjector::default();
    project(&mut projector, &broad());
    projector.clear();
    assert_eq!(projector.pitch_window, None);
    assert_eq!(projector.last_ms, None);
}
