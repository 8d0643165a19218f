use gurukul::features::{FeatureHistory, FeatureSnapshot, Features};
use gurukul::ieee::F32;

fn f(x: f32) -> F32 {
    F32 { bits: x.to_bits() }
}

fn sample(hop_index: u64, t_ms: u64) -> Features {
    Features {
        hop_index,
        pitch: Some(f(8.0)),
        confidence: f(1.0),
        onset: f(0.0),
        breath: f(0.0),
        vibrato_rate: f(0.0),
        vibrato_depth: f(0.0),
        vibrato_t_ms: t_ms,
        t_ms,
    }
}

fn snapshot(f0_hz: f32) -> FeatureSnapshot {
    FeatureSnapshot {
        hop_index: 3,
        f0_hz: f(f0_hz),
        confidence: f(0.9),
        onset: f(0.1),
        breath: f(0.2),
        vibrato_rate: f(5.5),
        vibrato_depth: f(30.0),
        vibrato_t_ms: 90,
        t_ms: 100,
    }
}

#[test]
fn retains_time_window_across_different_cadences() {
    for cadence_ms in [10usize, 40] {
        let mut history = FeatureHistory::new(100, 100);
        for (hop, t_ms) in (0..=200u64).step_by(cadence_ms).enumerate() {
            history.push(sample(hop as u64, t_ms));
        }

        let oldest = history.iter().first().unwrap().t_ms;
        assert!(oldest >= 100);
        assert!(oldest < 100 + cadence_ms as u64);
        assert_eq!(history.iter().last().unwrap().t_ms, 200);
    }
}

#[test]
fn repeated_timestamps_are_preserved() {
    let mut history = FeatureHistory::new(100, 100);
    history.extend(&(0..4).map(|hop| sample(hop, 7)).collect());

    assert_eq!(history.len(), 4);
    assert_eq!(
        history
            .iter()
            .iter()
            .map(|sample| sample.hop_index)
            .collect::<Vec<_>>(),
        vec![0, 1, 2, 3]
    );
}

#[test]
fn safety_cap_bounds_bad_or_stalled_timestamps() {
    let mut history = FeatureHistory::new(100, 3);
    history.extend(&(0..8).map(|hop| sample(hop, 7)).collect());

    assert_eq!(history.len(), 3);
    assert_eq!(
        history
            .iter()
            .iter()
            .map(|sample| sample.hop_index)
            .collect::<Vec<_>>(),
        vec![5, 6, 7]
    );
}

#[test]
fn late_older_timestamp_does_not_move_window_backwards() {
    let mut history = FeatureHistory::new(100, 10);
    history.push(sample(0, 100));
    history.push(sample(1, 180));
    history.push(sample(2, 120));

    assert_eq!(history.time_bounds(), Some((80, 180)));
    assert_eq!(
        history
            .iter()
            .iter()
            .map(|sample| sample.t_ms)
            .collect::<Vec<_>>(),
        vec![100, 180, 120]
    );
}

#[test]
fn a_sample_older_than_the_window_is_not_held() {
    let mut history = FeatureHistory::new(100, 10);
    history.push(sample(0, 500));
    history.push(sample(1, 399));
    assert_eq!(history.len(), 1);
    history.push(sample(2, 400));
    assert_eq!(history.len(), 2);
    assert_eq!(history.time_bounds(), Some((400, 500)));
}

#[test]
fn clearing_forgets_the_clock_too() {
    let mut history = FeatureHistory::new(100, 10);
    history.push(sample(0, 500));
    history.clear();
    assert!(history.is_empty());
    assert_eq!(history.time_bounds(), None);
    history.push(sample(1, 10));
    assert_eq!(history.time_bounds(), Some((0, 10)));
    assert_eq!(history.window_ms(), 100);
}

#[test]
fn an_unvoiced_hop_has_no_pitch() {
    for silent in [0.0f32, -1.0, -0.0, f32::NAN] {
        let lifted = snapshot(silent).lift(f(9.0));
        assert!(!snapshot(silent).is_voiced());
        assert_eq!(lifted.pitch, None);
    }
    let lifted = snapshot(440.0).lift(f(440f32.log2()));
    assert_eq!(lifted.pitch, Some(f(440f32.log2())));
    assert_eq!(lifted.hop_index, 3);
    assert_eq!(lifted.vibrato_t_ms, 90);
    assert_eq!(lifted.t_ms, 100);
    assert_eq!(lifted.vibrato_depth, f(30.0));
}
