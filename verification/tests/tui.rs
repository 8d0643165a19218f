use gurukul::features::FeatureSnapshot;
use gurukul::ieee::F32;
use gurukul::tui::{
    build_voiced_segments, colourise, console_rows, keeps_window, octave_labels, should_quit,
    tail_start, voiced_semitone_range, Key, LogLine, State, Tint, FEATURE_RING_CAP,
};

fn f(x: f32) -> F32 {
    F32 { bits: x.to_bits() }
}

fn snap(t_ms: u64, f0_hz: f32) -> FeatureSnapshot {
    FeatureSnapshot {
        hop_index: t_ms,
        f0_hz: f(f0_hz),
        confidence: f(1.0),
        onset: f(0.0),
        breath: f(0.0),
        vibrato_rate: f(0.0),
        vibrato_depth: f(0.0),
        vibrato_t_ms: t_ms,
        t_ms,
    }
}

#[test]
fn the_ring_drops_its_oldest() {
    let mut s = State::new();
    for t in 0..600u64 {
        s.ingest(snap(t, 440.0));
        s.ingest(snap(t, 441.0));
    }
    let all = s.snapshots();
    assert_eq!(all.len(), FEATURE_RING_CAP);
    assert_eq!(all[0].t_ms, 88);
    assert_eq!(all[511].t_ms, 599);
    assert_eq!(all[511].f0_hz, f(440.0), "a repeated time is not taken in");
}

#[test]
fn keys_quit_and_toggle_the_console() {
    assert!(should_quit(Key::Char('q'), false));
    assert!(should_quit(Key::Esc, false));
    assert!(should_quit(Key::Char('c'), true));
    assert!(!should_quit(Key::Char('c'), false));
    assert!(!should_quit(Key::Other, true));
    let mut s = State::new();
    assert!(!s.on_key(Key::Char('~'), false, true));
    assert!(s.is_console_open());
    assert!(!s.on_key(Key::Char('~'), false, false));
    assert!(s.is_console_open(), "letting go changes nothing");
    assert!(!s.on_key(Key::Char('~'), false, true));
    assert!(!s.is_console_open());
    assert!(s.on_key(Key::Char('q'), false, true));
    assert!(!s.on_key(Key::Char('q'), false, false));
}

#[test]
fn silence_ends_a_segment_and_age_does_not() {
    let ring = vec![
        snap(0, 440.0),
        snap(100, 440.0),
        snap(5_200, 220.0),
        snap(5_300, 0.0),
        snap(5_400, 0.0),
        snap(5_500, 330.0),
        snap(5_600, 330.0),
    ];
    let segments = build_voiced_segments(&ring, 5_600);
    let ages: Vec<Vec<u64>> = segments
        .iter()
        .map(|s| s.iter().map(|p| p.age_ms).collect())
        .collect();
    assert_eq!(ages, vec![vec![400], vec![100, 0]]);
    let segments = build_voiced_segments(&ring, 5_000);
    assert_eq!(segments[0].len(), 3, "exactly five seconds old is drawn");
    assert_eq!(segments[0][0].age_ms, 5_000);
    assert_eq!(segments[0][2].age_ms, 0, "the future is now");
    assert!(build_voiced_segments(&vec![snap(1, 0.0)], 1).is_empty());
}

#[test]
fn the_range_spans_the_voice() {
    assert_eq!(voiced_semitone_range(&vec![]), None);
    assert_eq!(
        voiced_semitone_range(&vec![f(3.0), f(-2.0), f(7.5)]),
        Some((f(-2.0), f(7.5)))
    );
    assert!(keeps_window(None, f(0.0), f(0.0)));
    assert!(keeps_window(Some((f(-2.0), f(7.5))), f(-2.0), f(7.5)));
    assert!(!keeps_window(Some((f(-2.1), f(7.5))), f(-2.0), f(7.5)));
    assert!(!keeps_window(Some((f(-2.0), f(7.6))), f(-2.0), f(7.5)));
}

#[test]
fn octaves_are_labelled_from_a4() {
    assert_eq!(octave_labels(-2, 1), vec!["A2", "A3", "A4", "A5"]);
    assert_eq!(octave_labels(-6, -5), vec!["A-2", "A-1"]);
    assert!(octave_labels(1, 0).is_empty());
}

#[test]
fn the_console_takes_two_fifths() {
    assert_eq!(console_rows(10), 6);
    assert_eq!(console_rows(30), 12);
    assert_eq!(console_rows(49), 19);
    assert_eq!(console_rows(u16::MAX), 20);
    assert_eq!(tail_start(100, 12), 90);
    assert_eq!(tail_start(5, 12), 0);
    assert_eq!(tail_start(5, 1), 5);
}

#[test]
fn levels_are_tinted() {
    let tint = |line: &str| match colourise(line) {
        LogLine::Level { prefix, tint, rest } => (prefix, tint, rest),
        LogLine::Raw => panic!("no level"),
    };
    assert_eq!(
        tint("[ERROR] mic [lost]"),
        ("[ERROR]".to_string(), Tint::Error, " mic [lost]".to_string())
    );
    assert_eq!(tint("[WARN] x").1, Tint::Yellow);
    assert_eq!(tint("[INFO]").1, Tint::Cyan);
    assert_eq!(tint("[DEBUG] x").1, Tint::Gray);
    assert_eq!(tint("[TRACE] x").1, Tint::Gray);
    assert_eq!(tint("[EVENT] x").1, Tint::Magenta);
    assert_eq!(tint("[info] x").1, Tint::Plain);
    assert!(matches!(colourise("no level"), LogLine::Raw));
}
