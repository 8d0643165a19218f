use gurukul::features::FeatureSnapshot;
use gurukul::ieee::{F32, F64};
use gurukul::music::{Scale, ScaleIntervals, Tuning, TuningKind};
use gurukul::port::{CoachEvent, Command, SessionState};
use gurukul::shell::AppState;
use gurukul::time_graph::mesh::Aabb;
use gurukul::trace::geom::{
    name_repeats, path_segment, record_geom, widget_path, GeomKey, GeomMemory, Measured, TreeNode,
};
use gurukul::trace::input::{
    inject, inject_all, record_inputs, ButtonState, Injected, InputRecord, KeyCode, MouseButton,
    TouchPhase, WheelUnit, WindowEvent,
};
use gurukul::trace::load::{FrameRecords, Header, LoadedTrace};
use gurukul::trace::record::{
    opt_state, record_coach, record_marks, record_poly, record_state, run_header, Body, CoachRead,
    GeomFields, TraceBuffer, TraceGeom,
};
use gurukul::trace::replay::{DriveStep, ReplayCoach, ReplayDriver};

fn f(x: f32) -> F32 {
    F32 { bits: x.to_bits() }
}

fn d(x: f64) -> F64 {
    F64 { bits: x.to_bits() }
}

fn snap(hop_index: u64) -> FeatureSnapshot {
    FeatureSnapshot {
        hop_index,
        f0_hz: f(440.0),
        confidence: f(0.9),
        onset: f(0.0),
        breath: f(0.0),
        vibrato_rate: f(0.0),
        vibrato_depth: f(0.0),
        vibrato_t_ms: hop_index,
        t_ms: hop_index,
    }
}

fn scale() -> Scale {
    Scale {
        intervals: ScaleIntervals::from_mask(1),
        tuning: Tuning {
            kind: TuningKind::TwelveTet,
            shift: 0,
            rotation: f(0.0),
        },
        octave: 8,
    }
}

// ---- records ----

#[test]
fn the_header_of_a_run_names_its_window() {
    let r = run_header(
        "0.1.0".to_string(),
        Some((f(800.0), f(600.0), f(2.0))),
        "now".to_string(),
        None,
    );
    assert_eq!(r.f, 0);
    match r.body {
        Body::Run {
            schema,
            window_logical,
            scale_factor,
            replay_of,
            ..
        } => {
            assert_eq!(schema, 4);
            assert_eq!(window_logical, (f(800.0), f(600.0)));
            assert_eq!(scale_factor, f(2.0));
            assert_eq!(replay_of, None);
        }
        _ => panic!("expected a header"),
    }
    match run_header(String::new(), None, String::new(), Some("x".to_string())).body {
        Body::Run {
            window_logical,
            scale_factor,
            replay_of,
            ..
        } => {
            assert_eq!(window_logical, (f(0.0), f(0.0)));
            assert_eq!(scale_factor, f(1.0));
            assert_eq!(replay_of.as_deref(), Some("x"));
        }
        _ => panic!("expected a header"),
    }
}

#[test]
fn states_are_written_by_name() {
    assert_eq!(opt_state(None), "—");
    assert_eq!(opt_state(Some(AppState::Paused)), "Paused");
    match record_state(7, None, Some(AppState::MainMenu)).body {
        Body::State { from, to } => {
            assert_eq!(from, "—");
            assert_eq!(to, "MainMenu");
        }
        _ => panic!("expected a state"),
    }
}

#[test]
fn markers_are_counted() {
    let mut counter = 0;
    assert!(record_marks(0, false, &mut counter).is_none());
    for n in [1, 2] {
        let record = record_marks(7, true, &mut counter).expect("a marker");
        assert_eq!(record.f, 7);
        assert!(matches!(record.body, Body::Mark { marker } if marker == n));
    }
}

#[test]
fn a_frames_traffic_is_recorded_in_order() {
    let mut b = TraceBuffer::new();
    assert!(b.is_quiet());
    assert!(record_coach(b.take(), 3).is_empty(), "a quiet frame");

    b.note_command(&Command::AudioListDevices);
    b.note_command(&Command::AudioStopSession);
    let records = record_coach(b.take(), 3);
    assert_eq!(records.len(), 2, "commands alone leave no read");
    assert!(b.is_quiet(), "what was taken is gone");

    let out = vec![
        CoachEvent::EventsDropped { count: 1 },
        CoachEvent::AudioSessionStateChanged {
            new_state: SessionState::Running,
        },
    ];
    b.note_events(&out, 1);
    b.note_latest(Some(snap(9)));
    b.note_drained(&vec![snap(7), snap(8), snap(9)], 1);
    b.note_command(&Command::MusicListScales);
    let records = record_coach(b.take(), 4);
    assert_eq!(records.len(), 2);
    assert!(records.iter().all(|r| r.f == 4));
    match &records[0].body {
        Body::Coach(read) => {
            assert_eq!(read.events, out[1..]);
            assert_eq!(read.latest, Some(snap(9)));
            assert_eq!(read.drained, vec![snap(8), snap(9)]);
        }
        _ => panic!("expected a read first"),
    }
    assert!(matches!(
        &records[1].body,
        Body::Cmd {
            command: Command::MusicListScales
        }
    ));
}

// ---- inputs ----

fn every_event() -> Vec<WindowEvent> {
    vec![
        WindowEvent::CursorMoved {
            x: f(640.0),
            y: f(360.0),
        },
        WindowEvent::MouseButtonInput {
            button: "Left".to_string(),
            state: ButtonState::Pressed,
        },
        WindowEvent::Other,
        WindowEvent::MouseButtonInput {
            button: "Left".to_string(),
            state: ButtonState::Released,
        },
        WindowEvent::KeyboardInput {
            key: "Escape".to_string(),
            state: ButtonState::Pressed,
            repeat: true,
        },
        WindowEvent::KeyboardFocusLost,
        WindowEvent::CursorEntered,
        WindowEvent::CursorLeft,
        WindowEvent::MouseWheel {
            unit: "Pixel".to_string(),
            x: f(0.0),
            y: f(-3.0),
        },
        WindowEvent::TouchInput {
            phase: "Moved".to_string(),
            x: f(1.0),
            y: f(2.0),
            id: 4,
        },
        WindowEvent::Resized {
            width: f(800.0),
            height: f(600.0),
        },
        WindowEvent::ScaleFactorChanged {
            scale_factor: d(2.0),
        },
    ]
}

#[test]
fn inputs_come_back_in_order() {
    let records = record_inputs(&every_event());
    assert_eq!(records.len(), 11);
    assert_eq!(
        inject_all(&records),
        vec![
            Injected::Cursor {
                x: f(640.0),
                y: f(360.0)
            },
            Injected::MouseButton {
                button: MouseButton::Left,
                state: ButtonState::Pressed
            },
            Injected::MouseButton {
                button: MouseButton::Left,
                state: ButtonState::Released
            },
            Injected::Key {
                key: KeyCode::Escape,
                state: ButtonState::Pressed,
                repeat: true
            },
            Injected::KeyboardFocusLost,
            Injected::CursorEntered,
            Injected::CursorLeft,
            Injected::Wheel {
                unit: WheelUnit::Pixel,
                x: f(0.0),
                y: f(-3.0)
            },
            Injected::Touch {
                phase: TouchPhase::Moved,
                x: f(1.0),
                y: f(2.0),
                id: 4
            },
            Injected::Resize {
                width: f(800.0),
                height: f(600.0)
            },
            Injected::ScaleFactor {
                scale_factor: d(2.0)
            },
        ]
    );
}

#[test]
fn what_is_not_bound_is_not_injected() {
    let key = |key: &str| InputRecord::Key {
        key: key.to_string(),
        state: "pressed".to_string(),
        repeat: false,
    };
    assert_eq!(inject(&key("KeyQ")), None);
    assert!(inject(&key("F10")).is_some());
    let button = InputRecord::MouseButton {
        button: "Forward".to_string(),
        state: "released".to_string(),
    };
    assert_eq!(inject(&button), None);
}

// ---- geometry ----

fn node(name: Option<&str>, parent: Option<usize>, children: &[usize]) -> TreeNode {
    TreeNode {
        name: name.map(String::from),
        parent,
        children: children.to_vec(),
    }
}

#[test]
fn widgets_are_named_by_their_ancestry() {
    let tree = vec![
        node(Some("root"), None, &[1, 2, 3, 4]),
        node(Some("row"), Some(0), &[]),
        node(Some("row"), Some(0), &[]),
        node(None, Some(0), &[]),
        node(Some("hub"), Some(0), &[5]),
        node(None, Some(4), &[]),
    ];
    assert!(name_repeats(&tree, &tree[0].children, "row"));
    assert!(!name_repeats(&tree, &tree[0].children, "hub"));
    assert_eq!(path_segment(&tree, 1), "row.0");
    assert_eq!(path_segment(&tree, 2), "row.1");
    assert_eq!(path_segment(&tree, 3), ".2");
    assert_eq!(path_segment(&tree, 4), "hub");
    assert_eq!(widget_path(&tree, 5), "root/hub/.0");
    assert_eq!(widget_path(&tree, 0), "root");
}

fn key(width: i64) -> GeomKey {
    GeomKey {
        width,
        height: 10,
        min_x: 0,
        min_y: 0,
        max_x: 1,
        max_y: 1,
        clip: None,
        angle: 0,
        scale_factor: 10,
    }
}

fn measured(path: &str, entity: u64, width: i64) -> Measured {
    Measured {
        path: path.to_string(),
        entity,
        key: key(width),
        fields: GeomFields {
            width: f(width as f32 / 10.0),
            height: f(1.0),
            rect: Aabb {
                min_x: f(0.0),
                min_y: f(0.0),
                max_x: f(1.0),
                max_y: f(1.0),
            },
            clip: None,
            angle: f(0.0),
            scale_factor: f(1.0),
        },
    }
}

#[test]
fn only_changes_and_losses_are_recorded() {
    let mut memory = GeomMemory::new();
    let first = vec![measured("a", 1, 5), measured("b", 2, 6)];
    assert_eq!(record_geom(&mut memory, &first).len(), 2, "both are new");
    assert!(record_geom(&mut memory, &first).is_empty(), "a still frame");

    let records = record_geom(&mut memory, &vec![measured("a", 1, 7)]);
    assert_eq!(records.len(), 2);
    assert_eq!(records[0].path, "a");
    assert!(!records[0].gone && records[0].fields.is_some());
    assert_eq!(records[1].path, "b");
    assert_eq!(records[1].entity, 2);
    assert!(records[1].gone && records[1].fields.is_none());
    // Replaced in place by another entity, and the loss is not told again.
    assert!(record_geom(&mut memory, &vec![measured("a", 9, 7)]).is_empty());
}

// ---- replay ----

fn nothing() -> CoachRead {
    CoachRead {
        events: vec![],
        latest: None,
        drained: vec![],
    }
}

#[test]
fn a_replayed_read_is_served_once() {
    let mut coach = ReplayCoach::new();
    assert!(coach.music_info().is_none());
    coach.load_frame(CoachRead {
        events: vec![CoachEvent::MusicSessionConfigured { scale: scale() }],
        latest: Some(snap(5)),
        drained: vec![snap(4), snap(5)],
    });
    assert_eq!(coach.music_info().unwrap().scale, scale());
    let mut events = vec![];
    coach.poll_events(&mut events);
    coach.poll_events(&mut events);
    assert_eq!(events.len(), 1);
    let mut drained = vec![];
    coach.drain_features(&mut drained);
    coach.drain_features(&mut drained);
    assert_eq!(drained, vec![snap(4), snap(5)]);
    assert_eq!(coach.latest_features(), Some(snap(5)));
    coach.load_frame(nothing());
    assert_eq!(coach.latest_features(), None);
    assert_eq!(coach.music_info().unwrap().scale, scale(), "music persists");
}

fn trace() -> LoadedTrace {
    LoadedTrace {
        header: Header {
            schema: 4,
            width: d(800.0),
            height: d(600.0),
            scale_factor: d(1.0),
        },
        frames: vec![
            FrameRecords {
                frame: 1,
                delta_s: Some(d(0.25)),
                coach: None,
                inputs: vec![InputRecord::CursorEntered],
            },
            FrameRecords {
                frame: 4,
                delta_s: None,
                coach: Some(nothing()),
                inputs: vec![],
            },
        ],
    }
}

#[test]
fn the_driver_serves_each_frame_and_leaves() {
    let mut driver = ReplayDriver::new(trace(), false);
    assert_eq!(driver.first_delta(), d(0.25));
    match driver.drive() {
        DriveStep::Serve {
            delta_s,
            coach,
            inputs,
            warnings,
        } => {
            assert_eq!(delta_s, Some(d(0.25)));
            assert!(coach.is_none());
            assert_eq!(inputs, vec![Injected::CursorEntered]);
            assert!(warnings.is_empty());
        }
        _ => panic!("expected a frame"),
    }
    assert_eq!(driver.first_delta(), d(0.0), "not recorded");
    assert!(matches!(
        driver.drive(),
        DriveStep::Serve {
            delta_s: None,
            coach: Some(_),
            ..
        }
    ));
    assert!(matches!(driver.drive(), DriveStep::Exit));
    assert!(matches!(driver.drive(), DriveStep::Exit));
}

#[test]
fn the_driver_holds_the_window_when_asked() {
    let mut driver = ReplayDriver::new(trace(), true);
    driver.drive();
    driver.drive();
    assert!(matches!(driver.drive(), DriveStep::Hold));
}

fn box_of(x0: f32, y0: f32, x1: f32, y1: f32) -> Aabb {
    Aabb { min_x: f(x0), min_y: f(y0), max_x: f(x1), max_y: f(y1) }
}

#[test]
fn the_drawn_line_is_recorded_stretch_by_stretch() {
    let drawn = |n: usize| TraceGeom {
        lane_logical: (0..n).map(|i| (f(i as f32), f(1.0))).collect(),
        aabb_px: box_of(0.0, 0.0, 4.0, 4.0),
        clipped_aabb_px: box_of(1.0, 0.0, 4.0, 4.0),
        scale_factor: f(2.0),
    };
    let records = record_poly(9, vec![drawn(2), drawn(5)], Some((f(300.0), f(120.0))));
    assert_eq!(records.len(), 2);
    for (record, count) in records.iter().zip([2, 5]) {
        assert_eq!(record.f, 9);
        let Body::Poly(p) = &record.body else {
            panic!("not a stretch");
        };
        assert_eq!(p.path, "time_graph/pitch_lane/trace");
        assert_eq!(p.point_count, count);
        assert_eq!(p.lane_logical.len(), count);
        assert_eq!(p.lane_size, (f(300.0), f(120.0)));
        assert_eq!(p.clipped_aabb_px, box_of(1.0, 0.0, 4.0, 4.0));
    }
    let unmeasured = record_poly(0, vec![drawn(1)], None);
    assert!(matches!(&unmeasured[0].body, Body::Poly(p) if p.lane_size == (f(0.0), f(0.0))));
    assert!(record_poly(0, vec![], None).is_empty());
}

#[test]
fn a_replayed_frame_reads_what_was_read() {
    let polled = vec![
        CoachEvent::MusicSessionConfigured { scale: scale() },
        CoachEvent::EventsDropped { count: 3 },
    ];
    let mut noted = TraceBuffer::new();
    noted.note_events(&polled, 0);
    noted.note_latest(Some(snap(5)));
    noted.note_drained(&vec![snap(4), snap(5)], 0);
    let mut records = record_coach(noted.take(), 8);
    assert_eq!(records.len(), 1);
    let Body::Coach(read) = records.remove(0).body else {
        panic!("not a read");
    };

    let mut coach = ReplayCoach::new();
    coach.load_frame(read);
    let mut events = vec![];
    coach.poll_events(&mut events);
    assert_eq!(events, polled);
    assert_eq!(coach.latest_features(), Some(snap(5)));
    let mut drained = vec![];
    coach.drain_features(&mut drained);
    assert_eq!(drained, vec![snap(4), snap(5)]);
    assert_eq!(coach.music_info().map(|info| info.scale), Some(scale()));
}

#[test]
fn inputs_that_a_replay_drops_are_logged() {
    let mut trace = trace();
    trace.frames[0].inputs = vec![
        InputRecord::Key {
            key: "KeyQ".to_string(),
            state: "pressed".to_string(),
            repeat: false,
        },
        InputRecord::Key {
            key: "Escape".to_string(),
            state: "pressed".to_string(),
            repeat: false,
        },
        InputRecord::MouseButton {
            button: "Other(\"7\")".to_string(),
            state: "released".to_string(),
        },
        InputRecord::Touch {
            phase: "Unknown".to_string(),
            x: F32 { bits: 0 },
            y: F32 { bits: 0 },
            id: 1,
        },
    ];
    let mut driver = ReplayDriver::new(trace, false);
    match driver.drive() {
        DriveStep::Serve {
            inputs, warnings, ..
        } => {
            assert_eq!(inputs.len(), 1);
            assert_eq!(
                warnings,
                vec![
                    "replay: unmapped key \"KeyQ\" — dropping (extend decode_key)".to_string(),
                    "replay: unmapped mouse button \"Other(\\\"7\\\")\" — dropping".to_string(),
                ]
            );
        }
        _ => panic!("expected a frame"),
    }
}
