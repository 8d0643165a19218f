use flate2::write::GzEncoder;
use flate2::Compression;
use gurukul::features::FeatureSnapshot;
use gurukul::ieee::{F32, F64};
use gurukul::trace::input::InputRecord;
use gurukul::trace::json::{get_bits, get_items, get_number, get_string};
use gurukul::trace::load::{
    bad_coach, bad_input, decode_gz, file_payloads, load, parse_header, trace_lines, FailureKind,
    Filed, LoadError, LoadedTrace, Loading, Payload,
};
use gurukul::trace::record::CoachRead;
use gurukul::trace::writer::{write_all, TraceWriter};
use serde_json::Value;
use std::io::{Read, Write};

const HEADER_V4: &str = r#"{"f":0,"k":"run","schema":4,"app_version":"0.1.0","window_logical":[800.0,600.0],"scale_factor":2.0,"wall_start":"2026-06-10 00:00:00 UTC"}"#;

fn value(text: &str) -> Value {
    text.parse().unwrap()
}

fn single(v: &Value, key: &str) -> F32 {
    let x = f64::from_bits(get_bits(v, key).unwrap_or(0)) as f32;
    F32 { bits: x.to_bits() }
}

fn double(x: f64) -> F64 {
    F64 { bits: x.to_bits() }
}

fn gz(text: &str) -> Vec<u8> {
    let mut gz = GzEncoder::new(Vec::new(), Compression::fast());
    gz.write_all(text.as_bytes()).unwrap();
    gz.finish().unwrap()
}

/// The snapshots of a coach line.
fn read_of(line: &str) -> CoachRead {
    let v = value(line);
    let drained = get_items(&v, "drained")
        .unwrap()
        .iter()
        .map(|d| FeatureSnapshot {
            hop_index: get_number(d, "hop_index").unwrap(),
            f0_hz: single(d, "f0_hz"),
            confidence: single(d, "confidence"),
            onset: single(d, "onset"),
            breath: single(d, "breath"),
            vibrato_rate: single(d, "vibrato_rate"),
            vibrato_depth: single(d, "vibrato_depth"),
            vibrato_t_ms: 0,
            t_ms: get_number(d, "t_ms").unwrap(),
        })
        .collect();
    CoachRead {
        events: vec![],
        latest: None,
        drained,
    }
}

fn input_of(line: &str) -> InputRecord {
    let v = value(line);
    let text = |key: &str| get_string(&v, key).unwrap().to_string();
    match get_string(&v, "input").unwrap() {
        "cursor" => {
            let pos = get_items(&v, "pos").unwrap();
            let at = |i: usize| F32 {
                bits: (pos[i].as_f64().unwrap() as f32).to_bits(),
            };
            InputRecord::Cursor { x: at(0), y: at(1) }
        }
        "mouse_button" => InputRecord::MouseButton {
            button: text("button"),
            state: text("state"),
        },
        "key" => InputRecord::Key {
            key: text("key"),
            state: text("state"),
            repeat: false,
        },
        other => panic!("no such input: {other}"),
    }
}

/// Files the payloads that a load leaves pending.
fn complete(loading: Loading) -> Result<LoadedTrace, LoadError> {
    let payloads = loading
        .pending
        .iter()
        .map(|p| match p.payload {
            Payload::Nothing => Ok(Filed::Nothing),
            Payload::Coach(_) => Ok(Filed::Coach(read_of(&p.line))),
            Payload::Input(_) => Ok(Filed::Input(input_of(&p.line))),
        })
        .collect();
    file_payloads(loading, payloads)
}

fn load_raw(raw: &[u8]) -> Result<LoadedTrace, LoadError> {
    load("run-ux.jsonl.gz", raw).and_then(complete)
}

fn load_lines(lines: &[&str]) -> Result<LoadedTrace, LoadError> {
    load_raw(&gz(&lines.join("\n")))
}

fn refused(lines: &[&str]) -> LoadError {
    match load_lines(lines) {
        Ok(_) => panic!("must be refused"),
        Err(e) => e,
    }
}

#[test]
fn parses_each_record_kind() {
    let trace = load_lines(&[
        HEADER_V4,
        r#"{"f":1,"k":"frame","delta_s":0.016}"#,
        r#"{"f":1,"k":"coach","drained":[{"hop_index":1,"f0_hz":222.0,"confidence":0.7,"onset":0.0,"breath":0.0,"vibrato_rate":0.0,"vibrato_depth":0.0,"t_ms":1010}]}"#,
        r#"{"f":1,"k":"input","input":"cursor","pos":[640.0,360.0]}"#,
        r#"{"f":1,"k":"input","input":"mouse_button","button":"Left","state":"pressed"}"#,
        r#"{"f":1,"k":"input","input":"key","key":"F8","state":"pressed","repeat":false}"#,
        r#"{"f":1,"k":"state","from":"—","to":"MainMenu"}"#,
        r#"{"f":2,"k":"frame","delta_s":0.017}"#,
    ])
    .expect("loads");
    assert_eq!(trace.header.schema, 4);
    assert_eq!(trace.header.width, double(800.0));
    assert_eq!(trace.header.height, double(600.0));
    assert_eq!(trace.header.scale_factor, double(2.0));
    assert_eq!(trace.frames.len(), 2, "two frames produced records");

    let f1 = &trace.frames[0];
    assert_eq!(f1.frame, 1);
    assert_eq!(f1.delta_s, Some(double(0.016)));
    let coach = f1.coach.as_ref().expect("coach record on frame 1");
    assert_eq!(coach.drained.len(), 1);
    assert!((f32::from_bits(coach.drained[0].f0_hz.bits) - 222.0).abs() < 1e-3);
    // Three inputs this frame, in recorded order: a click needs the cursor move
    // before it.
    assert_eq!(f1.inputs.len(), 3);
    match &f1.inputs[0] {
        InputRecord::Cursor { x, y } => {
            assert_eq!(f32::from_bits(x.bits), 640.0);
            assert_eq!(f32::from_bits(y.bits), 360.0);
        }
        other => panic!("expected a cursor input first, got {other:?}"),
    }
    match &f1.inputs[1] {
        InputRecord::MouseButton { button, state } => {
            assert_eq!(button, "Left");
            assert_eq!(state, "pressed");
        }
        other => panic!("expected a mouse-button input second, got {other:?}"),
    }
    match &f1.inputs[2] {
        InputRecord::Key { key, state, .. } => {
            assert_eq!(key, "F8");
            assert_eq!(state, "pressed");
        }
        other => panic!("expected a key input third, got {other:?}"),
    }
    assert_eq!(trace.last_frame(), 2);
}

#[test]
fn refuses_wrong_schema() {
    let bad_header = r#"{"f":0,"k":"run","schema":1,"app_version":"0.1.0","window_logical":[800.0,600.0],"scale_factor":2.0,"wall_start":"x"}"#;
    let e = refused(&[bad_header]);
    assert_eq!(e.kind, FailureKind::InvalidData);
    assert!(e.message.contains("schema 1"), "got {}", e.message);
}

/// Lines flushed one by one, without the trailer: what a killed run leaves.
fn trailerless_gz(lines: &[&str], tail: &[u8]) -> Vec<u8> {
    let mut gz = GzEncoder::new(Vec::new(), Compression::fast());
    for line in lines {
        gz.write_all(line.as_bytes()).unwrap();
        gz.write_all(b"\n").unwrap();
        gz.flush().unwrap();
    }
    gz.write_all(tail).unwrap();
    gz.flush().unwrap();
    let cut = gz.get_ref().len();
    let mut raw = gz.finish().unwrap();
    raw.truncate(cut);
    raw
}

#[test]
fn truncated_stream_recovers_flushed_lines() {
    let raw = trailerless_gz(
        &[
            HEADER_V4,
            r#"{"f":1,"k":"frame","delta_s":0.016}"#,
            r#"{"f":2,"k":"frame","delta_s":0.017}"#,
        ],
        b"",
    );
    assert!(
        flate2::read::GzDecoder::new(&raw[..])
            .read_to_string(&mut String::new())
            .is_err(),
        "fixture must be trailerless, else the recovery path is untested"
    );
    let trace = load_raw(&raw).expect("truncated stream must still load");
    assert_eq!(trace.frames.len(), 2, "both flushed frames are recovered");
    assert_eq!(trace.frames[0].frame, 1);
    assert_eq!(trace.frames[1].frame, 2);
    assert_eq!(trace.frames[0].delta_s, Some(double(0.016)));
    assert_eq!(trace.frames[1].delta_s, Some(double(0.017)));
}

#[test]
fn truncated_stream_drops_partial_final_line() {
    let raw = trailerless_gz(
        &[HEADER_V4, r#"{"f":1,"k":"frame","delta_s":0.016}"#],
        br#"{"f":2,"k":"fra"#,
    );
    let trace = load_raw(&raw).expect("partial final line must not fail the load");
    assert_eq!(trace.frames.len(), 1, "the partial line is dropped");
    assert_eq!(trace.frames[0].frame, 1);
}

#[test]
fn refusals_say_what_is_wrong() {
    assert_eq!(refused(&[""]).message, "run-ux.jsonl.gz: empty trace");
    let e = refused(&["{"]);
    assert!(e.message.starts_with("bad header json: "), "{}", e.message);
    let e = refused(&[HEADER_V4, "nonsense"]);
    assert_eq!(e.kind, FailureKind::InvalidData);
    assert!(e.message.starts_with("bad json line: "), "{}", e.message);
    let e = refused(&[r#"{"f":0,"k":"frame"}"#]);
    assert_eq!(e.kind, FailureKind::InvalidData);
    let e = refused(&[HEADER_V4, r#"{"k":"frame"}"#]);
    assert_eq!(e.message, r#"record missing `f`: {"k":"frame"}"#);
    let e = refused(&[HEADER_V4, r#"{"f":3}"#]);
    assert_eq!(e.message, r#"record missing `k`: {"f":3}"#);
    let e = load_raw(b"this is no stream").err().unwrap();
    assert!(e.message.starts_with("run-ux.jsonl.gz: "), "{}", e.message);
    assert_eq!(bad_coach("x").message, "bad coach record: x");
    assert_eq!(bad_input("x").message, "bad input record: x");
}

#[test]
fn bytes_that_are_no_text_are_refused() {
    let mut gz = GzEncoder::new(Vec::new(), Compression::fast());
    gz.write_all(&[0xff, 0xfe, b'\n']).unwrap();
    let raw = gz.finish().unwrap();
    let e = decode_gz("p", &raw).err().unwrap();
    assert_eq!(e.kind, FailureKind::InvalidData);
    assert_eq!(e.message, "p: stream did not contain valid UTF-8");
}

#[test]
fn a_header_is_read_field_by_field() {
    let h = parse_header(r#"{"f":0,"k":"run","schema":4,"window_logical":[]}"#).unwrap();
    assert_eq!(h.schema, 4);
    assert_eq!(h.width, double(0.0));
    assert_eq!(h.height, double(0.0));
    assert_eq!(h.scale_factor, double(1.0));
    assert_eq!(
        parse_header(r#"{"k":"run","schema":4}"#),
        Err("header missing `window_logical`".to_string())
    );
    assert_eq!(
        parse_header(r#"{"k":"run"}"#),
        Err("header missing `schema`".to_string())
    );
    assert_eq!(
        parse_header(r#"{"k":"frame"}"#),
        Err(r#"first line is not a `run` header: {"k":"frame"}"#.to_string())
    );
}

#[test]
fn blank_lines_hold_no_record() {
    assert_eq!(
        trace_lines("a\n\n  \nb\r\nc"),
        vec!["a".to_string(), "b".to_string(), "c".to_string()]
    );
}

#[test]
fn frames_are_filed_in_order_whatever_the_order_of_lines() {
    let trace = load_lines(&[
        HEADER_V4,
        r#"{"f":5,"k":"frame","delta_s":0.5}"#,
        r#"{"f":2,"k":"frame","delta_s":0.2}"#,
        r#"{"f":5,"k":"input","input":"key","key":"F8","state":"pressed"}"#,
        r#"{"f":9,"k":"geom","path":"x"}"#,
    ])
    .unwrap();
    assert_eq!(
        trace.frames.iter().map(|f| f.frame).collect::<Vec<_>>(),
        vec![2, 5, 9],
        "a record that is not replayed still opens its frame"
    );
    assert_eq!(trace.frames[1].inputs.len(), 1);
    assert_eq!(trace.last_frame(), 9);
}

// ---- the writer ----

fn lines() -> Vec<String> {
    vec![
        HEADER_V4.to_string(),
        r#"{"f":1,"k":"frame","delta_s":0.016}"#.to_string(),
        r#"{"f":1,"k":"state","from":"—","to":"MainMenu"}"#.to_string(),
    ]
}

#[test]
fn flushed_lines_survive_a_kill() {
    let mut w = TraceWriter::create();
    assert!(write_all(&mut w, &lines()));
    assert!(w.flush());
    let mut raw = w.take_bytes().unwrap();
    let text = decode_gz("p", &raw).unwrap();
    assert_eq!(trace_lines(&text), lines());
    // What is written behind the last flush may be lost, what was flushed not.
    assert!(w.write("late"));
    raw.extend(w.take_bytes().unwrap());
    let text = decode_gz("p", &raw).unwrap();
    assert_eq!(trace_lines(&text), lines());
}

#[test]
fn a_flush_of_nothing_decodes_to_nothing() {
    let mut w = TraceWriter::create();
    assert!(w.flush());
    assert_eq!(decode_gz("p", &w.take_bytes().unwrap()).unwrap(), "");
}

#[test]
fn a_finished_trace_is_read_back() {
    let mut w = TraceWriter::create();
    assert!(write_all(&mut w, &lines()));
    assert!(w.is_open());
    let raw = w.finish().unwrap();
    assert!(!w.is_open());
    let mut plain = String::new();
    flate2::read::GzDecoder::new(&raw[..])
        .read_to_string(&mut plain)
        .expect("a complete stream");
    assert_eq!(plain, lines().join("\n") + "\n");
    assert_eq!(trace_lines(&decode_gz("p", &raw).unwrap()), lines());
    let trace = load_raw(&raw).unwrap();
    assert_eq!(trace.frames.len(), 1);
}

#[test]
fn a_finished_writer_is_inert() {
    let mut w = TraceWriter::create();
    w.finish();
    assert!(!w.write("x"));
    assert!(!w.flush());
    assert!(w.take_bytes().is_none());
    assert!(w.finish().is_none());
}

/// Printable characters in no order that a compressor could use.
fn noise(n: usize, seed: u64) -> String {
    let mut x = seed;
    (0..n)
        .map(|_| {
            x = x
                .wrapping_mul(6_364_136_223_846_793_005)
                .wrapping_add(1_442_695_040_888_963_407);
            char::from(b' ' + ((x >> 33) % 95) as u8)
        })
        .collect()
}

#[test]
fn a_flush_brings_out_long_runs_of_noise() {
    let sizes = [
        4_095, 4_096, 32_768, 57_343, 57_344, 57_345, 58_000, 58_247, 58_248, 58_249, 59_000,
        60_000, 61_439, 61_440, 61_441, 65_536, 100_000, 122_880, 300_000,
    ];
    for (i, n) in sizes.into_iter().enumerate() {
        let line = format!("x{}x", noise(n, i as u64));
        let mut w = TraceWriter::create();
        assert!(w.write(&line));
        assert!(w.flush());
        let raw = w.take_bytes().unwrap();
        assert_eq!(decode_gz("p", &raw).unwrap(), line + "\n", "{n} characters");
    }
}

#[test]
fn every_flush_of_a_long_run_keeps_all_lines() {
    let mut w = TraceWriter::create();
    let mut raw = Vec::new();
    let mut text = String::new();
    for (i, n) in [60_000, 10, 61_440, 0, 57_500, 59_999].into_iter().enumerate() {
        let line = format!("x{}x", noise(n, 100 + i as u64));
        assert!(w.write(&line));
        text += &(line + "\n");
        assert!(w.flush());
        raw.extend(w.take_bytes().unwrap());
        assert_eq!(decode_gz("p", &raw).unwrap(), text);
    }
    raw.extend(w.finish().unwrap());
    let mut plain = String::new();
    flate2::read::GzDecoder::new(&raw[..])
        .read_to_string(&mut plain)
        .expect("a complete stream");
    assert_eq!(plain, text);
}

#[test]
fn bytes_are_taken_away_once() {
    let mut w = TraceWriter::create();
    assert!(write_all(&mut w, &lines()));
    assert!(w.flush());
    assert!(!w.take_bytes().unwrap().is_empty());
    assert!(w.take_bytes().unwrap().is_empty());
}

#[test]
fn the_first_failure_of_a_trace_counts() {
    let raw = gz(&[
        HEADER_V4,
        r#"{"f":1,"k":"coach"}"#,
        r#"{"f":2,"k":"input","input":"cursor","pos":[1.0,2.0]}"#,
        "no record",
    ]
    .join("\n"));
    let read = |first: Result<Filed, String>, second: Result<Filed, String>| {
        let loading = load("p", &raw).unwrap();
        assert_eq!(loading.pending.len(), 2);
        match file_payloads(loading, vec![first, second]) {
            Ok(_) => panic!("must be refused"),
            Err(e) => e.message,
        }
    };
    let coach = || {
        Ok(Filed::Coach(CoachRead {
            events: vec![],
            latest: None,
            drained: vec![],
        }))
    };
    let input = || Ok(Filed::Input(InputRecord::CursorLeft));
    assert_eq!(
        read(Err("a".to_string()), Err("b".to_string())),
        "bad coach record: a"
    );
    assert_eq!(read(coach(), Err("b".to_string())), "bad input record: b");
    assert!(read(coach(), input()).starts_with("bad json line: "));
}

#[test]
fn inputs_are_filed_in_recorded_order() {
    let trace = load_lines(&[
        HEADER_V4,
        r#"{"f":7,"k":"input","input":"key","key":"F8","state":"pressed"}"#,
        r#"{"f":3,"k":"input","input":"key","key":"Escape","state":"pressed"}"#,
        r#"{"f":7,"k":"input","input":"key","key":"F10","state":"pressed"}"#,
        r#"{"f":5,"k":"geom"}"#,
    ])
    .unwrap();
    let keys: Vec<(u32, Vec<String>)> = trace
        .frames
        .iter()
        .map(|f| {
            let keys = f
                .inputs
                .iter()
                .map(|i| match i {
                    InputRecord::Key { key, .. } => key.clone(),
                    _ => panic!("only keys were recorded"),
                })
                .collect();
            (f.frame, keys)
        })
        .collect();
    assert_eq!(
        keys,
        vec![
            (3, vec!["Escape".to_string()]),
            (5, vec![]),
            (7, vec!["F8".to_string(), "F10".to_string()]),
        ]
    );
    assert_eq!(trace.last_frame(), 7);
}

#[test]
fn lines_of_white_space_alone_are_passed_over() {
    let blank = "\u{9}\u{b}\u{c} \u{85}\u{a0}\u{1680}\u{2000}\u{200a}\u{2028}\u{2029}\u{202f}\u{205f}\u{3000}";
    assert_eq!(
        trace_lines(&format!("a\n{blank}\n\u{200b}\n")),
        vec!["a".to_string(), "\u{200b}".to_string()]
    );
}
