use gurukul::cli::args::{mode, parse_from, refusal_text, Args, ArgsError, Mode};
use gurukul::cli::report::{
    align_right, cents_column, note_name, paint_cents, print_device_list, print_pitch,
    sample_rates_str, transport_str, PitchLoop, Tone,
};
use gurukul::cli::run::{
    begin, is_fitting, play_step, run_coach, step, wait_for, wait_step, Action, Beat, Job, Seen,
    Stage, Wait,
};
use gurukul::port::{
    AudioConfig, CoachEvent, Command, InputDevice, SampleRateSupport, SessionState,
    ShutdownResult, StreamInfo, Transport,
};

// ---- arguments ----

fn parse(tokens: &[&str]) -> Result<Args, String> {
    parse_from(&tokens.iter().map(|s| s.to_string()).collect())
        .outcome
        .map_err(|e| refusal_text(e).to_string())
}

fn refused(tokens: &[&str]) -> String {
    match parse(tokens) {
        Ok(_) => panic!("must be refused"),
        Err(e) => e,
    }
}

fn accepted(tokens: &[&str]) -> Args {
    match parse(tokens) {
        Ok(a) => a,
        Err(e) => panic!("refused: {e}"),
    }
}

#[test]
fn replay_audio_alone_is_a_live_swap() {
    let a = accepted(&["--replay-audio", "rec.wav"]);
    assert!(a.replay.is_none());
    assert_eq!(a.replay_audio, Some("rec.wav".to_string()));
}

#[test]
fn replay_followed_by_replay_audio_does_not_swallow_the_flag() {
    let err = refused(&["--replay", "--replay-audio", "rec.wav"]);
    assert!(err.contains("mutually exclusive"), "got: {err}");
}

#[test]
fn replay_with_explicit_path_then_other_flag() {
    let a = accepted(&["--replay", "traces/x.gz", "--hold"]);
    assert_eq!(a.replay, Some(Some("traces/x.gz".to_string())));
    assert!(a.hold);
}

#[test]
fn bare_replay_picks_newest() {
    let a = accepted(&["--replay"]);
    assert_eq!(a.replay, Some(None));
}

#[test]
fn replay_audio_without_path_is_an_error() {
    let err = refused(&["--replay-audio"]);
    assert!(err.contains("requires a path"), "got: {err}");
}

#[test]
fn replay_audio_followed_by_flag_is_an_error() {
    let err = refused(&["--replay-audio", "--hold"]);
    assert!(err.contains("requires a path"), "got: {err}");
}

#[test]
fn refusals_are_spelled_out() {
    assert_eq!(
        refusal_text(ArgsError::Exclusive),
        "coach-game: --replay and --replay-audio are mutually exclusive\n\
         --replay replays a UX trace (no engine); --replay-audio swaps the mic (engine runs)"
    );
    assert_eq!(
        refusal_text(ArgsError::MissingPath),
        "coach-game: --replay-audio requires a path argument"
    );
}

#[test]
fn what_means_nothing_is_reported_and_passed_over() {
    let tokens: Vec<String> = ["--fast", "--autostart", "x", "--replay-audio"]
        .iter()
        .map(|s| s.to_string())
        .collect();
    let parsed = parse_from(&tokens);
    assert_eq!(parsed.ignored, vec!["--fast".to_string(), "x".to_string()]);
    assert!(matches!(parsed.outcome, Err(ArgsError::MissingPath)));
}

#[test]
fn of_a_flag_given_twice_the_last_counts() {
    let a = accepted(&["--replay", "a.gz", "--replay", "--hold"]);
    assert_eq!(a.replay, Some(None));
    assert!(a.hold);
}

#[test]
fn a_replay_ignores_autostart() {
    match mode(accepted(&["--replay", "--autostart", "--hold"])) {
        Mode::Replay { path, hold } => {
            assert_eq!(path, None);
            assert!(hold);
        }
        Mode::Live { .. } => panic!("expected a replay"),
    }
    match mode(accepted(&["--autostart"])) {
        Mode::Live {
            replay_audio,
            autostart,
        } => {
            assert_eq!(replay_audio, None);
            assert!(autostart);
        }
        Mode::Replay { .. } => panic!("expected a live session"),
    }
}

// ---- reports ----

fn microphone() -> InputDevice {
    InputDevice {
        name: "Built-in Microphone".to_string(),
        persistent_id: None,
        transport: Transport::BuiltIn,
        streams: vec![
            StreamInfo {
                name: "default".to_string(),
                channels: 2,
                sample_rates: SampleRateSupport::List(vec![44_100, 48_000]),
            },
            StreamInfo {
                name: "raw".to_string(),
                channels: 1,
                sample_rates: SampleRateSupport::Ranges(vec![(8_000, 96_000), (192_000, 192_000)]),
            },
        ],
    }
}

#[test]
fn devices_are_printed_line_by_line() {
    assert_eq!(
        print_device_list(&vec![]),
        vec!["No input devices found.".to_string()]
    );
    let mut usb = microphone();
    usb.name = "USB".to_string();
    usb.persistent_id = Some("usb-1".to_string());
    usb.transport = Transport::Usb;
    usb.streams = vec![];
    assert_eq!(
        print_device_list(&vec![microphone(), usb]).join("\n"),
        "Input devices (2):\n\
         \n\
         \x20 Built-in Microphone\n\
         \x20   transport:     built-in\n\
         \x20   persistent_id: <none>\n\
         \x20   stream: default\n\
         \x20     channels:     2\n\
         \x20     sample_rates: 44100, 48000\n\
         \x20   stream: raw\n\
         \x20     channels:     1\n\
         \x20     sample_rates: 8000-96000, 192000\n\
         \n\
         \x20 USB\n\
         \x20   transport:     usb\n\
         \x20   persistent_id: usb-1"
    );
}

#[test]
fn rates_and_transports_have_words() {
    assert_eq!(sample_rates_str(&SampleRateSupport::ProbeOnly), "probe-only");
    assert_eq!(sample_rates_str(&SampleRateSupport::List(vec![])), "");
    assert_eq!(transport_str(Transport::Bluetooth), "bluetooth");
    assert_eq!(transport_str(Transport::Virtual), "virtual");
    assert_eq!(transport_str(Transport::Unknown), "unknown");
}

#[test]
fn notes_are_named_from_a4() {
    assert_eq!(note_name(0), "A4");
    assert_eq!(note_name(3), "C5");
    assert_eq!(note_name(-9), "C4");
    assert_eq!(note_name(-10), "B3");
    assert_eq!(note_name(1), "A#4");
    assert_eq!(note_name(-69), "C-1");
    assert_eq!(note_name(-70), "B-2");
    for semitones in [-500, -69, -1, 0, 7, 1200, i32::MIN, i32::MAX - 69] {
        let midi = 69 + semitones as i64;
        let names = [
            "C", "C#", "D", "D#", "E", "F", "F#", "G", "G#", "A", "A#", "B",
        ];
        assert_eq!(
            note_name(semitones),
            format!(
                "{}{}",
                names[midi.rem_euclid(12) as usize],
                midi.div_euclid(12) - 1
            )
        );
    }
}

#[test]
fn cents_are_painted_by_band() {
    assert_eq!(paint_cents("x", 5), "\x1b[32mx\x1b[0m");
    assert_eq!(paint_cents("x", -5), "\x1b[32mx\x1b[0m");
    assert_eq!(paint_cents("x", 6), "x");
    assert_eq!(paint_cents("x", -20), "x");
    assert_eq!(paint_cents("x", 21), "\x1b[33mx\x1b[0m");
    assert_eq!(paint_cents("x", i32::MIN), "\x1b[33mx\x1b[0m");
}

#[test]
fn columns_are_aligned_as_the_formatter_does() {
    for cents in [-50, -1, 0, 7, 49, 123_456, i32::MIN] {
        assert_eq!(cents_column(cents), format!("{cents:+5}"));
    }
    for text in ["", "A4", "C#10", "longer than four"] {
        assert_eq!(align_right(text, 4), format!("{text:>4}"));
    }
}

#[test]
fn a_pitch_line_shows_time_frequency_note_and_cents() {
    assert_eq!(print_pitch(1234, &None, true), "[      1234 ms]  --");
    let (t_ms, hz, note, cents) = (99u64, 443.21f32, "A4", 13);
    let tone = Some(Tone {
        hz: format!("{hz:.2}"),
        semitones: 0,
        cents,
    });
    let cents_str = format!("{cents:+5}");
    assert_eq!(
        print_pitch(t_ms, &tone, false),
        format!("[{t_ms:>10} ms]  {hz:>10.2} Hz  {note:>4}  {cents_str} cents")
    );
    let flat = Some(Tone {
        hz: "430.00".to_string(),
        semitones: 0,
        cents: -40,
    });
    assert_eq!(
        print_pitch(7, &flat, true),
        "[         7 ms]      430.00 Hz    A4  \x1b[33m  -40\x1b[0m cents"
    );
}

#[test]
fn a_reading_is_printed_once() {
    let mut l = PitchLoop::new();
    assert!(l.fresh(0));
    assert!(!l.fresh(0));
    assert!(l.fresh(1));
    assert!(l.fresh(0), "only the reading before counts");
}

// ---- jobs ----

fn running() -> Seen {
    Seen::Answer(CoachEvent::AudioSessionStateChanged {
        new_state: SessionState::Running,
    })
}

fn freestyle() -> Job {
    Job::Freestyle {
        duration_ms: 3000,
        persistent_id: Some("usb-1".to_string()),
    }
}

#[test]
fn the_default_job_boots_and_shuts_down() {
    assert_eq!(
        run_coach(),
        vec![
            Action::Boot,
            Action::Shutdown { timeout_ms: 5000 },
            Action::Finish
        ]
    );
    assert_eq!(begin().action, Action::Boot);
}

#[test]
fn listing_devices_prints_the_answer() {
    let turn = step(&Job::ListDevices, Stage::Booting, &Seen::Booted);
    assert_eq!(
        turn.action,
        Action::Ask {
            command: Command::AudioListDevices,
            timeout_ms: 2000
        }
    );
    let answer = Seen::Answer(CoachEvent::AudioDevicesListed { devices: vec![] });
    assert!(is_fitting(turn.stage, &answer));
    let turn = step(&Job::ListDevices, turn.stage, &answer);
    assert_eq!(turn.lines, vec!["No input devices found.".to_string()]);
    assert_eq!(turn.complaint, None);
    assert_eq!(turn.action, Action::Shutdown { timeout_ms: 5000 });

    let turn = step(&Job::ListDevices, Stage::Listing, &Seen::TimedOut);
    assert_eq!(
        turn.complaint.as_deref(),
        Some("list-devices: timed out waiting for DevicesListed")
    );
    assert_eq!(turn.stage, Stage::Closing);
}

#[test]
fn a_freestyle_session_is_started_played_and_stopped() {
    let job = freestyle();
    let turn = step(&job, Stage::Booting, &Seen::Booted);
    assert_eq!(
        turn.action,
        Action::Ask {
            command: Command::AudioStartSession(AudioConfig {
                device_id: Some("usb-1".to_string()),
                sample_rate: None,
                buffer_frames: None,
                session_label: None
            }),
            timeout_ms: 2000
        }
    );
    let turn = step(&job, turn.stage, &running());
    assert_eq!(turn.action, Action::Play { duration_ms: 3000 });
    let turn = step(&job, turn.stage, &Seen::Played);
    assert_eq!(
        turn.action,
        Action::Ask {
            command: Command::AudioStopSession,
            timeout_ms: 2000
        }
    );
    let turn = step(&job, turn.stage, &Seen::TimedOut);
    assert_eq!(turn.action, Action::Shutdown { timeout_ms: 5000 });
    assert_eq!(turn.complaint, None);
    let turn = step(
        &job,
        turn.stage,
        &Seen::ShutDown(ShutdownResult::TimedOut),
    );
    assert_eq!(
        turn.complaint.as_deref(),
        Some("coach-cli: shutdown timed out after 5s")
    );
    assert_eq!(turn.action, Action::Finish);
}

#[test]
fn a_session_that_does_not_come_up_is_complained_of() {
    let job = freestyle();
    let failed = Seen::Answer(CoachEvent::AudioSessionError {
        kind: "DeviceGone".to_string(),
        reason: "unplugged".to_string(),
    });
    let turn = step(&job, Stage::Starting, &failed);
    assert_eq!(
        turn.complaint.as_deref(),
        Some("freestyle: session error: DeviceGone: unplugged")
    );
    assert_eq!(turn.stage, Stage::Closing);
    let turn = step(&job, Stage::Starting, &Seen::TimedOut);
    assert_eq!(
        turn.complaint.as_deref(),
        Some("freestyle: timed out waiting for Running")
    );
}

#[test]
fn only_an_answer_ends_a_wait() {
    let events = vec![
        CoachEvent::EventsDropped { count: 1 },
        CoachEvent::AudioSessionStateChanged {
            new_state: SessionState::Starting,
        },
        CoachEvent::AudioSessionStateChanged {
            new_state: SessionState::Running,
        },
    ];
    assert_eq!(wait_for(Stage::Starting, &events), Some(2));
    assert_eq!(wait_for(Stage::Stopping, &events), None);
    assert_eq!(wait_for(Stage::Listing, &events), None);
    assert!(!is_fitting(Stage::Booting, &Seen::Played));
}

#[test]
fn a_wait_ends_with_an_answer_or_when_its_time_is_up() {
    let answer = vec![CoachEvent::AudioSessionStateChanged {
        new_state: SessionState::Idle,
    }];
    let none = vec![];
    assert_eq!(
        wait_step(Stage::Stopping, &answer, 0, 2_000),
        Wait::Answered(0)
    );
    assert_eq!(
        wait_step(Stage::Stopping, &answer, 9_000, 2_000),
        Wait::Answered(0),
        "an answer counts also when the time is up"
    );
    assert_eq!(
        wait_step(Stage::Stopping, &none, 1_999, 2_000),
        Wait::Sleep(50)
    );
    assert_eq!(wait_step(Stage::Stopping, &none, 2_000, 2_000), Wait::GiveUp);
    assert_eq!(
        wait_step(Stage::Starting, &answer, 0, 2_000),
        Wait::Sleep(50)
    );
}

#[test]
fn a_session_prints_fresh_readings_until_its_time_is_up() {
    let mut pitches = PitchLoop::new();
    let go = |print: bool| Beat::Go {
        print,
        sleep_ms: 50,
    };
    assert_eq!(play_step(&mut pitches, None, 0, 100), go(false));
    assert_eq!(play_step(&mut pitches, Some(5), 10, 100), go(true));
    assert_eq!(play_step(&mut pitches, Some(5), 60, 100), go(false));
    assert_eq!(play_step(&mut pitches, Some(6), 99, 100), go(true));
    assert_eq!(play_step(&mut pitches, Some(7), 100, 100), Beat::Stop);
    assert_eq!(pitches.last_t_ms, 6);
}
