use gurukul::coach::ReadModels;
use gurukul::features::Features;
use gurukul::ieee::F32;
use gurukul::music::{MusicInfo, Scale, ScaleIntervals, TuningKind};
use gurukul::port::{
    AudioConfig, AudioInitStatus, CoachEvent, Command, InputDevice, Interruption, Transport,
};
use gurukul::semantic_graph::{GraphProjector, PitchWindow};
use gurukul::shell::{
    default_tonality, end_session, handle_quit, onset_marker, start_label, AppSettings, AppState,
    MusicSelection, NoteSystem, PermissionPrompt, Quit, ReplayAudioEnd, SettingsTab, Shell,
    Signal,
};

fn f(x: f32) -> F32 {
    F32 { bits: x.to_bits() }
}

fn v(x: F32) -> f32 {
    f32::from_bits(x.bits)
}

/// The rotation of a tuning on A = 440 that is re-based three slots up.
fn rotation() -> F32 {
    f((440f32.log2() + 3.0 / 12.0).fract())
}

fn shell() -> Shell {
    Shell::new(default_tonality(rotation()))
}

fn start(device_id: Option<&str>) -> Command {
    Command::AudioStartSession(AudioConfig {
        device_id: device_id.map(String::from),
        sample_rate: None,
        buffer_frames: None,
        session_label: None,
    })
}

fn device(name: &str) -> InputDevice {
    InputDevice {
        name: name.to_string(),
        persistent_id: Some(name.to_string()),
        transport: Transport::Usb,
        streams: vec![],
    }
}

#[test]
fn app_settings_default_matches_design() {
    let s = AppSettings::default();
    assert_eq!(v(s.reference_hz), 440.0);
    assert_eq!(s.tuning_kind, TuningKind::TwelveTet);
}

#[test]
fn song_tonality_default_is_bilawal_on_c() {
    let scale = default_tonality(rotation());
    assert_eq!(scale.intervals.degree_slots(), [0, 2, 4, 5, 7, 9, 11]);
    assert_eq!(scale.tuning.kind.slots(), 12);
    // Sa resolves to C ≈ 262 Hz, one octave below the reference.
    let sa = (scale.octave as f32 + v(scale.tuning.rotation)).exp2();
    assert!((sa - 261.63).abs() < 1.0, "Sa should be middle C, got {sa}");
}

#[test]
fn prompt_default_is_hidden() {
    let p = PermissionPrompt::default();
    assert_eq!(p, PermissionPrompt::Hidden);
}

#[test]
fn mic_status_default_is_undetermined() {
    assert_eq!(ReadModels::new().mic, AudioInitStatus::Undetermined);
}

#[test]
fn entering_the_game_configures_before_it_starts() {
    let mut s = shell();
    s.handle_device_click(Some("usb-7".to_string()));
    let commands = s.go(AppState::InGame);
    assert_eq!(
        commands,
        vec![
            Command::MusicConfigureSession { scale: s.tonality },
            start(Some("usb-7"))
        ]
    );
    assert_eq!(s.state, AppState::InGame);
}

#[test]
fn a_session_runs_exactly_while_the_game_is_on_screen() {
    let mut s = shell();
    let mut running = false;
    let path = [
        AppState::InGame,
        AppState::Paused,
        AppState::InGame,
        AppState::Paused,
        AppState::MainMenu,
        AppState::Settings,
        AppState::MainMenu,
        AppState::InGame,
        AppState::MainMenu,
    ];
    for to in path {
        for command in s.go(to) {
            match command {
                Command::AudioStartSession(_) => running = true,
                Command::AudioStopSession => running = false,
                _ => {}
            }
        }
        assert_eq!(running, to == AppState::InGame);
    }
}

#[test]
fn menus_ask_for_what_they_show() {
    let mut s = shell();
    assert_eq!(s.go(AppState::Settings), vec![Command::AudioListDevices]);
    assert_eq!(s.go(AppState::MainMenu), vec![Command::AudioPermissionQuery]);
    s.go(AppState::InGame);
    assert_eq!(s.go(AppState::Paused), vec![Command::AudioStopSession]);
}

#[test]
fn a_pause_is_remembered_until_it_ends() {
    let mut s = shell();
    s.go(AppState::InGame);
    assert_eq!(start_label(s.has_paused), "Free Practice");
    let next = s.handle_esc_in_game();
    s.go(next);
    assert_eq!(s.state, AppState::Paused);
    assert_eq!(start_label(s.has_paused), "Continue");
    let next = s.handle_esc_paused();
    s.go(next);
    assert!(!s.has_paused, "resumed");

    s.go(AppState::Paused);
    s.handle_quit_to_main();
    assert!(s.quit_confirm);
    s.handle_confirm_cancel();
    assert!(!s.quit_confirm && s.has_paused);
    s.handle_quit_to_main();
    let next = s.handle_confirm_yes();
    assert_eq!(next, AppState::MainMenu);
    s.go(next);
    assert!(!s.has_paused && !s.quit_confirm);
}

#[test]
fn a_question_whether_to_quit_does_not_outlive_the_pause() {
    let mut s = shell();
    s.go(AppState::Paused);
    s.handle_quit_to_main();
    s.go(AppState::InGame);
    assert!(!s.quit_confirm);
}

#[test]
fn resuming_is_refused_while_locked() {
    let s = shell();
    assert_eq!(s.handle_resume(true), None);
    assert_eq!(s.handle_resume(false), Some(AppState::InGame));
}

#[test]
fn starting_needs_the_microphone_and_a_device() {
    let mut s = shell();
    let step = s.handle_new_game(AudioInitStatus::Undetermined);
    assert!(step.commands.is_empty());
    assert_eq!(
        s.prompt,
        PermissionPrompt::NeedsPermission(AudioInitStatus::Undetermined)
    );
    let step = s.handle_allow_mic();
    assert_eq!(step.commands, vec![Command::AudioPermissionRequest]);
    assert_eq!(s.prompt, PermissionPrompt::RequestPending);
    s.handle_permission_cancel();
    assert_eq!(s.prompt, PermissionPrompt::Hidden);

    let step = s.handle_new_game(AudioInitStatus::Granted);
    assert_eq!(step.commands, vec![Command::AudioListDevices]);
    assert_eq!(s.prompt, PermissionPrompt::CheckingHardware);
    assert_eq!(s.advance_checking_hardware(false, 3), None);
    assert_eq!(s.prompt, PermissionPrompt::CheckingHardware);
    assert_eq!(s.advance_checking_hardware(true, 0), None);
    assert_eq!(s.prompt, PermissionPrompt::NoHardware);
    s.handle_new_game(AudioInitStatus::Granted);
    assert_eq!(
        s.advance_checking_hardware(true, 1),
        Some(AppState::InGame)
    );
    assert_eq!(s.prompt, PermissionPrompt::Hidden);
    assert_eq!(s.advance_checking_hardware(true, 1), None, "not waiting");
}

#[test]
fn settings_open_on_their_first_tab_and_row() {
    let mut s = shell();
    assert_eq!(s.handle_settings(), AppState::Settings);
    s.go(AppState::Settings);
    assert!(s.handle_tab_click(SettingsTab::Music));
    assert!(!s.handle_tab_click(SettingsTab::Music));
    assert!(s.handle_master_row_click(MusicSelection::NoteSystem));
    s.handle_reference_hz_click(f(432.0));
    s.handle_tuning_system_click(TuningKind::HindustaniJust);
    s.handle_note_system_click(NoteSystem::SargamLatin);
    assert_eq!(s.handle_back(), AppState::MainMenu);
    s.go(AppState::MainMenu);
    s.go(AppState::Settings);
    assert_eq!(s.tab, SettingsTab::Audio);
    assert_eq!(s.music_selection, MusicSelection::ReferenceHz);
    assert_eq!(v(s.settings.reference_hz), 432.0);
    assert_eq!(s.settings.tuning_kind, TuningKind::HindustaniJust);
    assert_eq!(s.note_system, NoteSystem::SargamLatin);
}

#[test]
fn picking_a_scale_keeps_sa_and_closes_the_picker() {
    let mut s = shell();
    let before = s.tonality;
    let step = s.handle_hud_click();
    assert_eq!(step.commands, vec![Command::MusicListScales]);
    assert!(s.scale_picker);
    assert!(s.handle_hud_click().commands.is_empty(), "open already");

    let scales = vec![ScaleIntervals::from_mask(1), ScaleIntervals::from_mask(5)];
    assert!(s.handle_row_click(&scales, 2).commands.is_empty());
    assert!(s.scale_picker, "no such row");
    let step = s.handle_row_click(&scales, 1);
    let picked = Scale {
        intervals: scales[1],
        ..before
    };
    assert_eq!(
        step.commands,
        vec![Command::MusicConfigureSession { scale: picked }]
    );
    assert_eq!(s.tonality, picked);
    assert!(!s.scale_picker);
    s.handle_hud_click();
    s.handle_close_click();
    assert!(!s.scale_picker);
}

#[test]
fn capturing_sa_configures_the_session_anew() {
    let mut s = shell();
    let mut scale = s.tonality;
    scale.octave = 9;
    let step = s.capture(scale);
    assert_eq!(
        step.commands,
        vec![Command::MusicConfigureSession { scale }]
    );
    assert_eq!(s.tonality, scale);
}

#[test]
fn quitting_closes_the_window_where_there_is_one() {
    assert_eq!(handle_quit(true), Quit::CloseWindow);
    assert_eq!(handle_quit(false), Quit::Exit);
}

fn hop(hop_index: u64) -> Option<Features> {
    Some(Features {
        hop_index,
        pitch: Some(f(8.0)),
        confidence: f(1.0),
        onset: f(0.0),
        breath: f(0.0),
        vibrato_rate: f(0.0),
        vibrato_depth: f(0.0),
        vibrato_t_ms: hop_index * 10,
        t_ms: hop_index * 10,
    })
}

#[test]
fn each_hop_is_logged_once() {
    let mut s = shell();
    assert!(!s.log_features(&None));
    assert!(s.log_features(&hop(0)));
    assert!(!s.log_features(&hop(0)));
    assert!(s.log_features(&hop(1)));
    assert_eq!(onset_marker(f(0.1)), "•");
    assert_eq!(onset_marker(f(0.0)), " ");
    s.go(AppState::InGame);
    s.go(AppState::MainMenu);
    assert_eq!(s.last_feature_hop, None);
}

#[test]
fn a_recording_ends_after_a_second_of_silence() {
    let mut end = ReplayAudioEnd::new();
    assert_eq!(end.detect_wav_end(0, f(9.0)), None, "before the first sound");
    assert!(!end.seen_audio);
    assert_eq!(end.detect_wav_end(3, f(0.0)), None);
    assert_eq!(end.detect_wav_end(0, f(0.9)), None);
    assert_eq!(end.detect_wav_end(1, f(1.9)), None, "sound again");
    assert_eq!(v(end.silent_secs), 0.0);
    assert_eq!(end.detect_wav_end(0, f(0.99)), None);
    assert_eq!(
        end.detect_wav_end(0, f(1.0)),
        Some(AppState::MainMenu)
    );
}

#[test]
fn ending_a_session_forgets_its_features() {
    let mut models = ReadModels::new();
    let mut projector = GraphProjector::default();
    let window = PitchWindow {
        min: f(8.0),
        max: f(9.0),
    };
    projector.update_pitch_window(Some(window), Some(10));
    models.drain_events(vec![], None, None, &vec![hop(0).unwrap()], true);
    assert_eq!(models.history.len(), 1);
    end_session(&mut models, &mut projector);
    assert!(models.history.is_empty());
    assert_eq!(projector.pitch_window, None);
}

// ---- the read models ----

#[test]
fn a_drain_publishes_what_the_coach_said() {
    let mut models = ReadModels::new();
    let scale = default_tonality(rotation());
    let report = models.drain_events(
        vec![
            CoachEvent::AudioDevicesListed {
                devices: vec![device("a")],
            },
            CoachEvent::AudioDevicesListed {
                devices: vec![device("b"), device("c")],
            },
            CoachEvent::MusicScalesListed {
                shapes: vec![scale.intervals],
            },
            CoachEvent::AudioPermissionStatus {
                status: AudioInitStatus::Granted,
            },
            CoachEvent::MusicSessionConfigured { scale },
        ],
        Some(MusicInfo { scale }),
        hop(4),
        &vec![hop(3).unwrap(), hop(4).unwrap()],
        false,
    );
    assert!(report.devices_listed && report.scales_listed && report.music_configured);
    assert_eq!(models.known_devices.len(), 2);
    assert_eq!(models.known_devices[0].name, "b");
    assert_eq!(models.known_scales, vec![scale.intervals]);
    assert_eq!(models.mic, AudioInitStatus::Granted);
    assert_eq!(models.music.unwrap().scale, scale);
    assert_eq!(models.latest, hop(4));
    assert_eq!(models.drain_count, 2);
    assert!(models.history.is_empty(), "no game, no history");
}

#[test]
fn the_lock_holds_until_the_session_may_resume() {
    let mut models = ReadModels::new();
    let said = |interruption| vec![CoachEvent::AudioInterruption { interruption }];
    models.drain_events(said(Interruption::Began), None, None, &vec![], false);
    assert!(models.resume_locked);
    let ended = Interruption::Ended {
        should_resume: false,
    };
    models.drain_events(said(ended), None, None, &vec![], false);
    assert!(models.resume_locked);
    let ended = Interruption::Ended {
        should_resume: true,
    };
    models.drain_events(said(ended), None, None, &vec![], false);
    assert!(!models.resume_locked);
}

// ---- signals ----

#[test]
fn a_signal_for_another_screen_is_ignored() {
    let mut s = shell();
    let none = vec![];
    assert!(s.tell(Signal::Escape, &none).is_empty());
    assert!(s.tell(Signal::ConfirmQuit, &none).is_empty());
    assert!(s.tell(Signal::Tab(SettingsTab::Music), &none).is_empty());
    assert_eq!(s.tab, SettingsTab::Audio);
    assert_eq!(s.state, AppState::MainMenu);
}

#[test]
fn a_whole_session_by_signals() {
    let mut s = shell();
    let none = vec![];
    assert_eq!(
        s.tell(
            Signal::Start {
                mic: AudioInitStatus::Granted
            },
            &none
        ),
        vec![Command::AudioListDevices]
    );
    let commands = s.tell(Signal::DevicesListed { devices: 2 }, &none);
    assert_eq!(commands.len(), 2);
    assert_eq!(commands[1], start(None));
    assert_eq!(s.state, AppState::InGame);

    let scales = vec![ScaleIntervals::from_mask(5)];
    s.tell(Signal::HudClick, &scales);
    let commands = s.tell(Signal::PickRow(0), &scales);
    assert_eq!(
        commands,
        vec![Command::MusicConfigureSession { scale: s.tonality }]
    );
    assert_eq!(s.tonality.intervals, scales[0]);

    assert_eq!(
        s.tell(Signal::PauseButton, &none),
        vec![Command::AudioStopSession]
    );
    assert!(s.has_paused);
    assert!(s.tell(Signal::Resume { locked: true }, &none).is_empty());
    assert_eq!(s.state, AppState::Paused);
    s.tell(Signal::QuitToMain, &none);
    assert!(s.quit_confirm);
    assert_eq!(s.state, AppState::Paused, "asked, not left");
    assert_eq!(
        s.tell(Signal::ConfirmQuit, &none),
        vec![Command::AudioPermissionQuery]
    );
    assert_eq!(s.state, AppState::MainMenu);
    assert!(!s.has_paused && !s.quit_confirm);
}

#[test]
fn autostart_and_the_end_of_a_recording() {
    let mut s = shell();
    let none = vec![];
    s.tell(Signal::Autostart, &none);
    assert_eq!(s.state, AppState::InGame);
    assert_eq!(
        s.tell(Signal::RecordingEnded, &none),
        vec![Command::AudioStopSession, Command::AudioPermissionQuery]
    );
    assert_eq!(s.state, AppState::MainMenu);
    assert_eq!(start_label(s.has_paused), "Free Practice");
}

/// A shell in the settings that were opened while the hardware was being checked.
fn checking_in_settings() -> Shell {
    let none = vec![];
    let mut s = shell();
    s.tell(
        Signal::Start {
            mic: AudioInitStatus::Granted,
        },
        &none,
    );
    s.tell(Signal::OpenSettings, &none);
    assert_eq!(s.state, AppState::Settings);
    assert_eq!(s.prompt, PermissionPrompt::CheckingHardware);
    s
}

#[test]
fn a_listing_in_the_settings_starts_the_game_on_the_first_frame_back() {
    let none = vec![];
    let mut s = checking_in_settings();
    assert!(s.tell(Signal::DevicesListed { devices: 0 }, &none).is_empty());
    assert!(s.tell(Signal::DevicesListed { devices: 2 }, &none).is_empty());
    assert_eq!(s.state, AppState::Settings);
    assert!(s.tell(Signal::MenuFrame, &none).is_empty(), "not back yet");
    assert_eq!(
        s.tell(Signal::Back, &none),
        vec![Command::AudioPermissionQuery]
    );
    assert_eq!(s.state, AppState::MainMenu);
    let commands = s.tell(Signal::MenuFrame, &none);
    assert_eq!(s.state, AppState::InGame);
    assert_eq!(s.prompt, PermissionPrompt::Hidden);
    assert_eq!(commands.len(), 2);
    assert!(matches!(
        commands[0],
        Command::MusicConfigureSession { .. }
    ));
    assert!(matches!(commands[1], Command::AudioStartSession(_)));
}

#[test]
fn an_empty_listing_in_the_settings_is_told_on_the_first_frame_back() {
    let none = vec![];
    let mut s = checking_in_settings();
    s.tell(Signal::DevicesListed { devices: 0 }, &none);
    s.tell(Signal::Back, &none);
    assert_eq!(s.prompt, PermissionPrompt::CheckingHardware);
    assert!(s.tell(Signal::MenuFrame, &none).is_empty());
    assert_eq!(s.state, AppState::MainMenu);
    assert_eq!(s.prompt, PermissionPrompt::NoHardware);
    s.tell(Signal::CancelPermission, &none);
    assert!(s.tell(Signal::MenuFrame, &none).is_empty(), "counted once");
    assert_eq!(s.prompt, PermissionPrompt::Hidden);
}

#[test]
fn a_listing_that_nobody_waits_for_is_not_kept() {
    let none = vec![];
    let mut s = shell();
    s.tell(Signal::OpenSettings, &none);
    s.tell(Signal::DevicesListed { devices: 3 }, &none);
    s.tell(Signal::Back, &none);
    s.tell(
        Signal::Start {
            mic: AudioInitStatus::Granted,
        },
        &none,
    );
    assert!(s.tell(Signal::MenuFrame, &none).is_empty());
    assert_eq!(s.state, AppState::MainMenu);
    assert_eq!(s.prompt, PermissionPrompt::CheckingHardware);
}
