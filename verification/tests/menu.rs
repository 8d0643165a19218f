use gurukul::ieee::F32;
use gurukul::menu::{
    confirm_modal, copy_for_status, device_list, master_rows, note_rows, note_system_label,
    permission_button, permission_modal, reference_hz_value_label, reference_rows, tuning_rows,
    tuning_system_label, DeviceList, ModalAction, ReferenceChoice,
};
use gurukul::music::TuningKind;
use gurukul::port::{AudioInitStatus, InputDevice, Transport};
use gurukul::shell::{AppSettings, AppState, MusicSelection, NoteSystem, PermissionPrompt};

fn f(x: f32) -> F32 {
    F32 { bits: x.to_bits() }
}

#[test]
fn copy_for_undetermined() {
    let (h, b, btn) = copy_for_status(AudioInitStatus::Undetermined);
    assert_eq!(h, "Microphone needed");
    assert!(!b.is_empty());
    assert_eq!(btn, "Allow Microphone");
}

#[test]
fn copy_for_denied() {
    let (h, b, btn) = copy_for_status(AudioInitStatus::Denied);
    assert_eq!(h, "Microphone is off");
    assert!(!b.is_empty());
    assert_eq!(btn, "Open Settings");
}

#[test]
fn a_granted_permission_has_nothing_to_say() {
    assert_eq!(copy_for_status(AudioInitStatus::Granted), ("", "", ""));
    assert!(permission_button(AudioInitStatus::Granted).is_none());
}

#[test]
fn the_permission_modal_follows_the_prompt() {
    assert!(permission_modal(PermissionPrompt::Hidden).is_none());
    assert!(permission_modal(PermissionPrompt::CheckingHardware).is_none());

    let m = permission_modal(PermissionPrompt::NeedsPermission(AudioInitStatus::Denied)).unwrap();
    assert_eq!(m.headline, "Microphone is off");
    assert_eq!(m.body, Some("Turn it on in Settings to sing."));
    assert_eq!(m.buttons.len(), 2);
    assert_eq!(m.buttons[0].action, ModalAction::OpenSettings);
    assert_eq!(m.buttons[1].label, "Cancel");
    assert_eq!(m.buttons[1].action, ModalAction::CancelPermission);
    assert_eq!(m.scope, AppState::MainMenu);

    let m = permission_modal(PermissionPrompt::NeedsPermission(
        AudioInitStatus::Undetermined,
    ))
    .unwrap();
    assert_eq!(m.buttons[0].label, "Allow Microphone");
    assert_eq!(m.buttons[0].action, ModalAction::AllowMic);

    let m = permission_modal(PermissionPrompt::RequestPending).unwrap();
    assert_eq!(m.buttons.len(), 1);
    assert_eq!(m.buttons[0].label, "Waiting…");
    assert!(m.buttons[0].disabled);

    let m = permission_modal(PermissionPrompt::NoHardware).unwrap();
    assert_eq!(m.headline, "No microphone found.");
    assert_eq!(m.body, Some("Connect a microphone and try again."));
    assert!(!m.buttons[0].disabled);
}

#[test]
fn the_confirm_modal_asks_once() {
    assert!(confirm_modal(false).is_none());
    let m = confirm_modal(true).unwrap();
    assert_eq!(m.headline, "Quit? Your session will end.");
    assert_eq!(m.body, None);
    assert_eq!(m.buttons[0].label, "Yes, quit");
    assert_eq!(m.buttons[0].action, ModalAction::ConfirmQuit);
    assert_eq!(m.buttons[1].action, ModalAction::CancelQuit);
    assert_eq!(m.scope, AppState::Paused);
}

fn device(name: &str, id: Option<&str>) -> InputDevice {
    InputDevice {
        name: name.to_string(),
        persistent_id: id.map(String::from),
        transport: Transport::BuiltIn,
        streams: vec![],
    }
}

#[test]
fn devices_are_listed_behind_the_system_default() {
    let devices = vec![device("Mic", Some("m")), device("Usb", Some("u"))];
    match device_list(AudioInitStatus::Granted, &devices, &Some("u".to_string())) {
        DeviceList::Rows(rows) => {
            let seen: Vec<(&str, Option<&str>, bool)> = rows
                .iter()
                .map(|r| (r.label.as_str(), r.id.as_deref(), r.selected))
                .collect();
            assert_eq!(
                seen,
                vec![
                    ("System default", None, false),
                    ("Mic", Some("m"), false),
                    ("Usb", Some("u"), true)
                ]
            );
        }
        _ => panic!("expected rows"),
    }
    match device_list(AudioInitStatus::Granted, &devices, &None) {
        DeviceList::Rows(rows) => assert!(rows[0].selected && !rows[1].selected),
        _ => panic!("expected rows"),
    }
}

#[test]
fn without_devices_or_permission_there_are_no_rows() {
    assert!(matches!(
        device_list(AudioInitStatus::Granted, &vec![], &None),
        DeviceList::Nothing
    ));
    assert!(matches!(
        device_list(
            AudioInitStatus::Denied,
            &vec![device("Mic", None)],
            &None
        ),
        DeviceList::Permission(AudioInitStatus::Denied)
    ));
}

#[test]
fn a_reference_is_marked_within_a_thousandth_of_a_hertz() {
    let choices = [
        (ReferenceChoice::Standard, 440.0f32),
        (ReferenceChoice::Bright, 442.0),
        (ReferenceChoice::Low, 432.0),
        (ReferenceChoice::Baroque, 415.0),
    ];
    for (choice, hz) in choices {
        assert_eq!(choice.hz(), f(hz));
        for steps in -40i64..=40 {
            let near = f32::from_bits((hz.to_bits() as i64 + steps) as u32);
            assert_eq!(
                choice.matches(f(near)),
                (near - hz).abs() < 1e-3,
                "{near} against {hz}"
            );
        }
    }
    for far in [0.0f32, -440.0, 1e30, f32::NAN, f32::INFINITY] {
        assert!(!ReferenceChoice::Standard.matches(f(far)));
    }
}

#[test]
fn the_reference_picker_offers_four() {
    let rows = reference_rows(f(432.0));
    let seen: Vec<(&str, bool)> = rows.iter().map(|r| (r.label, r.selected)).collect();
    assert_eq!(
        seen,
        vec![
            ("A = 440 Hz (standard)", false),
            ("A = 442 Hz", false),
            ("A = 432 Hz", true),
            ("A = 415 Hz (Baroque)", false)
        ]
    );
    assert_eq!(
        reference_hz_value_label(f(415.0), String::new()),
        "A = 415 Hz (Baroque)"
    );
    assert_eq!(
        reference_hz_value_label(f(443.0), format!("A = {:.1} Hz", 443.0)),
        "A = 443.0 Hz"
    );
}

#[test]
fn tunings_and_note_systems_are_named() {
    let rows = tuning_rows(TuningKind::HindustaniJust);
    assert_eq!(rows.len(), 2);
    assert_eq!(rows[0].label, "12-tone equal temperament");
    assert!(!rows[0].selected && rows[1].selected);
    assert_eq!(
        tuning_system_label(TuningKind::HindustaniJust),
        "Hindustani Just intonation"
    );
    let rows = note_rows(NoteSystem::SargamLatin);
    assert_eq!(rows.len(), 3);
    assert!(rows[1].selected && !rows[0].selected && !rows[2].selected);
    assert_eq!(note_system_label(NoteSystem::Western), "Western (C, D, E, ...)");
    assert_eq!(
        note_system_label(NoteSystem::SargamDevanagari),
        "Sargam Devanagari (स, रे, ग, ...)"
    );
}

#[test]
fn the_left_pane_shows_the_current_values() {
    let rows = master_rows(
        &AppSettings::default(),
        NoteSystem::Western,
        "A = 440 Hz (standard)".to_string(),
        MusicSelection::TuningSystem,
    );
    let seen: Vec<(&str, &str, bool)> = rows
        .iter()
        .map(|r| (r.name, r.value.as_str(), r.selected))
        .collect();
    assert_eq!(
        seen,
        vec![
            ("Reference frequency", "A = 440 Hz (standard)", false),
            ("Tuning system", "12-tone equal temperament", true),
            ("Note system", "Western (C, D, E, ...)", false)
        ]
    );
}
