//! What the menus show: modals, device rows and the pickers of the settings.

use vstd::prelude::*;
use vstd::string::StringExecFns;
use crate::ieee::F32;
use crate::music::TuningKind;
use crate::port::{AudioInitStatus, InputDevice};
use crate::port;
use crate::shell::{AppSettings, AppState, MusicSelection, NoteSystem, PermissionPrompt};

verus! {

/// What pressing a button of a modal asks for.
#[derive(Clone, Copy, PartialEq, Eq, Structural, Debug)]
pub enum ModalAction {
    AllowMic,
    OpenSettings,
    CancelPermission,
    ConfirmQuit,
    CancelQuit,
}

/// A button of a modal.
#[derive(Clone, Copy, Debug)]
pub struct ModalButton {
    pub label: &'static str,
    pub action: ModalAction,
    /// A disabled button is dimmed and cannot be pressed.
    pub disabled: bool,
}

impl ModalButton {
    /// Whether this is the button with that label and action.
    pub open spec fn is(self, label: Seq<char>, action: ModalAction, disabled: bool) -> bool {
        self.label@ == label && self.action == action && self.disabled == disabled
    }
}

/// A modal: a headline, perhaps a line below it, and buttons.
pub struct Modal {
    pub headline: &'static str,
    pub body: Option<&'static str>,
    pub buttons: Vec<ModalButton>,
    /// The screen that takes the modal with it when it is left.
    pub scope: AppState,
}

// ---- permission ----------------------------------------------------------

/// The headline that a permission status is shown with.
pub open spec fn headline_of(status: AudioInitStatus) -> Seq<char> {
    match status {
        AudioInitStatus::Undetermined => "Microphone needed"@,
        AudioInitStatus::Denied => "Microphone is off"@,
        AudioInitStatus::Granted => ""@,
    }
}

/// The explanation that a permission status is shown with.
pub open spec fn body_of(status: AudioInitStatus) -> Seq<char> {
    match status {
        AudioInitStatus::Undetermined => "Gurukul listens to you sing."@,
        AudioInitStatus::Denied => "Turn it on in Settings to sing."@,
        AudioInitStatus::Granted => ""@,
    }
}

/// The label of the button that a permission status is shown with.
pub open spec fn button_of(status: AudioInitStatus) -> Seq<char> {
    match status {
        AudioInitStatus::Undetermined => "Allow Microphone"@,
        AudioInitStatus::Denied => "Open Settings"@,
        AudioInitStatus::Granted => ""@,
    }
}

/// The headline, the explanation and the button label for a permission status.
pub fn copy_for_status(status: AudioInitStatus) -> (copy: (
    &'static str,
    &'static str,
    &'static str,
))
    ensures
        copy.0@ == headline_of(status),
        copy.1@ == body_of(status),
        copy.2@ == button_of(status),
{
    match status {
        AudioInitStatus::Undetermined => (
            "Microphone needed",
            "Gurukul listens to you sing.",
            "Allow Microphone",
        ),
        AudioInitStatus::Denied => (
            "Microphone is off",
            "Turn it on in Settings to sing.",
            "Open Settings",
        ),
        AudioInitStatus::Granted => ("", "", ""),
    }
}

/// The button that a permission status calls for. With the permission granted
/// there is nothing to press.
pub fn permission_button(status: AudioInitStatus) -> (button: Option<ModalButton>)
    ensures
        match status {
            AudioInitStatus::Undetermined => button matches Some(b) && b.is(
                "Allow Microphone"@,
                ModalAction::AllowMic,
                false,
            ),
            AudioInitStatus::Denied => button matches Some(b) && b.is(
                "Open Settings"@,
                ModalAction::OpenSettings,
                false,
            ),
            AudioInitStatus::Granted => button is None,
        },
{
    let (_, _, label) = copy_for_status(status);
    match status {
        AudioInitStatus::Undetermined => Some(
            ModalButton { label, action: ModalAction::AllowMic, disabled: false },
        ),
        AudioInitStatus::Denied => Some(
            ModalButton { label, action: ModalAction::OpenSettings, disabled: false },
        ),
        AudioInitStatus::Granted => None,
    }
}

/// The modal that a prompt is shown as, if it is shown at all. Checking the
/// hardware takes a moment only and shows nothing.
pub fn permission_modal(prompt: PermissionPrompt) -> (modal: Option<Modal>)
    ensures
        (prompt is Hidden || prompt is CheckingHardware) == (modal is None),
        modal matches Some(m) ==> m.scope is MainMenu,
        prompt matches PermissionPrompt::NeedsPermission(status) ==> {
            &&& modal matches Some(m)
            &&& m.headline@ == headline_of(status)
            &&& m.body matches Some(body) && body@ == body_of(status)
            &&& match status {
                AudioInitStatus::Granted => {
                    &&& m.buttons@.len() == 1
                    &&& m.buttons@[0].is("Cancel"@, ModalAction::CancelPermission, false)
                },
                AudioInitStatus::Undetermined => {
                    &&& m.buttons@.len() == 2
                    &&& m.buttons@[0].is("Allow Microphone"@, ModalAction::AllowMic, false)
                    &&& m.buttons@[1].is("Cancel"@, ModalAction::CancelPermission, false)
                },
                AudioInitStatus::Denied => {
                    &&& m.buttons@.len() == 2
                    &&& m.buttons@[0].is("Open Settings"@, ModalAction::OpenSettings, false)
                    &&& m.buttons@[1].is("Cancel"@, ModalAction::CancelPermission, false)
                },
            }
        },
        prompt is RequestPending ==> {
            &&& modal matches Some(m)
            &&& m.headline@ == "Microphone needed"@
            &&& m.body matches Some(body) && body@ == "Gurukul listens to you sing."@
            &&& m.buttons@.len() == 1
            &&& m.buttons@[0].is("Waiting\u{2026}"@, ModalAction::AllowMic, true)
        },
        prompt is NoHardware ==> {
            &&& modal matches Some(m)
            &&& m.headline@ == "No microphone found."@
            &&& m.body matches Some(body) && body@ == "Connect a microphone and try again."@
            &&& m.buttons@.len() == 1
            &&& m.buttons@[0].is("Cancel"@, ModalAction::CancelPermission, false)
        },
{
    let mut buttons: Vec<ModalButton> = Vec::new();
    match prompt {
        PermissionPrompt::Hidden | PermissionPrompt::CheckingHardware => None,
        PermissionPrompt::NeedsPermission(status) => {
            let (headline, body, _) = copy_for_status(status);
            match permission_button(status) {
                Some(button) => {
                    buttons.push(button);
                },
                None => {},
            }
            buttons.push(
                ModalButton {
                    label: "Cancel",
                    action: ModalAction::CancelPermission,
                    disabled: false,
                },
            );
            Some(Modal { headline, body: Some(body), buttons, scope: AppState::MainMenu })
        },
        PermissionPrompt::RequestPending => {
            buttons.push(
                ModalButton {
                    label: "Waiting\u{2026}",
                    action: ModalAction::AllowMic,
                    disabled: true,
                },
            );
            Some(
                Modal {
                    headline: "Microphone needed",
                    body: Some("Gurukul listens to you sing."),
                    buttons,
                    scope: AppState::MainMenu,
                },
            )
        },
        PermissionPrompt::NoHardware => {
            buttons.push(
                ModalButton {
                    label: "Cancel",
                    action: ModalAction::CancelPermission,
                    disabled: false,
                },
            );
            Some(
                Modal {
                    headline: "No microphone found.",
                    body: Some("Connect a microphone and try again."),
                    buttons,
                    scope: AppState::MainMenu,
                },
            )
        },
    }
}

/// The modal that asks whether to quit, while the player is being asked.
pub fn confirm_modal(showing: bool) -> (modal: Option<Modal>)
    ensures
        showing == (modal is Some),
        modal matches Some(m) ==> {
            &&& m.headline@ == "Quit? Your session will end."@
            &&& m.body is None
            &&& m.buttons@.len() == 2
            &&& m.buttons@[0].is("Yes, quit"@, ModalAction::ConfirmQuit, false)
            &&& m.buttons@[1].is("Cancel"@, ModalAction::CancelQuit, false)
            &&& m.scope is Paused
        },
{
    if !showing {
        return None;
    }
    let mut buttons: Vec<ModalButton> = Vec::new();
    buttons.push(
        ModalButton { label: "Yes, quit", action: ModalAction::ConfirmQuit, disabled: false },
    );
    buttons.push(ModalButton { label: "Cancel", action: ModalAction::CancelQuit, disabled: false });
    Some(
        Modal {
            headline: "Quit? Your session will end.",
            body: None,
            buttons,
            scope: AppState::Paused,
        },
    )
}

// ---- audio settings ------------------------------------------------------

/// A row of the device picker.
pub struct DeviceRow {
    pub label: String,
    /// What pressing the row selects; `None` is the default of the system.
    pub id: Option<String>,
    pub selected: bool,
}

/// What stands where the devices are listed.
pub enum DeviceList {
    /// The microphone may not be used: what to do about it.
    Permission(AudioInitStatus),
    /// There is no device.
    Nothing,
    Rows(Vec<DeviceRow>),
}

/// The text of an id, if there is one.
pub open spec fn id_text(id: Option<String>) -> Option<Seq<char>> {
    match id {
        Some(text) => Some(text@),
        None => None,
    }
}

/// Whether a row is the one for a device.
pub open spec fn is_device_row(
    row: DeviceRow,
    device: InputDevice,
    chosen: Option<String>,
) -> bool {
    &&& row.label@ == device.name@
    &&& row.id == device.persistent_id
    &&& row.selected == (id_text(device.persistent_id) == id_text(chosen))
}

/// Whether two optional texts are the same.
fn same_id(a: &Option<String>, b: &Option<String>) -> (same: bool)
    ensures
        same == (id_text(*a) == id_text(*b)),
{
    match (a, b) {
        (Some(x), Some(y)) => *x == *y,
        (None, None) => true,
        _ => false,
    }
}

/// What stands where the devices are listed: without permission the way to get
/// it, else the default of the system and then every device, with those marked
/// that the choice names.
pub fn device_list(
    mic: AudioInitStatus,
    devices: &Vec<InputDevice>,
    chosen: &Option<String>,
) -> (list: DeviceList)
    ensures
        !(mic is Granted) ==> list == DeviceList::Permission(mic),
        mic is Granted && devices@.len() == 0 ==> list is Nothing,
        mic is Granted && devices@.len() > 0 ==> {
            &&& list matches DeviceList::Rows(rows)
            &&& rows@.len() == devices@.len() + 1
            &&& rows@[0].label@ == "System default"@
            &&& rows@[0].id is None
            &&& rows@[0].selected == (chosen is None)
            &&& forall|i: int|
                0 <= i < devices@.len() ==> is_device_row(
                    #[trigger] rows@[i + 1],
                    devices@[i],
                    *chosen,
                )
        },
{
    match mic {
        AudioInitStatus::Granted => {},
        _ => {
            return DeviceList::Permission(mic);
        },
    }
    if devices.len() == 0 {
        return DeviceList::Nothing;
    }
    let mut rows: Vec<DeviceRow> = Vec::new();
    rows.push(
        DeviceRow {
            label: String::from_str("System default"),
            id: None,
            selected: chosen.is_none(),
        },
    );
    for i in 0..devices.len()
        invariant
            rows@.len() == i + 1,
            rows@[0].label@ == "System default"@,
            rows@[0].id is None,
            rows@[0].selected == (chosen is None),
            forall|k: int|
                1 <= k <= i ==> is_device_row(#[trigger] rows@[k], devices@[k - 1], *chosen),
    {
        let device: &InputDevice = &devices[i];
        rows.push(
            DeviceRow {
                label: device.name.clone(),
                id: port::copy_text(&device.persistent_id),
                selected: same_id(chosen, &device.persistent_id),
            },
        );
    }
    DeviceList::Rows(rows)
}

// ---- music settings ------------------------------------------------------

/// Steps of a single-precision number between 256 and 512 that fit in a
/// thousandth: there a step is one part in 32768.
pub const HERTZ_TOLERANCE: u32 = 32;

/// Reference frequencies that the picker offers.
#[derive(Clone, Copy, PartialEq, Eq, Structural, Debug)]
pub enum ReferenceChoice {
    Standard,
    Bright,
    Low,
    Baroque,
}

impl ReferenceChoice {
    /// The bits of the frequency in hertz: 440, 442, 432 and 415.
    pub open spec fn bits(self) -> u32 {
        match self {
            ReferenceChoice::Standard => 0x43dc_0000,
            ReferenceChoice::Bright => 0x43dd_0000,
            ReferenceChoice::Low => 0x43d8_0000,
            ReferenceChoice::Baroque => 0x43cf_8000,
        }
    }

    /// The text of the choice.
    pub open spec fn text(self) -> Seq<char> {
        match self {
            ReferenceChoice::Standard => "A = 440 Hz (standard)"@,
            ReferenceChoice::Bright => "A = 442 Hz"@,
            ReferenceChoice::Low => "A = 432 Hz"@,
            ReferenceChoice::Baroque => "A = 415 Hz (Baroque)"@,
        }
    }

    /// Whether a frequency is this one, to within a thousandth of a hertz.
    pub open spec fn matched(self, hz: F32) -> bool {
        -(HERTZ_TOLERANCE as int) <= hz.bits - self.bits() <= HERTZ_TOLERANCE
    }

    /// The frequency in hertz.
    pub fn hz(self) -> (hz: F32)
        ensures
            hz.bits == self.bits(),
    {
        match self {
            ReferenceChoice::Standard => F32 { bits: 0x43dc_0000 },
            ReferenceChoice::Bright => F32 { bits: 0x43dd_0000 },
            ReferenceChoice::Low => F32 { bits: 0x43d8_0000 },
            ReferenceChoice::Baroque => F32 { bits: 0x43cf_8000 },
        }
    }

    /// The label of the choice.
    pub fn label(self) -> (label: &'static str)
        ensures
            label@ == self.text(),
    {
        match self {
            ReferenceChoice::Standard => "A = 440 Hz (standard)",
            ReferenceChoice::Bright => "A = 442 Hz",
            ReferenceChoice::Low => "A = 432 Hz",
            ReferenceChoice::Baroque => "A = 415 Hz (Baroque)",
        }
    }

    /// Whether a frequency is this one, to within a thousandth of a hertz.
    pub fn matches(self, hz: F32) -> (yes: bool)
        ensures
            yes == self.matched(hz),
    {
        let own: F32 = self.hz();
        own.bits - HERTZ_TOLERANCE <= hz.bits && hz.bits <= own.bits + HERTZ_TOLERANCE
    }
}

/// The choices in the order of the picker.
pub open spec fn reference_order() -> Seq<ReferenceChoice> {
    seq![
        ReferenceChoice::Standard,
        ReferenceChoice::Bright,
        ReferenceChoice::Low,
        ReferenceChoice::Baroque,
    ]
}

/// A row of a picker.
#[derive(Debug)]
pub struct ChoiceRow<T> {
    pub choice: T,
    pub label: &'static str,
    pub selected: bool,
}

/// The rows of the reference picker.
pub fn reference_rows(hz: F32) -> (rows: Vec<ChoiceRow<ReferenceChoice>>)
    ensures
        rows@.len() == 4,
        forall|i: int|
            0 <= i < 4 ==> {
                let row = #[trigger] rows@[i];
                &&& row.choice == reference_order()[i]
                &&& row.label@ == row.choice.text()
                &&& row.selected == row.choice.matched(hz)
            },
{
    let choices: Vec<ReferenceChoice> = vec![
        ReferenceChoice::Standard,
        ReferenceChoice::Bright,
        ReferenceChoice::Low,
        ReferenceChoice::Baroque,
    ];
    let mut rows: Vec<ChoiceRow<ReferenceChoice>> = Vec::new();
    for i in 0..choices.len()
        invariant
            choices@ == reference_order(),
            rows@.len() == i,
            forall|k: int|
                0 <= k < i ==> {
                    let row = #[trigger] rows@[k];
                    &&& row.choice == reference_order()[k]
                    &&& row.label@ == row.choice.text()
                    &&& row.selected == row.choice.matched(hz)
                },
    {
        let choice: ReferenceChoice = choices[i];
        rows.push(ChoiceRow { choice, label: choice.label(), selected: choice.matches(hz) });
    }
    rows
}

/// The label of a reference frequency: that of the choice it is, else `fallback`,
/// which spells the number out.
pub fn reference_hz_value_label(hz: F32, fallback: String) -> (label: String)
    ensures
        label@ == (if ReferenceChoice::Standard.matched(hz) {
            ReferenceChoice::Standard.text()
        } else if ReferenceChoice::Bright.matched(hz) {
            ReferenceChoice::Bright.text()
        } else if ReferenceChoice::Low.matched(hz) {
            ReferenceChoice::Low.text()
        } else if ReferenceChoice::Baroque.matched(hz) {
            ReferenceChoice::Baroque.text()
        } else {
            fallback@
        }),
{
    let rows = reference_rows(hz);
    if rows[0].selected {
        String::from_str(rows[0].label)
    } else if rows[1].selected {
        String::from_str(rows[1].label)
    } else if rows[2].selected {
        String::from_str(rows[2].label)
    } else if rows[3].selected {
        String::from_str(rows[3].label)
    } else {
        fallback
    }
}

/// Whether the picker offers a tuning.
pub open spec fn offered(kind: TuningKind) -> bool {
    kind is TwelveTet || kind is HindustaniJust
}

/// The text for a tuning that the picker offers.
pub open spec fn tuning_text(kind: TuningKind) -> Seq<char> {
    if kind is TwelveTet {
        "12-tone equal temperament"@
    } else {
        "Hindustani Just intonation"@
    }
}

/// The label of a tuning that the picker offers.
pub fn tuning_system_label(kind: TuningKind) -> (label: &'static str)
    requires
        offered(kind),
    ensures
        label@ == tuning_text(kind),
{
    match kind {
        TuningKind::TwelveTet => "12-tone equal temperament",
        _ => "Hindustani Just intonation",
    }
}

/// The text for a note system.
pub open spec fn note_text(system: NoteSystem) -> Seq<char> {
    match system {
        NoteSystem::Western => "Western (C, D, E, ...)"@,
        NoteSystem::SargamLatin => "Sargam (Sa, Re, Ga, ...)"@,
        NoteSystem::SargamDevanagari => "Sargam Devanagari (स, रे, ग, ...)"@,
    }
}

/// The label of a note system.
pub fn note_system_label(system: NoteSystem) -> (label: &'static str)
    ensures
        label@ == note_text(system),
{
    match system {
        NoteSystem::Western => "Western (C, D, E, ...)",
        NoteSystem::SargamLatin => "Sargam (Sa, Re, Ga, ...)",
        NoteSystem::SargamDevanagari => "Sargam Devanagari (स, रे, ग, ...)",
    }
}

/// Whether a row is the one for a tuning.
pub open spec fn is_tuning_row(row: ChoiceRow<TuningKind>, kind: TuningKind, now: TuningKind) -> bool {
    row.choice == kind && row.label@ == tuning_text(kind) && row.selected == (kind == now)
}

/// The rows of the tuning picker.
pub fn tuning_rows(now: TuningKind) -> (rows: Vec<ChoiceRow<TuningKind>>)
    ensures
        rows@.len() == 2,
        is_tuning_row(rows@[0], TuningKind::TwelveTet, now),
        is_tuning_row(rows@[1], TuningKind::HindustaniJust, now),
{
    let mut rows: Vec<ChoiceRow<TuningKind>> = Vec::new();
    rows.push(
        ChoiceRow {
            choice: TuningKind::TwelveTet,
            label: tuning_system_label(TuningKind::TwelveTet),
            selected: now == TuningKind::TwelveTet,
        },
    );
    rows.push(
        ChoiceRow {
            choice: TuningKind::HindustaniJust,
            label: tuning_system_label(TuningKind::HindustaniJust),
            selected: now == TuningKind::HindustaniJust,
        },
    );
    rows
}

/// Whether a row is the one for a note system.
pub open spec fn is_note_row(row: ChoiceRow<NoteSystem>, system: NoteSystem, now: NoteSystem) -> bool {
    row.choice == system && row.label@ == note_text(system) && row.selected == (system == now)
}

/// The rows of the note system picker.
pub fn note_rows(now: NoteSystem) -> (rows: Vec<ChoiceRow<NoteSystem>>)
    ensures
        rows@.len() == 3,
        is_note_row(rows@[0], NoteSystem::Western, now),
        is_note_row(rows@[1], NoteSystem::SargamLatin, now),
        is_note_row(rows@[2], NoteSystem::SargamDevanagari, now),
{
    let mut rows: Vec<ChoiceRow<NoteSystem>> = Vec::new();
    rows.push(
        ChoiceRow {
            choice: NoteSystem::Western,
            label: note_system_label(NoteSystem::Western),
            selected: now == NoteSystem::Western,
        },
    );
    rows.push(
        ChoiceRow {
            choice: NoteSystem::SargamLatin,
            label: note_system_label(NoteSystem::SargamLatin),
            selected: now == NoteSystem::SargamLatin,
        },
    );
    rows.push(
        ChoiceRow {
            choice: NoteSystem::SargamDevanagari,
            label: note_system_label(NoteSystem::SargamDevanagari),
            selected: now == NoteSystem::SargamDevanagari,
        },
    );
    rows
}

/// A row of the left pane of the music settings.
pub struct MasterRow {
    pub selection: MusicSelection,
    pub name: &'static str,
    /// The current value.
    pub value: String,
    pub selected: bool,
}

/// Whether a row of the left pane shows this.
pub open spec fn is_master_row(
    row: MasterRow,
    selection: MusicSelection,
    name: Seq<char>,
    now: MusicSelection,
) -> bool {
    row.selection == selection && row.name@ == name && row.selected == (selection == now)
}

/// The rows of the left pane: each setting with its current value. `reference`
/// is the label of the reference frequency.
pub fn master_rows(
    settings: &AppSettings,
    system: NoteSystem,
    reference: String,
    now: MusicSelection,
) -> (rows: Vec<MasterRow>)
    requires
        offered(settings.tuning_kind),
    ensures
        rows@.len() == 3,
        is_master_row(rows@[0], MusicSelection::ReferenceHz, "Reference frequency"@, now),
        rows@[0].value@ == reference@,
        is_master_row(rows@[1], MusicSelection::TuningSystem, "Tuning system"@, now),
        rows@[1].value@ == tuning_text(settings.tuning_kind),
        is_master_row(rows@[2], MusicSelection::NoteSystem, "Note system"@, now),
        rows@[2].value@ == note_text(system),
{
    let mut rows: Vec<MasterRow> = Vec::new();
    rows.push(
        MasterRow {
            selection: MusicSelection::ReferenceHz,
            name: "Reference frequency",
            value: reference,
            selected: now == MusicSelection::ReferenceHz,
        },
    );
    rows.push(
        MasterRow {
            selection: MusicSelection::TuningSystem,
            name: "Tuning system",
            value: String::from_str(tuning_system_label(settings.tuning_kind)),
            selected: now == MusicSelection::TuningSystem,
        },
    );
    rows.push(
        MasterRow {
            selection: MusicSelection::NoteSystem,
            name: "Note system",
            value: String::from_str(note_system_label(system)),
            selected: now == MusicSelection::NoteSystem,
        },
    );
    rows
}

/// At most one reference frequency is marked: the choices are further apart than
/// the tolerance.
pub proof fn law_one_reference_is_marked(hz: F32, a: ReferenceChoice, b: ReferenceChoice)
    requires
        a.matched(hz),
        b.matched(hz),
    ensures
        a == b,
{
}

/// Choosing a frequency in the picker marks that frequency.
pub proof fn law_chosen_reference_is_marked(choice: ReferenceChoice)
    ensures
        choice.matched(F32 { bits: choice.bits() }),
{
}

/// What each permission status is shown with.
pub proof fn law_permission_words(status: AudioInitStatus)
    ensures
        status is Undetermined ==> headline_of(status) == "Microphone needed"@ && body_of(status)
            == "Gurukul listens to you sing."@ && button_of(status) == "Allow Microphone"@,
        status is Denied ==> headline_of(status) == "Microphone is off"@ && body_of(status)
            == "Turn it on in Settings to sing."@ && button_of(status) == "Open Settings"@,
        status is Granted ==> headline_of(status).len() == 0 && body_of(status).len() == 0
            && button_of(status).len() == 0,
{
    reveal_strlit("");
}

/// A button is told by its label, its action and whether it can be pressed.
pub proof fn law_buttons_are_told_apart(b: ModalButton, label: Seq<char>, action: ModalAction, disabled: bool)
    ensures
        b.is(b.label@, b.action, b.disabled),
        b.label@ != label ==> !b.is(label, action, disabled),
        b.action != action ==> !b.is(label, action, disabled),
        b.disabled != disabled ==> !b.is(label, action, disabled),
{
}

/// A device's row has its name and its id. It is marked where the choice is of the
/// same id, or where both have none.
pub proof fn law_device_rows_show_devices(row: DeviceRow, device: InputDevice, chosen: Option<String>)
    requires
        is_device_row(row, device, chosen),
    ensures
        row.label@ == device.name@,
        row.id == device.persistent_id,
        device.persistent_id is None ==> row.selected == (chosen is None),
        device.persistent_id matches Some(a) ==> row.selected == (chosen matches Some(b) && b@ == a@),
{
}

/// The reference picker offers 440, 442, 432 and 415 hertz in this order, each under
/// its own text.
pub proof fn law_references_offered(i: int)
    ensures
        reference_order().len() == 4,
        i == 0 ==> reference_order()[i].bits() == 0x43dc_0000 && reference_order()[i].text()
            == "A = 440 Hz (standard)"@,
        i == 1 ==> reference_order()[i].bits() == 0x43dd_0000 && reference_order()[i].text()
            == "A = 442 Hz"@,
        i == 2 ==> reference_order()[i].bits() == 0x43d8_0000 && reference_order()[i].text()
            == "A = 432 Hz"@,
        i == 3 ==> reference_order()[i].bits() == 0x43cf_8000 && reference_order()[i].text()
            == "A = 415 Hz (Baroque)"@,
{
}

/// A frequency is a choice exactly where it lies within 32 steps of it, which is just
/// under a thousandth of a hertz.
pub proof fn law_references_within_a_thousandth(choice: ReferenceChoice, hz: F32)
    ensures
        choice.matched(hz) <==> choice.bits() <= hz.bits + 32 && hz.bits <= choice.bits() + 32,
{
}

/// Two tunings are offered, each under its own text.
pub proof fn law_tunings_offered(kind: TuningKind)
    ensures
        offered(kind) <==> kind is TwelveTet || kind is HindustaniJust,
        kind is TwelveTet ==> tuning_text(kind) == "12-tone equal temperament"@,
        kind is HindustaniJust ==> tuning_text(kind) == "Hindustani Just intonation"@,
{
}

/// Every note system has its own text.
pub proof fn law_note_systems_are_named(system: NoteSystem)
    ensures
        system is Western ==> note_text(system) == "Western (C, D, E, ...)"@,
        system is SargamLatin ==> note_text(system) == "Sargam (Sa, Re, Ga, ...)"@,
        system is SargamDevanagari ==> note_text(system) == "Sargam Devanagari (स, रे, ग, ...)"@,
{
}

/// A picker's row carries its choice, shows that choice's text, and is marked exactly
/// where it is the current one.
pub proof fn law_rows_show_their_choice(
    t: ChoiceRow<TuningKind>,
    n: ChoiceRow<NoteSystem>,
    m: MasterRow,
    kind: TuningKind,
    kind_now: TuningKind,
    system: NoteSystem,
    system_now: NoteSystem,
    selection: MusicSelection,
    name: Seq<char>,
    selection_now: MusicSelection,
)
    ensures
        is_tuning_row(t, kind, kind_now) ==> t.choice == kind && t.label@ == tuning_text(kind)
            && t.selected == (kind == kind_now),
        is_note_row(n, system, system_now) ==> n.choice == system && n.label@ == note_text(system)
            && n.selected == (system == system_now),
        is_master_row(m, selection, name, selection_now) ==> m.selection == selection && m.name@
            == name && m.selected == (selection == selection_now),
{
}

}
