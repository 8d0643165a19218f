//! The application shell: its screens, how the player moves between them, and
//! which commands that sends to the coach.

use vstd::prelude::*;
use vstd::string::StringExecFns;
use crate::coach::ReadModels;
use crate::features::Features;
use crate::ieee::F32;
use crate::music::{Scale, ScaleIntervals, TuningKind};
use crate::music;
use crate::port::{AudioConfig, AudioInitStatus, Command};
use crate::port;
use crate::semantic_graph::GraphProjector;

verus! {

/// The screens of the application.
#[derive(Clone, Copy, PartialEq, Eq, Structural, Debug)]
pub enum AppState {
    MainMenu,
    Settings,
    InGame,
    /// Drawn over the game, which is stopped meanwhile.
    Paused,
}

/// Where the player stands on the way to the microphone.
#[derive(Clone, Copy, PartialEq, Eq, Structural, Debug)]
pub enum PermissionPrompt {
    Hidden,
    NeedsPermission(AudioInitStatus),
    RequestPending,
    CheckingHardware,
    NoHardware,
}

impl Default for PermissionPrompt {
    fn default() -> (p: Self)
        ensures
            p is Hidden,
    {
        PermissionPrompt::Hidden
    }
}

/// The tabs of the settings screen.
#[derive(Clone, Copy, PartialEq, Eq, Structural, Debug)]
pub enum SettingsTab {
    Audio,
    Music,
}

/// The settings of the music tab.
#[derive(Clone, Copy, PartialEq, Eq, Structural, Debug)]
pub enum MusicSelection {
    ReferenceHz,
    TuningSystem,
    NoteSystem,
}

/// How notes are named.
#[derive(Clone, Copy, PartialEq, Eq, Structural, Debug)]
pub enum NoteSystem {
    Western,
    SargamLatin,
    SargamDevanagari,
}

/// Bits of the standard concert pitch, 440 hertz.
pub const CONCERT_PITCH: u32 = 0x43dc_0000;

/// Slots from the reference line up to C on the twelve-slot circle.
pub const SA_ON_C_SHIFT: usize = 3;

/// The octave in which Sa on C stands.
pub const SA_ON_C_OCTAVE: i32 = 8;

/// Calibration that the player sets once.
#[derive(Clone, Copy, PartialEq, Eq, Structural, Debug)]
pub struct AppSettings {
    /// The frequency of the reference line, in hertz.
    pub reference_hz: F32,
    /// How the slots are laid out.
    pub tuning_kind: TuningKind,
}

impl Default for AppSettings {
    fn default() -> (s: Self)
        ensures
            s == (AppSettings {
                reference_hz: F32 { bits: CONCERT_PITCH },
                tuning_kind: TuningKind::TwelveTet,
            }),
    {
        AppSettings {
            reference_hz: F32 { bits: CONCERT_PITCH },
            tuning_kind: TuningKind::TwelveTet,
        }
    }
}

impl AppSettings {
    /// A scale on this calibration: the tooth pattern on the reference tuning,
    /// re-based `sa_shift` slots up, in octave `octave`. `rotation` is what the
    /// re-based tuning is rotated by.
    pub fn song_scale(
        &self,
        intervals: ScaleIntervals,
        sa_shift: usize,
        rotation: F32,
        octave: i32,
    ) -> (scale: Scale)
        ensures
            scale == (Scale {
                intervals,
                tuning: music::Tuning { kind: self.tuning_kind, shift: sa_shift, rotation },
                octave,
            }),
    {
        Scale {
            intervals,
            tuning: music::Tuning { kind: self.tuning_kind, shift: sa_shift, rotation },
            octave,
        }
    }
}

/// The scale that a session starts with unless another is chosen: Bilawal with
/// Sa on C, one octave below the reference. `rotation` is what the tuning is
/// rotated by then.
pub fn default_tonality(rotation: F32) -> (scale: Scale)
    ensures
        scale.intervals.degrees() == seq![0u32, 2, 4, 5, 7, 9, 11],
        scale.tuning == (music::Tuning {
            kind: TuningKind::TwelveTet,
            shift: SA_ON_C_SHIFT,
            rotation,
        }),
        scale.octave == SA_ON_C_OCTAVE,
{
    let widths: Vec<u32> = vec![2, 2, 1, 2, 2, 2, 1];
    proof {
        let w = widths@;
        assert(w =~= seq![2u32, 2, 1, 2, 2, 2, 1]);
        reveal_with_fuel(music::reach, 8);
        assert(music::fits(w));
        assert(music::degrees_of(w) =~= seq![0u32, 2, 4, 5, 7, 9, 11]);
    }
    let intervals = ScaleIntervals::from_widths(&widths);
    AppSettings::default().song_scale(intervals, SA_ON_C_SHIFT, rotation, SA_ON_C_OCTAVE)
}

/// The state of the shell.
pub struct Shell {
    pub state: AppState,
    /// Whether there is a paused session to resume.
    pub has_paused: bool,
    pub prompt: PermissionPrompt,
    /// Whether the player is being asked whether to quit.
    pub quit_confirm: bool,
    pub tab: SettingsTab,
    pub music_selection: MusicSelection,
    /// Whether the scale picker is open.
    pub scale_picker: bool,
    /// The chosen input device; `None` is the default of the system.
    pub selected_device: Option<String>,
    pub settings: AppSettings,
    /// How notes are named.
    pub note_system: NoteSystem,
    pub tonality: Scale,
    /// The hop that was logged last.
    pub last_feature_hop: Option<u64>,
    /// How many devices were listed on another screen while the main menu waits for
    /// the hardware: the menu looks at it when it is back.
    pub unseen_listing: Option<usize>,
}

/// What a move of the player leads to: perhaps another screen, and commands.
pub struct Step {
    pub next: Option<AppState>,
    pub commands: Vec<Command>,
}

/// How the application ends.
#[derive(Clone, Copy, PartialEq, Eq, Structural, Debug)]
pub enum Quit {
    /// By closing its window.
    CloseWindow,
    /// Directly, where there is no window.
    Exit,
}

// ---- moving between screens ----------------------------------------------

/// The commands that leaving a screen sends.
pub open spec fn exit_commands(from: AppState) -> Seq<Command> {
    if from is InGame {
        seq![Command::AudioStopSession]
    } else {
        Seq::empty()
    }
}

/// The commands that entering a screen sends. The musical frame is configured
/// before the audio starts, so that it is never absent while a session runs.
pub open spec fn enter_commands(
    to: AppState,
    tonality: Scale,
    device: Option<String>,
) -> Seq<Command> {
    match to {
        AppState::MainMenu => seq![Command::AudioPermissionQuery],
        AppState::Settings => seq![Command::AudioListDevices],
        AppState::InGame => seq![
            Command::MusicConfigureSession { scale: tonality },
            Command::AudioStartSession(
                AudioConfig {
                    device_id: device,
                    sample_rate: None,
                    buffer_frames: None,
                    session_label: None,
                },
            ),
        ],
        AppState::Paused => Seq::empty(),
    }
}

/// The shell after it moved to another screen.
pub open spec fn moved(s: Shell, to: AppState) -> Shell {
    Shell {
        state: to,
        has_paused: match to {
            AppState::InGame => false,
            AppState::Paused => true,
            _ => s.has_paused,
        },
        quit_confirm: if s.state is Paused || to is Paused {
            false
        } else {
            s.quit_confirm
        },
        tab: if to is Settings {
            SettingsTab::Audio
        } else {
            s.tab
        },
        music_selection: if to is Settings {
            MusicSelection::ReferenceHz
        } else {
            s.music_selection
        },
        last_feature_hop: if s.state is InGame {
            None
        } else {
            s.last_feature_hop
        },
        ..s
    }
}

/// Forgets a session that has ended: its features and its pitch window.
pub fn end_session(models: &mut ReadModels, projector: &mut GraphProjector)
    requires
        old(models).history@.valid(),
    ensures
        final(models).history@ == old(models).history@.emptied(),
        final(models).history@.valid(),
        final(models).known_devices == old(models).known_devices,
        final(models).known_scales == old(models).known_scales,
        final(models).music == old(models).music,
        final(models).latest == old(models).latest,
        final(models).drain_count == old(models).drain_count,
        final(models).mic == old(models).mic,
        final(models).resume_locked == old(models).resume_locked,
        final(projector).pitch_window is None,
        final(projector).last_ms is None,
{
    models.history.clear();
    projector.clear();
}

impl Shell {
    /// The shell at launch.
    pub fn new(tonality: Scale) -> (s: Self)
        ensures
            s.state is MainMenu,
            !s.has_paused,
            s.prompt is Hidden,
            !s.quit_confirm,
            s.tab is Audio,
            s.music_selection is ReferenceHz,
            !s.scale_picker,
            s.selected_device is None,
            s.settings == (AppSettings {
                reference_hz: F32 { bits: CONCERT_PITCH },
                tuning_kind: TuningKind::TwelveTet,
            }),
            s.note_system is Western,
            s.tonality == tonality,
            s.last_feature_hop is None,
            s.unseen_listing is None,
    {
        Shell {
            state: AppState::MainMenu,
            has_paused: false,
            prompt: PermissionPrompt::Hidden,
            quit_confirm: false,
            tab: SettingsTab::Audio,
            music_selection: MusicSelection::ReferenceHz,
            scale_picker: false,
            selected_device: None,
            settings: AppSettings::default(),
            note_system: NoteSystem::Western,
            tonality,
            last_feature_hop: None,
            unseen_listing: None,
        }
    }

    /// Moves to another screen and gives the commands that this sends, in order.
    /// A session runs exactly while the game is on screen. The settings always
    /// open on their first tab and row, and a question whether to quit never
    /// outlives the pause.
    pub fn go(&mut self, to: AppState) -> (commands: Vec<Command>)
        ensures
            *final(self) == moved(*old(self), to),
            commands@ == exit_commands(old(self).state) + enter_commands(
                to,
                old(self).tonality,
                old(self).selected_device,
            ),
    {
        let mut commands: Vec<Command> = Vec::new();
        let ghost from = self.state;
        if self.state == AppState::InGame {
            commands.push(Command::AudioStopSession);
            self.last_feature_hop = None;
        }
        assert(commands@ =~= exit_commands(from));
        if self.state == AppState::Paused || to == AppState::Paused {
            self.quit_confirm = false;
        }
        match to {
            AppState::MainMenu => {
                commands.push(Command::AudioPermissionQuery);
            },
            AppState::Settings => {
                self.tab = SettingsTab::Audio;
                self.music_selection = MusicSelection::ReferenceHz;
                commands.push(Command::AudioListDevices);
            },
            AppState::InGame => {
                commands.push(Command::MusicConfigureSession { scale: self.tonality });
                commands.push(
                    Command::AudioStartSession(
                        AudioConfig {
                            device_id: port::copy_text(&self.selected_device),
                            sample_rate: None,
                            buffer_frames: None,
                            session_label: None,
                        },
                    ),
                );
                self.has_paused = false;
            },
            AppState::Paused => {
                self.has_paused = true;
            },
        }
        self.state = to;
        assert(commands@ =~= exit_commands(from) + enter_commands(
            to,
            old(self).tonality,
            old(self).selected_device,
        ));
        commands
    }
}

// ---- the main menu -------------------------------------------------------

/// The label of the start button.
pub fn start_label(has_paused: bool) -> (label: &'static str)
    ensures
        label@ == (if has_paused {
            "Continue"@
        } else {
            "Free Practice"@
        }),
{
    if has_paused {
        "Continue"
    } else {
        "Free Practice"
    }
}

/// How the application quits.
pub fn handle_quit(has_window: bool) -> (quit: Quit)
    ensures
        quit == (if has_window {
            Quit::CloseWindow
        } else {
            Quit::Exit
        }),
{
    if has_window {
        Quit::CloseWindow
    } else {
        Quit::Exit
    }
}

impl Shell {
    /// The start button: with the microphone granted the devices are listed
    /// first, otherwise the player is asked for permission.
    pub fn handle_new_game(&mut self, mic: AudioInitStatus) -> (step: Step)
        ensures
            step.next is None,
            mic is Granted ==> step.commands@ == seq![Command::AudioListDevices],
            !(mic is Granted) ==> step.commands@.len() == 0,
            *final(self) == (Shell {
                prompt: if mic is Granted {
                    PermissionPrompt::CheckingHardware
                } else {
                    PermissionPrompt::NeedsPermission(mic)
                },
                ..*old(self)
            }),
    {
        let mut commands: Vec<Command> = Vec::new();
        match mic {
            AudioInitStatus::Granted => {
                commands.push(Command::AudioListDevices);
                self.prompt = PermissionPrompt::CheckingHardware;
            },
            _ => {
                self.prompt = PermissionPrompt::NeedsPermission(mic);
            },
        }
        assert(mic is Granted ==> commands@ =~= seq![Command::AudioListDevices]);
        Step { next: None, commands }
    }

    /// A listing of the devices arrived, or not. While the hardware is being
    /// checked, a listing with a device starts the game and an empty one says so.
    pub fn advance_checking_hardware(&mut self, listed: bool, devices: usize) -> (next: Option<
        AppState,
    >)
        ensures
            !(listed && old(self).prompt is CheckingHardware) ==> next is None && *final(self)
                == *old(self),
            listed && old(self).prompt is CheckingHardware && devices == 0 ==> next is None
                && *final(self) == (Shell { prompt: PermissionPrompt::NoHardware, ..*old(self) }),
            listed && old(self).prompt is CheckingHardware && devices > 0 ==> next == Some(
                AppState::InGame,
            ) && *final(self) == (Shell { prompt: PermissionPrompt::Hidden, ..*old(self) }),
    {
        if !listed || self.prompt != PermissionPrompt::CheckingHardware {
            return None;
        }
        if devices == 0 {
            self.prompt = PermissionPrompt::NoHardware;
            None
        } else {
            self.prompt = PermissionPrompt::Hidden;
            Some(AppState::InGame)
        }
    }

    /// The player allows the microphone: the system is asked.
    pub fn handle_allow_mic(&mut self) -> (step: Step)
        ensures
            step.next is None,
            step.commands@ == seq![Command::AudioPermissionRequest],
            *final(self) == (Shell { prompt: PermissionPrompt::RequestPending, ..*old(self) }),
    {
        let mut commands: Vec<Command> = Vec::new();
        commands.push(Command::AudioPermissionRequest);
        assert(commands@ =~= seq![Command::AudioPermissionRequest]);
        self.prompt = PermissionPrompt::RequestPending;
        Step { next: None, commands }
    }

    /// The player dismisses the prompt.
    pub fn handle_permission_cancel(&mut self)
        ensures
            *final(self) == (Shell { prompt: PermissionPrompt::Hidden, ..*old(self) }),
    {
        self.prompt = PermissionPrompt::Hidden;
    }
}

// ---- the game and its pause ----------------------------------------------

impl Shell {
    /// Escape or the pause button in the game.
    pub fn handle_esc_in_game(&mut self) -> (next: AppState)
        ensures
            next is Paused,
            *final(self) == (Shell { has_paused: true, ..*old(self) }),
    {
        self.has_paused = true;
        AppState::Paused
    }

    /// Escape while paused.
    pub fn handle_esc_paused(&self) -> (next: AppState)
        ensures
            next is InGame,
    {
        AppState::InGame
    }

    /// The resume button, which is disabled while resuming is locked.
    pub fn handle_resume(&self, resume_locked: bool) -> (next: Option<AppState>)
        ensures
            next == (if resume_locked {
                None
            } else {
                Some(AppState::InGame)
            }),
    {
        if resume_locked {
            None
        } else {
            Some(AppState::InGame)
        }
    }

    /// The quit button of the pause does not quit yet: it asks.
    pub fn handle_quit_to_main(&mut self)
        ensures
            *final(self) == (Shell { quit_confirm: true, ..*old(self) }),
    {
        self.quit_confirm = true;
    }

    /// The player confirms: the session is over.
    pub fn handle_confirm_yes(&mut self) -> (next: AppState)
        ensures
            next is MainMenu,
            *final(self) == (Shell { has_paused: false, quit_confirm: false, ..*old(self) }),
    {
        self.has_paused = false;
        self.quit_confirm = false;
        AppState::MainMenu
    }

    /// The player does not want to quit after all.
    pub fn handle_confirm_cancel(&mut self)
        ensures
            *final(self) == (Shell { quit_confirm: false, ..*old(self) }),
    {
        self.quit_confirm = false;
    }

    /// Whether a hop is to be logged: each one is, once.
    pub fn log_features(&mut self, features: &Option<Features>) -> (log: bool)
        ensures
            log == (features matches Some(f) && old(self).last_feature_hop != Some(f.hop_index)),
            *final(self) == (Shell {
                last_feature_hop: match features {
                    Some(f) => Some(f.hop_index),
                    None => old(self).last_feature_hop,
                },
                ..*old(self)
            }),
    {
        match features {
            Some(f) => {
                let known = match self.last_feature_hop {
                    Some(hop) => hop == f.hop_index,
                    None => false,
                };
                self.last_feature_hop = Some(f.hop_index);
                !known
            },
            None => false,
        }
    }
}

/// How a hop is marked in the log: with a dot where a note was attacked.
pub fn onset_marker(onset: F32) -> (marker: &'static str)
    ensures
        marker@ == (if onset.positive() {
            "•"@
        } else {
            " "@
        }),
{
    if onset.is_positive() {
        "•"
    } else {
        " "
    }
}

// ---- the scale picker ----------------------------------------------------

impl Shell {
    /// A press on the head-up display opens the picker and asks for the
    /// catalogue, unless the picker is open already.
    pub fn handle_hud_click(&mut self) -> (step: Step)
        ensures
            step.next is None,
            old(self).scale_picker ==> step.commands@.len() == 0,
            !old(self).scale_picker ==> step.commands@ == seq![Command::MusicListScales],
            *final(self) == (Shell { scale_picker: true, ..*old(self) }),
    {
        let mut commands: Vec<Command> = Vec::new();
        if !self.scale_picker {
            commands.push(Command::MusicListScales);
            self.scale_picker = true;
        }
        assert(!old(self).scale_picker ==> commands@ =~= seq![Command::MusicListScales]);
        Step { next: None, commands }
    }

    /// A press on row `row` of the picker selects that shape: Sa and its octave
    /// stay, the session is configured anew, and the picker closes. A row that
    /// the catalogue does not have does nothing.
    pub fn handle_row_click(&mut self, scales: &Vec<ScaleIntervals>, row: usize) -> (step: Step)
        ensures
            step.next is None,
            row >= scales@.len() ==> step.commands@.len() == 0 && *final(self) == *old(self),
            row < scales@.len() ==> {
                let scale = Scale { intervals: scales@[row as int], ..old(self).tonality };
                &&& step.commands@ == seq![Command::MusicConfigureSession { scale }]
                &&& *final(self) == (Shell { tonality: scale, scale_picker: false, ..*old(self) })
            },
    {
        let mut commands: Vec<Command> = Vec::new();
        if row < scales.len() {
            let scale = music::select_scale(&self.tonality, scales[row]);
            self.tonality = scale;
            commands.push(Command::MusicConfigureSession { scale });
            self.scale_picker = false;
            assert(commands@ =~= seq![Command::MusicConfigureSession { scale }]);
        }
        Step { next: None, commands }
    }

    /// Closes the picker without selecting.
    pub fn handle_close_click(&mut self)
        ensures
            *final(self) == (Shell { scale_picker: false, ..*old(self) }),
    {
        self.scale_picker = false;
    }

    /// Sa was captured: the scale is re-rooted and the session configured anew.
    pub fn capture(&mut self, scale: Scale) -> (step: Step)
        ensures
            step.next is None,
            step.commands@ == seq![Command::MusicConfigureSession { scale }],
            *final(self) == (Shell { tonality: scale, ..*old(self) }),
    {
        let mut commands: Vec<Command> = Vec::new();
        self.tonality = scale;
        commands.push(Command::MusicConfigureSession { scale });
        assert(commands@ =~= seq![Command::MusicConfigureSession { scale }]);
        Step { next: None, commands }
    }
}

// ---- settings ------------------------------------------------------------

impl Shell {
    /// A press on a tab, and whether that changed the tab.
    pub fn handle_tab_click(&mut self, tab: SettingsTab) -> (changed: bool)
        ensures
            changed == (old(self).tab != tab),
            *final(self) == (Shell { tab, ..*old(self) }),
    {
        let changed = self.tab != tab;
        self.tab = tab;
        changed
    }

    /// A press on a row of the music tab, and whether that changed the row.
    pub fn handle_master_row_click(&mut self, row: MusicSelection) -> (changed: bool)
        ensures
            changed == (old(self).music_selection != row),
            *final(self) == (Shell { music_selection: row, ..*old(self) }),
    {
        let changed = self.music_selection != row;
        self.music_selection = row;
        changed
    }

    /// A press on a device.
    pub fn handle_device_click(&mut self, id: Option<String>)
        ensures
            *final(self) == (Shell { selected_device: id, ..*old(self) }),
    {
        self.selected_device = id;
    }

    /// A press on a reference frequency.
    pub fn handle_reference_hz_click(&mut self, hz: F32)
        ensures
            *final(self) == (Shell {
                settings: AppSettings { reference_hz: hz, ..old(self).settings },
                ..*old(self)
            }),
    {
        self.settings.reference_hz = hz;
    }

    /// A press on a tuning.
    pub fn handle_tuning_system_click(&mut self, kind: TuningKind)
        ensures
            *final(self) == (Shell {
                settings: AppSettings { tuning_kind: kind, ..old(self).settings },
                ..*old(self)
            }),
    {
        self.settings.tuning_kind = kind;
    }

    /// A press on a note system.
    pub fn handle_note_system_click(&mut self, system: NoteSystem)
        ensures
            *final(self) == (Shell { note_system: system, ..*old(self) }),
    {
        self.note_system = system;
    }

    /// The settings button of the main menu.
    pub fn handle_settings(&self) -> (next: AppState)
        ensures
            next is Settings,
    {
        AppState::Settings
    }

    /// The back button of the settings.
    pub fn handle_back(&self) -> (next: AppState)
        ensures
            next is MainMenu,
    {
        AppState::MainMenu
    }
}

// ---- the end of a recording ----------------------------------------------

/// Bits of the silence after which a recording counts as finished: one second.
pub const WAV_END_THRESHOLD: u32 = 0x3f80_0000;

/// Watches for the end of a recording that is played in place of the microphone.
#[derive(Clone, Copy, PartialEq, Eq, Structural, Debug)]
pub struct ReplayAudioEnd {
    /// Whether a hop has been drained in this session.
    pub seen_audio: bool,
    /// The silence since the last hop, in seconds.
    pub silent_secs: F32,
}

impl ReplayAudioEnd {
    /// At the start of a session.
    pub fn new() -> (end: Self)
        ensures
            end == (ReplayAudioEnd { seen_audio: false, silent_secs: F32 { bits: 0 } }),
    {
        ReplayAudioEnd { seen_audio: false, silent_secs: F32 { bits: 0 } }
    }

    /// One frame in which `count` hops were drained; `silent` is the silence with
    /// this frame added. Leads back to the main menu once the silence after the
    /// sound is long enough. Silence before the first sound does not count.
    pub fn detect_wav_end(&mut self, count: usize, silent: F32) -> (next: Option<AppState>)
        ensures
            count > 0 ==> next is None && *final(self) == (ReplayAudioEnd {
                seen_audio: true,
                silent_secs: F32 { bits: 0 },
            }),
            count == 0 && !old(self).seen_audio ==> next is None && *final(self) == *old(self),
            count == 0 && old(self).seen_audio ==> *final(self) == (ReplayAudioEnd {
                seen_audio: true,
                silent_secs: silent,
            }) && next == (if (F32 { bits: WAV_END_THRESHOLD }).at_most(silent) {
                Some(AppState::MainMenu)
            } else {
                None
            }),
    {
        if count > 0 {
            self.seen_audio = true;
            self.silent_secs = F32 { bits: 0 };
            None
        } else if self.seen_audio {
            self.silent_secs = silent;
            if (F32 { bits: WAV_END_THRESHOLD }).le(silent) {
                Some(AppState::MainMenu)
            } else {
                None
            }
        } else {
            None
        }
    }
}

// ---- what the player does -----------------------------------------------

/// Something that happens on a screen.
pub enum Signal {
    /// The application was asked to start in the game.
    Autostart,
    /// The start button of the main menu.
    Start { mic: AudioInitStatus },
    /// The settings button of the main menu.
    OpenSettings,
    /// A listing of devices arrived.
    DevicesListed { devices: usize },
    /// A frame of the main menu begins.
    MenuFrame,
    AllowMic,
    CancelPermission,
    Tab(SettingsTab),
    MasterRow(MusicSelection),
    Device(Option<String>),
    Reference(F32),
    Tuning(TuningKind),
    Notes(NoteSystem),
    Back,
    Escape,
    PauseButton,
    HudClick,
    /// A row of the scale picker.
    PickRow(usize),
    ClosePicker,
    /// Sa was captured.
    Capture(Scale),
    /// The recording that takes the place of the microphone has ended.
    RecordingEnded,
    Resume { locked: bool },
    QuitToMain,
    ConfirmQuit,
    CancelQuit,
}

/// Whether a screen takes a signal. What belongs to another screen is ignored; a
/// listing of devices is for the main menu, wherever it arrives.
pub open spec fn takes(state: AppState, signal: Signal) -> bool {
    match signal {
        Signal::DevicesListed { .. } => true,
        Signal::Autostart
        | Signal::Start { .. }
        | Signal::OpenSettings
        | Signal::MenuFrame
        | Signal::AllowMic
        | Signal::CancelPermission => state is MainMenu,
        Signal::Tab(_)
        | Signal::MasterRow(_)
        | Signal::Device(_)
        | Signal::Reference(_)
        | Signal::Tuning(_)
        | Signal::Notes(_)
        | Signal::Back => state is Settings,
        Signal::Escape => state is InGame || state is Paused,
        Signal::PauseButton
        | Signal::HudClick
        | Signal::PickRow(_)
        | Signal::ClosePicker
        | Signal::Capture(_)
        | Signal::RecordingEnded => state is InGame,
        Signal::Resume { .. }
        | Signal::QuitToMain
        | Signal::ConfirmQuit
        | Signal::CancelQuit => state is Paused,
    }
}

/// The shell after the main menu has looked at a listing of `devices` devices.
pub open spec fn looked_at(s: Shell, devices: usize) -> Shell {
    Shell {
        prompt: if !(s.prompt is CheckingHardware) {
            s.prompt
        } else if devices == 0 {
            PermissionPrompt::NoHardware
        } else {
            PermissionPrompt::Hidden
        },
        unseen_listing: None,
        ..s
    }
}

/// What a signal that is taken changes before the screen does.
pub open spec fn noted(s: Shell, signal: Signal, scales: Seq<ScaleIntervals>) -> Shell {
    match signal {
        Signal::Start { mic } => Shell {
            prompt: if mic is Granted {
                PermissionPrompt::CheckingHardware
            } else {
                PermissionPrompt::NeedsPermission(mic)
            },
            ..s
        },
        Signal::DevicesListed { devices } => if s.state is MainMenu {
            looked_at(s, devices)
        } else if s.prompt is CheckingHardware {
            Shell { unseen_listing: Some(devices), ..s }
        } else {
            s
        },
        Signal::MenuFrame => match s.unseen_listing {
            Some(devices) => looked_at(s, devices),
            None => s,
        },
        Signal::AllowMic => Shell { prompt: PermissionPrompt::RequestPending, ..s },
        Signal::CancelPermission => Shell { prompt: PermissionPrompt::Hidden, ..s },
        Signal::Tab(tab) => Shell { tab, ..s },
        Signal::MasterRow(row) => Shell { music_selection: row, ..s },
        Signal::Device(id) => Shell { selected_device: id, ..s },
        Signal::Reference(hz) => Shell {
            settings: AppSettings { reference_hz: hz, ..s.settings },
            ..s
        },
        Signal::Tuning(kind) => Shell {
            settings: AppSettings { tuning_kind: kind, ..s.settings },
            ..s
        },
        Signal::Notes(system) => Shell { note_system: system, ..s },
        Signal::HudClick => Shell { scale_picker: true, ..s },
        Signal::PickRow(row) => if row < scales.len() {
            Shell {
                tonality: Scale { intervals: scales[row as int], ..s.tonality },
                scale_picker: false,
                ..s
            }
        } else {
            s
        },
        Signal::ClosePicker => Shell { scale_picker: false, ..s },
        Signal::Capture(scale) => Shell { tonality: scale, ..s },
        Signal::Escape => if s.state is InGame {
            Shell { has_paused: true, ..s }
        } else {
            s
        },
        Signal::PauseButton => Shell { has_paused: true, ..s },
        Signal::QuitToMain => Shell { quit_confirm: true, ..s },
        Signal::ConfirmQuit => Shell { has_paused: false, quit_confirm: false, ..s },
        Signal::CancelQuit => Shell { quit_confirm: false, ..s },
        _ => s,
    }
}

/// The screen that a signal that is taken leads to, if it leads to one.
pub open spec fn leads_to(s: Shell, signal: Signal) -> Option<AppState> {
    match signal {
        Signal::Autostart => Some(AppState::InGame),
        Signal::OpenSettings => Some(AppState::Settings),
        Signal::DevicesListed { devices } => if s.state is MainMenu && s.prompt is CheckingHardware
            && devices > 0 {
            Some(AppState::InGame)
        } else {
            None
        },
        Signal::MenuFrame => if s.prompt is CheckingHardware && (s.unseen_listing matches Some(
            devices,
        ) && devices > 0) {
            Some(AppState::InGame)
        } else {
            None
        },
        Signal::Back => Some(AppState::MainMenu),
        Signal::Escape => if s.state is InGame {
            Some(AppState::Paused)
        } else {
            Some(AppState::InGame)
        },
        Signal::PauseButton => Some(AppState::Paused),
        Signal::RecordingEnded => Some(AppState::MainMenu),
        Signal::Resume { locked } => if locked {
            None
        } else {
            Some(AppState::InGame)
        },
        Signal::ConfirmQuit => Some(AppState::MainMenu),
        _ => None,
    }
}

/// The commands that a signal that is taken sends by itself.
pub open spec fn sent(s: Shell, signal: Signal, scales: Seq<ScaleIntervals>) -> Seq<Command> {
    match signal {
        Signal::Start { mic } => if mic is Granted {
            seq![Command::AudioListDevices]
        } else {
            Seq::empty()
        },
        Signal::AllowMic => seq![Command::AudioPermissionRequest],
        Signal::HudClick => if s.scale_picker {
            Seq::empty()
        } else {
            seq![Command::MusicListScales]
        },
        Signal::PickRow(row) => if row < scales.len() {
            seq![
                Command::MusicConfigureSession {
                    scale: Scale { intervals: scales[row as int], ..s.tonality },
                },
            ]
        } else {
            Seq::empty()
        },
        Signal::Capture(scale) => seq![Command::MusicConfigureSession { scale }],
        _ => Seq::empty(),
    }
}

/// The shell after a signal.
pub open spec fn told(s: Shell, signal: Signal, scales: Seq<ScaleIntervals>) -> Shell {
    if takes(s.state, signal) {
        match leads_to(s, signal) {
            Some(to) => moved(noted(s, signal, scales), to),
            None => noted(s, signal, scales),
        }
    } else {
        s
    }
}

/// All commands that a signal sends: its own, and those of the change of screen.
pub open spec fn told_commands(
    s: Shell,
    signal: Signal,
    scales: Seq<ScaleIntervals>,
) -> Seq<Command> {
    if takes(s.state, signal) {
        let after = noted(s, signal, scales);
        sent(s, signal, scales) + match leads_to(s, signal) {
            Some(to) => exit_commands(s.state) + enter_commands(
                to,
                after.tonality,
                after.selected_device,
            ),
            None => Seq::empty(),
        }
    } else {
        Seq::empty()
    }
}

fn is_taken(state: AppState, signal: &Signal) -> (yes: bool)
    ensures
        yes == takes(state, *signal),
{
    match signal {
        Signal::DevicesListed { .. } => true,
        Signal::Autostart
        | Signal::Start { .. }
        | Signal::OpenSettings
        | Signal::MenuFrame
        | Signal::AllowMic
        | Signal::CancelPermission => state == AppState::MainMenu,
        Signal::Tab(_)
        | Signal::MasterRow(_)
        | Signal::Device(_)
        | Signal::Reference(_)
        | Signal::Tuning(_)
        | Signal::Notes(_)
        | Signal::Back => state == AppState::Settings,
        Signal::Escape => state == AppState::InGame || state == AppState::Paused,
        Signal::PauseButton
        | Signal::HudClick
        | Signal::PickRow(_)
        | Signal::ClosePicker
        | Signal::Capture(_)
        | Signal::RecordingEnded => state == AppState::InGame,
        Signal::Resume { .. }
        | Signal::QuitToMain
        | Signal::ConfirmQuit
        | Signal::CancelQuit => state == AppState::Paused,
    }
}

fn step_to(next: Option<AppState>) -> (step: Step)
    ensures
        step.next == next,
        step.commands@ == Seq::<Command>::empty(),
{
    Step { next, commands: Vec::new() }
}

impl Shell {
    /// Hands a signal that the screen takes to what handles it.
    fn dispatch(&mut self, signal: Signal, scales: &Vec<ScaleIntervals>) -> (step: Step)
        requires
            takes(old(self).state, signal),
        ensures
            *final(self) == noted(*old(self), signal, scales@),
            step.next == leads_to(*old(self), signal),
            step.commands@ == sent(*old(self), signal, scales@),
    {
        match signal {
            Signal::Autostart => step_to(Some(AppState::InGame)),
            Signal::Start { mic } => self.handle_new_game(mic),
            Signal::OpenSettings => step_to(Some(self.handle_settings())),
            Signal::DevicesListed { devices } => {
                if self.state == AppState::MainMenu {
                    self.unseen_listing = None;
                    let next = self.advance_checking_hardware(true, devices);
                    step_to(next)
                } else {
                    if self.prompt == PermissionPrompt::CheckingHardware {
                        self.unseen_listing = Some(devices);
                    }
                    step_to(None)
                }
            },
            Signal::MenuFrame => {
                let (listed, devices): (bool, usize) = match self.unseen_listing {
                    Some(devices) => (true, devices),
                    None => (false, 0),
                };
                self.unseen_listing = None;
                let next = self.advance_checking_hardware(listed, devices);
                step_to(next)
            },
            Signal::AllowMic => self.handle_allow_mic(),
            Signal::CancelPermission => {
                self.handle_permission_cancel();
                step_to(None)
            },
            Signal::Tab(tab) => {
                let _ = self.handle_tab_click(tab);
                step_to(None)
            },
            Signal::MasterRow(row) => {
                let _ = self.handle_master_row_click(row);
                step_to(None)
            },
            Signal::Device(id) => {
                self.handle_device_click(id);
                step_to(None)
            },
            Signal::Reference(hz) => {
                self.handle_reference_hz_click(hz);
                step_to(None)
            },
            Signal::Tuning(kind) => {
                self.handle_tuning_system_click(kind);
                step_to(None)
            },
            Signal::Notes(system) => {
                self.handle_note_system_click(system);
                step_to(None)
            },
            Signal::Back => step_to(Some(self.handle_back())),
            Signal::Escape => {
                let next = if self.state == AppState::InGame {
                    self.handle_esc_in_game()
                } else {
                    self.handle_esc_paused()
                };
                step_to(Some(next))
            },
            Signal::PauseButton => {
                let next = self.handle_esc_in_game();
                step_to(Some(next))
            },
            Signal::HudClick => self.handle_hud_click(),
            Signal::PickRow(row) => self.handle_row_click(scales, row),
            Signal::ClosePicker => {
                self.handle_close_click();
                step_to(None)
            },
            Signal::Capture(scale) => self.capture(scale),
            Signal::RecordingEnded => step_to(Some(AppState::MainMenu)),
            Signal::Resume { locked } => step_to(self.handle_resume(locked)),
            Signal::QuitToMain => {
                self.handle_quit_to_main();
                step_to(None)
            },
            Signal::ConfirmQuit => {
                let next = self.handle_confirm_yes();
                step_to(Some(next))
            },
            Signal::CancelQuit => {
                self.handle_confirm_cancel();
                step_to(None)
            },
        }
    }

    /// Brings a signal to the screen: it is handled where the screen takes it, and
    /// the screen changes where it leads to another. Gives the commands that all
    /// this sends, in order. `scales` is the catalogue that the picker shows.
    pub fn tell(&mut self, signal: Signal, scales: &Vec<ScaleIntervals>) -> (commands: Vec<Command>)
        ensures
            *final(self) == told(*old(self), signal, scales@),
            commands@ == told_commands(*old(self), signal, scales@),
    {
        if !is_taken(self.state, &signal) {
            return Vec::new();
        }
        let step = self.dispatch(signal, scales);
        let mut commands = step.commands;
        match step.next {
            Some(to) => {
                let mut more = self.go(to);
                commands.append(&mut more);
            },
            None => {},
        }
        assert(commands@ =~= told_commands(*old(self), signal, scales@));
        commands
    }
}

// ---- laws ----------------------------------------------------------------

/// Whether a session runs after `commands`.
pub open spec fn running_after(before: bool, commands: Seq<Command>) -> bool
    decreases commands.len(),
{
    if commands.len() == 0 {
        before
    } else {
        match commands.last() {
            Command::AudioStartSession(_) => true,
            Command::AudioStopSession => false,
            _ => running_after(before, commands.drop_last()),
        }
    }
}

/// A session runs exactly while the game is on screen: the commands of a move
/// keep it so.
pub proof fn law_session_runs_in_game(
    from: AppState,
    to: AppState,
    tonality: Scale,
    device: Option<String>,
)
    ensures
        running_after(from is InGame, exit_commands(from) + enter_commands(to, tonality, device))
            == (to is InGame),
{
    reveal_with_fuel(running_after, 4);
    let all = exit_commands(from) + enter_commands(to, tonality, device);
    match (from, to) {
        (AppState::InGame, AppState::Paused) => {
            assert(all.last() == Command::AudioStopSession);
        },
        (AppState::InGame, AppState::InGame) => {
            assert(all.last() is AudioStartSession);
        },
        (AppState::InGame, _) => {
            assert(all.drop_last().last() == Command::AudioStopSession);
        },
        (_, AppState::InGame) => {
            assert(all.last() is AudioStartSession);
        },
        (_, AppState::Paused) => {
            assert(all.len() == 0);
        },
        _ => {
            assert(all.drop_last().len() == 0);
        },
    }
}

/// What holds of the shell whatever the player does: a paused session is marked
/// exactly during a pause, and the player is asked whether to quit only then.
pub open spec fn sound(s: Shell) -> bool {
    &&& s.has_paused == (s.state is Paused)
    &&& s.quit_confirm ==> s.state is Paused
}

/// No signal breaks what holds of the shell.
pub proof fn law_the_shell_stays_sound(s: Shell, signal: Signal, scales: Seq<ScaleIntervals>)
    requires
        sound(s),
    ensures
        sound(told(s, signal, scales)),
{
}

proof fn lemma_running(before: bool, first: Seq<Command>, more: Seq<Command>)
    ensures
        running_after(before, first + more) == running_after(running_after(before, first), more),
    decreases more.len(),
{
    if more.len() == 0 {
        assert(first + more =~= first);
    } else {
        assert((first + more).drop_last() =~= first + more.drop_last());
        lemma_running(before, first, more.drop_last());
    }
}

/// A session runs exactly while the game is on screen, whatever the player does.
pub proof fn law_signals_keep_session_and_screen_together(
    s: Shell,
    signal: Signal,
    scales: Seq<ScaleIntervals>,
)
    ensures
        running_after(s.state is InGame, told_commands(s, signal, scales)) == (told(
            s,
            signal,
            scales,
        ).state is InGame),
{
    let own = sent(s, signal, scales);
    assert(running_after(s.state is InGame, own) == (s.state is InGame)) by {
        reveal_with_fuel(running_after, 2);
        assert(own.len() <= 1);
    }
    if takes(s.state, signal) {
        let after = noted(s, signal, scales);
        match leads_to(s, signal) {
            Some(to) => {
                let move_commands = exit_commands(s.state) + enter_commands(
                    to,
                    after.tonality,
                    after.selected_device,
                );
                law_session_runs_in_game(s.state, to, after.tonality, after.selected_device);
                lemma_running(s.state is InGame, own, move_commands);
            },
            None => {
                assert(own + Seq::<Command>::empty() =~= own);
            },
        }
    }
}

/// A session is only ever left for the menu through a confirmed quit, or because
/// its recording ended: nothing else leads from the game or its pause to another
/// screen than these two.
pub proof fn law_a_session_ends_on_purpose(s: Shell, signal: Signal, scales: Seq<ScaleIntervals>)
    requires
        s.state is InGame || s.state is Paused,
        !(signal is ConfirmQuit),
        !(signal is RecordingEnded),
    ensures
        told(s, signal, scales).state is InGame || told(s, signal, scales).state is Paused,
{
}

/// The question whether to quit never outlives a pause, and settings always open
/// on their first tab and row.
pub proof fn law_screens_open_fresh(s: Shell, to: AppState)
    ensures
        s.state is Paused || to is Paused ==> !moved(s, to).quit_confirm,
        to is Settings ==> moved(s, to).tab is Audio && moved(s, to).music_selection is ReferenceHz,
{
}

/// A listing that arrives on another screen while the main menu waits for the
/// hardware is not lost: back in the menu, the first frame does with it what the
/// menu would have done, and sends the same commands.
pub proof fn law_a_listing_is_not_lost(s: Shell, devices: usize, scales: Seq<ScaleIntervals>)
    requires
        !(s.state is MainMenu),
        s.prompt is CheckingHardware,
    ensures
        ({
            let listed = Signal::DevicesListed { devices };
            let kept = told(s, listed, scales);
            let back = moved(kept, AppState::MainMenu);
            let there = moved(s, AppState::MainMenu);
            &&& kept.state == s.state
            &&& told_commands(s, listed, scales).len() == 0
            &&& told(back, Signal::MenuFrame, scales) == told(there, listed, scales)
            &&& told_commands(back, Signal::MenuFrame, scales) == told_commands(
                there,
                listed,
                scales,
            )
            &&& devices > 0 ==> told(back, Signal::MenuFrame, scales).state is InGame
            &&& devices == 0 ==> told(back, Signal::MenuFrame, scales).prompt is NoHardware
        }),
{
}

/// Until the main menu is back, nothing but another listing changes what is kept
/// for it.
pub proof fn law_a_kept_listing_waits(s: Shell, signal: Signal, scales: Seq<ScaleIntervals>)
    requires
        !(s.state is MainMenu),
        !(signal is DevicesListed),
    ensures
        told(s, signal, scales).unseen_listing == s.unseen_listing,
        told(s, signal, scales).prompt == s.prompt,
{
}

/// A listing counts once: after it the menu frames change nothing.
pub proof fn law_a_listing_counts_once(s: Shell, scales: Seq<ScaleIntervals>)
    requires
        s.state is MainMenu,
        s.unseen_listing is None,
    ensures
        told(s, Signal::MenuFrame, scales) == s,
        told_commands(s, Signal::MenuFrame, scales).len() == 0,
{
}

// ---- what each signal does -----------------------------------------------

/// What a change of screen leaves alone and what it sets: the screen, the mark of a
/// pause, the tab and the row of the settings, and the hop that was logged last.
pub proof fn law_what_a_move_changes(s: Shell, to: AppState)
    ensures
        ({
            let m = moved(s, to);
            &&& m.state == to
            &&& to is InGame ==> !m.has_paused
            &&& to is Paused ==> m.has_paused
            &&& to is MainMenu || to is Settings ==> m.has_paused == s.has_paused
            &&& !(s.state is Paused) && !(to is Paused) ==> m.quit_confirm == s.quit_confirm
            &&& !(to is Settings) ==> m.tab == s.tab && m.music_selection == s.music_selection
            &&& s.state is InGame ==> m.last_feature_hop is None
            &&& !(s.state is InGame) ==> m.last_feature_hop == s.last_feature_hop
            &&& m.prompt == s.prompt
            &&& m.scale_picker == s.scale_picker
            &&& m.selected_device == s.selected_device
            &&& m.settings == s.settings
            &&& m.note_system == s.note_system
            &&& m.tonality == s.tonality
            &&& m.unseen_listing == s.unseen_listing
        }),
{
}

/// What a change of screen sends: leaving the game stops the session; the menu asks
/// for the permission, the settings for the devices, and the game sets its scale and
/// then starts a session on the chosen device with all else left open.
pub proof fn law_what_a_move_sends(
    from: AppState,
    to: AppState,
    tonality: Scale,
    device: Option<String>,
)
    ensures
        ({
            let out = exit_commands(from);
            let on = enter_commands(to, tonality, device);
            &&& from is InGame ==> out.len() == 1 && out[0] is AudioStopSession
            &&& !(from is InGame) ==> out.len() == 0
            &&& to is MainMenu ==> on.len() == 1 && on[0] is AudioPermissionQuery
            &&& to is Settings ==> on.len() == 1 && on[0] is AudioListDevices
            &&& to is Paused ==> on.len() == 0
            &&& to is InGame ==> {
                &&& on.len() == 2
                &&& on[0] == Command::MusicConfigureSession { scale: tonality }
                &&& on[1] matches Command::AudioStartSession(cfg)
                &&& cfg.device_id == device
                &&& cfg.sample_rate is None
                &&& cfg.buffer_frames is None
                &&& cfg.session_label is None
            }
        }),
{
}

/// A signal that belongs to another screen changes nothing and sends nothing.
pub proof fn law_signals_of_other_screens_are_ignored(
    s: Shell,
    signal: Signal,
    scales: Seq<ScaleIntervals>,
)
    requires
        match signal {
            Signal::Autostart => !(s.state is MainMenu),
            Signal::Start { .. } => !(s.state is MainMenu),
            Signal::OpenSettings => !(s.state is MainMenu),
            Signal::DevicesListed { .. } => false,
            Signal::MenuFrame => !(s.state is MainMenu),
            Signal::AllowMic => !(s.state is MainMenu),
            Signal::CancelPermission => !(s.state is MainMenu),
            Signal::Tab(_) => !(s.state is Settings),
            Signal::MasterRow(_) => !(s.state is Settings),
            Signal::Device(_) => !(s.state is Settings),
            Signal::Reference(_) => !(s.state is Settings),
            Signal::Tuning(_) => !(s.state is Settings),
            Signal::Notes(_) => !(s.state is Settings),
            Signal::Back => !(s.state is Settings),
            Signal::Escape => s.state is MainMenu || s.state is Settings,
            Signal::PauseButton => !(s.state is InGame),
            Signal::HudClick => !(s.state is InGame),
            Signal::PickRow(_) => !(s.state is InGame),
            Signal::ClosePicker => !(s.state is InGame),
            Signal::Capture(_) => !(s.state is InGame),
            Signal::RecordingEnded => !(s.state is InGame),
            Signal::Resume { .. } => !(s.state is Paused),
            Signal::QuitToMain => !(s.state is Paused),
            Signal::ConfirmQuit => !(s.state is Paused),
            Signal::CancelQuit => !(s.state is Paused),
        },
    ensures
        told(s, signal, scales) == s,
        told_commands(s, signal, scales).len() == 0,
{
}

/// The main menu: starting with the microphone granted lists the devices and waits
/// for them, without it the player is asked; allowing asks the system; cancelling
/// hides the prompt. None of these changes the screen or anything else.
pub proof fn law_the_menu_asks_before_it_starts(
    s: Shell,
    mic: AudioInitStatus,
    scales: Seq<ScaleIntervals>,
)
    requires
        s.state is MainMenu,
    ensures
        ({
            let start = Signal::Start { mic };
            let sends = told_commands(s, start, scales);
            &&& mic is Granted ==> sends.len() == 1 && sends[0] is AudioListDevices && told(
                s,
                start,
                scales,
            ) == (Shell { prompt: PermissionPrompt::CheckingHardware, ..s })
            &&& !(mic is Granted) ==> sends.len() == 0 && told(s, start, scales) == (Shell {
                prompt: PermissionPrompt::NeedsPermission(mic),
                ..s
            })
        }),
        told_commands(s, Signal::AllowMic, scales).len() == 1,
        told_commands(s, Signal::AllowMic, scales)[0] is AudioPermissionRequest,
        told(s, Signal::AllowMic, scales) == (Shell {
            prompt: PermissionPrompt::RequestPending,
            ..s
        }),
        told_commands(s, Signal::CancelPermission, scales).len() == 0,
        told(s, Signal::CancelPermission, scales) == (Shell {
            prompt: PermissionPrompt::Hidden,
            ..s
        }),
{
}

/// A listing that the waiting main menu sees starts the game where there is a device,
/// and says so where there is none. Without a menu that waits it has no effect.
pub proof fn law_a_listing_decides_the_start(
    s: Shell,
    devices: usize,
    scales: Seq<ScaleIntervals>,
)
    ensures
        ({
            let listed = Signal::DevicesListed { devices };
            let t = told(s, listed, scales);
            let sends = told_commands(s, listed, scales);
            &&& s.state is MainMenu && s.prompt is CheckingHardware && devices > 0 ==> {
                &&& t.state is InGame
                &&& t.prompt is Hidden
                &&& t.unseen_listing is None
                &&& sends.len() == 2
                &&& sends[0] == Command::MusicConfigureSession { scale: s.tonality }
                &&& sends[1] matches Command::AudioStartSession(cfg)
                &&& cfg.device_id == s.selected_device
            }
            &&& s.state is MainMenu && s.prompt is CheckingHardware && devices == 0
                ==> sends.len() == 0 && t == (Shell {
                prompt: PermissionPrompt::NoHardware,
                unseen_listing: None,
                ..s
            })
            &&& s.state is MainMenu && !(s.prompt is CheckingHardware) ==> sends.len() == 0 && t
                == (Shell { unseen_listing: None, ..s })
            &&& !(s.state is MainMenu) && s.prompt is CheckingHardware ==> sends.len() == 0 && t
                == (Shell { unseen_listing: Some(devices), ..s })
            &&& !(s.state is MainMenu) && !(s.prompt is CheckingHardware) ==> sends.len() == 0 && t
                == s
        }),
{
}

/// Where each signal that changes the screen leads.
pub proof fn law_where_signals_lead(s: Shell, locked: bool, scales: Seq<ScaleIntervals>)
    ensures
        s.state is MainMenu ==> told(s, Signal::Autostart, scales) == moved(s, AppState::InGame),
        s.state is MainMenu ==> told(s, Signal::OpenSettings, scales) == moved(
            s,
            AppState::Settings,
        ),
        s.state is Settings ==> told(s, Signal::Back, scales) == moved(s, AppState::MainMenu),
        s.state is InGame ==> told(s, Signal::Escape, scales) == moved(s, AppState::Paused),
        s.state is InGame ==> told(s, Signal::PauseButton, scales) == moved(s, AppState::Paused),
        s.state is InGame ==> told(s, Signal::RecordingEnded, scales) == moved(
            s,
            AppState::MainMenu,
        ),
        s.state is Paused ==> told(s, Signal::Escape, scales) == moved(s, AppState::InGame),
        s.state is Paused && !locked ==> told(s, Signal::Resume { locked }, scales) == moved(
            s,
            AppState::InGame,
        ),
        s.state is Paused && locked ==> told(s, Signal::Resume { locked }, scales) == s,
        s.state is Paused ==> told(s, Signal::QuitToMain, scales) == (Shell {
            quit_confirm: true,
            ..s
        }),
        s.state is Paused ==> told(s, Signal::CancelQuit, scales) == (Shell {
            quit_confirm: false,
            ..s
        }),
        s.state is Paused ==> told(s, Signal::ConfirmQuit, scales).state is MainMenu && !told(
            s,
            Signal::ConfirmQuit,
            scales,
        ).has_paused && !told(s, Signal::ConfirmQuit, scales).quit_confirm,
{
}

/// A change of screen by one of these signals sends what the change itself sends, and
/// a refused or answered question sends nothing.
pub proof fn law_what_signals_that_lead_send(s: Shell, locked: bool, scales: Seq<ScaleIntervals>)
    ensures
        s.state is MainMenu ==> told_commands(s, Signal::Autostart, scales) == enter_commands(
            AppState::InGame,
            s.tonality,
            s.selected_device,
        ),
        s.state is MainMenu ==> told_commands(s, Signal::OpenSettings, scales) == seq![
            Command::AudioListDevices,
        ],
        s.state is Settings ==> told_commands(s, Signal::Back, scales) == seq![
            Command::AudioPermissionQuery,
        ],
        s.state is InGame ==> told_commands(s, Signal::Escape, scales) == seq![
            Command::AudioStopSession,
        ],
        s.state is InGame ==> told_commands(s, Signal::PauseButton, scales) == seq![
            Command::AudioStopSession,
        ],
        s.state is InGame ==> told_commands(s, Signal::RecordingEnded, scales) == seq![
            Command::AudioStopSession,
            Command::AudioPermissionQuery,
        ],
        s.state is Paused ==> told_commands(s, Signal::Escape, scales) == enter_commands(
            AppState::InGame,
            s.tonality,
            s.selected_device,
        ),
        s.state is Paused && !locked ==> told_commands(s, Signal::Resume { locked }, scales)
            == enter_commands(AppState::InGame, s.tonality, s.selected_device),
        s.state is Paused && locked ==> told_commands(s, Signal::Resume { locked }, scales).len()
            == 0,
        told_commands(s, Signal::QuitToMain, scales).len() == 0,
        told_commands(s, Signal::CancelQuit, scales).len() == 0,
        s.state is Paused ==> told_commands(s, Signal::ConfirmQuit, scales) == seq![
            Command::AudioPermissionQuery,
        ],
{
    assert(Seq::<Command>::empty() + Seq::<Command>::empty() =~= Seq::<Command>::empty());
}

/// What the player sets in the settings is set, and nothing else changes or is sent.
pub proof fn law_settings_are_set(
    s: Shell,
    tab: SettingsTab,
    row: MusicSelection,
    id: Option<String>,
    hz: F32,
    kind: TuningKind,
    system: NoteSystem,
    scales: Seq<ScaleIntervals>,
)
    requires
        s.state is Settings,
    ensures
        told(s, Signal::Tab(tab), scales) == (Shell { tab, ..s }),
        told(s, Signal::MasterRow(row), scales) == (Shell { music_selection: row, ..s }),
        told(s, Signal::Device(id), scales) == (Shell { selected_device: id, ..s }),
        told(s, Signal::Reference(hz), scales).settings.reference_hz == hz,
        told(s, Signal::Reference(hz), scales).settings.tuning_kind == s.settings.tuning_kind,
        told(s, Signal::Reference(hz), scales) == (Shell {
            settings: told(s, Signal::Reference(hz), scales).settings,
            ..s
        }),
        told(s, Signal::Tuning(kind), scales).settings.tuning_kind == kind,
        told(s, Signal::Tuning(kind), scales).settings.reference_hz == s.settings.reference_hz,
        told(s, Signal::Tuning(kind), scales) == (Shell {
            settings: told(s, Signal::Tuning(kind), scales).settings,
            ..s
        }),
        told(s, Signal::Notes(system), scales) == (Shell { note_system: system, ..s }),
        told_commands(s, Signal::Tab(tab), scales).len() == 0,
        told_commands(s, Signal::MasterRow(row), scales).len() == 0,
        told_commands(s, Signal::Device(id), scales).len() == 0,
        told_commands(s, Signal::Reference(hz), scales).len() == 0,
        told_commands(s, Signal::Tuning(kind), scales).len() == 0,
        told_commands(s, Signal::Notes(system), scales).len() == 0,
{
}

/// The picker of the game: a press on the display opens it and asks for the
/// catalogue once; a row sets its shape, keeps Sa and the octave, and closes it; a row
/// that is not there does nothing; closing it selects nothing.
pub proof fn law_the_picker_sets_the_shape(s: Shell, row: usize, scales: Seq<ScaleIntervals>)
    requires
        s.state is InGame,
    ensures
        told(s, Signal::HudClick, scales) == (Shell { scale_picker: true, ..s }),
        s.scale_picker ==> told_commands(s, Signal::HudClick, scales).len() == 0,
        !s.scale_picker ==> told_commands(s, Signal::HudClick, scales) == seq![
            Command::MusicListScales,
        ],
        told(s, Signal::ClosePicker, scales) == (Shell { scale_picker: false, ..s }),
        told_commands(s, Signal::ClosePicker, scales).len() == 0,
        row >= scales.len() ==> told(s, Signal::PickRow(row), scales) == s && told_commands(
            s,
            Signal::PickRow(row),
            scales,
        ).len() == 0,
        row < scales.len() ==> {
            let t = told(s, Signal::PickRow(row), scales);
            &&& t.tonality.intervals == scales[row as int]
            &&& t.tonality.tuning == s.tonality.tuning
            &&& t.tonality.octave == s.tonality.octave
            &&& !t.scale_picker
            &&& t == (Shell { tonality: t.tonality, scale_picker: false, ..s })
            &&& told_commands(s, Signal::PickRow(row), scales) == seq![
                Command::MusicConfigureSession { scale: t.tonality },
            ]
        },
{
}

/// Capturing Sa makes the captured scale the tonality and configures the session with
/// it.
pub proof fn law_a_capture_takes_hold(s: Shell, scale: Scale, scales: Seq<ScaleIntervals>)
    requires
        s.state is InGame,
    ensures
        told(s, Signal::Capture(scale), scales) == (Shell { tonality: scale, ..s }),
        told_commands(s, Signal::Capture(scale), scales) == seq![
            Command::MusicConfigureSession { scale },
        ],
{
}

/// What the shell is set to from the start: concert pitch of 440 hertz, Sa on C three
/// slots above the reference line, and a second of silence after a recording.
pub proof fn law_preset_numbers()
    ensures
        CONCERT_PITCH == 0x43dc_0000,
        SA_ON_C_SHIFT == 3,
        SA_ON_C_OCTAVE == 8,
        WAV_END_THRESHOLD == 0x3f80_0000,
{
}

}
