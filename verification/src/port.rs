//! What a head and the coach say to each other: commands one way, events and
//! feature snapshots the other.

use vstd::prelude::*;
use crate::music::{Scale, ScaleIntervals};

verus! {

/// How a device is connected.
#[derive(Clone, Copy, PartialEq, Eq, Structural, Debug)]
pub enum Transport {
    BuiltIn,
    Usb,
    Bluetooth,
    Virtual,
    Unknown,
}

/// The sample rates that a stream can run at.
#[derive(PartialEq, Eq, Debug)]
pub enum SampleRateSupport {
    /// Exactly these.
    List(Vec<u32>),
    /// Everything between each pair of bounds.
    Ranges(Vec<(u32, u32)>),
    /// Only opening the stream would tell.
    ProbeOnly,
}

/// One stream of a device.
#[derive(PartialEq, Eq, Debug)]
pub struct StreamInfo {
    pub name: String,
    pub channels: u16,
    pub sample_rates: SampleRateSupport,
}

/// An input device.
#[derive(PartialEq, Eq, Debug)]
pub struct InputDevice {
    pub name: String,
    pub persistent_id: Option<String>,
    pub transport: Transport,
    pub streams: Vec<StreamInfo>,
}

/// How a session is opened. `None` leaves the choice to the coach.
#[derive(PartialEq, Eq, Debug)]
pub struct AudioConfig {
    pub device_id: Option<String>,
    pub sample_rate: Option<u32>,
    pub buffer_frames: Option<u32>,
    pub session_label: Option<String>,
}

/// Whether the operating system lets the microphone be used.
#[derive(Clone, Copy, PartialEq, Eq, Structural, Debug)]
pub enum AudioInitStatus {
    Undetermined,
    Denied,
    Granted,
}

/// A call or an assistant took the audio away, or gave it back.
#[derive(Clone, Copy, PartialEq, Eq, Structural, Debug)]
pub enum Interruption {
    Began,
    Ended { should_resume: bool },
}

/// The state of an audio session.
#[derive(Clone, Copy, PartialEq, Eq, Structural, Debug)]
pub enum SessionState {
    Idle,
    Starting,
    Running,
    Stopping,
}

/// How a shutdown of the coach went.
#[derive(Clone, Copy, PartialEq, Eq, Structural, Debug)]
pub enum ShutdownResult {
    Clean,
    AlreadyShutDown,
    TimedOut,
}

/// What a head asks of the coach.
#[derive(PartialEq, Eq, Debug)]
pub enum Command {
    AudioListDevices,
    AudioPermissionQuery,
    AudioPermissionRequest,
    AudioStartSession(AudioConfig),
    AudioStopSession,
    MusicListScales,
    MusicConfigureSession { scale: Scale },
}

/// What the coach reports.
#[derive(PartialEq, Eq, Debug)]
pub enum CoachEvent {
    AudioDevicesListed { devices: Vec<InputDevice> },
    MusicScalesListed { shapes: Vec<ScaleIntervals> },
    AudioSessionStateChanged { new_state: SessionState },
    AudioSessionError { kind: String, reason: String },
    AudioDefaultInputChanged { new_default: Option<String> },
    AudioPermissionStatus { status: AudioInitStatus },
    AudioInterruption { interruption: Interruption },
    MusicSessionConfigured { scale: Scale },
    EventsDropped { count: u64 },
}

// ---- copies --------------------------------------------------------------

/// Whether two rate lists say the same.
pub open spec fn same_rates(a: SampleRateSupport, b: SampleRateSupport) -> bool {
    match (a, b) {
        (SampleRateSupport::List(x), SampleRateSupport::List(y)) => x@ == y@,
        (SampleRateSupport::Ranges(x), SampleRateSupport::Ranges(y)) => x@ == y@,
        (SampleRateSupport::ProbeOnly, SampleRateSupport::ProbeOnly) => true,
        _ => false,
    }
}

/// Whether two streams are the same.
pub open spec fn same_stream(a: StreamInfo, b: StreamInfo) -> bool {
    a.name@ == b.name@ && a.channels == b.channels && same_rates(a.sample_rates, b.sample_rates)
}

/// Whether two devices are the same.
pub open spec fn same_device(a: InputDevice, b: InputDevice) -> bool {
    &&& a.name@ == b.name@
    &&& a.persistent_id == b.persistent_id
    &&& a.transport == b.transport
    &&& a.streams@.len() == b.streams@.len()
    &&& forall|i: int|
        0 <= i < a.streams@.len() ==> same_stream(#[trigger] a.streams@[i], b.streams@[i])
}

/// Whether two lists hold the same devices in the same order.
pub open spec fn same_devices(a: Seq<InputDevice>, b: Seq<InputDevice>) -> bool {
    a.len() == b.len() && forall|i: int| 0 <= i < a.len() ==> same_device(#[trigger] a[i], b[i])
}

/// Whether two events say the same.
pub open spec fn same_event(a: CoachEvent, b: CoachEvent) -> bool {
    match (a, b) {
        (
            CoachEvent::AudioDevicesListed { devices: x },
            CoachEvent::AudioDevicesListed { devices: y },
        ) => same_devices(x@, y@),
        (
            CoachEvent::MusicScalesListed { shapes: x },
            CoachEvent::MusicScalesListed { shapes: y },
        ) => x@ == y@,
        _ => a == b,
    }
}

/// A copy of an optional text.
pub fn copy_text(text: &Option<String>) -> (copy: Option<String>)
    ensures
        copy == *text,
{
    match text {
        Some(t) => Some(t.clone()),
        None => None,
    }
}

/// A copy of a command, for the trace. A command that was sent is consumed, so
/// it is put together anew, field by field.
pub fn clone_command(command: &Command) -> (copy: Command)
    ensures
        copy == *command,
{
    match command {
        Command::AudioListDevices => Command::AudioListDevices,
        Command::AudioPermissionQuery => Command::AudioPermissionQuery,
        Command::AudioPermissionRequest => Command::AudioPermissionRequest,
        Command::AudioStartSession(cfg) => Command::AudioStartSession(
            AudioConfig {
                device_id: copy_text(&cfg.device_id),
                sample_rate: cfg.sample_rate,
                buffer_frames: cfg.buffer_frames,
                session_label: copy_text(&cfg.session_label),
            },
        ),
        Command::AudioStopSession => Command::AudioStopSession,
        Command::MusicListScales => Command::MusicListScales,
        Command::MusicConfigureSession { scale } => Command::MusicConfigureSession {
            scale: *scale,
        },
    }
}

fn clone_rates(rates: &SampleRateSupport) -> (copy: SampleRateSupport)
    ensures
        same_rates(*rates, copy),
{
    match rates {
        SampleRateSupport::List(list) => {
            let mut out: Vec<u32> = Vec::new();
            for i in 0..list.len()
                invariant
                    out@ == list@.take(i as int),
            {
                out.push(list[i]);
                assert(out@ =~= list@.take(i + 1));
            }
            assert(list@.take(list@.len() as int) =~= list@);
            SampleRateSupport::List(out)
        },
        SampleRateSupport::Ranges(list) => {
            let mut out: Vec<(u32, u32)> = Vec::new();
            for i in 0..list.len()
                invariant
                    out@ == list@.take(i as int),
            {
                out.push(list[i]);
                assert(out@ =~= list@.take(i + 1));
            }
            assert(list@.take(list@.len() as int) =~= list@);
            SampleRateSupport::Ranges(out)
        },
        SampleRateSupport::ProbeOnly => SampleRateSupport::ProbeOnly,
    }
}

fn clone_device(device: &InputDevice) -> (copy: InputDevice)
    ensures
        same_device(*device, copy),
{
    let mut streams: Vec<StreamInfo> = Vec::new();
    for i in 0..device.streams.len()
        invariant
            streams@.len() == i,
            forall|k: int|
                0 <= k < i ==> same_stream(#[trigger] device.streams@[k], streams@[k]),
    {
        let s = &device.streams[i];
        streams.push(
            StreamInfo {
                name: s.name.clone(),
                channels: s.channels,
                sample_rates: clone_rates(&s.sample_rates),
            },
        );
    }
    InputDevice {
        name: device.name.clone(),
        persistent_id: copy_text(&device.persistent_id),
        transport: device.transport,
        streams,
    }
}

/// A copy of a list of devices.
pub fn clone_devices(devices: &Vec<InputDevice>) -> (copy: Vec<InputDevice>)
    ensures
        same_devices(devices@, copy@),
{
    let mut out: Vec<InputDevice> = Vec::new();
    for i in 0..devices.len()
        invariant
            out@.len() == i,
            forall|k: int| 0 <= k < i ==> same_device(#[trigger] devices@[k], out@[k]),
    {
        out.push(clone_device(&devices[i]));
    }
    out
}

/// A copy of a list of shapes.
pub fn clone_shapes(shapes: &Vec<ScaleIntervals>) -> (copy: Vec<ScaleIntervals>)
    ensures
        copy@ == shapes@,
{
    let mut out: Vec<ScaleIntervals> = Vec::new();
    for i in 0..shapes.len()
        invariant
            out@ == shapes@.take(i as int),
    {
        out.push(shapes[i]);
        assert(out@ =~= shapes@.take(i + 1));
    }
    assert(shapes@.take(shapes@.len() as int) =~= shapes@);
    out
}

/// A copy of an event, for the trace. The events themselves go to the head.
pub fn clone_event(event: &CoachEvent) -> (copy: CoachEvent)
    ensures
        same_event(*event, copy),
{
    match event {
        CoachEvent::AudioDevicesListed { devices } => CoachEvent::AudioDevicesListed {
            devices: clone_devices(devices),
        },
        CoachEvent::MusicScalesListed { shapes } => CoachEvent::MusicScalesListed {
            shapes: clone_shapes(shapes),
        },
        CoachEvent::AudioSessionStateChanged { new_state } => {
            CoachEvent::AudioSessionStateChanged { new_state: *new_state }
        },
        CoachEvent::AudioSessionError { kind, reason } => CoachEvent::AudioSessionError {
            kind: kind.clone(),
            reason: reason.clone(),
        },
        CoachEvent::AudioDefaultInputChanged { new_default } => {
            CoachEvent::AudioDefaultInputChanged { new_default: copy_text(new_default) }
        },
        CoachEvent::AudioPermissionStatus { status } => CoachEvent::AudioPermissionStatus {
            status: *status,
        },
        CoachEvent::AudioInterruption { interruption } => CoachEvent::AudioInterruption {
            interruption: *interruption,
        },
        CoachEvent::MusicSessionConfigured { scale } => CoachEvent::MusicSessionConfigured {
            scale: *scale,
        },
        CoachEvent::EventsDropped { count } => CoachEvent::EventsDropped { count: *count },
    }
}

// ---- what a copy keeps ---------------------------------------------------

/// Rates that say the same are of one kind and hold the same numbers in the same
/// order.
pub proof fn law_same_rates_hold_the_same(a: SampleRateSupport, b: SampleRateSupport)
    ensures
        same_rates(a, a),
        same_rates(a, b) ==> (a is List) == (b is List) && (a is Ranges) == (b is Ranges) && (
        a is ProbeOnly) == (b is ProbeOnly),
        a matches SampleRateSupport::List(x) ==> (b matches SampleRateSupport::List(y)
            ==> same_rates(a, b) == (x@ == y@)),
        a matches SampleRateSupport::Ranges(x) ==> (b matches SampleRateSupport::Ranges(y)
            ==> same_rates(a, b) == (x@ == y@)),
{
}

/// Lists of the same devices agree in every device and in every stream of it.
pub proof fn law_same_devices_agree_throughout(
    a: Seq<InputDevice>,
    b: Seq<InputDevice>,
    i: int,
    k: int,
)
    requires
        same_devices(a, b),
        0 <= i < a.len(),
    ensures
        a.len() == b.len(),
        a[i].name@ == b[i].name@,
        a[i].persistent_id == b[i].persistent_id,
        a[i].transport == b[i].transport,
        a[i].streams@.len() == b[i].streams@.len(),
        0 <= k < a[i].streams@.len() ==> {
            &&& a[i].streams@[k].name@ == b[i].streams@[k].name@
            &&& a[i].streams@[k].channels == b[i].streams@[k].channels
            &&& same_rates(a[i].streams@[k].sample_rates, b[i].streams@[k].sample_rates)
        },
{
    assert(same_device(a[i], b[i]));
    if 0 <= k < a[i].streams@.len() {
        assert(same_stream(a[i].streams@[k], b[i].streams@[k]));
    }
}

/// Events that say the same are of one kind and carry the same.
pub proof fn law_same_events_carry_the_same(a: CoachEvent, b: CoachEvent)
    requires
        same_event(a, b),
    ensures
        a matches CoachEvent::AudioDevicesListed { devices: x } ==> (
        b matches CoachEvent::AudioDevicesListed { devices: y } && same_devices(x@, y@)),
        a matches CoachEvent::MusicScalesListed { shapes: x } ==> (
        b matches CoachEvent::MusicScalesListed { shapes: y } && x@ == y@),
        !(a is AudioDevicesListed) && !(a is MusicScalesListed) ==> a == b,
{
}

/// Every device is the same as itself, and so is every list of devices and every
/// event.
pub proof fn law_everything_is_the_same_as_itself(a: Seq<InputDevice>, e: CoachEvent)
    ensures
        same_devices(a, a),
        same_event(e, e),
{
}

}
