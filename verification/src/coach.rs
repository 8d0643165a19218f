//! The head's read models, and how one frame's reads from the coach bring them
//! up to date.

use vstd::prelude::*;
use crate::features::{FeatureHistory, Features};
use crate::features;
use crate::music::{MusicInfo, ScaleIntervals};
use crate::port::{AudioInitStatus, CoachEvent, InputDevice, Interruption};

verus! {

/// What the screens read. Only a drain writes it.
pub struct ReadModels {
    /// The input devices, as last listed.
    pub known_devices: Vec<InputDevice>,
    /// The catalogue of scales, as last listed.
    pub known_scales: Vec<ScaleIntervals>,
    /// The musical frame of reference, once a session was configured.
    pub music: Option<MusicInfo>,
    /// The latest features.
    pub latest: Option<Features>,
    /// The features of the running session.
    pub history: FeatureHistory,
    /// How many hops the last drain brought.
    pub drain_count: usize,
    /// Whether the microphone may be used.
    pub mic: AudioInitStatus,
    /// Whether resuming is locked by an interruption that has not ended well.
    pub resume_locked: bool,
}

/// What a drain brought, for the screens that wait for it.
#[derive(Clone, Copy, PartialEq, Eq, Structural, Debug)]
pub struct Drained {
    pub devices_listed: bool,
    pub scales_listed: bool,
    pub music_configured: bool,
}

/// The devices after `events`: those of the last listing.
pub open spec fn devices_after(before: Seq<InputDevice>, events: Seq<CoachEvent>) -> Seq<InputDevice>
    decreases events.len(),
{
    if events.len() == 0 {
        before
    } else {
        match events.last() {
            CoachEvent::AudioDevicesListed { devices } => devices@,
            _ => devices_after(before, events.drop_last()),
        }
    }
}

/// The catalogue after `events`: that of the last listing.
pub open spec fn scales_after(before: Seq<ScaleIntervals>, events: Seq<CoachEvent>) -> Seq<
    ScaleIntervals,
>
    decreases events.len(),
{
    if events.len() == 0 {
        before
    } else {
        match events.last() {
            CoachEvent::MusicScalesListed { shapes } => shapes@,
            _ => scales_after(before, events.drop_last()),
        }
    }
}

/// The permission after `events`: the last one reported.
pub open spec fn mic_after(before: AudioInitStatus, events: Seq<CoachEvent>) -> AudioInitStatus
    decreases events.len(),
{
    if events.len() == 0 {
        before
    } else {
        match events.last() {
            CoachEvent::AudioPermissionStatus { status } => status,
            _ => mic_after(before, events.drop_last()),
        }
    }
}

/// Whether an event takes the audio away.
pub open spec fn locks(e: CoachEvent) -> bool {
    e == (CoachEvent::AudioInterruption { interruption: Interruption::Began })
}

/// Whether an event gives the audio back for the session to resume.
pub open spec fn unlocks(e: CoachEvent) -> bool {
    e == (CoachEvent::AudioInterruption {
        interruption: Interruption::Ended { should_resume: true },
    })
}

/// Whether resuming is locked after `events`: an interruption locks it, and only
/// an end after which the session should resume unlocks it.
pub open spec fn locked_after(before: bool, events: Seq<CoachEvent>) -> bool
    decreases events.len(),
{
    if events.len() == 0 {
        before
    } else if locks(events.last()) {
        true
    } else if unlocks(events.last()) {
        false
    } else {
        locked_after(before, events.drop_last())
    }
}

/// Whether some event is a listing of devices.
pub open spec fn lists_devices(events: Seq<CoachEvent>) -> bool {
    exists|i: int| 0 <= i < events.len() && (#[trigger] events[i]) is AudioDevicesListed
}

/// Whether some event is a listing of scales.
pub open spec fn lists_scales(events: Seq<CoachEvent>) -> bool {
    exists|i: int| 0 <= i < events.len() && (#[trigger] events[i]) is MusicScalesListed
}

/// Whether some event configures the musical frame.
pub open spec fn configures(events: Seq<CoachEvent>) -> bool {
    exists|i: int| 0 <= i < events.len() && (#[trigger] events[i]) is MusicSessionConfigured
}

impl ReadModels {
    /// What is known before the coach has said anything.
    pub fn new() -> (m: Self)
        ensures
            m.known_devices@.len() == 0,
            m.known_scales@.len() == 0,
            m.music is None,
            m.latest is None,
            m.history@.samples.len() == 0,
            m.history@.newest is None,
            m.history@.window_ms == features::DEFAULT_HISTORY_MS,
            m.history@.capacity == features::DEFAULT_HISTORY_CAPACITY,
            m.history@.valid(),
            m.drain_count == 0,
            m.mic is Undetermined,
            !m.resume_locked,
    {
        ReadModels {
            known_devices: Vec::new(),
            known_scales: Vec::new(),
            music: None,
            latest: None,
            history: FeatureHistory::new(
                features::DEFAULT_HISTORY_MS,
                features::DEFAULT_HISTORY_CAPACITY,
            ),
            drain_count: 0,
            mic: AudioInitStatus::Undetermined,
            resume_locked: false,
        }
    }

    /// Brings the read models up to date with one frame's reads: the events that
    /// were polled, the musical frame as the coach has it now, the latest
    /// features, and the features that were drained. The history only grows
    /// while a game is running.
    pub fn drain_events(
        &mut self,
        events: Vec<CoachEvent>,
        music: Option<MusicInfo>,
        latest: Option<Features>,
        drained: &Vec<Features>,
        in_game: bool,
    ) -> (report: Drained)
        requires
            old(self).history@.valid(),
        ensures
            final(self).known_devices@ == devices_after(old(self).known_devices@, events@),
            final(self).known_scales@ == scales_after(old(self).known_scales@, events@),
            final(self).music == (if configures(events@) {
                music
            } else {
                old(self).music
            }),
            final(self).mic == mic_after(old(self).mic, events@),
            final(self).resume_locked == locked_after(old(self).resume_locked, events@),
            final(self).latest == latest,
            final(self).drain_count == drained@.len(),
            final(self).history@ == (if in_game {
                old(self).history@.extended(drained@)
            } else {
                old(self).history@
            }),
            final(self).history@.valid(),
            report.devices_listed == lists_devices(events@),
            report.scales_listed == lists_scales(events@),
            report.music_configured == configures(events@),
    {
        let mut report = Drained {
            devices_listed: false,
            scales_listed: false,
            music_configured: false,
        };
        let ghost all = events@;
        assert(all.take(0) =~= Seq::empty());
        for event in it: events
            invariant
                it.seq() == all,
                self.history == old(self).history,
                self.known_devices@ == devices_after(
                    old(self).known_devices@,
                    all.take(it.index() as int),
                ),
                self.known_scales@ == scales_after(
                    old(self).known_scales@,
                    all.take(it.index() as int),
                ),
                self.music == (if configures(all.take(it.index() as int)) {
                    music
                } else {
                    old(self).music
                }),
                self.mic == mic_after(old(self).mic, all.take(it.index() as int)),
                self.resume_locked == locked_after(
                    old(self).resume_locked,
                    all.take(it.index() as int),
                ),
                report.devices_listed == lists_devices(all.take(it.index() as int)),
                report.scales_listed == lists_scales(all.take(it.index() as int)),
                report.music_configured == configures(all.take(it.index() as int)),
        {
            proof {
                let i = it.index() as int;
                assert(event == all[i]);
                lemma_step(all, i);
            }
            match event {
                CoachEvent::AudioDevicesListed { devices } => {
                    self.known_devices = devices;
                    report.devices_listed = true;
                },
                CoachEvent::MusicScalesListed { shapes } => {
                    self.known_scales = shapes;
                    report.scales_listed = true;
                },
                CoachEvent::MusicSessionConfigured { scale: _ } => {
                    self.music = music;
                    report.music_configured = true;
                },
                CoachEvent::AudioPermissionStatus { status } => {
                    self.mic = status;
                },
                CoachEvent::AudioInterruption { interruption } => {
                    match interruption {
                        Interruption::Began => {
                            self.resume_locked = true;
                        },
                        Interruption::Ended { should_resume } => {
                            if should_resume {
                                self.resume_locked = false;
                            }
                        },
                    }
                },
                _ => {},
            }
        }
        assert(all.take(all.len() as int) =~= all);
        self.latest = latest;
        self.drain_count = drained.len();
        if in_game {
            self.history.extend(drained);
        }
        report
    }
}

/// What one more event adds.
proof fn lemma_step(all: Seq<CoachEvent>, i: int)
    requires
        0 <= i < all.len(),
    ensures
        all.take(i + 1).drop_last() == all.take(i),
        all.take(i + 1).last() == all[i],
        lists_devices(all.take(i + 1)) == (lists_devices(all.take(i))
            || all[i] is AudioDevicesListed),
        lists_scales(all.take(i + 1)) == (lists_scales(all.take(i)) || all[i] is MusicScalesListed),
        configures(all.take(i + 1)) == (configures(all.take(i))
            || all[i] is MusicSessionConfigured),
{
    let (a, b) = (all.take(i), all.take(i + 1));
    assert(b.drop_last() =~= a);
    assert(b[i] == all[i]);
    if lists_devices(a) {
        let k = choose|k: int| 0 <= k < a.len() && (#[trigger] a[k]) is AudioDevicesListed;
        assert(b[k] == a[k]);
    }
    if lists_devices(b) {
        let k = choose|k: int| 0 <= k < b.len() && (#[trigger] b[k]) is AudioDevicesListed;
        if k < i {
            assert(a[k] == b[k]);
        }
    }
    if lists_scales(a) {
        let k = choose|k: int| 0 <= k < a.len() && (#[trigger] a[k]) is MusicScalesListed;
        assert(b[k] == a[k]);
    }
    if lists_scales(b) {
        let k = choose|k: int| 0 <= k < b.len() && (#[trigger] b[k]) is MusicScalesListed;
        if k < i {
            assert(a[k] == b[k]);
        }
    }
    if configures(a) {
        let k = choose|k: int| 0 <= k < a.len() && (#[trigger] a[k]) is MusicSessionConfigured;
        assert(b[k] == a[k]);
    }
    if configures(b) {
        let k = choose|k: int| 0 <= k < b.len() && (#[trigger] b[k]) is MusicSessionConfigured;
        if k < i {
            assert(a[k] == b[k]);
        }
    }
}

/// Once an interruption has begun, resuming stays locked until an end after
/// which the session should resume.
pub proof fn law_lock_holds_until_resumable(events: Seq<CoachEvent>)
    requires
        forall|i: int| 0 <= i < events.len() ==> !unlocks(#[trigger] events[i]),
    ensures
        locked_after(true, events),
    decreases events.len(),
{
    if events.len() > 0 {
        let rest = events.drop_last();
        assert forall|i: int| 0 <= i < rest.len() implies !unlocks(#[trigger] rest[i]) by {
            assert(rest[i] == events[i]);
        }
        law_lock_holds_until_resumable(rest);
        assert(!unlocks(events[events.len() - 1]));
    }
}

/// What is known after events is what the last event of its kind said: later events
/// of other kinds change nothing, and earlier ones of the same kind are forgotten.
pub proof fn law_the_last_word_counts(
    devices: Seq<InputDevice>,
    scales: Seq<ScaleIntervals>,
    mic: AudioInitStatus,
    locked: bool,
    events: Seq<CoachEvent>,
    e: CoachEvent,
)
    ensures
        devices_after(devices, Seq::<CoachEvent>::empty()) == devices,
        scales_after(scales, Seq::<CoachEvent>::empty()) == scales,
        mic_after(mic, Seq::<CoachEvent>::empty()) == mic,
        locked_after(locked, Seq::<CoachEvent>::empty()) == locked,
        devices_after(devices, events.push(e)) == (match e {
            CoachEvent::AudioDevicesListed { devices: d } => d@,
            _ => devices_after(devices, events),
        }),
        scales_after(scales, events.push(e)) == (match e {
            CoachEvent::MusicScalesListed { shapes } => shapes@,
            _ => scales_after(scales, events),
        }),
        mic_after(mic, events.push(e)) == (match e {
            CoachEvent::AudioPermissionStatus { status } => status,
            _ => mic_after(mic, events),
        }),
        locked_after(locked, events.push(e)) == (match e {
            CoachEvent::AudioInterruption { interruption } => match interruption {
                Interruption::Began => true,
                Interruption::Ended { should_resume } => if should_resume {
                    false
                } else {
                    locked_after(locked, events)
                },
            },
            _ => locked_after(locked, events),
        }),
{
    let all = events.push(e);
    assert(all.drop_last() =~= events);
    assert(all.last() == e);
}

/// What happened in a frame is told exactly where an event of that kind is among its
/// events.
pub proof fn law_events_are_told(events: Seq<CoachEvent>, i: int)
    requires
        0 <= i < events.len(),
    ensures
        events[i] is AudioDevicesListed ==> lists_devices(events),
        events[i] is MusicScalesListed ==> lists_scales(events),
        events[i] is MusicSessionConfigured ==> configures(events),
        !lists_devices(Seq::<CoachEvent>::empty()),
        !lists_scales(Seq::<CoachEvent>::empty()),
        !configures(Seq::<CoachEvent>::empty()),
        lists_devices(events) ==> exists|k: int|
            0 <= k < events.len() && (#[trigger] events[k]) is AudioDevicesListed,
        lists_scales(events) ==> exists|k: int|
            0 <= k < events.len() && (#[trigger] events[k]) is MusicScalesListed,
        configures(events) ==> exists|k: int|
            0 <= k < events.len() && (#[trigger] events[k]) is MusicSessionConfigured,
{
}

}
