//! Replay: serving a recorded run back to the application, frame by frame.

use vstd::prelude::*;
use crate::features::FeatureSnapshot;
use crate::ieee::F64;
use crate::music::MusicInfo;
use crate::port::CoachEvent;
use crate::text;
use crate::trace::input;
use crate::trace::input::{Injected, InputRecord};
use crate::trace::load;
use crate::trace::load::LoadedTrace;
use crate::trace::record;
use crate::trace::record::CoachRead;

verus! {

// ---- the coach -----------------------------------------------------------

/// A coach that serves the reads of a recorded run instead of a live one.
pub struct ReplayCoach {
    /// What this frame's reads find.
    pending: CoachRead,
    /// The musical frame, put together from the events that have been served.
    music: Option<MusicInfo>,
}

/// The musical frame after `events`: that of the last one that configures it.
pub open spec fn configured(before: Option<MusicInfo>, events: Seq<CoachEvent>) -> Option<MusicInfo>
    decreases events.len(),
{
    if events.len() == 0 {
        before
    } else {
        match events.last() {
            CoachEvent::MusicSessionConfigured { scale } => Some(MusicInfo { scale }),
            _ => configured(before, events.drop_last()),
        }
    }
}

impl ReplayCoach {
    /// What a poll finds.
    pub closed spec fn events(&self) -> Seq<CoachEvent> {
        self.pending.events@
    }

    /// What a read of the latest features finds.
    pub closed spec fn latest(&self) -> Option<FeatureSnapshot> {
        self.pending.latest
    }

    /// What a drain finds.
    pub closed spec fn drained(&self) -> Seq<FeatureSnapshot> {
        self.pending.drained@
    }

    /// The musical frame.
    pub closed spec fn info(&self) -> Option<MusicInfo> {
        self.music
    }

    /// A coach that has nothing to serve yet.
    pub fn new() -> (c: Self)
        ensures
            c.events().len() == 0,
            c.latest() is None,
            c.drained().len() == 0,
            c.info() is None,
    {
        ReplayCoach {
            pending: CoachRead { events: Vec::new(), latest: None, drained: Vec::new() },
            music: None,
        }
    }

    /// Loads what was recorded of one frame. The musical frame is brought up to
    /// date before the events are handed out.
    pub fn load_frame(&mut self, read: CoachRead)
        ensures
            final(self).events() == read.events@,
            final(self).latest() == read.latest,
            final(self).drained() == read.drained@,
            final(self).info() == configured(old(self).info(), read.events@),
    {
        let ghost before = self.music;
        for i in 0..read.events.len()
            invariant
                self.music == configured(before, read.events@.take(i as int)),
        {
            assert(read.events@.take(i + 1).drop_last() =~= read.events@.take(i as int));
            if let CoachEvent::MusicSessionConfigured { scale } = &read.events[i] {
                self.music = Some(MusicInfo { scale: *scale });
            }
        }
        assert(read.events@.take(read.events@.len() as int) =~= read.events@);
        self.pending = read;
    }

    /// Hands out the events of this frame, once.
    pub fn poll_events(&mut self, out: &mut Vec<CoachEvent>)
        ensures
            final(out)@ == old(out)@ + old(self).events(),
            final(self).events().len() == 0,
            final(self).latest() == old(self).latest(),
            final(self).drained() == old(self).drained(),
            final(self).info() == old(self).info(),
    {
        out.append(&mut self.pending.events);
    }

    /// The latest features of this frame, as they were recorded.
    pub fn latest_features(&self) -> (latest: Option<FeatureSnapshot>)
        ensures
            latest == self.latest(),
    {
        self.pending.latest
    }

    /// Hands out the snapshots of this frame, once and as they were recorded.
    pub fn drain_features(&mut self, out: &mut Vec<FeatureSnapshot>)
        ensures
            final(out)@ == old(out)@ + old(self).drained(),
            final(self).drained().len() == 0,
            final(self).events() == old(self).events(),
            final(self).latest() == old(self).latest(),
            final(self).info() == old(self).info(),
    {
        out.append(&mut self.pending.drained);
    }

    /// The musical frame.
    pub fn music_info(&self) -> (info: Option<MusicInfo>)
        ensures
            info == self.info(),
    {
        self.music
    }
}

/// A frame that configures nothing leaves the musical frame as it was.
pub proof fn law_music_persists(before: Option<MusicInfo>, events: Seq<CoachEvent>)
    requires
        forall|i: int|
            0 <= i < events.len() ==> !((#[trigger] events[i]) is MusicSessionConfigured),
    ensures
        configured(before, events) == before,
    decreases events.len(),
{
    if events.len() > 0 {
        let rest = events.drop_last();
        assert forall|i: int| 0 <= i < rest.len() implies !((
        #[trigger] rest[i]) is MusicSessionConfigured) by {
            assert(rest[i] == events[i]);
        }
        law_music_persists(before, rest);
        assert(!(events[events.len() - 1] is MusicSessionConfigured));
    }
}

/// The musical frame is rebuilt exactly: it is the one of the last event that
/// configured it, whatever came before.
pub proof fn law_last_configuration_counts(
    before: Option<MusicInfo>,
    events: Seq<CoachEvent>,
    k: int,
)
    requires
        0 <= k < events.len(),
        events[k] is MusicSessionConfigured,
        forall|i: int|
            k < i < events.len() ==> !((#[trigger] events[i]) is MusicSessionConfigured),
    ensures
        configured(before, events) == Some(
            MusicInfo { scale: events[k]->MusicSessionConfigured_scale },
        ),
    decreases events.len(),
{
    if k < events.len() - 1 {
        let rest = events.drop_last();
        assert forall|i: int| k < i < rest.len() implies !((
        #[trigger] rest[i]) is MusicSessionConfigured) by {
            assert(rest[i] == events[i]);
        }
        assert(rest[k] == events[k]);
        law_last_configuration_counts(before, rest, k);
        assert(!(events[events.len() - 1] is MusicSessionConfigured));
    }
}

/// What the head read of the coach in a recorded frame is what it reads when that
/// frame is replayed: the record holds copies of the events and the very
/// snapshots, and a coach loaded with that record serves them.
pub proof fn law_replay_reads_what_was_read(
    polled: Seq<CoachEvent>,
    latest: Option<FeatureSnapshot>,
    drained: Seq<FeatureSnapshot>,
    noted: record::TraceBuffer,
    f: u32,
    coach: ReplayCoach,
)
    requires
        record::same_events(polled, noted.events@),
        noted.latest == latest,
        noted.drained@ == drained,
        !record::read_of(noted).nothing(),
        record::traffic(noted, f)[0].body matches record::Body::Coach(read) && coach.events()
            == read.events@ && coach.latest() == read.latest && coach.drained() == read.drained@,
    ensures
        record::traffic(noted, f).len() > 0,
        record::traffic(noted, f)[0].f == f,
        record::same_events(polled, coach.events()),
        coach.latest() == latest,
        coach.drained() == drained,
{
}

// ---- the driver ----------------------------------------------------------

/// What the application is to be fed in one frame.
pub enum DriveStep {
    /// Every frame has been served: leave.
    Exit,
    /// Every frame has been served, and the window is to be kept.
    Hold,
    /// Feed the frame.
    Serve {
        /// How far the clock is to be advanced, if that was recorded.
        delta_s: Option<F64>,
        /// What the coach hands over, if anything.
        coach: Option<CoachRead>,
        /// The inputs. Those that really arrive are to be dropped.
        inputs: Vec<Injected>,
        /// What is to be logged of the inputs that are dropped.
        warnings: Vec<String>,
    },
}

/// Walks through a loaded trace, one frame at a time.
pub struct ReplayDriver {
    trace: LoadedTrace,
    cursor: usize,
    hold: bool,
}

impl ReplayDriver {
    /// The frames that are still to be served.
    pub closed spec fn remaining(&self) -> Seq<load::Bucket> {
        load::buckets(self.trace.frames@).skip(self.cursor as int)
    }

    /// Whether the window is to be kept at the end.
    pub closed spec fn holding(&self) -> bool {
        self.hold
    }

    #[verifier::type_invariant]
    spec fn inv(&self) -> bool {
        self.cursor <= self.trace.frames@.len()
    }

    /// A driver at the first frame of a trace.
    pub fn new(trace: LoadedTrace, hold: bool) -> (d: Self)
        ensures
            d.remaining() == load::buckets(trace.frames@),
            d.holding() == hold,
    {
        let d = ReplayDriver { trace, cursor: 0, hold };
        assert(load::buckets(trace.frames@).skip(0) =~= load::buckets(trace.frames@));
        d
    }

    /// How far the clock is to be advanced before the very first frame.
    pub fn first_delta(&self) -> (delta: F64)
        ensures
            delta == (if self.remaining().len() > 0 && self.remaining()[0].delta_s is Some {
                self.remaining()[0].delta_s->0
            } else {
                F64 { bits: 0 }
            }),
    {
        proof {
            use_type_invariant(self);
        }
        if self.cursor < self.trace.frames.len() {
            assert(self.remaining()[0] == self.trace.frames@[self.cursor as int]@);
            match self.trace.frames[self.cursor].delta_s {
                Some(d) => d,
                None => F64 { bits: 0 },
            }
        } else {
            F64 { bits: 0 }
        }
    }

    /// Serves the next frame and moves on. Behind the last frame nothing changes
    /// any more.
    pub fn drive(&mut self) -> (step: DriveStep)
        ensures
            final(self).holding() == old(self).holding(),
            old(self).remaining().len() == 0 ==> final(self).remaining() == old(self).remaining()
                && (if old(self).holding() {
                step is Hold
            } else {
                step is Exit
            }),
            old(self).remaining().len() > 0 ==> {
                let frame = old(self).remaining()[0];
                &&& final(self).remaining() == old(self).remaining().skip(1)
                &&& step matches DriveStep::Serve { delta_s, coach, inputs, warnings } && delta_s
                    == frame.delta_s && coach == frame.coach && inputs@ == input::injections(
                    frame.inputs,
                ) && text::contents(warnings@) == input::warnings_of(frame.inputs)
            },
    {
        proof {
            use_type_invariant(&*self);
        }
        let at: usize = self.cursor;
        let ghost all = load::buckets(self.trace.frames@);
        if at >= self.trace.frames.len() {
            return if self.hold {
                DriveStep::Hold
            } else {
                DriveStep::Exit
            };
        }
        assert(all[at as int] == self.trace.frames@[at as int]@);
        let delta_s = self.trace.frames[at].delta_s;
        let inputs = input::inject_all(&self.trace.frames[at].inputs);
        let warnings = input::warnings(&self.trace.frames[at].inputs);
        let mut trace = LoadedTrace { header: self.trace.header, frames: Vec::new() };
        self.cursor = 0;
        std::mem::swap(&mut trace.frames, &mut self.trace.frames);
        let ghost frames = trace.frames@;
        let coach = trace.frames[at].coach.take();
        trace.frames[at].inputs = Vec::new();
        let ghost served = trace.frames@;
        std::mem::swap(&mut trace.frames, &mut self.trace.frames);
        self.cursor = at + 1;
        proof {
            assert(load::buckets(self.trace.frames@).skip(at + 1) =~= all.skip(at as int).skip(1));
        }
        DriveStep::Serve { delta_s, coach, inputs, warnings }
    }
}

}
