//! The records of a trace: one for each line.

use vstd::prelude::*;
use vstd::string::StringExecFns;
use crate::features::FeatureSnapshot;
use crate::ieee::F32;
use crate::port::{CoachEvent, Command};
use crate::port;
use crate::shell::AppState;
use crate::time_graph::mesh::Aabb;
use crate::trace::input::InputRecord;

verus! {

/// Version of the trace format. A reader refuses any other.
pub const SCHEMA_VERSION: u32 = 4;

/// What the coach handed to the head in one frame.
pub struct CoachRead {
    pub events: Vec<CoachEvent>,
    pub latest: Option<FeatureSnapshot>,
    pub drained: Vec<FeatureSnapshot>,
}

impl CoachRead {
    /// Whether nothing was handed over.
    pub open spec fn nothing(self) -> bool {
        self.events@.len() == 0 && self.latest is None && self.drained@.len() == 0
    }

    /// Whether nothing was handed over.
    pub fn is_empty(&self) -> (yes: bool)
        ensures
            yes == self.nothing(),
    {
        self.events.len() == 0 && self.latest.is_none() && self.drained.len() == 0
    }
}

/// The geometry of one widget after layout, or that it is gone.
#[derive(PartialEq, Eq, Debug)]
pub struct GeomRecord {
    /// Path of names from the root of the tree.
    pub path: String,
    /// The entity last seen at that path.
    pub entity: u64,
    /// What was measured; `None` for a widget that is gone.
    pub fields: Option<GeomFields>,
    /// Whether the widget vanished since the frame before.
    pub gone: bool,
}

/// The measured geometry of one widget, in physical pixels.
#[derive(Clone, Copy, PartialEq, Eq, Structural, Debug)]
pub struct GeomFields {
    pub width: F32,
    pub height: F32,
    /// Bounding box of the widget, which may be rotated.
    pub rect: Aabb,
    /// The box that clips it, if any.
    pub clip: Option<Aabb>,
    /// Rotation in radians.
    pub angle: F32,
    pub scale_factor: F32,
}

/// One stretch of the drawn line as it lay on screen.
pub struct TraceGeom {
    /// Its points, in logical pixels from the lane's corner.
    pub lane_logical: Vec<(F32, F32)>,
    /// The box around it, in physical pixels.
    pub aabb_px: Aabb,
    /// That box cut to the lane.
    pub clipped_aabb_px: Aabb,
    pub scale_factor: F32,
}

/// One stretch of the drawn line, with the lane that it lay in.
pub struct PolyRecord {
    /// Path of the line in the tree of widgets.
    pub path: String,
    pub lane_logical: Vec<(F32, F32)>,
    pub point_count: usize,
    /// Size of the lane in logical pixels.
    pub lane_size: (F32, F32),
    pub aabb_px: Aabb,
    pub clipped_aabb_px: Aabb,
    pub scale_factor: F32,
}

/// The kind of a record and what it carries.
pub enum Body {
    /// Once, the first line.
    Run {
        schema: u32,
        app_version: String,
        window_logical: (F32, F32),
        scale_factor: F32,
        wall_start: String,
        replay_of: Option<String>,
    },
    /// Every frame: how far the clock was advanced.
    Frame { delta_s: F32 },
    /// An input of this frame.
    Input(InputRecord),
    /// A change of the application's state.
    State { from: String, to: String },
    /// What the coach handed over, where that was something.
    Coach(CoachRead),
    /// A command sent to the coach.
    Cmd { command: Command },
    /// The geometry of a widget changed.
    Geom(GeomRecord),
    /// One stretch of the drawn line.
    Poly(PolyRecord),
    /// A marker was set.
    Mark { marker: u32 },
}

/// One line of the trace.
pub struct Record {
    /// The frame in which the record was written.
    pub f: u32,
    pub body: Body,
}

/// The header of a run. Without a window the size is zero and the scale one.
pub fn run_header(
    app_version: String,
    window: Option<(F32, F32, F32)>,
    wall_start: String,
    replay_of: Option<String>,
) -> (record: Record)
    ensures
        record.f == 0,
        record.body == (Body::Run {
            schema: SCHEMA_VERSION,
            app_version,
            window_logical: match window {
                Some((w, h, _)) => (w, h),
                None => (F32 { bits: 0 }, F32 { bits: 0 }),
            },
            scale_factor: match window {
                Some((_, _, s)) => s,
                None => F32 { bits: 0x3f80_0000 },
            },
            wall_start,
            replay_of,
        }),
{
    let (window_logical, scale_factor) = match window {
        Some((w, h, s)) => ((w, h), s),
        None => ((F32 { bits: 0 }, F32 { bits: 0 }), F32 { bits: 0x3f80_0000 }),
    };
    Record {
        f: 0,
        body: Body::Run {
            schema: SCHEMA_VERSION,
            app_version,
            window_logical,
            scale_factor,
            wall_start,
            replay_of,
        },
    }
}

/// How a state is written in the trace; before the first one there is a dash.
pub open spec fn state_text(state: Option<AppState>) -> Seq<char> {
    match state {
        Some(AppState::MainMenu) => "MainMenu"@,
        Some(AppState::Settings) => "Settings"@,
        Some(AppState::InGame) => "InGame"@,
        Some(AppState::Paused) => "Paused"@,
        None => "—"@,
    }
}

/// How a state is written in the trace.
pub fn opt_state(state: Option<AppState>) -> (text: String)
    ensures
        text@ == state_text(state),
{
    let mut text = String::new();
    match state {
        Some(AppState::MainMenu) => text.append("MainMenu"),
        Some(AppState::Settings) => text.append("Settings"),
        Some(AppState::InGame) => text.append("InGame"),
        Some(AppState::Paused) => text.append("Paused"),
        None => text.append("—"),
    }
    text
}

/// The record of a change of state.
pub fn record_state(f: u32, exited: Option<AppState>, entered: Option<AppState>) -> (record: Record)
    ensures
        record.f == f,
        record.body matches Body::State { from, to } && from@ == state_text(exited) && to@
            == state_text(entered),
{
    Record { f, body: Body::State { from: opt_state(exited), to: opt_state(entered) } }
}

/// A marker where its key was just pressed: the count goes up by one, and the
/// record carries it.
pub fn record_marks(f: u32, pressed: bool, counter: &mut u32) -> (record: Option<Record>)
    requires
        pressed ==> *old(counter) < u32::MAX,
    ensures
        record is Some <==> pressed,
        record matches Some(r) ==> r.f == f && r.body == (Body::Mark { marker: *final(counter) }),
        *final(counter) == (if pressed {
            *old(counter) + 1
        } else {
            *old(counter) as int
        }),
{
    if pressed {
        *counter = *counter + 1;
        Some(Record { f, body: Body::Mark { marker: *counter } })
    } else {
        None
    }
}

/// Whether `record`, of frame `f`, writes down the stretch `geom` of a lane of
/// the size `lane`, which is zero before the lane was measured.
pub open spec fn writes_stretch(
    record: Record,
    f: u32,
    geom: TraceGeom,
    lane: Option<(F32, F32)>,
) -> bool {
    &&& record.f == f
    &&& record.body matches Body::Poly(p)
    &&& p.path@ == "time_graph/pitch_lane/trace"@
    &&& p.lane_logical == geom.lane_logical
    &&& p.point_count == geom.lane_logical@.len()
    &&& p.lane_size == match lane {
        Some(size) => size,
        None => (F32 { bits: 0 }, F32 { bits: 0 }),
    }
    &&& p.aabb_px == geom.aabb_px
    &&& p.clipped_aabb_px == geom.clipped_aabb_px
    &&& p.scale_factor == geom.scale_factor
}

/// The records of the line drawn in frame `f`: one for each stretch, in order.
pub fn record_poly(f: u32, drawn: Vec<TraceGeom>, lane: Option<(F32, F32)>) -> (records: Vec<
    Record,
>)
    ensures
        records@.len() == drawn@.len(),
        forall|i: int|
            0 <= i < drawn@.len() ==> writes_stretch(#[trigger] records@[i], f, drawn@[i], lane),
{
    let lane_size = match lane {
        Some(size) => size,
        None => (F32 { bits: 0 }, F32 { bits: 0 }),
    };
    let mut records: Vec<Record> = Vec::new();
    let ghost all = drawn@;
    for geom in it: drawn
        invariant
            it.seq() == all,
            records@.len() == it.index(),
            lane_size == match lane {
                Some(size) => size,
                None => (F32 { bits: 0 }, F32 { bits: 0 }),
            },
            forall|i: int|
                0 <= i < it.index() ==> writes_stretch(#[trigger] records@[i], f, all[i], lane),
    {
        let mut path = String::new();
        path.append("time_graph/pitch_lane/trace");
        let point_count: usize = geom.lane_logical.len();
        records.push(
            Record {
                f,
                body: Body::Poly(
                    PolyRecord {
                        path,
                        lane_logical: geom.lane_logical,
                        point_count,
                        lane_size,
                        aabb_px: geom.aabb_px,
                        clipped_aabb_px: geom.clipped_aabb_px,
                        scale_factor: geom.scale_factor,
                    },
                ),
            },
        );
    }
    records
}

// ---- what passed between head and coach in one frame ---------------------

/// What the recording decorator gathers in one frame.
pub struct TraceBuffer {
    /// Events that a poll handed back.
    pub events: Vec<CoachEvent>,
    /// What the last read of the latest features returned.
    pub latest: Option<FeatureSnapshot>,
    /// The snapshots that were drained, in the producer's order.
    pub drained: Vec<FeatureSnapshot>,
    /// Commands, in the order in which they were sent.
    pub commands: Vec<Command>,
}

/// Whether `copies` are copies of `events`.
pub open spec fn same_events(events: Seq<CoachEvent>, copies: Seq<CoachEvent>) -> bool {
    events.len() == copies.len() && forall|i: int|
        0 <= i < events.len() ==> port::same_event(#[trigger] events[i], copies[i])
}

impl TraceBuffer {
    /// Whether nothing was gathered.
    pub open spec fn quiet(self) -> bool {
        self.events@.len() == 0 && self.latest is None && self.drained@.len() == 0
            && self.commands@.len() == 0
    }

    /// An empty buffer.
    pub fn new() -> (b: Self)
        ensures
            b.quiet(),
    {
        TraceBuffer {
            events: Vec::new(),
            latest: None,
            drained: Vec::new(),
            commands: Vec::new(),
        }
    }

    /// Hands out what was gathered and starts anew.
    pub fn take(&mut self) -> (taken: TraceBuffer)
        ensures
            taken == *old(self),
            final(self).quiet(),
    {
        let mut taken = TraceBuffer::new();
        std::mem::swap(&mut taken, self);
        taken
    }

    /// Whether nothing was gathered.
    pub fn is_quiet(&self) -> (yes: bool)
        ensures
            yes == self.quiet(),
    {
        self.events.len() == 0 && self.latest.is_none() && self.drained.len() == 0
            && self.commands.len() == 0
    }

    /// Notes a command that is about to be sent.
    pub fn note_command(&mut self, command: &Command)
        ensures
            final(self).commands@ == old(self).commands@.push(*command),
            final(self).events == old(self).events,
            final(self).latest == old(self).latest,
            final(self).drained == old(self).drained,
    {
        self.commands.push(port::clone_command(command));
    }

    /// Notes the events that a poll appended to `out`, which held `before` of
    /// them already.
    pub fn note_events(&mut self, out: &Vec<CoachEvent>, before: usize)
        requires
            before <= out@.len(),
        ensures
            final(self).events@.len() == old(self).events@.len() + out@.len() - before,
            final(self).events@.take(old(self).events@.len() as int) == old(self).events@,
            same_events(
                out@.skip(before as int),
                final(self).events@.skip(old(self).events@.len() as int),
            ),
            final(self).latest == old(self).latest,
            final(self).drained == old(self).drained,
            final(self).commands == old(self).commands,
    {
        let ghost start = self.events@;
        assert(start.take(start.len() as int) =~= start);
        for i in before..out.len()
            invariant
                before <= i <= out@.len(),
                self.events@.len() == start.len() + i - before,
                self.events@.take(start.len() as int) == start,
                forall|k: int|
                    0 <= k < i - before ==> port::same_event(
                        out@[before + k],
                        #[trigger] self.events@[start.len() + k],
                    ),
                self.latest == old(self).latest,
                self.drained == old(self).drained,
                self.commands == old(self).commands,
        {
            let ghost held = self.events@;
            self.events.push(port::clone_event(&out[i]));
            assert(self.events@.take(start.len() as int) =~= held.take(start.len() as int));
        }
        let ghost added = out@.skip(before as int);
        let ghost noted = self.events@.skip(start.len() as int);
        assert forall|i: int| 0 <= i < added.len() implies port::same_event(
            #[trigger] added[i],
            noted[i],
        ) by {
            assert(port::same_event(out@[before + i], self.events@[start.len() + i]));
        }
    }

    /// Notes what a read of the latest features returned.
    pub fn note_latest(&mut self, latest: Option<FeatureSnapshot>)
        ensures
            *final(self) == (TraceBuffer { latest, ..*old(self) }),
    {
        self.latest = latest;
    }

    /// Notes the snapshots that a drain appended to `out`, which held `before`
    /// of them already. They are kept as they came, so that a replay lifts them
    /// with the same code.
    pub fn note_drained(&mut self, out: &Vec<FeatureSnapshot>, before: usize)
        requires
            before <= out@.len(),
        ensures
            final(self).drained@ == old(self).drained@ + out@.skip(before as int),
            final(self).events == old(self).events,
            final(self).latest == old(self).latest,
            final(self).commands == old(self).commands,
    {
        let ghost start = self.drained@;
        assert(start =~= start + out@.subrange(before as int, before as int));
        for i in before..out.len()
            invariant
                before <= i <= out@.len(),
                self.drained@ == start + out@.subrange(before as int, i as int),
                self.events == old(self).events,
                self.latest == old(self).latest,
                self.commands == old(self).commands,
        {
            self.drained.push(out[i]);
            assert(self.drained@ =~= start + out@.subrange(before as int, i + 1));
        }
        assert(out@.subrange(before as int, out@.len() as int) =~= out@.skip(before as int));
    }
}

/// The read that a buffer holds.
pub open spec fn read_of(b: TraceBuffer) -> CoachRead {
    CoachRead { events: b.events, latest: b.latest, drained: b.drained }
}

/// The records of a frame's traffic with the coach: one for what was read, if
/// that was something, and one for each command, in order.
pub open spec fn traffic(b: TraceBuffer, f: u32) -> Seq<Record> {
    let read = read_of(b);
    let first = if read.nothing() {
        Seq::empty()
    } else {
        seq![Record { f, body: Body::Coach(read) }]
    };
    first + b.commands@.map_values(
        |command: Command| Record { f, body: Body::Cmd { command } },
    )
}

/// The records of a frame's traffic with the coach.
pub fn record_coach(taken: TraceBuffer, f: u32) -> (records: Vec<Record>)
    ensures
        records@ == traffic(taken, f),
{
    let mut records: Vec<Record> = Vec::new();
    let ghost all = taken;
    if taken.is_quiet() {
        assert(records@ =~= traffic(all, f));
        return records;
    }
    let read = CoachRead { events: taken.events, latest: taken.latest, drained: taken.drained };
    if !read.is_empty() {
        records.push(Record { f, body: Body::Coach(read) });
    }
    let ghost first = records@;
    let ghost sent = taken.commands@;
    assert(first =~= first + sent.take(0).map_values(
        |command: Command| Record { f, body: Body::Cmd { command } },
    ));
    for command in it: taken.commands
        invariant
            it.seq() == sent,
            records@ == first + sent.take(it.index() as int).map_values(
                |command: Command| Record { f, body: Body::Cmd { command } },
            ),
    {
        let ghost i = it.index();
        records.push(Record { f, body: Body::Cmd { command } });
        assert(records@ =~= first + sent.take(i + 1).map_values(
            |command: Command| Record { f, body: Body::Cmd { command } },
        ));
    }
    assert(sent.take(sent.len() as int) =~= sent);
    records
}

/// A frame in which nothing passed between head and coach leaves no record.
pub proof fn law_quiet_frames_write_nothing(b: TraceBuffer, f: u32)
    requires
        b.quiet(),
    ensures
        traffic(b, f).len() == 0,
{
}

/// Nothing was handed over exactly where there is no event, no latest hop and no
/// drained one; a buffer is quiet where no command was sent either.
pub proof fn law_when_nothing_passed(read: CoachRead, b: TraceBuffer)
    ensures
        read.nothing() <==> read.events@.len() == 0 && read.latest is None && read.drained@.len()
            == 0,
        b.quiet() <==> b.events@.len() == 0 && b.latest is None && b.drained@.len() == 0
            && b.commands@.len() == 0,
{
}

/// Every state is written by its own name, and the lack of one as a dash.
pub proof fn law_states_have_their_names(state: AppState)
    ensures
        state is MainMenu ==> state_text(Some(state)) == "MainMenu"@,
        state is Settings ==> state_text(Some(state)) == "Settings"@,
        state is InGame ==> state_text(Some(state)) == "InGame"@,
        state is Paused ==> state_text(Some(state)) == "Paused"@,
        state_text(None) == "—"@,
{
}

/// The record of a stretch holds its frame, its points and how many they are, its
/// boxes and its scale, and the size of the lane, which is zero where none is known.
pub proof fn law_stretches_are_written_whole(
    record: Record,
    f: u32,
    geom: TraceGeom,
    lane: Option<(F32, F32)>,
)
    requires
        writes_stretch(record, f, geom, lane),
    ensures
        record.f == f,
        record.body is Poly,
        ({
            let p = record.body->Poly_0;
            &&& p.path@ == "time_graph/pitch_lane/trace"@
            &&& p.lane_logical@ == geom.lane_logical@
            &&& p.point_count == geom.lane_logical@.len()
            &&& lane is None ==> p.lane_size.0.bits == 0 && p.lane_size.1.bits == 0
            &&& lane matches Some(size) ==> p.lane_size == size
            &&& p.aabb_px == geom.aabb_px
            &&& p.clipped_aabb_px == geom.clipped_aabb_px
            &&& p.scale_factor == geom.scale_factor
        }),
{
}

/// Copies of events stand in the order of the events, each saying what its own says.
pub proof fn law_copies_keep_the_order(events: Seq<CoachEvent>, copies: Seq<CoachEvent>, i: int)
    requires
        same_events(events, copies),
    ensures
        events.len() == copies.len(),
        0 <= i < events.len() ==> port::same_event(events[i], copies[i]),
{
}

/// What a frame writes of its traffic: first what was read, where that was something,
/// then every command in the order of sending, all under the number of the frame.
pub proof fn law_traffic_is_written_in_order(b: TraceBuffer, f: u32, i: int)
    ensures
        ({
            let all = traffic(b, f);
            let read = b.events@.len() > 0 || b.latest is Some || b.drained@.len() > 0;
            let first: int = if read {
                1
            } else {
                0
            };
            &&& all.len() == first + b.commands@.len()
            &&& read ==> {
                &&& all[0].f == f
                &&& all[0].body matches Body::Coach(r)
                &&& r.events == b.events
                &&& r.latest == b.latest
                &&& r.drained == b.drained
            }
            &&& 0 <= i < b.commands@.len() ==> all[first + i].f == f && all[first + i].body == (
            Body::Cmd { command: b.commands@[i] })
        }),
{
}

/// The trace is written in the fourth version of its format.
pub proof fn law_format_version()
    ensures
        SCHEMA_VERSION == 4,
{
}

}
