//! The jobs of the command line, step by step: what to ask of the coach next,
//! and what to print.

use vstd::prelude::*;
use vstd::string::StringExecFns;
use crate::cli::report;
use crate::cli::report::PitchLoop;
use crate::port::{AudioConfig, CoachEvent, Command, SessionState, ShutdownResult};
use crate::port;
use crate::text;

verus! {

/// How long an answer is waited for, in milliseconds.
pub const WAIT_MS: u64 = 2_000;

/// How long the coach may take to shut down, in milliseconds.
pub const SHUTDOWN_MS: u64 = 5_000;

/// How long to sleep between two looks at the events, in milliseconds.
pub const POLL_MS: u64 = 50;

/// What the command line is asked to do.
pub enum Job {
    /// Boot the coach and shut it down again.
    Run,
    /// List the input devices.
    ListDevices,
    /// Print the live pitch for a while.
    Freestyle { duration_ms: u64, persistent_id: Option<String> },
}

/// Where a job stands: what it is waiting for.
#[derive(Clone, Copy, PartialEq, Eq, Structural, Debug)]
pub enum Stage {
    Booting,
    Listing,
    Starting,
    Playing,
    Stopping,
    Closing,
    Finished,
}

/// What the outside is to do next.
#[derive(PartialEq, Eq, Debug)]
pub enum Action {
    Boot,
    /// Send a command and wait for its answer.
    Ask { command: Command, timeout_ms: u64 },
    /// Print the live pitch.
    Play { duration_ms: u64 },
    Shutdown { timeout_ms: u64 },
    Finish,
}

/// What came of an action.
pub enum Seen {
    Booted,
    /// The first event that answers.
    Answer(CoachEvent),
    /// No answer came in time.
    TimedOut,
    Played,
    ShutDown(ShutdownResult),
}

/// One step of a job.
pub struct Turn {
    pub stage: Stage,
    pub action: Action,
    /// Lines for the output.
    pub lines: Vec<String>,
    /// A line for the error output.
    pub complaint: Option<String>,
}

// ---- answers -------------------------------------------------------------

/// Whether an event answers what a stage waits for.
pub open spec fn answers(stage: Stage, event: CoachEvent) -> bool {
    match stage {
        Stage::Listing => event is AudioDevicesListed,
        Stage::Starting => event == (CoachEvent::AudioSessionStateChanged {
            new_state: SessionState::Running,
        }) || event is AudioSessionError,
        Stage::Stopping => event == (CoachEvent::AudioSessionStateChanged {
            new_state: SessionState::Idle,
        }),
        _ => false,
    }
}

fn is_answer(stage: Stage, event: &CoachEvent) -> (yes: bool)
    ensures
        yes == answers(stage, *event),
{
    match stage {
        Stage::Listing => match event {
            CoachEvent::AudioDevicesListed { .. } => true,
            _ => false,
        },
        Stage::Starting => match event {
            CoachEvent::AudioSessionStateChanged { new_state } => *new_state
                == SessionState::Running,
            CoachEvent::AudioSessionError { .. } => true,
            _ => false,
        },
        Stage::Stopping => match event {
            CoachEvent::AudioSessionStateChanged { new_state } => *new_state == SessionState::Idle,
            _ => false,
        },
        _ => false,
    }
}

/// The first of some events that answers what a stage waits for. Those before it
/// are dropped.
pub fn wait_for(stage: Stage, events: &Vec<CoachEvent>) -> (found: Option<usize>)
    ensures
        match found {
            Some(i) => {
                &&& i < events@.len()
                &&& answers(stage, events@[i as int])
                &&& forall|k: int| 0 <= k < i ==> !answers(stage, #[trigger] events@[k])
            },
            None => forall|k: int|
                0 <= k < events@.len() ==> !answers(stage, #[trigger] events@[k]),
        },
{
    for i in 0..events.len()
        invariant
            forall|k: int| 0 <= k < i ==> !answers(stage, #[trigger] events@[k]),
    {
        if is_answer(stage, &events[i]) {
            return Some(i);
        }
    }
    None
}

/// What to do after a look at the events.
#[derive(Clone, Copy, PartialEq, Eq, Structural, Debug)]
pub enum Wait {
    /// The event of this index answers.
    Answered(usize),
    /// The time is up.
    GiveUp,
    /// Sleep for so many milliseconds, then look again.
    Sleep(u64),
}

/// What to do after a look at the events, `now_ms` after the wait began, where the
/// answer may take up to `timeout_ms`. An answer that is there counts also when the
/// time is up.
pub fn wait_step(stage: Stage, events: &Vec<CoachEvent>, now_ms: u64, timeout_ms: u64) -> (next: Wait)
    ensures
        match next {
            Wait::Answered(i) => {
                &&& i < events@.len()
                &&& answers(stage, events@[i as int])
                &&& forall|k: int| 0 <= k < i ==> !answers(stage, #[trigger] events@[k])
            },
            Wait::GiveUp => now_ms >= timeout_ms && forall|k: int|
                0 <= k < events@.len() ==> !answers(stage, #[trigger] events@[k]),
            Wait::Sleep(ms) => now_ms < timeout_ms && ms == POLL_MS && forall|k: int|
                0 <= k < events@.len() ==> !answers(stage, #[trigger] events@[k]),
        },
{
    match wait_for(stage, events) {
        Some(i) => Wait::Answered(i),
        None => if now_ms >= timeout_ms {
            Wait::GiveUp
        } else {
            Wait::Sleep(POLL_MS)
        },
    }
}

/// What to do after a look at the latest reading.
#[derive(Clone, Copy, PartialEq, Eq, Structural, Debug)]
pub enum Beat {
    /// The time is up.
    Stop,
    /// Print the reading where it is fresh, sleep for so many milliseconds, then
    /// look again.
    Go { print: bool, sleep_ms: u64 },
}

/// What to do after a look at the latest reading, `now_ms` after the session began,
/// where it lasts `duration_ms`. A reading is told by its time.
pub fn play_step(
    pitches: &mut PitchLoop,
    reading: Option<u64>,
    now_ms: u64,
    duration_ms: u64,
) -> (beat: Beat)
    ensures
        now_ms >= duration_ms ==> beat is Stop && *final(pitches) == *old(pitches),
        now_ms < duration_ms ==> beat == (Beat::Go {
            print: reading is Some && reading->0 != old(pitches).last_t_ms,
            sleep_ms: POLL_MS,
        }) && final(pitches).last_t_ms == (if reading is Some {
            reading->0
        } else {
            old(pitches).last_t_ms
        }),
{
    if now_ms >= duration_ms {
        return Beat::Stop;
    }
    let print = match reading {
        Some(t_ms) => pitches.fresh(t_ms),
        None => false,
    };
    Beat::Go { print, sleep_ms: POLL_MS }
}

/// Whether something can be what a stage was waiting for.
pub open spec fn fits(stage: Stage, seen: Seen) -> bool {
    match stage {
        Stage::Booting => seen is Booted,
        Stage::Listing | Stage::Starting | Stage::Stopping => match seen {
            Seen::Answer(event) => answers(stage, event),
            _ => seen is TimedOut,
        },
        Stage::Playing => seen is Played,
        Stage::Closing => seen is ShutDown,
        Stage::Finished => false,
    }
}

/// Whether something can be what a stage was waiting for.
pub fn is_fitting(stage: Stage, seen: &Seen) -> (yes: bool)
    ensures
        yes == fits(stage, *seen),
{
    match (stage, seen) {
        (Stage::Booting, Seen::Booted) => true,
        (Stage::Playing, Seen::Played) => true,
        (Stage::Closing, Seen::ShutDown(_)) => true,
        (Stage::Listing, Seen::TimedOut) => true,
        (Stage::Starting, Seen::TimedOut) => true,
        (Stage::Stopping, Seen::TimedOut) => true,
        (Stage::Listing, Seen::Answer(event)) => is_answer(stage, event),
        (Stage::Starting, Seen::Answer(event)) => is_answer(stage, event),
        (Stage::Stopping, Seen::Answer(event)) => is_answer(stage, event),
        _ => false,
    }
}

// ---- steps ---------------------------------------------------------------

/// Where a job stands after it saw something.
pub open spec fn next_stage(job: Job, stage: Stage, seen: Seen) -> Stage {
    match stage {
        Stage::Booting => match job {
            Job::Run => Stage::Closing,
            Job::ListDevices => Stage::Listing,
            Job::Freestyle { .. } => Stage::Starting,
        },
        Stage::Starting => match seen {
            Seen::Answer(CoachEvent::AudioSessionStateChanged { .. }) => Stage::Playing,
            _ => Stage::Closing,
        },
        Stage::Playing => Stage::Stopping,
        Stage::Listing | Stage::Stopping => Stage::Closing,
        Stage::Closing | Stage::Finished => Stage::Finished,
    }
}

/// What the outside does on the way to a stage.
pub open spec fn action_for(job: Job, stage: Stage) -> Action {
    match stage {
        Stage::Booting => Action::Boot,
        Stage::Listing => Action::Ask { command: Command::AudioListDevices, timeout_ms: WAIT_MS },
        Stage::Starting => Action::Ask {
            command: Command::AudioStartSession(
                AudioConfig {
                    device_id: match job {
                        Job::Freestyle { persistent_id, .. } => persistent_id,
                        _ => None,
                    },
                    sample_rate: None,
                    buffer_frames: None,
                    session_label: None,
                },
            ),
            timeout_ms: WAIT_MS,
        },
        Stage::Playing => Action::Play {
            duration_ms: match job {
                Job::Freestyle { duration_ms, .. } => duration_ms,
                _ => 0,
            },
        },
        Stage::Stopping => Action::Ask { command: Command::AudioStopSession, timeout_ms: WAIT_MS },
        Stage::Closing => Action::Shutdown { timeout_ms: SHUTDOWN_MS },
        Stage::Finished => Action::Finish,
    }
}

/// What is printed once a stage saw something.
pub open spec fn lines_for(stage: Stage, seen: Seen) -> Seq<Seq<char>> {
    match (stage, seen) {
        (
            Stage::Listing,
            Seen::Answer(CoachEvent::AudioDevicesListed { devices }),
        ) => report::listing(devices@),
        _ => Seq::empty(),
    }
}

/// What is complained of once a stage saw something. A job that only boots the
/// coach does not ask how the shutdown went.
pub open spec fn complaint_for(job: Job, stage: Stage, seen: Seen) -> Option<Seq<char>> {
    match (stage, seen) {
        (Stage::Listing, Seen::TimedOut) => Some(
            "list-devices: timed out waiting for DevicesListed"@,
        ),
        (Stage::Starting, Seen::TimedOut) => Some("freestyle: timed out waiting for Running"@),
        (Stage::Starting, Seen::Answer(CoachEvent::AudioSessionError { kind, reason })) => Some(
            "freestyle: session error: "@ + kind@ + ": "@ + reason@,
        ),
        (Stage::Closing, Seen::ShutDown(ShutdownResult::TimedOut)) => if job is Run {
            None
        } else {
            Some("coach-cli: shutdown timed out after 5s"@)
        },
        _ => None,
    }
}

/// The text of an optional line.
pub open spec fn line_text(line: Option<String>) -> Option<Seq<char>> {
    match line {
        Some(l) => Some(l@),
        None => None,
    }
}

fn act(job: &Job, stage: Stage) -> (action: Action)
    ensures
        action == action_for(*job, stage),
{
    match stage {
        Stage::Booting => Action::Boot,
        Stage::Listing => Action::Ask { command: Command::AudioListDevices, timeout_ms: WAIT_MS },
        Stage::Starting => {
            let device_id = match job {
                Job::Freestyle { persistent_id, .. } => port::copy_text(persistent_id),
                _ => None,
            };
            Action::Ask {
                command: Command::AudioStartSession(
                    AudioConfig {
                        device_id,
                        sample_rate: None,
                        buffer_frames: None,
                        session_label: None,
                    },
                ),
                timeout_ms: WAIT_MS,
            }
        },
        Stage::Playing => Action::Play {
            duration_ms: match job {
                Job::Freestyle { duration_ms, .. } => *duration_ms,
                _ => 0,
            },
        },
        Stage::Stopping => Action::Ask { command: Command::AudioStopSession, timeout_ms: WAIT_MS },
        Stage::Closing => Action::Shutdown { timeout_ms: SHUTDOWN_MS },
        Stage::Finished => Action::Finish,
    }
}

/// The first step of a job: the coach is booted.
pub fn begin() -> (turn: Turn)
    ensures
        turn.stage is Booting,
        turn.action is Boot,
        turn.lines@.len() == 0,
        turn.complaint is None,
{
    Turn { stage: Stage::Booting, action: Action::Boot, lines: Vec::new(), complaint: None }
}

/// The step after a stage saw something: where the job stands then, what to do on
/// the way there, and what to print.
pub fn step(job: &Job, stage: Stage, seen: &Seen) -> (turn: Turn)
    requires
        fits(stage, *seen),
    ensures
        turn.stage == next_stage(*job, stage, *seen),
        turn.action == action_for(*job, turn.stage),
        text::contents(turn.lines@) == lines_for(stage, *seen),
        line_text(turn.complaint) == complaint_for(*job, stage, *seen),
{
    let mut lines: Vec<String> = Vec::new();
    assert(text::contents(lines@) =~= Seq::empty());
    let mut complaint: Option<String> = None;
    let mut next = Stage::Closing;
    match stage {
        Stage::Booting => {
            next = match job {
                Job::Run => Stage::Closing,
                Job::ListDevices => Stage::Listing,
                Job::Freestyle { .. } => Stage::Starting,
            };
        },
        Stage::Listing => match seen {
            Seen::Answer(CoachEvent::AudioDevicesListed { devices }) => {
                lines = report::print_device_list(devices);
            },
            _ => {
                complaint = Some(
                    String::from_str("list-devices: timed out waiting for DevicesListed"),
                );
            },
        },
        Stage::Starting => match seen {
            Seen::Answer(CoachEvent::AudioSessionStateChanged { .. }) => {
                next = Stage::Playing;
            },
            Seen::Answer(CoachEvent::AudioSessionError { kind, reason }) => {
                let mut line = String::from_str("freestyle: session error: ");
                line.append(kind.as_str());
                line.append(": ");
                line.append(reason.as_str());
                complaint = Some(line);
            },
            _ => {
                complaint = Some(String::from_str("freestyle: timed out waiting for Running"));
            },
        },
        Stage::Playing => {
            next = Stage::Stopping;
        },
        Stage::Stopping => {},
        Stage::Closing | Stage::Finished => {
            next = Stage::Finished;
            match (job, seen) {
                (Job::Run, _) => {},
                (_, Seen::ShutDown(ShutdownResult::TimedOut)) => {
                    complaint = Some(String::from_str("coach-cli: shutdown timed out after 5s"));
                },
                _ => {},
            }
        },
    }
    Turn { stage: next, action: act(job, next), lines, complaint }
}

/// What the job without a subcommand does: boot the coach and shut it down at
/// once, so that it reports its life.
pub fn run_coach() -> (actions: Vec<Action>)
    ensures
        actions@ == seq![
            Action::Boot,
            Action::Shutdown { timeout_ms: SHUTDOWN_MS },
            Action::Finish,
        ],
{
    let first = begin();
    let second = step(&Job::Run, first.stage, &Seen::Booted);
    let third = step(&Job::Run, second.stage, &Seen::ShutDown(ShutdownResult::Clean));
    let mut actions: Vec<Action> = Vec::new();
    actions.push(first.action);
    actions.push(second.action);
    actions.push(third.action);
    assert(actions@ =~= seq![
        Action::Boot,
        Action::Shutdown { timeout_ms: SHUTDOWN_MS },
        Action::Finish,
    ]);
    actions
}

// ---- laws ----------------------------------------------------------------

/// How many steps a job is from its end at most.
pub open spec fn steps_left(stage: Stage) -> nat {
    match stage {
        Stage::Booting => 5,
        Stage::Starting => 4,
        Stage::Playing => 3,
        Stage::Listing | Stage::Stopping => 2,
        Stage::Closing => 1,
        Stage::Finished => 0,
    }
}

/// Every job comes to its end, whatever it sees.
pub proof fn law_jobs_end(job: Job, stage: Stage, seen: Seen)
    requires
        fits(stage, seen),
    ensures
        steps_left(next_stage(job, stage, seen)) < steps_left(stage),
{
}

/// The only way to the end is through a shutdown of the coach: a job that has
/// booted it never leaves it running.
pub proof fn law_the_coach_is_shut_down(job: Job, stage: Stage, seen: Seen)
    requires
        fits(stage, seen),
        next_stage(job, stage, seen) is Finished,
    ensures
        stage is Closing,
        action_for(job, stage) is Shutdown,
{
}

/// A session that came to run is stopped before the coach is shut down.
pub proof fn law_a_running_session_is_stopped(job: Job, seen: Seen, after: Seen)
    requires
        fits(Stage::Starting, seen),
        seen matches Seen::Answer(event) && event is AudioSessionStateChanged,
        fits(Stage::Playing, after),
    ensures
        next_stage(job, Stage::Starting, seen) is Playing,
        action_for(job, next_stage(job, Stage::Playing, after)) == (Action::Ask {
            command: Command::AudioStopSession,
            timeout_ms: WAIT_MS,
        }),
{
}

/// What answers a stage: a listing the question for devices, a session that runs or
/// an error the start, and a session at rest the stop. No other stage waits for an
/// event.
pub proof fn law_which_events_answer(stage: Stage, event: CoachEvent)
    ensures
        answers(stage, event) <==> match event {
            CoachEvent::AudioDevicesListed { .. } => stage is Listing,
            CoachEvent::AudioSessionError { .. } => stage is Starting,
            CoachEvent::AudioSessionStateChanged { new_state } => stage is Starting
                && new_state is Running || stage is Stopping && new_state is Idle,
            _ => false,
        },
{
}

/// What a stage can see: what it waits for, or that the time for an answer is up.
pub proof fn law_what_a_stage_can_see(stage: Stage, seen: Seen)
    ensures
        fits(stage, seen) <==> match seen {
            Seen::Booted => stage is Booting,
            Seen::Answer(event) => answers(stage, event),
            Seen::TimedOut => stage is Listing || stage is Starting || stage is Stopping,
            Seen::Played => stage is Playing,
            Seen::ShutDown(_) => stage is Closing,
        },
{
}

/// The way of each job: the plain one boots and closes, a listing asks once, and a
/// session starts, plays and stops, unless it never came to run.
pub proof fn law_the_way_of_each_job(job: Job, stage: Stage, seen: Seen)
    requires
        fits(stage, seen),
    ensures
        ({
            let next = next_stage(job, stage, seen);
            &&& stage is Booting && job is Run ==> next is Closing
            &&& stage is Booting && job is ListDevices ==> next is Listing
            &&& stage is Booting && job is Freestyle ==> next is Starting
            &&& stage is Listing ==> next is Closing
            &&& stage is Starting && (seen matches Seen::Answer(event)
                && event is AudioSessionStateChanged) ==> next is Playing
            &&& stage is Starting && !(seen matches Seen::Answer(event)
                && event is AudioSessionStateChanged) ==> next is Closing
            &&& stage is Playing ==> next is Stopping
            &&& stage is Stopping ==> next is Closing
            &&& stage is Closing ==> next is Finished
        }),
{
}

/// What is done on the way to each stage: an answer may take two seconds and the
/// shutdown five, and a session is opened on the device and for the time that the
/// job names, with all else left open.
pub proof fn law_what_each_stage_does(job: Job)
    ensures
        action_for(job, Stage::Booting) is Boot,
        action_for(job, Stage::Listing) == (Action::Ask {
            command: Command::AudioListDevices,
            timeout_ms: 2_000,
        }),
        action_for(job, Stage::Stopping) == (Action::Ask {
            command: Command::AudioStopSession,
            timeout_ms: 2_000,
        }),
        action_for(job, Stage::Closing) == (Action::Shutdown { timeout_ms: 5_000 }),
        action_for(job, Stage::Finished) is Finish,
        job matches Job::Freestyle { duration_ms, persistent_id } ==> {
            &&& action_for(job, Stage::Playing) == (Action::Play { duration_ms })
            &&& action_for(job, Stage::Starting) matches Action::Ask { command, timeout_ms }
            &&& timeout_ms == 2_000
            &&& command matches Command::AudioStartSession(cfg)
            &&& cfg.device_id == persistent_id
            &&& cfg.sample_rate is None
            &&& cfg.buffer_frames is None
            &&& cfg.session_label is None
        },
        POLL_MS == 50,
{
}

/// Only an answered listing prints, and it prints the devices of the answer.
pub proof fn law_only_a_listing_prints(stage: Stage, seen: Seen)
    ensures
        stage is Listing ==> (seen matches Seen::Answer(event) ==> (
        event matches CoachEvent::AudioDevicesListed { devices } ==> lines_for(stage, seen)
            == report::listing(devices@))),
        !(stage is Listing) || seen is TimedOut ==> lines_for(stage, seen).len() == 0,
{
}

/// What is complained of: an answer that never came, a session that failed, with its
/// reason, and a shutdown that took too long where the job asks for it.
pub proof fn law_what_is_complained_of(job: Job, stage: Stage, seen: Seen)
    requires
        fits(stage, seen),
    ensures
        ({
            let words = complaint_for(job, stage, seen);
            &&& stage is Listing && seen is TimedOut ==> words == Some(
                "list-devices: timed out waiting for DevicesListed"@,
            )
            &&& stage is Listing && !(seen is TimedOut) ==> words is None
            &&& stage is Starting && seen is TimedOut ==> words == Some(
                "freestyle: timed out waiting for Running"@,
            )
            &&& stage is Starting ==> (seen matches Seen::Answer(event) ==> {
                &&& event is AudioSessionStateChanged ==> words is None
                &&& event matches CoachEvent::AudioSessionError { kind, reason } ==> words == Some(
                    "freestyle: session error: "@ + kind@ + ": "@ + reason@,
                )
            })
            &&& stage is Closing && !(job is Run) && seen == Seen::ShutDown(
                ShutdownResult::TimedOut,
            ) ==> words == Some("coach-cli: shutdown timed out after 5s"@)
            &&& stage is Closing && (job is Run || seen != Seen::ShutDown(ShutdownResult::TimedOut))
                ==> words is None
            &&& stage is Booting || stage is Playing || stage is Stopping || stage is Finished
                ==> words is None
        }),
{
}

/// A line that is there is its text, and one that is not has none.
pub proof fn law_lines_are_their_texts(line: Option<String>)
    ensures
        line is None <==> line_text(line) is None,
        line matches Some(l) ==> line_text(line) == Some(l@),
{
}

/// A job that names no device and no time opens a session on the coach's choice and
/// for no time.
pub proof fn law_jobs_without_a_session(job: Job)
    requires
        !(job is Freestyle),
    ensures
        action_for(job, Stage::Playing) == (Action::Play { duration_ms: 0 }),
        action_for(job, Stage::Starting) matches Action::Ask { command, timeout_ms } && timeout_ms
            == 2_000 && (command matches Command::AudioStartSession(cfg) && cfg.device_id is None),
{
}

}
