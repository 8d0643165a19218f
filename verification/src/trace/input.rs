//! Inputs in the trace: how a window event is written down, and how a written
//! one is turned back into an event.

use vstd::prelude::*;
use vstd::string::StringExecFns;
use crate::ieee::{F32, F64};
use crate::text;
use crate::text::same;
use crate::trace::paths;

verus! {

/// Whether a key or button went down or up.
#[derive(Clone, Copy, PartialEq, Eq, Structural, Debug)]
pub enum ButtonState {
    Pressed,
    Released,
}

/// What a step of the wheel counts.
#[derive(Clone, Copy, PartialEq, Eq, Structural, Debug)]
pub enum WheelUnit {
    Line,
    Pixel,
}

/// The keys that the application binds.
#[derive(Clone, Copy, PartialEq, Eq, Structural, Debug)]
pub enum KeyCode {
    Escape,
    ControlLeft,
    ControlRight,
    F8,
    F10,
}

/// The buttons of the mouse.
#[derive(Clone, Copy, PartialEq, Eq, Structural, Debug)]
pub enum MouseButton {
    Left,
    Right,
    Middle,
}

/// The phases of a touch.
#[derive(Clone, Copy, PartialEq, Eq, Structural, Debug)]
pub enum TouchPhase {
    Started,
    Moved,
    Ended,
    Canceled,
}

/// A window event as it arrives. Names of keys, buttons, units and phases are
/// those that the window system prints for them.
#[derive(PartialEq, Eq, Debug)]
pub enum WindowEvent {
    KeyboardInput { key: String, state: ButtonState, repeat: bool },
    KeyboardFocusLost,
    MouseButtonInput { button: String, state: ButtonState },
    CursorMoved { x: F32, y: F32 },
    CursorEntered,
    CursorLeft,
    MouseWheel { unit: String, x: F32, y: F32 },
    TouchInput { phase: String, x: F32, y: F32, id: u64 },
    Resized { width: F32, height: F32 },
    ScaleFactorChanged { scale_factor: F64 },
    /// Anything that a replay does not reproduce.
    Other,
}

/// An input as it is written in the trace.
#[derive(PartialEq, Eq, Debug)]
pub enum InputRecord {
    Key { key: String, state: String, repeat: bool },
    KeyboardFocusLost,
    MouseButton { button: String, state: String },
    Cursor { x: F32, y: F32 },
    CursorEntered,
    CursorLeft,
    Wheel { unit: String, x: F32, y: F32 },
    Touch { phase: String, x: F32, y: F32, id: u64 },
    Resize { width: F32, height: F32 },
    ScaleFactor { scale_factor: F64 },
}

/// An input as it is fed to the application again.
#[derive(Clone, Copy, PartialEq, Eq, Structural, Debug)]
pub enum Injected {
    Key { key: KeyCode, state: ButtonState, repeat: bool },
    KeyboardFocusLost,
    MouseButton { button: MouseButton, state: ButtonState },
    Cursor { x: F32, y: F32 },
    CursorEntered,
    CursorLeft,
    Wheel { unit: WheelUnit, x: F32, y: F32 },
    Touch { phase: TouchPhase, x: F32, y: F32, id: u64 },
    Resize { width: F32, height: F32 },
    ScaleFactor { scale_factor: F64 },
}

// ---- writing down --------------------------------------------------------

/// How a button state is written.
pub open spec fn state_name(state: ButtonState) -> Seq<char> {
    match state {
        ButtonState::Pressed => "pressed"@,
        ButtonState::Released => "released"@,
    }
}

/// How a button state is written.
pub fn button_state(state: ButtonState) -> (name: String)
    ensures
        name@ == state_name(state),
{
    let mut name = String::new();
    match state {
        ButtonState::Pressed => name.append("pressed"),
        ButtonState::Released => name.append("released"),
    }
    name
}

/// Whether `r` is what is written of the event `e`. The window it came from is
/// not written: it does not outlive the run.
pub open spec fn written_as(e: WindowEvent, r: InputRecord) -> bool {
    match (e, r) {
        (
            WindowEvent::KeyboardInput { key, state, repeat },
            InputRecord::Key { key: k, state: s, repeat: again },
        ) => k@ == key@ && s@ == state_name(state) && again == repeat,
        (WindowEvent::KeyboardFocusLost, InputRecord::KeyboardFocusLost) => true,
        (
            WindowEvent::MouseButtonInput { button, state },
            InputRecord::MouseButton { button: b, state: s },
        ) => b@ == button@ && s@ == state_name(state),
        (WindowEvent::CursorMoved { x, y }, InputRecord::Cursor { x: x1, y: y1 }) => x == x1 && y
            == y1,
        (WindowEvent::CursorEntered, InputRecord::CursorEntered) => true,
        (WindowEvent::CursorLeft, InputRecord::CursorLeft) => true,
        (
            WindowEvent::MouseWheel { unit, x, y },
            InputRecord::Wheel { unit: u, x: x1, y: y1 },
        ) => u@ == unit@ && x == x1 && y == y1,
        (
            WindowEvent::TouchInput { phase, x, y, id },
            InputRecord::Touch { phase: p, x: x1, y: y1, id: i },
        ) => p@ == phase@ && x == x1 && y == y1 && id == i,
        (
            WindowEvent::Resized { width, height },
            InputRecord::Resize { width: w, height: h },
        ) => width == w && height == h,
        (
            WindowEvent::ScaleFactorChanged { scale_factor },
            InputRecord::ScaleFactor { scale_factor: s },
        ) => scale_factor == s,
        _ => false,
    }
}

/// The record of a window event, or `None` for one that a replay does not
/// reproduce.
pub fn to_input_record(e: &WindowEvent) -> (record: Option<InputRecord>)
    ensures
        record is None <==> *e is Other,
        record matches Some(r) ==> written_as(*e, r),
{
    match e {
        WindowEvent::KeyboardInput { key, state, repeat } => Some(
            InputRecord::Key { key: key.clone(), state: button_state(*state), repeat: *repeat },
        ),
        WindowEvent::KeyboardFocusLost => Some(InputRecord::KeyboardFocusLost),
        WindowEvent::MouseButtonInput { button, state } => Some(
            InputRecord::MouseButton { button: button.clone(), state: button_state(*state) },
        ),
        WindowEvent::CursorMoved { x, y } => Some(InputRecord::Cursor { x: *x, y: *y }),
        WindowEvent::CursorEntered => Some(InputRecord::CursorEntered),
        WindowEvent::CursorLeft => Some(InputRecord::CursorLeft),
        WindowEvent::MouseWheel { unit, x, y } => Some(
            InputRecord::Wheel { unit: unit.clone(), x: *x, y: *y },
        ),
        WindowEvent::TouchInput { phase, x, y, id } => Some(
            InputRecord::Touch { phase: phase.clone(), x: *x, y: *y, id: *id },
        ),
        WindowEvent::Resized { width, height } => Some(
            InputRecord::Resize { width: *width, height: *height },
        ),
        WindowEvent::ScaleFactorChanged { scale_factor } => Some(
            InputRecord::ScaleFactor { scale_factor: *scale_factor },
        ),
        WindowEvent::Other => None,
    }
}

/// The records of a frame's events, in the order in which they arrived: a click
/// needs the cursor move before it.
pub fn record_inputs(events: &Vec<WindowEvent>) -> (records: Vec<InputRecord>)
    ensures
        written_in_order(events@, records@),
{
    let mut records: Vec<InputRecord> = Vec::new();
    for i in 0..events.len()
        invariant
            written_in_order(events@.take(i as int), records@),
    {
        assert(events@.take(i + 1).drop_last() =~= events@.take(i as int));
        let ghost before = records@;
        if let Some(r) = to_input_record(&events[i]) {
            records.push(r);
            assert(records@.drop_last() =~= before);
        }
    }
    assert(events@.take(events@.len() as int) =~= events@);
    records
}

/// Whether `records` are what is written of `events`, in order and without the
/// events that are not written.
pub open spec fn written_in_order(events: Seq<WindowEvent>, records: Seq<InputRecord>) -> bool
    decreases events.len(),
{
    if events.len() == 0 {
        records.len() == 0
    } else if events.last() is Other {
        written_in_order(events.drop_last(), records)
    } else {
        records.len() > 0 && written_as(events.last(), records.last()) && written_in_order(
            events.drop_last(),
            records.drop_last(),
        )
    }
}

// ---- reading back --------------------------------------------------------

/// The button state that a text stands for; what is not a release is a press.
pub open spec fn state_of(s: Seq<char>) -> ButtonState {
    if s == "released"@ {
        ButtonState::Released
    } else {
        ButtonState::Pressed
    }
}

/// The wheel unit that a text stands for.
pub open spec fn unit_of(s: Seq<char>) -> WheelUnit {
    if s == "Pixel"@ {
        WheelUnit::Pixel
    } else {
        WheelUnit::Line
    }
}

/// The key that a text stands for, where it is one that the application binds.
pub open spec fn key_of(s: Seq<char>) -> Option<KeyCode> {
    if s == "Escape"@ {
        Some(KeyCode::Escape)
    } else if s == "ControlLeft"@ {
        Some(KeyCode::ControlLeft)
    } else if s == "ControlRight"@ {
        Some(KeyCode::ControlRight)
    } else if s == "F8"@ {
        Some(KeyCode::F8)
    } else if s == "F10"@ {
        Some(KeyCode::F10)
    } else {
        None
    }
}

/// The mouse button that a text stands for.
pub open spec fn button_of(s: Seq<char>) -> Option<MouseButton> {
    if s == "Left"@ {
        Some(MouseButton::Left)
    } else if s == "Right"@ {
        Some(MouseButton::Right)
    } else if s == "Middle"@ {
        Some(MouseButton::Middle)
    } else {
        None
    }
}

/// The touch phase that a text stands for.
pub open spec fn phase_of(s: Seq<char>) -> Option<TouchPhase> {
    if s == "Started"@ {
        Some(TouchPhase::Started)
    } else if s == "Moved"@ {
        Some(TouchPhase::Moved)
    } else if s == "Ended"@ {
        Some(TouchPhase::Ended)
    } else if s == "Canceled"@ {
        Some(TouchPhase::Canceled)
    } else {
        None
    }
}

/// The button state that a text stands for.
pub fn decode_state(s: &str) -> (state: ButtonState)
    ensures
        state == state_of(s@),
{
    if same(s, "released") {
        ButtonState::Released
    } else {
        ButtonState::Pressed
    }
}

/// The wheel unit that a text stands for.
pub fn decode_wheel_unit(s: &str) -> (unit: WheelUnit)
    ensures
        unit == unit_of(s@),
{
    if same(s, "Pixel") {
        WheelUnit::Pixel
    } else {
        WheelUnit::Line
    }
}

/// The key that a text stands for. A key that is not bound is dropped.
pub fn decode_key(s: &str) -> (key: Option<KeyCode>)
    ensures
        key == key_of(s@),
{
    if same(s, "Escape") {
        Some(KeyCode::Escape)
    } else if same(s, "ControlLeft") {
        Some(KeyCode::ControlLeft)
    } else if same(s, "ControlRight") {
        Some(KeyCode::ControlRight)
    } else if same(s, "F8") {
        Some(KeyCode::F8)
    } else if same(s, "F10") {
        Some(KeyCode::F10)
    } else {
        None
    }
}

/// The mouse button that a text stands for. Any other button is dropped.
pub fn decode_button(s: &str) -> (button: Option<MouseButton>)
    ensures
        button == button_of(s@),
{
    if same(s, "Left") {
        Some(MouseButton::Left)
    } else if same(s, "Right") {
        Some(MouseButton::Right)
    } else if same(s, "Middle") {
        Some(MouseButton::Middle)
    } else {
        None
    }
}

/// The touch phase that a text stands for.
pub fn decode_phase(s: &str) -> (phase: Option<TouchPhase>)
    ensures
        phase == phase_of(s@),
{
    if same(s, "Started") {
        Some(TouchPhase::Started)
    } else if same(s, "Moved") {
        Some(TouchPhase::Moved)
    } else if same(s, "Ended") {
        Some(TouchPhase::Ended)
    } else if same(s, "Canceled") {
        Some(TouchPhase::Canceled)
    } else {
        None
    }
}

/// What a record is fed back as, if anything.
pub open spec fn injection(r: InputRecord) -> Option<Injected> {
    match r {
        InputRecord::Key { key, state, repeat } => match key_of(key@) {
            Some(key) => Some(Injected::Key { key, state: state_of(state@), repeat }),
            None => None,
        },
        InputRecord::KeyboardFocusLost => Some(Injected::KeyboardFocusLost),
        InputRecord::MouseButton { button, state } => match button_of(button@) {
            Some(button) => Some(Injected::MouseButton { button, state: state_of(state@) }),
            None => None,
        },
        InputRecord::Cursor { x, y } => Some(Injected::Cursor { x, y }),
        InputRecord::CursorEntered => Some(Injected::CursorEntered),
        InputRecord::CursorLeft => Some(Injected::CursorLeft),
        InputRecord::Wheel { unit, x, y } => Some(Injected::Wheel { unit: unit_of(unit@), x, y }),
        InputRecord::Touch { phase, x, y, id } => match phase_of(phase@) {
            Some(phase) => Some(Injected::Touch { phase, x, y, id }),
            None => None,
        },
        InputRecord::Resize { width, height } => Some(Injected::Resize { width, height }),
        InputRecord::ScaleFactor { scale_factor } => Some(Injected::ScaleFactor { scale_factor }),
    }
}

/// What a record is fed back as. A key, button or phase that is not known is
/// dropped.
pub fn inject(r: &InputRecord) -> (injected: Option<Injected>)
    ensures
        injected == injection(*r),
{
    match r {
        InputRecord::Key { key, state, repeat } => match decode_key(key.as_str()) {
            Some(key) => Some(
                Injected::Key { key, state: decode_state(state.as_str()), repeat: *repeat },
            ),
            None => None,
        },
        InputRecord::KeyboardFocusLost => Some(Injected::KeyboardFocusLost),
        InputRecord::MouseButton { button, state } => match decode_button(button.as_str()) {
            Some(button) => Some(
                Injected::MouseButton { button, state: decode_state(state.as_str()) },
            ),
            None => None,
        },
        InputRecord::Cursor { x, y } => Some(Injected::Cursor { x: *x, y: *y }),
        InputRecord::CursorEntered => Some(Injected::CursorEntered),
        InputRecord::CursorLeft => Some(Injected::CursorLeft),
        InputRecord::Wheel { unit, x, y } => Some(
            Injected::Wheel { unit: decode_wheel_unit(unit.as_str()), x: *x, y: *y },
        ),
        InputRecord::Touch { phase, x, y, id } => match decode_phase(phase.as_str()) {
            Some(phase) => Some(Injected::Touch { phase, x: *x, y: *y, id: *id }),
            None => None,
        },
        InputRecord::Resize { width, height } => Some(
            Injected::Resize { width: *width, height: *height },
        ),
        InputRecord::ScaleFactor { scale_factor } => Some(
            Injected::ScaleFactor { scale_factor: *scale_factor },
        ),
    }
}

/// What all records of a frame are fed back as, in order.
pub open spec fn injections(records: Seq<InputRecord>) -> Seq<Injected>
    decreases records.len(),
{
    if records.len() == 0 {
        Seq::empty()
    } else {
        let before = injections(records.drop_last());
        match injection(records.last()) {
            Some(i) => before.push(i),
            None => before,
        }
    }
}

/// What all records of a frame are fed back as, in order.
pub fn inject_all(records: &Vec<InputRecord>) -> (injected: Vec<Injected>)
    ensures
        injected@ == injections(records@),
{
    let mut injected: Vec<Injected> = Vec::new();
    for i in 0..records.len()
        invariant
            injected@ == injections(records@.take(i as int)),
    {
        assert(records@.take(i + 1).drop_last() =~= records@.take(i as int));
        if let Some(x) = inject(&records[i]) {
            injected.push(x);
        }
    }
    assert(records@.take(records@.len() as int) =~= records@);
    injected
}

/// What is to be logged of a record, if anything: a key or button that is not known
/// would otherwise be missing from the replay without a word.
pub open spec fn warning_of(r: InputRecord) -> Option<Seq<char>> {
    match r {
        InputRecord::Key { key, .. } => if key_of(key@) is None {
            Some(
                "replay: unmapped key "@ + paths::quoted(key@)
                    + " — dropping (extend decode_key)"@,
            )
        } else {
            None
        },
        InputRecord::MouseButton { button, .. } => if button_of(button@) is None {
            Some("replay: unmapped mouse button "@ + paths::quoted(button@) + " — dropping"@)
        } else {
            None
        },
        _ => None,
    }
}

/// What is to be logged of a record, if anything.
pub fn warning(r: &InputRecord) -> (line: Option<String>)
    ensures
        match (line, warning_of(*r)) {
            (Some(l), Some(w)) => l@ == w,
            (None, None) => true,
            _ => false,
        },
{
    match r {
        InputRecord::Key { key, .. } => {
            if decode_key(key.as_str()).is_some() {
                return None;
            }
            let mut line = String::new();
            line.append("replay: unmapped key ");
            line.append(paths::debug_text(key.as_str()).as_str());
            line.append(" — dropping (extend decode_key)");
            Some(line)
        },
        InputRecord::MouseButton { button, .. } => {
            if decode_button(button.as_str()).is_some() {
                return None;
            }
            let mut line = String::new();
            line.append("replay: unmapped mouse button ");
            line.append(paths::debug_text(button.as_str()).as_str());
            line.append(" — dropping");
            Some(line)
        },
        _ => None,
    }
}

/// What is to be logged of all records of a frame, in order.
pub open spec fn warnings_of(records: Seq<InputRecord>) -> Seq<Seq<char>>
    decreases records.len(),
{
    if records.len() == 0 {
        Seq::empty()
    } else {
        let before = warnings_of(records.drop_last());
        match warning_of(records.last()) {
            Some(w) => before.push(w),
            None => before,
        }
    }
}

/// What is to be logged of all records of a frame, in order.
pub fn warnings(records: &Vec<InputRecord>) -> (lines: Vec<String>)
    ensures
        text::contents(lines@) == warnings_of(records@),
{
    let mut lines: Vec<String> = Vec::new();
    assert(text::contents(lines@) =~= Seq::empty());
    for i in 0..records.len()
        invariant
            text::contents(lines@) == warnings_of(records@.take(i as int)),
    {
        assert(records@.take(i + 1).drop_last() =~= records@.take(i as int));
        if let Some(line) = warning(&records[i]) {
            let ghost was = lines@;
            let ghost added = line@;
            lines.push(line);
            assert(text::contents(lines@) =~= text::contents(was).push(added));
        }
    }
    assert(records@.take(records@.len() as int) =~= records@);
    lines
}

// ---- laws ----------------------------------------------------------------

/// The event that a replay reproduces of `e`, if any.
pub open spec fn replayed(e: WindowEvent) -> Option<Injected> {
    match e {
        WindowEvent::KeyboardInput { key, state, repeat } => match key_of(key@) {
            Some(key) => Some(Injected::Key { key, state, repeat }),
            None => None,
        },
        WindowEvent::KeyboardFocusLost => Some(Injected::KeyboardFocusLost),
        WindowEvent::MouseButtonInput { button, state } => match button_of(button@) {
            Some(button) => Some(Injected::MouseButton { button, state }),
            None => None,
        },
        WindowEvent::CursorMoved { x, y } => Some(Injected::Cursor { x, y }),
        WindowEvent::CursorEntered => Some(Injected::CursorEntered),
        WindowEvent::CursorLeft => Some(Injected::CursorLeft),
        WindowEvent::MouseWheel { unit, x, y } => Some(
            Injected::Wheel { unit: unit_of(unit@), x, y },
        ),
        WindowEvent::TouchInput { phase, x, y, id } => match phase_of(phase@) {
            Some(phase) => Some(Injected::Touch { phase, x, y, id }),
            None => None,
        },
        WindowEvent::Resized { width, height } => Some(Injected::Resize { width, height }),
        WindowEvent::ScaleFactorChanged { scale_factor } => Some(
            Injected::ScaleFactor { scale_factor },
        ),
        WindowEvent::Other => None,
    }
}

/// The events that a replay reproduces, in order.
pub open spec fn replayed_all(events: Seq<WindowEvent>) -> Seq<Injected>
    decreases events.len(),
{
    if events.len() == 0 {
        Seq::empty()
    } else {
        let before = replayed_all(events.drop_last());
        match replayed(events.last()) {
            Some(i) => before.push(i),
            None => before,
        }
    }
}

/// What is written of an event is fed back as that event: same state, same
/// place, same key.
pub proof fn law_input_round_trip(e: WindowEvent, r: InputRecord)
    requires
        written_as(e, r),
    ensures
        injection(r) == replayed(e),
{
    reveal_strlit("pressed");
    reveal_strlit("released");
    assert("pressed"@.len() != "released"@.len());
    match e {
        WindowEvent::KeyboardInput { key, state, repeat } => {
            assert(state_of(state_name(state)) == state);
        },
        WindowEvent::MouseButtonInput { button, state } => {
            assert(state_of(state_name(state)) == state);
        },
        _ => {},
    }
}

/// A key or button that a replay drops is always logged, and nothing else is.
pub proof fn law_drops_are_logged(r: InputRecord)
    ensures
        r is Key || r is MouseButton ==> (warning_of(r) is Some <==> injection(r) is None),
        !(r is Key || r is MouseButton) ==> warning_of(r) is None,
{
}

/// A frame's events come back from its records in the order in which they
/// arrived.
pub proof fn law_inputs_round_trip_in_order(events: Seq<WindowEvent>, records: Seq<InputRecord>)
    requires
        written_in_order(events, records),
    ensures
        injections(records) == replayed_all(events),
    decreases events.len(),
{
    if events.len() > 0 {
        if events.last() is Other {
            law_inputs_round_trip_in_order(events.drop_last(), records);
        } else {
            law_inputs_round_trip_in_order(events.drop_last(), records.drop_last());
            law_input_round_trip(events.last(), records.last());
        }
    }
}

/// A record is read back by the texts that it names: each state, unit, key, button
/// and phase by its own name. What is not a release is a press, what is not a pixel
/// is a line, and any other key, button or phase is unknown.
pub proof fn law_names_are_read_back(s: Seq<char>)
    ensures
        state_of(s) == ButtonState::Released <==> s == "released"@,
        state_of("pressed"@) == ButtonState::Pressed,
        unit_of(s) == WheelUnit::Pixel <==> s == "Pixel"@,
        unit_of("Line"@) == WheelUnit::Line,
        key_of(s) == Some(KeyCode::Escape) <==> s == "Escape"@,
        key_of(s) == Some(KeyCode::ControlLeft) <==> s == "ControlLeft"@,
        key_of(s) == Some(KeyCode::ControlRight) <==> s == "ControlRight"@,
        key_of(s) == Some(KeyCode::F8) <==> s == "F8"@,
        key_of(s) == Some(KeyCode::F10) <==> s == "F10"@,
        button_of(s) == Some(MouseButton::Left) <==> s == "Left"@,
        button_of(s) == Some(MouseButton::Right) <==> s == "Right"@,
        button_of(s) == Some(MouseButton::Middle) <==> s == "Middle"@,
        phase_of(s) == Some(TouchPhase::Started) <==> s == "Started"@,
        phase_of(s) == Some(TouchPhase::Moved) <==> s == "Moved"@,
        phase_of(s) == Some(TouchPhase::Ended) <==> s == "Ended"@,
        phase_of(s) == Some(TouchPhase::Canceled) <==> s == "Canceled"@,
{
    reveal_strlit("pressed");
    reveal_strlit("released");
    reveal_strlit("Pixel");
    reveal_strlit("Line");
    reveal_strlit("Escape");
    reveal_strlit("ControlLeft");
    reveal_strlit("ControlRight");
    reveal_strlit("F8");
    reveal_strlit("F10");
    reveal_strlit("Left");
    reveal_strlit("Right");
    reveal_strlit("Middle");
    reveal_strlit("Started");
    reveal_strlit("Moved");
    reveal_strlit("Ended");
    reveal_strlit("Canceled");
    assert("Pixel"@.len() == 5 && "Line"@.len() == 4);
    assert("Escape"@.len() == 6 && "ControlLeft"@.len() == 11 && "ControlRight"@.len() == 12);
    assert("F8"@.len() == 2 && "F10"@.len() == 3);
    assert("Left"@.len() == 4 && "Right"@.len() == 5 && "Middle"@.len() == 6);
    assert("Started"@.len() == 7 && "Moved"@.len() == 5 && "Ended"@.len() == 5 && "Canceled"@.len()
        == 8);
    assert("Moved"@[0] == 'M' && "Ended"@[0] == 'E');
    assert("pressed"@.len() == 7 && "released"@.len() == 8);
}

/// A press is written "pressed" and a release "released".
pub proof fn law_states_are_written_by_name()
    ensures
        state_name(ButtonState::Pressed) == "pressed"@,
        state_name(ButtonState::Released) == "released"@,
{
}

/// What is written of an event holds what the event held, value by value.
pub proof fn law_events_are_written_as_they_are(e: WindowEvent, r: InputRecord)
    requires
        written_as(e, r),
    ensures
        match e {
            WindowEvent::KeyboardInput { key, state, repeat } => r matches InputRecord::Key {
                key: k,
                state: s,
                repeat: again,
            } && k@ == key@ && again == repeat && s@ == (if state is Pressed {
                "pressed"@
            } else {
                "released"@
            }),
            WindowEvent::KeyboardFocusLost => r is KeyboardFocusLost,
            WindowEvent::MouseButtonInput { button, state } => r matches InputRecord::MouseButton {
                button: b,
                state: s,
            } && b@ == button@ && s@ == (if state is Pressed {
                "pressed"@
            } else {
                "released"@
            }),
            WindowEvent::CursorMoved { x, y } => r matches InputRecord::Cursor { x: a, y: b } && a
                == x && b == y,
            WindowEvent::CursorEntered => r is CursorEntered,
            WindowEvent::CursorLeft => r is CursorLeft,
            WindowEvent::MouseWheel { unit, x, y } => r matches InputRecord::Wheel {
                unit: u,
                x: a,
                y: b,
            } && u@ == unit@ && a == x && b == y,
            WindowEvent::TouchInput { phase, x, y, id } => r matches InputRecord::Touch {
                phase: p,
                x: a,
                y: b,
                id: i,
            } && p@ == phase@ && a == x && b == y && i == id,
            WindowEvent::Resized { width, height } => r matches InputRecord::Resize {
                width: w,
                height: h,
            } && w == width && h == height,
            WindowEvent::ScaleFactorChanged { scale_factor } => r matches InputRecord::ScaleFactor {
                scale_factor: f,
            } && f == scale_factor,
            WindowEvent::Other => false,
        },
{
}

/// How many of the first `n` events are written.
pub open spec fn written_before(events: Seq<WindowEvent>, n: int) -> int
    decreases n,
{
    if n <= 0 {
        0
    } else {
        written_before(events, n - 1) + (if events[n - 1] is Other {
            0int
        } else {
            1
        })
    }
}

proof fn lemma_written_look_back(events: Seq<WindowEvent>, n: int)
    requires
        0 <= n < events.len(),
    ensures
        written_before(events.drop_last(), n) == written_before(events, n),
    decreases n,
{
    if n > 0 {
        lemma_written_look_back(events, n - 1);
    }
}

proof fn lemma_written_count(events: Seq<WindowEvent>, records: Seq<InputRecord>)
    requires
        written_in_order(events, records),
    ensures
        records.len() == written_before(events, events.len() as int),
    decreases events.len(),
{
    if events.len() > 0 {
        lemma_written_look_back(events, events.len() - 1);
        if events.last() is Other {
            lemma_written_count(events.drop_last(), records);
        } else {
            lemma_written_count(events.drop_last(), records.drop_last());
        }
    }
}

/// Every event that is written has its record, in the place of its order, and there
/// are no others.
pub proof fn law_every_event_has_its_record(
    events: Seq<WindowEvent>,
    records: Seq<InputRecord>,
    i: int,
)
    requires
        written_in_order(events, records),
        0 <= i < events.len(),
        !(events[i] is Other),
    ensures
        records.len() == written_before(events, events.len() as int),
        0 <= written_before(events, i) < records.len(),
        written_as(events[i], records[written_before(events, i)]),
    decreases events.len(),
{
    let rest = events.drop_last();
    lemma_written_count(events, records);
    lemma_written_look_back(events, i);
    if i < rest.len() {
        assert(rest[i] == events[i]);
        if events.last() is Other {
            law_every_event_has_its_record(rest, records, i);
        } else {
            law_every_event_has_its_record(rest, records.drop_last(), i);
            assert(records[written_before(events, i)] == records.drop_last()[written_before(
                events,
                i,
            )]);
        }
    } else {
        lemma_written_look_back(events, i);
        lemma_written_count(rest, records.drop_last());
    }
}

/// A record is fed back with what it holds: its place, size, count and repetition as
/// they are, and the rest by the names that it holds.
pub proof fn law_records_are_fed_back_as_they_are(r: InputRecord)
    ensures
        match r {
            InputRecord::Key { key, state, repeat } => injection(r) == (match key_of(key@) {
                Some(k) => Some(
                    Injected::Key {
                        key: k,
                        state: if state@ == "released"@ {
                            ButtonState::Released
                        } else {
                            ButtonState::Pressed
                        },
                        repeat,
                    },
                ),
                None => None,
            }),
            InputRecord::KeyboardFocusLost => injection(r) == Some(Injected::KeyboardFocusLost),
            InputRecord::MouseButton { button, state } => injection(r) == (match button_of(
                button@,
            ) {
                Some(b) => Some(
                    Injected::MouseButton {
                        button: b,
                        state: if state@ == "released"@ {
                            ButtonState::Released
                        } else {
                            ButtonState::Pressed
                        },
                    },
                ),
                None => None,
            }),
            InputRecord::Cursor { x, y } => injection(r) == Some(Injected::Cursor { x, y }),
            InputRecord::CursorEntered => injection(r) == Some(Injected::CursorEntered),
            InputRecord::CursorLeft => injection(r) == Some(Injected::CursorLeft),
            InputRecord::Wheel { unit, x, y } => injection(r) == Some(
                Injected::Wheel {
                    unit: if unit@ == "Pixel"@ {
                        WheelUnit::Pixel
                    } else {
                        WheelUnit::Line
                    },
                    x,
                    y,
                },
            ),
            InputRecord::Touch { phase, x, y, id } => injection(r) == (match phase_of(phase@) {
                Some(p) => Some(Injected::Touch { phase: p, x, y, id }),
                None => None,
            }),
            InputRecord::Resize { width, height } => injection(r) == Some(
                Injected::Resize { width, height },
            ),
            InputRecord::ScaleFactor { scale_factor } => injection(r) == Some(
                Injected::ScaleFactor { scale_factor },
            ),
        },
{
}

/// Records are fed back one by one: those of two runs one after the other, and of one
/// record what becomes of it.
pub proof fn law_records_are_fed_back_in_order(a: Seq<InputRecord>, b: Seq<InputRecord>)
    ensures
        injections(a + b) == injections(a) + injections(b),
        warnings_of(a + b) == warnings_of(a) + warnings_of(b),
        b.len() == 1 ==> injections(b) == (match injection(b[0]) {
            Some(i) => seq![i],
            None => Seq::empty(),
        }),
        b.len() == 1 ==> warnings_of(b) == (match warning_of(b[0]) {
            Some(w) => seq![w],
            None => Seq::empty(),
        }),
    decreases b.len(),
{
    if b.len() == 0 {
        assert(a + b =~= a);
        assert(injections(a) + injections(b) =~= injections(a));
        assert(warnings_of(a) + warnings_of(b) =~= warnings_of(a));
    } else {
        assert((a + b).drop_last() =~= a + b.drop_last());
        assert((a + b).last() == b.last());
        law_records_are_fed_back_in_order(a, b.drop_last());
        assert(injections(a + b) =~= injections(a) + injections(b));
        assert(warnings_of(a + b) =~= warnings_of(a) + warnings_of(b));
        if b.len() == 1 {
            assert(b.drop_last() =~= Seq::empty());
            assert(b.last() == b[0]);
        }
    }
}

/// What is logged of a key or button that is not known names it in quotes.
pub proof fn law_unknown_names_are_logged(r: InputRecord)
    ensures
        match r {
            InputRecord::Key { key, .. } => if key@ == "Escape"@ || key@ == "ControlLeft"@ || key@
                == "ControlRight"@ || key@ == "F8"@ || key@ == "F10"@ {
                warning_of(r) is None
            } else {
                warning_of(r) == Some(
                    "replay: unmapped key "@ + paths::quoted(key@)
                        + " — dropping (extend decode_key)"@,
                )
            },
            InputRecord::MouseButton { button, .. } => if button@ == "Left"@ || button@ == "Right"@
                || button@ == "Middle"@ {
                warning_of(r) is None
            } else {
                warning_of(r) == Some(
                    "replay: unmapped mouse button "@ + paths::quoted(button@) + " — dropping"@,
                )
            },
            _ => warning_of(r) is None,
        },
{
}

}
