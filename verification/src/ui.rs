//! Buttons and scrolling.

use vstd::prelude::*;
use crate::ieee::F32;
use crate::note_dial::Interaction;

verus! {

/// The background of a button.
#[derive(Clone, Copy, PartialEq, Eq, Structural, Debug)]
pub enum ButtonPaint {
    Plain,
    Hovered,
    Pressed,
}

/// What a button is repainted to when the pointer moves or presses. A disabled
/// or selected button keeps its own paint.
pub fn update_button_colors(
    interaction: Interaction,
    disabled: bool,
    selected: bool,
) -> (paint: Option<ButtonPaint>)
    ensures
        paint == (if disabled || selected {
            None
        } else {
            Some(
                match interaction {
                    Interaction::Pressed => ButtonPaint::Pressed,
                    Interaction::Hovered => ButtonPaint::Hovered,
                    Interaction::Idle => ButtonPaint::Plain,
                },
            )
        }),
{
    if disabled || selected {
        return None;
    }
    match interaction {
        Interaction::Pressed => Some(ButtonPaint::Pressed),
        Interaction::Hovered => Some(ButtonPaint::Hovered),
        Interaction::Idle => Some(ButtonPaint::Plain),
    }
}

/// One axis of a container that a wheel turn arrives at.
#[derive(Clone, Copy, PartialEq, Eq, Structural, Debug)]
pub struct ScrollAxis {
    /// Whether the container scrolls along this axis.
    pub scrolls: bool,
    /// How far the wheel wants to go; positive is towards the end.
    pub delta: F32,
    /// Where the container stands.
    pub position: F32,
    /// Where it stands at its end.
    pub max: F32,
    /// The position and the delta added.
    pub target: F32,
}

/// Positive zero.
pub open spec fn zero() -> F32 {
    F32 { bits: 0 }
}

/// Where scrolling to `target` ends: held between the start and the end. A
/// container that is larger than its content has its end at its start.
pub open spec fn held(target: F32, max: F32) -> F32 {
    let end = max.greater(zero());
    if target.below(zero()) {
        zero()
    } else if end.below(target) {
        end
    } else {
        target
    }
}

impl ScrollAxis {
    /// Whether the container is already at the end that the wheel turns to.
    pub open spec fn at_end(self) -> bool {
        if zero().below(self.delta) {
            self.max.at_most(self.position)
        } else {
            self.position.at_most(zero())
        }
    }

    /// Whether the container takes the turn along this axis.
    pub open spec fn takes(self) -> bool {
        self.scrolls && !self.delta.same(zero()) && !self.at_end()
    }

    /// Whether nothing is left of the turn along this axis.
    pub open spec fn spent(self) -> bool {
        self.takes() || self.delta.same(zero())
    }

    /// The new position, where the container takes the turn.
    pub fn scroll(&self) -> (position: Option<F32>)
        ensures
            position == (if self.takes() {
                Some(held(self.target, self.max))
            } else {
                None
            }),
    {
        let start = F32 { bits: 0 };
        if !self.scrolls || self.delta.equals(start) {
            return None;
        }
        let at_end = if start.lt(self.delta) {
            self.max.le(self.position)
        } else {
            self.position.le(start)
        };
        if at_end {
            return None;
        }
        let end = self.max.max(start);
        if self.target.lt(start) {
            Some(start)
        } else if end.lt(self.target) {
            Some(end)
        } else {
            Some(self.target)
        }
    }
}

/// What a container does with a wheel turn.
#[derive(Clone, Copy, PartialEq, Eq, Structural, Debug)]
pub struct Scrolled {
    /// The new horizontal position, if it changes.
    pub x: Option<F32>,
    /// The new vertical position, if it changes.
    pub y: Option<F32>,
    /// Whether the turn stops here; otherwise the containers around this one get
    /// what is left of it.
    pub stop: bool,
}

/// A wheel turn arrives at a container: it takes what it can, and the turn goes
/// on unless nothing is left of it.
pub fn on_scroll(x: &ScrollAxis, y: &ScrollAxis) -> (scrolled: Scrolled)
    ensures
        scrolled == (Scrolled {
            x: if x.takes() {
                Some(held(x.target, x.max))
            } else {
                None
            },
            y: if y.takes() {
                Some(held(y.target, y.max))
            } else {
                None
            },
            stop: x.spent() && y.spent(),
        }),
{
    let start = F32 { bits: 0 };
    let to_x = x.scroll();
    let to_y = y.scroll();
    let stop = (to_x.is_some() || x.delta.equals(start)) && (to_y.is_some() || y.delta.equals(
        start,
    ));
    Scrolled { x: to_x, y: to_y, stop }
}

/// A wheel turn along both axes; holding control swaps them, so that an ordinary
/// wheel scrolls sideways.
pub fn wheel_axes(x: F32, y: F32, control: bool) -> (turn: (F32, F32))
    ensures
        turn == (if control {
            (y, x)
        } else {
            (x, y)
        }),
{
    if control {
        (y, x)
    } else {
        (x, y)
    }
}

/// A container that scrolls never leaves its content: a number stays between the
/// start and the end.
pub proof fn law_scrolling_stays_inside(target: F32, max: F32)
    requires
        !target.nan(),
    ensures
        zero().at_most(held(target, max)),
        held(target, max).at_most(max.greater(zero())),
{
}

/// What one container has taken, no other gets: a turn goes on along an axis only
/// where it was not taken there.
pub proof fn law_a_turn_is_taken_once(axis: ScrollAxis)
    requires
        axis.takes(),
    ensures
        axis.spent(),
        !(ScrollAxis { delta: zero(), ..axis }).takes(),
{
}

/// Scrolling goes where it wants to as far as that lies between the start and the
/// end; beyond the start it stops at zero, and beyond the end at the end.
pub proof fn law_scrolling_goes_where_it_can(target: F32, max: F32)
    ensures
        zero().bits == 0,
        target.below(F32 { bits: 0 }) ==> held(target, max) == (F32 { bits: 0 }),
        (F32 { bits: 0 }).at_most(target) && target.at_most(max) ==> held(target, max) == target,
        (F32 { bits: 0 }).at_most(max) && max.below(target) ==> held(target, max) == max,
        max.below(F32 { bits: 0 }) && (F32 { bits: 0 }).below(target) ==> held(target, max) == (
        F32 { bits: 0 }),
{
}

/// A turn forward is taken where the container scrolls and its end is not reached, a
/// turn back where its start is not; a turn by nothing is never taken and always
/// spent.
pub proof fn law_which_turns_are_taken(axis: ScrollAxis)
    ensures
        (F32 { bits: 0 }).below(axis.delta) ==> axis.takes() == (axis.scrolls
            && !axis.max.at_most(axis.position)),
        axis.delta.below(F32 { bits: 0 }) ==> axis.takes() == (axis.scrolls
            && !axis.position.at_most(F32 { bits: 0 })),
        axis.delta.same(F32 { bits: 0 }) ==> !axis.takes() && axis.spent(),
        axis.delta.nan() ==> axis.takes() == (axis.scrolls && !axis.position.at_most(
            F32 { bits: 0 },
        )),
        !axis.delta.same(F32 { bits: 0 }) ==> axis.spent() == axis.takes(),
{
}

}
