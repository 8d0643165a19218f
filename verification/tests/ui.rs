use gurukul::ieee::F32;
use gurukul::note_dial::Interaction;
use gurukul::ui::{on_scroll, update_button_colors, wheel_axes, ButtonPaint, ScrollAxis};

fn f(x: f32) -> F32 {
    F32 { bits: x.to_bits() }
}

fn axis(scrolls: bool, delta: f32, position: f32, max: f32) -> ScrollAxis {
    ScrollAxis {
        scrolls,
        delta: f(delta),
        position: f(position),
        max: f(max),
        target: f(position + delta),
    }
}

fn still() -> ScrollAxis {
    axis(false, 0.0, 0.0, 0.0)
}

#[test]
fn buttons_are_painted_by_interaction() {
    let paint = |i| update_button_colors(i, false, false);
    assert_eq!(paint(Interaction::Pressed), Some(ButtonPaint::Pressed));
    assert_eq!(paint(Interaction::Hovered), Some(ButtonPaint::Hovered));
    assert_eq!(paint(Interaction::Idle), Some(ButtonPaint::Plain));
    assert_eq!(update_button_colors(Interaction::Pressed, true, false), None);
    assert_eq!(update_button_colors(Interaction::Pressed, false, true), None);
}

#[test]
fn a_container_scrolls_within_its_content() {
    let s = on_scroll(&still(), &axis(true, 30.0, 10.0, 100.0));
    assert_eq!(s.y, Some(f(40.0)));
    assert_eq!(s.x, None);
    assert!(s.stop);
    let s = on_scroll(&still(), &axis(true, 300.0, 10.0, 100.0));
    assert_eq!(s.y, Some(f(100.0)), "held at the end");
    let s = on_scroll(&still(), &axis(true, -300.0, 10.0, 100.0));
    assert_eq!(s.y, Some(f(0.0)), "held at the start");
}

#[test]
fn at_its_end_a_container_hands_the_turn_on() {
    let s = on_scroll(&still(), &axis(true, 5.0, 100.0, 100.0));
    assert_eq!(s.y, None);
    assert!(!s.stop);
    let s = on_scroll(&still(), &axis(true, -5.0, 0.0, 100.0));
    assert_eq!(s.y, None);
    assert!(!s.stop);
    let s = on_scroll(&still(), &axis(false, 5.0, 0.0, 100.0));
    assert!(!s.stop, "not scrollable");
}

#[test]
fn content_that_fits_does_not_scroll() {
    let s = on_scroll(&still(), &axis(true, 5.0, 0.0, -20.0));
    assert_eq!(s.y, None);
    let s = on_scroll(&still(), &axis(true, -5.0, 3.0, -20.0));
    assert_eq!(s.y, Some(f(0.0)));
}

#[test]
fn a_turn_goes_on_along_the_axis_that_was_not_taken() {
    let s = on_scroll(&axis(false, 4.0, 0.0, 0.0), &axis(true, 5.0, 0.0, 100.0));
    assert_eq!(s.y, Some(f(5.0)));
    assert!(!s.stop);
}

#[test]
fn control_swaps_the_axes() {
    assert_eq!(wheel_axes(f(1.0), f(2.0), false), (f(1.0), f(2.0)));
    assert_eq!(wheel_axes(f(1.0), f(2.0), true), (f(2.0), f(1.0)));
}
