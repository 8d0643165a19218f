use gurukul::features::Features;
use gurukul::ieee::F32;
use gurukul::music::{MusicInfo, Scale, ScaleIntervals, Tuning, TuningKind};
use gurukul::note_dial::{
    apply_state, build_slots, capture_scale, captured_pitch, current_slot, hub_visual_state,
    is_capture_voiced, nearest_slot, project_needle, repaint_slots, ring_neighbours, slot_border,
    sync_hub, update_from_features, DialSlot, HubState, Interaction, Needle, NeedleStyle,
    SlotBorder,
};
use std::f32::consts::TAU;

const BILAWAL: [u32; 7] = [2, 2, 1, 2, 2, 2, 1];

fn f(x: f32) -> F32 {
    F32 { bits: x.to_bits() }
}

fn v(x: F32) -> f32 {
    f32::from_bits(x.bits)
}

fn positions(kind: TuningKind) -> Vec<f32> {
    let just: [f32; 12] = [
        1.0,
        16.0 / 15.0,
        9.0 / 8.0,
        6.0 / 5.0,
        5.0 / 4.0,
        4.0 / 3.0,
        45.0 / 32.0,
        3.0 / 2.0,
        8.0 / 5.0,
        5.0 / 3.0,
        9.0 / 5.0,
        15.0 / 8.0,
    ];
    match kind {
        TuningKind::TwelveTet => (0..12).map(|i| i as f32 / 12.0).collect(),
        TuningKind::HindustaniJust => just.iter().map(|r| r.log2()).collect(),
        TuningKind::TwentyTwoShruti => (0..22).map(|i| i as f32 / 22.0).collect(),
    }
}

/// Slot positions from Sa, which stands `shift` slots above the reference.
fn from_sa(kind: TuningKind, shift: usize) -> Vec<f32> {
    let p = positions(kind);
    let n = p.len();
    (0..n)
        .map(|i| (p[(i + shift) % n] - p[shift % n]).rem_euclid(1.0))
        .collect()
}

fn info(kind: TuningKind, sa_shift: usize, octave: i32, widths: &[u32]) -> MusicInfo {
    let rotation = (440f32.log2() + positions(kind)[sa_shift]).fract();
    MusicInfo {
        scale: Scale {
            intervals: ScaleIntervals::from_widths(&widths.to_vec()),
            tuning: Tuning {
                kind,
                shift: sa_shift,
                rotation: f(rotation),
            },
            octave,
        },
    }
}

fn slots_of(info: &MusicInfo) -> Vec<DialSlot> {
    let angles = from_sa(info.scale.tuning.kind, info.scale.tuning.shift)
        .iter()
        .map(|p| f(p * TAU))
        .collect();
    build_slots(info, &angles)
}

/// The pitch of degree `d`, as a base-2 logarithm.
fn pitch_at(scale: &Scale, d: usize) -> f32 {
    let slot = scale.intervals.degree_slots()[d] as usize;
    scale.octave as f32 + v(scale.tuning.rotation) + from_sa(scale.tuning.kind, scale.tuning.shift)[slot]
}

fn needle_angle(scale: &Scale, pitch: f32) -> f32 {
    (pitch - pitch_at(scale, 0)).rem_euclid(1.0) * TAU
}

fn check_sa_at_north() {
    let slots = slots_of(&info(TuningKind::TwelveTet, 5, 8, &BILAWAL));
    assert_eq!(slots.len(), 12);
    let north = v(slots[0].angle);
    assert!(
        north.abs() < 1e-4 || (north - TAU).abs() < 1e-4,
        "Sa at north: {north}"
    );
    assert!(slots[0].active, "Sa slot lit");
    assert!(
        (v(slots[7].angle) - 7.0 * TAU / 12.0).abs() < 1e-4,
        "Pa at 7/12"
    );
    assert!(slots[7].active, "Pa slot lit");
}

fn check_active_matches_the_degree_slots() {
    let info = info(TuningKind::TwelveTet, 5, 8, &BILAWAL);
    let slots = slots_of(&info);
    let lit = info.scale.intervals.degree_slots();
    for (i, slot) in slots.iter().enumerate() {
        assert_eq!(slot.active, lit.contains(&(i as u32)), "slot {i} active");
        assert!(slot.label.is_none(), "slot {i} label");
    }
    assert_eq!(slots.iter().filter(|s| s.active).count(), 7);
}

fn check_just_keeps_uneven_ticks() {
    let tet = slots_of(&info(TuningKind::TwelveTet, 0, 8, &BILAWAL));
    let just = slots_of(&info(TuningKind::HindustaniJust, 0, 8, &BILAWAL));
    assert!(
        (v(tet[7].angle) - v(just[7].angle)).abs() > 1e-4,
        "Just must move a tick angle off the even grid"
    );
    for i in 0..12 {
        assert_eq!(tet[i].active, just[i].active, "slot {i} active set");
    }
}

fn check_22_slots_and_7_lit() {
    let slots = slots_of(&info(
        TuningKind::TwentyTwoShruti,
        0,
        8,
        &[3, 2, 4, 4, 3, 2, 4],
    ));
    assert_eq!(slots.len(), 22);
    let lit: Vec<usize> = slots
        .iter()
        .enumerate()
        .filter(|(_, s)| s.active)
        .map(|(i, _)| i)
        .collect();
    assert_eq!(lit, vec![0, 3, 5, 9, 13, 16, 18]);
}

fn check_needle_sa_at_north() {
    let info = info(TuningKind::TwelveTet, 5, 8, &BILAWAL);
    let sa = pitch_at(&info.scale, 0);
    let needle = project_needle(Some(f(sa)), f(needle_angle(&info.scale, sa)), f(1.0)).unwrap();
    let a = v(needle.angle);
    assert!(a.abs() < 1e-3 || (a - TAU).abs() < 1e-3, "got {a}");
}

fn check_needle_on_each_swara_tick() {
    for kind in [TuningKind::TwelveTet, TuningKind::HindustaniJust] {
        let info = info(kind, 5, 8, &BILAWAL);
        let scale = info.scale;
        let slots = slots_of(&info);
        for (d, slot) in scale.intervals.degree_slots().iter().enumerate() {
            let pitch = pitch_at(&scale, d);
            let angle = f(needle_angle(&scale, pitch));
            let needle = v(project_needle(Some(f(pitch)), angle, f(1.0)).unwrap().angle);
            let slot = &slots[*slot as usize];
            assert!(slot.active, "swara slot must be lit");
            let tick = v(slot.angle);
            let near = (needle - tick).abs() < 1e-3 || (needle - tick).abs() > TAU - 1e-3;
            assert!(near, "needle {needle} vs tick {tick}");
        }
    }
}

fn check_needle_just_pa() {
    let info = info(TuningKind::HindustaniJust, 0, 8, &BILAWAL);
    let pa = pitch_at(&info.scale, 0) + (1.5_f32).log2();
    let angle = f(needle_angle(&info.scale, pa));
    let needle = v(project_needle(Some(f(pa)), angle, f(1.0)).unwrap().angle);
    let just_pa = (1.5_f32).log2().rem_euclid(1.0) * TAU;
    assert!(
        (needle - just_pa).abs() < 1e-3,
        "Just Pa needle {needle} vs {just_pa}"
    );
    let slots = slots_of(&info);
    assert!((v(slots[7].angle) - needle).abs() < 1e-3, "on the Just Pa tick");
}

#[test]
fn dial_build_slots_puts_sa_at_north() {
    check_sa_at_north();
}

#[test]
fn model_build_slots_puts_sa_at_north() {
    check_sa_at_north();
}

#[test]
fn dial_build_slots_active_matches_the_degree_slots() {
    check_active_matches_the_degree_slots();
}

#[test]
fn model_build_slots_active_matches_the_degree_slots() {
    check_active_matches_the_degree_slots();
}

#[test]
fn dial_build_slots_just_keeps_uneven_ticks() {
    check_just_keeps_uneven_ticks();
}

#[test]
fn model_build_slots_just_keeps_uneven_ticks() {
    check_just_keeps_uneven_ticks();
}

#[test]
fn dial_twenty_two_shruti_has_22_slots_and_7_lit() {
    check_22_slots_and_7_lit();
}

#[test]
fn model_twenty_two_shruti_has_22_slots_and_7_lit() {
    check_22_slots_and_7_lit();
}

#[test]
fn dial_needle_sa_lands_at_north() {
    check_needle_sa_at_north();
}

#[test]
fn model_needle_sa_lands_at_north() {
    check_needle_sa_at_north();
}

#[test]
fn dial_needle_lands_on_each_swara_tick() {
    check_needle_on_each_swara_tick();
}

#[test]
fn model_needle_lands_on_each_swara_tick() {
    check_needle_on_each_swara_tick();
}

#[test]
fn dial_needle_just_pa_lands_on_just_pa_not_12tet_g() {
    check_needle_just_pa();
}

#[test]
fn model_needle_just_pa_lands_on_just_pa_not_12tet_g() {
    check_needle_just_pa();
}

#[test]
fn project_needle_none_when_unvoiced() {
    assert!(project_needle(None, f(0.0), f(0.9)).is_none());
}

#[test]
fn project_needle_voiced_is_primary_at_pitch_angle() {
    let info = info(TuningKind::TwelveTet, 5, 8, &BILAWAL);
    let sa = pitch_at(&info.scale, 0);
    let angle = f(needle_angle(&info.scale, sa));
    let needle = project_needle(Some(f(sa)), angle, f(1.0)).expect("voiced → needle");
    assert!(matches!(needle.style, NeedleStyle::Primary));
    let a = v(needle.angle);
    assert!(
        a.abs() < 1e-3 || (a - TAU).abs() < 1e-3,
        "Sa needle at north, got {a}"
    );
    assert!((v(needle.brightness) - 1.0).abs() < 1e-6);
}

#[test]
fn hub_state_distinguishes_all_four() {
    assert_eq!(hub_visual_state(false, false, true), HubState::Hidden);
    assert_eq!(hub_visual_state(false, true, true), HubState::Hidden);
    assert_eq!(hub_visual_state(true, false, false), HubState::Disabled);
    assert_eq!(hub_visual_state(true, false, true), HubState::Enabled);
    assert_eq!(hub_visual_state(true, true, true), HubState::Pressed);
}

#[test]
fn capture_scale_keeps_mask_reroots_sa() {
    let current = info(TuningKind::TwelveTet, 0, 8, &BILAWAL).scale;
    let rerooted = Tuning {
        kind: TuningKind::TwelveTet,
        shift: 7,
        rotation: f(0.5),
    };
    let captured = capture_scale(&current, rerooted, 9);
    assert_eq!(
        captured.intervals.widths(12),
        current.intervals.widths(12),
        "tooth pattern preserved"
    );
    assert_eq!(captured.tuning, rerooted);
    assert_eq!(captured.octave, 9);
}

// ---- the current slot ----

fn angular_distance(a: f32, b: f32) -> f32 {
    let d = (a - b).abs().rem_euclid(TAU);
    d.min(TAU - d)
}

fn scale_12tet(active: [bool; 12]) -> Vec<DialSlot> {
    (0..12)
        .map(|i| DialSlot {
            angle: f(i as f32 * TAU / 12.0),
            label: None,
            active: active[i],
        })
        .collect()
}

fn with_needle(angle: f32) -> Vec<Needle> {
    vec![Needle {
        angle: f(angle),
        style: NeedleStyle::Primary,
        brightness: f(1.0),
    }]
}

/// The slot that the first needle is on.
fn slot_under(slots: &[DialSlot], needles: &[Needle]) -> Option<usize> {
    let needle = v(needles.first()?.angle).rem_euclid(TAU);
    let angles: Vec<F32> = slots.iter().map(|s| f(v(s.angle).rem_euclid(TAU))).collect();
    let distances: Vec<F32> = angles
        .iter()
        .map(|a| f(angular_distance(v(*a), needle)))
        .collect();
    let nearest = nearest_slot(&distances)?;
    let (prev, next) = ring_neighbours(&angles, nearest);
    let own = v(angles[nearest]);
    let arc = angular_distance(own, v(angles[prev])).min(angular_distance(own, v(angles[next])));
    current_slot(nearest, distances[nearest], f(arc / 6.0))
}

fn check_none_when_no_needle() {
    assert_eq!(slot_under(&scale_12tet([true; 12]), &[]), None);
}

fn check_slot_when_needle_on_slot() {
    let scale = scale_12tet([true; 12]);
    assert_eq!(slot_under(&scale, &with_needle(TAU / 4.0)), Some(3));
}

fn check_none_in_dead_zone() {
    let scale = scale_12tet([true; 12]);
    assert_eq!(slot_under(&scale, &with_needle(TAU / 24.0)), None);
}

fn check_slot_just_inside_band() {
    let scale = scale_12tet([true; 12]);
    assert_eq!(slot_under(&scale, &with_needle(TAU / 72.0 * 0.99)), Some(0));
}

fn check_none_just_outside_band() {
    let scale = scale_12tet([true; 12]);
    assert_eq!(slot_under(&scale, &with_needle(TAU / 72.0 * 1.01)), None);
}

fn check_inactive_slot_still_eligible() {
    let mut active = [true; 12];
    active[1] = false;
    let scale = scale_12tet(active);
    assert_eq!(slot_under(&scale, &with_needle(TAU / 12.0)), Some(1));
}

#[test]
fn note_dial_current_is_none_when_no_needle() {
    check_none_when_no_needle();
}

#[test]
fn systems_current_is_none_when_no_needle() {
    check_none_when_no_needle();
}

#[test]
fn note_dial_current_is_slot_when_needle_on_slot() {
    check_slot_when_needle_on_slot();
}

#[test]
fn systems_current_is_slot_when_needle_on_slot() {
    check_slot_when_needle_on_slot();
}

#[test]
fn note_dial_current_is_none_in_dead_zone_between_slots() {
    check_none_in_dead_zone();
}

#[test]
fn systems_current_is_none_in_dead_zone_between_slots() {
    check_none_in_dead_zone();
}

#[test]
fn note_dial_current_is_slot_just_inside_band() {
    check_slot_just_inside_band();
}

#[test]
fn systems_current_is_slot_just_inside_band() {
    check_slot_just_inside_band();
}

#[test]
fn note_dial_current_is_none_just_outside_band() {
    check_none_just_outside_band();
}

#[test]
fn systems_current_is_none_just_outside_band() {
    check_none_just_outside_band();
}

#[test]
fn note_dial_inactive_slot_still_eligible_for_current() {
    check_inactive_slot_still_eligible();
}

#[test]
fn systems_inactive_slot_still_eligible_for_current() {
    check_inactive_slot_still_eligible();
}

#[test]
fn the_first_of_equally_near_slots_is_nearest() {
    assert_eq!(nearest_slot(&vec![]), None);
    assert_eq!(nearest_slot(&vec![f(2.0), f(1.0), f(1.0)]), Some(1));
}

#[test]
fn neighbours_go_round_the_ring() {
    let angles = vec![f(0.0), f(2.0), f(1.0)];
    assert_eq!(ring_neighbours(&angles, 0), (1, 2));
    assert_eq!(ring_neighbours(&angles, 2), (0, 1));
    assert_eq!(ring_neighbours(&angles, 1), (2, 0));
}

// ---- glue ----

fn frame(pitch: Option<f32>, confidence: f32) -> Option<Features> {
    Some(Features {
        hop_index: 0,
        pitch: pitch.map(f),
        confidence: f(confidence),
        onset: f(0.0),
        breath: f(0.0),
        vibrato_rate: f(0.0),
        vibrato_depth: f(0.0),
        vibrato_t_ms: 0,
        t_ms: 0,
    })
}

#[test]
fn only_a_confident_pitch_is_captured() {
    assert!(is_capture_voiced(Some(f(8.0)), f(0.5)));
    assert!(!is_capture_voiced(Some(f(8.0)), f(0.49)));
    assert!(!is_capture_voiced(None, f(1.0)));
    assert_eq!(captured_pitch(&frame(Some(8.0), 0.6)), Some(f(8.0)));
    assert_eq!(captured_pitch(&frame(Some(8.0), 0.4)), None);
    assert_eq!(captured_pitch(&None), None);
}

#[test]
fn a_greyed_hub_captures_nothing() {
    let quiet = frame(Some(8.0), 0.4);
    assert_eq!(
        sync_hub(Interaction::Hovered, Interaction::Pressed, &quiet),
        HubState::Disabled
    );
    assert_eq!(captured_pitch(&quiet), None);
    let loud = frame(Some(8.0), 0.9);
    assert_eq!(
        sync_hub(Interaction::Idle, Interaction::Pressed, &loud),
        HubState::Pressed
    );
    assert_eq!(
        sync_hub(Interaction::Hovered, Interaction::Idle, &loud),
        HubState::Enabled
    );
    assert_eq!(
        sync_hub(Interaction::Idle, Interaction::Idle, &loud),
        HubState::Hidden
    );
}

#[test]
fn the_current_slot_is_bordered_by_whether_it_is_in_the_scale() {
    assert_eq!(slot_border(false, true), SlotBorder::Plain);
    assert_eq!(slot_border(true, true), SlotBorder::OnTarget);
    assert_eq!(slot_border(true, false), SlotBorder::OffScale);
}

#[test]
fn needles_follow_the_voice() {
    let mut needles = with_needle(1.0);
    update_from_features(&mut needles, &frame(None, 0.9), true, f(2.0), f(0.5));
    assert!(needles.is_empty(), "silence takes the needle away");
    update_from_features(&mut needles, &frame(Some(8.0), 0.9), true, f(2.0), f(0.5));
    assert_eq!(needles.len(), 1);
    assert_eq!(needles[0].angle, f(2.0));
    assert_eq!(needles[0].brightness, f(0.5));
}

#[test]
fn slots_are_built_for_a_new_frame_or_an_empty_dial() {
    let bilawal = info(TuningKind::TwelveTet, 5, 8, &BILAWAL);
    let angles: Vec<F32> = (0..12).map(|i| f(i as f32)).collect();
    let mut slots = vec![];
    assert!(!repaint_slots(&mut slots, &None, true, &angles));
    assert!(slots.is_empty());
    assert!(repaint_slots(&mut slots, &Some(bilawal), false, &angles));
    assert_eq!(slots, build_slots(&bilawal, &angles));
    let turned: Vec<F32> = (0..12).map(|i| f(i as f32 + 0.5)).collect();
    assert!(!repaint_slots(&mut slots, &Some(bilawal), false, &turned));
    assert_eq!(slots[0].angle, f(0.0));
    assert!(repaint_slots(&mut slots, &Some(bilawal), true, &turned));
    assert_eq!(slots[0].angle, f(0.5));
}

#[test]
fn only_the_slot_under_the_needle_has_a_border() {
    let slots = slots_of(&info(TuningKind::TwelveTet, 5, 8, &BILAWAL));
    let paints = apply_state(&slots, Some(1));
    assert_eq!(paints.len(), 12);
    assert!(paints[0].lit && paints[0].border == SlotBorder::Plain);
    assert!(!paints[1].lit && paints[1].border == SlotBorder::OffScale);
    assert_eq!(apply_state(&slots, Some(2))[2].border, SlotBorder::OnTarget);
    assert!(apply_state(&slots, None).iter().all(|p| p.border == SlotBorder::Plain));
}
