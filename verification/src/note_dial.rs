//! The note dial: which slots are lit, where the needle stands, which slot it is
//! on, and how the hub looks. North is always Sa.

use vstd::prelude::*;
use crate::features::Features;
use crate::ieee::F32;
use crate::music::{MusicInfo, Scale, Tuning};

verus! {

/// Bits of the confidence from which on a pitch can be captured as Sa: one half.
pub const CAPTURE_CONF_GATE: u32 = 0x3f00_0000;

/// One slot of the dial, at its angle from north.
#[derive(PartialEq, Eq, Debug)]
pub struct DialSlot {
    pub angle: F32,
    pub label: Option<String>,
    pub active: bool,
}

/// The two kinds of needle.
#[derive(Clone, Copy, PartialEq, Eq, Structural, Debug)]
pub enum NeedleStyle {
    Primary,
    Secondary,
}

/// A needle at its angle, with its opacity.
#[derive(Clone, Copy, PartialEq, Eq, Structural, Debug)]
pub struct Needle {
    pub angle: F32,
    pub style: NeedleStyle,
    pub brightness: F32,
}

/// How the hub looks.
#[derive(Clone, Copy, PartialEq, Eq, Structural, Debug)]
pub enum HubState {
    /// Not hovering the dial: invisible.
    Hidden,
    /// Hovering, below the confidence threshold: visible but greyed.
    Disabled,
    /// Hovering, above the threshold.
    Enabled,
    /// Hovering, above the threshold, pressed.
    Pressed,
}

/// How a slot is filled and bordered.
#[derive(Clone, Copy, PartialEq, Eq, Structural, Debug)]
pub enum SlotBorder {
    /// Not the current slot.
    Plain,
    /// Current, and in the scale.
    OnTarget,
    /// Current, and out of the scale.
    OffScale,
}

// ---- slots ---------------------------------------------------------------

/// Whether slot `i` is a degree of the scale.
pub open spec fn lit(scale: Scale, i: int) -> bool {
    exists|k: int| 0 <= k < scale.intervals.degrees().len() && scale.intervals.degrees()[k] == i
}

fn contains(slots: &Vec<u32>, i: u32) -> (yes: bool)
    ensures
        yes == exists|k: int| 0 <= k < slots@.len() && slots@[k] == i,
{
    for k in 0..slots.len()
        invariant
            forall|j: int| 0 <= j < k ==> slots@[j] != i,
    {
        if slots[k] == i {
            return true;
        }
    }
    false
}

/// The slots of the dial: one for each slot of the tuning, at the angle given
/// for it, lit where the scale has a degree. The head names no notes, so no slot
/// carries a label.
pub fn build_slots(info: &MusicInfo, angles: &Vec<F32>) -> (slots: Vec<DialSlot>)
    requires
        angles@.len() == info.scale.tuning.kind.slot_count(),
    ensures
        shows(slots@, *info, angles@),
{
    let n: u32 = info.scale.tuning.kind.slots();
    let degrees = info.scale.intervals.degree_slots();
    let mut slots: Vec<DialSlot> = Vec::new();
    for i in 0..n
        invariant
            n == info.scale.tuning.kind.slot_count(),
            angles@.len() == n,
            degrees@ == info.scale.intervals.degrees(),
            slots@.len() == i,
            forall|k: int|
                0 <= k < slots@.len() ==> {
                    &&& (#[trigger] slots@[k]).angle == angles@[k]
                    &&& slots@[k].label is None
                    &&& slots@[k].active == lit(info.scale, k)
                },
    {
        let active = contains(&degrees, i);
        assert(active == lit(info.scale, i as int));
        slots.push(DialSlot { angle: angles[i as usize], label: None, active });
    }
    slots
}

/// Whether `slots` show the scale of `info` at `angles`.
pub open spec fn shows(slots: Seq<DialSlot>, info: MusicInfo, angles: Seq<F32>) -> bool {
    &&& slots.len() == info.scale.tuning.kind.slot_count()
    &&& forall|i: int|
        0 <= i < slots.len() ==> {
            &&& (#[trigger] slots[i]).angle == angles[i]
            &&& slots[i].label is None
            &&& slots[i].active == lit(info.scale, i)
        }
}

/// Brings the slots of the dial up to date with the musical frame, and says
/// whether they were built anew: that is so where there is a frame, and either it
/// just changed or the dial has no slots yet.
pub fn repaint_slots(
    slots: &mut Vec<DialSlot>,
    info: &Option<MusicInfo>,
    changed: bool,
    angles: &Vec<F32>,
) -> (painted: bool)
    requires
        info matches Some(i) ==> angles@.len() == i.scale.tuning.kind.slot_count(),
    ensures
        painted == (info is Some && (changed || old(slots)@.len() == 0)),
        !painted ==> *final(slots) == *old(slots),
        painted ==> shows(final(slots)@, info->0, angles@),
{
    match info {
        Some(info) => {
            if !changed && slots.len() > 0 {
                return false;
            }
            *slots = build_slots(info, angles);
            true
        },
        None => false,
    }
}

/// The border of a slot: a slot that is not under the needle has a plain one.
pub open spec fn border_of(current: bool, active: bool) -> SlotBorder {
    if !current {
        SlotBorder::Plain
    } else if active {
        SlotBorder::OnTarget
    } else {
        SlotBorder::OffScale
    }
}

/// The border of a slot.
pub fn slot_border(current: bool, active: bool) -> (border: SlotBorder)
    ensures
        border == border_of(current, active),
{
    if !current {
        SlotBorder::Plain
    } else if active {
        SlotBorder::OnTarget
    } else {
        SlotBorder::OffScale
    }
}

/// How a slot is painted.
#[derive(Clone, Copy, PartialEq, Eq, Structural, Debug)]
pub struct SlotPaint {
    /// Whether its fill is that of a degree of the scale.
    pub lit: bool,
    pub border: SlotBorder,
}

/// The paint of every slot, with the needle over slot `current`.
pub fn apply_state(slots: &Vec<DialSlot>, current: Option<usize>) -> (paints: Vec<SlotPaint>)
    ensures
        paints@.len() == slots@.len(),
        forall|i: int|
            0 <= i < slots@.len() ==> (#[trigger] paints@[i]) == (SlotPaint {
                lit: slots@[i].active,
                border: border_of(current == Some(i as usize), slots@[i].active),
            }),
{
    let mut paints: Vec<SlotPaint> = Vec::new();
    for i in 0..slots.len()
        invariant
            paints@.len() == i,
            forall|k: int|
                0 <= k < i ==> (#[trigger] paints@[k]) == (SlotPaint {
                    lit: slots@[k].active,
                    border: border_of(current == Some(k as usize), slots@[k].active),
                }),
    {
        let here = match current {
            Some(c) => c == i,
            None => false,
        };
        let active = slots[i].active;
        paints.push(SlotPaint { lit: active, border: slot_border(here, active) });
    }
    paints
}

// ---- the needle ----------------------------------------------------------

/// The needle of a live hop: at `angle` with `brightness` where the hop has a
/// pitch, none where it has not.
pub fn project_needle(pitch: Option<F32>, angle: F32, brightness: F32) -> (needle: Option<Needle>)
    ensures
        needle == (if pitch is Some {
            Some(Needle { angle, style: NeedleStyle::Primary, brightness })
        } else {
            None
        }),
{
    match pitch {
        Some(_) => Some(Needle { angle, style: NeedleStyle::Primary, brightness }),
        None => None,
    }
}

/// Brings the needles of the dial up to date with a live hop, and says whether
/// they changed. Without a hop, without a musical frame or without a pitch there
/// is no needle; otherwise there is exactly the one at `angle`.
pub fn update_from_features(
    needles: &mut Vec<Needle>,
    features: &Option<Features>,
    has_info: bool,
    angle: F32,
    brightness: F32,
) -> (wrote: bool)
    ensures
        match features {
            Some(f) if has_info && f.pitch is Some => wrote && final(needles)@ == seq![
                Needle { angle, style: NeedleStyle::Primary, brightness },
            ],
            _ => final(needles)@.len() == 0 && wrote == (old(needles)@.len() > 0),
        },
{
    let needle = match features {
        Some(f) => {
            if has_info {
                project_needle(f.pitch, angle, brightness)
            } else {
                None
            }
        },
        None => None,
    };
    match needle {
        Some(needle) => {
            needles.clear();
            needles.push(needle);
            assert(needles@ =~= seq![Needle { angle, style: NeedleStyle::Primary, brightness }]);
            true
        },
        None => {
            if needles.len() > 0 {
                needles.clear();
                true
            } else {
                false
            }
        },
    }
}

// ---- the slot under the needle -------------------------------------------

/// The first of the least distances among the first `n`.
pub open spec fn least(distances: Seq<F32>, n: nat) -> int
    decreases n,
{
    if n <= 1 {
        0
    } else {
        let best = least(distances, (n - 1) as nat);
        if distances[n - 1].below(distances[best]) {
            n - 1
        } else {
            best
        }
    }
}

/// The slot that is nearest to the needle, by the distances of all slots to it;
/// of equal distances the first.
pub fn nearest_slot(distances: &Vec<F32>) -> (nearest: Option<usize>)
    ensures
        nearest is None <==> distances@.len() == 0,
        nearest matches Some(i) ==> i < distances@.len() && i as int == least(
            distances@,
            distances@.len(),
        ),
{
    if distances.len() == 0 {
        return None;
    }
    let mut best: usize = 0;
    for i in 1..distances.len()
        invariant
            best < i,
            i <= distances@.len(),
            best == least(distances@, i as nat),
    {
        if distances[i].lt(distances[best]) {
            best = i;
        }
    }
    Some(best)
}

/// Where all distances are numbers, no slot is nearer than the nearest, and none
/// before it is as near.
pub proof fn law_nearest_is_least(distances: Seq<F32>, n: nat)
    requires
        0 < n <= distances.len(),
        forall|i: int| 0 <= i < n ==> !(#[trigger] distances[i]).nan(),
    ensures
        0 <= least(distances, n) < n,
        forall|i: int|
            0 <= i < n ==> distances[least(distances, n)].at_most(#[trigger] distances[i]),
        forall|i: int|
            0 <= i < least(distances, n) ==> distances[least(distances, n)].below(
                #[trigger] distances[i],
            ),
    decreases n,
{
    if n > 1 {
        law_nearest_is_least(distances, (n - 1) as nat);
    }
}

/// Whether slot `j` comes after slot `i` going round the dial: at a greater
/// angle, or at the same one and later in the list.
pub open spec fn after(angles: Seq<F32>, i: int, j: int) -> bool {
    angles[i].rank() < angles[j].rank() || (angles[i].rank() == angles[j].rank() && i < j)
}

/// Whether `j` is the next slot after `i` going round: the first one after it,
/// or, where there is none, the first of all.
pub open spec fn is_next(angles: Seq<F32>, i: int, j: int) -> bool {
    if exists|k: int| 0 <= k < angles.len() && #[trigger] after(angles, i, k) {
        after(angles, i, j) && forall|k: int|
            0 <= k < angles.len() && #[trigger] after(angles, i, k) ==> k == j || after(
                angles,
                j,
                k,
            )
    } else {
        forall|k: int| 0 <= k < angles.len() ==> k == j || #[trigger] after(angles, j, k)
    }
}

/// Whether `j` is the slot before `i` going round: the last one before it, or,
/// where there is none, the last of all.
pub open spec fn is_previous(angles: Seq<F32>, i: int, j: int) -> bool {
    if exists|k: int| 0 <= k < angles.len() && #[trigger] after(angles, k, i) {
        after(angles, j, i) && forall|k: int|
            0 <= k < angles.len() && #[trigger] after(angles, k, i) ==> k == j || after(
                angles,
                k,
                j,
            )
    } else {
        forall|k: int| 0 <= k < angles.len() ==> k == j || #[trigger] after(angles, k, j)
    }
}

fn comes_after(angles: &Vec<F32>, i: usize, j: usize) -> (yes: bool)
    requires
        i < angles@.len(),
        j < angles@.len(),
        !angles@[i as int].nan(),
        !angles@[j as int].nan(),
    ensures
        yes == after(angles@, i as int, j as int),
{
    angles[i].lt(angles[j]) || (angles[i].equals(angles[j]) && i < j)
}

/// The slots on either side of slot `i` going round the dial.
pub fn ring_neighbours(angles: &Vec<F32>, i: usize) -> (sides: (usize, usize))
    requires
        i < angles@.len(),
        forall|k: int| 0 <= k < angles@.len() ==> !(#[trigger] angles@[k]).nan(),
    ensures
        sides.0 < angles@.len(),
        sides.1 < angles@.len(),
        is_previous(angles@, i as int, sides.0 as int),
        is_next(angles@, i as int, sides.1 as int),
{
    let n: usize = angles.len();
    let ghost a = angles@;
    let mut above: Option<usize> = None;
    let mut below: Option<usize> = None;
    let mut first: usize = 0;
    let mut last: usize = 0;
    for k in 0..n
        invariant
            a == angles@,
            n == a.len(),
            i < n,
            forall|m: int| 0 <= m < a.len() ==> !(#[trigger] a[m]).nan(),
            first < n,
            last < n,
            forall|m: int| 0 <= m < k ==> m == first || #[trigger] after(a, first as int, m),
            forall|m: int| 0 <= m < k ==> m == last || #[trigger] after(a, m, last as int),
            above is None ==> forall|m: int| 0 <= m < k ==> !#[trigger] after(a, i as int, m),
            above matches Some(j) ==> j < k && after(a, i as int, j as int) && forall|m: int|
                0 <= m < k && #[trigger] after(a, i as int, m) ==> m == j || after(a, j as int, m),
            below is None ==> forall|m: int| 0 <= m < k ==> !#[trigger] after(a, m, i as int),
            below matches Some(j) ==> j < k && after(a, j as int, i as int) && forall|m: int|
                0 <= m < k && #[trigger] after(a, m, i as int) ==> m == j || after(a, m, j as int),
    {
        let ghost (f, l) = (first as int, last as int);
        if comes_after(angles, k, first) {
            first = k;
        }
        if comes_after(angles, last, k) {
            last = k;
        }
        assert forall|m: int| 0 <= m < k + 1 implies m == first || #[trigger] after(
            a,
            first as int,
            m,
        ) by {
            assert(m < k ==> m == f || after(a, f, m));
        }
        assert forall|m: int| 0 <= m < k + 1 implies m == last || #[trigger] after(
            a,
            m,
            last as int,
        ) by {
            assert(m < k ==> m == l || after(a, m, l));
        }
        if comes_after(angles, i, k) {
            match above {
                None => {
                    above = Some(k);
                },
                Some(j) => {
                    if comes_after(angles, k, j) {
                        above = Some(k);
                    }
                },
            }
        }
        if comes_after(angles, k, i) {
            match below {
                None => {
                    below = Some(k);
                },
                Some(j) => {
                    if comes_after(angles, j, k) {
                        below = Some(k);
                    }
                },
            }
        }
    }
    let previous: usize = match below {
        Some(j) => j,
        None => last,
    };
    let next: usize = match above {
        Some(j) => j,
        None => first,
    };
    (previous, next)
}

/// The slot that the needle is on: the nearest one, where it lies within `band`
/// of it, and none in the dead band between slots.
pub fn current_slot(nearest: usize, distance: F32, band: F32) -> (current: Option<usize>)
    ensures
        current == (if distance.at_most(band) {
            Some(nearest)
        } else {
            None
        }),
{
    if distance.le(band) {
        Some(nearest)
    } else {
        None
    }
}

// ---- the hub -------------------------------------------------------------

/// Whether a hop is voiced strongly enough to capture Sa.
pub open spec fn capturable(pitch: Option<F32>, confidence: F32) -> bool {
    pitch is Some && (F32 { bits: CAPTURE_CONF_GATE }).at_most(confidence)
}

/// Whether a hop is voiced strongly enough to capture Sa.
pub fn is_capture_voiced(pitch: Option<F32>, confidence: F32) -> (yes: bool)
    ensures
        yes == capturable(pitch, confidence),
{
    pitch.is_some() && (F32 { bits: CAPTURE_CONF_GATE }).le(confidence)
}

/// The pitch that a press on the hub captures, if any.
pub fn captured_pitch(features: &Option<Features>) -> (pitch: Option<F32>)
    ensures
        pitch == (match features {
            Some(f) if capturable(f.pitch, f.confidence) => f.pitch,
            _ => None,
        }),
{
    match features {
        Some(f) => {
            if is_capture_voiced(f.pitch, f.confidence) {
                f.pitch
            } else {
                None
            }
        },
        None => None,
    }
}

/// The scale after Sa was captured: the tooth pattern stays, Sa moves to the
/// slot and the octave that the pitch resolved to.
pub fn capture_scale(current: &Scale, rerooted: Tuning, octave: i32) -> (scale: Scale)
    ensures
        scale == (Scale { intervals: current.intervals, tuning: rerooted, octave }),
{
    Scale { intervals: current.intervals, tuning: rerooted, octave }
}

/// The look of the hub.
pub open spec fn hub_look(dial_hovered: bool, hub_pressed: bool, voiced: bool) -> HubState {
    if !dial_hovered {
        HubState::Hidden
    } else if !voiced {
        HubState::Disabled
    } else if hub_pressed {
        HubState::Pressed
    } else {
        HubState::Enabled
    }
}

/// The look of the hub, from hovering, pressing and the live pitch.
pub fn hub_visual_state(dial_hovered: bool, hub_pressed: bool, voiced: bool) -> (state: HubState)
    ensures
        state == hub_look(dial_hovered, hub_pressed, voiced),
{
    if !dial_hovered {
        HubState::Hidden
    } else if !voiced {
        HubState::Disabled
    } else if hub_pressed {
        HubState::Pressed
    } else {
        HubState::Enabled
    }
}

/// How a pointer interacts with a button.
#[derive(Clone, Copy, PartialEq, Eq, Structural, Debug)]
pub enum Interaction {
    Pressed,
    Hovered,
    Idle,
}

/// The look of the hub, from how the pointer interacts with the dial and with
/// the hub. The hub covers the dial's own hover, so hovering either counts.
pub fn sync_hub(dial: Interaction, hub: Interaction, features: &Option<Features>) -> (state:
    HubState)
    ensures
        state == hub_look(
            !(dial is Idle) || !(hub is Idle),
            hub is Pressed,
            features matches Some(f) && capturable(f.pitch, f.confidence),
        ),
{
    let hovered = dial != Interaction::Idle || hub != Interaction::Idle;
    let voiced = match features {
        Some(f) => is_capture_voiced(f.pitch, f.confidence),
        None => false,
    };
    hub_visual_state(hovered, hub == Interaction::Pressed, voiced)
}

/// A press on the hub captures Sa exactly where the hub does not look hidden or
/// greyed to a hovering pointer.
pub proof fn law_greyed_hub_captures_nothing(features: Option<Features>, pressed: bool)
    ensures
        (hub_look(
            true,
            pressed,
            features matches Some(f) && capturable(f.pitch, f.confidence),
        ) is Disabled) <==> !(features matches Some(f) && capturable(f.pitch, f.confidence)),
{
}

/// A slot is lit exactly where the bit of the same place is set in the scale's mask.
pub proof fn law_lit_slots_are_the_degrees(scale: Scale, i: u32)
    ensures
        lit(scale, i as int) <==> i < 32 && scale.intervals.mask & (1u32 << i) != 0,
        !lit(scale, -1 - i),
{
    crate::music::law_degrees_are_the_set_bits(scale.intervals, i);
    let d = scale.intervals.degrees();
    if lit(scale, i as int) {
        let k = choose|k: int| 0 <= k < d.len() && d[k] == i as int;
        assert(d.contains(d[k]));
        assert(d[k] == i);
    }
    if d.contains(i) {
        let k = choose|k: int| 0 <= k < d.len() && d[k] == i;
        assert(d[k] == i as int);
    }
}

/// A dial that shows a scale has as many slots as the tuning, and each stands at its
/// own angle, carries no label and is lit where the scale has a degree.
pub proof fn law_dials_show_every_slot(
    slots: Seq<DialSlot>,
    info: MusicInfo,
    angles: Seq<F32>,
    i: int,
)
    requires
        shows(slots, info, angles),
        0 <= i < slots.len(),
    ensures
        slots.len() == info.scale.tuning.kind.slot_count(),
        slots[i].angle == angles[i],
        slots[i].label is None,
        slots[i].active == lit(info.scale, i),
{
}

/// Only the slot under the needle has a border, and it tells whether the slot is in
/// the scale.
pub proof fn law_borders(current: bool, active: bool)
    ensures
        (border_of(current, active) is Plain) <==> !current,
        (border_of(current, active) is OnTarget) <==> current && active,
        (border_of(current, active) is OffScale) <==> current && !active,
{
}

/// A distance that is no number is never nearer than what stands before it, and where
/// the first is none no later one takes its place.
pub proof fn law_no_number_is_not_nearer(distances: Seq<F32>, n: nat)
    requires
        0 < n <= distances.len(),
    ensures
        0 <= least(distances, n) < n,
        least(distances, 1) == 0,
        n > 1 && distances[n - 1].nan() ==> least(distances, n) == least(
            distances,
            (n - 1) as nat,
        ),
        distances[0].nan() ==> least(distances, n) == 0,
    decreases n,
{
    if n > 1 {
        law_no_number_is_not_nearer(distances, (n - 1) as nat);
    }
}

/// Going round the dial orders the slots by their angles, and those at one angle by
/// their place in the list.
pub proof fn law_slots_go_round_by_angle(angles: Seq<F32>, i: int, j: int)
    requires
        0 <= i < angles.len(),
        0 <= j < angles.len(),
        !angles[i].nan(),
        !angles[j].nan(),
    ensures
        angles[i].below(angles[j]) ==> after(angles, i, j) && !after(angles, j, i),
        angles[i].same(angles[j]) && i < j ==> after(angles, i, j) && !after(angles, j, i),
        !after(angles, i, i),
        i != j ==> after(angles, i, j) != after(angles, j, i),
{
}

/// Between a slot and the next one there is no other; the last slot is followed by
/// the first, after which all others come.
pub proof fn law_next_slot_is_adjacent(angles: Seq<F32>, i: int, j: int, k: int)
    requires
        0 <= i < angles.len(),
        0 <= j < angles.len(),
        0 <= k < angles.len(),
        is_next(angles, i, j),
    ensures
        !(after(angles, i, k) && after(angles, k, j)),
        after(angles, i, k) ==> after(angles, i, j),
        !after(angles, i, j) && k != j ==> after(angles, j, k),
{
    if exists|m: int| 0 <= m < angles.len() && #[trigger] after(angles, i, m) {
        if after(angles, i, k) {
            assert(k == j || after(angles, j, k));
        }
    } else {
        assert(!after(angles, i, k));
        assert(k == j || after(angles, j, k));
    }
}

/// The slot before the next one is the slot itself, and the other way round.
pub proof fn law_neighbours_are_mutual(angles: Seq<F32>, i: int, j: int)
    requires
        0 <= i < angles.len(),
        0 <= j < angles.len(),
    ensures
        is_next(angles, i, j) <==> is_previous(angles, j, i),
{
    if is_next(angles, i, j) {
        if exists|m: int| 0 <= m < angles.len() && #[trigger] after(angles, i, m) {
            assert(after(angles, i, j));
            assert forall|k: int|
                0 <= k < angles.len() && #[trigger] after(angles, k, j) implies k == i || after(
                angles,
                k,
                i,
            ) by {
                if after(angles, i, k) {
                    assert(k == j || after(angles, j, k));
                }
            }
        } else {
            assert forall|k: int| 0 <= k < angles.len() && k != i implies #[trigger] after(
                angles,
                k,
                i,
            ) by {
                assert(!after(angles, i, k));
            }
            assert forall|k: int| 0 <= k < angles.len() implies !#[trigger] after(angles, k, j) by {
                assert(k == j || after(angles, j, k));
            }
        }
    }
    if is_previous(angles, j, i) {
        if exists|m: int| 0 <= m < angles.len() && #[trigger] after(angles, m, j) {
            assert(after(angles, i, j));
            assert forall|k: int|
                0 <= k < angles.len() && #[trigger] after(angles, i, k) implies k == j || after(
                angles,
                j,
                k,
            ) by {
                if after(angles, k, j) {
                    assert(k == i || after(angles, k, i));
                }
            }
        } else {
            assert forall|k: int| 0 <= k < angles.len() && k != j implies #[trigger] after(
                angles,
                j,
                k,
            ) by {
                assert(!after(angles, k, j));
            }
            assert forall|k: int| 0 <= k < angles.len() implies !#[trigger] after(angles, i, k) by {
                assert(k == i || after(angles, k, i));
            }
        }
    }
}

/// A hop can be captured exactly where it has a pitch and its confidence is one half
/// or more.
pub proof fn law_confident_hops_are_captured(pitch: Option<F32>, confidence: F32)
    ensures
        capturable(pitch, confidence) <==> pitch is Some && 0x3f00_0000 <= confidence.bits
            <= 0x7f80_0000,
{
}

/// How the hub looks: hidden away from the dial, greyed without a pitch to capture,
/// else pressed or not.
pub proof fn law_hub_looks(hovered: bool, pressed: bool, voiced: bool)
    ensures
        (hub_look(hovered, pressed, voiced) is Hidden) <==> !hovered,
        (hub_look(hovered, pressed, voiced) is Disabled) <==> hovered && !voiced,
        (hub_look(hovered, pressed, voiced) is Pressed) <==> hovered && voiced && pressed,
        (hub_look(hovered, pressed, voiced) is Enabled) <==> hovered && voiced && !pressed,
{
}

}
