//! The musical frame of reference: tunings by their slots, scales as tooth
//! patterns on those slots, and the rows in which they are shown.

use vstd::prelude::*;
use vstd::string::StringExecFns;
use crate::ieee::F32;
use crate::text;

verus! {

/// How the slots of the octave circle are laid out.
#[derive(Clone, Copy, PartialEq, Eq, Structural, Debug)]
pub enum TuningKind {
    TwelveTet,
    HindustaniJust,
    TwentyTwoShruti,
}

impl TuningKind {
    /// How many slots the octave has.
    pub open spec fn slot_count(self) -> u32 {
        match self {
            TuningKind::TwelveTet => 12,
            TuningKind::HindustaniJust => 12,
            TuningKind::TwentyTwoShruti => 22,
        }
    }

    /// How many slots the octave has.
    pub fn slots(self) -> (n: u32)
        ensures
            n == self.slot_count(),
    {
        match self {
            TuningKind::TwelveTet => 12,
            TuningKind::HindustaniJust => 12,
            TuningKind::TwentyTwoShruti => 22,
        }
    }
}

/// A tuning placed on the octave circle: its layout, how many slots it is
/// re-based above the reference line, and the rotation that this comes to, as a
/// base-2 logarithm.
#[derive(Clone, Copy, PartialEq, Eq, Structural, Debug)]
pub struct Tuning {
    pub kind: TuningKind,
    pub shift: usize,
    pub rotation: F32,
}

/// The tooth pattern of a scale: the slots that are degrees, as the set bits of
/// a mask. Slot 0 is Sa.
#[derive(Clone, Copy, PartialEq, Eq, Structural, Debug)]
pub struct ScaleIntervals {
    pub mask: u32,
}

/// A scale in its place: tooth pattern, tuning with Sa on slot 0, and the octave
/// that Sa stands in.
#[derive(Clone, Copy, PartialEq, Eq, Structural, Debug)]
pub struct Scale {
    pub intervals: ScaleIntervals,
    pub tuning: Tuning,
    pub octave: i32,
}

/// What the coach publishes about the musical frame.
#[derive(Clone, Copy, PartialEq, Eq, Structural, Debug)]
pub struct MusicInfo {
    pub scale: Scale,
}

/// Whether slot `i` of a mask is set.
pub open spec fn has_slot(mask: u32, i: u32) -> bool {
    (mask >> i) & 1 == 1
}

/// The set slots below `n`, ascending.
pub open spec fn slots_below(mask: u32, n: nat) -> Seq<u32>
    decreases n,
{
    if n == 0 {
        Seq::empty()
    } else {
        let before = slots_below(mask, (n - 1) as nat);
        if has_slot(mask, (n - 1) as u32) {
            before.push((n - 1) as u32)
        } else {
            before
        }
    }
}

/// The gaps between successive degrees; the last one closes the octave of `n`
/// slots.
pub open spec fn gaps(slots: Seq<u32>, n: int) -> Seq<int> {
    Seq::new(
        slots.len(),
        |i: int|
            if i + 1 < slots.len() {
                slots[i + 1] - slots[i]
            } else {
                n + slots[0] - slots[i]
            },
    )
}

/// The sum of the first `k` widths.
pub open spec fn reach(widths: Seq<u32>, k: nat) -> int
    decreases k,
{
    if k == 0 {
        0
    } else {
        reach(widths, (k - 1) as nat) + widths[k - 1]
    }
}

/// Whether the widths are teeth that fit into the mask: none is empty, and the
/// last degree stands below 32.
pub open spec fn fits(widths: Seq<u32>) -> bool {
    &&& forall|i: int| 0 <= i < widths.len() ==> #[trigger] widths[i] > 0
    &&& widths.len() > 0 ==> reach(widths, (widths.len() - 1) as nat) < 32
}

/// The degrees that the widths give: Sa, and one at each width above the last.
pub open spec fn degrees_of(widths: Seq<u32>) -> Seq<u32> {
    Seq::new(widths.len(), |i: int| reach(widths, i as nat) as u32)
}

impl ScaleIntervals {
    /// The degrees, as slots from Sa, ascending.
    pub open spec fn degrees(self) -> Seq<u32> {
        slots_below(self.mask, 32)
    }

    /// The pattern of a mask.
    pub fn from_mask(mask: u32) -> (s: Self)
        ensures
            s.mask == mask,
    {
        ScaleIntervals { mask }
    }

    /// The pattern of teeth that are `widths` slots wide, from Sa upward. The
    /// last width only closes the octave.
    pub fn from_widths(widths: &Vec<u32>) -> (s: Self)
        requires
            fits(widths@),
        ensures
            s.degrees() == degrees_of(widths@),
    {
        let mut mask: u32 = 0;
        let mut at: u32 = 0;
        let ghost w = widths@;
        proof {
            lemma_no_slots(32);
        }
        assert(slots_below(0, 32) =~= degrees_of(w.take(0)));
        for i in 0..widths.len()
            invariant
                w == widths@,
                fits(w),
                i < w.len() ==> at == reach(w, i as nat) && at < 32,
                slots_below(mask, 32) == degrees_of(w).take(i as int),
                forall|b: u32| i < w.len() && at <= b < 32 ==> !#[trigger] has_slot(mask, b),
        {
            proof {
                lemma_set_slot(mask, at);
                lemma_add_top_slot(mask, mask | (1u32 << at), at, 32);
                assert(degrees_of(w)[i as int] == at);
                assert(degrees_of(w).take(i + 1) =~= degrees_of(w).take(i as int).push(at));
            }
            let ghost before = mask;
            let ghost was = at;
            mask = mask | (1u32 << at);
            if i + 1 < widths.len() {
                proof {
                    lemma_reach_grows(w, (i + 1) as nat, (w.len() - 1) as nat);
                }
                at = at + widths[i];
                assert forall|b: u32| at <= b < 32 implies !#[trigger] has_slot(mask, b) by {
                    assert(has_slot(mask, b) == has_slot(before, b));
                }
            }
        }
        assert(degrees_of(w).take(w.len() as int) =~= degrees_of(w));
        ScaleIntervals { mask }
    }

    /// The degrees, as slots from Sa, ascending.
    pub fn degree_slots(&self) -> (slots: Vec<u32>)
        ensures
            slots@ == self.degrees(),
    {
        let mut slots: Vec<u32> = Vec::new();
        for i in 0u32..32
            invariant
                slots@ == slots_below(self.mask, i as nat),
        {
            if (self.mask >> i) & 1 == 1 {
                slots.push(i);
            }
        }
        slots
    }

    /// The tooth widths on an octave of `n` slots: the gaps between successive
    /// degrees, the last one closing the octave.
    pub fn widths(&self, n: u32) -> (widths: Vec<u32>)
        requires
            forall|i: int| 0 <= i < self.degrees().len() ==> #[trigger] self.degrees()[i] < n,
        ensures
            widths@.len() == self.degrees().len(),
            forall|i: int|
                0 <= i < widths@.len() ==> #[trigger] widths@[i] == gaps(self.degrees(), n as int)[i],
    {
        let slots = self.degree_slots();
        let mut widths: Vec<u32> = Vec::new();
        proof {
            lemma_slots_ascend(self.mask, 32);
        }
        for i in 0..slots.len()
            invariant
                slots@ == self.degrees(),
                widths@.len() == i,
                forall|k: int| 0 <= k < slots@.len() ==> #[trigger] slots@[k] < n,
                forall|a: int, b: int| 0 <= a < b < slots@.len() ==> slots@[a] < slots@[b],
                forall|k: int|
                    0 <= k < i ==> #[trigger] widths@[k] == gaps(slots@, n as int)[k],
        {
            if i + 1 < slots.len() {
                assert(slots@[i as int] < slots@[i + 1]);
                widths.push(slots[i + 1] - slots[i]);
            } else {
                assert(slots@[0] <= slots@[i as int]);
                widths.push(n - (slots[i] - slots[0]));
            }
        }
        widths
    }
}

// ---- the mask ------------------------------------------------------------

proof fn lemma_set_slot(mask: u32, at: u32)
    requires
        at < 32,
    ensures
        has_slot(mask | (1u32 << at), at),
        forall|b: u32| b < 32 && b != at ==> #[trigger] has_slot(mask | (1u32 << at), b) == has_slot(mask, b),
{
    assert(((mask | (1u32 << at)) >> at) & 1 == 1) by (bit_vector)
        requires
            at < 32,
    ;
    assert forall|b: u32| b < 32 && b != at implies #[trigger] has_slot(mask | (1u32 << at), b)
        == has_slot(mask, b) by {
        assert(((mask | (1u32 << at)) >> b) & 1 == (mask >> b) & 1) by (bit_vector)
            requires
                at < 32,
                b < 32,
                b != at,
        ;
    }
}

proof fn lemma_no_slots(n: nat)
    requires
        n <= 32,
    ensures
        slots_below(0, n) == Seq::<u32>::empty(),
        forall|b: u32| b < 32 ==> !#[trigger] has_slot(0, b),
    decreases n,
{
    assert forall|b: u32| b < 32 implies !#[trigger] has_slot(0, b) by {
        assert((0u32 >> b) & 1 == 0) by (bit_vector)
            requires
                b < 32,
        ;
    }
    if n > 0 {
        lemma_no_slots((n - 1) as nat);
    }
}

/// Setting a slot above all others appends it.
proof fn lemma_add_top_slot(mask: u32, more: u32, at: u32, n: nat)
    requires
        at < n <= 32,
        has_slot(more, at),
        forall|b: u32| b < 32 && b != at ==> #[trigger] has_slot(more, b) == has_slot(mask, b),
        forall|b: u32| at <= b < 32 ==> !#[trigger] has_slot(mask, b),
    ensures
        slots_below(more, n) == slots_below(mask, n).push(at),
    decreases n,
{
    let top = (n - 1) as u32;
    if top == at {
        lemma_same_slots(mask, more, at, (n - 1) as nat);
        assert(!has_slot(mask, top));
    } else {
        lemma_add_top_slot(mask, more, at, (n - 1) as nat);
        assert(!has_slot(mask, top));
        assert(!has_slot(more, top));
    }
}

proof fn lemma_same_slots(mask: u32, more: u32, at: u32, n: nat)
    requires
        n <= at < 32,
        forall|b: u32| b < 32 && b != at ==> #[trigger] has_slot(more, b) == has_slot(mask, b),
    ensures
        slots_below(more, n) == slots_below(mask, n),
    decreases n,
{
    if n > 0 {
        lemma_same_slots(mask, more, at, (n - 1) as nat);
        assert(has_slot(more, (n - 1) as u32) == has_slot(mask, (n - 1) as u32));
    }
}

/// The degrees ascend, and stand below the bound.
proof fn lemma_slots_ascend(mask: u32, n: nat)
    requires
        n <= 32,
    ensures
        forall|i: int| 0 <= i < slots_below(mask, n).len() ==> #[trigger] slots_below(mask, n)[i] < n,
        forall|i: int, j: int|
            0 <= i < j < slots_below(mask, n).len() ==> slots_below(mask, n)[i] < slots_below(
                mask,
                n,
            )[j],
    decreases n,
{
    if n > 0 {
        let before = slots_below(mask, (n - 1) as nat);
        let now = slots_below(mask, n);
        lemma_slots_ascend(mask, (n - 1) as nat);
        assert forall|i: int| 0 <= i < now.len() implies #[trigger] now[i] < n by {
            if i < before.len() {
                assert(now[i] == before[i]);
            }
        }
        assert forall|i: int, j: int| 0 <= i < j < now.len() implies now[i] < now[j] by {
            assert(now[i] == before[i]);
            if j < before.len() {
                assert(now[j] == before[j]);
            }
        }
    }
}

proof fn lemma_reach_grows(widths: Seq<u32>, a: nat, b: nat)
    requires
        a <= b <= widths.len(),
    ensures
        reach(widths, a) <= reach(widths, b),
    decreases b,
{
    if a < b {
        lemma_reach_grows(widths, a, (b - 1) as nat);
    }
}

// ---- laws ----------------------------------------------------------------

/// A pattern made of tooth widths shows the same widths on an octave that they
/// fill.
pub proof fn law_widths_round_trip(widths: Seq<u32>, n: int)
    requires
        fits(widths),
        widths.len() > 0,
        reach(widths, widths.len()) == n,
    ensures
        gaps(degrees_of(widths), n).len() == widths.len(),
        forall|i: int|
            0 <= i < widths.len() ==> #[trigger] gaps(degrees_of(widths), n)[i] == widths[i],
{
    let d = degrees_of(widths);
    assert forall|i: int| 0 <= i < widths.len() implies #[trigger] gaps(d, n)[i] == widths[i] by {
        lemma_reach_grows(widths, 0, i as nat);
        lemma_reach_grows(widths, i as nat, (widths.len() - 1) as nat);
        assert(reach(widths, (i + 1) as nat) == reach(widths, i as nat) + widths[i]);
        if i + 1 < widths.len() {
            lemma_reach_grows(widths, (i + 1) as nat, (widths.len() - 1) as nat);
            assert(d[i + 1] == reach(widths, (i + 1) as nat));
        }
        assert(d[0] == 0);
        assert(d[i] == reach(widths, i as nat));
    }
}

/// The tooth widths close the octave: they sum up to its slots.
pub proof fn law_widths_close_the_octave(slots: Seq<u32>, n: int)
    requires
        slots.len() > 0,
    ensures
        sum_of(gaps(slots, n), slots.len()) == n,
{
    lemma_gap_sum(slots, n, (slots.len() - 1) as nat);
}

/// The sum of the first `k` numbers.
pub open spec fn sum_of(s: Seq<int>, k: nat) -> int
    decreases k,
{
    if k == 0 {
        0
    } else {
        sum_of(s, (k - 1) as nat) + s[k - 1]
    }
}

proof fn lemma_gap_sum(slots: Seq<u32>, n: int, k: nat)
    requires
        k < slots.len(),
    ensures
        sum_of(gaps(slots, n), k) == slots[k as int] - slots[0],
    decreases k,
{
    if k > 0 {
        lemma_gap_sum(slots, n, (k - 1) as nat);
    }
}

// ---- rows ----------------------------------------------------------------

/// The numerals of the widths.
pub open spec fn numerals(widths: Seq<int>) -> Seq<Seq<char>> {
    widths.map_values(|w: int| text::decimal(w as nat))
}

/// The label of a shape: its tooth widths, with spaces in between.
pub open spec fn label_of(shape: ScaleIntervals, n: u32) -> Seq<char> {
    text::joined(numerals(gaps(shape.degrees(), n as int)), " "@)
}

/// Whether all degrees of a shape are slots of an octave of `n`.
pub open spec fn on_grid(shape: ScaleIntervals, n: u32) -> bool {
    forall|i: int| 0 <= i < shape.degrees().len() ==> #[trigger] shape.degrees()[i] < n
}

/// Whether all degrees of a shape are slots of an octave of `n`.
pub fn is_on_grid(shape: ScaleIntervals, n: u32) -> (yes: bool)
    ensures
        yes == on_grid(shape, n),
{
    let slots = shape.degree_slots();
    for i in 0..slots.len()
        invariant
            slots@ == shape.degrees(),
            forall|k: int| 0 <= k < i ==> #[trigger] slots@[k] < n,
    {
        if slots[i] >= n {
            return false;
        }
    }
    true
}

/// The label of a shape on an octave of `n` slots: `2 2 1 2 2 2 1` for Bilawal.
pub fn shape_label(shape: ScaleIntervals, n: u32) -> (label: String)
    requires
        on_grid(shape, n),
    ensures
        label@ == label_of(shape, n),
{
    let widths = shape.widths(n);
    let mut words: Vec<String> = Vec::new();
    let ghost all = numerals(gaps(shape.degrees(), n as int));
    for i in 0..widths.len()
        invariant
            widths@.len() == shape.degrees().len(),
            forall|k: int|
                0 <= k < widths@.len() ==> #[trigger] widths@[k] == gaps(shape.degrees(), n as int)[k],
            all == numerals(gaps(shape.degrees(), n as int)),
            text::contents(words@) == all.take(i as int),
    {
        let ghost before = words@;
        let mut word = String::new();
        text::push_decimal(&mut word, widths[i] as u64);
        words.push(word);
        proof {
            assert(all[i as int] == text::decimal(widths@[i as int] as nat));
            assert(text::contents(words@) =~= text::contents(before).push(word@));
            assert(all.take(i + 1) =~= all.take(i as int).push(all[i as int]));
        }
    }
    assert(all.take(all.len() as int) =~= all);
    text::join(&words, " ")
}

/// One picker row: a display label. Its position selects the shape of the same
/// position in the catalogue.
#[derive(PartialEq, Eq, Debug)]
pub struct PickerRow {
    pub label: String,
}

/// Labels for every shape of the catalogue, in catalogue order.
pub fn row_labels(scales: &Vec<ScaleIntervals>, n: u32) -> (labels: Vec<String>)
    requires
        forall|i: int| 0 <= i < scales@.len() ==> on_grid(#[trigger] scales@[i], n),
    ensures
        labels@.len() == scales@.len(),
        forall|i: int|
            0 <= i < labels@.len() ==> (#[trigger] labels@[i])@ == label_of(scales@[i], n),
{
    let mut labels: Vec<String> = Vec::new();
    for i in 0..scales.len()
        invariant
            forall|k: int| 0 <= k < scales@.len() ==> on_grid(#[trigger] scales@[k], n),
            labels@.len() == i,
            forall|k: int|
                0 <= k < labels@.len() ==> (#[trigger] labels@[k])@ == label_of(scales@[k], n),
    {
        labels.push(shape_label(scales[i], n));
    }
    labels
}

/// The rows of the picker, in catalogue order.
pub fn picker_rows(scales: &Vec<ScaleIntervals>, n: u32) -> (rows: Vec<PickerRow>)
    requires
        forall|i: int| 0 <= i < scales@.len() ==> on_grid(#[trigger] scales@[i], n),
    ensures
        rows@.len() == scales@.len(),
        forall|i: int|
            0 <= i < rows@.len() ==> (#[trigger] rows@[i]).label@ == label_of(scales@[i], n),
{
    let mut rows: Vec<PickerRow> = Vec::new();
    for i in 0..scales.len()
        invariant
            forall|k: int| 0 <= k < scales@.len() ==> on_grid(#[trigger] scales@[k], n),
            rows@.len() == i,
            forall|k: int|
                0 <= k < rows@.len() ==> (#[trigger] rows@[k]).label@ == label_of(scales@[k], n),
    {
        rows.push(PickerRow { label: shape_label(scales[i], n) });
    }
    rows
}

/// The scale after a shape was picked: the tooth pattern is swapped, Sa and its
/// octave stay.
pub fn select_scale(current: &Scale, intervals: ScaleIntervals) -> (scale: Scale)
    ensures
        scale == (Scale { intervals, tuning: current.tuning, octave: current.octave }),
{
    Scale { intervals, tuning: current.tuning, octave: current.octave }
}

/// The math-view row of the head-up display: `int` and the tooth widths.
pub fn int_row(info: &MusicInfo) -> (row: String)
    requires
        on_grid(info.scale.intervals, info.scale.tuning.kind.slot_count()),
    ensures
        row@ == "int "@ + label_of(
            info.scale.intervals,
            info.scale.tuning.kind.slot_count(),
        ),
{
    let mut row = String::new();
    row.append("int ");
    let label = shape_label(info.scale.intervals, info.scale.tuning.kind.slots());
    row.append(label.as_str());
    row
}

/// The row shown for a snapshot; before the first session there is an honest
/// placeholder.
pub fn hud_row(info: &Option<MusicInfo>) -> (row: String)
    requires
        info matches Some(i) ==> on_grid(i.scale.intervals, i.scale.tuning.kind.slot_count()),
    ensures
        match info {
            Some(i) => row@ == "int "@ + label_of(
                i.scale.intervals,
                i.scale.tuning.kind.slot_count(),
            ),
            None => row@ == "int —"@,
        },
{
    match info {
        Some(info) => int_row(info),
        None => {
            let mut row = String::new();
            row.append("int —");
            row
        },
    }
}

// ---- what degrees and labels stand for -----------------------------------

/// The octave has twelve slots, or twenty-two where it is divided into shrutis.
pub proof fn law_slots_of_the_octave(kind: TuningKind)
    ensures
        kind.slot_count() == (if kind is TwentyTwoShruti {
            22u32
        } else {
            12
        }),
{
}

proof fn lemma_slots_below_hold_the_bits(mask: u32, n: nat, i: u32)
    requires
        n <= 32,
    ensures
        slots_below(mask, n).contains(i) <==> i < n && has_slot(mask, i),
    decreases n,
{
    if n > 0 {
        let before = slots_below(mask, (n - 1) as nat);
        let now = slots_below(mask, n);
        let top = (n - 1) as u32;
        lemma_slots_below_hold_the_bits(mask, (n - 1) as nat, i);
        if before.contains(i) {
            let k = choose|k: int| 0 <= k < before.len() && before[k] == i;
            assert(now[k] == i);
        }
        if has_slot(mask, top) && i == top {
            assert(now[before.len() as int] == i);
        }
        if now.contains(i) {
            let k = choose|k: int| 0 <= k < now.len() && now[k] == i;
            if k < before.len() {
                assert(before[k] == i);
            }
        }
    }
}

/// The degrees of a pattern are the places of the set bits of its mask, each once and
/// in ascending order.
pub proof fn law_degrees_are_the_set_bits(shape: ScaleIntervals, i: u32)
    ensures
        shape.degrees().contains(i) <==> i < 32 && shape.mask & (1u32 << i) != 0,
        forall|a: int, b: int|
            0 <= a < b < shape.degrees().len() ==> shape.degrees()[a] < shape.degrees()[b],
{
    lemma_slots_below_hold_the_bits(shape.mask, 32, i);
    lemma_slots_ascend(shape.mask, 32);
    let mask = shape.mask;
    if i < 32 {
        assert(((mask >> i) & 1 == 1) == (mask & (1u32 << i) != 0)) by (bit_vector)
            requires
                i < 32,
        ;
    }
}

/// A tooth reaches from its degree to the next one, and the last to the first degree
/// of the octave above.
pub proof fn law_teeth_reach_to_the_next_degree(slots: Seq<u32>, n: int, i: int)
    requires
        0 <= i < slots.len(),
    ensures
        gaps(slots, n).len() == slots.len(),
        i + 1 < slots.len() ==> slots[i] + gaps(slots, n)[i] == slots[i + 1],
        i + 1 == slots.len() ==> slots[i] + gaps(slots, n)[i] == slots[0] + n,
{
}

/// Laying teeth side by side starts on Sa, and every degree stands one width above
/// the one before.
pub proof fn law_degrees_stand_on_the_widths(widths: Seq<u32>, i: int)
    requires
        fits(widths),
        0 <= i < widths.len(),
    ensures
        degrees_of(widths).len() == widths.len(),
        degrees_of(widths)[0] == 0,
        i + 1 < widths.len() ==> degrees_of(widths)[i + 1] == degrees_of(widths)[i] + widths[i],
{
    lemma_reach_grows(widths, 0, i as nat);
    lemma_reach_grows(widths, i as nat, (widths.len() - 1) as nat);
    if i + 1 < widths.len() {
        assert(reach(widths, (i + 1) as nat) == reach(widths, i as nat) + widths[i]);
        lemma_reach_grows(widths, (i + 1) as nat, (widths.len() - 1) as nat);
    }
}

/// Teeth of which none is empty fit where the last degree that they give stands below
/// 32.
pub proof fn law_which_widths_fit(widths: Seq<u32>, more: u32)
    requires
        fits(widths),
        more > 0,
        widths.len() > 0 ==> reach(widths, widths.len()) < 32,
    ensures
        fits(widths.push(more)),
        widths.len() > 0 ==> reach(widths, widths.len()) == degrees_of(widths).last()
            + widths.last(),
        fits(Seq::<u32>::empty()),
{
    let all = widths.push(more);
    lemma_same_reach(widths, all, widths.len());
    if widths.len() > 0 {
        lemma_reach_grows(widths, 0, (widths.len() - 1) as nat);
    }
}

proof fn lemma_same_reach(a: Seq<u32>, b: Seq<u32>, k: nat)
    requires
        k <= a.len(),
        k <= b.len(),
        forall|i: int| 0 <= i < k ==> a[i] == b[i],
    ensures
        reach(a, k) == reach(b, k),
    decreases k,
{
    if k > 0 {
        lemma_same_reach(a, b, (k - 1) as nat);
    }
}

/// A shape's label names, with spaces in between, how many slots each degree is away
/// from the next, and the last from Sa an octave up.
pub proof fn law_labels_name_the_steps(shape: ScaleIntervals, n: u32, words: Seq<Seq<char>>)
    requires
        words.len() == shape.degrees().len(),
        forall|i: int|
            0 <= i < words.len() - 1 ==> #[trigger] words[i] == text::decimal(
                (shape.degrees()[i + 1] - shape.degrees()[i]) as nat,
            ),
        words.len() > 0 ==> words.last() == text::decimal(
            (shape.degrees()[0] + n - shape.degrees().last()) as nat,
        ),
    ensures
        label_of(shape, n) == text::joined(words, " "@),
{
    let d = shape.degrees();
    let all = numerals(gaps(d, n as int));
    assert forall|i: int| 0 <= i < all.len() implies all[i] == words[i] by {
        if i + 1 < d.len() {
            assert(gaps(d, n as int)[i] == d[i + 1] - d[i]);
        } else {
            assert(gaps(d, n as int)[i] == n + d[0] - d[i]);
        }
    }
    assert(all =~= words);
}

/// A shape is on a grid exactly where no bit at or above its slots is set.
pub proof fn law_shapes_on_a_grid(shape: ScaleIntervals, n: u32)
    ensures
        on_grid(shape, n) <==> forall|i: u32|
            n <= i < 32 ==> shape.mask & #[trigger] (1u32 << i) == 0,
{
    let d = shape.degrees();
    if on_grid(shape, n) {
        assert forall|i: u32| n <= i < 32 implies shape.mask & #[trigger] (1u32 << i) == 0 by {
            law_degrees_are_the_set_bits(shape, i);
            if d.contains(i) {
                let k = choose|k: int| 0 <= k < d.len() && d[k] == i;
                assert(d[k] < n);
            }
        }
    }
    if forall|i: u32| n <= i < 32 ==> shape.mask & #[trigger] (1u32 << i) == 0 {
        assert forall|k: int| 0 <= k < d.len() implies #[trigger] d[k] < n by {
            law_degrees_are_the_set_bits(shape, d[k]);
            assert(d.contains(d[k]));
            assert(shape.mask & (1u32 << d[k]) != 0);
        }
    }
}

/// Widths fit exactly where none is empty and all but the last come to less than 32.
pub proof fn law_widths_that_fit(widths: Seq<u32>)
    ensures
        fits(widths) <==> (forall|i: int| 0 <= i < widths.len() ==> #[trigger] widths[i] >= 1) && (
        widths.len() == 0 || reach(widths.drop_last(), (widths.len() - 1) as nat) <= 31),
{
    if widths.len() > 0 {
        lemma_same_reach(widths, widths.drop_last(), (widths.len() - 1) as nat);
    }
}

}
