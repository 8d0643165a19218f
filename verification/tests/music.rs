use gurukul::ieee::F32;
use gurukul::music::{
    hud_row, int_row, is_on_grid, picker_rows, row_labels, select_scale, shape_label, MusicInfo,
    Scale, ScaleIntervals, Tuning, TuningKind,
};

fn widths(w: &[u32]) -> ScaleIntervals {
    ScaleIntervals::from_widths(&w.to_vec())
}

fn tuning(kind: TuningKind, shift: usize) -> Tuning {
    Tuning {
        kind,
        shift,
        rotation: F32 {
            bits: 0.25f32.to_bits(),
        },
    }
}

const BILAWAL: [u32; 7] = [2, 2, 1, 2, 2, 2, 1];

#[test]
fn intervals_are_the_tooth_widths() {
    let info = MusicInfo {
        scale: Scale {
            intervals: widths(&BILAWAL),
            tuning: tuning(TuningKind::TwelveTet, 3),
            octave: 8,
        },
    };
    assert_eq!(int_row(&info), "int 2 2 1 2 2 2 1");
}

#[test]
fn hud_without_music_shows_a_dash() {
    assert_eq!(hud_row(&None), "int —");
}

#[test]
fn row_labels_render_tooth_widths() {
    let bilawal = widths(&[2, 2, 1, 2, 2, 2, 1]);
    let sparse = ScaleIntervals::from_mask(1);
    let labels = row_labels(&vec![bilawal, sparse], 12);
    assert_eq!(labels[0], "2 2 1 2 2 2 1");
    // A single-degree mask closes the octave in one 12-wide tooth.
    assert_eq!(labels[1], "12");
}

#[test]
fn select_scale_preserves_sa_and_register() {
    // Current: Bilawal, Sa shifted 5 slots up, register 8.
    let current = Scale {
        intervals: widths(&[2, 2, 1, 2, 2, 2, 1]),
        tuning: tuning(TuningKind::TwelveTet, 5),
        octave: 8,
    };
    let new_shape = widths(&[2, 1, 2, 2, 1, 2, 2]);
    let selected = select_scale(&current, new_shape);
    assert_eq!(selected.octave, current.octave, "register preserved");
    assert_eq!(selected.tuning, current.tuning, "Sa rotation preserved");
    assert_eq!(
        selected.intervals.widths(12),
        new_shape.widths(12),
        "tooth pattern swapped to the selected shape"
    );
}

#[test]
fn picker_rows_carry_their_place_in_the_catalogue() {
    let scales = vec![widths(&BILAWAL), ScaleIntervals::from_mask(1)];
    let rows = picker_rows(&scales, 12);
    assert_eq!(rows.len(), 2);
    assert_eq!(rows[0].label, "2 2 1 2 2 2 1");
    assert_eq!(rows[1].label, "12");
}

#[test]
fn widths_walk_to_degrees_and_back() {
    assert_eq!(widths(&BILAWAL).degree_slots(), vec![0, 2, 4, 5, 7, 9, 11]);
    assert_eq!(widths(&BILAWAL).widths(12), BILAWAL.to_vec());
    let shruti = [3, 2, 4, 4, 3, 2, 4];
    assert_eq!(
        widths(&shruti).degree_slots(),
        vec![0, 3, 5, 9, 13, 16, 18]
    );
    assert_eq!(widths(&shruti).widths(22), shruti.to_vec());
    assert_eq!(
        widths(&shruti).widths(22).iter().sum::<u32>(),
        22,
        "the widths close the octave"
    );
}

#[test]
fn a_mask_is_read_bit_by_bit() {
    assert_eq!(
        ScaleIntervals::from_mask(0b1001).degree_slots(),
        vec![0, 3]
    );
    assert!(ScaleIntervals::from_mask(0).degree_slots().is_empty());
    assert!(is_on_grid(ScaleIntervals::from_mask(0b1001), 12));
    assert!(!is_on_grid(ScaleIntervals::from_mask(1 << 12), 12));
    assert!(is_on_grid(ScaleIntervals::from_mask(1 << 12), 22));
    assert_eq!(shape_label(ScaleIntervals::from_mask(0b1001), 12), "3 9");
}

#[test]
fn tunings_have_their_slots() {
    assert_eq!(TuningKind::TwelveTet.slots(), 12);
    assert_eq!(TuningKind::HindustaniJust.slots(), 12);
    assert_eq!(TuningKind::TwentyTwoShruti.slots(), 22);
}
