use gurukul::ieee::F32;
use gurukul::time_graph::mesh::{
    apply_mesh_band, apply_mesh_trace, build_band_mesh, build_trace_mesh, end_cut, intersect_aabb,
    joint, needs_rebuild, segment_bounds, start_cut, Aabb, Coat, Cut, Joint, MeshPlan, Offset,
    Polyline, Side,
};

const HALF_WIDTH: f32 = 1.5;
const TRACE_WIDTH: f32 = 3.0;
const TRACE_MAX_ALPHA: f32 = 0.95;

type Vec2 = (f32, f32);

fn f(x: f32) -> F32 {
    F32 { bits: x.to_bits() }
}

fn v(x: F32) -> f32 {
    f32::from_bits(x.bits)
}

fn aabb(b: [f32; 4]) -> Aabb {
    Aabb {
        min_x: f(b[0]),
        min_y: f(b[1]),
        max_x: f(b[2]),
        max_y: f(b[3]),
    }
}

fn corners(b: Aabb) -> [f32; 4] {
    [v(b.min_x), v(b.min_y), v(b.max_x), v(b.max_y)]
}

fn directions(points: &[Vec2]) -> Vec<Vec2> {
    points
        .windows(2)
        .map(|w| {
            let d = (w[1].0 - w[0].0, w[1].1 - w[0].1);
            let len = (d.0 * d.0 + d.1 * d.1).sqrt();
            (d.0 / len, d.1 / len)
        })
        .collect()
}

fn perp(d: Vec2) -> Vec2 {
    (-d.1, d.0)
}

fn dot(a: Vec2, b: Vec2) -> f32 {
    a.0 * b.0 + a.1 * b.1
}

fn polyline(points: &[Vec2]) -> Polyline {
    let dirs = directions(points);
    Polyline {
        points: points.len(),
        joints: dirs
            .windows(2)
            .map(|d| {
                joint(
                    f(dot(perp(d[0]), perp(d[1]))),
                    f(d[0].0 * d[1].1 - d[0].1 * d[1].0),
                )
            })
            .collect(),
    }
}

/// The offset of an end of a piece, for its cut.
fn offset(dirs: &[Vec2], piece: usize, other: Option<usize>, cut: Cut) -> Vec2 {
    let norm = perp(dirs[piece]);
    match (cut, other) {
        (Cut::Miter, Some(o)) => {
            let n = perp(dirs[o]);
            let sum = (norm.0 + n.0, norm.1 + n.1);
            let len = (sum.0 * sum.0 + sum.1 * sum.1).sqrt();
            let miter = (sum.0 / len, sum.1 / len);
            let reach = HALF_WIDTH / dot(miter, norm).max(0.1);
            (miter.0 * reach, miter.1 * reach)
        }
        _ => (norm.0 * HALF_WIDTH, norm.1 * HALF_WIDTH),
    }
}

/// The corners of a mesh of one line, worked out.
fn realise(points: &[Vec2], plan: &MeshPlan, line: &Polyline) -> Vec<Vec2> {
    let dirs = directions(points);
    plan.vertices
        .iter()
        .map(|vertex| {
            let p = points[vertex.point];
            let (o, side) = match vertex.offset {
                Offset::Start { piece, side } => (
                    offset(
                        &dirs,
                        piece,
                        piece.checked_sub(1),
                        start_cut(&line.joints, piece),
                    ),
                    side,
                ),
                Offset::End { piece, side } => (
                    offset(
                        &dirs,
                        piece,
                        Some(piece + 1).filter(|k| *k < dirs.len()),
                        end_cut(&line.joints, piece),
                    ),
                    side,
                ),
                Offset::Normal { piece, side } => {
                    (offset(&dirs, piece, None, Cut::Square), side)
                }
                _ => ((0.0, 0.0), Side::Plus),
            };
            match side {
                Side::Plus => (p.0 + o.0, p.1 + o.1),
                Side::Minus => (p.0 - o.0, p.1 - o.1),
            }
        })
        .collect()
}

#[test]
fn mesh_straight_line_is_rectangle_equivalent() {
    let pts = [(0.0, 0.0), (10.0, 0.0), (20.0, 0.0)];
    let line = polyline(&pts);
    let plan = build_trace_mesh(&polyline(&pts)).expect("a mesh");
    assert_eq!(plan.vertices.len(), 8);
    for (_, y) in realise(&pts, &plan, &line) {
        assert!(
            (y - HALF_WIDTH).abs() < 1e-4 || (y + HALF_WIDTH).abs() < 1e-4,
            "unexpected y offset {y}; expected ±{HALF_WIDTH}"
        );
    }
}

#[test]
fn mesh_too_few_points_returns_none() {
    assert!(build_trace_mesh(&Polyline {
        points: 1,
        joints: vec![],
    })
    .is_none());
}

#[test]
fn mesh_vertex_alpha_is_conf_fourth_times_max() {
    for conf in [0.0f32, 0.5, 0.8, 1.0] {
        let expected_alpha = (conf.powi(4) * TRACE_MAX_ALPHA).clamp(0.0, 1.0);
        // Every corner takes the colour of the point that it stands at.
        let alphas = [expected_alpha; 2];
        let plan = build_trace_mesh(&polyline(&[(0.0, 0.0), (10.0, 0.0)])).expect("a mesh");
        assert_eq!(plan.vertices.len(), 4);
        for vertex in &plan.vertices {
            assert!((alphas[vertex.point] - expected_alpha).abs() < 1e-5);
        }
    }
}

#[test]
fn a_sharp_turn_is_filled_on_its_outer_side() {
    let left = [(0.0, 0.0), (10.0, 0.0), (0.0, 1.0)];
    let line = polyline(&left);
    assert_eq!(line.joints, vec![Joint::BevelLeft]);
    let plan = build_trace_mesh(&polyline(&left)).expect("a mesh");
    assert_eq!(plan.vertices.len(), 11);
    assert_eq!(plan.indices.len(), 15);
    assert_eq!(plan.indices[6..9], [4, 5, 6]);
    assert_eq!(plan.indices[9..], [7, 8, 9, 8, 10, 9]);

    let right = [(0.0, 0.0), (10.0, 0.0), (0.0, -1.0)];
    assert_eq!(polyline(&right).joints, vec![Joint::BevelRight]);
    let plan = build_trace_mesh(&polyline(&right)).expect("a mesh");
    assert_eq!(plan.indices[6..9], [4, 6, 5]);
}

#[test]
fn lines_of_one_mesh_share_no_corner() {
    let one = [(0.0, 0.0), (10.0, 0.0)];
    let lines = vec![
        polyline(&one),
        Polyline {
            points: 1,
            joints: vec![],
        },
        polyline(&one),
    ];
    assert!(apply_mesh_trace(&lines, false, true).is_none());
    let plan = apply_mesh_trace(&lines, false, false).expect("a mesh");
    assert_eq!(plan.vertices.len(), 8);
    assert!(plan.indices[..6].iter().all(|i| *i < 4));
    assert!(plan.indices[6..].iter().all(|i| (4..8).contains(i)));
    assert_eq!(plan.vertices[4].line, 2);
}

#[test]
fn a_gentle_turn_is_mitred() {
    assert_eq!(joint(f(1.0), f(0.0)), Joint::Miter);
    assert_eq!(joint(f(0.342), f(1.0)), Joint::Miter);
    assert_eq!(joint(f(0.341), f(1.0)), Joint::BevelLeft);
    assert_eq!(joint(f(0.341), f(0.0)), Joint::BevelRight);
    let joints = vec![Joint::Miter, Joint::BevelLeft];
    assert_eq!(start_cut(&joints, 0), Cut::Square);
    assert_eq!(end_cut(&joints, 0), Cut::Miter);
    assert_eq!(start_cut(&joints, 1), Cut::Miter);
    assert_eq!(end_cut(&joints, 1), Cut::Square);
    assert_eq!(end_cut(&joints, 2), Cut::Square);
}

#[test]
fn build_band_mesh_top_bottom_offsets() {
    let centers = [(0.0, 0.0), (10.0, 0.0)];
    let half_heights = [5.0f32, 5.0];
    let plan = build_band_mesh(centers.len()).expect("a ribbon");
    assert_eq!(plan.vertices.len(), 4);
    for vertex in &plan.vertices {
        let y: f32 = match vertex.offset {
            Offset::Top => centers[vertex.point].1 + half_heights[vertex.point],
            _ => centers[vertex.point].1 - half_heights[vertex.point],
        };
        assert!((y - 5.0).abs() < 1e-4 || (y + 5.0).abs() < 1e-4);
    }
    assert_eq!(plan.indices, vec![0, 1, 2, 1, 3, 2]);
}

#[test]
fn build_band_mesh_too_few_points_returns_none() {
    assert!(build_band_mesh(1).is_none());
}

#[test]
fn bands_of_one_mesh_are_disjoint_strips() {
    assert!(apply_mesh_band(&vec![2, 1, 3], false, true).is_none());
    let plan = apply_mesh_band(&vec![2, 1, 3], true, true).expect("a mesh");
    assert_eq!(plan.vertices.len(), 10);
    assert!(plan.indices[6..].iter().all(|i| *i >= 4 && *i < 10));
}

fn phys_aabb(points: &[[f32; 2]], scale: f32, origin: [f32; 2]) -> [f32; 4] {
    let half = TRACE_WIDTH * scale * 0.5;
    let bounds = segment_bounds(
        &points
            .iter()
            .map(|p| (f(p[0] * scale + origin[0]), f(p[1] * scale + origin[1])))
            .collect(),
    );
    let b = corners(bounds);
    [b[0] - half, b[1] - half, b[2] + half, b[3] + half]
}

#[test]
fn segment_phys_aabb_basic() {
    let b = phys_aabb(&[[1.5, 1.5]], 2.0, [10.0, 20.0]);
    let half_stroke = TRACE_WIDTH * 2.0 * 0.5;
    assert!((b[0] - (13.0 - half_stroke)).abs() < 1e-4, "min_x");
    assert!((b[1] - (23.0 - half_stroke)).abs() < 1e-4, "min_y");
    assert!((b[2] - (13.0 + half_stroke)).abs() < 1e-4, "max_x");
    assert!((b[3] - (23.0 + half_stroke)).abs() < 1e-4, "max_y");
}

#[test]
fn intersect_aabb_clipping() {
    let clipped = intersect_aabb(aabb([5.0, 5.0, 15.0, 15.0]), aabb([0.0, 0.0, 10.0, 10.0]));
    assert_eq!(corners(clipped), [5.0, 5.0, 10.0, 10.0]);
}

#[test]
fn intersect_aabb_fully_inside() {
    let inner = aabb([2.0, 2.0, 8.0, 8.0]);
    assert_eq!(intersect_aabb(inner, aabb([0.0, 0.0, 10.0, 10.0])), inner);
}

#[test]
fn clipped_aabb_is_subset_of_lane() {
    let lane = [0.0f32, 0.0, 200.0, 100.0];
    let b = phys_aabb(&[[5.0, 5.0], [200.0, 5.0]], 2.0, [0.0, 0.0]);
    let clipped = corners(intersect_aabb(aabb(b), aabb(lane)));
    assert!(clipped[0] >= lane[0]);
    assert!(clipped[2] <= lane[2]);
    assert!(clipped[1] >= lane[1]);
    assert!(clipped[3] <= lane[3]);
}

#[test]
fn meshes_are_rebuilt_when_the_scene_changes_or_nothing_is_there() {
    assert!(needs_rebuild(true, true));
    assert!(needs_rebuild(false, false));
    assert!(!needs_rebuild(false, true));
}

#[test]
fn only_the_trace_fades() {
    assert!(Coat::Trace.fades());
    assert!(!Coat::Fill.fades());
    assert!(Coat::Fill.opaque());
}
