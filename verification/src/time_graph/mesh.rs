//! The meshes of the time graph: how the points of the trace and of the vibrato
//! band are joined into triangles.
//!
//! A mesh is planned here as a list of corners, each named by the point it
//! stands at and the offset from it, and a list of indices into them. What a
//! corner's coordinates are is left to the caller.

use vstd::prelude::*;
use crate::ieee::F32;

verus! {

/// Bits of the cosine of the sharpest angle that is still mitred (70 degrees).
pub const MITER_LIMIT_COS: u32 = 0x3eaf_1aa0;

/// The two sides of a line.
#[derive(Clone, Copy, PartialEq, Eq, Structural, Debug)]
pub enum Side {
    Plus,
    Minus,
}

/// Where a corner stands, as seen from its point.
#[derive(Clone, Copy, PartialEq, Eq, Structural, Debug)]
pub enum Offset {
    /// To one side, by the offset with which `piece` starts.
    Start { piece: usize, side: Side },
    /// To one side, by the offset with which `piece` ends.
    End { piece: usize, side: Side },
    /// To one side, along the normal of `piece`.
    Normal { piece: usize, side: Side },
    /// At the point itself.
    Center,
    /// Above the point, on the upper rail of the band.
    Top,
    /// Below the point, on the lower rail of the band.
    Bottom,
}

/// A corner of a mesh: its line, its point (which also gives the colour), and
/// the offset.
#[derive(Clone, Copy, PartialEq, Eq, Structural, Debug)]
pub struct Vertex {
    pub line: usize,
    pub point: usize,
    pub offset: Offset,
}

/// How two pieces of a line are joined.
#[derive(Clone, Copy, PartialEq, Eq, Structural, Debug)]
pub enum Joint {
    /// The corners of both pieces meet on the mitre.
    Miter,
    /// Too sharp for a mitre, turning left: a triangle fills the gap.
    BevelLeft,
    /// Too sharp for a mitre, turning right: a triangle fills the gap.
    BevelRight,
}

/// How an end of a piece is cut.
#[derive(Clone, Copy, PartialEq, Eq, Structural, Debug)]
pub enum Cut {
    /// Square to the piece.
    Square,
    /// Along the mitre with the piece next to it.
    Miter,
}

/// A line to be drawn: how many points it has, and its joints.
pub struct Polyline {
    pub points: usize,
    pub joints: Vec<Joint>,
}

impl Polyline {
    /// Whether there is a joint for each inner point.
    pub open spec fn valid(self) -> bool {
        self.points >= 2 ==> self.joints@.len() + 2 == self.points
    }
}

/// A mesh under construction.
pub struct MeshPlan {
    pub vertices: Vec<Vertex>,
    pub indices: Vec<u32>,
}

// ---- joints --------------------------------------------------------------

/// The joint between two pieces, from the dot product of their normals and the
/// cross product of their directions.
pub open spec fn joint_of(dot: F32, cross: F32) -> Joint {
    if !dot.below(F32 { bits: MITER_LIMIT_COS }) {
        Joint::Miter
    } else if cross.positive() {
        Joint::BevelLeft
    } else {
        Joint::BevelRight
    }
}

/// The joint between two pieces.
pub fn joint(dot: F32, cross: F32) -> (j: Joint)
    ensures
        j == joint_of(dot, cross),
{
    if !dot.lt(F32 { bits: MITER_LIMIT_COS }) {
        Joint::Miter
    } else if cross.is_positive() {
        Joint::BevelLeft
    } else {
        Joint::BevelRight
    }
}

/// How piece `piece` starts: along the mitre where the joint before it is one.
pub open spec fn starts_with(joints: Seq<Joint>, piece: int) -> Cut {
    if piece > 0 && joints[piece - 1] is Miter {
        Cut::Miter
    } else {
        Cut::Square
    }
}

/// How piece `piece` ends: along the mitre where the joint behind it is one.
pub open spec fn ends_with(joints: Seq<Joint>, piece: int) -> Cut {
    if piece < joints.len() && joints[piece] is Miter {
        Cut::Miter
    } else {
        Cut::Square
    }
}

/// How piece `piece` starts.
pub fn start_cut(joints: &Vec<Joint>, piece: usize) -> (cut: Cut)
    requires
        piece <= joints@.len(),
    ensures
        cut == starts_with(joints@, piece as int),
{
    if piece > 0 && joints[piece - 1] == Joint::Miter {
        Cut::Miter
    } else {
        Cut::Square
    }
}

/// How piece `piece` ends.
pub fn end_cut(joints: &Vec<Joint>, piece: usize) -> (cut: Cut)
    requires
        piece <= joints@.len(),
    ensures
        cut == ends_with(joints@, piece as int),
{
    if piece < joints.len() && joints[piece] == Joint::Miter {
        Cut::Miter
    } else {
        Cut::Square
    }
}

/// A line starts and ends square, and at every joint the two pieces are cut alike.
pub proof fn law_cuts_agree_at_a_joint(joints: Seq<Joint>)
    ensures
        starts_with(joints, 0) is Square,
        ends_with(joints, joints.len() as int) is Square,
        forall|piece: int|
            0 <= piece < joints.len() ==> #[trigger] ends_with(joints, piece) == starts_with(
                joints,
                piece + 1,
            ),
{
}

// ---- the trace -----------------------------------------------------------

/// The corners of the quad of one piece.
pub open spec fn quad_vertices(line: usize, s: int) -> Seq<Vertex> {
    let piece = s as usize;
    let next = (s + 1) as usize;
    seq![
        Vertex { line, point: piece, offset: Offset::Start { piece, side: Side::Plus } },
        Vertex { line, point: piece, offset: Offset::Start { piece, side: Side::Minus } },
        Vertex { line, point: next, offset: Offset::End { piece, side: Side::Plus } },
        Vertex { line, point: next, offset: Offset::End { piece, side: Side::Minus } },
    ]
}

/// The two triangles of a quad whose corners start at `b`.
pub open spec fn quad_indices(b: int) -> Seq<u32> {
    seq![
        b as u32,
        (b + 1) as u32,
        (b + 2) as u32,
        (b + 1) as u32,
        (b + 3) as u32,
        (b + 2) as u32,
    ]
}

/// The corners of the triangle that fills a sharp joint, on the outer side.
pub open spec fn fill_vertices(line: usize, s: int, left: bool) -> Seq<Vertex> {
    let piece = s as usize;
    let next = (s + 1) as usize;
    let side = if left {
        Side::Plus
    } else {
        Side::Minus
    };
    seq![
        Vertex { line, point: next, offset: Offset::End { piece, side } },
        Vertex { line, point: next, offset: Offset::Normal { piece: next, side } },
        Vertex { line, point: next, offset: Offset::Center },
    ]
}

/// The triangle that fills a sharp joint, wound to face the viewer.
pub open spec fn fill_indices(b: int, left: bool) -> Seq<u32> {
    if left {
        seq![b as u32, (b + 1) as u32, (b + 2) as u32]
    } else {
        seq![b as u32, (b + 2) as u32, (b + 1) as u32]
    }
}

/// Whether the joint behind piece `s` is too sharp for a mitre.
pub open spec fn sharp(joints: Seq<Joint>, s: int) -> bool {
    s < joints.len() && !(joints[s] is Miter)
}

/// The corners of one piece: the quad, and where the next joint is too sharp for
/// a mitre the triangle that fills the gap.
pub open spec fn piece_vertices(line: usize, joints: Seq<Joint>, s: int) -> Seq<Vertex> {
    if sharp(joints, s) {
        quad_vertices(line, s) + fill_vertices(line, s, joints[s] is BevelLeft)
    } else {
        quad_vertices(line, s)
    }
}

/// The indices of one piece whose corners start at `b`.
pub open spec fn piece_indices(joints: Seq<Joint>, s: int, b: int) -> Seq<u32> {
    if sharp(joints, s) {
        quad_indices(b) + fill_indices(b + 4, joints[s] is BevelLeft)
    } else {
        quad_indices(b)
    }
}

/// The corners of the first `k` pieces.
pub open spec fn line_vertices(line: usize, joints: Seq<Joint>, k: nat) -> Seq<Vertex>
    decreases k,
{
    if k == 0 {
        Seq::empty()
    } else {
        line_vertices(line, joints, (k - 1) as nat) + piece_vertices(line, joints, k - 1)
    }
}

/// The indices of the first `k` pieces of a line whose corners start at `base`.
pub open spec fn line_indices(line: usize, joints: Seq<Joint>, k: nat, base: int) -> Seq<u32>
    decreases k,
{
    if k == 0 {
        Seq::empty()
    } else {
        line_indices(line, joints, (k - 1) as nat, base) + piece_indices(
            joints,
            k - 1,
            base + line_vertices(line, joints, (k - 1) as nat).len(),
        )
    }
}

/// How many pieces a line of `points` points has.
pub open spec fn pieces(points: usize) -> nat {
    if points < 2 {
        0
    } else {
        (points - 1) as nat
    }
}

impl MeshPlan {
    /// Whether every index names a corner.
    pub open spec fn valid(self) -> bool {
        forall|i: int|
            0 <= i < self.indices@.len() ==> (#[trigger] self.indices@[i]) < self.vertices@.len()
    }

    /// A mesh without triangles.
    pub fn new() -> (plan: Self)
        ensures
            plan.vertices@.len() == 0,
            plan.indices@.len() == 0,
            plan.valid(),
    {
        MeshPlan { vertices: Vec::new(), indices: Vec::new() }
    }

    fn append_quad(&mut self, line: usize, piece: usize)
        requires
            piece < usize::MAX,
            old(self).vertices@.len() + 4 <= u32::MAX,
        ensures
            final(self).vertices@ == old(self).vertices@ + quad_vertices(line, piece as int),
            final(self).indices@ == old(self).indices@ + quad_indices(
                old(self).vertices@.len() as int,
            ),
    {
        let ghost vs = self.vertices@;
        let ghost is = self.indices@;
        let b: u32 = self.vertices.len() as u32;
        let next: usize = piece + 1;
        self.vertices.push(
            Vertex { line, point: piece, offset: Offset::Start { piece, side: Side::Plus } },
        );
        self.vertices.push(
            Vertex { line, point: piece, offset: Offset::Start { piece, side: Side::Minus } },
        );
        self.vertices.push(
            Vertex { line, point: next, offset: Offset::End { piece, side: Side::Plus } },
        );
        self.vertices.push(
            Vertex { line, point: next, offset: Offset::End { piece, side: Side::Minus } },
        );
        self.indices.push(b);
        self.indices.push(b + 1);
        self.indices.push(b + 2);
        self.indices.push(b + 1);
        self.indices.push(b + 3);
        self.indices.push(b + 2);
        assert(self.vertices@ =~= vs + quad_vertices(line, piece as int));
        assert(self.indices@ =~= is + quad_indices(b as int));
    }

    fn append_fill(&mut self, line: usize, piece: usize, left: bool)
        requires
            piece < usize::MAX,
            old(self).vertices@.len() + 3 <= u32::MAX,
        ensures
            final(self).vertices@ == old(self).vertices@ + fill_vertices(line, piece as int, left),
            final(self).indices@ == old(self).indices@ + fill_indices(
                old(self).vertices@.len() as int,
                left,
            ),
    {
        let ghost vs = self.vertices@;
        let ghost is = self.indices@;
        let b: u32 = self.vertices.len() as u32;
        let next: usize = piece + 1;
        let side = if left {
            Side::Plus
        } else {
            Side::Minus
        };
        self.vertices.push(Vertex { line, point: next, offset: Offset::End { piece, side } });
        self.vertices.push(
            Vertex { line, point: next, offset: Offset::Normal { piece: next, side } },
        );
        self.vertices.push(Vertex { line, point: next, offset: Offset::Center });
        self.indices.push(b);
        if left {
            self.indices.push(b + 1);
            self.indices.push(b + 2);
        } else {
            self.indices.push(b + 2);
            self.indices.push(b + 1);
        }
        assert(self.vertices@ =~= vs + fill_vertices(line, piece as int, left));
        assert(self.indices@ =~= is + fill_indices(b as int, left));
    }

    fn append_piece(&mut self, line: usize, joints: &Vec<Joint>, piece: usize)
        requires
            piece < usize::MAX,
            old(self).vertices@.len() + 7 <= u32::MAX,
        ensures
            final(self).vertices@ == old(self).vertices@ + piece_vertices(
                line,
                joints@,
                piece as int,
            ),
            final(self).indices@ == old(self).indices@ + piece_indices(
                joints@,
                piece as int,
                old(self).vertices@.len() as int,
            ),
    {
        let ghost vs = self.vertices@;
        let ghost is = self.indices@;
        self.append_quad(line, piece);
        if piece < joints.len() {
            let joint = joints[piece];
            if joint != Joint::Miter {
                self.append_fill(line, piece, joint == Joint::BevelLeft);
            }
        }
        assert(self.vertices@ =~= vs + piece_vertices(line, joints@, piece as int));
        assert(self.indices@ =~= is + piece_indices(joints@, piece as int, vs.len() as int));
    }

    /// Appends the triangles of one line: a quad for each piece, and a triangle
    /// for each joint that is too sharp for a mitre. Lines that share a mesh
    /// stay disjoint strips. A line of fewer than two points adds nothing.
    pub fn append_trace_segment(&mut self, line: usize, polyline: &Polyline)
        requires
            polyline.valid(),
            old(self).vertices@.len() + 7 * polyline.points <= u32::MAX,
        ensures
            final(self).vertices@ == old(self).vertices@ + line_vertices(
                line,
                polyline.joints@,
                pieces(polyline.points),
            ),
            final(self).indices@ == old(self).indices@ + line_indices(
                line,
                polyline.joints@,
                pieces(polyline.points),
                old(self).vertices@.len() as int,
            ),
            old(self).valid() ==> final(self).valid(),
            final(self).vertices@.len() <= old(self).vertices@.len() + 7 * polyline.points,
    {
        let ghost joints = polyline.joints@;
        let ghost start = self.vertices@;
        let ghost before = self.indices@;
        let ghost base = start.len() as int;
        assert(start =~= start + line_vertices(line, joints, 0));
        assert(before =~= before + line_indices(line, joints, 0, base));
        if polyline.points >= 2 {
            let count: usize = polyline.points - 1;
            for piece in 0..count
                invariant
                    polyline.valid(),
                    polyline.points >= 2,
                    count + 1 == polyline.points,
                    joints == polyline.joints@,
                    base == start.len(),
                    base + 7 * polyline.points <= u32::MAX,
                    self.vertices@ == start + line_vertices(line, joints, piece as nat),
                    self.indices@ == before + line_indices(line, joints, piece as nat, base),
                    line_vertices(line, joints, piece as nat).len() <= 7 * piece,
            {
                let ghost vs = self.vertices@;
                let ghost is = self.indices@;
                self.append_piece(line, &polyline.joints, piece);
                proof {
                    assert(self.vertices@ =~= start + line_vertices(
                        line,
                        joints,
                        (piece + 1) as nat,
                    ));
                    assert(self.indices@ =~= before + line_indices(
                        line,
                        joints,
                        (piece + 1) as nat,
                        base,
                    ));
                }
            }
        }
        proof {
            law_strips_are_disjoint(line, joints, pieces(polyline.points), base);
            let added = line_indices(line, joints, pieces(polyline.points), base);
            assert forall|i: int|
                0 <= i < self.indices@.len() && start.len() == base && (forall|j: int|
                    0 <= j < before.len() ==> (#[trigger] before[j]) < start.len()) implies (
            #[trigger] self.indices@[i]) < self.vertices@.len() by {
                if i < before.len() {
                    assert(self.indices@[i] == before[i]);
                } else {
                    assert(self.indices@[i] == added[i - before.len()]);
                }
            }
        }
    }
}

/// The indices of a line name the corners of that line and no others: lines that
/// share a mesh are not bridged.
pub proof fn law_strips_are_disjoint(line: usize, joints: Seq<Joint>, k: nat, base: int)
    requires
        base >= 0,
        base + 7 * k <= u32::MAX,
    ensures
        line_vertices(line, joints, k).len() <= 7 * k,
        forall|i: int|
            0 <= i < line_indices(line, joints, k, base).len() ==> base <= (
            #[trigger] line_indices(line, joints, k, base)[i]) < base + line_vertices(
                line,
                joints,
                k,
            ).len(),
        line_indices(line, joints, k, base).len() % 3 == 0,
    decreases k,
{
    if k > 0 {
        law_strips_are_disjoint(line, joints, (k - 1) as nat, base);
        let vs = line_vertices(line, joints, (k - 1) as nat);
        let is = line_indices(line, joints, (k - 1) as nat, base);
        let b = base + vs.len();
        let piece = piece_indices(joints, k - 1, b);
        let now = line_indices(line, joints, k, base);
        assert forall|i: int| 0 <= i < now.len() implies base <= (#[trigger] now[i]) < base
            + line_vertices(line, joints, k).len() by {
            if i < is.len() {
                assert(now[i] == is[i]);
            } else {
                assert(now[i] == piece[i - is.len()]);
            }
        }
    }
}

/// Room for all lines: what their corners can come to at most fits into the
/// indices.
pub open spec fn room(lines: Seq<Polyline>, k: nat) -> int
    decreases k,
{
    if k == 0 {
        0
    } else {
        room(lines, (k - 1) as nat) + 7 * lines[k - 1].points
    }
}

/// The corners of the first `k` lines.
pub open spec fn mesh_vertices(lines: Seq<Polyline>, k: nat) -> Seq<Vertex>
    decreases k,
{
    if k == 0 {
        Seq::empty()
    } else {
        let line = lines[k - 1];
        mesh_vertices(lines, (k - 1) as nat) + line_vertices(
            (k - 1) as usize,
            line.joints@,
            pieces(line.points),
        )
    }
}

/// The indices of the first `k` lines.
pub open spec fn mesh_indices(lines: Seq<Polyline>, k: nat) -> Seq<u32>
    decreases k,
{
    if k == 0 {
        Seq::empty()
    } else {
        let line = lines[k - 1];
        mesh_indices(lines, (k - 1) as nat) + line_indices(
            (k - 1) as usize,
            line.joints@,
            pieces(line.points),
            mesh_vertices(lines, (k - 1) as nat).len() as int,
        )
    }
}

/// The mesh of a single line; a line of fewer than two points has none.
pub fn build_trace_mesh(polyline: &Polyline) -> (plan: Option<MeshPlan>)
    requires
        polyline.valid(),
        7 * polyline.points <= u32::MAX,
    ensures
        plan is Some <==> polyline.points >= 2,
        plan matches Some(p) ==> {
            &&& p.vertices@ == line_vertices(0, polyline.joints@, pieces(polyline.points))
            &&& p.indices@ == line_indices(0, polyline.joints@, pieces(polyline.points), 0)
            &&& p.valid()
        },
{
    if polyline.points < 2 {
        return None;
    }
    let mut plan = MeshPlan::new();
    plan.append_trace_segment(0, polyline);
    assert(plan.vertices@ =~= line_vertices(0, polyline.joints@, pieces(polyline.points)));
    assert(plan.indices@ =~= line_indices(0, polyline.joints@, pieces(polyline.points), 0));
    Some(plan)
}

/// The one mesh of all lines of the trace, where it is to be built: the scene
/// changed, or nothing has been built yet.
pub fn apply_mesh_trace(lines: &Vec<Polyline>, scene_changed: bool, built: bool) -> (plan: Option<
    MeshPlan,
>)
    requires
        forall|i: int| 0 <= i < lines@.len() ==> (#[trigger] lines@[i]).valid(),
        room(lines@, lines@.len()) <= u32::MAX,
    ensures
        plan is Some <==> (scene_changed || !built),
        plan matches Some(p) ==> {
            &&& p.vertices@ == mesh_vertices(lines@, lines@.len())
            &&& p.indices@ == mesh_indices(lines@, lines@.len())
            &&& p.valid()
        },
{
    if !needs_rebuild(scene_changed, built) {
        return None;
    }
    let mut plan = MeshPlan::new();
    assert(plan.vertices@ =~= mesh_vertices(lines@, 0));
    assert(plan.indices@ =~= mesh_indices(lines@, 0));
    for k in 0..lines.len()
        invariant
            forall|i: int| 0 <= i < lines@.len() ==> (#[trigger] lines@[i]).valid(),
            room(lines@, lines@.len()) <= u32::MAX,
            plan.vertices@ == mesh_vertices(lines@, k as nat),
            plan.indices@ == mesh_indices(lines@, k as nat),
            plan.valid(),
            plan.vertices@.len() <= room(lines@, k as nat),
    {
        proof {
            lemma_room_grows(lines@, (k + 1) as nat, lines@.len());
        }
        plan.append_trace_segment(k, &lines[k]);
    }
    Some(plan)
}

proof fn lemma_room_grows(lines: Seq<Polyline>, a: nat, b: nat)
    requires
        a <= b,
    ensures
        room(lines, a) <= room(lines, b),
    decreases b,
{
    if a < b {
        lemma_room_grows(lines, a, (b - 1) as nat);
    }
}

/// Whether the meshes are to be built: the scene changed, or nothing has been
/// built yet.
pub fn needs_rebuild(scene_changed: bool, built: bool) -> (yes: bool)
    ensures
        yes == (scene_changed || !built),
{
    scene_changed || !built
}

// ---- the vibrato band ----------------------------------------------------

/// The corners of a band of `n` points: an upper and a lower one for each.
pub open spec fn band_vertices(line: usize, n: nat) -> Seq<Vertex>
    decreases n,
{
    if n == 0 {
        Seq::empty()
    } else {
        let point = (n - 1) as usize;
        band_vertices(line, (n - 1) as nat).push(
            Vertex { line, point, offset: Offset::Top },
        ).push(Vertex { line, point, offset: Offset::Bottom })
    }
}

/// The indices of the first `k` pieces of a band whose corners start at `base`:
/// two triangles between each point and the next.
pub open spec fn band_indices(k: nat, base: int) -> Seq<u32>
    decreases k,
{
    if k == 0 {
        Seq::empty()
    } else {
        let b = base + 2 * (k - 1);
        band_indices((k - 1) as nat, base) + seq![
            b as u32,
            (b + 1) as u32,
            (b + 2) as u32,
            (b + 1) as u32,
            (b + 3) as u32,
            (b + 2) as u32,
        ]
    }
}

impl MeshPlan {
    /// Appends the ribbon of one band. Bands that share a mesh stay disjoint
    /// strips. A band of fewer than two points adds nothing.
    pub fn append_band_segment(&mut self, line: usize, points: usize)
        requires
            old(self).vertices@.len() + 2 * points <= u32::MAX,
        ensures
            points < 2 ==> *final(self) == *old(self),
            points >= 2 ==> final(self).vertices@ == old(self).vertices@ + band_vertices(
                line,
                points as nat,
            ),
            points >= 2 ==> final(self).indices@ == old(self).indices@ + band_indices(
                (points - 1) as nat,
                old(self).vertices@.len() as int,
            ),
            old(self).valid() ==> final(self).valid(),
    {
        if points < 2 {
            return ;
        }
        let ghost start = self.vertices@;
        let ghost before = self.indices@;
        let base: u32 = self.vertices.len() as u32;
        assert(start =~= start + band_vertices(line, 0));
        for point in 0..points
            invariant
                self.indices@ == before,
                self.vertices@ == start + band_vertices(line, point as nat),
        {
            self.vertices.push(Vertex { line, point, offset: Offset::Top });
            self.vertices.push(Vertex { line, point, offset: Offset::Bottom });
            assert(self.vertices@ =~= start + band_vertices(line, (point + 1) as nat));
        }
        proof {
            lemma_band_len(line, points as nat);
        }
        let ghost vs = self.vertices@;
        assert(before =~= before + band_indices(0, base as int));
        for i in 0..points - 1
            invariant
                points >= 2,
                base + 2 * points <= u32::MAX,
                self.vertices@ == vs,
                self.indices@ == before + band_indices(i as nat, base as int),
        {
            let b: u32 = base + 2 * (i as u32);
            let ghost is = self.indices@;
            self.indices.push(b);
            self.indices.push(b + 1);
            self.indices.push(b + 2);
            self.indices.push(b + 1);
            self.indices.push(b + 3);
            self.indices.push(b + 2);
            assert(self.indices@ =~= before + band_indices((i + 1) as nat, base as int));
        }
        proof {
            law_bands_are_disjoint((points - 1) as nat, base as int);
            let added = band_indices((points - 1) as nat, base as int);
            assert forall|i: int|
                0 <= i < self.indices@.len() && (forall|j: int|
                    0 <= j < before.len() ==> (#[trigger] before[j]) < start.len()) implies (
            #[trigger] self.indices@[i]) < self.vertices@.len() by {
                if i < before.len() {
                    assert(self.indices@[i] == before[i]);
                } else {
                    assert(self.indices@[i] == added[i - before.len()]);
                }
            }
        }
    }
}

proof fn lemma_band_len(line: usize, n: nat)
    ensures
        band_vertices(line, n).len() == 2 * n,
    decreases n,
{
    if n > 0 {
        lemma_band_len(line, (n - 1) as nat);
    }
}

/// The indices of a band name the corners of that band and no others.
pub proof fn law_bands_are_disjoint(k: nat, base: int)
    requires
        base >= 0,
        base + 2 * k + 2 <= u32::MAX,
    ensures
        forall|i: int|
            0 <= i < band_indices(k, base).len() ==> base <= (#[trigger] band_indices(k, base)[i])
                < base + 2 * (k + 1),
        band_indices(k, base).len() == 6 * k,
    decreases k,
{
    if k > 0 {
        law_bands_are_disjoint((k - 1) as nat, base);
        let is = band_indices((k - 1) as nat, base);
        let now = band_indices(k, base);
        let b = base + 2 * (k - 1);
        let piece = seq![
            b as u32,
            (b + 1) as u32,
            (b + 2) as u32,
            (b + 1) as u32,
            (b + 3) as u32,
            (b + 2) as u32,
        ];
        assert forall|i: int| 0 <= i < now.len() implies base <= (#[trigger] now[i]) < base + 2 * (k
            + 1) by {
            if i < is.len() {
                assert(now[i] == is[i]);
            } else {
                assert(now[i] == piece[i - is.len()]);
            }
        }
    }
}

/// How many points of a band are drawn: fewer than two are not.
pub open spec fn drawn(points: usize) -> nat {
    if points >= 2 {
        points as nat
    } else {
        0
    }
}

/// How many pieces a band of `drawn` points has.
pub open spec fn gaps(drawn: nat) -> nat {
    if drawn >= 2 {
        (drawn - 1) as nat
    } else {
        0
    }
}

/// Room for all bands: their corners fit into the indices.
pub open spec fn band_room(bands: Seq<usize>, k: nat) -> int
    decreases k,
{
    if k == 0 {
        0
    } else {
        band_room(bands, (k - 1) as nat) + 2 * bands[k - 1]
    }
}

/// The corners of the first `k` bands.
pub open spec fn ribbon_vertices(bands: Seq<usize>, k: nat) -> Seq<Vertex>
    decreases k,
{
    if k == 0 {
        Seq::empty()
    } else {
        ribbon_vertices(bands, (k - 1) as nat) + band_vertices(
            (k - 1) as usize,
            drawn(bands[k - 1]),
        )
    }
}

/// The indices of the first `k` bands: each names its own corners only.
pub open spec fn ribbon_indices(bands: Seq<usize>, k: nat) -> Seq<u32>
    decreases k,
{
    if k == 0 {
        Seq::empty()
    } else {
        ribbon_indices(bands, (k - 1) as nat) + band_indices(
            gaps(drawn(bands[k - 1])),
            ribbon_vertices(bands, (k - 1) as nat).len() as int,
        )
    }
}

proof fn lemma_band_room_grows(bands: Seq<usize>, a: nat, b: nat)
    requires
        a <= b,
    ensures
        band_room(bands, a) <= band_room(bands, b),
    decreases b,
{
    if a < b {
        lemma_band_room_grows(bands, a, (b - 1) as nat);
    }
}

/// The ribbon of a single band; a band of fewer than two points has none.
pub fn build_band_mesh(points: usize) -> (plan: Option<MeshPlan>)
    requires
        2 * points <= u32::MAX,
    ensures
        plan is Some <==> points >= 2,
        plan matches Some(p) ==> {
            &&& p.vertices@ == band_vertices(0, points as nat)
            &&& p.indices@ == band_indices((points - 1) as nat, 0)
            &&& p.valid()
        },
{
    if points < 2 {
        return None;
    }
    let mut plan = MeshPlan::new();
    plan.append_band_segment(0, points);
    assert(plan.vertices@ =~= band_vertices(0, points as nat));
    assert(plan.indices@ =~= band_indices((points - 1) as nat, 0));
    Some(plan)
}

/// The one mesh of all bands, of which `bands[i]` is how many points band `i` has,
/// where it is to be built: the scene changed, or nothing has been built yet.
pub fn apply_mesh_band(bands: &Vec<usize>, scene_changed: bool, built: bool) -> (plan: Option<
    MeshPlan,
>)
    requires
        band_room(bands@, bands@.len()) <= u32::MAX,
    ensures
        plan is Some <==> (scene_changed || !built),
        plan matches Some(p) ==> {
            &&& p.vertices@ == ribbon_vertices(bands@, bands@.len())
            &&& p.indices@ == ribbon_indices(bands@, bands@.len())
            &&& p.valid()
        },
{
    if !needs_rebuild(scene_changed, built) {
        return None;
    }
    let mut plan = MeshPlan::new();
    assert(plan.vertices@ =~= ribbon_vertices(bands@, 0));
    assert(plan.indices@ =~= ribbon_indices(bands@, 0));
    for k in 0..bands.len()
        invariant
            band_room(bands@, bands@.len()) <= u32::MAX,
            plan.vertices@ == ribbon_vertices(bands@, k as nat),
            plan.indices@ == ribbon_indices(bands@, k as nat),
            plan.valid(),
            plan.vertices@.len() <= band_room(bands@, k as nat),
    {
        proof {
            lemma_band_room_grows(bands@, (k + 1) as nat, bands@.len());
            lemma_band_len(k, drawn(bands@[k as int]));
        }
        plan.append_band_segment(k, bands[k]);
        assert(plan.vertices@ =~= ribbon_vertices(bands@, (k + 1) as nat));
        assert(plan.indices@ =~= ribbon_indices(bands@, (k + 1) as nat));
    }
    Some(plan)
}

// ---- boxes ---------------------------------------------------------------

/// An axis-aligned box.
#[derive(Clone, Copy, PartialEq, Eq, Structural, Debug)]
pub struct Aabb {
    pub min_x: F32,
    pub min_y: F32,
    pub max_x: F32,
    pub max_y: F32,
}

/// The common part of two boxes; where they do not meet, its least corner lies
/// beyond its greatest.
pub open spec fn common(a: Aabb, b: Aabb) -> Aabb {
    Aabb {
        min_x: a.min_x.greater(b.min_x),
        min_y: a.min_y.greater(b.min_y),
        max_x: a.max_x.lesser(b.max_x),
        max_y: a.max_y.lesser(b.max_y),
    }
}

/// The common part of two boxes.
pub fn intersect_aabb(a: Aabb, b: Aabb) -> (c: Aabb)
    ensures
        c == common(a, b),
{
    Aabb {
        min_x: a.min_x.max(b.min_x),
        min_y: a.min_y.max(b.min_y),
        max_x: a.max_x.min(b.max_x),
        max_y: a.max_y.min(b.max_y),
    }
}

/// The common part lies inside both boxes.
pub proof fn law_clip_stays_inside(a: Aabb, b: Aabb)
    requires
        !a.min_x.nan() && !a.min_y.nan() && !a.max_x.nan() && !a.max_y.nan(),
        !b.min_x.nan() && !b.min_y.nan() && !b.max_x.nan() && !b.max_y.nan(),
    ensures
        a.min_x.at_most(common(a, b).min_x) && b.min_x.at_most(common(a, b).min_x),
        a.min_y.at_most(common(a, b).min_y) && b.min_y.at_most(common(a, b).min_y),
        common(a, b).max_x.at_most(a.max_x) && common(a, b).max_x.at_most(b.max_x),
        common(a, b).max_y.at_most(a.max_y) && common(a, b).max_y.at_most(b.max_y),
{
}

/// Bits of negative infinity.
pub const NEG_INFINITE: u32 = 0xff80_0000;

/// Bits of positive infinity.
pub const POS_INFINITE: u32 = 0x7f80_0000;

/// The box around the first `k` points; around none it is turned inside out.
pub open spec fn box_of(points: Seq<(F32, F32)>, k: nat) -> Aabb
    decreases k,
{
    if k == 0 {
        Aabb {
            min_x: F32 { bits: POS_INFINITE },
            min_y: F32 { bits: POS_INFINITE },
            max_x: F32 { bits: NEG_INFINITE },
            max_y: F32 { bits: NEG_INFINITE },
        }
    } else {
        let b = box_of(points, (k - 1) as nat);
        let (x, y) = points[k - 1];
        Aabb {
            min_x: if x.below(b.min_x) {
                x
            } else {
                b.min_x
            },
            min_y: if y.below(b.min_y) {
                y
            } else {
                b.min_y
            },
            max_x: if b.max_x.below(x) {
                x
            } else {
                b.max_x
            },
            max_y: if b.max_y.below(y) {
                y
            } else {
                b.max_y
            },
        }
    }
}

/// The box around a line, before it is widened by the stroke.
pub fn segment_bounds(points: &Vec<(F32, F32)>) -> (bounds: Aabb)
    ensures
        bounds == box_of(points@, points@.len()),
{
    let mut b = Aabb {
        min_x: F32 { bits: POS_INFINITE },
        min_y: F32 { bits: POS_INFINITE },
        max_x: F32 { bits: NEG_INFINITE },
        max_y: F32 { bits: NEG_INFINITE },
    };
    for i in 0..points.len()
        invariant
            b == box_of(points@, i as nat),
    {
        let (x, y) = points[i];
        if x.lt(b.min_x) {
            b.min_x = x;
        }
        if y.lt(b.min_y) {
            b.min_y = y;
        }
        if b.max_x.lt(x) {
            b.max_x = x;
        }
        if b.max_y.lt(y) {
            b.max_y = y;
        }
    }
    b
}

// ---- materials -----------------------------------------------------------

/// What a material is for.
#[derive(Clone, Copy, PartialEq, Eq, Structural, Debug)]
pub enum Coat {
    /// The trace: fades at the right edge, blended.
    Trace,
    /// The background fill: opaque, so that nothing behind it shines through.
    Fill,
    /// The grid lines: blended, without fade.
    Gridline,
}

impl Coat {
    /// Whether the leading edge fades.
    pub fn fades(self) -> (yes: bool)
        ensures
            yes == (self is Trace),
    {
        match self {
            Coat::Trace => true,
            _ => false,
        }
    }

    /// Whether the material is opaque.
    pub fn opaque(self) -> (yes: bool)
        ensures
            yes == (self is Fill),
    {
        match self {
            Coat::Fill => true,
            _ => false,
        }
    }
}

// ---- laws of the shapes --------------------------------------------------

/// How many of the first `s` joints are too sharp for a mitre.
pub open spec fn sharp_before(joints: Seq<Joint>, s: int) -> int
    decreases s,
{
    if s <= 0 {
        0
    } else {
        sharp_before(joints, s - 1) + (if s - 1 < joints.len() && (joints[s - 1]
            == Joint::BevelLeft || joints[s - 1] == Joint::BevelRight) {
            1int
        } else {
            0
        })
    }
}

/// Where the corners of piece `s` begin: behind four for each piece before it, and
/// three for each sharp joint.
pub open spec fn first_corner(joints: Seq<Joint>, s: int) -> int {
    4 * s + 3 * sharp_before(joints, s)
}

/// Where the indices of piece `s` begin: behind two triangles for each piece before
/// it, and one for each sharp joint.
pub open spec fn first_index(joints: Seq<Joint>, s: int) -> int {
    6 * s + 3 * sharp_before(joints, s)
}

proof fn lemma_corner_count(line: usize, joints: Seq<Joint>, k: nat, base: int)
    ensures
        line_vertices(line, joints, k).len() == first_corner(joints, k as int),
        line_indices(line, joints, k, base).len() == first_index(joints, k as int),
        sharp_before(joints, k as int) >= 0,
    decreases k,
{
    if k > 0 {
        lemma_corner_count(line, joints, (k - 1) as nat, base);
    }
}

/// Whether the corner `v` belongs to `line`, stands at `point`, and lies on `side`.
pub open spec fn stands_at(v: Vertex, line: int, point: int, side: Side) -> bool {
    &&& v.line == line
    &&& v.point == point
    &&& match v.offset {
        Offset::Start { side: s, .. } => s == side,
        Offset::End { side: s, .. } => s == side,
        Offset::Normal { side: s, .. } => s == side,
        _ => false,
    }
}

/// Every piece of a line is a quad that spans it from its first point to the next:
/// two corners at the point with which the piece starts, one on each side, offset as
/// it starts, and two at the next point, one on each side, offset as it ends. Its two
/// triangles share the diagonal and cover the four corners.
pub proof fn law_quads_span_their_pieces(
    line: usize,
    joints: Seq<Joint>,
    k: nat,
    base: int,
    s: int,
)
    requires
        0 <= s < k,
        k < usize::MAX,
        base >= 0,
        base + 7 * k <= u32::MAX,
    ensures
        ({
            let all = line_vertices(line, joints, k);
            let c = first_corner(joints, s);
            &&& 0 <= c && c + 4 <= all.len()
            &&& stands_at(all[c], line as int, s, Side::Plus)
            &&& stands_at(all[c + 1], line as int, s, Side::Minus)
            &&& stands_at(all[c + 2], line as int, s + 1, Side::Plus)
            &&& stands_at(all[c + 3], line as int, s + 1, Side::Minus)
            &&& all[c].offset matches Offset::Start { piece, .. } && piece == s
            &&& all[c + 1].offset matches Offset::Start { piece, .. } && piece == s
            &&& all[c + 2].offset matches Offset::End { piece, .. } && piece == s
            &&& all[c + 3].offset matches Offset::End { piece, .. } && piece == s
        }),
        ({
            let is = line_indices(line, joints, k, base);
            let c = base + first_corner(joints, s);
            let i = first_index(joints, s);
            &&& 0 <= i && i + 6 <= is.len()
            &&& is[i] == c && is[i + 1] == c + 1 && is[i + 2] == c + 2
            &&& is[i + 3] == c + 1 && is[i + 4] == c + 3 && is[i + 5] == c + 2
        }),
    decreases k,
{
    let j = (k - 1) as nat;
    lemma_corner_count(line, joints, j, base);
    lemma_corner_count(line, joints, k, base);
    law_strips_are_disjoint(line, joints, k, base);
    let vs = line_vertices(line, joints, j);
    let is = line_indices(line, joints, j, base);
    let all = line_vertices(line, joints, k);
    let alls = line_indices(line, joints, k, base);
    if s < j {
        law_quads_span_their_pieces(line, joints, j, base, s);
        let c = first_corner(joints, s);
        let i = first_index(joints, s);
        assert(all[c] == vs[c]);
        assert(all[c + 1] == vs[c + 1]);
        assert(all[c + 2] == vs[c + 2]);
        assert(all[c + 3] == vs[c + 3]);
        assert(alls[i] == is[i] && alls[i + 1] == is[i + 1] && alls[i + 2] == is[i + 2]);
        assert(alls[i + 3] == is[i + 3] && alls[i + 4] == is[i + 4] && alls[i + 5] == is[i + 5]);
    } else {
        let piece = piece_vertices(line, joints, s);
        let b = base + vs.len();
        let names = piece_indices(joints, s, b);
        let c = vs.len() as int;
        let i = is.len() as int;
        assert(all[c] == piece[0]);
        assert(all[c + 1] == piece[1]);
        assert(all[c + 2] == piece[2]);
        assert(all[c + 3] == piece[3]);
        assert(alls[i] == names[0] && alls[i + 1] == names[1] && alls[i + 2] == names[2]);
        assert(alls[i + 3] == names[3] && alls[i + 4] == names[4] && alls[i + 5] == names[5]);
    }
}

/// Every joint that is too sharp for a mitre has a triangle on its outer side, the
/// upper one where the line turns left: between the end of the piece before it, the
/// start of the piece behind it and the joint itself, wound to face the viewer.
pub proof fn law_sharp_joints_are_filled(
    line: usize,
    joints: Seq<Joint>,
    k: nat,
    base: int,
    s: int,
)
    requires
        0 <= s < k,
        s < joints.len(),
        k < usize::MAX,
        base >= 0,
        base + 7 * k <= u32::MAX,
        joints[s] == Joint::BevelLeft || joints[s] == Joint::BevelRight,
    ensures
        ({
            let all = line_vertices(line, joints, k);
            let c = first_corner(joints, s) + 4;
            let side = if joints[s] == Joint::BevelLeft {
                Side::Plus
            } else {
                Side::Minus
            };
            &&& 0 <= c && c + 3 <= all.len()
            &&& all[c].line == line && all[c].point == s + 1
            &&& all[c].offset matches Offset::End { piece, side: a } && piece == s && a == side
            &&& all[c + 1].line == line && all[c + 1].point == s + 1
            &&& all[c + 1].offset matches Offset::Normal { piece, side: a } && piece == s + 1 && a
                == side
            &&& all[c + 2].line == line && all[c + 2].point == s + 1
            &&& all[c + 2].offset is Center
        }),
        ({
            let is = line_indices(line, joints, k, base);
            let c = base + first_corner(joints, s) + 4;
            let i = first_index(joints, s) + 6;
            &&& 0 <= i && i + 3 <= is.len()
            &&& is[i] == c
            &&& joints[s] == Joint::BevelLeft ==> is[i + 1] == c + 1 && is[i + 2] == c + 2
            &&& joints[s] == Joint::BevelRight ==> is[i + 1] == c + 2 && is[i + 2] == c + 1
        }),
    decreases k,
{
    let j = (k - 1) as nat;
    lemma_corner_count(line, joints, j, base);
    lemma_corner_count(line, joints, k, base);
    law_strips_are_disjoint(line, joints, k, base);
    let vs = line_vertices(line, joints, j);
    let is = line_indices(line, joints, j, base);
    let all = line_vertices(line, joints, k);
    let alls = line_indices(line, joints, k, base);
    if s < j {
        law_sharp_joints_are_filled(line, joints, j, base, s);
        let c = first_corner(joints, s) + 4;
        let i = first_index(joints, s) + 6;
        assert(all[c] == vs[c] && all[c + 1] == vs[c + 1] && all[c + 2] == vs[c + 2]);
        assert(alls[i] == is[i] && alls[i + 1] == is[i + 1] && alls[i + 2] == is[i + 2]);
    } else {
        let piece = piece_vertices(line, joints, s);
        let names = piece_indices(joints, s, base + vs.len());
        let c = vs.len() as int + 4;
        let i = is.len() as int + 6;
        assert(all[c] == piece[4] && all[c + 1] == piece[5] && all[c + 2] == piece[6]);
        assert(alls[i] == names[6] && alls[i + 1] == names[7] && alls[i + 2] == names[8]);
    }
}

/// A line has four corners and two triangles for each piece, three corners and one
/// triangle more for each sharp joint, and one piece less than points. So every point
/// of a drawn line carries a corner on either side.
pub proof fn law_a_line_is_drawn_from_end_to_end(
    line: usize,
    joints: Seq<Joint>,
    points: usize,
    base: int,
    p: int,
)
    requires
        points >= 2,
        0 <= p < points,
        base >= 0,
        base + 7 * points <= u32::MAX,
    ensures
        pieces(points) == points - 1,
        line_vertices(line, joints, pieces(points)).len() == first_corner(joints, points - 1),
        line_indices(line, joints, pieces(points), base).len() == first_index(joints, points - 1),
        exists|c: int|
            0 <= c < line_vertices(line, joints, pieces(points)).len() && stands_at(
                #[trigger] line_vertices(line, joints, pieces(points))[c],
                line as int,
                p,
                Side::Plus,
            ),
        exists|c: int|
            0 <= c < line_vertices(line, joints, pieces(points)).len() && stands_at(
                #[trigger] line_vertices(line, joints, pieces(points))[c],
                line as int,
                p,
                Side::Minus,
            ),
{
    let k = pieces(points);
    let all = line_vertices(line, joints, k);
    lemma_corner_count(line, joints, k, base);
    if p < points - 1 {
        law_quads_span_their_pieces(line, joints, k, base, p);
        let c = first_corner(joints, p);
        assert(stands_at(all[c], line as int, p, Side::Plus));
        assert(stands_at(all[c + 1], line as int, p, Side::Minus));
    } else {
        law_quads_span_their_pieces(line, joints, k, base, p - 1);
        let c = first_corner(joints, p - 1);
        assert(stands_at(all[c + 2], line as int, p, Side::Plus));
        assert(stands_at(all[c + 3], line as int, p, Side::Minus));
    }
}

/// A line of fewer than two points has no piece and is not drawn.
pub proof fn law_short_lines_are_not_drawn(line: usize, joints: Seq<Joint>, points: usize, base: int)
    requires
        points < 2,
    ensures
        line_vertices(line, joints, pieces(points)).len() == 0,
        line_indices(line, joints, pieces(points), base).len() == 0,
{
}

/// The mesh of all lines holds the corners of each line, in order and under its
/// number, behind those of the lines before it, and indices that name them there.
pub proof fn law_a_mesh_holds_every_line(lines: Seq<Polyline>, k: nat, n: int)
    requires
        0 <= n < k <= lines.len(),
        lines.len() <= usize::MAX,
    ensures
        ({
            let joints = lines[n].joints@;
            let count = pieces(lines[n].points);
            let c = mesh_vertices(lines, n as nat).len() as int;
            let i = mesh_indices(lines, n as nat).len() as int;
            let corners = line_vertices(n as usize, joints, count);
            let names = line_indices(n as usize, joints, count, c);
            &&& c + corners.len() <= mesh_vertices(lines, k).len()
            &&& i + names.len() <= mesh_indices(lines, k).len()
            &&& mesh_vertices(lines, k).subrange(c, c + corners.len()) == corners
            &&& mesh_indices(lines, k).subrange(i, i + names.len()) == names
            &&& n == 0 ==> c == 0 && i == 0
            &&& n + 1 == k ==> c + corners.len() == mesh_vertices(lines, k).len() && i
                + names.len() == mesh_indices(lines, k).len()
        }),
    decreases k,
{
    let j = (k - 1) as nat;
    let joints = lines[n].joints@;
    let count = pieces(lines[n].points);
    let c = mesh_vertices(lines, n as nat).len() as int;
    let i = mesh_indices(lines, n as nat).len() as int;
    let corners = line_vertices(n as usize, joints, count);
    let names = line_indices(n as usize, joints, count, c);
    if n < j {
        law_a_mesh_holds_every_line(lines, j, n);
        assert(mesh_vertices(lines, k).subrange(c, c + corners.len()) =~= mesh_vertices(
            lines,
            j,
        ).subrange(c, c + corners.len()));
        assert(mesh_indices(lines, k).subrange(i, i + names.len()) =~= mesh_indices(
            lines,
            j,
        ).subrange(i, i + names.len()));
    } else {
        assert(mesh_vertices(lines, k).subrange(c, c + corners.len()) =~= corners);
        assert(mesh_indices(lines, k).subrange(i, i + names.len()) =~= names);
    }
}

/// A band has for every point one corner above it and one below it, in order.
pub proof fn law_bands_have_two_rails(line: usize, n: nat, p: int)
    requires
        0 <= p < n,
        n <= usize::MAX,
    ensures
        band_vertices(line, n).len() == 2 * n,
        band_vertices(line, n)[2 * p].line == line,
        band_vertices(line, n)[2 * p].point == p,
        band_vertices(line, n)[2 * p].offset is Top,
        band_vertices(line, n)[2 * p + 1].line == line,
        band_vertices(line, n)[2 * p + 1].point == p,
        band_vertices(line, n)[2 * p + 1].offset is Bottom,
    decreases n,
{
    lemma_band_len(line, n);
    lemma_band_len(line, (n - 1) as nat);
    if p < n - 1 {
        law_bands_have_two_rails(line, (n - 1) as nat, p);
        let before = band_vertices(line, (n - 1) as nat);
        assert(band_vertices(line, n)[2 * p] == before[2 * p]);
        assert(band_vertices(line, n)[2 * p + 1] == before[2 * p + 1]);
    }
}

/// Between every point of a band and the next lie two triangles that cover their four
/// corners and share the diagonal.
pub proof fn law_bands_are_filled(k: nat, base: int, s: int)
    requires
        0 <= s < k,
        base >= 0,
        base + 2 * k + 2 <= u32::MAX,
    ensures
        band_indices(k, base).len() == 6 * k,
        ({
            let c = base + 2 * s;
            let is = band_indices(k, base);
            &&& is[6 * s] == c && is[6 * s + 1] == c + 1 && is[6 * s + 2] == c + 2
            &&& is[6 * s + 3] == c + 1 && is[6 * s + 4] == c + 3 && is[6 * s + 5] == c + 2
        }),
    decreases k,
{
    let j = (k - 1) as nat;
    law_bands_are_disjoint(k, base);
    law_bands_are_disjoint(j, base);
    let now = band_indices(k, base);
    let before = band_indices(j, base);
    if s < j {
        law_bands_are_filled(j, base, s);
        let i = 6 * s;
        assert(now[i] == before[i] && now[i + 1] == before[i + 1] && now[i + 2] == before[i + 2]);
        assert(now[i + 3] == before[i + 3] && now[i + 4] == before[i + 4] && now[i + 5]
            == before[i + 5]);
    }
}

/// The mesh of all bands holds the corners of each band that has two points or more,
/// in order and under its number, behind those before it, and indices that name them.
pub proof fn law_a_ribbon_mesh_holds_every_band(bands: Seq<usize>, k: nat, n: int)
    requires
        0 <= n < k <= bands.len(),
        bands.len() <= usize::MAX,
    ensures
        ({
            let points = bands[n];
            let c = ribbon_vertices(bands, n as nat).len() as int;
            let i = ribbon_indices(bands, n as nat).len() as int;
            let corners = if points >= 2 {
                band_vertices(n as usize, points as nat)
            } else {
                Seq::empty()
            };
            let names = if points >= 2 {
                band_indices((points - 1) as nat, c)
            } else {
                Seq::empty()
            };
            &&& c + corners.len() <= ribbon_vertices(bands, k).len()
            &&& i + names.len() <= ribbon_indices(bands, k).len()
            &&& ribbon_vertices(bands, k).subrange(c, c + corners.len()) == corners
            &&& ribbon_indices(bands, k).subrange(i, i + names.len()) == names
            &&& n == 0 ==> c == 0 && i == 0
            &&& n + 1 == k ==> c + corners.len() == ribbon_vertices(bands, k).len() && i
                + names.len() == ribbon_indices(bands, k).len()
        }),
    decreases k,
{
    let j = (k - 1) as nat;
    let points = bands[n];
    let c = ribbon_vertices(bands, n as nat).len() as int;
    let i = ribbon_indices(bands, n as nat).len() as int;
    let corners = if points >= 2 {
        band_vertices(n as usize, points as nat)
    } else {
        Seq::empty()
    };
    let names = if points >= 2 {
        band_indices((points - 1) as nat, c)
    } else {
        Seq::empty()
    };
    if n < j {
        law_a_ribbon_mesh_holds_every_band(bands, j, n);
        assert(ribbon_vertices(bands, k).subrange(c, c + corners.len())
            =~= ribbon_vertices(bands, j).subrange(c, c + corners.len()));
        assert(ribbon_indices(bands, k).subrange(i, i + names.len()) =~= ribbon_indices(
            bands,
            j,
        ).subrange(i, i + names.len()));
    } else {
        assert(band_vertices(n as usize, drawn(points)) =~= corners);
        assert(band_indices(gaps(drawn(points)), c) =~= names);
        assert(ribbon_vertices(bands, k).subrange(c, c + corners.len()) =~= corners);
        assert(ribbon_indices(bands, k).subrange(i, i + names.len()) =~= names);
    }
}

/// Joints: a mitre as long as the normals do not stand further apart than the limit,
/// beyond that a bevel on the side to which the line turns.
pub proof fn law_joints_follow_the_turn(dot: F32, cross: F32)
    ensures
        joint_of(dot, cross) is Miter <==> !dot.below(F32 { bits: 0x3eaf_1aa0 }),
        joint_of(dot, cross) is BevelLeft <==> dot.below(F32 { bits: 0x3eaf_1aa0 }) && (F32 {
            bits: 0,
        }).below(cross),
        joint_of(dot, cross) is BevelRight <==> dot.below(F32 { bits: 0x3eaf_1aa0 }) && !(F32 {
            bits: 0,
        }).below(cross),
{
}

/// A piece is cut along the mitre exactly at those of its ends where it meets another
/// piece in a mitred joint.
pub proof fn law_cuts_follow_the_joints(joints: Seq<Joint>, s: int)
    requires
        0 <= s < joints.len(),
    ensures
        ends_with(joints, s) is Miter <==> joints[s] == Joint::Miter,
        starts_with(joints, s + 1) is Miter <==> joints[s] == Joint::Miter,
{
}

/// The box around points holds every one of them that is a number, and each of its
/// edges touches one of them.
pub proof fn law_boxes_hold_their_points(points: Seq<(F32, F32)>, k: nat, i: int)
    requires
        0 <= i < k <= points.len(),
        !points[i].0.nan(),
        !points[i].1.nan(),
    ensures
        box_of(points, k).min_x.at_most(points[i].0),
        points[i].0.at_most(box_of(points, k).max_x),
        box_of(points, k).min_y.at_most(points[i].1),
        points[i].1.at_most(box_of(points, k).max_y),
    decreases k,
{
    lemma_boxes_are_numbers(points, (k - 1) as nat);
    if i < k - 1 {
        law_boxes_hold_their_points(points, (k - 1) as nat, i);
    }
}

proof fn lemma_boxes_are_numbers(points: Seq<(F32, F32)>, k: nat)
    requires
        k <= points.len(),
    ensures
        !box_of(points, k).min_x.nan(),
        !box_of(points, k).min_y.nan(),
        !box_of(points, k).max_x.nan(),
        !box_of(points, k).max_y.nan(),
    decreases k,
{
    if k > 0 {
        lemma_boxes_are_numbers(points, (k - 1) as nat);
    }
}

/// Each edge of the box around points is that of no point, and then infinitely far
/// out on the other side, or touches one of them.
pub proof fn law_boxes_touch_their_points(points: Seq<(F32, F32)>, k: nat)
    requires
        k <= points.len(),
    ensures
        box_of(points, k).min_x.bits == 0x7f80_0000 || exists|i: int|
            0 <= i < k && (#[trigger] points[i]).0 == box_of(points, k).min_x,
        box_of(points, k).min_y.bits == 0x7f80_0000 || exists|i: int|
            0 <= i < k && (#[trigger] points[i]).1 == box_of(points, k).min_y,
        box_of(points, k).max_x.bits == 0xff80_0000 || exists|i: int|
            0 <= i < k && (#[trigger] points[i]).0 == box_of(points, k).max_x,
        box_of(points, k).max_y.bits == 0xff80_0000 || exists|i: int|
            0 <= i < k && (#[trigger] points[i]).1 == box_of(points, k).max_y,
    decreases k,
{
    if k > 0 {
        law_boxes_touch_their_points(points, (k - 1) as nat);
        let last = points[k - 1];
    }
}

/// The common part of two boxes is the greatest box inside both: each of its edges is
/// an edge of one of the two.
pub proof fn law_clip_takes_the_inner_edges(a: Aabb, b: Aabb)
    ensures
        common(a, b).min_x == a.min_x || common(a, b).min_x == b.min_x,
        common(a, b).min_y == a.min_y || common(a, b).min_y == b.min_y,
        common(a, b).max_x == a.max_x || common(a, b).max_x == b.max_x,
        common(a, b).max_y == a.max_y || common(a, b).max_y == b.max_y,
        a.min_x.below(b.min_x) ==> common(a, b).min_x == b.min_x,
        b.min_x.below(a.min_x) ==> common(a, b).min_x == a.min_x,
        a.min_y.below(b.min_y) ==> common(a, b).min_y == b.min_y,
        b.min_y.below(a.min_y) ==> common(a, b).min_y == a.min_y,
        a.max_x.below(b.max_x) ==> common(a, b).max_x == a.max_x,
        b.max_x.below(a.max_x) ==> common(a, b).max_x == b.max_x,
        a.max_y.below(b.max_y) ==> common(a, b).max_y == a.max_y,
        b.max_y.below(a.max_y) ==> common(a, b).max_y == b.max_y,
{
}

/// A line is whole where it has a joint for each point between its first and its
/// last; a line that is not drawn needs none. A mesh is whole where every index names
/// one of its corners.
pub proof fn law_which_lines_are_whole(line: Polyline, plan: MeshPlan, i: int)
    ensures
        line.points >= 2 ==> (line.valid() <==> line.joints@.len() == line.points - 2),
        line.points < 2 ==> line.valid(),
        plan.valid() && 0 <= i < plan.indices@.len() ==> plan.indices@[i] < plan.vertices@.len(),
{
}

}
