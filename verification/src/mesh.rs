use vstd::prelude::*;
use crate::point::{Point3, pt, fits_i32};
use crate::block_set::BlockSet;
use crate::spawner::CubeSpawner;

verus! {

/// Triangle-mesh buffers: vertex positions, one normal per vertex, and
/// triangle indices into the vertex list (three per triangle).
pub struct MeshInfo {
    pub vertices: Vec<Point3>,
    pub normals: Vec<Point3>,
    pub indices: Vec<i32>,
}

/// The contents of a [`MeshInfo`].
pub struct MeshView {
    pub vertices: Seq<Point3>,
    pub normals: Seq<Point3>,
    pub indices: Seq<i32>,
}

/// A quadrilateral face: four corners in winding order and its normal.
#[derive(Clone, Copy, Debug, PartialEq, Eq, Structural)]
pub struct Quad {
    pub a: Point3,
    pub b: Point3,
    pub c: Point3,
    pub d: Point3,
    pub normal: Point3,
}

impl View for MeshInfo {
    type V = MeshView;

    open spec fn view(&self) -> MeshView {
        MeshView { vertices: self.vertices@, normals: self.normals@, indices: self.indices@ }
    }
}

/// A mesh with no vertices and no triangles.
pub open spec fn empty_mesh() -> MeshView {
    MeshView { vertices: Seq::empty(), normals: Seq::empty(), indices: Seq::empty() }
}

impl MeshView {
    /// The mesh with quad `q` appended: its four corners and four copies of
    /// its normal at the end of the vertex buffers, and the two triangles
    /// `(n, n+1, n+2)` and `(n, n+2, n+3)` over them, where `n` is the
    /// vertex count before (taken as an `i32`).
    #[verifier::opaque]
    pub open spec fn with_quad(self, q: Quad) -> MeshView {
        let n = self.vertices.len() as i32;
        MeshView {
            vertices: self.vertices + seq![q.a, q.b, q.c, q.d],
            normals: self.normals + seq![q.normal, q.normal, q.normal, q.normal],
            indices: self.indices + seq![
                n,
                (n + 1) as i32,
                (n + 2) as i32,
                n,
                (n + 2) as i32,
                (n + 3) as i32,
            ],
        }
    }

    /// The mesh with the quads of `qs` appended in order.
    pub open spec fn with_quads(self, qs: Seq<Quad>) -> MeshView
        decreases qs.len(),
    {
        if qs.len() == 0 {
            self
        } else {
            self.with_quads(qs.drop_last()).with_quad(qs.last())
        }
    }

    /// A well-formed mesh: one normal per vertex, whole triangles made of
    /// two per four vertices, and every index naming an existing vertex.
    pub open spec fn wf(self) -> bool {
        &&& self.normals.len() == self.vertices.len()
        &&& 2 * self.indices.len() == 3 * self.vertices.len()
        &&& forall|i: int|
            0 <= i < self.indices.len() ==> 0 <= #[trigger] self.indices[i] < self.vertices.len()
    }
}

/// Appending a quad keeps a mesh well formed, and adds four vertices.
pub proof fn lemma_with_quad_wf(m: MeshView, q: Quad)
    requires
        m.wf(),
        m.vertices.len() + 4 <= i32::MAX,
    ensures
        m.with_quad(q).wf(),
        m.with_quad(q).vertices.len() == m.vertices.len() + 4,
{
    reveal(MeshView::with_quad);
    let r = m.with_quad(q);
    assert forall|i: int| 0 <= i < r.indices.len() implies 0 <= #[trigger] r.indices[i]
        < r.vertices.len() by {
        if i < m.indices.len() {
            assert(r.indices[i] == m.indices[i]);
        }
    }
}

/// Appending quads keeps a mesh well formed, and adds four vertices per quad.
pub proof fn lemma_with_quads_wf(m: MeshView, qs: Seq<Quad>)
    requires
        m.wf(),
        m.vertices.len() + 4 * qs.len() <= i32::MAX,
    ensures
        m.with_quads(qs).wf(),
        m.with_quads(qs).vertices.len() == m.vertices.len() + 4 * qs.len(),
    decreases qs.len(),
{
    if qs.len() > 0 {
        lemma_with_quads_wf(m, qs.drop_last());
        lemma_with_quad_wf(m.with_quads(qs.drop_last()), qs.last());
    }
}

/// Appending quads adds four vertices per quad.
pub proof fn lemma_with_quads_len(m: MeshView, qs: Seq<Quad>)
    ensures
        m.with_quads(qs).vertices.len() == m.vertices.len() + 4 * qs.len(),
    decreases qs.len(),
{
    reveal(MeshView::with_quad);
    if qs.len() > 0 {
        lemma_with_quads_len(m, qs.drop_last());
    }
}

/// Appending the quads of `qs` and then `q` is appending `qs.push(q)`.
pub proof fn lemma_with_quads_push(m: MeshView, qs: Seq<Quad>, q: Quad)
    ensures
        m.with_quads(qs.push(q)) == m.with_quads(qs).with_quad(q),
{
    assert(qs.push(q).drop_last() =~= qs);
}

/// Appending `a` then `b` is appending `a + b`.
pub proof fn lemma_with_quads_concat(m: MeshView, a: Seq<Quad>, b: Seq<Quad>)
    ensures
        m.with_quads(a).with_quads(b) == m.with_quads(a + b),
    decreases b.len(),
{
    if b.len() == 0 {
        assert(a + b =~= a);
    } else {
        lemma_with_quads_concat(m, a, b.drop_last());
        assert((a + b).drop_last() =~= a + b.drop_last());
        assert((a + b).last() == b.last());
    }
}

/// Whether the neighbours of a block at `p`, `m` away along each axis,
/// have representable coordinates.
pub open spec fn cube_fits(p: Point3, m: int) -> bool {
    &&& fits_i32(p.x + m) && fits_i32(p.x - m)
    &&& fits_i32(p.y + m) && fits_i32(p.y - m)
    &&& fits_i32(p.z + m) && fits_i32(p.z - m)
}

/// `s` with `q` appended when `cond` holds.
pub open spec fn push_if(s: Seq<Quad>, cond: bool, q: Quad) -> Seq<Quad> {
    if cond {
        s.push(q)
    } else {
        s
    }
}

/// The top face of the block of size `m` at `p` (up is `+y`, forward is `-z`,
/// right is `+x`).
pub open spec fn up_face(p: Point3, m: int) -> Quad {
    Quad { a: p.plus(0, m, 0), b: p.plus(0, m, -m), c: p.plus(m, m, -m), d: p.plus(m, m, 0), normal: pt(0, 1, 0) }
}

/// The bottom face of the block of size `m` at `p`.
pub open spec fn down_face(p: Point3, m: int) -> Quad {
    Quad { a: p.plus(m, 0, 0), b: p.plus(m, 0, -m), c: p.plus(0, 0, -m), d: p, normal: pt(0, -1, 0) }
}

/// The `+x` face of the block of size `m` at `p`.
pub open spec fn right_face(p: Point3, m: int) -> Quad {
    Quad { a: p.plus(m, 0, 0), b: p.plus(m, m, 0), c: p.plus(m, m, -m), d: p.plus(m, 0, -m), normal: pt(1, 0, 0) }
}

/// The `-x` face of the block of size `m` at `p`.
pub open spec fn left_face(p: Point3, m: int) -> Quad {
    Quad { a: p.plus(0, 0, -m), b: p.plus(0, m, -m), c: p.plus(0, m, 0), d: p, normal: pt(-1, 0, 0) }
}

/// The `-z` face of the block of size `m` at `p`.
pub open spec fn forward_face(p: Point3, m: int) -> Quad {
    Quad { a: p.plus(0, 0, -m), b: p.plus(m, 0, -m), c: p.plus(m, m, -m), d: p.plus(0, m, -m), normal: pt(0, 0, -1) }
}

/// The `+z` face of the block of size `m` at `p`.
pub open spec fn back_face(p: Point3, m: int) -> Quad {
    Quad { a: p.plus(0, m, 0), b: p.plus(m, m, 0), c: p.plus(m, 0, 0), d: p, normal: pt(0, 0, 1) }
}

/// The visible faces of the block at `p` among the blocks `blocks`, all of
/// size `m`: each face is drawn exactly when the cell `m` away in its
/// direction is empty. Order: top, bottom, `+x`, `-x`, `-z`, `+z`.
pub open spec fn cube_faces(p: Point3, blocks: Set<Point3>, m: int) -> Seq<Quad> {
    let s0 = Seq::<Quad>::empty();
    let s1 = push_if(s0, !blocks.contains(p.plus(0, m, 0)), up_face(p, m));
    let s2 = push_if(s1, !blocks.contains(p.plus(0, -m, 0)), down_face(p, m));
    let s3 = push_if(s2, !blocks.contains(p.plus(m, 0, 0)), right_face(p, m));
    let s4 = push_if(s3, !blocks.contains(p.plus(-m, 0, 0)), left_face(p, m));
    let s5 = push_if(s4, !blocks.contains(p.plus(0, 0, -m)), forward_face(p, m));
    push_if(s5, !blocks.contains(p.plus(0, 0, m)), back_face(p, m))
}

/// The mesh of the blocks `blocks`, each drawn in turn among `occupied`.
pub open spec fn blocks_mesh(blocks: Seq<Point3>, occupied: Set<Point3>, m: int) -> MeshView
    decreases blocks.len(),
{
    if blocks.len() == 0 {
        empty_mesh()
    } else {
        blocks_mesh(blocks.drop_last(), occupied, m).with_quads(
            cube_faces(blocks.last(), occupied, m),
        )
    }
}

/// Hidden-face culling: each face of a block is drawn exactly when the cell
/// next to it in its direction is empty. In particular the face between
/// two adjacent blocks is drawn by neither.
pub proof fn law_face_drawn_iff_open(p: Point3, blocks: Set<Point3>, m: int)
    ensures
        cube_faces(p, blocks, m).contains(up_face(p, m)) <==> !blocks.contains(p.plus(0, m, 0)),
        cube_faces(p, blocks, m).contains(down_face(p, m)) <==> !blocks.contains(p.plus(0, -m, 0)),
        cube_faces(p, blocks, m).contains(right_face(p, m)) <==> !blocks.contains(p.plus(m, 0, 0)),
        cube_faces(p, blocks, m).contains(left_face(p, m)) <==> !blocks.contains(p.plus(-m, 0, 0)),
        cube_faces(p, blocks, m).contains(forward_face(p, m)) <==> !blocks.contains(p.plus(0, 0, -m)),
        cube_faces(p, blocks, m).contains(back_face(p, m)) <==> !blocks.contains(p.plus(0, 0, m)),
        cube_faces(p, blocks, m).len() <= 6,
{
    let s0 = Seq::<Quad>::empty();
    let s1 = push_if(s0, !blocks.contains(p.plus(0, m, 0)), up_face(p, m));
    let s2 = push_if(s1, !blocks.contains(p.plus(0, -m, 0)), down_face(p, m));
    let s3 = push_if(s2, !blocks.contains(p.plus(m, 0, 0)), right_face(p, m));
    let s4 = push_if(s3, !blocks.contains(p.plus(-m, 0, 0)), left_face(p, m));
    let s5 = push_if(s4, !blocks.contains(p.plus(0, 0, -m)), forward_face(p, m));
    lemma_push_if_contains(s0, !blocks.contains(p.plus(0, m, 0)), up_face(p, m));
    lemma_push_if_contains(s1, !blocks.contains(p.plus(0, -m, 0)), down_face(p, m));
    lemma_push_if_contains(s2, !blocks.contains(p.plus(m, 0, 0)), right_face(p, m));
    lemma_push_if_contains(s3, !blocks.contains(p.plus(-m, 0, 0)), left_face(p, m));
    lemma_push_if_contains(s4, !blocks.contains(p.plus(0, 0, -m)), forward_face(p, m));
    lemma_push_if_contains(s5, !blocks.contains(p.plus(0, 0, m)), back_face(p, m));
}

/// Appending quads never overwrites: the old buffers are prefixes of the new
/// ones, and every new index names a new vertex.
pub proof fn law_mesh_append_only(m: MeshView, qs: Seq<Quad>)
    requires
        m.vertices.len() + 4 * qs.len() <= i32::MAX,
    ensures
        m.vertices.is_prefix_of(m.with_quads(qs).vertices),
        m.normals.is_prefix_of(m.with_quads(qs).normals),
        m.indices.is_prefix_of(m.with_quads(qs).indices),
        forall|i: int|
            m.indices.len() <= i < m.with_quads(qs).indices.len() ==> m.vertices.len()
                <= #[trigger] m.with_quads(qs).indices[i] < m.with_quads(qs).vertices.len(),
    decreases qs.len(),
{
    reveal(MeshView::with_quad);
    if qs.len() > 0 {
        let m1 = m.with_quads(qs.drop_last());
        law_mesh_append_only(m, qs.drop_last());
        lemma_with_quads_len(m, qs.drop_last());
        let m2 = m1.with_quad(qs.last());
        assert forall|i: int| m.indices.len() <= i < m2.indices.len() implies m.vertices.len()
            <= #[trigger] m2.indices[i] < m2.vertices.len() by {
            if i < m1.indices.len() {
                assert(m2.indices[i] == m1.indices[i]);
            }
        }
    }
}

/// A block's faces depend only on its six neighbouring cells: two sets of
/// blocks that agree on those give the same faces.
pub proof fn law_faces_depend_on_neighbours(p: Point3, s1: Set<Point3>, s2: Set<Point3>, m: int)
    requires
        s1.contains(p.plus(0, m, 0)) == s2.contains(p.plus(0, m, 0)),
        s1.contains(p.plus(0, -m, 0)) == s2.contains(p.plus(0, -m, 0)),
        s1.contains(p.plus(m, 0, 0)) == s2.contains(p.plus(m, 0, 0)),
        s1.contains(p.plus(-m, 0, 0)) == s2.contains(p.plus(-m, 0, 0)),
        s1.contains(p.plus(0, 0, -m)) == s2.contains(p.plus(0, 0, -m)),
        s1.contains(p.plus(0, 0, m)) == s2.contains(p.plus(0, 0, m)),
    ensures
        cube_faces(p, s1, m) == cube_faces(p, s2, m),
{
}

/// Adding blocks only hides faces: with more blocks around it, a block
/// draws a subset of the faces it drew before, and no more of them.
pub proof fn law_more_blocks_fewer_faces(p: Point3, s1: Set<Point3>, s2: Set<Point3>, m: int)
    requires
        s1.subset_of(s2),
    ensures
        cube_faces(p, s2, m).len() <= cube_faces(p, s1, m).len(),
        forall|q: Quad| #[trigger] cube_faces(p, s2, m).contains(q) ==> cube_faces(p, s1, m).contains(q),
{
    law_face_drawn_iff_open(p, s1, m);
    law_face_drawn_iff_open(p, s2, m);
    assert forall|q: Quad| #[trigger] cube_faces(p, s2, m).contains(q) implies cube_faces(p, s1, m).contains(q) by {
        lemma_faces_among_six(p, s2, m, q);
    }
}

/// Whether `v` is a corner of the cube of the block of size `m` at `p`
/// (which spans `+x`, `+y` and `-z` from `p`).
pub open spec fn on_block_cube(v: Point3, p: Point3, m: int) -> bool {
    &&& (v.x == p.x || v.x == p.x + m)
    &&& (v.y == p.y || v.y == p.y + m)
    &&& (v.z == p.z - m || v.z == p.z)
}

/// Face geometry, over every block and every set of blocks: each drawn face
/// has its four corners on the block's cube, all four in the side of the
/// cube that its normal points to, pairwise distinct when the block has a
/// size, and a unit axis normal.
pub proof fn law_faces_on_cube(p: Point3, blocks: Set<Point3>, m: int, q: Quad)
    requires
        cube_fits(p, m),
        cube_faces(p, blocks, m).contains(q),
    ensures
        on_block_cube(q.a, p, m),
        on_block_cube(q.b, p, m),
        on_block_cube(q.c, p, m),
        on_block_cube(q.d, p, m),
        q.normal == (Point3 { x: 0, y: 1, z: 0 }) ==> q.a.y == p.y + m && q.b.y == p.y + m && q.c.y == p.y + m && q.d.y == p.y + m,
        q.normal == (Point3 { x: 0, y: -1i32, z: 0 }) ==> q.a.y == p.y && q.b.y == p.y && q.c.y == p.y && q.d.y == p.y,
        q.normal == (Point3 { x: 1, y: 0, z: 0 }) ==> q.a.x == p.x + m && q.b.x == p.x + m && q.c.x == p.x + m && q.d.x == p.x + m,
        q.normal == (Point3 { x: -1i32, y: 0, z: 0 }) ==> q.a.x == p.x && q.b.x == p.x && q.c.x == p.x && q.d.x == p.x,
        q.normal == (Point3 { x: 0, y: 0, z: -1i32 }) ==> q.a.z == p.z - m && q.b.z == p.z - m && q.c.z == p.z - m && q.d.z == p.z - m,
        q.normal == (Point3 { x: 0, y: 0, z: 1 }) ==> q.a.z == p.z && q.b.z == p.z && q.c.z == p.z && q.d.z == p.z,
        q.normal == (Point3 { x: 0, y: 1, z: 0 }) || q.normal == (Point3 { x: 0, y: -1i32, z: 0 })
            || q.normal == (Point3 { x: 1, y: 0, z: 0 }) || q.normal == (Point3 { x: -1i32, y: 0, z: 0 })
            || q.normal == (Point3 { x: 0, y: 0, z: -1i32 }) || q.normal == (Point3 { x: 0, y: 0, z: 1 }),
        m != 0 ==> q.a != q.b && q.a != q.c && q.a != q.d && q.b != q.c && q.b != q.d && q.c != q.d,
{
    lemma_faces_among_six(p, blocks, m, q);
}

proof fn lemma_faces_among_six(p: Point3, blocks: Set<Point3>, m: int, q: Quad)
    requires
        cube_faces(p, blocks, m).contains(q),
    ensures
        q == up_face(p, m) || q == down_face(p, m) || q == right_face(p, m) || q == left_face(p, m)
            || q == forward_face(p, m) || q == back_face(p, m),
{
    let s0 = Seq::<Quad>::empty();
    let s1 = push_if(s0, !blocks.contains(p.plus(0, m, 0)), up_face(p, m));
    let s2 = push_if(s1, !blocks.contains(p.plus(0, -m, 0)), down_face(p, m));
    let s3 = push_if(s2, !blocks.contains(p.plus(m, 0, 0)), right_face(p, m));
    let s4 = push_if(s3, !blocks.contains(p.plus(-m, 0, 0)), left_face(p, m));
    let s5 = push_if(s4, !blocks.contains(p.plus(0, 0, -m)), forward_face(p, m));
    lemma_push_if_contains(s0, !blocks.contains(p.plus(0, m, 0)), up_face(p, m));
    lemma_push_if_contains(s1, !blocks.contains(p.plus(0, -m, 0)), down_face(p, m));
    lemma_push_if_contains(s2, !blocks.contains(p.plus(m, 0, 0)), right_face(p, m));
    lemma_push_if_contains(s3, !blocks.contains(p.plus(-m, 0, 0)), left_face(p, m));
    lemma_push_if_contains(s4, !blocks.contains(p.plus(0, 0, -m)), forward_face(p, m));
    lemma_push_if_contains(s5, !blocks.contains(p.plus(0, 0, m)), back_face(p, m));
}

proof fn lemma_push_if_contains(s: Seq<Quad>, cond: bool, q: Quad)
    ensures
        forall|x: Quad| #[trigger] push_if(s, cond, q).contains(x) == (s.contains(x) || (cond && x == q)),
{
    assert forall|x: Quad| #[trigger] push_if(s, cond, q).contains(x) == (s.contains(x) || (cond && x == q)) by {
        if cond {
            let t = s.push(q);
            if t.contains(x) {
                let i = choose|i: int| 0 <= i < t.len() && t[i] == x;
                if i < s.len() {
                    assert(s[i] == x);
                }
            }
            if s.contains(x) {
                let i = choose|i: int| 0 <= i < s.len() && s[i] == x;
                assert(t[i] == x);
            }
            assert(t[s.len() as int] == q);
        }
    }
}

/// The quad stored in vertex slots `4k .. 4k + 4` of a mesh, with the normal
/// of its first vertex.
pub open spec fn quad_at(mv: MeshView, k: int) -> Quad {
    Quad {
        a: mv.vertices[4 * k],
        b: mv.vertices[4 * k + 1],
        c: mv.vertices[4 * k + 2],
        d: mv.vertices[4 * k + 3],
        normal: mv.normals[4 * k],
    }
}

/// Whether the mesh holds quad `q` in one of its four-vertex slots.
pub open spec fn mesh_has_quad(mv: MeshView, q: Quad) -> bool {
    exists|k: int|
        0 <= k && 4 * k + 4 <= mv.vertices.len() && 4 * k + 4 <= mv.normals.len() && #[trigger] quad_at(
            mv,
            k,
        ) == q
}

proof fn lemma_with_quads_keeps(m: MeshView, qs: Seq<Quad>, q: Quad)
    requires
        mesh_has_quad(m, q),
    ensures
        mesh_has_quad(m.with_quads(qs), q),
    decreases qs.len(),
{
    reveal(MeshView::with_quad);
    if qs.len() > 0 {
        lemma_with_quads_keeps(m, qs.drop_last(), q);
        let m1 = m.with_quads(qs.drop_last());
        let m2 = m1.with_quad(qs.last());
        let k = choose|k: int|
            0 <= k && 4 * k + 4 <= m1.vertices.len() && 4 * k + 4 <= m1.normals.len() && #[trigger] quad_at(m1, k) == q;
        assert(quad_at(m2, k) == quad_at(m1, k));
    }
}

proof fn lemma_with_quads_has_new(m: MeshView, qs: Seq<Quad>, n: int, q: Quad)
    requires
        m.vertices.len() == 4 * n,
        m.normals.len() == m.vertices.len(),
        qs.contains(q),
    ensures
        mesh_has_quad(m.with_quads(qs), q),
    decreases qs.len(),
{
    reveal(MeshView::with_quad);
    let init = qs.drop_last();
    let m1 = m.with_quads(init);
    lemma_with_quads_len(m, init);
    lemma_with_quads_normals(m, init);
    assert(m.with_quads(qs) == m1.with_quad(qs.last()));
    if qs.last() == q {
        let k = n + init.len();
        assert(quad_at(m1.with_quad(q), k) == q);
    } else {
        let j = choose|j: int| 0 <= j < qs.len() && qs[j] == q;
        assert(init[j] == q);
        lemma_with_quads_has_new(m, init, n, q);
        lemma_with_quads_push(m1, Seq::<Quad>::empty(), qs.last());
        assert(m1.with_quads(Seq::<Quad>::empty()) == m1);
        lemma_with_quads_keeps(m1, Seq::<Quad>::empty().push(qs.last()), q);
    }
}

proof fn lemma_with_quads_normals(m: MeshView, qs: Seq<Quad>)
    ensures
        m.with_quads(qs).normals.len() == m.normals.len() + 4 * qs.len(),
    decreases qs.len(),
{
    reveal(MeshView::with_quad);
    if qs.len() > 0 {
        lemma_with_quads_normals(m, qs.drop_last());
    }
}

proof fn lemma_blocks_mesh_slots(blocks: Seq<Point3>, occupied: Set<Point3>, m: int) -> (n: int)
    ensures
        blocks_mesh(blocks, occupied, m).vertices.len() == 4 * n,
        blocks_mesh(blocks, occupied, m).normals.len() == 4 * n,
    decreases blocks.len(),
{
    if blocks.len() == 0 {
        0
    } else {
        let n0 = lemma_blocks_mesh_slots(blocks.drop_last(), occupied, m);
        let fs = cube_faces(blocks.last(), occupied, m);
        lemma_with_quads_len(blocks_mesh(blocks.drop_last(), occupied, m), fs);
        lemma_with_quads_normals(blocks_mesh(blocks.drop_last(), occupied, m), fs);
        n0 + fs.len()
    }
}

/// A chunk mesh covers every block: for each block of the list and each of
/// its faces whose neighbouring cell is empty, the mesh holds that face as
/// one of its quads, whatever the block's other neighbours.
pub proof fn law_mesh_covers_open_faces(blocks: Seq<Point3>, occupied: Set<Point3>, m: int, i: int, q: Quad)
    requires
        0 <= i < blocks.len(),
        cube_faces(blocks[i], occupied, m).contains(q),
    ensures
        mesh_has_quad(blocks_mesh(blocks, occupied, m), q),
    decreases blocks.len(),
{
    let init = blocks.drop_last();
    let m1 = blocks_mesh(init, occupied, m);
    let fs = cube_faces(blocks.last(), occupied, m);
    if i == blocks.len() - 1 {
        let n = lemma_blocks_mesh_slots(init, occupied, m);
        lemma_with_quads_has_new(m1, fs, n, q);
    } else {
        assert(init[i] == blocks[i]);
        law_mesh_covers_open_faces(init, occupied, m, i, q);
        lemma_with_quads_keeps(m1, fs, q);
    }
}

impl MeshInfo {
    /// Empty buffers.
    pub fn new() -> (m: MeshInfo)
        ensures
            m@ == empty_mesh(),
    {
        MeshInfo { vertices: Vec::new(), normals: Vec::new(), indices: Vec::new() }
    }
}

impl<T> CubeSpawner<T> {
    /// Builds the mesh of the blocks `positions`, all of size `mesh_size`,
    /// block after block, each drawn among all of `positions`.
    pub fn mesh_blocks(positions: &Vec<Point3>, mesh_size: i32) -> (mesh: MeshInfo)
        requires
            forall|i: int| 0 <= i < positions@.len() ==> cube_fits(#[trigger] positions@[i], mesh_size as int),
            positions@.len() * 24 <= i32::MAX,
        ensures
            mesh@ == blocks_mesh(positions@, positions@.to_set(), mesh_size as int),
            mesh@.wf(),
            mesh@.vertices.len() <= 24 * positions@.len(),
    {
        let set = BlockSet::from_points(positions);
        let mut mesh = MeshInfo::new();
        let n = positions.len();
        for i in 0..n
            invariant
                n == positions@.len(),
                set@ == positions@.to_set(),
                forall|i: int| 0 <= i < positions@.len() ==> cube_fits(#[trigger] positions@[i], mesh_size as int),
                positions@.len() * 24 <= i32::MAX,
                mesh@ == blocks_mesh(positions@.take(i as int), set@, mesh_size as int),
                mesh@.wf(),
                mesh.vertices@.len() <= 24 * i,
        {
            Self::construct_cube(positions[i], &mut mesh, &set, mesh_size);
            assert(positions@.take(i + 1).drop_last() =~= positions@.take(i as int));
        }
        assert(positions@.take(n as int) =~= positions@);
        mesh
    }

    /// Appends the quad `a b c d` with normal `normal_dir` to the mesh, as
    /// two triangles over four new vertices.
    pub fn make_quad(
        a: &Point3,
        b: &Point3,
        c: &Point3,
        d: &Point3,
        normal_dir: &Point3,
        mesh_info: &mut MeshInfo,
    )
        requires
            (old(mesh_info).vertices@.len() as i32) <= i32::MAX - 3,
        ensures
            final(mesh_info)@ == old(mesh_info)@.with_quad(
                Quad { a: *a, b: *b, c: *c, d: *d, normal: *normal_dir },
            ),
    {
        let n = mesh_info.vertices.len() as i32;
        mesh_info.indices.push(n);
        mesh_info.indices.push(n + 1);
        mesh_info.indices.push(n + 2);
        mesh_info.indices.push(n);
        mesh_info.indices.push(n + 2);
        mesh_info.indices.push(n + 3);
        mesh_info.vertices.push(*a);
        mesh_info.vertices.push(*b);
        mesh_info.vertices.push(*c);
        mesh_info.vertices.push(*d);
        mesh_info.normals.push(*normal_dir);
        mesh_info.normals.push(*normal_dir);
        mesh_info.normals.push(*normal_dir);
        mesh_info.normals.push(*normal_dir);
        proof {
            reveal(MeshView::with_quad);
            let q = Quad { a: *a, b: *b, c: *c, d: *d, normal: *normal_dir };
            let e = old(mesh_info)@.with_quad(q);
            assert(mesh_info.vertices@ =~= e.vertices);
            assert(mesh_info.normals@ =~= e.normals);
            assert(mesh_info.indices@ =~= e.indices);
        }
    }

    /// Appends the visible faces of the block of size `mesh_size` at
    /// `position`: a face is drawn exactly when `chunk_positions` has no
    /// block `mesh_size` away in its direction (see [`cube_faces`]).
    pub fn construct_cube(
        position: Point3,
        mesh_info: &mut MeshInfo,
        chunk_positions: &BlockSet,
        mesh_size: i32,
    )
        requires
            cube_fits(position, mesh_size as int),
            old(mesh_info).vertices@.len() + 24 <= i32::MAX,
        ensures
            final(mesh_info)@ == old(mesh_info)@.with_quads(
                cube_faces(position, chunk_positions@, mesh_size as int),
            ),
            final(mesh_info).vertices@.len() <= old(mesh_info).vertices@.len() + 24,
            old(mesh_info)@.wf() ==> final(mesh_info)@.wf(),
            old(mesh_info).vertices@.is_prefix_of(final(mesh_info).vertices@),
            old(mesh_info).normals@.is_prefix_of(final(mesh_info).normals@),
            old(mesh_info).indices@.is_prefix_of(final(mesh_info).indices@),
            forall|i: int|
                old(mesh_info).indices@.len() <= i < final(mesh_info).indices@.len() ==> old(
                    mesh_info,
                ).vertices@.len() <= #[trigger] final(mesh_info).indices@[i]
                    < final(mesh_info).vertices@.len(),
    {
        let p = position;
        let m = mesh_size;
        let ghost m0 = mesh_info@;
        let ghost mi = m as int;
        let ghost mut qs: Seq<Quad> = Seq::empty();
        // Corners of the cube, named by their offsets from `p`.
        let o = p;
        let r = Point3 { x: p.x + m, y: p.y, z: p.z };
        let u = Point3 { x: p.x, y: p.y + m, z: p.z };
        let f = Point3 { x: p.x, y: p.y, z: p.z - m };
        let ru = Point3 { x: p.x + m, y: p.y + m, z: p.z };
        let rf = Point3 { x: p.x + m, y: p.y, z: p.z - m };
        let uf = Point3 { x: p.x, y: p.y + m, z: p.z - m };
        let ruf = Point3 { x: p.x + m, y: p.y + m, z: p.z - m };
        assert(r == p.plus(mi, 0, 0) && u == p.plus(0, mi, 0) && f == p.plus(0, 0, -mi));
        assert(ru == p.plus(mi, mi, 0) && rf == p.plus(mi, 0, -mi) && uf == p.plus(0, mi, -mi));
        assert(ruf == p.plus(mi, mi, -mi) && o == p.plus(0, 0, 0));

        // y axis
        let has_pos_y = chunk_positions.contains(Point3 { x: p.x, y: p.y + m, z: p.z });
        let has_neg_y = chunk_positions.contains(Point3 { x: p.x, y: p.y - m, z: p.z });
        assert(Point3 { x: p.x, y: (p.y - m) as i32, z: p.z } == p.plus(0, -mi, 0));
        if !has_pos_y {
            Self::make_quad(&u, &uf, &ruf, &ru, &Point3 { x: 0, y: 1, z: 0 }, mesh_info);
            proof { lemma_with_quads_push(m0, qs, up_face(p, mi)); qs = qs.push(up_face(p, mi)); }
        }
        assert(mesh_info@ == m0.with_quads(qs));
        proof { lemma_with_quads_len(m0, qs); }
        if !has_neg_y {
            Self::make_quad(&r, &rf, &f, &o, &Point3 { x: 0, y: -1, z: 0 }, mesh_info);
            proof { lemma_with_quads_push(m0, qs, down_face(p, mi)); qs = qs.push(down_face(p, mi)); }
        }
        assert(mesh_info@ == m0.with_quads(qs));
        proof { lemma_with_quads_len(m0, qs); }
        // x axis
        let has_pos_x = chunk_positions.contains(Point3 { x: p.x + m, y: p.y, z: p.z });
        let has_neg_x = chunk_positions.contains(Point3 { x: p.x - m, y: p.y, z: p.z });
        assert(Point3 { x: (p.x - m) as i32, y: p.y, z: p.z } == p.plus(-mi, 0, 0));
        if !has_pos_x {
            Self::make_quad(&r, &ru, &ruf, &rf, &Point3 { x: 1, y: 0, z: 0 }, mesh_info);
            proof { lemma_with_quads_push(m0, qs, right_face(p, mi)); qs = qs.push(right_face(p, mi)); }
        }
        assert(mesh_info@ == m0.with_quads(qs));
        proof { lemma_with_quads_len(m0, qs); }
        if !has_neg_x {
            Self::make_quad(&f, &uf, &u, &o, &Point3 { x: -1, y: 0, z: 0 }, mesh_info);
            proof { lemma_with_quads_push(m0, qs, left_face(p, mi)); qs = qs.push(left_face(p, mi)); }
        }
        assert(mesh_info@ == m0.with_quads(qs));
        proof { lemma_with_quads_len(m0, qs); }
        // z axis
        let has_pos_z = chunk_positions.contains(Point3 { x: p.x, y: p.y, z: p.z + m });
        let has_neg_z = chunk_positions.contains(Point3 { x: p.x, y: p.y, z: p.z - m });
        if !has_neg_z {
            Self::make_quad(&f, &rf, &ruf, &uf, &Point3 { x: 0, y: 0, z: -1 }, mesh_info);
            proof { lemma_with_quads_push(m0, qs, forward_face(p, mi)); qs = qs.push(forward_face(p, mi)); }
        }
        assert(mesh_info@ == m0.with_quads(qs));
        proof { lemma_with_quads_len(m0, qs); }
        if !has_pos_z {
            Self::make_quad(&u, &ru, &r, &o, &Point3 { x: 0, y: 0, z: 1 }, mesh_info);
            proof { lemma_with_quads_push(m0, qs, back_face(p, mi)); qs = qs.push(back_face(p, mi)); }
        }
        proof {
            assert(qs == cube_faces(p, chunk_positions@, mi));
            lemma_with_quads_len(m0, qs);
            law_mesh_append_only(m0, qs);
            if m0.wf() {
                lemma_with_quads_wf(m0, qs);
            }
        }
    }
}

} // verus!
