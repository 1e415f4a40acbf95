use vstd::prelude::*;
use crate::point::{Point3, pt, fits_i32};
use crate::chunk_store::ChunkStore;
use crate::mesh::{MeshInfo, blocks_mesh, cube_fits};
use crate::grid::{grid_row, grid_plane, grid_box, lemma_grid_box_all, lemma_grid_box_contains, lemma_grid_box_len, lemma_grid_box_has};

verus! {

/// Edge length of a chunk, in blocks.
pub const CHUNK_DIM: i32 = 16;

/// A pending request to load (`create`) or unload a chunk.
#[derive(Clone, Copy, Debug, PartialEq, Eq, Structural)]
pub struct ChunkOperation {
    pub create: bool,
    pub position: Point3,
}

/// A request to load the chunk at `p`.
pub open spec fn create_op(p: Point3) -> ChunkOperation {
    ChunkOperation { create: true, position: p }
}

/// A request to unload the chunk at `p`.
pub open spec fn delete_op(p: Point3) -> ChunkOperation {
    ChunkOperation { create: false, position: p }
}

/// What one pass over the pending operations did: the payloads of the
/// chunks that were unloaded (for the host to release), and the position of
/// the chunk that the host must now build, if any.
pub struct OperateWork<T> {
    pub removed: Vec<T>,
    pub create: Option<Point3>,
}

/// Where the player is, as the terrain spawner sees it.
#[derive(Clone, Copy, Debug, PartialEq, Eq, Structural)]
pub struct PlayerSample {
    /// Whether the player is dead (the view then centres on the origin chunk).
    pub dead: bool,
    /// The chunk the player is in.
    pub chunk: Point3,
}

/// The outcome of one frame of terrain streaming.
pub struct FrameWork<T> {
    /// The new view centre, when it changed.
    pub chunk_changed: Option<Point3>,
    /// Unloaded payloads and the chunk to build.
    pub work: OperateWork<T>,
    /// The initial-load report.
    pub load: LoadSignal,
}

/// What the terrain spawner reports about the initial load.
#[derive(Clone, Copy, Debug, PartialEq, Eq, Structural)]
pub enum LoadSignal {
    /// The initial load is still running, with this many operations pending.
    Progress(usize),
    /// The initial load has just finished.
    Complete,
    /// Nothing to report.
    Silent,
}

/// The tunable parameters of the terrain spawner.
#[derive(Clone, Copy, Debug, PartialEq, Eq, Structural)]
pub struct SpawnerSettings {
    /// Edge length of one block, in world units.
    pub mesh_size: i32,
    /// Half-width of the block-free zone around the world origin.
    pub no_spawn: i32,
    /// Chunks within this distance (per axis) of the player's chunk are kept loaded.
    pub view_range: i32,
}

/// Streams terrain chunks around the player.
///
/// The pending operations form a stack: the last one queued is served
/// first.
pub struct CubeSpawner<T> {
    settings: SpawnerSettings,
    first_load: bool,
    chunks: ChunkStore<T>,
    player_last_chunk: Point3,
    chunk_operation_queue: Vec<ChunkOperation>,
}

/// Serving the operation stack `q` against the loaded set `loaded`: pops
/// operations, skipping loads of loaded chunks and unloads of absent ones,
/// unloading as it goes, until it reaches a load of an absent chunk (which
/// it hands out) or runs dry. The result is the number of operations left,
/// the unloaded positions in order, and the chunk to build.
pub open spec fn operate(q: Seq<ChunkOperation>, loaded: Set<Point3>) -> (nat, Seq<Point3>, Option<Point3>)
    decreases q.len(),
{
    if q.len() == 0 {
        (0, Seq::empty(), None)
    } else {
        let op = q.last();
        let rest = q.drop_last();
        if op.create {
            if loaded.contains(op.position) {
                operate(rest, loaded)
            } else {
                (rest.len(), Seq::empty(), Some(op.position))
            }
        } else {
            if !loaded.contains(op.position) {
                operate(rest, loaded)
            } else {
                let r = operate(rest, loaded.remove(op.position));
                (r.0, seq![op.position] + r.1, r.2)
            }
        }
    }
}

/// A load request for the chunk at `(x, y, z)`.
pub open spec fn create_at(x: int, y: int, z: int) -> Seq<ChunkOperation> {
    seq![create_op(pt(x, y, z))]
}

/// The load requests for one grid cell.
pub open spec fn create_cell() -> spec_fn(int, int, int) -> Seq<ChunkOperation> {
    |x: int, y: int, z: int| create_at(x, y, z)
}

/// Load requests for every chunk within view range `r` of chunk `c`.
pub open spec fn view_creates(c: Point3, r: int) -> Seq<ChunkOperation> {
    grid_box(c.x - r, c.x + r, c.y - r, c.y + r, c.z - r, c.z + r, create_cell())
}

/// Whether chunk `p` lies within view range `r` of chunk `c`: in the
/// half-open box from `c - r` to `c + r` on every axis.
pub open spec fn in_view(c: Point3, r: int, p: Point3) -> bool {
    &&& c.x - r <= p.x < c.x + r
    &&& c.y - r <= p.y < c.y + r
    &&& c.z - r <= p.z < c.z + r
}

/// The bounds of the view box around `c` that are computed are
/// representable (those on `y` and `z` are only computed when the box is
/// not empty).
pub open spec fn view_fits(c: Point3, r: int) -> bool {
    &&& fits_i32(c.x - r)
    &&& fits_i32(c.x + r)
    &&& r > 0 ==> {
        &&& fits_i32(c.y - r)
        &&& fits_i32(c.y + r)
        &&& fits_i32(c.z - r)
        &&& fits_i32(c.z + r)
    }
}

/// Unload requests for the chunks of `keys` outside view range `r` of
/// chunk `c`, in the order of `keys`.
pub open spec fn outside_deletes(keys: Seq<Point3>, c: Point3, r: int) -> Seq<ChunkOperation>
    decreases keys.len(),
{
    if keys.len() == 0 {
        Seq::empty()
    } else {
        let rest = outside_deletes(keys.drop_last(), c, r);
        if in_view(c, r, keys.last()) {
            rest
        } else {
            rest.push(delete_op(keys.last()))
        }
    }
}

/// The chunk that the view is centred on: the origin chunk while the
/// player is dead, else the player's chunk.
pub open spec fn view_center(player_dead: bool, player_chunk: Point3) -> Point3 {
    if player_dead {
        pt(0, 0, 0)
    } else {
        player_chunk
    }
}

fn in_view_check(c: Point3, r: i32, p: Point3) -> (b: bool)
    ensures
        b == in_view(c, r as int, p),
{
    let (cx, cy, cz, r) = (c.x as i64, c.y as i64, c.z as i64, r as i64);
    let (px, py, pz) = (p.x as i64, p.y as i64, p.z as i64);
    cx - r <= px && px < cx + r && cy - r <= py && py < cy + r && cz - r <= pz && pz < cz + r
}

/// World coordinate of block `i` (`0 <= i < CHUNK_DIM`) of chunk
/// coordinate `c`, for blocks of size `m`.
pub open spec fn world_coord(i: int, c: int, m: int) -> int {
    i * m + c * m * 16
}

/// World position of block `(x, y, z)` of chunk `c`, for blocks of size `m`.
pub open spec fn world_point(x: int, y: int, z: int, c: Point3, m: int) -> Point3 {
    pt(world_coord(x, c.x as int, m), world_coord(y, c.y as int, m), world_coord(z, c.z as int, m))
}

/// The absolute value of `v`, capped at `i32::MAX`.
pub open spec fn sat_abs(v: int) -> int {
    if v >= 0 {
        v
    } else if -v > i32::MAX {
        i32::MAX as int
    } else {
        -v
    }
}

/// Whether world position `w` lies outside the block-free zone of
/// half-width `ns` around the origin (on some axis).
pub open spec fn outside_safe_zone(w: Point3, ns: int) -> bool {
    sat_abs(w.x as int) > ns || sat_abs(w.y as int) > ns || sat_abs(w.z as int) > ns
}

/// The world position of block `(x, y, z)` of chunk `c`, if a block may be
/// placed there.
pub open spec fn candidate_at(c: Point3, m: int, ns: int) -> spec_fn(int, int, int) -> Seq<Point3> {
    |x: int, y: int, z: int|
        if outside_safe_zone(world_point(x, y, z, c, m), ns) {
            seq![world_point(x, y, z, c, m)]
        } else {
            Seq::empty()
        }
}

/// The world positions of the blocks of chunk `c` that lie outside the
/// block-free zone, by increasing local `x`, `y`, `z`.
pub open spec fn chunk_candidates(c: Point3, m: int, ns: int) -> Seq<Point3> {
    grid_box(0, 16, 0, 16, 0, 16, candidate_at(c, m, ns))
}

/// No block is ever offered inside the block-free zone around the origin.
pub proof fn law_candidates_avoid_safe_zone(c: Point3, m: int, ns: int)
    ensures
        forall|i: int|
            0 <= i < chunk_candidates(c, m, ns).len() ==> outside_safe_zone(
                #[trigger] chunk_candidates(c, m, ns)[i],
                ns,
            ),
{
    let f = candidate_at(c, m, ns);
    let pred = |w: Point3| outside_safe_zone(w, ns);
    assert forall|a: int, b: int, d: int, i: int| 0 <= i < f(a, b, d).len() implies pred(
        #[trigger] f(a, b, d)[i],
    ) by {}
    lemma_grid_box_all(0, 16, 0, 16, 0, 16, f, pred);
}

/// The elements of `s` whose flag in `keep` (aligned with `s`) is set, in
/// order.
pub open spec fn select<A>(s: Seq<A>, keep: Seq<bool>) -> Seq<A>
    decreases s.len(),
{
    if s.len() == 0 {
        Seq::empty()
    } else {
        let rest = select(s.drop_last(), keep);
        if keep[s.len() - 1] {
            rest.push(s.last())
        } else {
            rest
        }
    }
}

/// When each flag records whether its element passes `pass`, the selected
/// elements are exactly those of `s` that pass, in order.
pub proof fn law_select_is_filter<A>(s: Seq<A>, keep: Seq<bool>, pass: spec_fn(A) -> bool)
    requires
        keep.len() == s.len(),
        forall|i: int| 0 <= i < s.len() ==> keep[i] == pass(#[trigger] s[i]),
    ensures
        select(s, keep) == s.filter(pass),
    decreases s.len(),
{
    reveal(Seq::filter);
    if s.len() > 0 {
        let t = s.drop_last();
        law_select_is_filter(t, keep.subrange(0, t.len() as int), pass);
        lemma_select_prefix_flags(t, keep);
        assert(s[s.len() - 1] == s.last());
    }
}

proof fn lemma_select_prefix_flags<A>(s: Seq<A>, keep: Seq<bool>)
    requires
        s.len() <= keep.len(),
    ensures
        select(s, keep.subrange(0, s.len() as int)) == select(s, keep),
    decreases s.len(),
{
    if s.len() > 0 {
        let k2 = keep.subrange(0, s.len() as int);
        lemma_select_prefix_flags(s.drop_last(), keep);
        lemma_select_prefix_flags(s.drop_last(), k2);
        assert(k2.subrange(0, s.len() - 1) =~= keep.subrange(0, s.len() - 1));
    }
}

/// Every selected element comes from `s`, and there are at most as many.
pub proof fn lemma_select_from<A>(s: Seq<A>, keep: Seq<bool>)
    ensures
        select(s, keep).len() <= s.len(),
        forall|e: A| #[trigger] select(s, keep).contains(e) ==> s.contains(e),
    decreases s.len(),
{
    if s.len() > 0 {
        lemma_select_from(s.drop_last(), keep);
        assert forall|e: A| select(s, keep).contains(e) implies s.contains(e) by {
            let r = select(s.drop_last(), keep);
            if r.contains(e) {
                let i = choose|i: int| 0 <= i < r.len() && r[i] == e;
                assert(s.drop_last().contains(e));
                let j = choose|j: int| 0 <= j < s.drop_last().len() && s.drop_last()[j] == e;
                assert(s[j] == e);
            } else {
                let i = choose|i: int| 0 <= i < select(s, keep).len() && select(s, keep)[i] == e;
                assert(i == r.len());
                assert(s[s.len() - 1] == e);
            }
        }
    }
}

/// A chunk offers at most `16^3` candidate cells.
pub proof fn lemma_chunk_candidates_len(c: Point3, m: int, ns: int)
    ensures
        chunk_candidates(c, m, ns).len() <= 4096,
{
    lemma_grid_box_len(0, 16, 0, 16, 0, 16, candidate_at(c, m, ns));
}

/// Whether coordinate `v` is the coordinate of one of the 16 block slots,
/// `m` apart, of a chunk at chunk coordinate `ci`.
pub open spec fn in_chunk_axis(v: int, ci: int, m: int) -> bool {
    &&& ci * m * 16 <= v <= ci * m * 16 + 15 * m
    &&& (v - ci * m * 16) % m == 0
}

/// Whether world position `w` is one of the block slots of chunk `c`.
pub open spec fn in_chunk(w: Point3, c: Point3, m: int) -> bool {
    in_chunk_axis(w.x as int, c.x as int, m) && in_chunk_axis(w.y as int, c.y as int, m)
        && in_chunk_axis(w.z as int, c.z as int, m)
}

proof fn lemma_in_chunk_axis(a: int, ci: int, m: int)
    requires
        0 <= a < 16,
        m > 0,
    ensures
        in_chunk_axis(world_coord(a, ci, m), ci, m),
{
    assert(0 <= a * m <= 15 * m) by (nonlinear_arith)
        requires
            0 <= a < 16,
            m > 0,
    ;
    vstd::arithmetic::div_mod::lemma_mod_multiples_basic(a, m);
}

/// Every candidate cell of a chunk (so every block of it) lies in the
/// chunk's block slots and outside the block-free zone.
pub proof fn law_candidates_in_chunk(c: Point3, m: int, ns: int)
    requires
        m > 0,
        chunk_world_fits(c, m),
    ensures
        forall|i: int|
            0 <= i < chunk_candidates(c, m, ns).len() ==> in_chunk(#[trigger] chunk_candidates(c, m, ns)[i], c, m)
                && outside_safe_zone(chunk_candidates(c, m, ns)[i], ns),
{
    let f = candidate_at(c, m, ns);
    let pred = |w: Point3| in_chunk(w, c, m) && outside_safe_zone(w, ns);
    assert forall|a: int, b: int, d: int, i: int|
        0 <= a < 16 && 0 <= b < 16 && 0 <= d < 16 && 0 <= i < f(a, b, d).len() implies pred(
        #[trigger] f(a, b, d)[i],
    ) by {
        lemma_in_chunk_axis(a, c.x as int, m);
        lemma_in_chunk_axis(b, c.y as int, m);
        lemma_in_chunk_axis(d, c.z as int, m);
        assert(fits_i32(world_coord(a, c.x as int, m)));
        assert(fits_i32(world_coord(b, c.y as int, m)));
        assert(fits_i32(world_coord(d, c.z as int, m)));
    }
    lemma_grid_box_all(0, 16, 0, 16, 0, 16, f, pred);
}

/// The safe zone, over every chunk and every cell: with the zone's
/// half-width `ns` below `i32::MAX`, the block slot `(a, b, d)` of chunk `c`
/// (world position `(a, b, d) * m + c * 16 * m`) is offered exactly when one
/// of its world coordinates has magnitude above `ns`, on either side of the
/// origin; every offered cell has such a coordinate. With `ns` at `i32::MAX`
/// no cell is offered.
pub proof fn law_candidates_outside_symmetric_zone(c: Point3, m: int, ns: int, a: int, b: int, d: int)
    requires
        chunk_world_fits(c, m),
        0 <= a < 16,
        0 <= b < 16,
        0 <= d < 16,
    ensures
        ({
            let w = Point3 {
                x: (a * m + c.x * m * 16) as i32,
                y: (b * m + c.y * m * 16) as i32,
                z: (d * m + c.z * m * 16) as i32,
            };
            ns < i32::MAX ==> (chunk_candidates(c, m, ns).contains(w) <==> (w.x > ns || w.x < -ns
                || w.y > ns || w.y < -ns || w.z > ns || w.z < -ns))
        }),
        ns < i32::MAX ==> forall|i: int|
            0 <= i < chunk_candidates(c, m, ns).len() ==> {
                let v = #[trigger] chunk_candidates(c, m, ns)[i];
                v.x > ns || v.x < -ns || v.y > ns || v.y < -ns || v.z > ns || v.z < -ns
            },
        ns >= i32::MAX ==> chunk_candidates(c, m, ns).len() == 0,
{
    let f = candidate_at(c, m, ns);
    let w = Point3 {
        x: (a * m + c.x * m * 16) as i32,
        y: (b * m + c.y * m * 16) as i32,
        z: (d * m + c.z * m * 16) as i32,
    };
    assert(w == world_point(a, b, d, c, m));
    let cands = chunk_candidates(c, m, ns);
    if ns < i32::MAX {
        let pred = |v: Point3| v.x > ns || v.x < -ns || v.y > ns || v.y < -ns || v.z > ns || v.z < -ns;
        assert forall|a2: int, b2: int, d2: int, i: int|
            0 <= a2 < 16 && 0 <= b2 < 16 && 0 <= d2 < 16 && 0 <= i < f(a2, b2, d2).len() implies pred(
            #[trigger] f(a2, b2, d2)[i],
        ) by {}
        lemma_grid_box_all(0, 16, 0, 16, 0, 16, f, pred);
        if w.x > ns || w.x < -ns || w.y > ns || w.y < -ns || w.z > ns || w.z < -ns {
            assert(f(a, b, d)[0] == w);
            lemma_grid_box_has(0, 16, 0, 16, 0, 16, f, a, b, d, w);
        }
        if cands.contains(w) {
            let j = choose|j: int| 0 <= j < cands.len() && cands[j] == w;
            assert(pred(cands[j]));
        }
    } else {
        let none = |v: Point3| false;
        assert forall|a2: int, b2: int, d2: int, i: int|
            0 <= a2 < 16 && 0 <= b2 < 16 && 0 <= d2 < 16 && 0 <= i < f(a2, b2, d2).len() implies none(
            #[trigger] f(a2, b2, d2)[i],
        ) by {}
        lemma_grid_box_all(0, 16, 0, 16, 0, 16, f, none);
        if cands.len() > 0 {
            assert(none(cands[0]));
        }
    }
}

/// The blocks of a built chunk (the kept candidates) lie in the chunk's block
/// slots, outside the block-free zone, and number at most `16^3`.
pub proof fn law_chunk_blocks_placed(c: Point3, m: int, ns: int, keep: Seq<bool>)
    requires
        m > 0,
        chunk_world_fits(c, m),
    ensures
        select(chunk_candidates(c, m, ns), keep).len() <= 4096,
        forall|w: Point3|
            #[trigger] select(chunk_candidates(c, m, ns), keep).contains(w) ==> in_chunk(w, c, m)
                && outside_safe_zone(w, ns),
{
    let cs = chunk_candidates(c, m, ns);
    lemma_select_from(cs, keep);
    lemma_chunk_candidates_len(c, m, ns);
    law_candidates_in_chunk(c, m, ns);
    assert forall|w: Point3| #[trigger] select(cs, keep).contains(w) implies in_chunk(w, c, m)
        && outside_safe_zone(w, ns) by {
        assert(cs.contains(w));
        let j = choose|j: int| 0 <= j < cs.len() && cs[j] == w;
        assert(in_chunk(cs[j], c, m));
    }
}

/// Widening the block-free zone and making the noise test stricter only
/// removes blocks: with zones `ns1 <= ns2` and tests where `pass2` implies
/// `pass1`, every block placed under the second setting is placed under
/// the first.
pub proof fn law_blocks_monotone(
    c: Point3,
    m: int,
    ns1: int,
    ns2: int,
    pass1: spec_fn(Point3) -> bool,
    pass2: spec_fn(Point3) -> bool,
    w: Point3,
)
    requires
        ns1 <= ns2,
        forall|q: Point3| #[trigger] pass2(q) ==> pass1(q),
        chunk_candidates(c, m, ns2).filter(pass2).contains(w),
    ensures
        chunk_candidates(c, m, ns1).filter(pass1).contains(w),
{
    let c2 = chunk_candidates(c, m, ns2);
    let c1 = chunk_candidates(c, m, ns1);
    c2.lemma_filter_contains_rev(pass2, w);
    let k = choose|k: int| 0 <= k < c2.filter(pass2).len() && c2.filter(pass2)[k] == w;
    c2.lemma_filter_pred(pass2, k);
    let f1 = candidate_at(c, m, ns1);
    let f2 = candidate_at(c, m, ns2);
    assert forall|a: int, b: int, d: int|
        0 <= a < 16 && 0 <= b < 16 && 0 <= d < 16 && #[trigger] f2(a, b, d).contains(w) implies f1(
        a,
        b,
        d,
    ).contains(w) by {
        assert(f2(a, b, d)[0] == w);
    }
    lemma_grid_box_contains(0, 16, 0, 16, 0, 16, f2, f1, w);
    let j = choose|j: int| 0 <= j < c1.len() && c1[j] == w;
    c1.lemma_filter_contains(pass1, j);
}

/// A built chunk: its blocks and their mesh.
pub struct ChunkBuild {
    pub blocks: Vec<Point3>,
    pub mesh: MeshInfo,
}

/// Every block of chunk `c` has representable world coordinates.
pub open spec fn chunk_world_fits(c: Point3, m: int) -> bool {
    &&& forall|i: int| 0 <= i < 16 ==> fits_i32(#[trigger] world_coord(i, c.x as int, m))
    &&& forall|i: int| 0 <= i < 16 ==> fits_i32(#[trigger] world_coord(i, c.y as int, m))
    &&& forall|i: int| 0 <= i < 16 ==> fits_i32(#[trigger] world_coord(i, c.z as int, m))
}

proof fn lemma_world_coord_i128(i: int, c: int, m: int)
    requires
        0 <= i < 16,
        i32::MIN <= c <= i32::MAX,
        i32::MIN <= m <= i32::MAX,
    ensures
        -0x10_0000_0000 <= i * m <= 0x10_0000_0000,
        -0x4000_0000_0000_0000 <= c * m <= 0x4000_0000_0000_0000,
        -0x4_0000_0000_0000_0000 <= c * m * 16 <= 0x4_0000_0000_0000_0000,
{
    assert(-0x10_0000_0000 <= i * m <= 0x10_0000_0000) by (nonlinear_arith)
        requires
            0 <= i < 16,
            i32::MIN <= m <= i32::MAX,
    ;
    assert(-0x4000_0000_0000_0000 <= c * m <= 0x4000_0000_0000_0000) by (nonlinear_arith)
        requires
            i32::MIN <= c <= i32::MAX,
            i32::MIN <= m <= i32::MAX,
    ;
}

fn world_coord_exec(i: i32, c: i32, m: i32) -> (w: i32)
    requires
        0 <= i < 16,
        fits_i32(world_coord(i as int, c as int, m as int)),
    ensures
        w == world_coord(i as int, c as int, m as int),
{
    proof {
        lemma_world_coord_i128(i as int, c as int, m as int);
    }
    let v: i128 = (i as i128) * (m as i128) + (c as i128) * (m as i128) * 16;
    v as i32
}

fn sat_abs_exec(v: i32) -> (a: i32)
    ensures
        a == sat_abs(v as int),
{
    if v >= 0 {
        v
    } else if v == i32::MIN {
        i32::MAX
    } else {
        -v
    }
}

impl<T> CubeSpawner<T> {
    /// Internal consistency.
    pub closed spec fn wf(&self) -> bool {
        self.chunks.wf()
    }

    /// The current settings.
    pub closed spec fn config(&self) -> SpawnerSettings {
        self.settings
    }

    /// The pending operations, bottom of the stack first.
    pub closed spec fn queue(&self) -> Seq<ChunkOperation> {
        self.chunk_operation_queue@
    }

    /// The loaded chunks and their payloads.
    pub closed spec fn loaded(&self) -> Map<Point3, T> {
        self.chunks@
    }

    /// The loaded chunk positions in walking order.
    pub closed spec fn loaded_keys(&self) -> Seq<Point3> {
        self.chunks.keys()
    }

    /// The chunk the player was last seen in.
    pub closed spec fn last_chunk(&self) -> Point3 {
        self.player_last_chunk
    }

    /// Whether the initial load is still running.
    pub closed spec fn first_load_pending(&self) -> bool {
        self.first_load
    }

    /// The loaded positions are listed once each in walking order.
    pub proof fn lemma_loaded_keys(&self)
        requires
            self.wf(),
        ensures
            self.loaded_keys().no_duplicates(),
            self.loaded_keys().to_set() == self.loaded().dom(),
    {
        self.chunks.lemma_keys();
        assert(self.loaded_keys().to_set() =~= self.loaded().dom());
    }

    /// A spawner with the default settings: blocks of size 1, a block-free
    /// zone of 10 around the origin, a view range of 5 chunks, nothing
    /// loaded or pending, the initial load not yet finished, and the
    /// player last seen in chunk (0, 0, 0).
    pub fn new() -> (s: CubeSpawner<T>)
        ensures
            s.wf(),
            s.config() == (SpawnerSettings { mesh_size: 1, no_spawn: 10, view_range: 5 }),
            s.first_load_pending(),
            s.loaded() == Map::<Point3, T>::empty(),
            s.queue() == Seq::<ChunkOperation>::empty(),
            s.last_chunk() == pt(0, 0, 0),
    {
        CubeSpawner {
            settings: SpawnerSettings { mesh_size: 1, no_spawn: 10, view_range: 5 },
            first_load: true,
            chunks: ChunkStore::new(),
            player_last_chunk: Point3::zero(),
            chunk_operation_queue: Vec::new(),
        }
    }

    /// Marks the player's last chunk as unknown (all coordinates
    /// `i32::MAX`), so that the next poll requests the whole view.
    pub fn ready(&mut self)
        ensures
            final(self).last_chunk() == pt(i32::MAX as int, i32::MAX as int, i32::MAX as int),
            final(self).wf() == old(self).wf(),
            final(self).queue() == old(self).queue(),
            final(self).loaded() == old(self).loaded(),
            final(self).loaded_keys() == old(self).loaded_keys(),
            final(self).first_load_pending() == old(self).first_load_pending(),
            final(self).config() == old(self).config(),
    {
        self.player_last_chunk = Point3::max();
    }

    /// The current settings.
    pub fn settings(&self) -> (s: SpawnerSettings)
        ensures
            s == self.config(),
    {
        self.settings
    }

    /// Replaces the settings; nothing else changes.
    pub fn set_settings(&mut self, settings: SpawnerSettings)
        ensures
            final(self).config() == settings,
            final(self).wf() == old(self).wf(),
            final(self).queue() == old(self).queue(),
            final(self).loaded() == old(self).loaded(),
            final(self).loaded_keys() == old(self).loaded_keys(),
            final(self).last_chunk() == old(self).last_chunk(),
            final(self).first_load_pending() == old(self).first_load_pending(),
    {
        self.settings = settings;
    }

    /// The pending operations, bottom of the stack first.
    pub fn pending_operations(&self) -> (v: Vec<ChunkOperation>)
        ensures
            v@ == self.queue(),
    {
        let mut v: Vec<ChunkOperation> = Vec::new();
        let n = self.chunk_operation_queue.len();
        for i in 0..n
            invariant
                n == self.chunk_operation_queue@.len(),
                v@ == self.chunk_operation_queue@.take(i as int),
        {
            v.push(self.chunk_operation_queue[i]);
            assert(self.chunk_operation_queue@.take(i + 1) =~= self.chunk_operation_queue@.take(i as int).push(self.chunk_operation_queue@[i as int]));
        }
        assert(self.chunk_operation_queue@.take(n as int) =~= self.chunk_operation_queue@);
        v
    }

    /// Whether the initial load is still running.
    pub fn is_first_load(&self) -> (b: bool)
        ensures
            b == self.first_load_pending(),
    {
        self.first_load
    }

    /// The chunk the player was last seen in.
    pub fn last_chunk_seen(&self) -> (p: Point3)
        ensures
            p == self.last_chunk(),
    {
        self.player_last_chunk
    }

    /// Whether the chunk at `p` is loaded.
    pub fn is_loaded(&self, p: Point3) -> (b: bool)
        requires
            self.wf(),
        ensures
            b == self.loaded().contains_key(p),
    {
        self.chunks.contains_key(p)
    }

    /// The loaded chunk positions in walking order.
    pub fn loaded_positions(&self) -> (v: Vec<Point3>)
        requires
            self.wf(),
        ensures
            v@ == self.loaded_keys(),
    {
        let mut v: Vec<Point3> = Vec::new();
        let n = self.chunks.len();
        for i in 0..n
            invariant
                self.chunks.wf(),
                n == self.chunks.keys().len(),
                v@ == self.chunks.keys().take(i as int),
        {
            v.push(self.chunks.key_at(i));
            assert(self.chunks.keys().take(i + 1) =~= self.chunks.keys().take(i as int).push(self.chunks.keys()[i as int]));
        }
        assert(self.chunks.keys().take(n as int) =~= self.chunks.keys());
        v
    }

    /// What [`CubeSpawner::poll_chunk_changed`] does, from `self` to `post`.
    pub open spec fn poll_effect(
        self,
        post: Self,
        player_dead: bool,
        player_chunk: Point3,
        changed: Option<Point3>,
    ) -> bool {
        let c = view_center(player_dead, player_chunk);
        let r = self.config().view_range as int;
        &&& post.wf()
        &&& if c == self.last_chunk() {
            &&& changed is None
            &&& post.queue() == self.queue()
            &&& post.last_chunk() == self.last_chunk()
        } else {
            &&& changed == Some(c)
            &&& post.last_chunk() == c
            &&& post.queue() == self.queue() + outside_deletes(self.loaded_keys(), c, r)
                + view_creates(c, r)
        }
        &&& post.loaded() == self.loaded()
        &&& post.loaded_keys() == self.loaded_keys()
        &&& post.first_load_pending() == self.first_load_pending()
        &&& post.config() == self.config()
    }

    /// What [`CubeSpawner::try_operate`] does, from `self` to `post`.
    pub open spec fn operate_effect(self, post: Self, work: OperateWork<T>) -> bool {
        let r = operate(self.queue(), self.loaded().dom());
        &&& post.wf()
        &&& post.queue() == self.queue().take(r.0 as int)
        &&& post.loaded() == self.loaded().remove_keys(r.1.to_set())
        &&& work.removed@ == r.1.map_values(|p: Point3| self.loaded()[p])
        &&& work.create == r.2
        &&& post.last_chunk() == self.last_chunk()
        &&& post.first_load_pending() == self.first_load_pending()
        &&& post.config() == self.config()
    }

    /// What [`CubeSpawner::load_status`] does, from `self` to `post`.
    pub open spec fn load_effect(self, post: Self, signal: LoadSignal) -> bool {
        let n = self.queue().len();
        &&& post.wf() == self.wf()
        &&& if n > 0 {
            &&& signal == (if self.first_load_pending() {
                LoadSignal::Progress(n as usize)
            } else {
                LoadSignal::Silent
            })
            &&& post.first_load_pending() == self.first_load_pending()
        } else {
            &&& signal == (if self.first_load_pending() {
                LoadSignal::Complete
            } else {
                LoadSignal::Silent
            })
            &&& !post.first_load_pending()
        }
        &&& post.queue() == self.queue()
        &&& post.loaded() == self.loaded()
        &&& post.loaded_keys() == self.loaded_keys()
        &&& post.last_chunk() == self.last_chunk()
        &&& post.config() == self.config()
    }

    /// Reports on the initial load: while it runs, the number of pending
    /// operations; when they have all been served, that it is complete
    /// (once); afterwards, nothing.
    pub fn load_status(&mut self) -> (signal: LoadSignal)
        ensures
            old(self).load_effect(*final(self), signal),
    {
        let op_len = self.chunk_operation_queue.len();
        if op_len > 0 {
            if self.first_load {
                LoadSignal::Progress(op_len)
            } else {
                LoadSignal::Silent
            }
        } else if self.first_load {
            self.first_load = false;
            LoadSignal::Complete
        } else {
            LoadSignal::Silent
        }
    }

    /// One frame of terrain streaming: re-centres the view on the player
    /// (when there is one), serves the pending operations, and reports on
    /// the initial load. The host then announces the new centre, releases
    /// the unloaded payloads, builds the requested chunk (see
    /// [`CubeSpawner::make_chunk`]) and forwards the load signal.
    pub fn process(&mut self, player: Option<PlayerSample>) -> (frame: FrameWork<T>)
        requires
            old(self).wf(),
            player matches Some(s) ==> (view_center(s.dead, s.chunk) != old(self).last_chunk()
                ==> view_fits(view_center(s.dead, s.chunk), old(self).config().view_range as int)),
        ensures
            final(self).wf(),
            exists|s1: Self, s2: Self|
                {
                    &&& match player {
                        Some(s) => old(self).poll_effect(s1, s.dead, s.chunk, frame.chunk_changed),
                        None => s1 == *old(self) && frame.chunk_changed is None,
                    }
                    &&& s1.operate_effect(s2, frame.work)
                    &&& s2.load_effect(*final(self), frame.load)
                },
    {
        let chunk_changed = match player {
            Some(s) => self.poll_chunk_changed(s.dead, s.chunk),
            None => None,
        };
        let ghost s1 = *self;
        let work = self.try_operate();
        let ghost s2 = *self;
        let load = self.load_status();
        let frame = FrameWork { chunk_changed, work, load };
        assert(s1.operate_effect(s2, frame.work));
        assert(s2.load_effect(*self, frame.load));
        frame
    }

    /// Re-centres the view when the chunk the view is centred on (the
    /// origin chunk while the player is dead, else the player's chunk)
    /// differs from the last one seen. It then records it, queues an unload
    /// for every loaded chunk outside the new view (in walking order), and
    /// on top of those a load for every chunk of the new view (by
    /// increasing `x`, `y`, `z`), and returns the new centre. Otherwise it
    /// changes nothing and returns `None`.
    pub fn poll_chunk_changed(&mut self, player_dead: bool, player_chunk: Point3) -> (changed:
        Option<Point3>)
        requires
            old(self).wf(),
            view_center(player_dead, player_chunk) != old(self).last_chunk() ==> view_fits(
                view_center(player_dead, player_chunk),
                old(self).config().view_range as int,
            ),
        ensures
            old(self).poll_effect(*final(self), player_dead, player_chunk, changed),
    {
        let target = if player_dead {
            Point3::zero()
        } else {
            player_chunk
        };
        if target == self.player_last_chunk {
            return None;
        }
        self.player_last_chunk = target;
        let r = self.settings.view_range;
        let ghost (gx0, gx1) = (target.x - r, target.x + r);
        let ghost (gy0, gy1) = (target.y - r, target.y + r);
        let ghost (gz0, gz1) = (target.z - r, target.z + r);
        let mut to_push: Vec<ChunkOperation> = Vec::new();
        let x0 = target.x - r;
        let x1 = target.x + r;
        let mut x = x0;
        while x < x1
            invariant
                x0 == gx0,
                x1 == gx1,
                gx0 <= x,
                gx0 < gx1 ==> x <= gx1,
                gx0 >= gx1 ==> x == gx0,
                view_fits(target, r as int),
                gx0 == target.x - r,
                gx1 == target.x + r,
                gy0 == target.y - r,
                gy1 == target.y + r,
                gz0 == target.z - r,
                gz1 == target.z + r,
                to_push@ == grid_box(gx0, x as int, gy0, gy1, gz0, gz1, create_cell()),
            decreases x1 - x,
        {
            let y0 = target.y - r;
            let y1 = target.y + r;
            let mut y = y0;
            while y < y1
                invariant
                    x0 <= x < x1,
                    x0 == gx0,
                    x1 == gx1,
                    y0 == gy0,
                    y1 == gy1,
                    gy0 <= y <= gy1,
                    view_fits(target, r as int),
                    gz0 == target.z - r,
                    gz1 == target.z + r,
                    r > 0,
                    to_push@ == grid_box(gx0, x as int, gy0, gy1, gz0, gz1, create_cell()) + grid_plane(x as int, gy0, y as int, gz0, gz1, create_cell()),
                decreases y1 - y,
            {
                let z0 = target.z - r;
                let z1 = target.z + r;
                let mut z = z0;
                while z < z1
                    invariant
                        x0 <= x < x1,
                        y0 <= y < y1,
                        z0 == gz0,
                        z1 == gz1,
                        gz0 <= z <= gz1,
                        to_push@ == (grid_box(gx0, x as int, gy0, gy1, gz0, gz1, create_cell())
                            + grid_plane(x as int, gy0, y as int, gz0, gz1, create_cell())) + grid_row(x as int, y as int, gz0, z as int, create_cell()),
                    decreases z1 - z,
                {
                    to_push.push(ChunkOperation { create: true, position: Point3 { x, y, z } });
                    proof {
                        let a = grid_box(gx0, x as int, gy0, gy1, gz0, gz1, create_cell()) + grid_plane(x as int, gy0, y as int, gz0, gz1, create_cell());
                        assert(pt(x as int, y as int, z as int) == Point3 { x, y, z });
                        assert(a + grid_row(x as int, y as int, gz0, z + 1, create_cell()) =~= (a
                            + grid_row(x as int, y as int, gz0, z as int, create_cell())).push(
                            create_op(pt(x as int, y as int, z as int)),
                        ));
                    }
                    z = z + 1;
                }
                proof {
                    let b = grid_box(gx0, x as int, gy0, gy1, gz0, gz1, create_cell());
                    assert(b + grid_plane(x as int, gy0, y + 1, gz0, gz1, create_cell()) =~= (b
                        + grid_plane(x as int, gy0, y as int, gz0, gz1, create_cell())) + grid_row(x as int, y as int, gz0, gz1, create_cell()));
                }
                y = y + 1;
            }
            x = x + 1;
        }
        let ghost keys = self.chunks.keys();
        let ghost q0 = self.chunk_operation_queue@;
        let n = self.chunks.len();
        for i in 0..n
            invariant
                self.chunks.wf(),
                n == keys.len(),
                keys == self.chunks.keys(),
                self.chunks@ == old(self).chunks@,
                self.player_last_chunk == target,
                self.first_load == old(self).first_load,
                self.settings == old(self).settings,
                r == self.settings.view_range,
                to_push@ == view_creates(target, r as int),
                self.chunk_operation_queue@ == q0 + outside_deletes(
                    keys.take(i as int),
                    target,
                    r as int,
                ),
        {
            let p = self.chunks.key_at(i);
            assert(keys.take(i + 1).drop_last() =~= keys.take(i as int));
            if !in_view_check(target, r, p) {
                self.chunk_operation_queue.push(ChunkOperation { create: false, position: p });
            }
        }
        assert(keys.take(n as int) =~= keys);
        self.chunk_operation_queue.append(&mut to_push);
        Some(target)
    }

    /// The world positions of the blocks of chunk `chunk_space_position`
    /// that lie outside the block-free zone, by increasing local `x`, `y`,
    /// `z`: the cells where the host samples its noise to decide which
    /// blocks to place.
    pub fn spawn_candidates(&self, chunk_space_position: Point3) -> (v: Vec<Point3>)
        requires
            chunk_world_fits(chunk_space_position, self.config().mesh_size as int),
        ensures
            v@ == chunk_candidates(
                chunk_space_position,
                self.config().mesh_size as int,
                self.config().no_spawn as int,
            ),
            v@.len() <= 4096,
    {
        proof {
            lemma_chunk_candidates_len(
                chunk_space_position,
                self.config().mesh_size as int,
                self.config().no_spawn as int,
            );
        }
        let c = chunk_space_position;
        let m = self.settings.mesh_size;
        let ns = self.settings.no_spawn;
        let ghost f = candidate_at(c, m as int, ns as int);
        let mut out: Vec<Point3> = Vec::new();
        let mut x: i32 = 0;
        while x < CHUNK_DIM
            invariant
                0 <= x <= 16,
                chunk_world_fits(c, m as int),
                f == candidate_at(c, m as int, ns as int),
                out@ == grid_box(0, x as int, 0, 16, 0, 16, f),
            decreases 16 - x,
        {
            let mut y: i32 = 0;
            while y < CHUNK_DIM
                invariant
                    0 <= x < 16,
                    0 <= y <= 16,
                    chunk_world_fits(c, m as int),
                    f == candidate_at(c, m as int, ns as int),
                    out@ == grid_box(0, x as int, 0, 16, 0, 16, f) + grid_plane(x as int, 0, y as int, 0, 16, f),
                decreases 16 - y,
            {
                let mut z: i32 = 0;
                while z < CHUNK_DIM
                    invariant
                        0 <= x < 16,
                        0 <= y < 16,
                        0 <= z <= 16,
                        chunk_world_fits(c, m as int),
                        f == candidate_at(c, m as int, ns as int),
                        out@ == (grid_box(0, x as int, 0, 16, 0, 16, f) + grid_plane(
                            x as int,
                            0,
                            y as int,
                            0,
                            16,
                            f,
                        )) + grid_row(x as int, y as int, 0, z as int, f),
                    decreases 16 - z,
                {
                    assert(fits_i32(world_coord(x as int, c.x as int, m as int)));
                    assert(fits_i32(world_coord(y as int, c.y as int, m as int)));
                    assert(fits_i32(world_coord(z as int, c.z as int, m as int)));
                    let w = Point3 {
                        x: world_coord_exec(x, c.x, m),
                        y: world_coord_exec(y, c.y, m),
                        z: world_coord_exec(z, c.z, m),
                    };
                    let ghost before = out@;
                    if sat_abs_exec(w.x) > ns || sat_abs_exec(w.y) > ns || sat_abs_exec(w.z) > ns {
                        out.push(w);
                    }
                    proof {
                        let a = grid_box(0, x as int, 0, 16, 0, 16, f) + grid_plane(
                            x as int,
                            0,
                            y as int,
                            0,
                            16,
                            f,
                        );
                        assert(w == world_point(x as int, y as int, z as int, c, m as int));
                        assert(out@ =~= before + f(x as int, y as int, z as int));
                        assert(a + grid_row(x as int, y as int, 0, z + 1, f) =~= (a + grid_row(
                            x as int,
                            y as int,
                            0,
                            z as int,
                            f,
                        )) + f(x as int, y as int, z as int));
                    }
                    z = z + 1;
                }
                proof {
                    let b = grid_box(0, x as int, 0, 16, 0, 16, f);
                    assert(b + grid_plane(x as int, 0, y + 1, 0, 16, f) =~= (b + grid_plane(
                        x as int,
                        0,
                        y as int,
                        0,
                        16,
                        f,
                    )) + grid_row(x as int, y as int, 0, 16, f));
                }
                y = y + 1;
            }
            x = x + 1;
        }
        out
    }

    /// Builds the chunk at `chunk_space_position`. The host decides, for each
    /// candidate cell of [`CubeSpawner::spawn_candidates`] in order, whether
    /// its noise sample places a block there (`keep`); the chunk's blocks are
    /// the kept candidates, in order. Returns them with their mesh (all of
    /// the configured block size), and loads `chunk` at that position,
    /// replacing any payload there.
    pub fn make_chunk(&mut self, chunk_space_position: Point3, keep: &Vec<bool>, chunk: T) -> (built: ChunkBuild)
        requires
            old(self).wf(),
            chunk_world_fits(chunk_space_position, old(self).config().mesh_size as int),
            keep@.len() == chunk_candidates(
                chunk_space_position,
                old(self).config().mesh_size as int,
                old(self).config().no_spawn as int,
            ).len(),
            forall|i: int|
                0 <= i < keep@.len() && #[trigger] keep@[i] ==> cube_fits(
                    chunk_candidates(
                        chunk_space_position,
                        old(self).config().mesh_size as int,
                        old(self).config().no_spawn as int,
                    )[i],
                    old(self).config().mesh_size as int,
                ),
        ensures
            final(self).wf(),
            built.blocks@ == select(
                chunk_candidates(
                    chunk_space_position,
                    old(self).config().mesh_size as int,
                    old(self).config().no_spawn as int,
                ),
                keep@,
            ),
            built.blocks@.len() <= 4096,
            built.mesh@ == blocks_mesh(built.blocks@, built.blocks@.to_set(), old(self).config().mesh_size as int),
            built.mesh@.wf(),
            built.mesh@.vertices.len() <= 24 * built.blocks@.len(),
            final(self).loaded() == old(self).loaded().insert(chunk_space_position, chunk),
            old(self).loaded().contains_key(chunk_space_position) ==> final(self).loaded_keys()
                == old(self).loaded_keys(),
            !old(self).loaded().contains_key(chunk_space_position) ==> final(self).loaded_keys()
                == old(self).loaded_keys().push(chunk_space_position),
            final(self).queue() == old(self).queue(),
            final(self).last_chunk() == old(self).last_chunk(),
            final(self).first_load_pending() == old(self).first_load_pending(),
            final(self).config() == old(self).config(),
    {
        let m = self.settings.mesh_size;
        let candidates = self.spawn_candidates(chunk_space_position);
        let ghost cs = candidates@;
        let mut blocks: Vec<Point3> = Vec::new();
        let n = candidates.len();
        for i in 0..n
            invariant
                n == cs.len(),
                cs == candidates@,
                keep@.len() == n,
                n <= 4096,
                forall|k: int| 0 <= k < n && #[trigger] keep@[k] ==> cube_fits(cs[k], m as int),
                blocks@ == select(cs.take(i as int), keep@),
                blocks@.len() <= i,
                forall|k: int| 0 <= k < blocks@.len() ==> cube_fits(#[trigger] blocks@[k], m as int),
        {
            assert(cs.take(i + 1).drop_last() =~= cs.take(i as int));
            if keep[i] {
                blocks.push(candidates[i]);
            }
        }
        assert(cs.take(n as int) =~= cs);
        let mesh = Self::mesh_blocks(&blocks, m);
        let _ = self.chunks.insert(chunk_space_position, chunk);
        ChunkBuild { blocks, mesh }
    }

    /// Serves the pending operations: pops them from the top of the stack,
    /// drops loads of chunks already loaded and unloads of chunks not
    /// loaded, unloads chunks (handing their payloads back, in order), and
    /// stops at the first load of a chunk not yet loaded, which the host is
    /// to build and hand to [`CubeSpawner::make_chunk`], or when nothing is
    /// left.
    pub fn try_operate(&mut self) -> (work: OperateWork<T>)
        requires
            old(self).wf(),
        ensures
            old(self).operate_effect(*final(self), work),
    {
        let ghost q0 = self.chunk_operation_queue@;
        let ghost m0 = self.chunks@;
        let ghost mut del: Seq<Point3> = Seq::empty();
        let mut removed: Vec<T> = Vec::new();
        let mut create: Option<Point3> = None;
        let mut done = false;
        while !done
            invariant
                self.chunks.wf(),
                self.chunk_operation_queue@ == q0.take(self.chunk_operation_queue@.len() as int),
                self.chunk_operation_queue@.len() <= q0.len(),
                self.chunks@ == m0.remove_keys(del.to_set()),
                removed@ == del.map_values(|p: Point3| m0[p]),
                self.player_last_chunk == old(self).player_last_chunk,
                self.first_load == old(self).first_load,
                self.settings == old(self).settings,
                !done ==> create is None,
                ({
                    let r = operate(q0, m0.dom());
                    let cur = if done {
                        (self.chunk_operation_queue@.len(), Seq::<Point3>::empty(), create)
                    } else {
                        operate(self.chunk_operation_queue@, self.chunks@.dom())
                    };
                    r == (cur.0, del + cur.1, cur.2)
                }),
            decreases self.chunk_operation_queue@.len() + (if done { 0int } else { 1int }),
        {
            let ghost qb = self.chunk_operation_queue@;
            let ghost mb = self.chunks@;
            match self.chunk_operation_queue.pop() {
                None => {
                    done = true;
                    assert(del + Seq::<Point3>::empty() =~= del);
                },
                Some(op) => {
                    assert(qb.drop_last() =~= self.chunk_operation_queue@);
                    assert(self.chunk_operation_queue@ =~= q0.take(self.chunk_operation_queue@.len() as int));
                    let present = self.chunks.contains_key(op.position);
                    if op.create {
                        if !present {
                            create = Some(op.position);
                            done = true;
                            assert(del + Seq::<Point3>::empty() =~= del);
                        }
                    } else if present {
                        let w = self.chunks.remove(op.position);
                        match w {
                            Some(v) => {
                                removed.push(v);
                            },
                            None => {},
                        }
                        proof {
                            let ghost d2 = del.push(op.position);
                            assert(removed@ =~= d2.map_values(|p: Point3| m0[p]));
                            del.lemma_push_to_set_commute(op.position);
                            assert(self.chunks@ =~= m0.remove_keys(d2.to_set()));
                            assert(mb.dom().remove(op.position) =~= self.chunks@.dom());
                            let r1 = operate(self.chunk_operation_queue@, self.chunks@.dom());
                            assert(del + (seq![op.position] + r1.1) =~= d2 + r1.1);
                            del = d2;
                        }
                    }
                },
            }
        }
        OperateWork { removed, create }
    }
}

} // verus!
