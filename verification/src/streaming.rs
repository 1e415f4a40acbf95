use vstd::prelude::*;
use crate::point::{Point3, pt, fits_i32};
use crate::spawner::{
    CubeSpawner, OperateWork, LoadSignal,
    ChunkOperation, operate, view_creates, outside_deletes, in_view, view_fits, create_cell, view_center,
    create_op, delete_op,
};
use crate::grid::{grid_row, grid_plane, grid_box, lemma_grid_box_all};

verus! {

/// The loaded set after carrying out `op`: a load adds its chunk, an unload
/// removes it.
pub open spec fn apply_op(loaded: Set<Point3>, op: ChunkOperation) -> Set<Point3> {
    if op.create {
        loaded.insert(op.position)
    } else {
        loaded.remove(op.position)
    }
}

/// The loaded set after carrying out every operation of the stack `q`,
/// top (last) first.
pub open spec fn apply_all(q: Seq<ChunkOperation>, loaded: Set<Point3>) -> Set<Point3>
    decreases q.len(),
{
    if q.len() == 0 {
        loaded
    } else {
        apply_all(q.drop_last(), apply_op(loaded, q.last()))
    }
}

/// The loaded set after one serving pass that unloaded `deleted` and handed
/// out `create`, once the host has built the handed-out chunk.
pub open spec fn after_serving(loaded: Set<Point3>, deleted: Seq<Point3>, create: Option<Point3>) -> Set<
    Point3,
> {
    let rest = loaded.difference(deleted.to_set());
    match create {
        Some(p) => rest.insert(p),
        None => rest,
    }
}

/// The chunks within view range `r` of chunk `c`.
pub open spec fn view_set(c: Point3, r: int) -> Set<Point3> {
    Set::new(|p: Point3| in_view(c, r, p))
}

/// Serving the stack `q`: the chunk handed out for building is not loaded
/// when it is handed out, every unloaded chunk was loaded and is unloaded
/// once, and when no chunk is handed out the whole stack has been served.
pub proof fn law_operate_respects_loaded(q: Seq<ChunkOperation>, loaded: Set<Point3>)
    ensures
        ({
            let r = operate(q, loaded);
            &&& r.0 <= q.len()
            &&& (q.len() > 0 ==> r.0 < q.len())
            &&& r.1.to_set().subset_of(loaded)
            &&& r.1.no_duplicates()
            &&& (r.2 matches Some(p) ==> !loaded.difference(r.1.to_set()).contains(p))
            &&& (r.2 is None ==> r.0 == 0)
        }),
    decreases q.len(),
{
    if q.len() > 0 {
        let op = q.last();
        let rest = q.drop_last();
        if op.create {
            if loaded.contains(op.position) {
                law_operate_respects_loaded(rest, loaded);
            }
        } else if !loaded.contains(op.position) {
            law_operate_respects_loaded(rest, loaded);
        } else {
            let lr = loaded.remove(op.position);
            law_operate_respects_loaded(rest, lr);
            let r = operate(rest, lr);
            let d = seq![op.position] + r.1;
            assert forall|a: int, b: int| 0 <= a < d.len() && 0 <= b < d.len() && a != b implies d[a]
                != d[b] by {
                if a > 0 {
                    assert(d[a] == r.1[a - 1]);
                    assert(r.1.to_set().contains(d[a]));
                }
                if b > 0 {
                    assert(d[b] == r.1[b - 1]);
                    assert(r.1.to_set().contains(d[b]));
                }
            }
            assert forall|p: Point3| d.to_set().contains(p) implies loaded.contains(p) by {
                if p != op.position {
                    let i = choose|i: int| 0 <= i < d.len() && d[i] == p;
                    assert(r.1[i - 1] == p);
                    assert(r.1.to_set().contains(p));
                }
            }
            if let Some(p) = r.2 {
                if loaded.contains(p) && p != op.position {
                    assert(lr.contains(p));
                    assert(r.1.to_set().contains(p));
                    let i = choose|i: int| 0 <= i < r.1.len() && r.1[i] == p;
                    assert(d[i + 1] == p);
                    assert(d.to_set().contains(p));
                }
                if p == op.position {
                    assert(d[0] == p);
                    assert(d.to_set().contains(p));
                }
            }
        }
    }
}

/// Serving the stack and then building the handed-out chunk has the same
/// effect on the loaded set as carrying out the served operations; what
/// remains to be done is carrying out the rest of the stack.
pub proof fn law_operate_matches_apply(q: Seq<ChunkOperation>, loaded: Set<Point3>)
    ensures
        ({
            let r = operate(q, loaded);
            apply_all(q, loaded) == apply_all(q.take(r.0 as int), after_serving(loaded, r.1, r.2))
        }),
    decreases q.len(),
{
    if q.len() == 0 {
        assert(q.take(0) =~= q);
        assert(after_serving(loaded, Seq::empty(), None) =~= loaded);
    } else {
        let op = q.last();
        let rest = q.drop_last();
        law_operate_respects_loaded(rest, loaded);
        if op.create {
            if loaded.contains(op.position) {
                law_operate_matches_apply(rest, loaded);
                assert(loaded.insert(op.position) =~= loaded);
                let r = operate(rest, loaded);
                assert(q.take(r.0 as int) =~= rest.take(r.0 as int));
            } else {
                assert(q.take(rest.len() as int) =~= rest);
                assert(after_serving(loaded, Seq::empty(), Some(op.position)) =~= loaded.insert(
                    op.position,
                ));
            }
        } else if !loaded.contains(op.position) {
            law_operate_matches_apply(rest, loaded);
            assert(loaded.remove(op.position) =~= loaded);
            let r = operate(rest, loaded);
            assert(q.take(r.0 as int) =~= rest.take(r.0 as int));
        } else {
            let lr = loaded.remove(op.position);
            law_operate_matches_apply(rest, lr);
            law_operate_respects_loaded(rest, lr);
            let r = operate(rest, lr);
            assert(q.take(r.0 as int) =~= rest.take(r.0 as int));
            let d = seq![op.position] + r.1;
            assert(lr.difference(r.1.to_set()) =~= loaded.difference(d.to_set())) by {
                assert forall|p: Point3| #[trigger] d.to_set().contains(p) == (p == op.position
                    || r.1.to_set().contains(p)) by {
                    if r.1.contains(p) {
                        let i = choose|i: int| 0 <= i < r.1.len() && r.1[i] == p;
                        assert(d[i + 1] == p);
                    }
                    if d.contains(p) && p != op.position {
                        let i = choose|i: int| 0 <= i < d.len() && d[i] == p;
                        assert(r.1[i - 1] == p);
                    }
                    assert(d[0] == op.position);
                }
            }
            assert(after_serving(lr, r.1, r.2) =~= after_serving(loaded, d, r.2));
        }
    }
}

/// Carrying out `a + b` is carrying out `b`, then `a`.
pub proof fn lemma_apply_all_concat(a: Seq<ChunkOperation>, b: Seq<ChunkOperation>, loaded: Set<Point3>)
    ensures
        apply_all(a + b, loaded) == apply_all(a, apply_all(b, loaded)),
    decreases b.len(),
{
    if b.len() == 0 {
        assert(a + b =~= a);
    } else {
        assert((a + b).drop_last() =~= a + b.drop_last());
        assert((a + b).last() == b.last());
        lemma_apply_all_concat(a, b.drop_last(), apply_op(loaded, b.last()));
    }
}

/// Carrying out the unload requests for the chunks of `keys` outside the
/// view removes exactly those chunks.
pub proof fn lemma_apply_outside_deletes(keys: Seq<Point3>, c: Point3, r: int, s: Set<Point3>)
    ensures
        apply_all(outside_deletes(keys, c, r), s) == s.difference(
            keys.to_set().filter(|p: Point3| !in_view(c, r, p)),
        ),
    decreases keys.len(),
{
    let out = keys.to_set().filter(|p: Point3| !in_view(c, r, p));
    if keys.len() == 0 {
        assert(out =~= Set::empty());
        assert(s.difference(out) =~= s);
    } else {
        let last = keys.last();
        let init = keys.drop_last();
        let out_init = init.to_set().filter(|p: Point3| !in_view(c, r, p));
        assert(keys =~= init.push(last));
        init.lemma_push_to_set_commute(last);
        let d = outside_deletes(init, c, r);
        if in_view(c, r, last) {
            lemma_apply_outside_deletes(init, c, r, s);
            assert(out =~= out_init);
        } else {
            lemma_apply_outside_deletes(init, c, r, s.remove(last));
            assert(d.push(ChunkOperation { create: false, position: last }).drop_last() =~= d);
            assert(s.remove(last).difference(out_init) =~= s.difference(out));
        }
    }
}

/// The chunks `(x, y, z)` with `z0 <= z < z1`.
pub open spec fn row_set(x: int, y: int, z0: int, z1: int) -> Set<Point3> {
    Set::new(|p: Point3| p.x == x && p.y == y && z0 <= p.z < z1)
}

/// The chunks `(x, y, z)` with `y0 <= y < y1`, `z0 <= z < z1`.
pub open spec fn plane_set(x: int, y0: int, y1: int, z0: int, z1: int) -> Set<Point3> {
    Set::new(|p: Point3| p.x == x && y0 <= p.y < y1 && z0 <= p.z < z1)
}

/// The chunks of the box `[x0, x1) x [y0, y1) x [z0, z1)`.
pub open spec fn box_set(x0: int, x1: int, y0: int, y1: int, z0: int, z1: int) -> Set<Point3> {
    Set::new(|p: Point3| x0 <= p.x < x1 && y0 <= p.y < y1 && z0 <= p.z < z1)
}

proof fn lemma_apply_row(x: int, y: int, z0: int, z1: int, s: Set<Point3>)
    requires
        fits_i32(x),
        fits_i32(y),
        fits_i32(z0),
        z0 <= z1,
        fits_i32(z1),
    ensures
        apply_all(grid_row(x, y, z0, z1, create_cell()), s) == s.union(
            row_set(x, y, z0, z1),
        ),
    decreases z1 - z0,
{
    let f = create_cell();
    if z1 == z0 {
        assert(s.union(row_set(x, y, z0, z1)) =~= s);
    } else {
        let a = grid_row(x, y, z0, z1 - 1, f);
        let op = create_op(pt(x, y, z1 - 1));
        lemma_apply_all_concat(a, seq![op], s);
        assert(apply_all(seq![op], s) == apply_all(seq![op].drop_last(), s.insert(op.position)));
        assert(seq![op].drop_last() =~= Seq::<ChunkOperation>::empty());
        lemma_apply_row(x, y, z0, z1 - 1, s.insert(op.position));
        assert(s.insert(op.position).union(row_set(x, y, z0, z1 - 1)) =~= s.union(
            row_set(x, y, z0, z1),
        ));
    }
}

proof fn lemma_apply_plane(x: int, y0: int, y1: int, z0: int, z1: int, s: Set<Point3>)
    requires
        fits_i32(x),
        fits_i32(y0),
        y0 <= y1,
        fits_i32(y1),
        fits_i32(z0),
        z0 <= z1,
        fits_i32(z1),
    ensures
        apply_all(grid_plane(x, y0, y1, z0, z1, create_cell()), s)
            == s.union(plane_set(x, y0, y1, z0, z1)),
    decreases y1 - y0,
{
    let f = create_cell();
    if y1 == y0 {
        assert(s.union(plane_set(x, y0, y1, z0, z1)) =~= s);
    } else {
        let a = grid_plane(x, y0, y1 - 1, z0, z1, f);
        let b = grid_row(x, y1 - 1, z0, z1, f);
        lemma_apply_all_concat(a, b, s);
        lemma_apply_row(x, y1 - 1, z0, z1, s);
        lemma_apply_plane(x, y0, y1 - 1, z0, z1, s.union(row_set(x, y1 - 1, z0, z1)));
        assert(s.union(row_set(x, y1 - 1, z0, z1)).union(plane_set(x, y0, y1 - 1, z0, z1))
            =~= s.union(plane_set(x, y0, y1, z0, z1)));
    }
}

proof fn lemma_apply_box(x0: int, x1: int, y0: int, y1: int, z0: int, z1: int, s: Set<Point3>)
    requires
        fits_i32(x0),
        x0 <= x1,
        fits_i32(x1),
        fits_i32(y0),
        y0 <= y1,
        fits_i32(y1),
        fits_i32(z0),
        z0 <= z1,
        fits_i32(z1),
    ensures
        apply_all(grid_box(x0, x1, y0, y1, z0, z1, create_cell()), s)
            == s.union(box_set(x0, x1, y0, y1, z0, z1)),
    decreases x1 - x0,
{
    let f = create_cell();
    if x1 == x0 {
        assert(s.union(box_set(x0, x1, y0, y1, z0, z1)) =~= s);
    } else {
        let a = grid_box(x0, x1 - 1, y0, y1, z0, z1, f);
        let b = grid_plane(x1 - 1, y0, y1, z0, z1, f);
        lemma_apply_all_concat(a, b, s);
        lemma_apply_plane(x1 - 1, y0, y1, z0, z1, s);
        lemma_apply_box(x0, x1 - 1, y0, y1, z0, z1, s.union(plane_set(x1 - 1, y0, y1, z0, z1)));
        assert(s.union(plane_set(x1 - 1, y0, y1, z0, z1)).union(box_set(x0, x1 - 1, y0, y1, z0, z1))
            =~= s.union(box_set(x0, x1, y0, y1, z0, z1)));
    }
}

/// Carrying out the load requests of the view adds exactly the chunks in view.
pub proof fn lemma_apply_view_creates(c: Point3, r: int, s: Set<Point3>)
    requires
        view_fits(c, r),
    ensures
        apply_all(view_creates(c, r), s) == s.union(view_set(c, r)),
{
    if r > 0 {
        lemma_apply_box(c.x - r, c.x + r, c.y - r, c.y + r, c.z - r, c.z + r, s);
        assert(box_set(c.x - r, c.x + r, c.y - r, c.y + r, c.z - r, c.z + r) =~= view_set(c, r));
    } else {
        assert(view_set(c, r) =~= Set::empty());
        assert(s.union(view_set(c, r)) =~= s);
    }
}

/// Only loads, and the chunks they load.
proof fn lemma_apply_all_creates(q: Seq<ChunkOperation>, s: Set<Point3>)
    requires
        forall|i: int| 0 <= i < q.len() ==> (#[trigger] q[i]).create,
    ensures
        apply_all(q, s) == s.union(Set::new(|p: Point3| q.contains(create_op(p)))),
    decreases q.len(),
{
    let ps = Set::new(|p: Point3| q.contains(create_op(p)));
    if q.len() == 0 {
        assert(s.union(ps) =~= s);
    } else {
        let init = q.drop_last();
        let op = q.last();
        assert(op.create);
        lemma_apply_all_creates(init, s.insert(op.position));
        let pi = Set::new(|p: Point3| init.contains(create_op(p)));
        assert forall|p: Point3| #[trigger] ps.contains(p) == (pi.contains(p) || p == op.position) by {
            if init.contains(create_op(p)) {
                let i = choose|i: int| 0 <= i < init.len() && init[i] == create_op(p);
                assert(q[i] == create_op(p));
            }
            if q.contains(create_op(p)) {
                let i = choose|i: int| 0 <= i < q.len() && q[i] == create_op(p);
                if i < init.len() {
                    assert(init[i] == create_op(p));
                }
            }
            assert(q[q.len() - 1] == op);
        }
        assert(s.insert(op.position).union(pi) =~= s.union(ps));
    }
}

/// The load requests of a re-centred view name exactly the chunks within
/// view range.
pub proof fn law_view_creates_members(c: Point3, r: int, p: Point3)
    requires
        view_fits(c, r),
    ensures
        view_creates(c, r).contains(create_op(p)) <==> in_view(c, r, p),
{
    lemma_grid_box_all(
        c.x - r,
        c.x + r,
        c.y - r,
        c.y + r,
        c.z - r,
        c.z + r,
        create_cell(),
        |o: ChunkOperation| o.create,
    );
    lemma_apply_all_creates(view_creates(c, r), Set::empty());
    lemma_apply_view_creates(c, r, Set::empty());
    let ps = Set::new(|q: Point3| view_creates(c, r).contains(create_op(q)));
    assert(Set::<Point3>::empty().union(ps).contains(p) == ps.contains(p));
    assert(Set::<Point3>::empty().union(view_set(c, r)).contains(p) == view_set(c, r).contains(p));
}

/// The unload requests of a re-centred view name exactly the loaded chunks
/// for which no load request is made.
pub proof fn law_unload_iff_not_requested(keys: Seq<Point3>, c: Point3, r: int, p: Point3)
    requires
        view_fits(c, r),
    ensures
        outside_deletes(keys, c, r).contains(delete_op(p)) <==> keys.contains(p)
            && !view_creates(c, r).contains(create_op(p)),
    decreases keys.len(),
{
    law_view_creates_members(c, r, p);
    if keys.len() > 0 {
        let init = keys.drop_last();
        let last = keys.last();
        law_unload_iff_not_requested(init, c, r, p);
        let d = outside_deletes(init, c, r);
        assert(keys.contains(p) == (init.contains(p) || last == p)) by {
            if keys.contains(p) {
                let i = choose|i: int| 0 <= i < keys.len() && keys[i] == p;
                if i < init.len() {
                    assert(init[i] == p);
                }
            }
            if init.contains(p) {
                let i = choose|i: int| 0 <= i < init.len() && init[i] == p;
                assert(keys[i] == p);
            }
            assert(keys[keys.len() - 1] == last);
        }
        if !in_view(c, r, last) {
            let dl = delete_op(last);
            assert(d.push(dl).contains(delete_op(p)) == (d.contains(delete_op(p)) || last == p)) by {
                if d.push(dl).contains(delete_op(p)) {
                    let i = choose|i: int| 0 <= i < d.push(dl).len() && d.push(dl)[i] == delete_op(p);
                    if i < d.len() {
                        assert(d[i] == delete_op(p));
                    }
                }
                if d.contains(delete_op(p)) {
                    let i = choose|i: int| 0 <= i < d.len() && d[i] == delete_op(p);
                    assert(d.push(dl)[i] == delete_op(p));
                }
                assert(d.push(dl)[d.len() as int] == dl);
            }
        }
    }
}

proof fn lemma_outside_deletes_ops(keys: Seq<Point3>, c: Point3, r: int)
    ensures
        forall|i: int|
            0 <= i < outside_deletes(keys, c, r).len() ==> {
                let o = #[trigger] outside_deletes(keys, c, r)[i];
                &&& !o.create
                &&& keys.contains(o.position)
                &&& !in_view(c, r, o.position)
            },
    decreases keys.len(),
{
    if keys.len() > 0 {
        let init = keys.drop_last();
        lemma_outside_deletes_ops(init, c, r);
        let d = outside_deletes(init, c, r);
        assert forall|i: int| 0 <= i < outside_deletes(keys, c, r).len() implies {
            let o = #[trigger] outside_deletes(keys, c, r)[i];
            &&& !o.create
            &&& keys.contains(o.position)
            &&& !in_view(c, r, o.position)
        } by {
            let o = outside_deletes(keys, c, r)[i];
            if i < d.len() {
                assert(o == d[i]);
                let j = choose|j: int| 0 <= j < init.len() && init[j] == o.position;
                assert(keys[j] == o.position);
            } else {
                assert(keys[keys.len() - 1] == o.position);
            }
        }
    }
}

/// Re-centring, over every state and every player sample: with `c` the view
/// centre (the origin chunk for a dead player, else the player's chunk) and
/// `r` the view range, the poll reports nothing and changes nothing exactly
/// when `c` equals the last chunk seen (in all three coordinates).
/// Otherwise it reports `c`, records it, keeps what was pending, and queues
/// on top a load for every chunk of the box `[c - r, c + r)` on each axis,
/// loads for no other chunk, and unloads only for loaded chunks outside
/// that box.
pub proof fn law_poll_recentres<T>(
    s: CubeSpawner<T>,
    t: CubeSpawner<T>,
    player_dead: bool,
    player_chunk: Point3,
    changed: Option<Point3>,
)
    requires
        s.wf(),
        s.poll_effect(t, player_dead, player_chunk, changed),
        ({
            let c = if player_dead { Point3 { x: 0, y: 0, z: 0 } } else { player_chunk };
            c != s.last_chunk() ==> view_fits(c, s.config().view_range as int)
        }),
    ensures
        ({
            let c = if player_dead { Point3 { x: 0, y: 0, z: 0 } } else { player_chunk };
            let r = s.config().view_range as int;
            let n = s.queue().len();
            &&& (changed is None <==> c == s.last_chunk())
            &&& changed is None ==> t.queue() == s.queue() && t.last_chunk() == s.last_chunk()
            &&& changed is Some ==> {
                &&& changed == Some(c)
                &&& t.last_chunk() == c
                &&& s.queue().is_prefix_of(t.queue())
                &&& forall|p: Point3|
                    c.x - r <= p.x < c.x + r && c.y - r <= p.y < c.y + r && c.z - r <= p.z < c.z + r
                        ==> #[trigger] t.queue().subrange(n as int, t.queue().len() as int).contains(
                        ChunkOperation { create: true, position: p },
                    )
                &&& forall|i: int|
                    n <= i < t.queue().len() && (#[trigger] t.queue()[i]).create ==> {
                        let p = t.queue()[i].position;
                        c.x - r <= p.x < c.x + r && c.y - r <= p.y < c.y + r && c.z - r <= p.z
                            < c.z + r
                    }
                &&& forall|i: int|
                    n <= i < t.queue().len() && !(#[trigger] t.queue()[i]).create ==> {
                        let p = t.queue()[i].position;
                        &&& s.loaded().contains_key(p)
                        &&& !(c.x - r <= p.x < c.x + r && c.y - r <= p.y < c.y + r && c.z - r
                            <= p.z < c.z + r)
                    }
            }
        }),
{
    let c = if player_dead { Point3 { x: 0, y: 0, z: 0 } } else { player_chunk };
    assert(c == view_center(player_dead, player_chunk));
    let r = s.config().view_range as int;
    let n = s.queue().len();
    if c != s.last_chunk() {
        s.lemma_loaded_keys();
        let d = outside_deletes(s.loaded_keys(), c, r);
        let v = view_creates(c, r);
        let q = t.queue();
        assert(q == s.queue() + d + v);
        lemma_outside_deletes_ops(s.loaded_keys(), c, r);
        lemma_grid_box_all(c.x - r, c.x + r, c.y - r, c.y + r, c.z - r, c.z + r, create_cell(), |o: ChunkOperation| o.create);
        assert(q.subrange(n as int, q.len() as int) =~= d + v);
        assert forall|p: Point3|
            c.x - r <= p.x < c.x + r && c.y - r <= p.y < c.y + r && c.z - r <= p.z < c.z + r
                implies #[trigger] q.subrange(n as int, q.len() as int).contains(
            ChunkOperation { create: true, position: p },
        ) by {
            law_view_creates_members(c, r, p);
            let j = choose|j: int| 0 <= j < v.len() && v[j] == create_op(p);
            assert((d + v)[d.len() + j] == create_op(p));
        }
        assert forall|i: int| n <= i < q.len() && (#[trigger] q[i]).create implies {
            let p = q[i].position;
            c.x - r <= p.x < c.x + r && c.y - r <= p.y < c.y + r && c.z - r <= p.z < c.z + r
        } by {
            let k = i - n;
            if k < d.len() {
                assert(q[i] == d[k]);
            } else {
                assert(q[i] == v[k - d.len()]);
                assert(v.contains(create_op(q[i].position)));
                law_view_creates_members(c, r, q[i].position);
            }
        }
        assert forall|i: int| n <= i < q.len() && !(#[trigger] q[i]).create implies {
            let p = q[i].position;
            &&& s.loaded().contains_key(p)
            &&& !(c.x - r <= p.x < c.x + r && c.y - r <= p.y < c.y + r && c.z - r <= p.z < c.z + r)
        } by {
            let k = i - n;
            if k < d.len() {
                assert(q[i] == d[k]);
            } else {
                assert(q[i] == v[k - d.len()]);
            }
        }
    }
}

/// The view converges: when the view is re-centred on `c` with no other
/// operation pending, and every requested operation is then carried out,
/// exactly the chunks within view range of `c` are loaded, whatever was
/// loaded before.
pub proof fn law_recentre_then_drain_loads_view(keys: Seq<Point3>, c: Point3, r: int)
    requires
        view_fits(c, r),
    ensures
        apply_all(outside_deletes(keys, c, r) + view_creates(c, r), keys.to_set()) == view_set(c, r),
{
    let l = keys.to_set();
    lemma_apply_all_concat(outside_deletes(keys, c, r), view_creates(c, r), l);
    lemma_apply_view_creates(c, r, l);
    lemma_apply_outside_deletes(keys, c, r, l.union(view_set(c, r)));
    assert(l.union(view_set(c, r)).difference(l.filter(|p: Point3| !in_view(c, r, p))) =~= view_set(
        c,
        r,
    ));
}

/// The loaded set that the pending operations of `s` lead to once all are
/// carried out.
pub open spec fn target_loaded<T>(s: CubeSpawner<T>) -> Set<Point3> {
    apply_all(s.queue(), s.loaded().dom())
}

/// Re-centring the view with no operation pending sets the target to
/// exactly the chunks within view range of the new centre.
pub proof fn law_recentre_targets_view<T>(
    s: CubeSpawner<T>,
    t: CubeSpawner<T>,
    player_dead: bool,
    player_chunk: Point3,
    c: Point3,
)
    requires
        s.wf(),
        s.queue().len() == 0,
        view_fits(c, s.config().view_range as int),
        s.poll_effect(t, player_dead, player_chunk, Some(c)),
    ensures
        target_loaded(t) == view_set(c, s.config().view_range as int),
{
    let r = s.config().view_range as int;
    s.lemma_loaded_keys();
    assert(s.queue() + outside_deletes(s.loaded_keys(), c, r) + view_creates(c, r) =~= outside_deletes(
        s.loaded_keys(),
        c,
        r,
    ) + view_creates(c, r));
    law_recentre_then_drain_loads_view(s.loaded_keys(), c, r);
}

/// Serving the pending operations and building the chunk handed out leaves
/// the target unchanged: the stack is worked off without drifting.
pub proof fn law_serving_keeps_target<T>(s: CubeSpawner<T>, t: CubeSpawner<T>, work: OperateWork<T>)
    requires
        s.operate_effect(t, work),
    ensures
        target_loaded(s) == apply_all(
            t.queue(),
            match work.create {
                Some(p) => t.loaded().dom().insert(p),
                None => t.loaded().dom(),
            },
        ),
        work.create is None ==> t.queue().len() == 0 && t.loaded().dom() == target_loaded(s),
{
    let l = s.loaded().dom();
    law_operate_matches_apply(s.queue(), l);
    law_operate_respects_loaded(s.queue(), l);
    let r = operate(s.queue(), l);
    assert(t.loaded().dom() =~= l.difference(r.1.to_set()));
    assert(t.queue().len() == 0 ==> t.queue() =~= Seq::<ChunkOperation>::empty());
}

/// Each serving pass strictly shortens a non-empty queue, so a queue of `n`
/// operations is worked off within `n` passes and the next pass reports
/// nothing to do.
pub proof fn law_serving_shrinks_queue<T>(s: CubeSpawner<T>, t: CubeSpawner<T>, work: OperateWork<T>)
    requires
        s.operate_effect(t, work),
    ensures
        s.queue().len() > 0 ==> t.queue().len() < s.queue().len(),
        s.queue().len() == 0 ==> work.create is None && work.removed@.len() == 0 && t.queue().len() == 0,
{
    law_operate_respects_loaded(s.queue(), s.loaded().dom());
}

/// Once the initial load has been reported complete it is never reported
/// again, and no more progress is reported.
pub proof fn law_complete_reported_once<T>(s: CubeSpawner<T>, t: CubeSpawner<T>, signal: LoadSignal)
    requires
        s.load_effect(t, signal),
    ensures
        signal == LoadSignal::Complete ==> !t.first_load_pending(),
        !s.first_load_pending() ==> signal == LoadSignal::Silent && !t.first_load_pending(),
{
}

} // verus!
