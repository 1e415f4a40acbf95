use vstd::prelude::*;

verus! {

/// The concatenation of `f(x, y, z)` for `z0 <= z < z1`, by increasing `z`.
pub open spec fn grid_row<A>(x: int, y: int, z0: int, z1: int, f: spec_fn(int, int, int) -> Seq<A>) -> Seq<A>
    decreases z1 - z0,
{
    if z1 <= z0 {
        Seq::empty()
    } else {
        grid_row(x, y, z0, z1 - 1, f) + f(x, y, z1 - 1)
    }
}

/// The concatenation of `f(x, y, z)` for `y0 <= y < y1` and `z0 <= z < z1`,
/// by increasing `y`, then `z`.
pub open spec fn grid_plane<A>(
    x: int,
    y0: int,
    y1: int,
    z0: int,
    z1: int,
    f: spec_fn(int, int, int) -> Seq<A>,
) -> Seq<A>
    decreases y1 - y0,
{
    if y1 <= y0 {
        Seq::empty()
    } else {
        grid_plane(x, y0, y1 - 1, z0, z1, f) + grid_row(x, y1 - 1, z0, z1, f)
    }
}

/// The concatenation of `f(x, y, z)` over the box `[x0, x1) x [y0, y1) x [z0, z1)`,
/// by increasing `x`, then `y`, then `z`: the order of three nested loops.
pub open spec fn grid_box<A>(
    x0: int,
    x1: int,
    y0: int,
    y1: int,
    z0: int,
    z1: int,
    f: spec_fn(int, int, int) -> Seq<A>,
) -> Seq<A>
    decreases x1 - x0,
{
    if x1 <= x0 {
        Seq::empty()
    } else {
        grid_box(x0, x1 - 1, y0, y1, z0, z1, f) + grid_plane(x1 - 1, y0, y1, z0, z1, f)
    }
}

/// If every element of `f(x, y, z)` satisfies `pred` for every cell of a
/// row, so does every element of the row.
pub proof fn lemma_grid_row_all<A>(x: int, y: int, z0: int, z1: int, f: spec_fn(int, int, int) -> Seq<A>, pred: spec_fn(A) -> bool)
    requires
        forall|c: int, i: int| z0 <= c < z1 && 0 <= i < f(x, y, c).len() ==> pred(#[trigger] f(x, y, c)[i]),
    ensures
        forall|i: int| 0 <= i < grid_row(x, y, z0, z1, f).len() ==> pred(#[trigger] grid_row(x, y, z0, z1, f)[i]),
    decreases z1 - z0,
{
    if z1 > z0 {
        lemma_grid_row_all(x, y, z0, z1 - 1, f, pred);
        lemma_concat_all(grid_row(x, y, z0, z1 - 1, f), f(x, y, z1 - 1), pred);
    }
}

/// If every element of `f(x, y, z)` satisfies `pred` for every cell of a
/// plane, so does every element of the plane.
pub proof fn lemma_grid_plane_all<A>(x: int, y0: int, y1: int, z0: int, z1: int, f: spec_fn(int, int, int) -> Seq<A>, pred: spec_fn(A) -> bool)
    requires
        forall|b: int, c: int, i: int|
            y0 <= b < y1 && z0 <= c < z1 && 0 <= i < f(x, b, c).len() ==> pred(#[trigger] f(x, b, c)[i]),
    ensures
        forall|i: int| 0 <= i < grid_plane(x, y0, y1, z0, z1, f).len() ==> pred(#[trigger] grid_plane(x, y0, y1, z0, z1, f)[i]),
    decreases y1 - y0,
{
    if y1 > y0 {
        lemma_grid_plane_all(x, y0, y1 - 1, z0, z1, f, pred);
        lemma_grid_row_all(x, y1 - 1, z0, z1, f, pred);
        lemma_concat_all(grid_plane(x, y0, y1 - 1, z0, z1, f), grid_row(x, y1 - 1, z0, z1, f), pred);
    }
}

/// If every element of `f(x, y, z)` satisfies `pred` for every cell of a
/// box, so does every element of the box.
pub proof fn lemma_grid_box_all<A>(x0: int, x1: int, y0: int, y1: int, z0: int, z1: int, f: spec_fn(int, int, int) -> Seq<A>, pred: spec_fn(A) -> bool)
    requires
        forall|a: int, b: int, c: int, i: int|
            x0 <= a < x1 && y0 <= b < y1 && z0 <= c < z1 && 0 <= i < f(a, b, c).len() ==> pred(
                #[trigger] f(a, b, c)[i],
            ),
    ensures
        forall|i: int| 0 <= i < grid_box(x0, x1, y0, y1, z0, z1, f).len() ==> pred(#[trigger] grid_box(x0, x1, y0, y1, z0, z1, f)[i]),
    decreases x1 - x0,
{
    if x1 > x0 {
        lemma_grid_box_all(x0, x1 - 1, y0, y1, z0, z1, f, pred);
        lemma_grid_plane_all(x1 - 1, y0, y1, z0, z1, f, pred);
        lemma_concat_all(grid_box(x0, x1 - 1, y0, y1, z0, z1, f), grid_plane(x1 - 1, y0, y1, z0, z1, f), pred);
    }
}

proof fn lemma_concat_contains<A>(a: Seq<A>, b: Seq<A>, e: A)
    ensures
        (a + b).contains(e) <==> a.contains(e) || b.contains(e),
{
    if (a + b).contains(e) {
        let i = choose|i: int| 0 <= i < (a + b).len() && (a + b)[i] == e;
        if i < a.len() {
            assert(a[i] == e);
        } else {
            assert(b[i - a.len()] == e);
        }
    }
    if a.contains(e) {
        let i = choose|i: int| 0 <= i < a.len() && a[i] == e;
        assert((a + b)[i] == e);
    }
    if b.contains(e) {
        let i = choose|i: int| 0 <= i < b.len() && b[i] == e;
        assert((a + b)[a.len() + i] == e);
    }
}

/// If, cell by cell along a row, whatever `f` yields `g` yields too, then
/// whatever the row over `f` holds, the row over `g` holds.
pub proof fn lemma_grid_row_contains<A>(x: int, y: int, z0: int, z1: int, f: spec_fn(int, int, int) -> Seq<A>, g: spec_fn(int, int, int) -> Seq<A>, e: A)
    requires
        forall|c: int| z0 <= c < z1 && #[trigger] f(x, y, c).contains(e) ==> g(x, y, c).contains(e),
        grid_row(x, y, z0, z1, f).contains(e),
    ensures
        grid_row(x, y, z0, z1, g).contains(e),
    decreases z1 - z0,
{
    if z1 > z0 {
        lemma_concat_contains(grid_row(x, y, z0, z1 - 1, f), f(x, y, z1 - 1), e);
        lemma_concat_contains(grid_row(x, y, z0, z1 - 1, g), g(x, y, z1 - 1), e);
        if grid_row(x, y, z0, z1 - 1, f).contains(e) {
            lemma_grid_row_contains(x, y, z0, z1 - 1, f, g, e);
        }
    }
}

/// The same transfer along a plane.
pub proof fn lemma_grid_plane_contains<A>(x: int, y0: int, y1: int, z0: int, z1: int, f: spec_fn(int, int, int) -> Seq<A>, g: spec_fn(int, int, int) -> Seq<A>, e: A)
    requires
        forall|b: int, c: int| y0 <= b < y1 && z0 <= c < z1 && #[trigger] f(x, b, c).contains(e) ==> g(x, b, c).contains(e),
        grid_plane(x, y0, y1, z0, z1, f).contains(e),
    ensures
        grid_plane(x, y0, y1, z0, z1, g).contains(e),
    decreases y1 - y0,
{
    if y1 > y0 {
        lemma_concat_contains(grid_plane(x, y0, y1 - 1, z0, z1, f), grid_row(x, y1 - 1, z0, z1, f), e);
        lemma_concat_contains(grid_plane(x, y0, y1 - 1, z0, z1, g), grid_row(x, y1 - 1, z0, z1, g), e);
        if grid_plane(x, y0, y1 - 1, z0, z1, f).contains(e) {
            lemma_grid_plane_contains(x, y0, y1 - 1, z0, z1, f, g, e);
        } else {
            lemma_grid_row_contains(x, y1 - 1, z0, z1, f, g, e);
        }
    }
}

/// The same transfer over a box.
pub proof fn lemma_grid_box_contains<A>(x0: int, x1: int, y0: int, y1: int, z0: int, z1: int, f: spec_fn(int, int, int) -> Seq<A>, g: spec_fn(int, int, int) -> Seq<A>, e: A)
    requires
        forall|a: int, b: int, c: int|
            x0 <= a < x1 && y0 <= b < y1 && z0 <= c < z1 && #[trigger] f(a, b, c).contains(e) ==> g(a, b, c).contains(e),
        grid_box(x0, x1, y0, y1, z0, z1, f).contains(e),
    ensures
        grid_box(x0, x1, y0, y1, z0, z1, g).contains(e),
    decreases x1 - x0,
{
    if x1 > x0 {
        lemma_concat_contains(grid_box(x0, x1 - 1, y0, y1, z0, z1, f), grid_plane(x1 - 1, y0, y1, z0, z1, f), e);
        lemma_concat_contains(grid_box(x0, x1 - 1, y0, y1, z0, z1, g), grid_plane(x1 - 1, y0, y1, z0, z1, g), e);
        if grid_box(x0, x1 - 1, y0, y1, z0, z1, f).contains(e) {
            lemma_grid_box_contains(x0, x1 - 1, y0, y1, z0, z1, f, g, e);
        } else {
            lemma_grid_plane_contains(x1 - 1, y0, y1, z0, z1, f, g, e);
        }
    }
}

/// A row of cells yielding at most one element each has at most one element
/// per cell.
pub proof fn lemma_grid_row_len<A>(x: int, y: int, z0: int, z1: int, f: spec_fn(int, int, int) -> Seq<A>)
    requires
        z0 <= z1,
        forall|c: int| z0 <= c < z1 ==> #[trigger] f(x, y, c).len() <= 1,
    ensures
        grid_row(x, y, z0, z1, f).len() <= z1 - z0,
    decreases z1 - z0,
{
    if z1 > z0 {
        lemma_grid_row_len(x, y, z0, z1 - 1, f);
    }
}

/// The same bound for a plane.
pub proof fn lemma_grid_plane_len<A>(x: int, y0: int, y1: int, z0: int, z1: int, f: spec_fn(int, int, int) -> Seq<A>)
    requires
        y0 <= y1,
        z0 <= z1,
        forall|b: int, c: int| y0 <= b < y1 && z0 <= c < z1 ==> #[trigger] f(x, b, c).len() <= 1,
    ensures
        grid_plane(x, y0, y1, z0, z1, f).len() <= (y1 - y0) * (z1 - z0),
    decreases y1 - y0,
{
    if y1 > y0 {
        lemma_grid_plane_len(x, y0, y1 - 1, z0, z1, f);
        lemma_grid_row_len(x, y1 - 1, z0, z1, f);
        assert((y1 - 1 - y0) * (z1 - z0) + (z1 - z0) == (y1 - y0) * (z1 - z0)) by (nonlinear_arith);
    }
}

/// The same bound for a box.
pub proof fn lemma_grid_box_len<A>(x0: int, x1: int, y0: int, y1: int, z0: int, z1: int, f: spec_fn(int, int, int) -> Seq<A>)
    requires
        x0 <= x1,
        y0 <= y1,
        z0 <= z1,
        forall|a: int, b: int, c: int|
            x0 <= a < x1 && y0 <= b < y1 && z0 <= c < z1 ==> #[trigger] f(a, b, c).len() <= 1,
    ensures
        grid_box(x0, x1, y0, y1, z0, z1, f).len() <= (x1 - x0) * ((y1 - y0) * (z1 - z0)),
    decreases x1 - x0,
{
    if x1 > x0 {
        lemma_grid_box_len(x0, x1 - 1, y0, y1, z0, z1, f);
        lemma_grid_plane_len(x1 - 1, y0, y1, z0, z1, f);
        let n = (y1 - y0) * (z1 - z0);
        assert((x1 - 1 - x0) * n + n == (x1 - x0) * n) by (nonlinear_arith);
    }
}

/// Whatever a cell of a row yields, the row holds.
pub proof fn lemma_grid_row_has<A>(x: int, y: int, z0: int, z1: int, f: spec_fn(int, int, int) -> Seq<A>, c: int, e: A)
    requires
        z0 <= c < z1,
        f(x, y, c).contains(e),
    ensures
        grid_row(x, y, z0, z1, f).contains(e),
    decreases z1 - z0,
{
    lemma_concat_contains(grid_row(x, y, z0, z1 - 1, f), f(x, y, z1 - 1), e);
    if c < z1 - 1 {
        lemma_grid_row_has(x, y, z0, z1 - 1, f, c, e);
    }
}

/// Whatever a cell of a plane yields, the plane holds.
pub proof fn lemma_grid_plane_has<A>(x: int, y0: int, y1: int, z0: int, z1: int, f: spec_fn(int, int, int) -> Seq<A>, b: int, c: int, e: A)
    requires
        y0 <= b < y1,
        z0 <= c < z1,
        f(x, b, c).contains(e),
    ensures
        grid_plane(x, y0, y1, z0, z1, f).contains(e),
    decreases y1 - y0,
{
    lemma_concat_contains(grid_plane(x, y0, y1 - 1, z0, z1, f), grid_row(x, y1 - 1, z0, z1, f), e);
    if b < y1 - 1 {
        lemma_grid_plane_has(x, y0, y1 - 1, z0, z1, f, b, c, e);
    } else {
        lemma_grid_row_has(x, b, z0, z1, f, c, e);
    }
}

/// Whatever a cell of a box yields, the box holds.
pub proof fn lemma_grid_box_has<A>(x0: int, x1: int, y0: int, y1: int, z0: int, z1: int, f: spec_fn(int, int, int) -> Seq<A>, a: int, b: int, c: int, e: A)
    requires
        x0 <= a < x1,
        y0 <= b < y1,
        z0 <= c < z1,
        f(a, b, c).contains(e),
    ensures
        grid_box(x0, x1, y0, y1, z0, z1, f).contains(e),
    decreases x1 - x0,
{
    lemma_concat_contains(grid_box(x0, x1 - 1, y0, y1, z0, z1, f), grid_plane(x1 - 1, y0, y1, z0, z1, f), e);
    if a < x1 - 1 {
        lemma_grid_box_has(x0, x1 - 1, y0, y1, z0, z1, f, a, b, c, e);
    } else {
        lemma_grid_plane_has(a, y0, y1, z0, z1, f, b, c, e);
    }
}

proof fn lemma_concat_all<A>(a: Seq<A>, b: Seq<A>, pred: spec_fn(A) -> bool)
    requires
        forall|i: int| 0 <= i < a.len() ==> pred(#[trigger] a[i]),
        forall|i: int| 0 <= i < b.len() ==> pred(#[trigger] b[i]),
    ensures
        forall|i: int| 0 <= i < (a + b).len() ==> pred(#[trigger] (a + b)[i]),
{
    assert forall|i: int| 0 <= i < (a + b).len() implies pred(#[trigger] (a + b)[i]) by {
        if i < a.len() {
            assert((a + b)[i] == a[i]);
        } else {
            assert((a + b)[i] == b[i - a.len()]);
        }
    }
}

} // verus!
