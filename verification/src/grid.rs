//! Square grids of quads: points, triangles, boundary.
use vstd::arithmetic::div_mod::lemma_fundamental_div_mod_converse;
use vstd::prelude::*;

verus! {

/// The number of the point in column `i` and row `j` of a grid with `res` quads to a side.
pub open spec fn at(res: int, i: int, j: int) -> int {
    j * (res + 1) + i
}

/// The six corners of the two triangles of quad `(i, j)`, facing up where columns run east
/// and rows run north.
pub open spec fn quad_up(res: int, i: int, j: int) -> Seq<int> {
    let a = at(res, i, j);
    let b = a + 1;
    let c = a + res + 1;
    let d = c + 1;
    seq![a, b, c, b, d, c]
}

/// The six corners of the two triangles of quad `(i, j)`, facing the other way.
pub open spec fn quad_out(res: int, i: int, j: int) -> Seq<int> {
    let a = at(res, i, j);
    let b = a + 1;
    let c = a + res + 1;
    let d = c + 1;
    seq![a, c, b, b, c, d]
}

proof fn at_bounds(res: int, i: int, j: int)
    requires
        0 <= i <= res,
        0 <= j <= res,
    ensures
        0 <= at(res, i, j) < (res + 1) * (res + 1),
        j < res ==> at(res, i, j) + res + 1 == at(res, i, j + 1),
{
    assert(0 <= j * (res + 1) && j * (res + 1) + i < (res + 1) * (res + 1)) by (nonlinear_arith)
        requires
            0 <= i <= res,
            0 <= j <= res,
    ;
    assert((j + 1) * (res + 1) == j * (res + 1) + res + 1) by (nonlinear_arith);
}

/// The lattice places of a grid's points, row by row.
pub fn grid_points(res: u32) -> (points: Vec<(u32, u32)>)
    requires
        (res + 1) * (res + 1) <= u32::MAX,
    ensures
        points.len() == (res + 1) * (res + 1),
        forall|i: int, j: int|
            0 <= i <= res && 0 <= j <= res ==> #[trigger] points[at(res as int, i, j)] == (
                i as u32,
                j as u32,
            ),
{
    let mut points: Vec<(u32, u32)> = Vec::new();
    let mut j: u32 = 0;
    while j <= res
        invariant
            j <= res + 1,
            (res + 1) * (res + 1) <= u32::MAX,
            points.len() == j * (res + 1),
            forall|x: int, y: int|
                0 <= x <= res && 0 <= y < j ==> #[trigger] points[at(res as int, x, y)] == (
                    x as u32,
                    y as u32,
                ),
        decreases res + 1 - j,
    {
        proof {
            in_square(res as int);
        }
        let mut i: u32 = 0;
        while i <= res
            invariant
                i <= res + 1,
                j <= res,
                res < u32::MAX,
                points.len() == j * (res + 1) + i,
                forall|x: int, y: int|
                    0 <= x <= res && 0 <= y <= j && (y < j || x < i) ==> #[trigger] points[at(
                        res as int,
                        x,
                        y,
                    )] == (x as u32, y as u32),
            decreases res + 1 - i,
        {
            let ghost was = points@;
            points.push((i, j));
            proof {
                assert forall|x: int, y: int|
                    0 <= x <= res && 0 <= y <= j && (y < j || x < i + 1) implies #[trigger] points@[at(
                    res as int,
                    x,
                    y,
                )] == (x as u32, y as u32) by {
                    before_in_grid(res as int, x, y, i as int, j as int);
                }
            }
            i = i + 1;
        }
        proof {
            assert((j + 1) * (res + 1) == j * (res + 1) + res + 1) by (nonlinear_arith);
        }
        j = j + 1;
    }
    points
}

proof fn in_square(res: int)
    requires
        res >= 0,
        (res + 1) * (res + 1) <= u32::MAX,
    ensures
        res < u32::MAX,
{
    assert(res + 1 <= (res + 1) * (res + 1)) by (nonlinear_arith)
        requires
            res >= 0,
    ;
}

/// A point of an earlier row, or earlier in the row, has a lower number.
proof fn before_in_grid(res: int, x: int, y: int, i: int, j: int)
    requires
        0 <= x <= res,
        0 <= i <= res,
        0 <= y <= j,
        y < j || x <= i,
    ensures
        0 <= at(res, x, y) <= at(res, i, j),
        y < j || x < i ==> at(res, x, y) < at(res, i, j),
{
    assert(0 <= y * (res + 1)) by (nonlinear_arith)
        requires
            0 <= y,
            0 <= res,
    ;
    if y < j {
        assert(y * (res + 1) + res + 1 <= j * (res + 1)) by (nonlinear_arith)
            requires
                y + 1 <= j,
                0 <= res,
        ;
    }
}

/// The triangles of a grid, quad by quad and row by row, facing up.
pub fn grid_indices(res: u32) -> (out: Vec<u32>)
    requires
        (res + 1) * (res + 1) <= u32::MAX,
        6 * (res * res) <= usize::MAX,
    ensures
        out.len() == 6 * (res * res),
        forall|i: int, j: int, q: int|
            0 <= i < res && 0 <= j < res && 0 <= q < 6 ==> out[6 * (j * res + i) + q]
                == #[trigger] quad_up(res as int, i, j)[q],
        forall|n: int| 0 <= n < out.len() ==> (#[trigger] out[n]) < (res + 1) * (res + 1),
{
    let mut out: Vec<u32> = Vec::new();
    let mut j: u32 = 0;
    while j < res
        invariant
            j <= res,
            (res + 1) * (res + 1) <= u32::MAX,
            6 * (res * res) <= usize::MAX,
            out.len() == 6 * (j * res),
            forall|x: int, y: int, q: int|
                0 <= x < res && 0 <= y < j && 0 <= q < 6 ==> out[6 * (y * res + x) + q]
                    == #[trigger] quad_up(res as int, x, y)[q],
            forall|n: int| 0 <= n < out.len() ==> (#[trigger] out[n]) < (res + 1) * (res + 1),
        decreases res - j,
    {
        let mut i: u32 = 0;
        while i < res
            invariant
                i <= res,
                j < res,
                (res + 1) * (res + 1) <= u32::MAX,
                out.len() == 6 * (j * res + i),
                forall|x: int, y: int, q: int|
                    0 <= x < res && 0 <= y <= j && (y < j || x < i) && 0 <= q < 6 ==> out[6 * (y
                        * res + x) + q] == #[trigger] quad_up(res as int, x, y)[q],
                forall|n: int| 0 <= n < out.len() ==> (#[trigger] out[n]) < (res + 1) * (res + 1),
            decreases res - i,
        {
            proof {
                in_square(res as int);
                at_bounds(res as int, i as int, j as int);
                at_bounds(res as int, i as int, j as int + 1);
                at_bounds(res as int, i as int + 1, j as int);
                at_bounds(res as int, i as int + 1, j as int + 1);
                assert(j * (res + 1) + i == at(res as int, i as int, j as int));
                assert(0 <= j * (res + 1)) by (nonlinear_arith);
            }
            let a: u32 = j * (res + 1) + i;
            let b: u32 = a + 1;
            let c: u32 = a + res + 1;
            let d: u32 = c + 1;
            let ghost was = out@;
            out.push(a);
            out.push(b);
            out.push(c);
            out.push(b);
            out.push(d);
            out.push(c);
            proof {
                assert forall|x: int, y: int, q: int|
                    0 <= x < res && 0 <= y <= j && (y < j || x < i + 1) && 0 <= q < 6 implies out@[6
                    * (y * res + x) + q] == #[trigger] quad_up(res as int, x, y)[q] by {
                    earlier_quad(res as int, x, y, i as int, j as int);
                    if y < j || x < i {
                        assert(was[6 * (y * res + x) + q] == quad_up(res as int, x, y)[q]);
                    }
                }
            }
            i = i + 1;
        }
        proof {
            assert((j + 1) * res == j * res + res) by (nonlinear_arith);
        }
        j = j + 1;
    }
    out
}

proof fn earlier_quad(res: int, x: int, y: int, i: int, j: int)
    requires
        0 <= x < res,
        0 <= i < res,
        0 <= y <= j,
        y < j || x <= i,
    ensures
        0 <= y * res + x <= j * res + i,
        y < j || x < i ==> y * res + x < j * res + i,
{
    assert(0 <= y * res) by (nonlinear_arith)
        requires
            0 <= y,
            0 < res,
    ;
    if y < j {
        assert(y * res + res <= j * res) by (nonlinear_arith)
            requires
                y + 1 <= j,
                0 < res,
        ;
    }
}

/// Triangles with their second and third corner changed about.
fn turned_over(up: &Vec<u32>) -> (indices: Vec<u32>)
    requires
        up.len() % 3 == 0,
    ensures
        indices.len() == up.len(),
        forall|m: int|
            0 <= m < up.len() ==> #[trigger] indices[m] == up[m - m % 3 + (3 - m % 3) % 3],
{
    let mut indices: Vec<u32> = Vec::new();
    let mut n: usize = 0;
    while n < up.len()
        invariant
            n <= up.len(),
            n % 3 == 0,
            up.len() % 3 == 0,
            indices.len() == n,
            forall|m: int|
                0 <= m < n ==> #[trigger] indices[m] == up[m - m % 3 + (3 - m % 3) % 3],
        decreases up.len() - n,
    {
        let a: u32 = up[n];
        let b: u32 = up[n + 1];
        let c: u32 = up[n + 2];
        indices.push(a);
        indices.push(c);
        indices.push(b);
        n = n + 3;
    }
    indices
}

/// Which points of a grid lie on one of its four outer edges.
fn boundary_of(res: u32) -> (boundary: Vec<bool>)
    requires
        (res + 1) * (res + 1) <= u32::MAX,
    ensures
        boundary.len() == (res + 1) * (res + 1),
        forall|i: int, j: int|
            0 <= i <= res && 0 <= j <= res ==> #[trigger] boundary[at(res as int, i, j)] == (i == 0
                || i == res || j == 0 || j == res),
{
    let mut boundary: Vec<bool> = Vec::new();
    let points = grid_points(res);
    let mut v: usize = 0;
    while v < points.len()
        invariant
            v <= points.len(),
            boundary.len() == v,
            forall|m: int|
                0 <= m < v ==> #[trigger] boundary[m] == (points[m].0 == 0 || points[m].0 == res
                    || points[m].1 == 0 || points[m].1 == res),
        decreases points.len() - v,
    {
        let (i, j) = points[v];
        boundary.push(i == 0 || i == res || j == 0 || j == res);
        v = v + 1;
    }
    proof {
        assert forall|i: int, j: int| 0 <= i <= res && 0 <= j <= res implies #[trigger] boundary@[at(
            res as int,
            i,
            j,
        )] == (i == 0 || i == res || j == 0 || j == res) by {
            at_bounds(res as int, i, j);
            assert(points[at(res as int, i, j)] == (i as u32, j as u32));
        }
    }
    boundary
}

proof fn turned_quad(up: Seq<u32>, indices: Seq<u32>, res: int, i: int, j: int, q: int)
    requires
        0 <= i < res,
        0 <= j < res,
        0 <= q < 6,
        up.len() == 6 * (res * res),
        forall|i: int, j: int, q: int|
            0 <= i < res && 0 <= j < res && 0 <= q < 6 ==> up[6 * (j * res + i) + q]
                == #[trigger] quad_up(res, i, j)[q],
        forall|m: int|
            0 <= m < up.len() ==> #[trigger] indices[m] == up[m - m % 3 + (3 - m % 3) % 3],
    ensures
        indices[6 * (j * res + i) + q] == quad_out(res, i, j)[q],
{
    let base = 6 * (j * res + i);
    earlier_quad(res, i, j, res - 1, res - 1);
    assert((res - 1) * res + res - 1 == res * res - 1) by (nonlinear_arith);
    let m = base + q;
    let p = q - q % 3 + (3 - q % 3) % 3;
    assert(m % 3 == q % 3);
    assert(up[base + p] == quad_up(res, i, j)[p]);
    assert(indices[m] == up[base + p]);
}

/// The triangles of a patch of terrain, facing outward, and which of its points lie on one of
/// its four outer edges.
pub fn patch_topology(res: u32) -> (out: (Vec<u32>, Vec<bool>))
    requires
        (res + 1) * (res + 1) <= u32::MAX,
        6 * (res * res) <= usize::MAX,
    ensures
        out.0.len() == 6 * (res * res),
        forall|i: int, j: int, q: int|
            0 <= i < res && 0 <= j < res && 0 <= q < 6 ==> out.0[6 * (j * res + i) + q]
                == #[trigger] quad_out(res as int, i, j)[q],
        forall|n: int| 0 <= n < out.0.len() ==> (#[trigger] out.0[n]) < out.1.len(),
        out.1.len() == (res + 1) * (res + 1),
        forall|i: int, j: int|
            0 <= i <= res && 0 <= j <= res ==> #[trigger] out.1[at(res as int, i, j)] == (i == 0
                || i == res || j == 0 || j == res),
{
    let up = grid_indices(res);
    let indices = turned_over(&up);
    let boundary = boundary_of(res);
    proof {
        assert forall|i: int, j: int, q: int|
            0 <= i < res && 0 <= j < res && 0 <= q < 6 implies indices@[6 * (j * res + i) + q]
            == #[trigger] quad_out(res as int, i, j)[q] by {
            turned_quad(up@, indices@, res as int, i, j, q);
        }
        assert forall|n: int| 0 <= n < indices.len() implies (#[trigger] indices@[n])
            < boundary.len() by {
            assert(indices@[n] == up[n - n % 3 + (3 - n % 3) % 3]);
        }
    }
    (indices, boundary)
}

/// Turns every triangle over: its first and last corner change places. Corners beyond the
/// last whole triangle stay.
pub fn reverse_winding(indices: &mut Vec<u32>)
    ensures
        final(indices).len() == old(indices).len(),
        forall|t: int, q: int|
            0 <= t && 3 * t + 3 <= old(indices).len() && 0 <= q < 3 ==>
                #[trigger] final(indices)[3 * t + q] == old(indices)[3 * t + 2 - q],
        forall|n: int|
            old(indices).len() - old(indices).len() % 3 <= n < old(indices).len()
                ==> #[trigger] final(indices)[n] == old(indices)[n],
{
    let len: usize = indices.len();
    let mut n: usize = 0;
    while len - n >= 3
        invariant
            n % 3 == 0,
            n <= len,
            len == indices.len() == old(indices).len(),
            forall|t: int, q: int|
                0 <= t && 3 * t + 3 <= n && 0 <= q < 3 ==> #[trigger] indices[3 * t + q] == old(
                    indices,
                )[3 * t + 2 - q],
            forall|m: int| n <= m < len ==> #[trigger] indices[m] == old(indices)[m],
        decreases len - n,
    {
        let a: u32 = indices[n];
        let c: u32 = indices[n + 2];
        let ghost was = indices@;
        indices.set(n, c);
        indices.set(n + 2, a);
        proof {
            assert forall|t: int, q: int|
                0 <= t && 3 * t + 3 <= n + 3 && 0 <= q < 3 implies #[trigger] indices@[3 * t + q]
                == old(indices)@[3 * t + 2 - q] by {
                if 3 * t + 3 <= n {
                    assert(was[3 * t + q] == old(indices)@[3 * t + 2 - q]);
                } else {
                    assert(3 * t == n);
                }
            }
        }
        n = n + 3;
    }
}

/// How many entries are true.
pub open spec fn count(mask: Seq<bool>) -> nat
    decreases mask.len(),
{
    if mask.len() == 0 {
        0
    } else {
        count(mask.drop_last()) + (if mask.last() {
            1nat
        } else {
            0nat
        })
    }
}

/// The boundary points in the first `j` rows and the first `i` places of the next.
spec fn counted(res: int, j: int, i: int) -> int {
    if j == 0 {
        i
    } else if j < res {
        (res + 1) + 2 * (j - 1) + (if i == 0 {
            0int
        } else if i <= res {
            1
        } else {
            2
        })
    } else {
        (res + 1) + 2 * (res - 1) + i
    }
}

proof fn count_so_far(mask: Seq<bool>, res: int, j: int, i: int)
    requires
        res >= 1,
        mask.len() == (res + 1) * (res + 1),
        0 <= j <= res,
        0 <= i <= res + 1,
        forall|i: int, j: int|
            0 <= i <= res && 0 <= j <= res ==> #[trigger] mask[at(res, i, j)] == (i == 0 || i == res
                || j == 0 || j == res),
    ensures
        0 <= at(res, i, j) <= mask.len(),
        count(mask.take(at(res, i, j))) == counted(res, j, i),
    decreases j, i,
{
    if i > 0 {
        count_so_far(mask, res, j, i - 1);
        at_bounds(res, i - 1, j);
        let now = mask.take(at(res, i, j));
        assert(now.drop_last() =~= mask.take(at(res, i - 1, j)));
        assert(now.last() == mask[at(res, i - 1, j)]);
    } else if j > 0 {
        count_so_far(mask, res, j - 1, res + 1);
        assert((j - 1) * (res + 1) + res + 1 == j * (res + 1)) by (nonlinear_arith);
        assert(at(res, res + 1, j - 1) == at(res, 0, j));
    } else {
        assert(0 * (res + 1) == 0) by (nonlinear_arith);
        assert(mask.take(0) =~= Seq::<bool>::empty());
        assert(0 <= (res + 1) * (res + 1)) by (nonlinear_arith);
    }
}

/// The boundary of a patch is its perimeter: four times as many points as quads to a side.
pub proof fn boundary_is_perimeter(mask: Seq<bool>, res: int)
    requires
        res >= 1,
        mask.len() == (res + 1) * (res + 1),
        forall|i: int, j: int|
            0 <= i <= res && 0 <= j <= res ==> #[trigger] mask[at(res, i, j)] == (i == 0 || i == res
                || j == 0 || j == res),
    ensures
        count(mask) == 4 * res,
{
    count_so_far(mask, res, res, res + 1);
    assert(res * (res + 1) + res + 1 == (res + 1) * (res + 1)) by (nonlinear_arith);
    assert(mask.take(mask.len() as int) =~= mask);
}

/// The `e`-th directed edge of two triangles, given by their six corners.
pub open spec fn edge_of(q: Seq<int>, e: int) -> (int, int) {
    if e < 3 {
        (q[e], q[(e + 1) % 3])
    } else {
        (q[e], q[3 + (e - 2) % 3])
    }
}

/// The `e`-th directed edge of the two triangles of quad `(i, j)`.
pub open spec fn quad_edge(res: int, i: int, j: int, e: int) -> (int, int) {
    edge_of(quad_up(res, i, j), e)
}

/// The same of a patch of terrain, whose triangles face outward.
pub open spec fn patch_edge(res: int, i: int, j: int, e: int) -> (int, int) {
    edge_of(quad_out(res, i, j), e)
}

/// A grid has no cracks: the edge of a triangle is an edge of another the other way round,
/// unless it lies on the outside of the grid.
pub proof fn grid_is_watertight(res: int, i: int, j: int, e: int) -> (r: (int, int, int))
    requires
        0 <= i < res,
        0 <= j < res,
        0 <= e < 6,
        !(j == 0 && quad_edge(res, i, j, e) == (at(res, i, j), at(res, i + 1, j))),
        !(i == 0 && quad_edge(res, i, j, e) == (at(res, i, j + 1), at(res, i, j))),
        !(i == res - 1 && quad_edge(res, i, j, e) == (at(res, i + 1, j), at(res, i + 1, j + 1))),
        !(j == res - 1 && quad_edge(res, i, j, e) == (
            at(res, i + 1, j + 1),
            at(res, i, j + 1),
        )),
    ensures
        0 <= r.0 < res,
        0 <= r.1 < res,
        0 <= r.2 < 6,
        quad_edge(res, r.0, r.1, r.2) == (
            quad_edge(res, i, j, e).1,
            quad_edge(res, i, j, e).0,
        ),
{
    assert((j + 1) * (res + 1) == j * (res + 1) + res + 1) by (nonlinear_arith);
    assert((j - 1) * (res + 1) == j * (res + 1) - res - 1) by (nonlinear_arith);
    if e == 0 {
        (i, j - 1, 4)
    } else if e == 1 {
        (i, j, 5)
    } else if e == 2 {
        (i - 1, j, 3)
    } else if e == 3 {
        (i + 1, j, 2)
    } else if e == 4 {
        (i, j + 1, 0)
    } else {
        (i, j, 1)
    }
}

/// A patch has no cracks either: the edge of a triangle is an edge of another the other way round,
/// unless it lies on the outside of the patch.
pub proof fn patch_is_watertight(res: int, i: int, j: int, e: int) -> (r: (int, int, int))
    requires
        0 <= i < res,
        0 <= j < res,
        0 <= e < 6,
        !(j == 0 && patch_edge(res, i, j, e) == (at(res, i + 1, j), at(res, i, j))),
        !(i == 0 && patch_edge(res, i, j, e) == (at(res, i, j), at(res, i, j + 1))),
        !(i == res - 1 && patch_edge(res, i, j, e) == (at(res, i + 1, j + 1), at(res, i + 1, j))),
        !(j == res - 1 && patch_edge(res, i, j, e) == (
            at(res, i, j + 1),
            at(res, i + 1, j + 1),
        )),
    ensures
        0 <= r.0 < res,
        0 <= r.1 < res,
        0 <= r.2 < 6,
        patch_edge(res, r.0, r.1, r.2) == (
            patch_edge(res, i, j, e).1,
            patch_edge(res, i, j, e).0,
        ),
{
    assert((j + 1) * (res + 1) == j * (res + 1) + res + 1) by (nonlinear_arith);
    assert((j - 1) * (res + 1) == j * (res + 1) - res - 1) by (nonlinear_arith);
    if e == 0 {
        (i - 1, j, 5)
    } else if e == 1 {
        (i, j, 3)
    } else if e == 2 {
        (i, j - 1, 4)
    } else if e == 3 {
        (i, j, 1)
    } else if e == 4 {
        (i, j + 1, 2)
    } else {
        (i + 1, j, 0)
    }
}

proof fn at_is_injective(res: int, i: int, j: int, x: int, y: int)
    requires
        0 <= i <= res,
        0 <= x <= res,
        at(res, i, j) == at(res, x, y),
    ensures
        i == x,
        j == y,
{
    lemma_fundamental_div_mod_converse(at(res, i, j), res + 1, j, i);
    lemma_fundamental_div_mod_converse(at(res, i, j), res + 1, y, x);
}

/// Where the `e`-th edge of quad `(i, j)` begins and ends, on the lattice.
spec fn lattice_edge(i: int, j: int, e: int) -> ((int, int), (int, int)) {
    if e == 0 {
        ((i, j), (i + 1, j))
    } else if e == 1 {
        ((i + 1, j), (i, j + 1))
    } else if e == 2 {
        ((i, j + 1), (i, j))
    } else if e == 3 {
        ((i + 1, j), (i + 1, j + 1))
    } else if e == 4 {
        ((i + 1, j + 1), (i, j + 1))
    } else {
        ((i, j + 1), (i + 1, j))
    }
}

proof fn edge_on_lattice(res: int, i: int, j: int, e: int)
    requires
        0 <= e < 6,
    ensures
        ({
            let (p, q) = lattice_edge(i, j, e);
            quad_edge(res, i, j, e) == (at(res, p.0, p.1), at(res, q.0, q.1))
        }),
{
    assert((j + 1) * (res + 1) == j * (res + 1) + res + 1) by (nonlinear_arith);
}

/// Each directed edge of a grid belongs to one triangle only.
pub proof fn grid_edges_are_used_once(
    res: int,
    a: (int, int, int),
    b: (int, int, int),
)
    requires
        0 <= a.0 < res && 0 <= a.1 < res && 0 <= a.2 < 6,
        0 <= b.0 < res && 0 <= b.1 < res && 0 <= b.2 < 6,
        quad_edge(res, a.0, a.1, a.2) == quad_edge(res, b.0, b.1, b.2),
    ensures
        a == b,
{
    edge_on_lattice(res, a.0, a.1, a.2);
    edge_on_lattice(res, b.0, b.1, b.2);
    let (p, q) = lattice_edge(a.0, a.1, a.2);
    let (x, y) = lattice_edge(b.0, b.1, b.2);
    at_is_injective(res, p.0, p.1, x.0, x.1);
    at_is_injective(res, q.0, q.1, y.0, y.1);
}

/// The edge of a patch that runs against edge `e` of a grid.
spec fn turned(e: int) -> int {
    if e == 0 {
        2
    } else if e == 1 {
        1
    } else if e == 2 {
        0
    } else if e == 3 {
        5
    } else if e == 4 {
        4
    } else {
        3
    }
}

/// Each directed edge of a patch belongs to one triangle only.
pub proof fn patch_edges_are_used_once(
    res: int,
    a: (int, int, int),
    b: (int, int, int),
)
    requires
        0 <= a.0 < res && 0 <= a.1 < res && 0 <= a.2 < 6,
        0 <= b.0 < res && 0 <= b.1 < res && 0 <= b.2 < 6,
        patch_edge(res, a.0, a.1, a.2) == patch_edge(res, b.0, b.1, b.2),
    ensures
        a == b,
{
    turned_runs_against(res, a.0, a.1, a.2);
    turned_runs_against(res, b.0, b.1, b.2);
    grid_edges_are_used_once(res, (a.0, a.1, turned(a.2)), (b.0, b.1, turned(b.2)));
}

proof fn turned_runs_against(res: int, i: int, j: int, e: int)
    requires
        0 <= e < 6,
    ensures
        quad_edge(res, i, j, turned(e)) == (
            patch_edge(res, i, j, e).1,
            patch_edge(res, i, j, e).0,
        ),
{
}

/// Points are numbered row by row, from the first column of the first row to the last of the last.
pub proof fn points_are_numbered_by_rows(res: int, i: int, j: int)
    requires
        0 <= i <= res,
        0 <= j <= res,
    ensures
        at(res, 0, 0) == 0,
        i < res ==> at(res, i + 1, j) == at(res, i, j) + 1,
        j < res ==> at(res, 0, j + 1) == at(res, res, j) + 1,
        at(res, res, res) == (res + 1) * (res + 1) - 1,
{
    at_bounds(res, i, j);
    assert((j + 1) * (res + 1) == j * (res + 1) + res + 1) by (nonlinear_arith);
    assert(res * (res + 1) + res == (res + 1) * (res + 1) - 1) by (nonlinear_arith);
    assert(0 * (res + 1) == 0) by (nonlinear_arith);
}

/// Twice the area of a triangle of grid points, positive if they go counter-clockwise.
pub open spec fn turning(p: (int, int), q: (int, int), r: (int, int)) -> int {
    (q.0 - p.0) * (r.1 - p.1) - (q.1 - p.1) * (r.0 - p.0)
}

/// Each quad is cut in two along the diagonal from its right neighbour to the one above: the two
/// triangles have its four points as corners, go counter-clockwise and fill it. Those of a patch
/// are the same two, turned over.
pub proof fn quads_are_filled(res: int, i: int, j: int)
    requires
        0 <= i < res,
        0 <= j < res,
    ensures
        quad_up(res, i, j) == seq![
            at(res, i, j),
            at(res, i + 1, j),
            at(res, i, j + 1),
            at(res, i + 1, j),
            at(res, i + 1, j + 1),
            at(res, i, j + 1),
        ],
        quad_out(res, i, j) == seq![
            at(res, i, j),
            at(res, i, j + 1),
            at(res, i + 1, j),
            at(res, i + 1, j),
            at(res, i, j + 1),
            at(res, i + 1, j + 1),
        ],
        turning((i, j), (i + 1, j), (i, j + 1)) == 1,
        turning((i + 1, j), (i + 1, j + 1), (i, j + 1)) == 1,
        turning((i, j), (i, j + 1), (i + 1, j)) == -1,
        turning((i + 1, j), (i, j + 1), (i + 1, j + 1)) == -1,
{
    assert((j + 1) * (res + 1) == j * (res + 1) + res + 1) by (nonlinear_arith);
    assert(quad_up(res, i, j) =~= seq![
        at(res, i, j),
        at(res, i + 1, j),
        at(res, i, j + 1),
        at(res, i + 1, j),
        at(res, i + 1, j + 1),
        at(res, i, j + 1),
    ]);
    assert(quad_out(res, i, j) =~= seq![
        at(res, i, j),
        at(res, i, j + 1),
        at(res, i + 1, j),
        at(res, i + 1, j),
        at(res, i, j + 1),
        at(res, i + 1, j + 1),
    ]);
    unit_product(i + 1 - i, j + 1 - j);
    unit_product(j - j, i - i);
    unit_product(i + 1 - (i + 1), j + 1 - j);
    unit_product(j + 1 - j, i - (i + 1));
    unit_product(i - i, j - j);
    unit_product(j + 1 - j, i + 1 - i);
    unit_product(i - (i + 1), j + 1 - j);
    unit_product(j + 1 - j, i + 1 - (i + 1));
}

proof fn unit_product(x: int, y: int)
    ensures
        x == 0 || y == 0 ==> x * y == 0,
        x == 1 ==> x * y == y,
        x == -1 ==> x * y == -y,
{
}

} // verus!
