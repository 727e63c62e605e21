//! The concentric mesh fills its square: the triangles together are as large as the square that
//! the outer rim goes round, and none of them reaches beyond it.
use vstd::arithmetic::power2::pow2;
use vstd::prelude::*;

use crate::ocean::clipmap::{
    cell_triangles, cells, facing, fan_triangle, farthest, in_hole, is_cell, outline, row, rows,
    triangles, Cell, Facing, Point,
};
use crate::ocean::seams::{
    after, around, cell_parts, cells_hold, doubled_area, edge, farthest_is_farthest, locate, place,
    rows_hold, shape, sides_are_edges, small_product, steps, triangle, triangle_at, triangle_count,
    whole_triangles,
};

verus! {

/// Twice the area of the first `n` triangles together.
pub open spec fn area_of(corners: Seq<Point>, n: int) -> int
    decreases n,
{
    if n <= 0 {
        0
    } else {
        area_of(corners, n - 1) + doubled_area(triangle_at(corners, n - 1))
    }
}

proof fn area_of_front(a: Seq<Point>, b: Seq<Point>, n: int)
    requires
        3 * n <= a.len(),
    ensures
        area_of(a + b, n) == area_of(a, n),
    decreases n,
{
    if n > 0 {
        area_of_front(a, b, n - 1);
        assert(triangle_at(a + b, n - 1) =~= triangle_at(a, n - 1));
    }
}

proof fn area_of_both(a: Seq<Point>, b: Seq<Point>, m: int, n: int)
    requires
        a.len() == 3 * m,
        0 <= n,
        3 * n <= b.len(),
    ensures
        area_of(a + b, m + n) == area_of(a, m) + area_of(b, n),
    decreases n,
{
    if n > 0 {
        area_of_both(a, b, m, n - 1);
        assert(triangle_at(a + b, m + n - 1) =~= triangle_at(b, n - 1));
    } else {
        area_of_front(a, b, m);
    }
}

/// Twice the area of the fan of a shape, from its corner `o`.
spec fn fan_area(p: Seq<Point>, o: int) -> int {
    let first = doubled_area(fan_triangle(p, o, 0)) + doubled_area(fan_triangle(p, o, 1));
    if p.len() == 4 {
        first
    } else {
        first + doubled_area(fan_triangle(p, o, 2))
    }
}

proof fn shape_triangle(f: Facing, o: int, t: int)
    requires
        0 <= o < shape(f).len(),
        0 <= t < shape(f).len() - 2,
    ensures
        ({
            let p = shape(f);
            let n = p.len() as int;
            let a = p[o];
            let b = p[after(o, t + 1, n)];
            let c = p[after(o, t + 2, n)];
            doubled_area(fan_triangle(p, o, t)) == (b.0 - a.0) * (c.1 - a.1) - (b.1 - a.1) * (c.0
                - a.0)
        }),
{
    let n = shape(f).len() as int;
    around(o, t + 1, n);
    around(o, t + 2, n);
}

/// However a shape is cut, its triangles together fill it.
#[verifier::spinoff_prover]
proof fn shape_area(f: Facing, o: int)
    requires
        0 <= o < shape(f).len(),
    ensures
        fan_area(shape(f), o) == 8,
{
    let p = shape(f);
    let n = p.len() as int;
    shape_triangle(f, o, 0);
    shape_triangle(f, o, 1);
    let a = p[o];
    let b = p[after(o, 1, n)];
    let c = p[after(o, 2, n)];
    let d = p[after(o, 3, n)];
    small_product(b.0 - a.0, c.1 - a.1);
    small_product(b.1 - a.1, c.0 - a.0);
    small_product(c.0 - a.0, d.1 - a.1);
    small_product(c.1 - a.1, d.0 - a.0);
    if n == 5 {
        shape_triangle(f, o, 2);
        let e = p[after(o, 4, n)];
        small_product(d.0 - a.0, e.1 - a.1);
        small_product(d.1 - a.1, e.0 - a.0);
    }
}

proof fn squared_out(p: int, q: int, u: int)
    ensures
        (p * u) * (q * u) == (p * q) * (u * u),
{
    assert((p * u) * (q * u) == (p * q) * (u * u)) by (nonlinear_arith);
}

proof fn scaled_exactly(tri: Seq<Point>, big: Seq<Point>, x: int, z: int, u: int)
    requires
        forall|q: int|
            0 <= q < 3 ==> #[trigger] big[q] == (x + tri[q].0 * u, z + tri[q].1 * u),
    ensures
        doubled_area(big) == doubled_area(tri) * (u * u),
{
    let (a0, b0) = tri[0];
    let (a1, b1) = tri[1];
    let (a2, b2) = tri[2];
    assert(big[0] == (x + a0 * u, z + b0 * u));
    assert(big[1] == (x + a1 * u, z + b1 * u));
    assert(big[2] == (x + a2 * u, z + b2 * u));
    assert((a1 * u - a0 * u) == (a1 - a0) * u) by (nonlinear_arith);
    assert((a2 * u - a0 * u) == (a2 - a0) * u) by (nonlinear_arith);
    assert((b1 * u - b0 * u) == (b1 - b0) * u) by (nonlinear_arith);
    assert((b2 * u - b0 * u) == (b2 - b0) * u) by (nonlinear_arith);
    let p = a1 - a0;
    let q = b2 - b0;
    let r = b1 - b0;
    let w = a2 - a0;
    squared_out(p, q, u);
    squared_out(r, w, u);
    let (a, b, e) = (p * q, r * w, u * u);
    assert(a * e - b * e == (a - b) * e) by (nonlinear_arith);
}

proof fn scaled_fan(p: Seq<Point>, big: Seq<Point>, o: int, x: int, z: int, u: int, t: int)
    requires
        p.len() == big.len(),
        p.len() == 4 || p.len() == 5,
        0 <= o < p.len(),
        0 <= t < p.len() - 2,
        forall|v: int|
            0 <= v < p.len() ==> #[trigger] big[v] == (x + p[v].0 * u, z + p[v].1 * u),
    ensures
        doubled_area(fan_triangle(big, o, t)) == doubled_area(fan_triangle(p, o, t)) * (u * u),
{
    let n = p.len() as int;
    around(o, t + 1, n);
    around(o, t + 2, n);
    let small = fan_triangle(p, o, t);
    let large = fan_triangle(big, o, t);
    assert forall|q: int| 0 <= q < 3 implies #[trigger] large[q] == (
        x + small[q].0 * u,
        z + small[q].1 * u,
    ) by {
        let v = if q == 0 {
            o
        } else if q == 1 {
            after(o, t + 1, n)
        } else {
            after(o, t + 2, n)
        };
        assert(big[v] == (x + p[v].0 * u, z + p[v].1 * u));
    }
    scaled_exactly(small, large, x, z, u);
}

proof fn scaled_fan_area(p: Seq<Point>, big: Seq<Point>, o: int, x: int, z: int, u: int)
    requires
        p.len() == big.len(),
        p.len() == 4 || p.len() == 5,
        0 <= o < p.len(),
        forall|v: int|
            0 <= v < p.len() ==> #[trigger] big[v] == (x + p[v].0 * u, z + p[v].1 * u),
    ensures
        fan_area(big, o) == fan_area(p, o) * (u * u),
{
    scaled_fan(p, big, o, x, z, u, 0);
    scaled_fan(p, big, o, x, z, u, 1);
    let a = doubled_area(fan_triangle(p, o, 0));
    let b = doubled_area(fan_triangle(p, o, 1));
    let w = u * u;
    assert(a * w + b * w == (a + b) * w) by (nonlinear_arith);
    if p.len() == 5 {
        scaled_fan(p, big, o, x, z, u, 2);
        let c = doubled_area(fan_triangle(p, o, 2));
        assert((a + b) * w + c * w == (a + b + c) * w) by (nonlinear_arith);
    }
}

/// Twice the area of a cell.
spec fn cell_area(c: Cell) -> int {
    2 * (pow2(c.k) as int * pow2(c.k) as int)
}

proof fn outline_area(block: int, c: Cell)
    ensures
        0 <= farthest(outline(block, c)) < outline(block, c).len(),
        fan_area(outline(block, c), farthest(outline(block, c))) == cell_area(c),
{
    let p = outline(block, c);
    let f = facing(block, c);
    let o = farthest(p);
    farthest_is_farthest(p);
    steps(c);
    let s = pow2(c.k) as int;
    let x = c.i * s;
    let z = c.j * s;
    if c.k > 0 {
        let m = pow2((c.k - 1) as nat) as int;
        assert forall|v: int| 0 <= v < p.len() implies #[trigger] p[v] == (
            x + shape(f)[v].0 * m,
            z + shape(f)[v].1 * m,
        ) by {
            small_product(shape(f)[v].0, m);
            small_product(shape(f)[v].1, m);
        }
        shape_area(f, o);
        scaled_fan_area(shape(f), p, o, x, z, m);
        assert(8 * (m * m) == 2 * ((2 * m) * (2 * m))) by (nonlinear_arith);
    } else {
        vstd::arithmetic::power2::lemma2_to64();
        let near = seq![(0int, 0int), (1, 0), (1, 1), (0, 1)];
        assert forall|v: int| 0 <= v < near.len() implies #[trigger] shape(f)[v] == (
            0 + near[v].0 * 2,
            0 + near[v].1 * 2,
        ) by {}
        assert forall|v: int| 0 <= v < p.len() implies #[trigger] p[v] == (
            x + near[v].0 * 1,
            z + near[v].1 * 1,
        ) by {}
        shape_area(f, o);
        scaled_fan_area(near, shape(f), o, 0, 0, 2);
        scaled_fan_area(near, p, o, x, z, 1);
    }
}

proof fn cell_is_filled(block: int, c: Cell)
    ensures
        area_of(cell_triangles(block, c), triangle_count(block, c)) == cell_area(c),
{
    cell_parts(block, c);
    outline_area(block, c);
    let p = outline(block, c);
    let o = farthest(p);
    let all = cell_triangles(block, c);
    reveal_with_fuel(area_of, 4);
    assert(triangle(block, c, 0) == fan_triangle(p, o, 0));
    assert(triangle(block, c, 1) == fan_triangle(p, o, 1));
    if triangle_count(block, c) == 3 {
        assert(triangle(block, c, 2) == fan_triangle(p, o, 2));
    }
}

/// Twice the area of cells together.
spec fn cells_area(cs: Seq<Cell>) -> int
    decreases cs.len(),
{
    if cs.len() == 0 {
        0
    } else {
        cells_area(cs.drop_last()) + cell_area(cs.last())
    }
}

proof fn cells_are_filled(block: int, cs: Seq<Cell>)
    ensures
        area_of(triangles(block, cs), triangles(block, cs).len() as int / 3) == cells_area(cs),
    decreases cs.len(),
{
    if cs.len() > 0 {
        let front = cs.drop_last();
        cells_are_filled(block, front);
        whole_triangles(block, front);
        cell_parts(block, cs.last());
        cell_is_filled(block, cs.last());
        let a = triangles(block, front);
        let b = cell_triangles(block, cs.last());
        area_of_both(a, b, a.len() as int / 3, triangle_count(block, cs.last()));
    }
}

proof fn cells_area_splits(a: Seq<Cell>, b: Seq<Cell>)
    ensures
        cells_area(a + b) == cells_area(a) + cells_area(b),
    decreases b.len(),
{
    if b.len() > 0 {
        cells_area_splits(a, b.drop_last());
        assert((a + b).drop_last() =~= a + b.drop_last());
        assert((a + b).last() == b.last());
    } else {
        assert(a + b =~= a);
    }
}

proof fn cells_of_one_size(cs: Seq<Cell>, k: nat)
    requires
        forall|x: int| 0 <= x < cs.len() ==> (#[trigger] cs[x]).k == k,
    ensures
        cells_area(cs) == cs.len() * (2 * (pow2(k) as int * pow2(k) as int)),
    decreases cs.len(),
{
    let w = 2 * (pow2(k) as int * pow2(k) as int);
    let n = cs.len() as int;
    if n > 0 {
        cells_of_one_size(cs.drop_last(), k);
        assert(cs[n - 1].k == k);
        assert((n - 1) * w + w == n * w) by (nonlinear_arith);
    } else {
        assert(0 * w == 0) by (nonlinear_arith);
    }
}

/// Of the first `n` places of a row, or rows of a level, how many the hole takes.
spec fn holed(h: int, n: int) -> int {
    if n <= h {
        0
    } else if n <= 3 * h {
        n - h
    } else {
        2 * h
    }
}

proof fn row_length(block: int, k: nat, j: int, n: nat)
    requires
        block > 0,
        block % 2 == 0,
        n <= 2 * block,
    ensures
        row(block, k, j, n).len() == n - (if k > 0 && -(block / 2) <= j < block / 2 {
            holed(block / 2, n as int)
        } else {
            0
        }),
    decreases n,
{
    if n > 0 {
        row_length(block, k, j, (n - 1) as nat);
        let c = Cell { k, i: n - 1 - block, j };
        assert(in_hole(block, c) <==> k > 0 && -(block / 2) <= j < block / 2 && block / 2 <= n - 1
            < 3 * (block / 2));
    }
}

proof fn rows_length(block: int, k: nat, n: nat)
    requires
        block > 0,
        block % 2 == 0,
        n <= 2 * block,
    ensures
        rows(block, k, n).len() == n * (2 * block) - (if k > 0 {
            holed(block / 2, n as int) * block
        } else {
            0
        }),
    decreases n,
{
    let h = block / 2;
    if n > 0 {
        rows_length(block, k, (n - 1) as nat);
        row_length(block, k, n - 1 - block, (2 * block) as nat);
        let a = holed(h, n - 1);
        assert((n - 1) * (2 * block) + 2 * block == n * (2 * block)) by (nonlinear_arith);
        assert((a + 1) * block == a * block + block) by (nonlinear_arith);
        assert(holed(h, n as int) == (if h <= n - 1 < 3 * h {
            a + 1
        } else {
            a
        }));
    } else {
        assert(0 * (2 * block) == 0) by (nonlinear_arith);
        assert(0 * block == 0) by (nonlinear_arith);
    }
}

proof fn level_area(block: int, k: nat)
    requires
        block > 0,
        block % 2 == 0,
    ensures
        cells_area(rows(block, k, (2 * block) as nat)) == (if k == 0 {
            8int
        } else {
            6
        }) * ((block * pow2(k)) * (block * pow2(k))),
{
    let all = rows(block, k, (2 * block) as nat);
    rows_hold(block, k, (2 * block) as nat);
    rows_length(block, k, (2 * block) as nat);
    cells_of_one_size(all, k);
    let s = pow2(k) as int;
    let n = all.len() as int;
    assert((2 * block) * (2 * block) == 4 * (block * block)) by (nonlinear_arith);
    let b2 = block * block;
    if k == 0 {
        assert(n == 4 * b2);
        assert((4 * b2) * (2 * (s * s)) == 8 * ((block * s) * (block * s))) by (nonlinear_arith)
            requires
                b2 == block * block,
        ;
    } else {
        assert(holed(block / 2, 2 * block) == block);
        assert(n == 3 * b2);
        assert((3 * b2) * (2 * (s * s)) == 6 * ((block * s) * (block * s))) by (nonlinear_arith)
            requires
                b2 == block * block,
        ;
    }
}

proof fn all_area(block: int, levels: nat)
    requires
        block > 0,
        block % 2 == 0,
    ensures
        cells_area(cells(block, levels)) == 8 * ((block * pow2(levels)) * (block * pow2(levels))),
    decreases levels,
{
    level_area(block, levels);
    if levels > 0 {
        all_area(block, (levels - 1) as nat);
        cells_area_splits(
            cells(block, (levels - 1) as nat),
            rows(block, levels, (2 * block) as nat),
        );
        vstd::arithmetic::power2::lemma_pow2_unfold(levels);
        let m = pow2((levels - 1) as nat) as int;
        assert((block * (2 * m)) * (block * (2 * m)) == 4 * ((block * m) * (block * m)))
            by (nonlinear_arith);
    }
}

/// The mesh fills its square: the areas of its triangles, none of which is turned over, add up to
/// the square of `2 * block * 2^levels` finest cells to a side.
pub proof fn clipmap_fills_its_square(block: int, levels: nat)
    requires
        block > 0,
        block % 2 == 0,
    ensures
        ({
            let corners = triangles(block, cells(block, levels));
            let side = 2 * (block * pow2(levels));
            area_of(corners, corners.len() as int / 3) == 2 * (side * side)
        }),
{
    cells_are_filled(block, cells(block, levels));
    all_area(block, levels);
    let w = block * pow2(levels);
    assert(2 * ((2 * w) * (2 * w)) == 8 * (w * w)) by (nonlinear_arith);
}

proof fn outline_stays_in_cell(block: int, c: Cell, v: int)
    requires
        0 <= v < outline(block, c).len(),
    ensures
        ({
            let s = pow2(c.k) as int;
            let p = outline(block, c)[v];
            c.i * s <= p.0 <= c.i * s + s && c.j * s <= p.1 <= c.j * s + s
        }),
{
    steps(c);
}

/// No triangle reaches beyond the square: `block * 2^levels` finest cells from the centre.
pub proof fn clipmap_stays_in_its_square(block: int, levels: nat, n: int, q: int)
    requires
        block > 0,
        block % 2 == 0,
        0 <= n,
        3 * n + 3 <= triangles(block, cells(block, levels)).len(),
        0 <= q < 3,
    ensures
        ({
            let p = triangle_at(triangles(block, cells(block, levels)), n)[q];
            let outer = block * pow2(levels);
            -outer <= p.0 <= outer && -outer <= p.1 <= outer
        }),
{
    let cs = cells(block, levels);
    cells_hold(block, levels);
    let (ci, t) = locate(block, cs, n);
    let c = cs[ci];
    let v = corner_place(block, c, t, q);
    outline_stays_in_cell(block, c, v);
    steps(c);
    let s = pow2(c.k) as int;
    if c.k < levels {
        vstd::arithmetic::power2::lemma_pow2_strictly_increases(c.k, levels);
    }
    let top = pow2(levels) as int;
    assert(block * s <= block * top) by (nonlinear_arith)
        requires
            block > 0,
            s <= top,
    ;
    within(block, c.i, s);
    within(block, c.j, s);
}

proof fn corner_place(block: int, c: Cell, t: int, q: int) -> (v: int)
    requires
        0 <= t < triangle_count(block, c),
        0 <= q < 3,
    ensures
        0 <= v < outline(block, c).len(),
        triangle(block, c, t)[q] == outline(block, c)[v],
{
    let p = outline(block, c);
    let o = farthest(p);
    let size = p.len() as int;
    farthest_is_farthest(p);
    around(o, t + 1, size);
    around(o, t + 2, size);
    if q == 0 {
        o
    } else if q == 1 {
        after(o, t + 1, size)
    } else {
        after(o, t + 2, size)
    }
}

proof fn within(block: int, i: int, s: int)
    requires
        -block <= i < block,
        s > 0,
    ensures
        -(block * s) <= i * s,
        i * s + s <= block * s,
{
    assert(-(block * s) <= i * s && i * s + s <= block * s) by (nonlinear_arith)
        requires
            -block <= i,
            i + 1 <= block,
            s > 0,
    ;
}

/// The square is reached: each of its four corners, `block * 2^levels` finest cells from the centre
/// either way, is a corner of a triangle.
pub proof fn clipmap_reaches_its_corners(block: int, levels: nat, right: bool, top: bool) -> (at: (
    int,
    int,
))
    requires
        block > 0,
        block % 2 == 0,
    ensures
        0 <= at.0,
        3 * at.0 + 3 <= triangles(block, cells(block, levels)).len(),
        0 <= at.1 < 3,
        ({
            let outer = block * pow2(levels);
            triangle_at(triangles(block, cells(block, levels)), at.0)[at.1] == (
                if right {
                    outer
                } else {
                    -outer
                },
                if top {
                    outer
                } else {
                    -outer
                },
            )
        }),
{
    let cs = cells(block, levels);
    cells_hold(block, levels);
    let c = Cell {
        k: levels,
        i: if right {
            block - 1
        } else {
            -block
        },
        j: if top {
            block - 1
        } else {
            -block
        },
    };
    steps(c);
    assert(is_cell(block, c));
    assert(facing(block, c) is Nothing);
    let s = pow2(levels) as int;
    assert((block - 1) * s + s == block * s) by (nonlinear_arith);
    assert((-block) * s == -(block * s)) by (nonlinear_arith);
    let v: int = if right && top {
        2
    } else if right {
        1
    } else if top {
        3
    } else {
        0
    };
    let (t, e) = sides_are_edges(block, c, v);
    assert(cs.contains(c));
    let ci = choose|ci: int| 0 <= ci < cs.len() && cs[ci] == c;
    let n = place(block, cs, ci, t);
    assert(edge(triangle(block, c, t), e).0 == triangle(block, c, t)[e]);
    (n, e)
}

} // verus!
