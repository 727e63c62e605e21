//! The cell size that each vertex of the concentric mesh notes, so that waves finer than the cells
//! around it can fade: that of the innermost ring it belongs to.
use vstd::arithmetic::power2::pow2;
use vstd::prelude::*;

use crate::ocean::clipmap::{
    cells, cells_grow, facing, has_point, is_cell, outline, point, vertices, with_point, with_points,
    Cell, LatticeVert, Point,
};
use crate::ocean::seams::{cells_hold, steps};

verus! {

/// The larger of a number and its opposite.
pub open spec fn size(x: int) -> int {
    if x < 0 {
        -x
    } else {
        x
    }
}

/// How far out a point lies: the half side of the square around the centre that it is on.
pub open spec fn far(p: Point) -> int {
    if size(p.0) < size(p.1) {
        size(p.1)
    } else {
        size(p.0)
    }
}

/// `step` is the cell size of ring `k`, and the point lies in that ring and not in the one within:
/// the block reaches `block` of the finest cells out, and each ring twice as far as the one within.
pub open spec fn in_ring(block: int, p: Point, step: int, k: nat) -> bool {
    &&& step == pow2(k)
    &&& far(p) <= block * pow2(k)
    &&& k > 0 ==> block * pow2((k - 1) as nat) < far(p)
}

/// The vertex notes the cell size of the innermost ring that its point lies in.
pub open spec fn notes_its_ring(block: int, v: LatticeVert) -> bool {
    exists|k: nat| #[trigger] in_ring(block, point(v), v.step as int, k)
}

/// The vertex is on the outline of a cell of the size it notes, and of the innermost ring.
pub open spec fn made_by(block: int, v: LatticeVert, c: Cell) -> bool {
    &&& is_cell(block, c)
    &&& outline(block, c).contains(point(v))
    &&& in_ring(block, point(v), v.step as int, c.k)
}

proof fn times_within(block: int, i: int, s: int)
    requires
        s > 0,
    ensures
        i <= block ==> i * s <= block * s,
        -block <= i ==> -(block * s) <= i * s,
        i >= block ==> i * s >= block * s,
        i <= -block ==> i * s <= -(block * s),
        (i + 1) * s == i * s + s,
{
    if i <= block {
        assert(i * s <= block * s) by (nonlinear_arith)
            requires
                i <= block,
                s > 0,
        ;
    }
    if -block <= i {
        assert(-(block * s) <= i * s) by (nonlinear_arith)
            requires
                -block <= i,
                s > 0,
        ;
    }
    if i >= block {
        assert(i * s >= block * s) by (nonlinear_arith)
            requires
                i >= block,
                s > 0,
        ;
    }
    if i <= -block {
        assert(i * s <= -(block * s)) by (nonlinear_arith)
            requires
                i <= -block,
                s > 0,
        ;
    }
    assert((i + 1) * s == i * s + s) by (nonlinear_arith);
}

proof fn outline_in_cell(block: int, c: Cell, v: int)
    requires
        0 <= v < outline(block, c).len(),
    ensures
        ({
            let s = pow2(c.k) as int;
            let p = outline(block, c)[v];
            c.i * s <= p.0 <= c.i * s + s && c.j * s <= p.1 <= c.j * s + s
        }),
{
    steps(c);
}

/// A cell's outline stays in its ring.
proof fn outline_in_ring(block: int, c: Cell, p: Point)
    requires
        block > 0,
        block % 2 == 0,
        is_cell(block, c),
        outline(block, c).contains(p),
    ensures
        far(p) <= block * pow2(c.k),
        c.k > 0 ==> block * pow2((c.k - 1) as nat) <= far(p),
{
    let v = choose|v: int| 0 <= v < outline(block, c).len() && outline(block, c)[v] == p;
    outline_in_cell(block, c, v);
    steps(c);
    let s = pow2(c.k) as int;
    times_within(block, c.i, s);
    times_within(block, c.i + 1, s);
    times_within(block, c.j, s);
    times_within(block, c.j + 1, s);
    if c.k > 0 {
        let m = pow2((c.k - 1) as nat) as int;
        let h = block / 2;
        assert(h * (2 * m) == (2 * h) * m) by (nonlinear_arith);
        times_within(h, c.i, s);
        times_within(h, c.i + 1, s);
        times_within(h, c.j, s);
        times_within(h, c.j + 1, s);
    }
}

/// The points of an outline lie on the lattice of half its side.
proof fn outline_on_lattice(block: int, c: Cell, p: Point) -> (at: (int, int))
    requires
        c.k > 0,
        outline(block, c).contains(p),
    ensures
        p == (at.0 * pow2((c.k - 1) as nat), at.1 * pow2((c.k - 1) as nat)),
{
    steps(c);
    let v = choose|v: int| 0 <= v < outline(block, c).len() && outline(block, c)[v] == p;
    let m = pow2((c.k - 1) as nat) as int;
    let s = pow2(c.k) as int;
    let (x, z) = (c.i * s, c.j * s);
    lattice_places(c.i, m);
    lattice_places(c.j, m);
    let a = if p.0 == x {
        2 * c.i
    } else if p.0 == x + m {
        2 * c.i + 1
    } else {
        2 * c.i + 2
    };
    let b = if p.1 == z {
        2 * c.j
    } else if p.1 == z + m {
        2 * c.j + 1
    } else {
        2 * c.j + 2
    };
    (a, b)
}

proof fn lattice_places(i: int, m: int)
    ensures
        (2 * i) * m == i * (2 * m),
        (2 * i + 1) * m == i * (2 * m) + m,
        (2 * i + 2) * m == i * (2 * m) + 2 * m,
{
    assert((2 * i) * m == i * (2 * m)) by (nonlinear_arith);
    assert((2 * i + 1) * m == i * (2 * m) + m) by (nonlinear_arith);
    assert((2 * i + 2) * m == i * (2 * m) + 2 * m) by (nonlinear_arith);
}

/// A lattice point on the rim of ring `k` is a corner of one of its cells.
proof fn rim_has_cells(block: int, k: nat, a: int, b: int) -> (d: Cell)
    requires
        block > 0,
        block % 2 == 0,
        far((a, b)) == block,
    ensures
        is_cell(block, d),
        d.k == k,
        outline(block, d).contains((a * pow2(k), b * pow2(k))),
{
    let d = Cell {
        k,
        i: if a < block {
            a
        } else {
            a - 1
        },
        j: if b < block {
            b
        } else {
            b - 1
        },
    };
    let s = pow2(k) as int;
    steps(d);
    times_within(block, a - 1, s);
    times_within(block, b - 1, s);
    let o = outline(block, d);
    let n = o.len() as int;
    let (x, z) = (d.i * s, d.j * s);
    assert(o[0] == (x, z));
    if a < block && b < block {
    } else if a >= block && b < block {
        assert(o[1] == (x + s, z) || o[2] == (x + s, z));
    } else if a < block {
        assert(o[n - 1] == (x, z + s) || o[n - 2] == (x, z + s));
    } else {
        assert(o[2] == (x + s, z + s) || o[3] == (x + s, z + s));
    }
    d
}

proof fn points_stay(verts: Seq<LatticeVert>, points: Seq<Point>, step: int, p: Point)
    requires
        has_point(verts, p),
    ensures
        has_point(with_points(verts, points, step), p),
    decreases points.len(),
{
    if points.len() > 0 {
        points_stay(verts, points.drop_last(), step, p);
        let w = with_points(verts, points.drop_last(), step);
        point_stays(w, points.last(), step, p);
    }
}

proof fn point_stays(w: Seq<LatticeVert>, q: Point, step: int, p: Point)
    requires
        has_point(w, p),
    ensures
        has_point(with_point(w, q, step), p),
{
    let i = choose|i: int| 0 <= i < w.len() && point(#[trigger] w[i]) == p;
    assert(with_point(w, q, step)[i] == w[i]);
}

/// The point fits the numbers of a vertex.
spec fn fits(p: Point) -> bool {
    i32::MIN <= p.0 <= i32::MAX && i32::MIN <= p.1 <= i32::MAX
}

proof fn points_are_made(verts: Seq<LatticeVert>, points: Seq<Point>, step: int, n: int)
    requires
        0 <= n < points.len(),
        forall|i: int| 0 <= i < points.len() ==> fits(#[trigger] points[i]),
    ensures
        has_point(with_points(verts, points, step), points[n]),
    decreases points.len(),
{
    let front = points.drop_last();
    let w = with_points(verts, front, step);
    if n < front.len() {
        points_are_made(verts, front, step, n);
        assert(front[n] == points[n]);
        point_stays(w, points.last(), step, points[n]);
    } else if !has_point(w, points.last()) {
        let now = with_point(w, points.last(), step);
        assert(fits(points[n]));
        assert(point(now[w.len() as int]) == points.last());
    }
}

/// A vertex of the grown list was there before, or is new and notes the step.
proof fn new_or_old(verts: Seq<LatticeVert>, points: Seq<Point>, step: int, i: int)
    requires
        0 <= i < with_points(verts, points, step).len(),
        forall|i: int| 0 <= i < points.len() ==> fits(#[trigger] points[i]),
    ensures
        ({
            let v = with_points(verts, points, step)[i];
            verts.contains(v) || (points.contains(point(v)) && !has_point(verts, point(v))
                && v.step == step as i32)
        }),
    decreases points.len(),
{
    let all = with_points(verts, points, step);
    if points.len() > 0 {
        let front = points.drop_last();
        let w = with_points(verts, front, step);
        if i < w.len() {
            new_or_old(verts, front, step, i);
            assert(all[i] == w[i]);
            if front.contains(point(w[i])) {
                let n = choose|n: int| 0 <= n < front.len() && front[n] == point(w[i]);
                assert(points[n] == point(w[i]));
            }
        } else {
            let p = points.last();
            assert(fits(points[points.len() - 1]));
            assert(point(all[i]) == p);
            assert(points[points.len() - 1] == p);
            if has_point(verts, p) {
                points_stay(verts, front, step, p);
            }
        }
    } else {
        assert(verts[i] == all[i]);
    }
}

proof fn outline_fits(block: int, levels: nat, c: Cell, v: int)
    requires
        block > 0,
        block % 2 == 0,
        is_cell(block, c),
        c.k <= levels,
        block * pow2(levels) <= i32::MAX,
        0 <= v < outline(block, c).len(),
    ensures
        fits(outline(block, c)[v]),
{
    let p = outline(block, c)[v];
    assert(outline(block, c).contains(p));
    outline_in_ring(block, c, p);
    if c.k < levels {
        vstd::arithmetic::power2::lemma_pow2_strictly_increases(c.k, levels);
    }
    let (s, t) = (pow2(c.k) as int, pow2(levels) as int);
    assert(block * s <= block * t) by (nonlinear_arith)
        requires
            block > 0,
            s <= t,
    ;
}

proof fn outlines_are_made(block: int, levels: nat, cs: Seq<Cell>, x: int, p: Point)
    requires
        block > 0,
        block % 2 == 0,
        block * pow2(levels) <= i32::MAX,
        forall|y: int| 0 <= y < cs.len() ==> is_cell(block, #[trigger] cs[y]) && cs[y].k <= levels,
        0 <= x < cs.len(),
        outline(block, cs[x]).contains(p),
    ensures
        has_point(vertices(block, cs), p),
    decreases cs.len(),
{
    let front = cs.drop_last();
    let c = cs.last();
    let s = pow2(c.k) as int;
    if x < front.len() {
        assert forall|y: int| 0 <= y < front.len() implies is_cell(block, #[trigger] front[y])
            && front[y].k <= levels by {
            assert(front[y] == cs[y]);
        }
        outlines_are_made(block, levels, front, x, p);
        points_stay(vertices(block, front), outline(block, c), s, p);
    } else {
        assert(is_cell(block, cs[x]) && cs[x].k <= levels);
        assert forall|v: int| 0 <= v < outline(block, c).len() implies fits(
            #[trigger] outline(block, c)[v],
        ) by {
            outline_fits(block, levels, c, v);
        }
        let n = choose|n: int| 0 <= n < outline(block, c).len() && outline(block, c)[n] == p;
        points_are_made(vertices(block, front), outline(block, c), s, n);
    }
}

/// A cell of ring `k` comes after all cells of the rings within.
proof fn inner_rings_come_first(block: int, levels: nat, n: int, d: Cell) -> (x: int)
    requires
        block > 0,
        0 <= n < cells(block, levels).len(),
        is_cell(block, d),
        d.k < cells(block, levels)[n].k,
    ensures
        0 <= x < n,
        cells(block, levels)[x] == d,
{
    let all = cells(block, levels);
    cells_hold(block, levels);
    assert(all[n].k <= levels);
    let inner = cells(block, d.k);
    cells_hold(block, d.k);
    cells_grow(block, levels, d.k);
    assert(inner.contains(d));
    let x = choose|x: int| 0 <= x < inner.len() && inner[x] == d;
    assert(all.take(inner.len() as int)[x] == all[x]);
    if n < inner.len() {
        assert(all.take(inner.len() as int)[n] == all[n]);
        assert(inner[n].k <= d.k);
    }
    x
}

proof fn new_vertex_is_of_its_ring(block: int, levels: nat, n: int, v: LatticeVert)
    requires
        block > 0,
        block % 2 == 0,
        block * pow2(levels) <= i32::MAX,
        0 <= n < cells(block, levels).len(),
        outline(block, cells(block, levels)[n]).contains(point(v)),
        !has_point(vertices(block, cells(block, levels).take(n)), point(v)),
        v.step == pow2(cells(block, levels)[n].k) as i32,
    ensures
        made_by(block, v, cells(block, levels)[n]),
{
    let all = cells(block, levels);
    let c = all[n];
    let p = point(v);
    cells_hold(block, levels);
    assert(is_cell(block, c) && c.k <= levels);
    outline_in_ring(block, c, p);
    steps(c);
    if c.k < levels {
        vstd::arithmetic::power2::lemma_pow2_strictly_increases(c.k, levels);
    }
    let (s, t) = (pow2(c.k) as int, pow2(levels) as int);
    assert(t <= block * t) by (nonlinear_arith)
        requires
            block > 0,
            t > 0,
    ;
    assert(v.step == s);
    if c.k > 0 && far(p) == block * pow2((c.k - 1) as nat) {
        let k = (c.k - 1) as nat;
        let (a, b) = outline_on_lattice(block, c, p);
        let m = pow2(k) as int;
        scaled_far(block, a, b, m);
        let d = rim_has_cells(block, k, a, b);
        let x = inner_rings_come_first(block, levels, n, d);
        let front = all.take(n);
        assert forall|y: int| 0 <= y < front.len() implies is_cell(block, #[trigger] front[y])
            && front[y].k <= levels by {
            assert(front[y] == all[y]);
        }
        outlines_are_made(block, levels, front, x, p);
    }
}

proof fn scaled_far(block: int, a: int, b: int, m: int)
    requires
        m > 0,
        far((a * m, b * m)) == block * m,
    ensures
        far((a, b)) == block,
{
    scaled_size(a, m);
    scaled_size(b, m);
    let f = far((a, b));
    let (x, y) = (size(a), size(b));
    assert(x < y ==> x * m < y * m) by (nonlinear_arith)
        requires
            m > 0,
    ;
    assert(y <= x ==> y * m <= x * m) by (nonlinear_arith)
        requires
            m > 0,
    ;
    assert(f * m == block * m);
    assert(f == block) by (nonlinear_arith)
        requires
            f * m == block * m,
            m > 0,
    ;
}

proof fn scaled_size(a: int, m: int)
    requires
        m > 0,
    ensures
        size(a * m) == size(a) * m,
{
    assert(a < 0 ==> a * m < 0) by (nonlinear_arith)
        requires
            m > 0,
    ;
    assert(a >= 0 ==> a * m >= 0) by (nonlinear_arith)
        requires
            m > 0,
    ;
    assert((-a) * m == -(a * m)) by (nonlinear_arith);
}

/// Every vertex of the mesh notes the cell size of the ring it was made for, and that is the
/// innermost ring that it lies in.
pub proof fn vertices_note_their_ring(block: int, levels: nat, n: int, i: int) -> (c: Cell)
    requires
        block > 0,
        block % 2 == 0,
        block * pow2(levels) <= i32::MAX,
        0 <= n <= cells(block, levels).len(),
        0 <= i < vertices(block, cells(block, levels).take(n)).len(),
    ensures
        c.k <= levels,
        made_by(block, vertices(block, cells(block, levels).take(n))[i], c),
    decreases n,
{
    let all = cells(block, levels);
    let now = all.take(n);
    let v = vertices(block, now)[i];
    cells_hold(block, levels);
    let front = all.take(n - 1);
    assert(now.drop_last() =~= front);
    let c = all[n - 1];
    assert(now.last() == c);
    assert(is_cell(block, c) && c.k <= levels);
    let was = vertices(block, front);
    assert forall|x: int| 0 <= x < outline(block, c).len() implies fits(
        #[trigger] outline(block, c)[x],
    ) by {
        outline_fits(block, levels, c, x);
    }
    new_or_old(was, outline(block, c), pow2(c.k) as int, i);
    if was.contains(v) {
        let x = choose|x: int| 0 <= x < was.len() && was[x] == v;
        vertices_note_their_ring(block, levels, n - 1, x)
    } else {
        new_vertex_is_of_its_ring(block, levels, n - 1, v);
        c
    }
}

/// No cell that a vertex lies on is smaller than the size it notes: the vertex belongs to no ring
/// within.
pub proof fn noted_size_is_the_smallest(block: int, v: LatticeVert, c: Cell, d: Cell)
    requires
        block > 0,
        block % 2 == 0,
        made_by(block, v, c),
        is_cell(block, d),
        outline(block, d).contains(point(v)),
    ensures
        c.k <= d.k,
        v.step <= pow2(d.k),
{
    outline_in_ring(block, d, point(v));
    if d.k < c.k {
        let k = (c.k - 1) as nat;
        if d.k < k {
            vstd::arithmetic::power2::lemma_pow2_strictly_increases(d.k, k);
        }
        let (s, t) = (pow2(d.k) as int, pow2(k) as int);
        assert(block * s <= block * t) by (nonlinear_arith)
            requires
                block > 0,
                s <= t,
        ;
    } else if c.k < d.k {
        vstd::arithmetic::power2::lemma_pow2_strictly_increases(c.k, d.k);
    }
}

/// A point lies in one ring only, so it fixes the size that is noted.
pub proof fn rings_are_apart(block: int, p: Point, step: int, k: nat, other: int, l: nat)
    requires
        block > 0,
        in_ring(block, p, step, k),
        in_ring(block, p, other, l),
    ensures
        k == l,
        step == other,
{
    if k < l {
        outer_ring_is_beyond(block, p, k, l);
    } else if l < k {
        outer_ring_is_beyond(block, p, l, k);
    }
}

proof fn outer_ring_is_beyond(block: int, p: Point, k: nat, l: nat)
    requires
        block > 0,
        k < l,
        far(p) <= block * pow2(k),
    ensures
        far(p) <= block * pow2((l - 1) as nat),
{
    let m = (l - 1) as nat;
    if k < m {
        vstd::arithmetic::power2::lemma_pow2_strictly_increases(k, m);
    }
    let (s, t) = (pow2(k) as int, pow2(m) as int);
    assert(block * s <= block * t) by (nonlinear_arith)
        requires
            block > 0,
            s <= t,
    ;
}

/// All vertices of a whole mesh.
pub(crate) proof fn all_note_their_ring(block: int, levels: nat)
    requires
        block > 0,
        block % 2 == 0,
        block * pow2(levels) <= i32::MAX,
    ensures
        forall|i: int|
            0 <= i < vertices(block, cells(block, levels)).len() ==> notes_its_ring(
                block,
                #[trigger] vertices(block, cells(block, levels))[i],
            ),
{
    let all = cells(block, levels);
    assert(all.take(all.len() as int) =~= all);
    assert forall|i: int| 0 <= i < vertices(block, all).len() implies notes_its_ring(
        block,
        #[trigger] vertices(block, all)[i],
    ) by {
        let c = vertices_note_their_ring(block, levels, all.len() as int, i);
        let v = vertices(block, all)[i];
        assert(in_ring(block, point(v), v.step as int, c.k));
    }
}

} // verus!
