//! The concentric mesh has no cracks: every triangle edge is met from the other side, but
//! for those on the outer rim, and no edge is used twice in one direction.
use vstd::arithmetic::power2::pow2;
use vstd::prelude::*;

use crate::ocean::clipmap::{
    cell_triangles, cells, dist2, facing, fan, fan_triangle, farthest, in_hole, is_cell, outline,
    row, rows, triangles, Cell, Facing, Point,
};

verus! {

/// The `e`-th edge of a triangle given by its corners.
pub open spec fn edge(tri: Seq<Point>, e: int) -> (Point, Point) {
    (tri[e], tri[(e + 1) % 3])
}

/// The `t`-th triangle of a cell.
pub open spec fn triangle(block: int, c: Cell, t: int) -> Seq<Point> {
    let points = outline(block, c);
    fan_triangle(points, farthest(points), t)
}

/// How many triangles a cell has.
pub open spec fn triangle_count(block: int, c: Cell) -> int {
    outline(block, c).len() - 2
}

pub(crate) proof fn farthest_is_farthest(points: Seq<Point>)
    requires
        points.len() > 0,
    ensures
        0 <= farthest(points) < points.len(),
        forall|i: int|
            0 <= i < points.len() ==> dist2(#[trigger] points[i]) <= dist2(points[farthest(points)]),
    decreases points.len(),
{
    if points.len() > 1 {
        let front = points.drop_last();
        farthest_is_farthest(front);
        assert forall|i: int| 0 <= i < points.len() implies dist2(#[trigger] points[i]) <= dist2(
            points[farthest(points)],
        ) by {
            if i < front.len() {
                assert(front[i] == points[i]);
            }
        }
    }
}

proof fn farther(x: int, z: int, w: int)
    requires
        w * w > z * z,
    ensures
        dist2((x, w)) > dist2((x, z)),
        dist2((w, x)) > dist2((z, x)),
{
}

proof fn squares_grow(a: int, b: int)
    ensures
        0 <= a < b ==> a * a < b * b,
        b < a <= 0 ==> a * a < b * b,
{
    if 0 <= a < b {
        assert(a * a < b * b) by (nonlinear_arith)
            requires
                0 <= a < b,
        ;
    }
    if b < a <= 0 {
        assert(a * a < b * b) by (nonlinear_arith)
            requires
                b < a <= 0,
        ;
    }
}

/// A multiple of `s` lies at or above zero, or at least `s` below.
proof fn multiple_apart(i: int, s: int)
    requires
        s > 0,
    ensures
        i >= 0 ==> i * s >= 0,
        i >= 1 ==> i * s >= s,
        i <= -1 ==> i * s + s <= 0,
{
    if i >= 0 {
        assert(i * s >= 0) by (nonlinear_arith)
            requires
                i >= 0,
                s > 0,
        ;
    }
    if i >= 1 {
        assert(i * s >= s) by (nonlinear_arith)
            requires
                i >= 1,
                s > 0,
        ;
    }
    if i <= -1 {
        assert(i * s + s <= 0) by (nonlinear_arith)
            requires
                i <= -1,
                s > 0,
        ;
    }
}

/// Of a side cut in the middle, the middle is nearer the centre than one of the ends.
proof fn middle_is_nearer(i: int, s: int, m: int)
    requires
        s > 0,
        s == 2 * m,
    ensures
        i >= 0 ==> (i * s + m) * (i * s + m) < (i * s + s) * (i * s + s),
        i < 0 ==> (i * s + m) * (i * s + m) < (i * s) * (i * s),
{
    multiple_apart(i, s);
    squares_grow(i * s + m, i * s + s);
    squares_grow(i * s + m, i * s);
}

/// The corner that a cell is cut from: any corner of an uncut cell, and of one with a cut
/// side a corner of the opposite side.
proof fn fan_corner(block: int, c: Cell)
    requires
        block > 0,
        block % 2 == 0,
        is_cell(block, c),
    ensures
        ({
            let o = farthest(outline(block, c));
            match facing(block, c) {
                Facing::Nothing => 0 <= o < 4,
                Facing::Bottom => o == 3 || o == 4,
                Facing::Right => o == 0 || o == 4,
                Facing::Top => o == 0 || o == 1,
                Facing::Left => o == 1 || o == 2,
            }
        }),
{
    let p = outline(block, c);
    farthest_is_farthest(p);
    let o = farthest(p);
    let s = pow2(c.k) as int;
    let x = c.i * s;
    let z = c.j * s;
    vstd::arithmetic::power2::lemma_pow2_pos(c.k);
    if c.k > 0 {
        let m = pow2((c.k - 1) as nat) as int;
        vstd::arithmetic::power2::lemma_pow2_unfold(c.k);
        multiple_apart(c.i, s);
        multiple_apart(c.j, s);
        middle_is_nearer(c.i, s, m);
        middle_is_nearer(c.j, s, m);
        squares_grow(z, z + s);
        squares_grow(x, x + s);
        squares_grow(z + s, z);
        squares_grow(x + s, x);
        match facing(block, c) {
            Facing::Nothing => {},
            Facing::Bottom => {
                assert(c.j >= 1);
                farther(x, z, z + s);
                farther(x + s, z, z + s);
                assert(dist2(p[0]) < dist2(p[4]));
                assert(dist2(p[2]) < dist2(p[3]));
                assert(dist2(p[1]) < dist2(p[3]) || dist2(p[1]) < dist2(p[4]));
            },
            Facing::Right => {
                assert(c.i <= -2);
                assert(x + s < 0) by (nonlinear_arith)
                    requires
                        c.i <= -2,
                        s > 0,
                        x == c.i * s,
                ;
                farther(z, x + s, x);
                farther(z + s, x + s, x);
                assert(dist2(p[1]) < dist2(p[0]));
                assert(dist2(p[3]) < dist2(p[4]));
                assert(dist2(p[2]) < dist2(p[0]) || dist2(p[2]) < dist2(p[4]));
            },
            Facing::Top => {
                assert(c.j <= -2);
                assert(z + s < 0) by (nonlinear_arith)
                    requires
                        c.j <= -2,
                        s > 0,
                        z == c.j * s,
                ;
                farther(x, z + s, z);
                farther(x + s, z + s, z);
                assert(dist2(p[4]) < dist2(p[0]));
                assert(dist2(p[2]) < dist2(p[1]));
                assert(dist2(p[3]) < dist2(p[0]) || dist2(p[3]) < dist2(p[1]));
            },
            Facing::Left => {
                assert(c.i >= 1);
                farther(z, x, x + s);
                farther(z + s, x, x + s);
                assert(dist2(p[0]) < dist2(p[1]));
                assert(dist2(p[3]) < dist2(p[2]));
                assert(dist2(p[4]) < dist2(p[1]) || dist2(p[4]) < dist2(p[2]));
            },
        }
    }
}

/// Where an edge of a cell can lie, told from its direction: rightward edges on the bottom,
/// leftward on the top, upward on the right, downward on the left, slanted ones across.
spec fn lies_in(block: int, c: Cell, a: Point, b: Point) -> bool {
    let s = pow2(c.k) as int;
    let m = pow2((c.k - 1) as nat) as int;
    let x = c.i * s;
    let z = c.j * s;
    let f = facing(block, c);
    let dx = b.0 - a.0;
    let dz = b.1 - a.1;
    let lx = if dx > 0 {
        a.0
    } else {
        b.0
    };
    let lz = if dz > 0 {
        a.1
    } else {
        b.1
    };
    if dz == 0 && dx > 0 {
        a.1 == z && (if f is Bottom {
            dx == m && (lx == x || lx == x + m)
        } else {
            dx == s && lx == x
        })
    } else if dz == 0 && dx < 0 {
        a.1 == z + s && (if f is Top {
            dx == -m && (lx == x || lx == x + m)
        } else {
            dx == -s && lx == x
        })
    } else if dx == 0 && dz > 0 {
        a.0 == x + s && (if f is Right {
            dz == m && (lz == z || lz == z + m)
        } else {
            dz == s && lz == z
        })
    } else if dx == 0 && dz < 0 {
        a.0 == x && (if f is Left {
            dz == -m && (lz == z || lz == z + m)
        } else {
            dz == -s && lz == z
        })
    } else {
        &&& dx != 0
        &&& dz != 0
        &&& {
            ||| (dx == s || dx == -s) && (dz == s || dz == -s) && lx == x && lz == z
            ||| (f is Bottom || f is Top) && (dx == m || dx == -m) && (dz == s || dz == -s) && (lx
                == x || lx == x + m) && lz == z
            ||| (f is Left || f is Right) && (dx == s || dx == -s) && (dz == m || dz == -m) && lx
                == x && (lz == z || lz == z + m)
        }
    }
}

pub(crate) proof fn steps(c: Cell)
    ensures
        pow2(c.k) > 0,
        c.k > 0 ==> pow2(c.k) == 2 * pow2((c.k - 1) as nat),
{
    vstd::arithmetic::power2::lemma_pow2_pos(c.k);
    if c.k > 0 {
        vstd::arithmetic::power2::lemma_pow2_unfold(c.k);
    }
}

proof fn edges_lie_in(block: int, c: Cell, t: int, e: int)
    requires
        block > 0,
        block % 2 == 0,
        is_cell(block, c),
        0 <= t < triangle_count(block, c),
        0 <= e < 3,
    ensures
        lies_in(
            block,
            c,
            edge(triangle(block, c, t), e).0,
            edge(triangle(block, c, t), e).1,
        ),
{
    fan_corner(block, c);
    steps(c);
    let p = outline(block, c);
    let o = farthest(p);
    let n = p.len() as int;
    let q = after(o, t + 1, n);
    let r = after(o, t + 2, n);
    around(o, t + 1, n);
    around(o, t + 2, n);
    let tri = triangle(block, c, t);
    assert(tri[0] == p[o] && tri[1] == p[q] && tri[2] == p[r]);
    let pair = edge(tri, e);
    if e == 0 {
        assert(pair == (p[o], p[q]));
    } else if e == 1 {
        assert(pair == (p[q], p[r]));
    } else {
        assert(pair == (p[r], p[o]));
    }
}

/// The place `t` corners on from `o`.
pub(crate) open spec fn after(o: int, t: int, n: int) -> int {
    if o + t >= n {
        o + t - n
    } else {
        o + t
    }
}

pub(crate) proof fn around(o: int, t: int, n: int)
    requires
        0 <= o < n,
        0 <= t <= n,
        n == 4 || n == 5,
    ensures
        (o + t) % n == after(o, t, n),
{
}

proof fn same_step(k: nat, l: nat)
    requires
        pow2(k) == pow2(l),
    ensures
        k == l,
{
    if k < l {
        vstd::arithmetic::power2::lemma_pow2_strictly_increases(k, l);
    } else if l < k {
        vstd::arithmetic::power2::lemma_pow2_strictly_increases(l, k);
    }
}

proof fn same_multiple(i: int, j: int, s: int)
    requires
        s > 0,
        i * s == j * s,
    ensures
        i == j,
{
    assert(i == j) by (nonlinear_arith)
        requires
            s > 0,
            i * s == j * s,
    ;
}

/// Multiples of `s` that are at most half of it apart are the same.
proof fn near_multiples(i: int, j: int, s: int, m: int)
    requires
        s > 0,
        s == 2 * m,
        -m <= i * s - j * s <= m,
    ensures
        i == j,
{
    assert(i == j) by (nonlinear_arith)
        requires
            s > 0,
            s == 2 * m,
            -m <= i * s - j * s <= m,
    ;
}

/// An edge lies in one cell only.
proof fn one_cell_per_edge(block: int, c: Cell, d: Cell, a: Point, b: Point)
    requires
        block > 0,
        block % 2 == 0,
        is_cell(block, c),
        is_cell(block, d),
        lies_in(block, c, a, b),
        lies_in(block, d, a, b),
    ensures
        c == d,
{
    steps(c);
    steps(d);
    let s = pow2(c.k) as int;
    let r = pow2(d.k) as int;
    let ms = pow2((c.k - 1) as nat) as int;
    let mr = pow2((d.k - 1) as nat) as int;
    let dx = b.0 - a.0;
    let dz = b.1 - a.1;
    if s == r {
        same_step(c.k, d.k);
        if c.k > 0 {
            if -ms <= c.i * s - d.i * s <= ms {
                near_multiples(c.i, d.i, s, ms);
            }
            if -ms <= c.j * s - d.j * s <= ms {
                near_multiples(c.j, d.j, s, ms);
            }
        } else {
            if c.i * s == d.i * s {
                same_multiple(c.i, d.i, s);
            }
            if c.j * s == d.j * s {
                same_multiple(c.j, d.j, s);
            }
        }
        assert(c.i == d.i && c.j == d.j);
    } else if c.k > 0 && ms == r {
        half_meets_full(block, d, c, a, b);
    } else if d.k > 0 && mr == s {
        half_meets_full(block, c, d, a, b);
    }
}

/// A split side never carries an edge of a cell of the finer level in the same direction:
/// that side is the finer level's outer bound, and the finer cells lie across it.
proof fn half_meets_full(block: int, c: Cell, d: Cell, a: Point, b: Point)
    requires
        block > 0,
        block % 2 == 0,
        is_cell(block, c),
        is_cell(block, d),
        lies_in(block, d, a, b),
        d.k > 0,
        pow2((d.k - 1) as nat) == pow2(c.k),
    ensures
        !lies_in(block, c, a, b),
{
    steps(c);
    steps(d);
    let s = pow2(c.k) as int;
    let r = pow2(d.k) as int;
    let h = block / 2;
    assert(r == 2 * s);
    assert(h * r == block * s) by (nonlinear_arith)
        requires
            r == 2 * s,
            block == 2 * h,
    ;
    assert(-h * r == -(block * s)) by (nonlinear_arith)
        requires
            h * r == block * s,
    ;
    assert((c.j + 1) * s == c.j * s + s) by (nonlinear_arith);
    assert((c.i + 1) * s == c.i * s + s) by (nonlinear_arith);
    assert((d.j + 1) * r == d.j * r + r) by (nonlinear_arith);
    assert((d.i + 1) * r == d.i * r + r) by (nonlinear_arith);
    assert(-block * s == -(block * s)) by (nonlinear_arith);
    if c.j * s == block * s {
        same_multiple(c.j, block, s);
    }
    if c.i * s == block * s {
        same_multiple(c.i, block, s);
    }
    if (c.j + 1) * s == -block * s {
        same_multiple(c.j + 1, -block, s);
    }
    if (c.i + 1) * s == -block * s {
        same_multiple(c.i + 1, -block, s);
    }
}

proof fn outline_is_simple(block: int, c: Cell)
    requires
        block > 0,
        block % 2 == 0,
        is_cell(block, c),
    ensures
        outline(block, c).len() == 4 || outline(block, c).len() == 5,
        outline(block, c).no_duplicates(),
{
    steps(c);
}

/// An edge belongs to one triangle of a cell only.
proof fn one_triangle_per_edge(block: int, c: Cell, t: int, e: int, u: int, f: int)
    requires
        block > 0,
        block % 2 == 0,
        is_cell(block, c),
        0 <= t < triangle_count(block, c),
        0 <= e < 3,
        0 <= u < triangle_count(block, c),
        0 <= f < 3,
        edge(triangle(block, c, t), e) == edge(triangle(block, c, u), f),
    ensures
        t == u,
        e == f,
{
    let p = outline(block, c);
    let o = farthest(p);
    let n = p.len() as int;
    outline_is_simple(block, c);
    farthest_is_farthest(p);
    around(o, t + 1, n);
    around(o, t + 2, n);
    around(o, u + 1, n);
    around(o, u + 2, n);
    let tri = triangle(block, c, t);
    let tru = triangle(block, c, u);
    let q = after(o, t + 1, n);
    let r = after(o, t + 2, n);
    let v = after(o, u + 1, n);
    let w = after(o, u + 2, n);
    assert(tri[0] == p[o] && tri[1] == p[q] && tri[2] == p[r]);
    assert(tru[0] == p[o] && tru[1] == p[v] && tru[2] == p[w]);
    let a = if e == 0 {
        o
    } else if e == 1 {
        q
    } else {
        r
    };
    let b = if e == 0 {
        q
    } else if e == 1 {
        r
    } else {
        o
    };
    let a2 = if f == 0 {
        o
    } else if f == 1 {
        v
    } else {
        w
    };
    let b2 = if f == 0 {
        v
    } else if f == 1 {
        w
    } else {
        o
    };
    assert(edge(tri, e) == (p[a], p[b]));
    assert(edge(tru, f) == (p[a2], p[b2]));
    assert(a == a2);
    assert(b == b2);
}

/// Every side of a cell's outline is an edge of one of its triangles.
pub(crate) proof fn sides_are_edges(block: int, c: Cell, v: int) -> (te: (int, int))
    requires
        block > 0,
        block % 2 == 0,
        is_cell(block, c),
        0 <= v < outline(block, c).len(),
    ensures
        0 <= te.0 < triangle_count(block, c),
        0 <= te.1 < 3,
        edge(triangle(block, c, te.0), te.1) == (
            outline(block, c)[v],
            outline(block, c)[after(v, 1, outline(block, c).len() as int)],
        ),
{
    let p = outline(block, c);
    let o = farthest(p);
    let n = p.len() as int;
    outline_is_simple(block, c);
    farthest_is_farthest(p);
    let g = if v >= o {
        v - o
    } else {
        v - o + n
    };
    let te: (int, int) = if g == 0 {
        (0, 0)
    } else if g == n - 1 {
        (n - 3, 2)
    } else {
        (g - 1, 1)
    };
    around(o, te.0 + 1, n);
    around(o, te.0 + 2, n);
    let tri = triangle(block, c, te.0);
    assert(tri[0] == p[o] && tri[1] == p[after(o, te.0 + 1, n)] && tri[2] == p[after(
        o,
        te.0 + 2,
        n,
    )]);
    te
}

/// An edge of a triangle is met by another triangle of the cell, or is a side of the cell.
proof fn inner_edges_are_met(block: int, c: Cell, t: int, e: int) -> (r: (bool, int, int))
    requires
        block > 0,
        block % 2 == 0,
        is_cell(block, c),
        0 <= t < triangle_count(block, c),
        0 <= e < 3,
    ensures
        r.0 ==> {
            &&& 0 <= r.1 < triangle_count(block, c)
            &&& 0 <= r.2 < 3
            &&& edge(triangle(block, c, r.1), r.2) == (
                edge(triangle(block, c, t), e).1,
                edge(triangle(block, c, t), e).0,
            )
        },
        !r.0 ==> {
            &&& 0 <= r.1 < outline(block, c).len()
            &&& edge(triangle(block, c, t), e) == (
                outline(block, c)[r.1],
                outline(block, c)[after(r.1, 1, outline(block, c).len() as int)],
            )
        },
{
    let p = outline(block, c);
    let o = farthest(p);
    let n = p.len() as int;
    outline_is_simple(block, c);
    farthest_is_farthest(p);
    around(o, t + 1, n);
    around(o, t + 2, n);
    let tri = triangle(block, c, t);
    let q = after(o, t + 1, n);
    let w = after(o, t + 2, n);
    assert(tri[0] == p[o] && tri[1] == p[q] && tri[2] == p[w]);
    if e == 0 {
        if t == 0 {
            (false, o, 0)
        } else {
            around(o, t, n);
            let prev = triangle(block, c, t - 1);
            assert(prev[0] == p[o] && prev[2] == p[q]);
            assert(edge(prev, 2) == (p[q], p[o]));
            (true, t - 1, 2)
        }
    } else if e == 1 {
        (false, q, 0)
    } else {
        if t == n - 3 {
            (false, w, 0)
        } else {
            around(o, t + 3, n);
            let next = triangle(block, c, t + 1);
            assert(next[0] == p[o] && next[1] == p[w]);
            assert(edge(next, 0) == (p[o], p[w]));
            (true, t + 1, 0)
        }
    }
}

/// The `v`-th side of a cell runs from `a` to `b`.
spec fn is_side(block: int, c: Cell, v: int, a: Point, b: Point) -> bool {
    let p = outline(block, c);
    0 <= v < p.len() && p[v] == a && p[after(v, 1, p.len() as int)] == b
}

/// The point lies on the outer rim.
pub open spec fn on_rim(block: int, levels: nat, p: Point) -> bool {
    let outer = block * pow2(levels);
    p.0 == outer || p.0 == -outer || p.1 == outer || p.1 == -outer
}

proof fn halves(i: int, s: int)
    ensures
        (2 * (i / 2)) * s == (i / 2) * (2 * s),
        (2 * i) * s == i * (2 * s),
        (2 * i + 1) * s == i * (2 * s) + s,
        (i + 1) * s == i * s + s,
        (i - 1) * s == i * s - s,
        i % 2 == 0 ==> i * s == (i / 2) * (2 * s),
        i % 2 != 0 ==> i * s == (i / 2) * (2 * s) + s,
{
    assert((2 * i) * s == i * (2 * s)) by (nonlinear_arith);
    assert((2 * i + 1) * s == i * (2 * s) + s) by (nonlinear_arith);
    assert((i + 1) * s == i * s + s) by (nonlinear_arith);
    assert((i - 1) * s == i * s - s) by (nonlinear_arith);
    let g = i / 2;
    assert((2 * g) * s == g * (2 * s)) by (nonlinear_arith);
    assert((2 * g + 1) * s == g * (2 * s) + s) by (nonlinear_arith);
    assert(i == 2 * g || i == 2 * g + 1);
}

/// A side on the bottom of a cell is a side on the top of another, or on the rim.
proof fn bottom_is_met(block: int, levels: nat, c: Cell, v: int, a: Point, b: Point) -> (r: (
    bool,
    Cell,
    int,
))
    requires
        block > 0,
        block % 2 == 0,
        is_cell(block, c),
        c.k <= levels,
        is_side(block, c, v, a, b),
        a.1 == b.1,
        a.0 < b.0,
    ensures
        r.0 ==> is_cell(block, r.1) && r.1.k <= levels && is_side(block, r.1, r.2, b, a),
        !r.0 ==> on_rim(block, levels, a) && on_rim(block, levels, b),
{
    steps(c);
    let s = pow2(c.k) as int;
    let h = block / 2;
    halves(c.i, s);
    halves(c.j, s);
    halves(h, s);
    assert(-h * (2 * s) == -(h * (2 * s))) by (nonlinear_arith);
    assert(-block * s == -(block * s)) by (nonlinear_arith);
    if facing(block, c) is Bottom {
        let m = pow2((c.k - 1) as nat) as int;
        halves(c.i, m);
        halves(h, m);
        halves(block, m);
        let i2 = if a.0 == c.i * s {
            2 * c.i
        } else {
            2 * c.i + 1
        };
        halves(i2, m);
        let d = Cell { k: (c.k - 1) as nat, i: i2, j: block - 1 };
        steps(d);
        let w = if facing(block, d) is Nothing || facing(block, d) is Left {
            2int
        } else {
            3
        };
        (true, d, w)
    } else if c.j > -block {
        let d = Cell { k: c.k, i: c.i, j: c.j - 1 };
        let w = if facing(block, d) is Nothing || facing(block, d) is Left {
            2int
        } else {
            3
        };
        (true, d, w)
    } else if c.k < levels {
        let d = Cell { k: c.k + 1, i: c.i / 2, j: -h - 1 };
        steps(d);
        halves(-h, 2 * s);
        (
            true,
            d,
            if c.i % 2 == 0 {
                3int
            } else {
                2
            },
        )
    } else {
        (false, c, 0)
    }
}

/// A side on the top of a cell is a side on the bottom of another, or on the rim.
proof fn top_is_met(block: int, levels: nat, c: Cell, v: int, a: Point, b: Point) -> (r: (
    bool,
    Cell,
    int,
))
    requires
        block > 0,
        block % 2 == 0,
        is_cell(block, c),
        c.k <= levels,
        is_side(block, c, v, a, b),
        a.1 == b.1,
        a.0 > b.0,
    ensures
        r.0 ==> is_cell(block, r.1) && r.1.k <= levels && is_side(block, r.1, r.2, b, a),
        !r.0 ==> on_rim(block, levels, a) && on_rim(block, levels, b),
{
    steps(c);
    let s = pow2(c.k) as int;
    let h = block / 2;
    halves(c.i, s);
    halves(c.j, s);
    halves(h, s);
    assert(-h * (2 * s) == -(h * (2 * s))) by (nonlinear_arith);
    assert(-block * s == -(block * s)) by (nonlinear_arith);
    if facing(block, c) is Top {
        let m = pow2((c.k - 1) as nat) as int;
        halves(c.i, m);
        halves(-h, m);
        halves(-block, m);
        halves(c.j + 1, m);
        assert((c.j + 1) * s == c.j * s + s);
        let i2 = if b.0 == c.i * s {
            2 * c.i
        } else {
            2 * c.i + 1
        };
        halves(i2, m);
        let d = Cell { k: (c.k - 1) as nat, i: i2, j: -block };
        steps(d);
        (true, d, 0)
    } else if c.j < block - 1 {
        let d = Cell { k: c.k, i: c.i, j: c.j + 1 };
        (true, d, 0)
    } else if c.k < levels {
        let d = Cell { k: c.k + 1, i: c.i / 2, j: h };
        steps(d);
        halves(h, 2 * s);
        (
            true,
            d,
            if c.i % 2 == 0 {
                0int
            } else {
                1
            },
        )
    } else {
        (false, c, 0)
    }
}

/// A side on the right of a cell is a side on the left of another, or on the rim.
proof fn right_is_met(block: int, levels: nat, c: Cell, v: int, a: Point, b: Point) -> (r: (
    bool,
    Cell,
    int,
))
    requires
        block > 0,
        block % 2 == 0,
        is_cell(block, c),
        c.k <= levels,
        is_side(block, c, v, a, b),
        a.0 == b.0,
        a.1 < b.1,
    ensures
        r.0 ==> is_cell(block, r.1) && r.1.k <= levels && is_side(block, r.1, r.2, b, a),
        !r.0 ==> on_rim(block, levels, a) && on_rim(block, levels, b),
{
    steps(c);
    let s = pow2(c.k) as int;
    let h = block / 2;
    halves(c.i, s);
    halves(c.j, s);
    halves(h, s);
    assert(-h * (2 * s) == -(h * (2 * s))) by (nonlinear_arith);
    assert(-block * s == -(block * s)) by (nonlinear_arith);
    if facing(block, c) is Right {
        let m = pow2((c.k - 1) as nat) as int;
        halves(c.j, m);
        halves(-h, m);
        halves(-block, m);
        halves(c.i + 1, m);
        assert((c.i + 1) * s == c.i * s + s);
        let j2 = if a.1 == c.j * s {
            2 * c.j
        } else {
            2 * c.j + 1
        };
        halves(j2, m);
        let d = Cell { k: (c.k - 1) as nat, i: -block, j: j2 };
        steps(d);
        let w = if facing(block, d) is Nothing {
            3int
        } else {
            4
        };
        (true, d, w)
    } else if c.i < block - 1 {
        let d = Cell { k: c.k, i: c.i + 1, j: c.j };
        let w = if facing(block, d) is Nothing {
            3int
        } else {
            4
        };
        (true, d, w)
    } else if c.k < levels {
        let d = Cell { k: c.k + 1, i: h, j: c.j / 2 };
        steps(d);
        halves(h, 2 * s);
        (
            true,
            d,
            if c.j % 2 == 0 {
                4int
            } else {
                3
            },
        )
    } else {
        (false, c, 0)
    }
}

/// A side on the left of a cell is a side on the right of another, or on the rim.
proof fn left_is_met(block: int, levels: nat, c: Cell, v: int, a: Point, b: Point) -> (r: (
    bool,
    Cell,
    int,
))
    requires
        block > 0,
        block % 2 == 0,
        is_cell(block, c),
        c.k <= levels,
        is_side(block, c, v, a, b),
        a.0 == b.0,
        a.1 > b.1,
    ensures
        r.0 ==> is_cell(block, r.1) && r.1.k <= levels && is_side(block, r.1, r.2, b, a),
        !r.0 ==> on_rim(block, levels, a) && on_rim(block, levels, b),
{
    steps(c);
    let s = pow2(c.k) as int;
    let h = block / 2;
    halves(c.i, s);
    halves(c.j, s);
    halves(h, s);
    assert(-h * (2 * s) == -(h * (2 * s))) by (nonlinear_arith);
    assert(-block * s == -(block * s)) by (nonlinear_arith);
    if facing(block, c) is Left {
        let m = pow2((c.k - 1) as nat) as int;
        halves(c.j, m);
        halves(h, m);
        halves(block, m);
        let j2 = if b.1 == c.j * s {
            2 * c.j
        } else {
            2 * c.j + 1
        };
        halves(j2, m);
        let d = Cell { k: (c.k - 1) as nat, i: block - 1, j: j2 };
        steps(d);
        let w = if facing(block, d) is Bottom {
            2int
        } else {
            1
        };
        (true, d, w)
    } else if c.i > -block {
        let d = Cell { k: c.k, i: c.i - 1, j: c.j };
        let w = if facing(block, d) is Bottom {
            2int
        } else {
            1
        };
        (true, d, w)
    } else if c.k < levels {
        let d = Cell { k: c.k + 1, i: -h - 1, j: c.j / 2 };
        steps(d);
        halves(-h, 2 * s);
        (
            true,
            d,
            if c.j % 2 == 0 {
                1int
            } else {
                2
            },
        )
    } else {
        (false, c, 0)
    }
}

/// The corners of the `n`-th triangle of a list of corners.
pub open spec fn triangle_at(corners: Seq<Point>, n: int) -> Seq<Point> {
    seq![corners[3 * n], corners[3 * n + 1], corners[3 * n + 2]]
}

proof fn fan_parts(points: Seq<Point>, o: int, t: int)
    requires
        t >= 0,
    ensures
        fan(points, o, t).len() == 3 * t,
        forall|u: int|
            0 <= u < t ==> triangle_at(fan(points, o, t), u) == #[trigger] fan_triangle(
                points,
                o,
                u,
            ),
    decreases t,
{
    if t > 0 {
        fan_parts(points, o, t - 1);
        let front = fan(points, o, t - 1);
        let last = fan_triangle(points, o, t - 1);
        assert forall|u: int| 0 <= u < t implies triangle_at(fan(points, o, t), u)
            == #[trigger] fan_triangle(points, o, u) by {
            if u < t - 1 {
                assert(triangle_at(front, u) == fan_triangle(points, o, u));
                assert(triangle_at(fan(points, o, t), u) =~= triangle_at(front, u));
            } else {
                assert(triangle_at(fan(points, o, t), u) =~= last);
            }
        }
    }
}

pub(crate) proof fn cell_parts(block: int, c: Cell)
    ensures
        triangle_count(block, c) == 2 || triangle_count(block, c) == 3,
        cell_triangles(block, c).len() == 3 * triangle_count(block, c),
        forall|u: int|
            0 <= u < triangle_count(block, c) ==> triangle_at(cell_triangles(block, c), u)
                == #[trigger] triangle(block, c, u),
{
    let p = outline(block, c);
    fan_parts(p, farthest(p), p.len() - 2);
    assert forall|u: int| 0 <= u < triangle_count(block, c) implies triangle_at(
        cell_triangles(block, c),
        u,
    ) == #[trigger] triangle(block, c, u) by {
        assert(triangle(block, c, u) == fan_triangle(p, farthest(p), u));
    }
}

/// Where the triangles of the `ci`-th cell start.
pub(crate) open spec fn start(block: int, cs: Seq<Cell>, ci: int) -> int {
    triangles(block, cs.take(ci)).len() as int / 3
}

pub(crate) proof fn whole_triangles(block: int, cs: Seq<Cell>)
    ensures
        triangles(block, cs).len() % 3 == 0,
    decreases cs.len(),
{
    if cs.len() > 0 {
        whole_triangles(block, cs.drop_last());
        cell_parts(block, cs.last());
    }
}

/// The cell that a triangle belongs to, and its place there.
pub(crate) proof fn locate(block: int, cs: Seq<Cell>, n: int) -> (at: (int, int))
    requires
        0 <= n,
        3 * n + 3 <= triangles(block, cs).len(),
    ensures
        0 <= at.0 < cs.len(),
        0 <= at.1 < triangle_count(block, cs[at.0]),
        triangle_at(triangles(block, cs), n) == triangle(block, cs[at.0], at.1),
        n == start(block, cs, at.0) + at.1,
    decreases cs.len(),
{
    let front = cs.drop_last();
    let t0 = triangles(block, front);
    let c = cs.last();
    whole_triangles(block, front);
    cell_parts(block, c);
    if 3 * n + 3 <= t0.len() {
        let at = locate(block, front, n);
        assert(triangle_at(triangles(block, cs), n) =~= triangle_at(t0, n));
        assert(front.take(at.0) =~= cs.take(at.0));
        at
    } else {
        let u = n - t0.len() / 3;
        assert(triangle_at(triangles(block, cs), n) =~= triangle_at(
            cell_triangles(block, c),
            u,
        ));
        assert(triangle_at(cell_triangles(block, c), u) == triangle(block, c, u));
        assert(cs.take(cs.len() - 1) =~= front);
        (cs.len() - 1, u)
    }
}

/// The place of a cell's triangle among all.
pub(crate) proof fn place(block: int, cs: Seq<Cell>, ci: int, t: int) -> (n: int)
    requires
        0 <= ci < cs.len(),
        0 <= t < triangle_count(block, cs[ci]),
    ensures
        0 <= n,
        3 * n + 3 <= triangles(block, cs).len(),
        triangle_at(triangles(block, cs), n) == triangle(block, cs[ci], t),
    decreases cs.len(),
{
    let front = cs.drop_last();
    let t0 = triangles(block, front);
    let c = cs.last();
    whole_triangles(block, front);
    cell_parts(block, c);
    if ci < cs.len() - 1 {
        let n = place(block, front, ci, t);
        assert(triangle_at(triangles(block, cs), n) =~= triangle_at(t0, n));
        n
    } else {
        let n = t0.len() as int / 3 + t;
        assert(triangle_at(triangles(block, cs), n) =~= triangle_at(
            cell_triangles(block, c),
            t,
        ));
        assert(triangle_at(cell_triangles(block, c), t) == triangle(block, c, t));
        n
    }
}

proof fn row_holds(block: int, k: nat, j: int, n: nat)
    ensures
        row(block, k, j, n).no_duplicates(),
        forall|x: int|
            0 <= x < row(block, k, j, n).len() ==> {
                let c = #[trigger] row(block, k, j, n)[x];
                c.k == k && c.j == j && -block <= c.i < n - block && !in_hole(block, c)
            },
        forall|c: Cell|
            c.k == k && c.j == j && -block <= c.i < n - block && !in_hole(block, c)
                ==> #[trigger] row(block, k, j, n).contains(c),
    decreases n,
{
    if n > 0 {
        row_holds(block, k, j, (n - 1) as nat);
        let front = row(block, k, j, (n - 1) as nat);
        let now = row(block, k, j, n);
        let last = Cell { k, i: n - 1 - block, j };
        assert forall|c: Cell|
            c.k == k && c.j == j && -block <= c.i < n - block && !in_hole(
                block,
                c,
            ) implies #[trigger] now.contains(c) by {
            if c.i < n - 1 - block {
                assert(front.contains(c));
                let x = choose|x: int| 0 <= x < front.len() && front[x] == c;
                assert(now[x] == c);
            } else {
                assert(c == last);
                assert(now[now.len() - 1] == c);
            }
        }
    }
}

pub(crate) proof fn rows_hold(block: int, k: nat, n: nat)
    requires
        block > 0,
    ensures
        rows(block, k, n).no_duplicates(),
        forall|x: int|
            0 <= x < rows(block, k, n).len() ==> {
                let c = #[trigger] rows(block, k, n)[x];
                c.k == k && -block <= c.j < n - block && -block <= c.i < block && !in_hole(
                    block,
                    c,
                )
            },
        forall|c: Cell|
            c.k == k && -block <= c.j < n - block && -block <= c.i < block && !in_hole(block, c)
                ==> #[trigger] rows(block, k, n).contains(c),
    decreases n,
{
    if n > 0 {
        rows_hold(block, k, (n - 1) as nat);
        row_holds(block, k, n - 1 - block, (2 * block) as nat);
        let front = rows(block, k, (n - 1) as nat);
        let line = row(block, k, n - 1 - block, (2 * block) as nat);
        let now = rows(block, k, n);
        assert forall|x: int| 0 <= x < now.len() implies {
            let c = #[trigger] now[x];
            c.k == k && -block <= c.j < n - block && -block <= c.i < block && !in_hole(block, c)
        } by {
            if x < front.len() {
                assert(now[x] == front[x]);
            } else {
                assert(now[x] == line[x - front.len()]);
            }
        }
        assert forall|x: int, y: int| 0 <= x < now.len() && 0 <= y < now.len() && x
            != y implies now[x] != now[y] by {
            let f = front.len() as int;
            if x < f && y >= f {
                assert(front[x].j < n - 1 - block);
                assert(line[y - f].j == n - 1 - block);
            }
            if y < f && x >= f {
                assert(front[y].j < n - 1 - block);
                assert(line[x - f].j == n - 1 - block);
            }
        }
        assert forall|c: Cell|
            c.k == k && -block <= c.j < n - block && -block <= c.i < block && !in_hole(
                block,
                c,
            ) implies #[trigger] now.contains(c) by {
            if c.j < n - 1 - block {
                assert(front.contains(c));
                let x = choose|x: int| 0 <= x < front.len() && front[x] == c;
                assert(now[x] == c);
            } else {
                assert(line.contains(c));
                let x = choose|x: int| 0 <= x < line.len() && line[x] == c;
                assert(now[front.len() + x] == c);
            }
        }
    }
}

/// The mesh has each cell up to its last level once.
pub(crate) proof fn cells_hold(block: int, levels: nat)
    requires
        block > 0,
    ensures
        cells(block, levels).no_duplicates(),
        forall|x: int|
            0 <= x < cells(block, levels).len() ==> is_cell(
                block,
                #[trigger] cells(block, levels)[x],
            ) && cells(block, levels)[x].k <= levels,
        forall|c: Cell|
            is_cell(block, c) && c.k <= levels ==> #[trigger] cells(block, levels).contains(c),
    decreases levels,
{
    rows_hold(block, levels, (2 * block) as nat);
    if levels > 0 {
        cells_hold(block, (levels - 1) as nat);
        let front = cells(block, (levels - 1) as nat);
        let ring = rows(block, levels, (2 * block) as nat);
        let now = cells(block, levels);
        assert forall|x: int| 0 <= x < now.len() implies is_cell(block, #[trigger] now[x])
            && now[x].k <= levels by {
            if x < front.len() {
                assert(now[x] == front[x]);
            } else {
                assert(now[x] == ring[x - front.len()]);
            }
        }
        assert forall|x: int, y: int| 0 <= x < now.len() && 0 <= y < now.len() && x
            != y implies now[x] != now[y] by {
            let f = front.len() as int;
            if x < f && y >= f {
                assert(front[x].k <= levels - 1);
                assert(ring[y - f].k == levels);
            }
            if y < f && x >= f {
                assert(front[y].k <= levels - 1);
                assert(ring[x - f].k == levels);
            }
        }
        assert forall|c: Cell| is_cell(block, c) && c.k <= levels implies #[trigger] now.contains(
            c,
        ) by {
            if c.k < levels {
                assert(front.contains(c));
                let x = choose|x: int| 0 <= x < front.len() && front[x] == c;
                assert(now[x] == c);
            } else {
                assert(ring.contains(c));
                let x = choose|x: int| 0 <= x < ring.len() && ring[x] == c;
                assert(now[front.len() + x] == c);
            }
        }
    }
}

/// Some triangle has the edge from `a` to `b`.
pub open spec fn has_edge(corners: Seq<Point>, a: Point, b: Point) -> bool {
    exists|n: int, e: int|
        0 <= n && 3 * n + 3 <= corners.len() && 0 <= e < 3 && #[trigger] edge(
            triangle_at(corners, n),
            e,
        ) == (a, b)
}

/// The mesh is watertight: whatever edge a triangle has, another has it the other way
/// round, unless both its ends are on the outer rim.
pub proof fn clipmap_is_watertight(block: int, levels: nat, n: int, e: int)
    requires
        block > 0,
        block % 2 == 0,
        0 <= n,
        3 * n + 3 <= triangles(block, cells(block, levels)).len(),
        0 <= e < 3,
    ensures
        ({
            let corners = triangles(block, cells(block, levels));
            let (a, b) = edge(triangle_at(corners, n), e);
            has_edge(corners, b, a) || (on_rim(block, levels, a) && on_rim(block, levels, b))
        }),
{
    let cs = cells(block, levels);
    let corners = triangles(block, cs);
    cells_hold(block, levels);
    let (ci, t) = locate(block, cs, n);
    let c = cs[ci];
    let (a, b) = edge(triangle_at(corners, n), e);
    let (inside, u, f) = inner_edges_are_met(block, c, t, e);
    if inside {
        let m = place(block, cs, ci, u);
        assert(edge(triangle_at(corners, m), f) == (b, a));
    } else {
        edges_lie_in(block, c, t, e);
        steps(c);
        outline_is_simple(block, c);
        assert(is_side(block, c, u, a, b));
        assert(a.0 == b.0 || a.1 == b.1);
        let (met, d, w) = if a.1 == b.1 && a.0 < b.0 {
            bottom_is_met(block, levels, c, u, a, b)
        } else if a.1 == b.1 {
            top_is_met(block, levels, c, u, a, b)
        } else if a.1 < b.1 {
            right_is_met(block, levels, c, u, a, b)
        } else {
            left_is_met(block, levels, c, u, a, b)
        };
        if met {
            let (v, g) = sides_are_edges(block, d, w);
            assert(cs.contains(d));
            let di = choose|di: int| 0 <= di < cs.len() && cs[di] == d;
            let m = place(block, cs, di, v);
            assert(edge(triangle_at(corners, m), g) == (b, a));
        }
    }
}

/// No two triangles have one edge in the same direction: with the other law, an edge is
/// shared by two triangles at most.
pub proof fn clipmap_edges_are_used_once(
    block: int,
    levels: nat,
    n: int,
    e: int,
    m: int,
    f: int,
)
    requires
        block > 0,
        block % 2 == 0,
        0 <= n,
        3 * n + 3 <= triangles(block, cells(block, levels)).len(),
        0 <= e < 3,
        0 <= m,
        3 * m + 3 <= triangles(block, cells(block, levels)).len(),
        0 <= f < 3,
        edge(triangle_at(triangles(block, cells(block, levels)), n), e) == edge(
            triangle_at(triangles(block, cells(block, levels)), m),
            f,
        ),
    ensures
        n == m,
        e == f,
{
    let cs = cells(block, levels);
    cells_hold(block, levels);
    let (ci, t) = locate(block, cs, n);
    let (di, u) = locate(block, cs, m);
    edges_lie_in(block, cs[ci], t, e);
    edges_lie_in(block, cs[di], u, f);
    let (a, b) = edge(triangle_at(triangles(block, cs), n), e);
    one_cell_per_edge(block, cs[ci], cs[di], a, b);
    assert(ci == di);
    one_triangle_per_edge(block, cs[ci], t, e, u, f);
}

/// Twice the signed area of a triangle, positive if its corners go counter-clockwise.
pub open spec fn doubled_area(tri: Seq<Point>) -> int {
    (tri[1].0 - tri[0].0) * (tri[2].1 - tri[0].1) - (tri[1].1 - tri[0].1) * (tri[2].0 - tri[0].0)
}

/// A cell's outline in halves of its side, from its lower left corner.
pub(crate) open spec fn shape(f: Facing) -> Seq<Point> {
    match f {
        Facing::Nothing => seq![(0, 0), (2, 0), (2, 2), (0, 2)],
        Facing::Bottom => seq![(0, 0), (1, 0), (2, 0), (2, 2), (0, 2)],
        Facing::Right => seq![(0, 0), (2, 0), (2, 1), (2, 2), (0, 2)],
        Facing::Top => seq![(0, 0), (2, 0), (2, 2), (1, 2), (0, 2)],
        Facing::Left => seq![(0, 0), (2, 0), (2, 2), (0, 2), (0, 1)],
    }
}

pub(crate) proof fn small_product(a: int, b: int)
    requires
        -2 <= a <= 2,
    ensures
        a * b == (if a == -2 {
            -2 * b
        } else if a == -1 {
            -b
        } else if a == 0 {
            0
        } else if a == 1 {
            b
        } else {
            2 * b
        }),
{
}

/// Cut from the right corner, every triangle of the shape goes counter-clockwise.
proof fn shape_turns_left(f: Facing, o: int, t: int)
    requires
        match f {
            Facing::Nothing => 0 <= o < 4 && 0 <= t < 2,
            Facing::Bottom => (o == 3 || o == 4) && 0 <= t < 3,
            Facing::Right => (o == 0 || o == 4) && 0 <= t < 3,
            Facing::Top => (o == 0 || o == 1) && 0 <= t < 3,
            Facing::Left => (o == 1 || o == 2) && 0 <= t < 3,
        },
    ensures
        doubled_area(fan_triangle(shape(f), o, t)) > 0,
{
    let p = shape(f);
    let n = p.len() as int;
    around(o, t + 1, n);
    around(o, t + 2, n);
    let tri = fan_triangle(p, o, t);
    assert(tri[0] == p[o] && tri[1] == p[after(o, t + 1, n)] && tri[2] == p[after(o, t + 2, n)]);
    small_product(tri[1].0 - tri[0].0, tri[2].1 - tri[0].1);
    small_product(tri[1].1 - tri[0].1, tri[2].0 - tri[0].0);
}

proof fn scaled_area(tri: Seq<Point>, big: Seq<Point>, x: int, z: int, u: int)
    requires
        u > 0,
        forall|q: int|
            0 <= q < 3 ==> #[trigger] big[q] == (x + tri[q].0 * u, z + tri[q].1 * u),
        doubled_area(tri) > 0,
    ensures
        doubled_area(big) > 0,
{
    let (a0, b0) = tri[0];
    let (a1, b1) = tri[1];
    let (a2, b2) = tri[2];
    assert(big[0] == (x + a0 * u, z + b0 * u));
    assert(big[1] == (x + a1 * u, z + b1 * u));
    assert(big[2] == (x + a2 * u, z + b2 * u));
    let area = (a1 - a0) * (b2 - b0) - (b1 - b0) * (a2 - a0);
    assert((a1 * u - a0 * u) == (a1 - a0) * u) by (nonlinear_arith);
    assert((a2 * u - a0 * u) == (a2 - a0) * u) by (nonlinear_arith);
    assert((b1 * u - b0 * u) == (b1 - b0) * u) by (nonlinear_arith);
    assert((b2 * u - b0 * u) == (b2 - b0) * u) by (nonlinear_arith);
    let p = a1 - a0;
    let q = b2 - b0;
    let r = b1 - b0;
    let w = a2 - a0;
    assert((p * u) * (q * u) - (r * u) * (w * u) == (p * q - r * w) * (u * u)) by (nonlinear_arith);
    assert(area * (u * u) > 0) by (nonlinear_arith)
        requires
            area > 0,
            u > 0,
    ;
}

/// No triangle is degenerate: all go counter-clockwise and have an area.
#[verifier::spinoff_prover]
#[verifier::rlimit(60)]
pub proof fn clipmap_triangles_turn_left(block: int, levels: nat, n: int)
    requires
        block > 0,
        block % 2 == 0,
        0 <= n,
        3 * n + 3 <= triangles(block, cells(block, levels)).len(),
    ensures
        doubled_area(triangle_at(triangles(block, cells(block, levels)), n)) > 0,
{
    let cs = cells(block, levels);
    cells_hold(block, levels);
    let (ci, t) = locate(block, cs, n);
    let c = cs[ci];
    fan_corner(block, c);
    steps(c);
    let f = facing(block, c);
    let p = outline(block, c);
    let o = farthest(p);
    let size = p.len() as int;
    let big = triangle(block, c, t);
    let x = c.i * pow2(c.k);
    let z = c.j * pow2(c.k);
    around(o, t + 1, size);
    around(o, t + 2, size);
    shape_turns_left(f, o, t);
    if c.k > 0 {
        let m = pow2((c.k - 1) as nat) as int;
        let tri = fan_triangle(shape(f), o, t);
        assert forall|v: int| 0 <= v < size implies #[trigger] p[v] == (
            x + shape(f)[v].0 * m,
            z + shape(f)[v].1 * m,
        ) by {
            small_product(shape(f)[v].0, m);
            small_product(shape(f)[v].1, m);
        }
        assert forall|q: int| 0 <= q < 3 implies #[trigger] big[q] == (
            x + tri[q].0 * m,
            z + tri[q].1 * m,
        ) by {
            let v = if q == 0 {
                o
            } else if q == 1 {
                after(o, t + 1, size)
            } else {
                after(o, t + 2, size)
            };
            assert(p[v] == (x + shape(f)[v].0 * m, z + shape(f)[v].1 * m));
        }
        scaled_area(tri, big, x, z, m);
    } else {
        vstd::arithmetic::power2::lemma2_to64();
        assert(big[0] == p[o] && big[1] == p[after(o, t + 1, 4)] && big[2] == p[after(
            o,
            t + 2,
            4,
        )]);
        small_product(big[1].0 - big[0].0, big[2].1 - big[0].1);
        small_product(big[1].1 - big[0].1, big[2].0 - big[0].0);
    }
}

/// A cell is cut from the outside: the corner that a triangle starts at is no nearer to the centre
/// than its other two.
pub proof fn clipmap_is_cut_from_outside(block: int, levels: nat, n: int, q: int)
    requires
        block > 0,
        block % 2 == 0,
        0 <= n,
        3 * n + 3 <= triangles(block, cells(block, levels)).len(),
        0 <= q < 3,
    ensures
        ({
            let tri = triangle_at(triangles(block, cells(block, levels)), n);
            tri[q].0 * tri[q].0 + tri[q].1 * tri[q].1 <= tri[0].0 * tri[0].0 + tri[0].1 * tri[0].1
        }),
{
    let cs = cells(block, levels);
    let (ci, t) = locate(block, cs, n);
    let p = outline(block, cs[ci]);
    let o = farthest(p);
    let size = p.len() as int;
    farthest_is_farthest(p);
    cell_parts(block, cs[ci]);
    around(o, t + 1, size);
    around(o, t + 2, size);
    let v = if q == 0 {
        o
    } else if q == 1 {
        after(o, t + 1, size)
    } else {
        after(o, t + 2, size)
    };
    assert(triangle(block, cs[ci], t)[q] == p[v]);
    assert(dist2(p[v]) <= dist2(p[o]));
}

} // verus!
