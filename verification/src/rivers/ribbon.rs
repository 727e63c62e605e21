//! The ribbon that is swept along a reach: points, spans and triangles.
use vstd::prelude::*;

verus! {

/// Cells below which a reach is dropped.
pub const MIN_REACH_POINTS: usize = 3;

/// Points that each segment is cut into.
pub const SMOOTH_SUB: usize = 4;

/// The face, column and row of a cell on a cube with `res` by `res` cells to a face.
pub fn cell_to_fxy(c: u32, res: usize) -> (fxy: (usize, usize, usize))
    requires
        res > 0,
        res * res <= usize::MAX,
    ensures
        fxy.1 < res,
        fxy.2 < res,
        c == fxy.0 * (res * res) + fxy.2 * res + fxy.1,
{
    let c: usize = c as usize;
    proof {
        vstd::arithmetic::mul::lemma_mul_strictly_positive(res as int, res as int);
    }
    let rr: usize = res * res;
    let rest: usize = c % rr;
    proof {
        vstd::arithmetic::div_mod::lemma_fundamental_div_mod(c as int, rr as int);
        vstd::arithmetic::div_mod::lemma_fundamental_div_mod(rest as int, res as int);
        vstd::arithmetic::mul::lemma_mul_is_commutative(rr as int, c as int / rr as int);
        vstd::arithmetic::mul::lemma_mul_is_commutative(res as int, rest as int / res as int);
        let a: int = rest as int;
        let r: int = res as int;
        assert(0 <= a % r && a % r < r) by (nonlinear_arith)
            requires
                r > 0,
        ;
        assert(a / r < r) by (nonlinear_arith)
            requires
                r > 0,
                0 <= a < r * r,
        ;
    }
    (c / rr, rest % res, rest / res)
}

/// The cell at a face, column and row.
pub fn texel_index(face: usize, x: usize, y: usize, res: usize) -> (c: u32)
    requires
        face * (res * res) + y * res + x <= u32::MAX,
    ensures
        c == face * (res * res) + y * res + x,
{
    proof {
        assert(y * res >= 0) by (nonlinear_arith);
        assert(face * (res * res) >= 0) by (nonlinear_arith);
        assert(face == 0 || res * res <= face * (res * res)) by (nonlinear_arith);
    }
    if face == 0 {
        return (y * res + x) as u32;
    }
    let rr: usize = res * res;
    (face * rr + y * res + x) as u32
}

/// Each cell is at one place and each place is one cell.
pub proof fn cells_and_places_match(f: int, x: int, y: int, g: int, u: int, v: int, res: int)
    requires
        res > 0,
        0 <= x < res,
        0 <= y < res,
        0 <= u < res,
        0 <= v < res,
        f * (res * res) + y * res + x == g * (res * res) + v * res + u,
    ensures
        f == g,
        x == u,
        y == v,
{
    let rr = res * res;
    let a = y * res + x;
    let b = v * res + u;
    assert(0 <= a < rr && 0 <= b < rr) by (nonlinear_arith)
        requires
            0 <= x < res,
            0 <= y < res,
            0 <= u < res,
            0 <= v < res,
            rr == res * res,
            a == y * res + x,
            b == v * res + u,
    ;
    vstd::arithmetic::div_mod::lemma_fundamental_div_mod_converse(f * rr + a, rr, f, a);
    vstd::arithmetic::div_mod::lemma_fundamental_div_mod_converse(g * rr + b, rr, g, b);
    vstd::arithmetic::div_mod::lemma_fundamental_div_mod_converse(a, res, y, x);
    vstd::arithmetic::div_mod::lemma_fundamental_div_mod_converse(b, res, v, u);
}

/// The points of the smoothed centre line of a reach of `cells` cells: none for one that is
/// too short, else four to a segment and the last.
pub fn ribbon_points(cells: usize) -> (m: usize)
    requires
        4 * cells <= usize::MAX,
    ensures
        m == (if cells < 3 {
            0
        } else {
            4 * (cells - 1) + 1
        }),
{
    if cells < MIN_REACH_POINTS {
        0
    } else {
        (cells - 1) * SMOOTH_SUB + 1
    }
}

/// The four control points of segment `i` of a line of `c` points; at the ends of the line
/// its first and last point stand twice.
pub fn catmull_span(i: usize, c: usize) -> (s: (usize, usize, usize, usize))
    requires
        c >= 2,
        i < c - 1,
    ensures
        s.1 == i,
        s.2 == i + 1,
        s.0 == (if i == 0 {
            0
        } else {
            i - 1
        }),
        s.3 == (if i + 2 < c {
            i + 2
        } else {
            c - 1
        }),
        s.0 < c && s.3 < c,
{
    let i0: usize = if i > 0 {
        i - 1
    } else {
        0
    };
    let i3: usize = if i < c - 2 {
        i + 2
    } else {
        c - 1
    };
    (i0, i, i + 1, i3)
}

/// The four triangles between point `i` and the next, two for each side. Points `2 i` and
/// `2 i + 1` are the left and right edge, counted from `base`.
pub open spec fn segment(base: int, i: int) -> Seq<int> {
    let la = base + 2 * i;
    let ra = la + 1;
    let lb = la + 2;
    let rb = la + 3;
    seq![la, ra, lb, ra, rb, lb, la, lb, ra, ra, lb, rb]
}

/// The triangles of a ribbon whose first vertex is `base`: those of each segment that is
/// `bridged`, in order.
pub open spec fn ribbon(base: int, bridged: Seq<bool>) -> Seq<int>
    decreases bridged.len(),
{
    if bridged.len() == 0 {
        Seq::empty()
    } else {
        let front = ribbon(base, bridged.drop_last());
        if bridged.last() {
            front + segment(base, bridged.len() - 1)
        } else {
            front
        }
    }
}

/// How many of the first `n` segments are bridged.
pub open spec fn bridges(bridged: Seq<bool>, n: int) -> int
    decreases n,
{
    if n <= 0 {
        0
    } else {
        bridges(bridged, n - 1) + (if bridged[n - 1] {
            1int
        } else {
            0
        })
    }
}

/// The triangle at place `t`.
pub open spec fn triangle(indices: Seq<int>, t: int) -> (int, int, int) {
    (indices[3 * t], indices[3 * t + 1], indices[3 * t + 2])
}

/// The corners the other way round.
pub open spec fn turned_over(t: (int, int, int)) -> (int, int, int) {
    (t.0, t.2, t.1)
}

/// A ribbon spans the gap between the two points of each bridged segment: from the left and right
/// edge of its point, two numbers to a point, to those of the next, with two triangles that face
/// one way and the same two turned over.
pub proof fn ribbon_joins_its_points(base: int, bridged: Seq<bool>, i: int)
    requires
        0 <= i < bridged.len(),
        bridged[i],
    ensures
        ({
            let all = ribbon(base, bridged);
            let t = 4 * bridges(bridged, i);
            let (left, right) = (base + 2 * i, base + 2 * i + 1);
            let (next_left, next_right) = (base + 2 * (i + 1), base + 2 * (i + 1) + 1);
            &&& 0 <= t && 3 * t + 12 <= all.len()
            &&& triangle(all, t) == (left, right, next_left)
            &&& triangle(all, t + 1) == (right, next_right, next_left)
            &&& triangle(all, t + 2) == turned_over(triangle(all, t))
            &&& triangle(all, t + 3) == turned_over(triangle(all, t + 1))
        }),
    decreases bridged.len(),
{
    let front = bridged.drop_last();
    ribbon_has_four_a_bridge(base, front);
    bridges_agree(front, bridged, front.len() as int);
    if i < front.len() {
        ribbon_joins_its_points(base, front, i);
        bridges_agree(front, bridged, i);
    }
}

proof fn bridges_agree(a: Seq<bool>, b: Seq<bool>, n: int)
    requires
        0 <= n <= a.len() <= b.len(),
        forall|i: int| 0 <= i < a.len() ==> #[trigger] a[i] == b[i],
    ensures
        bridges(a, n) == bridges(b, n) >= 0,
    decreases n,
{
    if n > 0 {
        bridges_agree(a, b, n - 1);
    }
}

/// A ribbon has four triangles for each bridged segment, and no others.
pub proof fn ribbon_has_four_a_bridge(base: int, bridged: Seq<bool>)
    ensures
        ribbon(base, bridged).len() == 12 * bridges(bridged, bridged.len() as int),
    decreases bridged.len(),
{
    if bridged.len() > 0 {
        ribbon_has_four_a_bridge(base, bridged.drop_last());
        bridges_agree(bridged.drop_last(), bridged, bridged.len() - 1);
    }
}

/// Where every segment is bridged, every vertex of the ribbon is a corner of a triangle.
pub proof fn whole_ribbons_use_every_vertex(base: int, bridged: Seq<bool>, v: int) -> (n: int)
    requires
        bridged.len() > 0,
        forall|i: int| 0 <= i < bridged.len() ==> #[trigger] bridged[i],
        base <= v < base + 2 * (bridged.len() + 1),
    ensures
        0 <= n < ribbon(base, bridged).len(),
        ribbon(base, bridged)[n] == v,
{
    let p = (v - base) / 2;
    let i = if p < bridged.len() {
        p
    } else {
        p - 1
    };
    ribbon_joins_its_points(base, bridged, i);
    let t = 4 * bridges(bridged, i);
    let all = ribbon(base, bridged);
    assert(triangle(all, t).0 == all[3 * t]);
    assert(triangle(all, t + 1) == (all[3 * t + 3], all[3 * t + 4], all[3 * t + 5]));
    if v == base + 2 * i {
        3 * t
    } else if v == base + 2 * i + 1 {
        3 * t + 1
    } else if v == base + 2 * i + 2 {
        3 * t + 2
    } else {
        3 * t + 4
    }
}

/// A sequence of `u32` as integers.
pub open spec fn ints(s: Seq<u32>) -> Seq<int> {
    s.map_values(|x: u32| x as int)
}

/// The triangles of a ribbon with one segment per entry of `bridged`; a segment that is not
/// bridged jumps a face seam and gets none.
pub fn ribbon_indices(base: u32, bridged: &Vec<bool>) -> (out: Vec<u32>)
    requires
        base + 2 * bridged.len() + 1 <= u32::MAX,
    ensures
        ints(out@) == ribbon(base as int, bridged@),
        out.len() == 12 * bridges(bridged@, bridged.len() as int),
        forall|i: int|
            0 <= i < bridged.len() && #[trigger] bridged[i] ==> {
                let t = 4 * bridges(bridged@, i);
                let (l, r) = (base + 2 * i, base + 2 * i + 1);
                &&& triangle(ints(out@), t) == (l, r, l + 2)
                &&& triangle(ints(out@), t + 1) == (r, r + 2, l + 2)
                &&& triangle(ints(out@), t + 2) == (l, l + 2, r)
                &&& triangle(ints(out@), t + 3) == (r, l + 2, r + 2)
            },
{
    let mut out: Vec<u32> = Vec::new();
    let mut i: usize = 0;
    proof {
        assert(ints(out@) =~= ribbon(base as int, bridged@.take(0)));
    }
    while i < bridged.len()
        invariant
            i <= bridged.len(),
            base + 2 * bridged.len() + 1 <= u32::MAX,
            ints(out@) == ribbon(base as int, bridged@.take(i as int)),
        decreases bridged.len() - i,
    {
        let ghost was = out@;
        proof {
            assert(bridged@.take(i as int + 1).drop_last() =~= bridged@.take(i as int));
        }
        if bridged[i] {
            let la: u32 = base + 2 * i as u32;
            let ra: u32 = la + 1;
            let lb: u32 = la + 2;
            let rb: u32 = la + 3;
            out.push(la);
            out.push(ra);
            out.push(lb);
            out.push(ra);
            out.push(rb);
            out.push(lb);
            out.push(la);
            out.push(lb);
            out.push(ra);
            out.push(ra);
            out.push(lb);
            out.push(rb);
            proof {
                assert(ints(out@) =~= ints(was) + segment(base as int, i as int));
            }
        }
        i = i + 1;
    }
    proof {
        assert(bridged@.take(bridged.len() as int) =~= bridged@);
        ribbon_has_four_a_bridge(base as int, bridged@);
        assert forall|i: int| 0 <= i < bridged.len() && #[trigger] bridged[i] implies {
            let t = 4 * bridges(bridged@, i);
            let (l, r) = (base + 2 * i, base + 2 * i + 1);
            &&& triangle(ints(out@), t) == (l, r, l + 2)
            &&& triangle(ints(out@), t + 1) == (r, r + 2, l + 2)
            &&& triangle(ints(out@), t + 2) == (l, l + 2, r)
            &&& triangle(ints(out@), t + 3) == (r, l + 2, r + 2)
        } by {
            ribbon_joins_its_points(base as int, bridged@, i);
        }
    }
    out
}

/// A ribbon consists of whole triangles over its own vertices: two for each of its points,
/// which are one more than its segments.
pub proof fn ribbon_is_well_formed(base: int, bridged: Seq<bool>)
    ensures
        ribbon(base, bridged).len() % 12 == 0,
        ribbon(base, bridged).len() <= 12 * bridged.len(),
        forall|i: int|
            0 <= i < ribbon(base, bridged).len() ==> base <= #[trigger] ribbon(base, bridged)[i]
                < base + 2 * (bridged.len() + 1),
    decreases bridged.len(),
{
    if bridged.len() > 0 {
        ribbon_is_well_formed(base, bridged.drop_last());
    }
}

} // verus!
