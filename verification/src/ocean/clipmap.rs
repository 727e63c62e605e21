//! Concentric wave mesh: a fine block of cells around the centre, then rings whose cells
//! double in size, with the sides that face a finer ring split to meet it.
use std::collections::HashMap;

use vstd::arithmetic::power2::pow2;
use vstd::prelude::*;

use crate::ocean::fade::{all_note_their_ring, notes_its_ring};

verus! {

broadcast use vstd::std_specs::hash::group_hash_axioms;

/// A mesh vertex: a lattice point, and the cell size it was first used at.
#[derive(Clone, Copy, Debug, PartialEq, Eq, Structural)]
pub struct LatticeVert {
    pub ix: i32,
    pub iz: i32,
    pub step: i32,
}

/// Vertices, and triangles as triples of places among them.
pub struct ClipMesh {
    pub verts: Vec<LatticeVert>,
    pub indices: Vec<u32>,
}

/// A lattice point.
pub type Point = (int, int);

/// A square cell: the `i`-th column and `j`-th row at level `k`, counted in cells of that
/// level from the centre.
pub struct Cell {
    pub k: nat,
    pub i: int,
    pub j: int,
}

/// The cell lies where the next finer level is.
pub open spec fn in_hole(block: int, c: Cell) -> bool {
    c.k > 0 && -(block / 2) <= c.i < block / 2 && -(block / 2) <= c.j < block / 2
}

/// The cell exists: within the block's reach at its level, and not in the hole.
pub open spec fn is_cell(block: int, c: Cell) -> bool {
    -block <= c.i < block && -block <= c.j < block && !in_hole(block, c)
}

/// The side of a cell that faces the hole.
pub enum Facing {
    Nothing,
    Bottom,
    Right,
    Top,
    Left,
}

/// Which side of a cell faces the hole.
pub open spec fn facing(block: int, c: Cell) -> Facing {
    let h = block / 2;
    if c.k == 0 {
        Facing::Nothing
    } else if c.j == h && -h <= c.i < h {
        Facing::Bottom
    } else if c.i + 1 == -h && -h <= c.j < h {
        Facing::Right
    } else if c.j + 1 == -h && -h <= c.i < h {
        Facing::Top
    } else if c.i == h && -h <= c.j < h {
        Facing::Left
    } else {
        Facing::Nothing
    }
}

/// The outline of a cell, counter-clockwise from its lower left corner; the side that faces
/// the hole has its middle in it.
pub open spec fn outline(block: int, c: Cell) -> Seq<Point> {
    let s = pow2(c.k) as int;
    let m = pow2((c.k - 1) as nat) as int;
    let x = c.i * s;
    let z = c.j * s;
    match facing(block, c) {
        Facing::Nothing => seq![(x, z), (x + s, z), (x + s, z + s), (x, z + s)],
        Facing::Bottom => seq![(x, z), (x + m, z), (x + s, z), (x + s, z + s), (x, z + s)],
        Facing::Right => seq![(x, z), (x + s, z), (x + s, z + m), (x + s, z + s), (x, z + s)],
        Facing::Top => seq![(x, z), (x + s, z), (x + s, z + s), (x + m, z + s), (x, z + s)],
        Facing::Left => seq![(x, z), (x + s, z), (x + s, z + s), (x, z + s), (x, z + m)],
    }
}

/// Squared distance from the centre.
pub open spec fn dist2(p: Point) -> int {
    p.0 * p.0 + p.1 * p.1
}

/// The place of the farthest point, the first of them.
pub open spec fn farthest(points: Seq<Point>) -> int
    decreases points.len(),
{
    if points.len() <= 1 {
        0
    } else {
        let o = farthest(points.drop_last());
        if dist2(points.last()) > dist2(points[o]) {
            points.len() - 1
        } else {
            o
        }
    }
}

/// The `n`-gon cut into triangles from its corner `o`: the corners of the `t`-th.
pub open spec fn fan_triangle(points: Seq<Point>, o: int, t: int) -> Seq<Point> {
    let n = points.len() as int;
    seq![points[o], points[(o + t + 1) % n], points[(o + t + 2) % n]]
}

/// The first `t` triangles of the fan, corner by corner.
pub open spec fn fan(points: Seq<Point>, o: int, t: int) -> Seq<Point>
    decreases t,
{
    if t <= 0 {
        Seq::empty()
    } else {
        fan(points, o, t - 1) + fan_triangle(points, o, t - 1)
    }
}

/// The triangles of a cell, corner by corner.
pub open spec fn cell_triangles(block: int, c: Cell) -> Seq<Point> {
    let points = outline(block, c);
    fan(points, farthest(points), points.len() - 2)
}

/// The first `n` places of row `j` at level `k` that hold cells.
pub open spec fn row(block: int, k: nat, j: int, n: nat) -> Seq<Cell>
    decreases n,
{
    if n == 0 {
        Seq::empty()
    } else {
        let c = Cell { k, i: n - 1 - block, j };
        if in_hole(block, c) {
            row(block, k, j, (n - 1) as nat)
        } else {
            row(block, k, j, (n - 1) as nat).push(c)
        }
    }
}

/// The first `n` rows at level `k`.
pub open spec fn rows(block: int, k: nat, n: nat) -> Seq<Cell>
    decreases n,
{
    if n == 0 {
        Seq::empty()
    } else {
        rows(block, k, (n - 1) as nat) + row(block, k, n - 1 - block, (2 * block) as nat)
    }
}

/// All cells up to a level, the centre first.
pub open spec fn cells(block: int, levels: nat) -> Seq<Cell>
    decreases levels,
{
    if levels == 0 {
        rows(block, 0, (2 * block) as nat)
    } else {
        cells(block, (levels - 1) as nat) + rows(block, levels, (2 * block) as nat)
    }
}

/// The triangles of cells, corner by corner.
pub open spec fn triangles(block: int, cells: Seq<Cell>) -> Seq<Point>
    decreases cells.len(),
{
    if cells.len() == 0 {
        Seq::empty()
    } else {
        triangles(block, cells.drop_last()) + cell_triangles(block, cells.last())
    }
}

/// The point of a vertex.
pub open spec fn point(v: LatticeVert) -> Point {
    (v.ix as int, v.iz as int)
}

/// Some vertex is at the point.
pub open spec fn has_point(verts: Seq<LatticeVert>, p: Point) -> bool {
    exists|i: int| 0 <= i < verts.len() && point(#[trigger] verts[i]) == p
}

/// The vertices once there is one at `p`; a new one notes the cell size `step`.
pub open spec fn with_point(verts: Seq<LatticeVert>, p: Point, step: int) -> Seq<LatticeVert> {
    if has_point(verts, p) {
        verts
    } else {
        verts.push(LatticeVert { ix: p.0 as i32, iz: p.1 as i32, step: step as i32 })
    }
}

/// The vertices once there is one at each of `points`.
pub open spec fn with_points(verts: Seq<LatticeVert>, points: Seq<Point>, step: int) -> Seq<
    LatticeVert,
>
    decreases points.len(),
{
    if points.len() == 0 {
        verts
    } else {
        with_point(with_points(verts, points.drop_last(), step), points.last(), step)
    }
}

/// The vertices of cells, in the order of their first use.
pub open spec fn vertices(block: int, cells: Seq<Cell>) -> Seq<LatticeVert>
    decreases cells.len(),
{
    if cells.len() == 0 {
        Seq::empty()
    } else {
        with_points(
            vertices(block, cells.drop_last()),
            outline(block, cells.last()),
            pow2(cells.last().k) as int,
        )
    }
}

/// No two vertices are at one point.
pub open spec fn distinct_points(verts: Seq<LatticeVert>) -> bool {
    forall|i: int, j: int|
        0 <= i < j < verts.len() ==> point(#[trigger] verts[i]) != point(#[trigger] verts[j])
}

/// The mesh consists of these triangles, over vertices each at a point of its own.
pub open spec fn depicts(verts: Seq<LatticeVert>, indices: Seq<u32>, corners: Seq<Point>) -> bool {
    &&& distinct_points(verts)
    &&& indices.len() == corners.len()
    &&& forall|n: int|
        0 <= n < indices.len() ==> (#[trigger] indices[n]) < verts.len() && point(
            verts[indices[n] as int],
        ) == corners[n]
}

/// One number for a lattice point.
spec fn spot(ix: int, iz: int) -> u64 {
    ((ix + 0x8000_0000) * 0x1_0000_0000 + (iz + 0x8000_0000)) as u64
}

fn pack_spot(ix: i32, iz: i32) -> (k: u64)
    ensures
        k == spot(ix as int, iz as int),
{
    let a: u64 = (ix as i64 + 0x8000_0000) as u64;
    let b: u64 = (iz as i64 + 0x8000_0000) as u64;
    a * 0x1_0000_0000 + b
}

/// The places of vertices by their points.
spec fn indexed(map: Map<u64, u32>, verts: Seq<LatticeVert>) -> bool {
    &&& forall|k: u64| #[trigger]
        map.contains_key(k) ==> map[k] < verts.len() && spot(
            verts[map[k] as int].ix as int,
            verts[map[k] as int].iz as int,
        ) == k
    &&& forall|i: int|
        0 <= i < verts.len() ==> map.contains_key(
            spot((#[trigger] verts[i]).ix as int, verts[i].iz as int),
        ) && map[spot(verts[i].ix as int, verts[i].iz as int)] == i
}

struct Builder {
    verts: Vec<LatticeVert>,
    map: HashMap<u64, u32>,
    indices: Vec<u32>,
}

impl Builder {
    spec fn wf(&self) -> bool {
        indexed(self.map@, self.verts@) && distinct_points(self.verts@) && self.verts.len()
            <= u32::MAX
    }

    /// The vertex at a point, made if there is none.
    fn vert(&mut self, ix: i32, iz: i32, step: i32) -> (at: u32)
        requires
            old(self).wf(),
            with_point(old(self).verts@, (ix as int, iz as int), step as int).len() <= u32::MAX,
        ensures
            final(self).wf(),
            final(self).verts@ == with_point(
                old(self).verts@,
                (ix as int, iz as int),
                step as int,
            ),
            final(self).indices@ == old(self).indices@,
            at < final(self).verts.len(),
            point(final(self).verts@[at as int]) == (ix as int, iz as int),
    {
        let key: u64 = pack_spot(ix, iz);
        let ghost was = self.verts@;
        if let Some(at) = self.map.get(&key) {
            proof {
                assert(point(was[*at as int]) == (ix as int, iz as int));
            }
            return *at;
        }
        proof {
            if has_point(was, (ix as int, iz as int)) {
                let i = choose|i: int|
                    0 <= i < was.len() && point(#[trigger] was[i]) == (ix as int, iz as int);
                assert(self.map@.contains_key(spot(was[i].ix as int, was[i].iz as int)));
            }
        }
        let at: u32 = self.verts.len() as u32;
        self.verts.push(LatticeVert { ix, iz, step });
        self.map.insert(key, at);
        proof {
            let now = self.verts@;
            assert forall|i: int| 0 <= i < now.len() implies self.map@.contains_key(
                spot((#[trigger] now[i]).ix as int, now[i].iz as int),
            ) && self.map@[spot(now[i].ix as int, now[i].iz as int)] == i by {
                if i < was.len() {
                    assert(now[i] == was[i]);
                    assert(point(was[i]) != (ix as int, iz as int));
                }
            }
        }
        at
    }

    /// Adds the triangles of one outline.
    fn emit(&mut self, points: &Vec<(i32, i32)>, step: i32)
        requires
            old(self).wf(),
            points.len() >= 3,
            points.len() <= 5,
            with_points(old(self).verts@, wide(points@), step as int).len() <= u32::MAX,
        ensures
            final(self).wf(),
            final(self).verts@ == with_points(old(self).verts@, wide(points@), step as int),
            forall|corners: Seq<Point>|
                depicts(old(self).verts@, old(self).indices@, corners) ==> #[trigger] depicts(
                    final(self).verts@,
                    final(self).indices@,
                    corners + fan(
                        wide(points@),
                        farthest(wide(points@)),
                        points.len() - 2,
                    ),
                ),
    {
        let ghost start = self.verts@;
        let ghost all = wide(points@);
        let n: usize = points.len();
        let mut peri: Vec<u32> = Vec::new();
        let mut k: usize = 0;
        while k < n
            invariant
                k <= n == points.len(),
                all == wide(points@),
                self.wf(),
                self.indices@ == old(self).indices@,
                self.verts@ == with_points(start, all.take(k as int), step as int),
                with_points(start, all, step as int).len() <= u32::MAX,
                peri.len() == k,
                forall|j: int|
                    0 <= j < k ==> (#[trigger] peri[j]) < self.verts.len() && point(
                        self.verts@[peri[j] as int],
                    ) == all[j],
            decreases n - k,
        {
            let (ix, iz) = points[k];
            let ghost was = self.verts@;
            proof {
                assert(all[k as int] == (ix as int, iz as int));
                assert(all.take(k as int + 1).drop_last() =~= all.take(k as int));
                assert(all.take(k as int + 1).last() == all[k as int]);
                with_points_grows(start, all, step as int, k as int + 1);
            }
            let at: u32 = self.vert(ix, iz, step);
            peri.push(at);
            proof {
                assert forall|j: int| 0 <= j < k + 1 implies (#[trigger] peri[j])
                    < self.verts.len() && point(self.verts@[peri[j] as int]) == all[j] by {
                    if j < k {
                        assert(self.verts@[peri[j] as int] == was[peri[j] as int]);
                    }
                }
            }
            k = k + 1;
        }
        proof {
            assert(all.take(n as int) =~= all);
            with_points_grows(start, all, step as int, 0);
            assert(all.take(0) =~= Seq::<Point>::empty());
        }
        let o: usize = farthest_point(points);
        let ghost before = self.indices@;
        let mut t: usize = 0;
        while t < n - 2
            invariant
                t <= n - 2,
                n == points.len() == peri.len(),
                3 <= n <= 5,
                all == wide(points@),
                o == farthest(all),
                o < n,
                self.wf(),
                self.verts@ == with_points(start, all, step as int),
                forall|j: int|
                    0 <= j < n ==> (#[trigger] peri[j]) < self.verts.len() && point(
                        self.verts@[peri[j] as int],
                    ) == all[j],
                self.indices.len() == before.len() + 3 * t,
                fan(all, o as int, t as int).len() == 3 * t,
                self.indices@.take(before.len() as int) == before,
                forall|m: int|
                    0 <= m < 3 * t ==> (#[trigger] self.indices@[before.len() + m])
                        < self.verts.len() && point(
                        self.verts@[self.indices@[before.len() + m] as int],
                    ) == fan(all, o as int, t as int)[m],
            decreases n - 2 - t,
        {
            let ghost was = self.indices@;
            let a: u32 = peri[o];
            let b: u32 = peri[(o + t + 1) % n];
            let c: u32 = peri[(o + t + 2) % n];
            self.indices.push(a);
            self.indices.push(b);
            self.indices.push(c);
            proof {
                let tri = fan_triangle(all, o as int, t as int);
                let next = fan(all, o as int, t as int + 1);
                assert(next =~= fan(all, o as int, t as int) + tri);
                assert(self.indices@.take(before.len() as int) =~= was.take(before.len() as int));
                assert forall|m: int| 0 <= m < 3 * (t + 1) implies (
                #[trigger] self.indices@[before.len() + m]) < self.verts.len() && point(
                    self.verts@[self.indices@[before.len() + m] as int],
                ) == next[m] by {
                    if m < 3 * t {
                        assert(self.indices@[before.len() + m] == was[before.len() + m]);
                    }
                }
            }
            t = t + 1;
        }
        proof {
            let fanned = fan(all, o as int, n - 2);
            assert forall|corners: Seq<Point>|
                depicts(old(self).verts@, old(self).indices@, corners) implies #[trigger] depicts(
                self.verts@,
                self.indices@,
                corners + fanned,
            ) by {
                let both = corners + fanned;
                assert forall|m: int| 0 <= m < self.indices.len() implies (
                #[trigger] self.indices@[m]) < self.verts.len() && point(
                    self.verts@[self.indices@[m] as int],
                ) == both[m] by {
                    if m < before.len() {
                        assert(self.indices@.take(before.len() as int)[m] == before[m]);
                        assert(before[m] < start.len());
                        assert(self.verts@[before[m] as int] == start[before[m] as int]);
                    } else {
                        assert(self.indices@[before.len() + (m - before.len())]
                            == self.indices@[m]);
                    }
                }
            }
        }
    }
}

/// Points as integers.
pub open spec fn wide(points: Seq<(i32, i32)>) -> Seq<Point> {
    points.map_values(|p: (i32, i32)| (p.0 as int, p.1 as int))
}

proof fn with_points_grows(verts: Seq<LatticeVert>, points: Seq<Point>, step: int, n: int)
    requires
        0 <= n <= points.len(),
    ensures
        with_points(verts, points.take(n), step).len() <= with_points(verts, points, step).len(),
        verts.len() <= with_points(verts, points, step).len(),
        forall|i: int|
            0 <= i < verts.len() ==> #[trigger] with_points(verts, points, step)[i] == verts[i],
    decreases points.len(),
{
    if n == points.len() {
        assert(points.take(n) =~= points);
    }
    if points.len() > 0 {
        let front = points.drop_last();
        if n < points.len() {
            with_points_grows(verts, front, step, n);
            assert(front.take(n) =~= points.take(n));
        } else {
            with_points_grows(verts, front, step, 0);
        }
    }
}

fn farthest_point(points: &Vec<(i32, i32)>) -> (o: usize)
    requires
        points.len() > 0,
    ensures
        o == farthest(wide(points@)),
        o < points.len(),
{
    let mut o: usize = 0;
    let mut best: u64 = squared(points[0]);
    let mut k: usize = 1;
    let ghost all = wide(points@);
    proof {
        assert(all.take(1).len() == 1);
    }
    while k < points.len()
        invariant
            1 <= k <= points.len(),
            all == wide(points@),
            o < k,
            o == farthest(all.take(k as int)),
            best == dist2(all[o as int]),
        decreases points.len() - k,
    {
        let d: u64 = squared(points[k]);
        proof {
            assert(all.take(k as int + 1).drop_last() =~= all.take(k as int));
        }
        if d > best {
            best = d;
            o = k;
        }
        k = k + 1;
    }
    proof {
        assert(all.take(all.len() as int) =~= all);
    }
    o
}

fn squared(p: (i32, i32)) -> (d: u64)
    ensures
        d == dist2((p.0 as int, p.1 as int)),
{
    let x: i64 = p.0 as i64;
    let z: i64 = p.1 as i64;
    proof {
        assert(0 <= x * x <= 0x4000_0000_0000_0000 && 0 <= z * z <= 0x4000_0000_0000_0000)
            by (nonlinear_arith)
            requires
                -0x8000_0000 <= x <= 0x7FFF_FFFF,
                -0x8000_0000 <= z <= 0x7FFF_FFFF,
        ;
    }
    (x * x) as u64 + (z * z) as u64
}

proof fn row_is_short(block: int, k: nat, j: int, n: nat)
    ensures
        row(block, k, j, n).len() <= n,
    decreases n,
{
    if n > 0 {
        row_is_short(block, k, j, (n - 1) as nat);
    }
}

proof fn rows_are_few(block: int, k: nat, n: nat)
    requires
        block > 0,
    ensures
        rows(block, k, n).len() <= n * (2 * block),
    decreases n,
{
    if n > 0 {
        rows_are_few(block, k, (n - 1) as nat);
        row_is_short(block, k, n - 1 - block, (2 * block) as nat);
        assert(n * (2 * block) == (n - 1) * (2 * block) + 2 * block) by (nonlinear_arith);
    }
}

proof fn cells_are_few(block: int, levels: nat)
    requires
        block > 0,
    ensures
        cells(block, levels).len() <= (levels + 1) * ((2 * block) * (2 * block)),
    decreases levels,
{
    let most = (2 * block) * (2 * block);
    rows_are_few(block, levels, (2 * block) as nat);
    assert((levels + 1) * most == levels * most + most) by (nonlinear_arith);
    if levels > 0 {
        cells_are_few(block, (levels - 1) as nat);
    } else {
        assert(levels * most == 0) by (nonlinear_arith)
            requires
                levels == 0,
        ;
    }
}

proof fn points_are_few(verts: Seq<LatticeVert>, points: Seq<Point>, step: int)
    ensures
        with_points(verts, points, step).len() <= verts.len() + points.len(),
    decreases points.len(),
{
    if points.len() > 0 {
        points_are_few(verts, points.drop_last(), step);
    }
}

proof fn vertices_are_few(block: int, cs: Seq<Cell>)
    ensures
        vertices(block, cs).len() <= 5 * cs.len(),
    decreases cs.len(),
{
    if cs.len() > 0 {
        vertices_are_few(block, cs.drop_last());
        points_are_few(
            vertices(block, cs.drop_last()),
            outline(block, cs.last()),
            pow2(cs.last().k) as int,
        );
    }
}

/// A small mesh fits its number types.
proof fn small_fits(block: int, levels: nat)
    requires
        0 < block <= 1024,
        levels <= 20,
    ensures
        block * pow2(levels) <= i32::MAX,
        vertices(block, cells(block, levels)).len() <= u32::MAX,
{
    cells_are_few(block, levels);
    vertices_are_few(block, cells(block, levels));
    vstd::arithmetic::power2::lemma2_to64();
    if levels < 20 {
        vstd::arithmetic::power2::lemma_pow2_strictly_increases(levels, 20);
    }
    let p = pow2(levels) as int;
    assert(block * p <= 1024 * 0x10_0000) by (nonlinear_arith)
        requires
            0 < block <= 1024,
            0 <= p <= 0x10_0000,
    ;
    let most = (2 * block) * (2 * block);
    assert(most <= 2048 * 2048) by (nonlinear_arith)
        requires
            most == (2 * block) * (2 * block),
            0 < block <= 1024,
    ;
    assert((levels + 1) * most <= 21 * (2048 * 2048)) by (nonlinear_arith)
        requires
            0 <= most <= 2048 * 2048,
            levels <= 20,
    ;
}

#[verifier::spinoff_prover]
#[verifier::rlimit(40)]
fn lay_mesh(block: i32, levels: u32) -> (mesh: ClipMesh)
    requires
        block % 2 == 0,
        levels <= 30,
        block > 0 ==> block * pow2(levels as nat) <= i32::MAX,
        block > 0 ==> vertices(block as int, cells(block as int, levels as nat)).len() <= u32::MAX,
    ensures
        block <= 0 ==> mesh.verts.len() == 0 && mesh.indices.len() == 0,
        block > 0 ==> mesh.verts@ == vertices(block as int, cells(block as int, levels as nat)),
        block > 0 ==> depicts(
            mesh.verts@,
            mesh.indices@,
            triangles(block as int, cells(block as int, levels as nat)),
        ),
{
    let mut b = Builder { verts: Vec::new(), map: HashMap::new(), indices: Vec::new() };
    if block <= 0 {
        return ClipMesh { verts: b.verts, indices: b.indices };
    }
    let ghost bl = block as int;
    let ghost all = cells(bl, levels as nat);
    let mut k: u32 = 0;
    let mut step: i32 = 1;
    let mut half: i32 = 0;
    let ghost mut laid: Seq<Cell> = Seq::empty();
    proof {
        vstd::arithmetic::power2::lemma2_to64();
        assert(depicts(b.verts@, b.indices@, triangles(bl, laid)));
    }
    while k <= levels
        invariant
            block > 0,
            block % 2 == 0,
            bl == block,
            levels <= 30,
            k <= levels + 1,
            block * pow2(levels as nat) <= i32::MAX,
            k <= levels ==> step == pow2(k as nat),
            0 < k <= levels ==> half == pow2((k - 1) as nat),
            all == cells(bl, levels as nat),
            laid == (if k == 0 {
                Seq::<Cell>::empty()
            } else {
                cells(bl, (k - 1) as nat)
            }),
            vertices(bl, all).len() <= u32::MAX,
            b.wf(),
            b.verts@ == vertices(bl, laid),
            depicts(b.verts@, b.indices@, triangles(bl, laid)),
        decreases levels + 1 - k,
    {
        proof {
            vstd::arithmetic::power2::lemma_pow2_pos(k as nat);
            if k < levels {
                vstd::arithmetic::power2::lemma_pow2_strictly_increases(k as nat, levels as nat);
            }
            assert(block * pow2(k as nat) <= block * pow2(levels as nat)) by (nonlinear_arith)
                requires
                    block > 0,
                    pow2(k as nat) <= pow2(levels as nat),
            ;
        }
        let ghost whole = rows(bl, k as nat, (2 * bl) as nat);
        let mut j: i32 = -block;
        proof {
            assert(laid + rows(bl, k as nat, 0) =~= laid);
            cells_grow(bl, levels as nat, k as nat);
        }
        while j < block
            invariant
                block > 0,
                block % 2 == 0,
                bl == block,
                -block <= j <= block,
                k <= levels <= 30,
                step == pow2(k as nat),
                step > 0,
                k > 0 ==> half == pow2((k - 1) as nat),
                block * step <= i32::MAX,
                all == cells(bl, levels as nat),
                vertices(bl, all).len() <= u32::MAX,
                whole == rows(bl, k as nat, (2 * bl) as nat),
                (laid + whole).len() <= all.len(),
                all.take((laid + whole).len() as int) == laid + whole,
                b.wf(),
                b.verts@ == vertices(bl, laid + rows(bl, k as nat, (j + bl) as nat)),
                depicts(
                    b.verts@,
                    b.indices@,
                    triangles(bl, laid + rows(bl, k as nat, (j + bl) as nat)),
                ),
            decreases block - j,
        {
            let ghost above = laid + rows(bl, k as nat, (j + bl) as nat);
            let ghost line = row(bl, k as nat, j as int, (2 * bl) as nat);
            proof {
                rows_grow(bl, k as nat, (j + bl + 1) as nat, (2 * bl) as nat);
                assert(above + row(bl, k as nat, j as int, 0) =~= above);
                assert(above + line =~= laid + rows(bl, k as nat, (j + bl + 1) as nat));
            }
            let mut i: i32 = -block;
            while i < block
                invariant
                    block > 0,
                    block % 2 == 0,
                    bl == block,
                    -block <= j < block,
                    -block <= i <= block,
                    k <= levels <= 30,
                    step == pow2(k as nat),
                    step > 0,
                    k > 0 ==> half == pow2((k - 1) as nat),
                    block * step <= i32::MAX,
                    all == cells(bl, levels as nat),
                    vertices(bl, all).len() <= u32::MAX,
                    line == row(bl, k as nat, j as int, (2 * bl) as nat),
                    (above + line).len() <= all.len(),
                    all.take((above + line).len() as int) == above + line,
                    b.wf(),
                    b.verts@ == vertices(
                        bl,
                        above + row(bl, k as nat, j as int, (i + bl) as nat),
                    ),
                    depicts(
                        b.verts@,
                        b.indices@,
                        triangles(bl, above + row(bl, k as nat, j as int, (i + bl) as nat)),
                    ),
                decreases block - i,
            {
                let ghost c = Cell { k: k as nat, i: i as int, j: j as int };
                let h: i32 = block / 2;
                let x_in: bool = i >= -h && i < h;
                let z_in: bool = j >= -h && j < h;
                let ghost prior = above + row(bl, k as nat, j as int, (i + bl) as nat);
                let ghost next = above + row(bl, k as nat, j as int, (i + bl + 1) as nat);
                proof {
                    row_grows(bl, k as nat, j as int, (i + bl + 1) as nat, (2 * bl) as nat);
                }
                if k > 0 && x_in && z_in {
                    proof {
                        assert(in_hole(bl, c));
                        assert(next == prior);
                    }
                    i = i + 1;
                    continue ;
                }
                proof {
                    assert(next =~= prior.push(c));
                    assert(next.drop_last() =~= prior);
                    assert(next =~= all.take(next.len() as int));
                    vertices_grow(bl, all, next.len() as int);
                    scaled(block as int, i as int, step as int);
                    scaled(block as int, j as int, step as int);
                    if k > 0 {
                        vstd::arithmetic::power2::lemma_pow2_unfold(k as nat);
                    }
                }
                let x: i32 = i * step;
                let z: i32 = j * step;
                let mut points: Vec<(i32, i32)> = Vec::new();
                points.push((x, z));
                if k > 0 && j == h && x_in {
                    points.push((x + half, z));
                }
                points.push((x + step, z));
                if k > 0 && i + 1 == -h && z_in {
                    points.push((x + step, z + half));
                }
                points.push((x + step, z + step));
                if k > 0 && j + 1 == -h && x_in {
                    points.push((x + half, z + step));
                }
                points.push((x, z + step));
                if k > 0 && i == h && z_in {
                    points.push((x, z + half));
                }
                proof {
                    assert(wide(points@) =~= outline(bl, c));
                }
                b.emit(&points, step);
                proof {
                    assert(next.last() == c);
                    assert(triangles(bl, next) == triangles(bl, prior) + cell_triangles(bl, c));
                    assert(depicts(
                        b.verts@,
                        b.indices@,
                        triangles(bl, prior) + cell_triangles(bl, c),
                    ));
                    assert(depicts(b.verts@, b.indices@, triangles(bl, next)));
                }
                i = i + 1;
            }
            j = j + 1;
        }
        proof {
            assert(laid + whole =~= cells(bl, k as nat));
            laid = cells(bl, k as nat);
        }
        if k < levels {
            half = step;
            proof {
                vstd::arithmetic::power2::lemma_pow2_unfold((k + 1) as nat);
                vstd::arithmetic::power2::lemma_pow2_strictly_increases((k + 1) as nat, 31);
                vstd::arithmetic::power2::lemma2_to64();
            }
            step = step * 2;
        }
        k = k + 1;
    }
    ClipMesh { verts: b.verts, indices: b.indices }
}

proof fn scaled(block: int, i: int, step: int)
    requires
        block > 0,
        -block <= i < block,
        step > 0,
        block * step <= i32::MAX,
    ensures
        -i32::MAX <= i * step,
        i * step + step <= i32::MAX,
{
    assert(-(block * step) <= i * step && i * step + step <= block * step) by (nonlinear_arith)
        requires
            -block <= i,
            i + 1 <= block,
            step > 0,
    ;
}

proof fn row_grows(block: int, k: nat, j: int, n: nat, m: nat)
    requires
        n <= m,
    ensures
        row(block, k, j, n).len() <= row(block, k, j, m).len(),
        row(block, k, j, m).take(row(block, k, j, n).len() as int) == row(block, k, j, n),
    decreases m,
{
    if n == m {
        assert(row(block, k, j, m).take(row(block, k, j, n).len() as int) =~= row(
            block,
            k,
            j,
            n,
        ));
    } else {
        row_grows(block, k, j, n, (m - 1) as nat);
        assert(row(block, k, j, m).take(row(block, k, j, n).len() as int) =~= row(
            block,
            k,
            j,
            (m - 1) as nat,
        ).take(row(block, k, j, n).len() as int));
    }
}

proof fn rows_grow(block: int, k: nat, n: nat, m: nat)
    requires
        n <= m,
    ensures
        rows(block, k, n).len() <= rows(block, k, m).len(),
        rows(block, k, m).take(rows(block, k, n).len() as int) == rows(block, k, n),
    decreases m,
{
    if n == m {
        assert(rows(block, k, m).take(rows(block, k, n).len() as int) =~= rows(block, k, n));
    } else {
        rows_grow(block, k, n, (m - 1) as nat);
        assert(rows(block, k, m).take(rows(block, k, n).len() as int) =~= rows(
            block,
            k,
            (m - 1) as nat,
        ).take(rows(block, k, n).len() as int));
    }
}

pub(crate) proof fn cells_grow(block: int, levels: nat, k: nat)
    requires
        k <= levels,
    ensures
        cells(block, k).len() <= cells(block, levels).len(),
        cells(block, levels).take(cells(block, k).len() as int) == cells(block, k),
    decreases levels,
{
    if k == levels {
        assert(cells(block, levels).take(cells(block, k).len() as int) =~= cells(block, k));
    } else {
        cells_grow(block, (levels - 1) as nat, k);
        assert(cells(block, levels).take(cells(block, k).len() as int) =~= cells(
            block,
            (levels - 1) as nat,
        ).take(cells(block, k).len() as int));
    }
}

proof fn vertices_grow(block: int, all: Seq<Cell>, n: int)
    requires
        0 <= n <= all.len(),
    ensures
        vertices(block, all.take(n)).len() <= vertices(block, all).len(),
    decreases all.len(),
{
    if n == all.len() {
        assert(all.take(n) =~= all);
    } else {
        let front = all.drop_last();
        vertices_grow(block, front, n);
        assert(front.take(n) =~= all.take(n));
        with_points_grows(
            vertices(block, front),
            outline(block, all.last()),
            pow2(all.last().k) as int,
            0,
        );
    }
}

/// The mesh of a centre block of `2 block` by `2 block` cells and `levels` rings around it.
/// Lattice points are in cells of the finest size.
pub fn clipmap_mesh(block: i32, levels: u32) -> (mesh: ClipMesh)
    requires
        block % 2 == 0,
        levels <= 30,
        block > 0 ==> (block <= 1024 && levels <= 20) || (block * pow2(levels as nat) <= i32::MAX
            && vertices(block as int, cells(block as int, levels as nat)).len() <= u32::MAX),
    ensures
        block <= 0 ==> mesh.verts.len() == 0 && mesh.indices.len() == 0,
        block > 0 ==> mesh.verts@ == vertices(block as int, cells(block as int, levels as nat)),
        block > 0 ==> depicts(
            mesh.verts@,
            mesh.indices@,
            triangles(block as int, cells(block as int, levels as nat)),
        ),
        block > 0 ==> forall|i: int|
            0 <= i < mesh.verts.len() ==> notes_its_ring(block as int, #[trigger] mesh.verts@[i]),
{
    proof {
        if 0 < block <= 1024 && levels <= 20 {
            small_fits(block as int, levels as nat);
        }
        if block > 0 {
            all_note_their_ring(block as int, levels as nat);
        }
    }
    lay_mesh(block, levels)
}

} // verus!
