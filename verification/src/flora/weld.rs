//! Many copies of one mesh as a single mesh.
use vstd::arithmetic::div_mod::{
    lemma_div_pos_is_pos, lemma_fundamental_div_mod, lemma_fundamental_div_mod_converse,
    lemma_mod_bound,
};
use vstd::prelude::*;

verus! {

/// `out` holds `copies` copies of a mesh with `vertices` vertices, one after the other.
pub open spec fn welded(vertices: int, indices: Seq<u32>, copies: int, out: Seq<u32>) -> bool {
    &&& out.len() == indices.len() * copies
    &&& forall|c: int, e: int|
        #![trigger out[c * indices.len() + e]]
        0 <= c < copies && 0 <= e < indices.len() ==> out[c * indices.len() + e] == c * vertices
            + indices[e]
}

/// The triangles of `copies` copies of a mesh with `vertices` vertices: copy by copy, each
/// over its own vertices.
pub fn weld_indices(vertices: u32, indices: &Vec<u32>, copies: u32) -> (out: Vec<u32>)
    requires
        indices.len() * copies <= usize::MAX,
        forall|e: int|
            0 <= e < indices.len() && copies > 0 ==> (copies - 1) * vertices + (
            #[trigger] indices[e]) <= u32::MAX,
    ensures
        welded(vertices as int, indices@, copies as int, out@),
        (forall|e: int| 0 <= e < indices.len() ==> (#[trigger] indices[e]) < vertices) ==> forall|
            n: int,
        |
            0 <= n < out.len() ==> (#[trigger] out[n]) < vertices * copies,
{
    let ghost within = forall|e: int|
        0 <= e < indices.len() ==> (#[trigger] indices[e]) < vertices;
    let len: usize = indices.len();
    let mut out: Vec<u32> = Vec::new();
    if len == 0 {
        proof {
            assert(0 * copies == 0) by (nonlinear_arith);
        }
        return out;
    }
    let mut c: u32 = 0;
    let mut base: u32 = 0;
    while c < copies
        invariant
            c <= copies,
            0 < len == indices.len(),
            c < copies ==> base == c * vertices,
            within ==> forall|e: int|
                0 <= e < indices.len() ==> (#[trigger] indices[e]) < vertices,
            forall|e: int|
                0 <= e < indices.len() && copies > 0 ==> (copies - 1) * vertices + (
                #[trigger] indices[e]) <= u32::MAX,
            out.len() == len * c,
            forall|x: int, e: int|
                #![trigger out[x * len + e]]
                0 <= x < c && 0 <= e < len ==> out[x * len + e] == x * vertices + indices[e],
            within ==> forall|n: int|
                0 <= n < out.len() ==> (#[trigger] out[n]) < vertices * copies,
        decreases copies - c,
    {
        proof {
            assert(indices[0] >= 0);
            assert((c + 1) * vertices == c * vertices + vertices) by (nonlinear_arith);
            assert((c + 1) * vertices <= vertices * copies) by (nonlinear_arith)
                requires
                    c + 1 <= copies,
            ;
            assert(c * vertices <= (copies - 1) * vertices) by (nonlinear_arith)
                requires
                    c <= copies - 1,
            ;
            assert(len * (c + 1) == len * c + len) by (nonlinear_arith);
            assert(len * c == c * len) by (nonlinear_arith);
        }
        let mut e: usize = 0;
        while e < len
            invariant
                e <= len,
                c < copies,
                len == indices.len(),
                base == c * vertices,
                base + vertices <= vertices * copies,
                len * c == c * len,
                within ==> forall|e: int|
                    0 <= e < indices.len() ==> (#[trigger] indices[e]) < vertices,
                forall|e: int|
                    0 <= e < indices.len() ==> base + (#[trigger] indices[e]) <= u32::MAX,
                out.len() == c * len + e,
                forall|x: int, y: int|
                    #![trigger out[x * len + y]]
                    0 <= x <= c && 0 <= y < len && (x < c || y < e) ==> out[x * len + y] == x
                        * vertices + indices[y],
                within ==> forall|n: int|
                    0 <= n < out.len() ==> (#[trigger] out[n]) < vertices * copies,
            decreases len - e,
        {
            let ghost was = out@;
            out.push(base + indices[e]);
            proof {
                assert forall|x: int, y: int|
                    #![trigger out@[x * len + y]]
                    0 <= x <= c && 0 <= y < len && (x < c || y < e + 1) implies out@[x * len + y]
                    == x * vertices + indices[y] by {
                    if x < c {
                        assert(x * len + len <= c * len) by (nonlinear_arith)
                            requires
                                x + 1 <= c,
                                len >= 0,
                        ;
                    }
                    assert(0 <= x * len) by (nonlinear_arith)
                        requires
                            0 <= x,
                            len >= 0,
                    ;
                    if x < c || y < e {
                        assert(was[x * len + y] == x * vertices + indices[y]);
                    }
                }
            }
            e = e + 1;
        }
        c = c + 1;
        if c < copies {
            proof {
                assert(c * vertices <= (copies - 1) * vertices) by (nonlinear_arith)
                    requires
                        c <= copies - 1,
                ;
            }
            base = base + vertices;
        }
    }
    out
}

/// No two copies of a mesh share a vertex.
pub proof fn copies_share_no_vertex(vertices: int, a: int, b: int, i: int, j: int)
    requires
        0 <= a,
        0 <= b,
        a != b,
        0 <= i < vertices,
        0 <= j < vertices,
    ensures
        a * vertices + i != b * vertices + j,
{
    if a < b {
        assert(a * vertices + i < b * vertices + j) by (nonlinear_arith)
            requires
                a + 1 <= b,
                0 <= i < vertices,
                0 <= j,
        ;
    } else {
        assert(b * vertices + j < a * vertices + i) by (nonlinear_arith)
            requires
                b + 1 <= a,
                0 <= j < vertices,
                0 <= i,
        ;
    }
}

/// The corners of triangle `t`.
pub open spec fn triangle(indices: Seq<u32>, t: int) -> (int, int, int) {
    (indices[3 * t] as int, indices[3 * t + 1] as int, indices[3 * t + 2] as int)
}

/// The corners of triangle `t` over the vertices of copy `c`.
pub open spec fn moved(indices: Seq<u32>, t: int, c: int, vertices: int) -> (int, int, int) {
    let f = triangle(indices, t);
    (c * vertices + f.0, c * vertices + f.1, c * vertices + f.2)
}

/// Welding loses no triangle: triangle `t` of copy `c` comes out at place `c * per + t`, where
/// `per` is how many triangles the mesh has.
pub proof fn welding_loses_nothing(
    vertices: int,
    indices: Seq<u32>,
    copies: int,
    out: Seq<u32>,
    per: int,
    c: int,
    t: int,
)
    requires
        indices.len() == 3 * per,
        welded(vertices, indices, copies, out),
        0 <= c < copies,
        0 <= t < per,
    ensures
        out.len() == 3 * (copies * per),
        0 <= c * per + t < copies * per,
        triangle(out, c * per + t) == moved(indices, t, c, vertices),
{
    assert((3 * per) * copies == 3 * (copies * per)) by (nonlinear_arith);
    assert(c * (3 * per) == 3 * (c * per)) by (nonlinear_arith);
    assert(0 <= c * per && c * per + per <= copies * per) by (nonlinear_arith)
        requires
            0 <= c,
            c + 1 <= copies,
            0 <= per,
    ;
    assert(out[c * indices.len() + 3 * t] == c * vertices + indices[3 * t]);
    assert(out[c * indices.len() + (3 * t + 1)] == c * vertices + indices[3 * t + 1]);
    assert(out[c * indices.len() + (3 * t + 2)] == c * vertices + indices[3 * t + 2]);
}

/// Welding adds no triangle: there are as many as all copies have together, and the one at place
/// `n` is a triangle of a copy, at its place.
pub proof fn welding_adds_nothing(
    vertices: int,
    indices: Seq<u32>,
    copies: int,
    out: Seq<u32>,
    per: int,
    n: int,
) -> (from: (int, int))
    requires
        indices.len() == 3 * per,
        welded(vertices, indices, copies, out),
        0 <= copies,
        0 <= n < copies * per,
    ensures
        out.len() == 3 * (copies * per),
        0 <= from.0 < copies,
        0 <= from.1 < per,
        triangle(out, n) == moved(indices, from.1, from.0, vertices),
        n == from.0 * per + from.1,
{
    assert(per > 0) by (nonlinear_arith)
        requires
            0 <= copies,
            0 < copies * per || per > 0,
            indices.len() == 3 * per,
            0 <= indices.len(),
    ;
    lemma_fundamental_div_mod(n, per);
    lemma_mod_bound(n, per);
    lemma_div_pos_is_pos(n, per);
    let c = n / per;
    let t = n % per;
    assert(c < copies) by (nonlinear_arith)
        requires
            per * c <= n,
            n < copies * per,
            per > 0,
    ;
    assert(per * c == c * per) by (nonlinear_arith);
    welding_loses_nothing(vertices, indices, copies, out, per, c, t);
    (c, t)
}

/// Each triangle of each copy has a place of its own, so it comes out once.
pub proof fn welded_places_differ(per: int, a: (int, int), b: (int, int))
    requires
        0 <= a.1 < per,
        0 <= b.1 < per,
        a.0 * per + a.1 == b.0 * per + b.1,
    ensures
        a == b,
{
    lemma_fundamental_div_mod_converse(a.0 * per + a.1, per, a.0, a.1);
    lemma_fundamental_div_mod_converse(a.0 * per + a.1, per, b.0, b.1);
}

} // verus!
