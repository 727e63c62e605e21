//! Debug views of clusters: colours by id, and what an export of them holds.
use vstd::arithmetic::div_mod::{lemma_mul_mod_noop_left, lemma_mul_mod_noop_right, lemma_small_mod};
use vstd::prelude::*;

use crate::text::{decimal, push_decimal};

verus! {

/// What the colour of an exported piece stands for.
#[derive(Clone, Copy, Debug, PartialEq, Eq, Structural)]
pub enum ColorMode {
    /// A colour for each triangle.
    Triangle,
    /// A colour for each cluster.
    Cluster,
    /// A colour for each level of detail.
    Lod,
}

/// An id with its bits mixed.
pub open spec fn id_bits(id: u32) -> u32 {
    let a = id.wrapping_mul(0x9E37_79B1);
    let b = (a ^ (a >> 16)).wrapping_mul(0x85EB_CA77);
    b ^ (b >> 13)
}

/// The colour of an id: hue in tenths of a degree, and the steps of saturation and value
/// above their least, of 255 each.
pub fn id_hsv(id: u32) -> (hsv: (u32, u32, u32))
    ensures
        hsv.0 == id_bits(id) % 3600,
        hsv.1 == (id_bits(id) / 0x100) % 0x100,
        hsv.2 == (id_bits(id) / 0x1_0000) % 0x100,
{
    let mut h: u32 = id.wrapping_mul(0x9E37_79B1);
    h = h ^ (h >> 16);
    h = h.wrapping_mul(0x85EB_CA77);
    h = h ^ (h >> 13);
    proof {
        assert((h >> 8) & 0xFF == (h / 0x100) % 0x100 && (h >> 16) & 0xFF == (h / 0x1_0000) % 0x100)
            by (bit_vector);
    }
    (h % 3600, (h >> 8) & 0xFF, (h >> 16) & 0xFF)
}

/// Two numbers mixed into one.
pub open spec fn mixed(a: u32, b: u32) -> u32 {
    let h = a.wrapping_mul(0x9E37_79B1) ^ b.wrapping_mul(0x85EB_CA77);
    h ^ (h >> 15)
}

/// Mixes two numbers into one.
pub fn mix2(a: u32, b: u32) -> (h: u32)
    ensures
        h == mixed(a, b),
{
    let h: u32 = a.wrapping_mul(0x9E37_79B1) ^ b.wrapping_mul(0x85EB_CA77);
    h ^ (h >> 15)
}

/// In words of 32 bits an odd factor can be divided out again: `back` is its inverse.
proof fn factor_comes_out(x: u32, y: u32, factor: u32, back: u32)
    requires
        factor * back % 0x1_0000_0000 == 1,
        x.wrapping_mul(factor) == y.wrapping_mul(factor),
    ensures
        x == y,
{
    comes_back(x, factor, back);
    comes_back(y, factor, back);
}

proof fn comes_back(x: u32, factor: u32, back: u32)
    requires
        factor * back % 0x1_0000_0000 == 1,
    ensures
        x.wrapping_mul(factor) as int * back % 0x1_0000_0000 == x,
{
    let m = 0x1_0000_0000int;
    let (a, f, b) = (x as int, factor as int, back as int);
    assert(x.wrapping_mul(factor) == a * f % m);
    lemma_mul_mod_noop_left(a * f, b, m);
    assert((a * f) * b == a * (f * b)) by (nonlinear_arith);
    lemma_mul_mod_noop_right(a, f * b, m);
    assert(a * 1 == a);
    lemma_small_mod(x as nat, m as nat);
}

/// No two ids have the same bits, so what is told apart by id can be told apart by colour.
pub proof fn ids_have_bits_of_their_own(x: u32, y: u32)
    requires
        id_bits(x) == id_bits(y),
    ensures
        x == y,
{
    let a = x.wrapping_mul(0x9E37_79B1);
    let b = y.wrapping_mul(0x9E37_79B1);
    let a1 = a ^ (a >> 16);
    let b1 = b ^ (b >> 16);
    let a2 = a1.wrapping_mul(0x85EB_CA77);
    let b2 = b1.wrapping_mul(0x85EB_CA77);
    assert(a2 ^ (a2 >> 13) == b2 ^ (b2 >> 13) ==> a2 == b2) by (bit_vector);
    factor_comes_out(a1, b1, 0x85EB_CA77, 0xB6C92F47);
    assert(a ^ (a >> 16) == b ^ (b >> 16) ==> a == b) by (bit_vector);
    factor_comes_out(x, y, 0x9E37_79B1, 0x0E8B2F51);
}

/// Mixing tells apart the triangles of a cluster, and the triangles of one place in different
/// clusters.
pub proof fn mixing_tells_apart(a: u32, b: u32, c: u32)
    ensures
        mixed(a, b) == mixed(a, c) ==> b == c,
        mixed(b, a) == mixed(c, a) ==> b == c,
{
    let p = a.wrapping_mul(0x9E37_79B1);
    let q = b.wrapping_mul(0x85EB_CA77);
    let t = c.wrapping_mul(0x85EB_CA77);
    assert((p ^ q) ^ ((p ^ q) >> 15) == (p ^ t) ^ ((p ^ t) >> 15) ==> q == t) by (bit_vector);
    if mixed(a, b) == mixed(a, c) {
        factor_comes_out(b, c, 0x85EB_CA77, 0xB6C92F47);
    }
    let u = a.wrapping_mul(0x85EB_CA77);
    let v = b.wrapping_mul(0x9E37_79B1);
    let w = c.wrapping_mul(0x9E37_79B1);
    assert((v ^ u) ^ ((v ^ u) >> 15) == (w ^ u) ^ ((w ^ u) >> 15) ==> v == w) by (bit_vector);
    if mixed(b, a) == mixed(c, a) {
        factor_comes_out(b, c, 0x9E37_79B1, 0x0E8B2F51);
    }
}

/// Some colours and mixtures as numbers.
pub proof fn known_bits()
    ensures
        id_bits(1) == 0xCEA82E38,
        id_bits(2) == 0xD2E321B9,
        id_bits(5) == 0x204D3FC1,
        mixed(1, 0) == 0x9E3645DF,
        mixed(0, 1) == 0x85EAC1A0,
        mixed(2, 3) == 0xADACF75C,
{
    assert(0x9E3779B1u32 ^ (0x9E3779B1u32 >> 16) == 0x9E37E786u32 && 0xCEAE5B4Au32 ^ (0xCEAE5B4Au32 >> 13) == 0xCEA82E38u32)
        by (bit_vector);
    assert(0x3C6EF362u32 ^ (0x3C6EF362u32 >> 16) == 0x3C6ECF0Cu32 && 0xD2E5B694u32 ^ (0xD2E5B694u32 >> 13) == 0xD2E321B9u32)
        by (bit_vector);
    assert(0x17156075u32 ^ (0x17156075u32 >> 16) == 0x17157760u32 && 0x204C3DA0u32 ^ (0x204C3DA0u32 >> 13) == 0x204D3FC1u32)
        by (bit_vector);
    assert(0x9E3779B1u32 ^ 0x00000000u32 == 0x9E3779B1u32 && 0x9E3779B1u32 ^ (0x9E3779B1u32 >> 15) == 0x9E3645DFu32)
        by (bit_vector);
    assert(0x00000000u32 ^ 0x85EBCA77u32 == 0x85EBCA77u32 && 0x85EBCA77u32 ^ (0x85EBCA77u32 >> 15) == 0x85EAC1A0u32)
        by (bit_vector);
    assert(0x3C6EF362u32 ^ 0x91C35F65u32 == 0xADADAC07u32 && 0xADADAC07u32 ^ (0xADADAC07u32 >> 15) == 0xADACF75Cu32)
        by (bit_vector);
}

/// What an export reads of a cluster: its level, its number of vertices, its triangles.
pub struct ClusterShape {
    pub lod: u8,
    pub verts: u32,
    pub triangles: Vec<(u32, u32, u32)>,
}

/// A vertex of an export: the cluster and the vertex there, and the id of its colour.
#[derive(Clone, Copy, Debug, PartialEq, Eq, Structural)]
pub struct PlyVert {
    pub cluster: u32,
    pub vert: u32,
    pub color_id: u32,
}

/// An export: vertices, and faces as triples of places among them.
pub struct PlyLayout {
    pub verts: Vec<PlyVert>,
    pub faces: Vec<(u32, u32, u32)>,
}

/// The vertices of the first `n` triangles of cluster `gi`, three for each.
pub open spec fn triangle_verts(gi: int, triangles: Seq<(u32, u32, u32)>, n: int) -> Seq<PlyVert>
    decreases n,
{
    if n <= 0 {
        Seq::empty()
    } else {
        let t = triangles[n - 1];
        let color_id = mixed(gi as u32, (n - 1) as u32);
        triangle_verts(gi, triangles, n - 1) + seq![
            PlyVert { cluster: gi as u32, vert: t.0, color_id },
            PlyVert { cluster: gi as u32, vert: t.1, color_id },
            PlyVert { cluster: gi as u32, vert: t.2, color_id },
        ]
    }
}

/// The colour of a whole cluster.
pub open spec fn cluster_color(gi: int, lod: u8, mode: ColorMode) -> u32 {
    if mode is Cluster {
        gi as u32
    } else {
        (lod + 1) as u32
    }
}

/// The vertices that cluster `gi` adds to an export.
pub open spec fn cluster_verts(gi: int, c: ClusterShape, mode: ColorMode) -> Seq<PlyVert> {
    if mode is Triangle {
        triangle_verts(gi, c.triangles@, c.triangles.len() as int)
    } else {
        Seq::new(
            c.verts as nat,
            |v: int|
                PlyVert {
                    cluster: gi as u32,
                    vert: v as u32,
                    color_id: cluster_color(gi, c.lod, mode),
                },
        )
    }
}

/// The faces that a cluster adds to an export that had `base` vertices: by triangle each has
/// vertices of its own, else they share the cluster's.
pub open spec fn cluster_faces(base: int, c: ClusterShape, mode: ColorMode) -> Seq<
    (int, int, int),
> {
    if mode is Triangle {
        Seq::new(
            c.triangles.len() as nat,
            |t: int| (base + 3 * t, base + 3 * t + 1, base + 3 * t + 2),
        )
    } else {
        Seq::new(
            c.triangles.len() as nat,
            |t: int| (base + c.triangles[t].0, base + c.triangles[t].1, base + c.triangles[t].2),
        )
    }
}

/// The cluster is of the level asked for, or none was.
pub open spec fn selected(c: ClusterShape, lod: Option<u8>) -> bool {
    match lod {
        Some(l) => c.lod == l,
        None => true,
    }
}

/// The vertices of an export of the first `n` clusters.
pub open spec fn ply_verts(cs: Seq<ClusterShape>, lod: Option<u8>, mode: ColorMode, n: int) -> Seq<
    PlyVert,
>
    decreases n,
{
    if n <= 0 {
        Seq::empty()
    } else if selected(cs[n - 1], lod) {
        ply_verts(cs, lod, mode, n - 1) + cluster_verts(n - 1, cs[n - 1], mode)
    } else {
        ply_verts(cs, lod, mode, n - 1)
    }
}

/// The faces of an export of the first `n` clusters.
pub open spec fn ply_faces(cs: Seq<ClusterShape>, lod: Option<u8>, mode: ColorMode, n: int) -> Seq<
    (int, int, int),
>
    decreases n,
{
    if n <= 0 {
        Seq::empty()
    } else if selected(cs[n - 1], lod) {
        ply_faces(cs, lod, mode, n - 1) + cluster_faces(
            ply_verts(cs, lod, mode, n - 1).len() as int,
            cs[n - 1],
            mode,
        )
    } else {
        ply_faces(cs, lod, mode, n - 1)
    }
}

/// Faces as integers.
pub open spec fn wide_faces(faces: Seq<(u32, u32, u32)>) -> Seq<(int, int, int)> {
    faces.map_values(|f: (u32, u32, u32)| (f.0 as int, f.1 as int, f.2 as int))
}

/// The triangles of the first `n` clusters that are of the level asked for.
pub open spec fn selected_triangles(cs: Seq<ClusterShape>, lod: Option<u8>, n: int) -> nat
    decreases n,
{
    if n <= 0 {
        0
    } else if selected(cs[n - 1], lod) {
        selected_triangles(cs, lod, n - 1) + cs[n - 1].triangles@.len()
    } else {
        selected_triangles(cs, lod, n - 1)
    }
}

proof fn triangle_verts_len(gi: int, triangles: Seq<(u32, u32, u32)>, n: int)
    requires
        n >= 0,
    ensures
        triangle_verts(gi, triangles, n).len() == 3 * n,
    decreases n,
{
    if n > 0 {
        triangle_verts_len(gi, triangles, n - 1);
    }
}

/// An export has a face for each triangle of the level asked for; by triangle it has three
/// vertices for each face.
pub proof fn export_counts(cs: Seq<ClusterShape>, lod: Option<u8>, mode: ColorMode, n: int)
    requires
        0 <= n <= cs.len(),
    ensures
        ply_faces(cs, lod, mode, n).len() == selected_triangles(cs, lod, n),
        mode is Triangle ==> ply_verts(cs, lod, mode, n).len() == 3 * selected_triangles(
            cs,
            lod,
            n,
        ),
    decreases n,
{
    if n > 0 {
        export_counts(cs, lod, mode, n - 1);
        triangle_verts_len(n - 1, cs[n - 1].triangles@, cs[n - 1].triangles.len() as int);
    }
}

proof fn verts_grow(cs: Seq<ClusterShape>, lod: Option<u8>, mode: ColorMode, n: int)
    requires
        0 <= n <= cs.len(),
    ensures
        ply_verts(cs, lod, mode, n).len() <= ply_verts(cs, lod, mode, cs.len() as int).len(),
    decreases cs.len() - n,
{
    if n < cs.len() {
        verts_grow(cs, lod, mode, n + 1);
    }
}

/// The triangles of those of the first `n` clusters that are of the level asked for, if one is.
pub open spec fn asked_triangles(cs: Seq<ClusterShape>, lod: Option<u8>, n: int) -> int
    decreases n,
{
    if n <= 0 {
        0
    } else if lod is None || lod == Some(cs[n - 1].lod) {
        asked_triangles(cs, lod, n - 1) + cs[n - 1].triangles@.len()
    } else {
        asked_triangles(cs, lod, n - 1)
    }
}

/// The exported vertex at place `at` is vertex `v` of cluster `gi`.
pub open spec fn is_vertex(verts: Seq<PlyVert>, at: int, gi: int, v: u32) -> bool {
    0 <= at < verts.len() && verts[at].cluster == gi && verts[at].vert == v
}

/// The colour of an exported vertex tells the cluster, or one more than the level, or else it is
/// that of triangle `t`.
pub open spec fn is_coloured(v: PlyVert, gi: int, lod: u8, t: int, mode: ColorMode) -> bool {
    match mode {
        ColorMode::Cluster => v.color_id == gi,
        ColorMode::Lod => v.color_id == lod + 1,
        ColorMode::Triangle => v.color_id == mixed(gi as u32, t as u32),
    }
}

/// An export shows the clusters' own triangles: the face that stands for triangle `t` of cluster
/// `gi`, after those of all triangles asked for before it, leads to the three corners of that
/// triangle, in order, and they have its colour.
pub open spec fn shows(
    verts: Seq<PlyVert>,
    faces: Seq<(int, int, int)>,
    cs: Seq<ClusterShape>,
    lod: Option<u8>,
    mode: ColorMode,
    gi: int,
    t: int,
) -> bool {
    let f = asked_triangles(cs, lod, gi) + t;
    let tri = cs[gi].triangles@[t];
    &&& 0 <= f < faces.len()
    &&& is_vertex(verts, faces[f].0, gi, tri.0)
    &&& is_vertex(verts, faces[f].1, gi, tri.1)
    &&& is_vertex(verts, faces[f].2, gi, tri.2)
    &&& is_coloured(verts[faces[f].0], gi, cs[gi].lod, t, mode)
    &&& is_coloured(verts[faces[f].1], gi, cs[gi].lod, t, mode)
    &&& is_coloured(verts[faces[f].2], gi, cs[gi].lod, t, mode)
}

proof fn triangle_verts_hold(gi: int, triangles: Seq<(u32, u32, u32)>, n: int, t: int)
    requires
        0 <= t < n <= triangles.len(),
    ensures
        triangle_verts(gi, triangles, n).len() == 3 * n,
        ({
            let v = triangle_verts(gi, triangles, n);
            let color_id = mixed(gi as u32, t as u32);
            &&& v[3 * t] == (PlyVert { cluster: gi as u32, vert: triangles[t].0, color_id })
            &&& v[3 * t + 1] == (PlyVert { cluster: gi as u32, vert: triangles[t].1, color_id })
            &&& v[3 * t + 2] == (PlyVert { cluster: gi as u32, vert: triangles[t].2, color_id })
        }),
    decreases n,
{
    triangle_verts_len(gi, triangles, n - 1);
    if t < n - 1 {
        triangle_verts_hold(gi, triangles, n - 1, t);
    }
}

proof fn cluster_shows(
    cs: Seq<ClusterShape>,
    lod: Option<u8>,
    mode: ColorMode,
    gi: int,
    t: int,
)
    requires
        0 <= gi < cs.len() <= u32::MAX,
        lod is None || lod == Some(cs[gi].lod),
        0 <= t < cs[gi].triangles@.len() <= u32::MAX,
        mode is Triangle || (cs[gi].triangles@[t].0 < cs[gi].verts && cs[gi].triangles@[t].1
            < cs[gi].verts && cs[gi].triangles@[t].2 < cs[gi].verts),
        ply_faces(cs, lod, mode, gi).len() == asked_triangles(cs, lod, gi),
    ensures
        shows(
            ply_verts(cs, lod, mode, gi + 1),
            ply_faces(cs, lod, mode, gi + 1),
            cs,
            lod,
            mode,
            gi,
            t,
        ),
{
    let c = cs[gi];
    let base = ply_verts(cs, lod, mode, gi).len() as int;
    if mode is Triangle {
        triangle_verts_hold(gi, c.triangles@, c.triangles@.len() as int, t);
    }
    let added = cluster_verts(gi, c, mode);
    let all = ply_verts(cs, lod, mode, gi + 1);
    assert(all == ply_verts(cs, lod, mode, gi) + added);
    let f = asked_triangles(cs, lod, gi) + t;
    assert(ply_faces(cs, lod, mode, gi + 1)[f] == cluster_faces(base, c, mode)[t]);
}

/// An export has a face for each triangle asked for, and no others.
pub proof fn faces_are_asked_for(cs: Seq<ClusterShape>, lod: Option<u8>, mode: ColorMode, n: int)
    requires
        0 <= n <= cs.len(),
    ensures
        ply_faces(cs, lod, mode, n).len() == asked_triangles(cs, lod, n),
    decreases n,
{
    if n > 0 {
        faces_are_asked_for(cs, lod, mode, n - 1);
    }
}

/// Whatever the mode, an export shows each triangle asked for.
pub proof fn export_shows_its_triangles(
    cs: Seq<ClusterShape>,
    lod: Option<u8>,
    mode: ColorMode,
    n: int,
    gi: int,
    t: int,
)
    requires
        0 <= gi < n <= cs.len() <= u32::MAX,
        lod is None || lod == Some(cs[gi].lod),
        0 <= t < cs[gi].triangles@.len() <= u32::MAX,
        mode is Triangle || (cs[gi].triangles@[t].0 < cs[gi].verts && cs[gi].triangles@[t].1
            < cs[gi].verts && cs[gi].triangles@[t].2 < cs[gi].verts),
    ensures
        shows(
            ply_verts(cs, lod, mode, n),
            ply_faces(cs, lod, mode, n),
            cs,
            lod,
            mode,
            gi,
            t,
        ),
    decreases n,
{
    faces_are_asked_for(cs, lod, mode, gi);
    if gi == n - 1 {
        cluster_shows(cs, lod, mode, gi, t);
    } else {
        export_shows_its_triangles(cs, lod, mode, n - 1, gi, t);
        let (v, w) = (ply_verts(cs, lod, mode, n - 1), ply_verts(cs, lod, mode, n));
        let (f, g) = (ply_faces(cs, lod, mode, n - 1), ply_faces(cs, lod, mode, n));
        let at = asked_triangles(cs, lod, gi) + t;
        assert(g[at] == f[at]);
        assert(w[f[at].0] == v[f[at].0]);
        assert(w[f[at].1] == v[f[at].1]);
        assert(w[f[at].2] == v[f[at].2]);
    }
}

/// A triangle can be written. Triangle by triangle its vertices are looked up in the cluster;
/// otherwise its indices are moved on by the vertices before the cluster.
pub open spec fn fits(base: int, c: ClusterShape, f: (u32, u32, u32), mode: ColorMode) -> bool {
    if mode is Triangle {
        f.0 < c.verts && f.1 < c.verts && f.2 < c.verts
    } else {
        base + f.0 <= u32::MAX && base + f.1 <= u32::MAX && base + f.2 <= u32::MAX
    }
}

/// Lays out an export of the clusters of one level, or of all.
pub fn ply_layout(cs: &Vec<ClusterShape>, lod: Option<u8>, mode: ColorMode) -> (out: PlyLayout)
    requires
        cs.len() <= u32::MAX,
        forall|i: int| 0 <= i < cs.len() ==> (#[trigger] cs[i]).triangles.len() <= u32::MAX,
        forall|i: int, t: int|
            0 <= i < cs.len() && 0 <= t < cs[i].triangles.len() && selected(cs[i], lod) ==> fits(
                ply_verts(cs@, lod, mode, i).len() as int,
                cs[i],
                #[trigger] cs[i].triangles[t],
                mode,
            ),
        ply_verts(cs@, lod, mode, cs.len() as int).len() <= u32::MAX,
    ensures
        out.verts@ == ply_verts(cs@, lod, mode, cs.len() as int),
        wide_faces(out.faces@) == ply_faces(cs@, lod, mode, cs.len() as int),
        out.faces.len() == asked_triangles(cs@, lod, cs.len() as int),
        forall|gi: int, t: int|
            0 <= gi < cs.len() && (lod is None || lod == Some(cs[gi].lod)) && 0 <= t
                < cs[gi].triangles.len() && (mode is Triangle || (cs[gi].triangles[t].0
                < cs[gi].verts && cs[gi].triangles[t].1 < cs[gi].verts && cs[gi].triangles[t].2
                < cs[gi].verts)) ==> #[trigger] shows(
                out.verts@,
                wide_faces(out.faces@),
                cs@,
                lod,
                mode,
                gi,
                t,
            ),
{
    let mut verts: Vec<PlyVert> = Vec::new();
    let mut faces: Vec<(u32, u32, u32)> = Vec::new();
    let mut gi: usize = 0;
    proof {
        assert(wide_faces(faces@) =~= Seq::empty());
    }
    while gi < cs.len()
        invariant
            gi <= cs.len() <= u32::MAX,
            forall|i: int| 0 <= i < cs.len() ==> (#[trigger] cs[i]).triangles.len() <= u32::MAX,
            forall|i: int, t: int|
                0 <= i < cs.len() && 0 <= t < cs[i].triangles.len() && selected(cs[i], lod) ==> fits(
                    ply_verts(cs@, lod, mode, i).len() as int,
                    cs[i],
                    #[trigger] cs[i].triangles[t],
                    mode,
                ),
            ply_verts(cs@, lod, mode, cs.len() as int).len() <= u32::MAX,
            verts@ == ply_verts(cs@, lod, mode, gi as int),
            wide_faces(faces@) == ply_faces(cs@, lod, mode, gi as int),
        decreases cs.len() - gi,
    {
        let wanted: bool = match lod {
            Some(l) => cs[gi].lod == l,
            None => true,
        };
        let ghost v0 = verts@;
        let ghost f0 = faces@;
        let base: u32 = verts.len() as u32;
        proof {
            verts_grow(cs@, lod, mode, gi as int);
            verts_grow(cs@, lod, mode, gi as int + 1);
        }
        if wanted {
            let ghost c = cs@[gi as int];
            let n: usize = cs[gi].triangles.len();
            match mode {
                ColorMode::Triangle => {
                    let mut ti: usize = 0;
                    proof {
                        assert(v0 + triangle_verts(gi as int, c.triangles@, 0) =~= v0);
                        triangle_verts_len(gi as int, c.triangles@, n as int);
                    }
                    while ti < n
                        invariant
                            ti <= n <= u32::MAX,
                            gi < cs.len() <= u32::MAX,
                            c == cs@[gi as int],
                            n == c.triangles.len(),
                            base == v0.len(),
                            v0.len() + 3 * n <= u32::MAX,
                            verts@ == v0 + triangle_verts(gi as int, c.triangles@, ti as int),
                            verts.len() == base + 3 * ti,
                            faces.len() == f0.len() + ti,
                            forall|x: int|
                                0 <= x < faces.len() ==> #[trigger] faces[x] == (if x < f0.len() {
                                    f0[x]
                                } else {
                                    (
                                        (base + 3 * (x - f0.len())) as u32,
                                        (base + 3 * (x - f0.len()) + 1) as u32,
                                        (base + 3 * (x - f0.len()) + 2) as u32,
                                    )
                                }),
                        decreases n - ti,
                    {
                        let t = cs[gi].triangles[ti];
                        let color_id: u32 = mix2(gi as u32, ti as u32);
                        let at: u32 = verts.len() as u32;
                        verts.push(PlyVert { cluster: gi as u32, vert: t.0, color_id });
                        verts.push(PlyVert { cluster: gi as u32, vert: t.1, color_id });
                        verts.push(PlyVert { cluster: gi as u32, vert: t.2, color_id });
                        faces.push((at, at + 1, at + 2));
                        proof {
                            assert(verts@ =~= v0 + triangle_verts(
                                gi as int,
                                c.triangles@,
                                ti as int + 1,
                            ));
                        }
                        ti = ti + 1;
                    }
                    proof {
                        assert(wide_faces(faces@) =~= wide_faces(f0) + cluster_faces(
                            base as int,
                            c,
                            mode,
                        ));
                    }
                },
                _ => {
                    let color_id: u32 = match mode {
                        ColorMode::Cluster => gi as u32,
                        _ => cs[gi].lod as u32 + 1,
                    };
                    let count: u32 = cs[gi].verts;
                    let mut v: u32 = 0;
                    let ghost added = cluster_verts(gi as int, c, mode);
                    while v < count
                        invariant
                            v <= count == c.verts,
                            gi < cs.len() <= u32::MAX,
                            !(mode is Triangle),
                            c == cs@[gi as int],
                            added == cluster_verts(gi as int, c, mode),
                            color_id == cluster_color(gi as int, c.lod, mode),
                            verts@ == v0 + added.take(v as int),
                        decreases count - v,
                    {
                        verts.push(PlyVert { cluster: gi as u32, vert: v, color_id });
                        proof {
                            assert(verts@ =~= v0 + added.take(v as int + 1));
                        }
                        v = v + 1;
                    }
                    proof {
                        assert(added.take(count as int) =~= added);
                    }
                    let mut ti: usize = 0;
                    while ti < n
                        invariant
                            ti <= n,
                            gi < cs.len(),
                            c == cs@[gi as int],
                            n == c.triangles.len(),
                            !(mode is Triangle),
                            forall|t: int|
                                0 <= t < c.triangles.len() ==> fits(
                                    base as int,
                                    c,
                                    #[trigger] c.triangles[t],
                                    mode,
                                ),
                            faces.len() == f0.len() + ti,
                            forall|x: int|
                                0 <= x < faces.len() ==> #[trigger] faces[x] == (if x < f0.len() {
                                    f0[x]
                                } else {
                                    (
                                        (base + c.triangles[x - f0.len()].0) as u32,
                                        (base + c.triangles[x - f0.len()].1) as u32,
                                        (base + c.triangles[x - f0.len()].2) as u32,
                                    )
                                }),
                        decreases n - ti,
                    {
                        let t = cs[gi].triangles[ti];
                        proof {
                            assert(c.triangles[ti as int] == t);
                        }
                        faces.push((base + t.0, base + t.1, base + t.2));
                        ti = ti + 1;
                    }
                    proof {
                        assert(wide_faces(faces@) =~= wide_faces(f0) + cluster_faces(
                            base as int,
                            c,
                            mode,
                        ));
                    }
                },
            }
        }
        gi = gi + 1;
    }
    proof {
        faces_are_asked_for(cs@, lod, mode, cs.len() as int);
        assert forall|gi: int, t: int|
            0 <= gi < cs.len() && (lod is None || lod == Some(cs[gi].lod)) && 0 <= t
                < cs[gi].triangles.len() && (mode is Triangle || (cs[gi].triangles[t].0
                < cs[gi].verts && cs[gi].triangles[t].1 < cs[gi].verts && cs[gi].triangles[t].2
                < cs[gi].verts)) implies #[trigger] shows(
            verts@,
            wide_faces(faces@),
            cs@,
            lod,
            mode,
            gi,
            t,
        ) by {
            assert(cs[gi].triangles.len() <= u32::MAX);
            export_shows_its_triangles(cs@, lod, mode, cs.len() as int, gi, t);
        }
    }
    PlyLayout { verts, faces }
}

/// The name of a colour mode.
pub open spec fn mode_name(mode: ColorMode) -> Seq<char> {
    match mode {
        ColorMode::Triangle => "Triangle"@,
        ColorMode::Cluster => "Cluster"@,
        ColorMode::Lod => "Lod"@,
    }
}

/// The header of an export with this many vertices and faces.
pub fn ply_header(mode: ColorMode, verts: u64, faces: u64) -> (s: String)
    ensures
        s@ == "ply\nformat ascii 1.0\ncomment enki-nanite debug export ("@ + mode_name(mode)
            + ")\nelement vertex "@ + decimal(verts as nat)
            + "\nproperty float x\nproperty float y\nproperty float z\nproperty uchar red\nproperty uchar green\nproperty uchar blue\nelement face "@
            + decimal(faces as nat)
            + "\nproperty list uchar int vertex_indices\nend_header\n"@,
{
    let mut s: String = "ply\nformat ascii 1.0\ncomment enki-nanite debug export (".to_owned();
    s.append(
        match mode {
            ColorMode::Triangle => "Triangle",
            ColorMode::Cluster => "Cluster",
            ColorMode::Lod => "Lod",
        },
    );
    s.append(")\nelement vertex ");
    push_decimal(&mut s, verts);
    s.append(
        "\nproperty float x\nproperty float y\nproperty float z\nproperty uchar red\nproperty uchar green\nproperty uchar blue\nelement face ",
    );
    push_decimal(&mut s, faces);
    s.append("\nproperty list uchar int vertex_indices\nend_header\n");
    s
}

/// The line of a face in an export.
pub fn ply_face(f: (u32, u32, u32)) -> (s: String)
    ensures
        s@ == "3 "@ + decimal(f.0 as nat) + " "@ + decimal(f.1 as nat) + " "@ + decimal(f.2 as nat)
            + "\n"@,
{
    let mut s: String = "3 ".to_owned();
    push_decimal(&mut s, f.0 as u64);
    s.append(" ");
    push_decimal(&mut s, f.1 as u64);
    s.append(" ");
    push_decimal(&mut s, f.2 as u64);
    s.append("\n");
    s
}

} // verus!
