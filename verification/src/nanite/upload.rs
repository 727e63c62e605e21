//! What goes to the GPU for clusters, as bytes.
//!
//! Numbers with a fraction stand as their bit patterns. Words go out in the byte order of the
//! machine.
use vstd::prelude::*;

use crate::nanite::render::{
    slot_triangles, stable, stable_id, ClusterWrite, NaniteRenderer, MAX_CLUSTER_TRIS,
    MAX_CLUSTER_VERTS, META_BYTES, POOL_MAX_CLUSTERS, SLOT_FLOATS, SLOT_INDICES,
};

verus! {

/// Byte `k` of a word, counted from the lowest.
pub open spec fn byte_of(word: u32, k: int) -> u8 {
    if k == 0 {
        (word % 0x100) as u8
    } else if k == 1 {
        (word / 0x100 % 0x100) as u8
    } else if k == 2 {
        (word / 0x1_0000 % 0x100) as u8
    } else {
        (word / 0x100_0000) as u8
    }
}

/// Words as bytes, each with its lowest byte first or last.
pub open spec fn in_order(words: Seq<u32>, low_first: bool) -> Seq<u8> {
    Seq::new(
        4 * words.len(),
        |n: int|
            byte_of(
                words[n / 4],
                if low_first {
                    n % 4
                } else {
                    3 - n % 4
                },
            ),
    )
}

/// The bytes are the words in the order of the machine, whichever that is.
pub open spec fn laid_out(bytes: Seq<u8>, words: Seq<u32>) -> bool {
    bytes == in_order(words, true) || bytes == in_order(words, false)
}

/// The memory of words, byte by byte: `bytemuck::cast_slice` from `u32` to `u8`, copied. The
/// contract claims that it holds each word's four bytes, word after word, all words in the one
/// order that the machine keeps them in. Bytes need no alignment and four of them make up a
/// word, so the cast cannot fail.
#[verifier::external_body]
fn words_as_bytes(words: &Vec<u32>) -> (bytes: Vec<u8>)
    ensures
        laid_out(bytes@, words@),
{
    bytemuck::cast_slice::<u32, u8>(words).to_vec()
}

/// The word that four bytes make.
pub open spec fn word_at(bytes: Seq<u8>, i: int, low_first: bool) -> int {
    let b = |k: int| bytes[4 * i + k] as int;
    if low_first {
        b(0) + 0x100 * b(1) + 0x1_0000 * b(2) + 0x100_0000 * b(3)
    } else {
        b(3) + 0x100 * b(2) + 0x1_0000 * b(1) + 0x100_0000 * b(0)
    }
}

/// Who reads the bytes in the order they were laid out in gets every word back.
pub proof fn words_read_back(words: Seq<u32>, low_first: bool, i: int)
    requires
        0 <= i < words.len(),
    ensures
        word_at(in_order(words, low_first), i, low_first) == words[i],
{
    let bytes = in_order(words, low_first);
    assert((4 * i) / 4 == i && (4 * i) % 4 == 0);
    assert((4 * i + 1) / 4 == i && (4 * i + 1) % 4 == 1);
    assert((4 * i + 2) / 4 == i && (4 * i + 2) % 4 == 2);
    assert((4 * i + 3) / 4 == i && (4 * i + 3) % 4 == 3);
    let w = words[i];
    if low_first {
        assert(bytes[4 * i] == byte_of(w, 0));
        assert(bytes[4 * i + 1] == byte_of(w, 1));
        assert(bytes[4 * i + 2] == byte_of(w, 2));
        assert(bytes[4 * i + 3] == byte_of(w, 3));
    } else {
        assert(bytes[4 * i] == byte_of(w, 3));
        assert(bytes[4 * i + 1] == byte_of(w, 2));
        assert(bytes[4 * i + 2] == byte_of(w, 1));
        assert(bytes[4 * i + 3] == byte_of(w, 0));
    }
}

/// A cluster on its way to the GPU.
pub struct ClusterData {
    /// Position, normal and colour of each vertex, nine numbers.
    pub verts: Vec<u32>,
    pub triangles: Vec<[u32; 3]>,
    /// Centre and radius.
    pub bounds: [u32; 4],
    pub parent_bounds: [u32; 4],
    pub self_error: u32,
    pub parent_error: u32,
    /// The level, as a number with a fraction.
    pub lod: u32,
}

/// The three records of a cluster.
pub struct ClusterBytes {
    pub verts: Vec<u8>,
    pub tris: Vec<u8>,
    pub meta: Vec<u8>,
}

/// The triangles of a cluster, over the vertices of its slot.
pub open spec fn triangle_words(slot: u32, triangles: Seq<[u32; 3]>) -> Seq<u32> {
    Seq::new(
        3 * triangles.len(),
        |n: int| (slot * MAX_CLUSTER_VERTS + triangles[n / 3]@[n % 3]) as u32,
    )
}

/// What the GPU reads of a cluster besides its mesh: its bounds, those of its parent, the errors
/// and the level, the triangles, the face and the id. The first triangle follows from the slot.
pub open spec fn meta_words(w: ClusterWrite, c: ClusterData) -> Seq<u32> {
    c.bounds@ + c.parent_bounds@ + seq![c.self_error, c.parent_error, c.lod, 0] + seq![
        0,
        c.triangles.len() as u32,
        w.face,
        stable(w.face, w.cluster),
    ]
}

/// The records to write for a cluster.
pub fn cluster_bytes(w: &ClusterWrite, c: &ClusterData) -> (out: ClusterBytes)
    requires
        w.slot < POOL_MAX_CLUSTERS,
        c.triangles.len() <= u32::MAX,
        forall|i: int, k: int|
            0 <= i < c.triangles.len() && 0 <= k < 3 ==> #[trigger] c.triangles[i]@[k]
                < MAX_CLUSTER_VERTS,
    ensures
        laid_out(out.verts@, c.verts@),
        laid_out(out.tris@, triangle_words(w.slot, c.triangles@)),
        laid_out(out.meta@, meta_words(*w, *c)),
{
    let tris: Vec<u32> = slot_triangles(w.slot, &c.triangles);
    proof {
        let want = triangle_words(w.slot, c.triangles@);
        assert forall|n: int| 0 <= n < tris.len() implies tris@[n] == want[n] by {
            assert(3 * (n / 3) + n % 3 == n);
            assert(tris[3 * (n / 3) + n % 3] == w.slot * 64 + c.triangles[n / 3]@[n % 3]);
        }
        assert(tris@ =~= want);
    }
    let meta: Vec<u32> = vec![
        c.bounds[0],
        c.bounds[1],
        c.bounds[2],
        c.bounds[3],
        c.parent_bounds[0],
        c.parent_bounds[1],
        c.parent_bounds[2],
        c.parent_bounds[3],
        c.self_error,
        c.parent_error,
        c.lod,
        0,
        0,
        c.triangles.len() as u32,
        w.face,
        stable_id(w.face, w.cluster),
    ];
    assert(meta@ =~= meta_words(*w, *c));
    ClusterBytes {
        verts: words_as_bytes(&c.verts),
        tris: words_as_bytes(&tris),
        meta: words_as_bytes(&meta),
    }
}

/// The slots in use, for the cull to go through.
pub fn active_bytes(r: &NaniteRenderer) -> (bytes: Vec<u8>)
    ensures
        laid_out(bytes@, r@.active),
{
    words_as_bytes(r.active_slots())
}

/// The arguments of the indirect draw before a cull: no vertex yet, and one instance.
pub fn start_arguments() -> (bytes: Vec<u8>)
    ensures
        laid_out(bytes@, seq![0, 1, 0, 0]),
{
    let words: Vec<u32> = vec![0, 1, 0, 0];
    assert(words@ =~= seq![0u32, 1, 0, 0]);
    words_as_bytes(&words)
}

/// A cluster within the limits fills no more than its slot.
pub proof fn cluster_fits_its_slot(w: ClusterWrite, c: ClusterData, b: ClusterBytes)
    requires
        c.verts.len() <= 9 * MAX_CLUSTER_VERTS,
        c.triangles.len() <= MAX_CLUSTER_TRIS,
        laid_out(b.verts@, c.verts@),
        laid_out(b.tris@, triangle_words(w.slot, c.triangles@)),
        laid_out(b.meta@, meta_words(w, c)),
    ensures
        b.verts.len() <= 4 * SLOT_FLOATS,
        b.tris.len() <= 4 * SLOT_INDICES,
        b.meta.len() == META_BYTES,
{
}

/// In either byte order, who reads the bytes back gets the words.
pub open spec fn reads(bytes: Seq<u8>, i: int, word: int) -> bool {
    0 <= 4 * i && 4 * i + 4 <= bytes.len() && (word_at(bytes, i, true) == word || word_at(
        bytes,
        i,
        false,
    ) == word)
}

proof fn laid_out_reads(bytes: Seq<u8>, words: Seq<u32>, i: int)
    requires
        laid_out(bytes, words),
        0 <= i < words.len(),
    ensures
        reads(bytes, i, words[i] as int),
{
    words_read_back(words, true, i);
    words_read_back(words, false, i);
}

/// The GPU finds a cluster whole: each number of each vertex in its place, and each corner of each
/// triangle moved on to the vertices of the cluster's slot, 64 to a slot.
pub proof fn clusters_arrive_whole(w: ClusterWrite, c: ClusterData, b: ClusterBytes)
    requires
        w.slot < POOL_MAX_CLUSTERS,
        forall|i: int, k: int|
            0 <= i < c.triangles.len() && 0 <= k < 3 ==> #[trigger] c.triangles[i]@[k]
                < MAX_CLUSTER_VERTS,
        laid_out(b.verts@, c.verts@),
        laid_out(b.tris@, triangle_words(w.slot, c.triangles@)),
    ensures
        b.verts.len() == 4 * c.verts.len(),
        b.tris.len() == 12 * c.triangles.len(),
        forall|n: int| 0 <= n < c.verts.len() ==> #[trigger] reads(b.verts@, n, c.verts[n] as int),
        forall|i: int, k: int|
            0 <= i < c.triangles.len() && 0 <= k < 3 ==> reads(
                b.tris@,
                3 * i + k,
                64 * w.slot + #[trigger] c.triangles[i]@[k],
            ),
{
    assert forall|n: int| 0 <= n < c.verts.len() implies #[trigger] reads(
        b.verts@,
        n,
        c.verts[n] as int,
    ) by {
        laid_out_reads(b.verts@, c.verts@, n);
    }
    assert forall|i: int, k: int| 0 <= i < c.triangles.len() && 0 <= k < 3 implies reads(
        b.tris@,
        3 * i + k,
        64 * w.slot + #[trigger] c.triangles[i]@[k],
    ) by {
        let words = triangle_words(w.slot, c.triangles@);
        assert((3 * i + k) / 3 == i && (3 * i + k) % 3 == k);
        laid_out_reads(b.tris@, words, 3 * i + k);
    }
}

/// What the GPU reads of a cluster besides its mesh, word by word: its bounds and those of its
/// parent, four each; its error, its parent's, its level and a gap; a gap, how many triangles it
/// has, its face, and its id.
pub proof fn records_arrive_whole(w: ClusterWrite, c: ClusterData, b: ClusterBytes, n: int)
    requires
        c.triangles.len() <= u32::MAX,
        laid_out(b.meta@, meta_words(w, c)),
        0 <= n < 4,
    ensures
        b.meta.len() == 64,
        reads(b.meta@, n, c.bounds@[n] as int),
        reads(b.meta@, 4 + n, c.parent_bounds@[n] as int),
        reads(b.meta@, 8, c.self_error as int),
        reads(b.meta@, 9, c.parent_error as int),
        reads(b.meta@, 10, c.lod as int),
        reads(b.meta@, 11, 0),
        reads(b.meta@, 12, 0),
        reads(b.meta@, 13, c.triangles.len() as int),
        reads(b.meta@, 14, w.face as int),
        reads(b.meta@, 15, stable(w.face, w.cluster) as int),
{
    let m = meta_words(w, c);
    laid_out_reads(b.meta@, m, n);
    laid_out_reads(b.meta@, m, 4 + n);
    laid_out_reads(b.meta@, m, 8);
    laid_out_reads(b.meta@, m, 9);
    laid_out_reads(b.meta@, m, 10);
    laid_out_reads(b.meta@, m, 11);
    laid_out_reads(b.meta@, m, 12);
    laid_out_reads(b.meta@, m, 13);
    laid_out_reads(b.meta@, m, 14);
    laid_out_reads(b.meta@, m, 15);
}

} // verus!
