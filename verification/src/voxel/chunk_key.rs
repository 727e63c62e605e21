//! Keys of cube-sphere quadtree leaves.
use vstd::arithmetic::power2::pow2;
use vstd::prelude::*;

verus! {

/// A quadtree leaf: cube face, level below the face, column and row at that level.
pub type ChunkKey = (u8, u8, u32, u32);

/// The one number that stands for a key in maps.
pub open spec fn code(key: ChunkKey) -> u128 {
    (((key.0 as int * 256 + key.1 as int) * 0x1_0000_0000 + key.2 as int) * 0x1_0000_0000
        + key.3 as int) as u128
}

/// Two keys with one code are one key.
pub proof fn code_is_injective(a: ChunkKey, b: ChunkKey)
    requires
        code(a) == code(b),
    ensures
        a == b,
{
}

/// The number that stands for a key in maps.
pub fn pack(key: ChunkKey) -> (c: u128)
    ensures
        c == code(key),
{
    let (face, level, ix, iy) = key;
    ((face as u128 * 256 + level as u128) * 0x1_0000_0000 + ix as u128) * 0x1_0000_0000
        + iy as u128
}

/// The leaf `dx` columns and `dy` rows from `key` lies on the same cube face.
pub open spec fn on_face(key: ChunkKey, dx: int, dy: int) -> bool {
    0 <= key.2 + dx < pow2(key.1 as nat) && 0 <= key.3 + dy < pow2(key.1 as nat)
}

/// The neighbour `dx` columns and `dy` rows away, at the same level.
pub open spec fn neighbour(key: ChunkKey, dx: int, dy: int) -> ChunkKey {
    (key.0, key.1, (key.2 + dx) as u32, (key.3 + dy) as u32)
}

/// The leaf one level up that covers `key`.
pub open spec fn parent(key: ChunkKey) -> ChunkKey {
    (key.0, (key.1 - 1) as u8, key.2 / 2, key.3 / 2)
}

/// Across the edge towards `(dx, dy)` lies a drawn leaf one level coarser.
pub open spec fn coarser(drawn: Set<u128>, key: ChunkKey, dx: int, dy: int) -> bool {
    &&& on_face(key, dx, dy)
    &&& !drawn.contains(code(neighbour(key, dx, dy)))
    &&& key.1 > 0
    &&& drawn.contains(code(parent(neighbour(key, dx, dy))))
}

/// Transition side towards the column below.
pub const LOW_X: u8 = 1;

/// Transition side towards the column above.
pub const HIGH_X: u8 = 2;

/// Transition side towards the row below.
pub const LOW_Y: u8 = 4;

/// Transition side towards the row above.
pub const HIGH_Y: u8 = 8;

/// The transition sides of `key` among the drawn leaves: the edges across which a drawn
/// leaf is coarser, as a sum of the four side constants.
pub open spec fn sides_of(drawn: Set<u128>, key: ChunkKey) -> u8 {
    ((if coarser(drawn, key, -1, 0) { LOW_X as int } else { 0 })
        + (if coarser(drawn, key, 1, 0) { HIGH_X as int } else { 0 })
        + (if coarser(drawn, key, 0, -1) { LOW_Y as int } else { 0 })
        + (if coarser(drawn, key, 0, 1) { HIGH_Y as int } else { 0 })) as u8
}

/// A side is among those of a leaf.
pub open spec fn has_side(sides: u8, side: u8) -> bool {
    sides & side != 0
}

/// The leaf next to `key`, `dx` columns and `dy` rows away, is missing, and one twice as large is
/// drawn in its place. Beyond the edge of the cube face there is no such leaf.
pub open spec fn stitched(drawn: Set<u128>, key: ChunkKey, dx: int, dy: int) -> bool {
    let (x, y) = (key.2 + dx, key.3 + dy);
    let side = pow2(key.1 as nat);
    &&& key.1 > 0
    &&& 0 <= x < side && 0 <= y < side
    &&& !drawn.contains(code((key.0, key.1, x as u32, y as u32)))
    &&& drawn.contains(code((key.0, (key.1 - 1) as u8, x as u32 / 2, y as u32 / 2)))
}

proof fn side_bits(a: bool, b: bool, c: bool, d: bool, s: u8)
    requires
        s == (if a {
            1int
        } else {
            0
        }) + (if b {
            2int
        } else {
            0
        }) + (if c {
            4int
        } else {
            0
        }) + (if d {
            8int
        } else {
            0
        }),
    ensures
        has_side(s, 1) == a,
        has_side(s, 2) == b,
        has_side(s, 4) == c,
        has_side(s, 8) == d,
        s < 16,
{
    assert(s < 16 ==> (s & 1 != 0) == (s % 2 == 1) && (s & 2 != 0) == (s / 2 % 2 == 1) && (s & 4
        != 0) == (s / 4 % 2 == 1) && (s & 8 != 0) == (s / 8 % 2 == 1)) by (bit_vector);
}

/// A leaf is stitched towards each of its four neighbours that is drawn one level coarser, and
/// towards no other: columns below and above, then rows below and above.
pub proof fn sides_face_coarser_leaves(drawn: Set<u128>, key: ChunkKey)
    ensures
        has_side(sides_of(drawn, key), 1) <==> stitched(drawn, key, -1, 0),
        has_side(sides_of(drawn, key), 2) <==> stitched(drawn, key, 1, 0),
        has_side(sides_of(drawn, key), 4) <==> stitched(drawn, key, 0, -1),
        has_side(sides_of(drawn, key), 8) <==> stitched(drawn, key, 0, 1),
        sides_of(drawn, key) < 16,
{
    side_bits(
        coarser(drawn, key, -1, 0),
        coarser(drawn, key, 1, 0),
        coarser(drawn, key, 0, -1),
        coarser(drawn, key, 0, 1),
        sides_of(drawn, key),
    );
}

/// The leaf with columns and rows exchanged.
pub open spec fn across(key: ChunkKey) -> ChunkKey {
    (key.0, key.1, key.3, key.2)
}

/// With columns and rows exchanged in all leaves, the sides towards columns and those towards rows
/// are exchanged too.
pub proof fn columns_and_rows_are_alike(drawn: Set<u128>, flipped: Set<u128>, key: ChunkKey)
    requires
        forall|k: ChunkKey| #[trigger]
            drawn.contains(code(k)) <==> flipped.contains(code(across(k))),
    ensures
        has_side(sides_of(flipped, across(key)), 1) == has_side(sides_of(drawn, key), 4),
        has_side(sides_of(flipped, across(key)), 2) == has_side(sides_of(drawn, key), 8),
        has_side(sides_of(flipped, across(key)), 4) == has_side(sides_of(drawn, key), 1),
        has_side(sides_of(flipped, across(key)), 8) == has_side(sides_of(drawn, key), 2),
{
    sides_face_coarser_leaves(drawn, key);
    sides_face_coarser_leaves(flipped, across(key));
    stitched_across(drawn, flipped, key, -1, 0);
    stitched_across(drawn, flipped, key, 1, 0);
    stitched_across(drawn, flipped, key, 0, -1);
    stitched_across(drawn, flipped, key, 0, 1);
}

proof fn stitched_across(drawn: Set<u128>, flipped: Set<u128>, key: ChunkKey, dx: int, dy: int)
    requires
        forall|k: ChunkKey| #[trigger]
            drawn.contains(code(k)) <==> flipped.contains(code(across(k))),
    ensures
        stitched(flipped, across(key), dy, dx) == stitched(drawn, key, dx, dy),
{
    let (x, y) = (key.2 + dx, key.3 + dy);
    let there: ChunkKey = (key.0, key.1, x as u32, y as u32);
    let above: ChunkKey = (key.0, (key.1 - 1) as u8, x as u32 / 2, y as u32 / 2);
    assert(drawn.contains(code(there)) <==> flipped.contains(code(across(there))));
    assert(drawn.contains(code(above)) <==> flipped.contains(code(across(above))));
}

/// Face, level, column and row side by side, where each fits its place.
pub open spec fn dbg_fields(key: ChunkKey) -> int {
    key.0 as int + 8 * key.1 + 0x100 * key.2 + 0x10_0000 * key.3
}

/// Colour seed of a leaf: face, level, column and row packed from the low bits up. On keys
/// whose fields fit (three, five, twelve and twelve bits) no two fields overlap.
pub fn dbg_id(key: ChunkKey) -> (id: u32)
    ensures
        id == (key.0 as u32) | ((key.1 as u32) << 3) | (key.2 << 8) | (key.3 << 20),
        key.0 < 8 && key.1 < 32 && key.2 < 0x1000 && key.3 < 0x1000 ==> id == dbg_fields(key),
{
    let (face, level, ix, iy) = key;
    let f: u32 = face as u32;
    let l: u32 = level as u32;
    let id: u32 = f | (l << 3) | (ix << 8) | (iy << 20);
    proof {
        assert(f < 8 && l < 32 && ix < 0x1000 && iy < 0x1000 ==> f | (l << 3) | (ix << 8) | (iy
            << 20) == f + 8 * l + 0x100 * ix + 0x10_0000 * iy) by (bit_vector);
    }
    id
}

/// Within the range that the seed has room for, two leaves never share a seed.
pub proof fn dbg_id_tells_leaves_apart(a: ChunkKey, b: ChunkKey)
    requires
        a.0 < 8,
        a.1 < 32,
        a.2 < 0x1000,
        a.3 < 0x1000,
        b.0 < 8,
        b.1 < 32,
        b.2 < 0x1000,
        b.3 < 0x1000,
        dbg_fields(a) == dbg_fields(b),
    ensures
        a == b,
{
}

} // verus!
