//! The vertex streams of a branch mesh: three numbers to a vertex, whatever they are.
//!
//! Numbers stand as their bit patterns.
use vstd::prelude::*;

verus! {

/// The smaller of two.
pub open spec fn fewer(a: int, b: int) -> int {
    if a < b {
        a
    } else {
        b
    }
}

/// Pairs with a third number to each.
pub open spec fn triples(pairs: Seq<u32>, thirds: Seq<u32>) -> Seq<u32> {
    Seq::new(
        (3 * fewer(pairs.len() as int / 2, thirds.len() as int)) as nat,
        |x: int|
            if x % 3 == 2 {
                thirds[x / 3]
            } else {
                pairs[2 * (x / 3) + x % 3]
            },
    )
}

/// Gives each pair of `pairs` a third number: place around the tube and along it, and the tube's
/// radius there. What is over on either side is left out.
pub fn with_third(pairs: &Vec<u32>, thirds: &Vec<u32>) -> (out: Vec<u32>)
    ensures
        out@ == triples(pairs@, thirds@),
{
    let whole: usize = pairs.len() / 2;
    let n: usize = if whole < thirds.len() {
        whole
    } else {
        thirds.len()
    };
    let mut out: Vec<u32> = Vec::new();
    let mut i: usize = 0;
    while i < n
        invariant
            i <= n,
            n == fewer(pairs.len() as int / 2, thirds.len() as int),
            out@ =~= triples(pairs@, thirds@).take(3 * i),
        decreases n - i,
    {
        out.push(pairs[2 * i]);
        out.push(pairs[2 * i + 1]);
        out.push(thirds[i]);
        i = i + 1;
    }
    assert(out@ =~= triples(pairs@, thirds@));
    out
}

/// Three streams, a number of each in turn.
pub open spec fn braid(a: Seq<u32>, b: Seq<u32>, c: Seq<u32>) -> Seq<u32> {
    Seq::new(
        (3 * fewer(fewer(a.len() as int, b.len() as int), c.len() as int)) as nat,
        |x: int|
            if x % 3 == 0 {
                a[x / 3]
            } else if x % 3 == 1 {
                b[x / 3]
            } else {
                c[x / 3]
            },
    )
}

/// Braids three streams into one: occlusion, bone, and how far along the bone. What is over on
/// any side is left out.
pub fn braided(a: &Vec<u32>, b: &Vec<u32>, c: &Vec<u32>) -> (out: Vec<u32>)
    ensures
        out@ == braid(a@, b@, c@),
{
    let ab: usize = if a.len() < b.len() {
        a.len()
    } else {
        b.len()
    };
    let n: usize = if ab < c.len() {
        ab
    } else {
        c.len()
    };
    let mut out: Vec<u32> = Vec::new();
    let mut i: usize = 0;
    while i < n
        invariant
            i <= n,
            n == fewer(fewer(a.len() as int, b.len() as int), c.len() as int),
            out@ =~= braid(a@, b@, c@).take(3 * i),
        decreases n - i,
    {
        out.push(a[i]);
        out.push(b[i]);
        out.push(c[i]);
        i = i + 1;
    }
    assert(out@ =~= braid(a@, b@, c@));
    out
}

/// Straight up, for every vertex of a mesh with so many numbers for positions. `one` is the number
/// one.
pub open spec fn all_up(positions: int, one: u32) -> Seq<u32> {
    Seq::new(
        (3 * (positions / 3)) as nat,
        |x: int|
            if x % 3 == 1 {
                one
            } else {
                0
            },
    )
}

/// The normals that a mesh is baked with: its own, of its whole vertices, or straight up for every
/// vertex where there are not as many as positions.
pub fn usable_normals(positions: usize, normals: &Vec<u32>, one: u32) -> (out: Vec<u32>)
    ensures
        out@ == (if normals.len() == positions {
            normals@.take(3 * (positions as int / 3))
        } else {
            all_up(positions as int, one)
        }),
{
    let n: usize = 3 * (positions / 3);
    let own: bool = normals.len() == positions;
    let ghost want = if own {
        normals@.take(3 * (positions as int / 3))
    } else {
        all_up(positions as int, one)
    };
    let mut out: Vec<u32> = Vec::new();
    let mut i: usize = 0;
    while i < n
        invariant
            i <= n,
            n == 3 * (positions as int / 3),
            own == (normals.len() == positions),
            want == (if own {
                normals@.take(3 * (positions as int / 3))
            } else {
                all_up(positions as int, one)
            }),
            out@ =~= want.take(i as int),
        decreases n - i,
    {
        if own {
            out.push(normals[i]);
        } else if i % 3 == 1 {
            out.push(one);
        } else {
            out.push(0);
        }
        i = i + 1;
    }
    assert(out@ =~= want);
    out
}

/// Each vertex has its own pair and its own third number, in this order; there are as many as
/// there are whole pairs and thirds.
pub proof fn thirds_join_their_pairs(pairs: Seq<u32>, thirds: Seq<u32>, v: int)
    requires
        0 <= v,
        2 * v + 1 < pairs.len(),
        v < thirds.len(),
    ensures
        3 * v + 2 < triples(pairs, thirds).len(),
        triples(pairs, thirds)[3 * v] == pairs[2 * v],
        triples(pairs, thirds)[3 * v + 1] == pairs[2 * v + 1],
        triples(pairs, thirds)[3 * v + 2] == thirds[v],
        triples(pairs, thirds).len() % 3 == 0,
        triples(pairs, thirds).len() / 3 <= thirds.len(),
        2 * (triples(pairs, thirds).len() / 3) <= pairs.len(),
{
    assert((3 * v) / 3 == v && (3 * v) % 3 == 0);
    assert((3 * v + 1) / 3 == v && (3 * v + 1) % 3 == 1);
    assert((3 * v + 2) / 3 == v && (3 * v + 2) % 3 == 2);
}

/// Each vertex has its own number of each of the three streams, in this order; there are as many
/// as the shortest stream has.
pub proof fn braids_keep_their_streams(a: Seq<u32>, b: Seq<u32>, c: Seq<u32>, v: int)
    requires
        0 <= v < a.len(),
        v < b.len(),
        v < c.len(),
    ensures
        3 * v + 2 < braid(a, b, c).len(),
        braid(a, b, c)[3 * v] == a[v],
        braid(a, b, c)[3 * v + 1] == b[v],
        braid(a, b, c)[3 * v + 2] == c[v],
        braid(a, b, c).len() <= 3 * a.len() && braid(a, b, c).len() <= 3 * b.len() && braid(a, b, c).len()
            <= 3 * c.len(),
        braid(a, b, c).len() % 3 == 0,
{
    assert((3 * v) / 3 == v && (3 * v) % 3 == 0);
    assert((3 * v + 1) / 3 == v && (3 * v + 1) % 3 == 1);
    assert((3 * v + 2) / 3 == v && (3 * v + 2) % 3 == 2);
}

/// Where a mesh has no normals of its own, every vertex points along the second axis.
pub proof fn missing_normals_point_up(positions: int, one: u32, v: int)
    requires
        0 <= v,
        3 * v + 2 < positions,
    ensures
        3 * v + 2 < all_up(positions, one).len() <= positions,
        all_up(positions, one)[3 * v] == 0,
        all_up(positions, one)[3 * v + 1] == one,
        all_up(positions, one)[3 * v + 2] == 0,
{
    assert((3 * v) % 3 == 0);
    assert((3 * v + 1) % 3 == 1);
    assert((3 * v + 2) % 3 == 2);
}

} // verus!
