//! Leaf cards: which anchors carry leaves, how clumps fan out, and the strips they become.
use vstd::prelude::*;

use crate::flora::render_mode::LeafMode;

verus! {

/// Leaves that a broadleaf clump fans into.
pub const LEAVES_PER_CLUMP: usize = 6;

/// The branch level from which wood counts as twig.
pub const TWIG_MIN_LEVEL: u32 = 3;

/// Terminal wood counts as twig up to this share, in hundredths, of the thickest anchor.
pub const TWIG_RADIUS_PERCENT: u64 = 55;

/// Segments along a leaf.
pub const SEG: usize = 6;

/// Vertices of a leaf: two for each end of each segment.
pub const LEAF_VERTS: usize = 14;

/// Indices of a leaf: two triangles for each segment.
pub const LEAF_INDICES: usize = 36;

/// An anchor that a leaf can grow from: how far out its branch is, whether it is the tip,
/// and how thick the wood is there, in whole units.
#[derive(Clone, Copy, Debug, PartialEq, Eq, Structural)]
pub struct Anchor {
    pub level: u32,
    pub terminal: bool,
    pub radius: u32,
}

/// The greatest radius, zero if there are no anchors.
pub open spec fn thickest(anchors: Seq<Anchor>) -> u32
    decreases anchors.len(),
{
    if anchors.len() == 0 {
        0
    } else if anchors.last().radius > thickest(anchors.drop_last()) {
        anchors.last().radius
    } else {
        thickest(anchors.drop_last())
    }
}

/// The anchor is on a twig: an outer branch, whatever its thickness, or a thin tip. If no
/// thickness is known, every tip is thin.
pub open spec fn is_twig(a: Anchor, most: u32) -> bool {
    a.level >= TWIG_MIN_LEVEL || (a.terminal && (most == 0 || 100 * a.radius <= 55 * most))
}

/// The greatest radius among anchors.
pub fn max_radius(anchors: &Vec<Anchor>) -> (r: u32)
    ensures
        r == thickest(anchors@),
{
    let mut most: u32 = 0;
    let mut i: usize = 0;
    while i < anchors.len()
        invariant
            i <= anchors.len(),
            most == thickest(anchors@.take(i as int)),
        decreases anchors.len() - i,
    {
        proof {
            assert(anchors@.take(i as int + 1).drop_last() =~= anchors@.take(i as int));
        }
        if anchors[i].radius > most {
            most = anchors[i].radius;
        }
        i = i + 1;
    }
    proof {
        assert(anchors@.take(anchors.len() as int) =~= anchors@);
    }
    most
}

/// The first `n` anchors that are twigs and whose density draw passed, in order.
pub open spec fn kept(anchors: Seq<Anchor>, passed: Seq<bool>, most: u32, n: int) -> Seq<usize>
    decreases n,
{
    if n <= 0 {
        Seq::empty()
    } else if is_twig(anchors[n - 1], most) && passed[n - 1] {
        kept(anchors, passed, most, n - 1).push((n - 1) as usize)
    } else {
        kept(anchors, passed, most, n - 1)
    }
}

/// The anchors that get a leaf: those on twigs whose density draw passed.
pub fn leaf_anchors(anchors: &Vec<Anchor>, passed: &Vec<bool>) -> (out: Vec<usize>)
    requires
        passed.len() == anchors.len(),
    ensures
        out@ == kept(anchors@, passed@, thickest(anchors@), anchors.len() as int),
{
    let most: u32 = max_radius(anchors);
    let mut out: Vec<usize> = Vec::new();
    let mut i: usize = 0;
    while i < anchors.len()
        invariant
            i <= anchors.len() == passed.len(),
            out@ == kept(anchors@, passed@, most, i as int),
        decreases anchors.len() - i,
    {
        let a = anchors[i];
        let thin: bool = most == 0 || 100 * a.radius as u64 <= TWIG_RADIUS_PERCENT * most as u64;
        if (a.level >= TWIG_MIN_LEVEL || (a.terminal && thin)) && passed[i] {
            out.push(i);
        }
        i = i + 1;
    }
    out
}

/// The anchors that get a leaf, where there is foliage at all; without any there is no leaf mesh.
pub fn leaf_cards(anchors: &Vec<Anchor>, passed: &Vec<bool>) -> (out: Option<Vec<usize>>)
    requires
        passed.len() == anchors.len(),
    ensures
        out is None <==> anchors.len() == 0,
        out matches Some(cards) ==> cards@ == kept(
            anchors@,
            passed@,
            thickest(anchors@),
            anchors.len() as int,
        ),
{
    if anchors.len() == 0 {
        None
    } else {
        Some(leaf_anchors(anchors, passed))
    }
}

/// An anchor is kept exactly if it is a twig and its draw passed.
pub proof fn kept_are_twigs(anchors: Seq<Anchor>, passed: Seq<bool>, most: u32, n: int, i: int)
    requires
        0 <= n <= anchors.len() <= usize::MAX,
        0 <= i < anchors.len(),
    ensures
        kept(anchors, passed, most, n).contains(i as usize) <==> i < n && is_twig(anchors[i], most)
            && passed[i],
    decreases n,
{
    if n > 0 {
        kept_are_twigs(anchors, passed, most, n - 1, i);
        let front = kept(anchors, passed, most, n - 1);
        let all = kept(anchors, passed, most, n);
        if is_twig(anchors[n - 1], most) && passed[n - 1] {
            assert(all[front.len() as int] == (n - 1) as usize);
            if front.contains(i as usize) {
                let k = choose|k: int| 0 <= k < front.len() && front[k] == i as usize;
                assert(all[k] == i as usize);
            }
            if all.contains(i as usize) && i != n - 1 {
                let k = choose|k: int| 0 <= k < all.len() && all[k] == i as usize;
                assert(front[k] == i as usize);
            }
        }
    }
}

/// Where fewer draws pass, no more leaves are kept.
pub proof fn fewer_draws_keep_no_more(
    anchors: Seq<Anchor>,
    fewer: Seq<bool>,
    more: Seq<bool>,
    most: u32,
    n: int,
)
    requires
        0 <= n <= anchors.len(),
        fewer.len() == anchors.len(),
        more.len() == anchors.len(),
        forall|i: int| 0 <= i < anchors.len() && #[trigger] fewer[i] ==> more[i],
    ensures
        kept(anchors, fewer, most, n).len() <= kept(anchors, more, most, n).len(),
    decreases n,
{
    if n > 0 {
        fewer_draws_keep_no_more(anchors, fewer, more, most, n - 1);
        assert(fewer[n - 1] ==> more[n - 1]);
    }
}

/// Every anchor on an outer branch is a twig: where the bark is stripped, leaves can grow.
pub proof fn outer_branches_are_clothed(a: Anchor, most: u32)
    requires
        a.level >= 3,
    ensures
        is_twig(a, most),
{
}

/// How narrow a leaf is, in millionths: nothing from a width of three tenths up, and all at
/// none.
pub open spec fn narrowness(leaf_width: int) -> int {
    if leaf_width >= 300_000 {
        0
    } else if leaf_width <= 0 {
        1_000_000
    } else {
        (300_000 - leaf_width) * 10 / 3
    }
}

/// How much like fronds the leaves are: as divided, as rosette or as narrow as they are,
/// whichever is most. All in millionths.
pub fn frondyness(leaf_width: i64, leaf_division: i64, rosette: i64) -> (f: i64)
    ensures
        f >= leaf_division && f >= rosette && f >= narrowness(leaf_width as int),
        f == leaf_division || f == rosette || f == narrowness(leaf_width as int),
{
    let narrow: i64 = if leaf_width >= 300_000 {
        0
    } else if leaf_width <= 0 {
        1_000_000
    } else {
        (300_000 - leaf_width) * 10 / 3
    };
    let most: i64 = if rosette > leaf_division {
        rosette
    } else {
        leaf_division
    };
    if narrow > most {
        narrow
    } else {
        most
    }
}

/// Leaves that each clump becomes: one whole unit for fronds, needles and spines, else six.
/// The two measures are in millionths.
pub fn fan_count(frondyness: i64, spininess: i64) -> (k: usize)
    ensures
        k == (if frondyness > 500_000 || spininess > 50_000 {
            1usize
        } else {
            6usize
        }),
{
    if frondyness > 500_000 || spininess > 50_000 {
        1
    } else {
        LEAVES_PER_CLUMP
    }
}

/// How many leaf cards a clump becomes: itself alone where clumps are drawn as such, else its fan.
pub fn leaves_per_clump(mode: LeafMode, frondyness: i64, spininess: i64) -> (k: usize)
    ensures
        k == (match mode {
            LeafMode::Cluster => 1usize,
            LeafMode::Single => if frondyness > 500_000 || spininess > 50_000 {
                1
            } else {
                6
            },
        }),
{
    match mode {
        LeafMode::Cluster => 1,
        LeafMode::Single => fan_count(frondyness, spininess),
    }
}

/// The clump that each leaf of a fanned canopy comes from: `k` leaves in a row for each.
pub fn fan_sources(clumps: usize, k: usize) -> (out: Vec<usize>)
    requires
        k > 0,
        clumps * k <= usize::MAX,
    ensures
        out.len() == clumps * k,
        forall|i: int| 0 <= i < out.len() ==> #[trigger] out[i] == i / (k as int),
{
    let mut out: Vec<usize> = Vec::new();
    let mut c: usize = 0;
    while c < clumps
        invariant
            c <= clumps,
            k > 0,
            out.len() == c * k,
            forall|i: int| 0 <= i < out.len() ==> #[trigger] out[i] == i / (k as int),
        decreases clumps - c,
    {
        let mut j: usize = 0;
        while j < k
            invariant
                j <= k,
                k > 0,
                out.len() == c * k + j,
                forall|i: int| 0 <= i < out.len() ==> #[trigger] out[i] == i / (k as int),
            decreases k - j,
        {
            proof {
                vstd::arithmetic::div_mod::lemma_fundamental_div_mod_converse(
                    c * k + j,
                    k as int,
                    c as int,
                    j as int,
                );
            }
            out.push(c);
            j = j + 1;
        }
        proof {
            assert((c + 1) * k == c * k + k) by (nonlinear_arith);
        }
        c = c + 1;
    }
    out
}

/// The six indices of segment `r` of the `l`-th leaf's strip.
pub open spec fn strip_segment(l: int, r: int) -> Seq<int> {
    let a = 14 * l + 2 * r;
    seq![a, a + 1, a + 2, a + 2, a + 1, a + 3]
}

/// The triangles of `leaves` strips of fourteen vertices each.
pub fn strip_indices(leaves: usize) -> (out: Vec<u32>)
    requires
        14 * leaves <= u32::MAX,
        36 * leaves <= usize::MAX,
    ensures
        out.len() == 36 * leaves,
        forall|l: int, r: int, q: int|
            0 <= l < leaves && 0 <= r < 6 && 0 <= q < 6 ==> out[36 * l + 6 * r + q]
                == #[trigger] strip_segment(l, r)[q],
        forall|n: int| 0 <= n < out.len() ==> (#[trigger] out[n]) < 14 * leaves,
        forall|l: int, r: int|
            0 <= l < leaves && 0 <= r < 6 ==> #[trigger] spans(out@, l, r),
{
    let mut out: Vec<u32> = Vec::new();
    let mut l: usize = 0;
    while l < leaves
        invariant
            l <= leaves,
            14 * leaves <= u32::MAX,
            out.len() == 36 * l,
            forall|x: int, r: int, q: int|
                0 <= x < l && 0 <= r < 6 && 0 <= q < 6 ==> out[36 * x + 6 * r + q]
                    == #[trigger] strip_segment(x, r)[q],
            forall|n: int| 0 <= n < out.len() ==> (#[trigger] out[n]) < 14 * leaves,
        decreases leaves - l,
    {
        let mut r: usize = 0;
        while r < SEG
            invariant
                r <= 6,
                l < leaves,
                14 * leaves <= u32::MAX,
                out.len() == 36 * l + 6 * r,
                forall|x: int, y: int, q: int|
                    0 <= x <= l && (x < l || y < r) && 0 <= y < 6 && 0 <= q < 6 ==> out[36 * x + 6
                        * y + q] == #[trigger] strip_segment(x, y)[q],
                forall|n: int| 0 <= n < out.len() ==> (#[trigger] out[n]) < 14 * leaves,
            decreases SEG - r,
        {
            let a: u32 = (LEAF_VERTS * l + 2 * r) as u32;
            out.push(a);
            out.push(a + 1);
            out.push(a + 2);
            out.push(a + 2);
            out.push(a + 1);
            out.push(a + 3);
            r = r + 1;
        }
        l = l + 1;
    }
    proof {
        assert forall|l: int, r: int| 0 <= l < leaves && 0 <= r < 6 implies #[trigger] spans(
            out@,
            l,
            r,
        ) by {
            assert(out[36 * l + 6 * r + 0] == strip_segment(l, r)[0]);
            assert(out[36 * l + 6 * r + 1] == strip_segment(l, r)[1]);
            assert(out[36 * l + 6 * r + 2] == strip_segment(l, r)[2]);
            assert(out[36 * l + 6 * r + 3] == strip_segment(l, r)[3]);
            assert(out[36 * l + 6 * r + 4] == strip_segment(l, r)[4]);
            assert(out[36 * l + 6 * r + 5] == strip_segment(l, r)[5]);
        }
    }
    out
}

/// The left and right vertex of rung `r` of leaf `l`: each leaf has seven rungs of two.
pub open spec fn rung(l: int, r: int) -> (int, int) {
    (14 * l + 2 * r, 14 * l + 2 * r + 1)
}

/// The six indices of segment `r` of leaf `l` join a rung to the next with two triangles: the left of the rung, its right, and the left of the next; then the left of the
/// next, the right of the rung, and the right of the next.
pub open spec fn spans(out: Seq<u32>, l: int, r: int) -> bool {
    let at = 36 * l + 6 * r;
    let (left, right) = rung(l, r);
    let (next_left, next_right) = rung(l, r + 1);
    &&& 0 <= at && at + 6 <= out.len()
    &&& (out[at], out[at + 1], out[at + 2]) == (left as u32, right as u32, next_left as u32)
    &&& (out[at + 3], out[at + 4], out[at + 5]) == (
        next_left as u32,
        right as u32,
        next_right as u32,
    )
}

/// Each segment of a strip joins two neighbouring rungs, so a leaf is one strip over all its
/// fourteen vertices.
pub proof fn strips_join_their_rungs(l: int, r: int)
    requires
        0 <= r < 6,
    ensures
        strip_segment(l, r) == seq![
            rung(l, r).0,
            rung(l, r).1,
            rung(l, r + 1).0,
            rung(l, r + 1).0,
            rung(l, r).1,
            rung(l, r + 1).1,
        ],
        rung(l, 0).0 == 14 * l,
        rung(l, 6).1 == 14 * (l + 1) - 1,
{
    assert(strip_segment(l, r) =~= seq![
        rung(l, r).0,
        rung(l, r).1,
        rung(l, r + 1).0,
        rung(l, r + 1).0,
        rung(l, r).1,
        rung(l, r + 1).1,
    ]);
}

/// The thickest wood is that of some anchor, and none is thicker.
pub proof fn thickest_is_the_most(anchors: Seq<Anchor>, i: int) -> (at: int)
    requires
        0 <= i < anchors.len(),
    ensures
        anchors[i].radius <= thickest(anchors),
        0 <= at < anchors.len(),
        anchors[at].radius == thickest(anchors),
    decreases anchors.len(),
{
    let front = anchors.drop_last();
    if front.len() == 0 {
        0
    } else {
        let j = if i < front.len() {
            i
        } else {
            0
        };
        let at = thickest_is_the_most(front, j);
        if anchors.last().radius > thickest(front) {
            anchors.len() - 1
        } else {
            at
        }
    }
}

/// Leaves grow on outer branches, from the third level on, and on the ends of branches that are
/// at most 55 hundredths as thick as the thickest, or on all ends where wood has no thickness.
/// They grow nowhere else.
pub proof fn twigs_are_thin_or_far_out(a: Anchor, most: u32)
    ensures
        a.level >= 3 ==> is_twig(a, most),
        a.level < 3 && !a.terminal ==> !is_twig(a, most),
        a.level < 3 && a.terminal && most > 0 ==> (is_twig(a, most) <==> a.radius * 100 <= most
            * 55),
        a.level < 3 && a.terminal && most == 0 ==> is_twig(a, most),
{
}

/// A leaf's triangles use that leaf's vertices and no other's.
pub proof fn leaves_share_no_vertex(l: int, r: int, q: int)
    requires
        0 <= r < 6,
        0 <= q < 6,
    ensures
        14 * l <= strip_segment(l, r)[q] < 14 * (l + 1),
{
}

/// The bone that a leaf follows: the nearest that is not rigid, the first of them where
/// several are as near, and bone zero if all are rigid. Distances are ordered integers.
pub fn nearest_bone(rigid: &Vec<bool>, distance: &Vec<u64>) -> (best: usize)
    requires
        rigid.len() == distance.len(),
    ensures
        (forall|i: int| 0 <= i < rigid.len() ==> #[trigger] rigid[i]) ==> best == 0,
        (exists|i: int| 0 <= i < rigid.len() && !#[trigger] rigid[i]) ==> {
            &&& best < rigid.len()
            &&& !rigid[best as int]
            &&& forall|i: int|
                0 <= i < rigid.len() && !#[trigger] rigid[i] ==> distance[best as int] < distance[i]
                    || (distance[best as int] == distance[i] && best <= i)
        },
{
    let mut best: usize = 0;
    let mut found: bool = false;
    let mut n: usize = 0;
    while n < rigid.len()
        invariant
            n <= rigid.len() == distance.len(),
            !found ==> best == 0 && forall|i: int| 0 <= i < n ==> #[trigger] rigid[i],
            found ==> {
                &&& best < n
                &&& !rigid[best as int]
                &&& forall|i: int|
                    0 <= i < n && !#[trigger] rigid[i] ==> distance[best as int] < distance[i] || (
                    distance[best as int] == distance[i] && best <= i)
            },
        decreases rigid.len() - n,
    {
        if !rigid[n] && (!found || distance[n] < distance[best]) {
            best = n;
            found = true;
        }
        n = n + 1;
    }
    best
}

/// A leaf counts as the more frond-like the narrower it is: fully where it has no width, not at all
/// from three tenths on, and in proportion between.
pub proof fn narrow_leaves_are_fronds(w: int, x: int)
    ensures
        narrowness(0) == 1_000_000,
        narrowness(300_000) == 0,
        w <= x ==> narrowness(w) >= narrowness(x),
        0 <= narrowness(w) <= 1_000_000,
        0 <= w <= 300_000 ==> 3 * narrowness(w) <= 10 * (300_000 - w) < 3 * narrowness(w) + 3,
{
}

} // verus!
