//! From drainage to river reaches: discharge, channels, junctions.
use vstd::prelude::*;

use crate::rivers::flood::{drains_right, no_later, reached, touches, Drainage, SINK};

verus! {

/// Cells that a reach has at most, less one.
pub const MAX_STEPS: usize = 8192;

/// The sum of a sequence.
pub open spec fn sum(s: Seq<int>) -> int
    decreases s.len(),
{
    if s.len() == 0 {
        0
    } else {
        sum(s.drop_last()) + s.last()
    }
}

proof fn sum_update(s: Seq<int>, i: int, v: int)
    requires
        0 <= i < s.len(),
    ensures
        sum(s.update(i, v)) == sum(s) - s[i] + v,
    decreases s.len(),
{
    let t = s.update(i, v);
    if i == s.len() - 1 {
        assert(t.drop_last() =~= s.drop_last());
    } else {
        sum_update(s.drop_last(), i, v);
        assert(t.drop_last() =~= s.drop_last().update(i, v));
    }
}

proof fn sum_nonneg(s: Seq<int>)
    requires
        forall|i: int| 0 <= i < s.len() ==> 0 <= #[trigger] s[i],
    ensures
        0 <= sum(s),
    decreases s.len(),
{
    if s.len() > 0 {
        assert forall|i: int| 0 <= i < s.drop_last().len() implies 0 <= #[trigger] s.drop_last()[i] by {
            assert(s.drop_last()[i] == s[i]);
        }
        sum_nonneg(s.drop_last());
        assert(s.last() == s[s.len() - 1]);
    }
}

proof fn two_within_sum(s: Seq<int>, i: int, j: int)
    requires
        forall|i: int| 0 <= i < s.len() ==> 0 <= #[trigger] s[i],
        0 <= i < s.len(),
        0 <= j < s.len(),
        i != j,
    ensures
        s[i] + s[j] <= sum(s),
{
    let t = s.update(i, 0);
    let u = t.update(j, 0);
    sum_update(s, i, 0);
    sum_update(t, j, 0);
    sum_nonneg(u);
}

/// The precipitation of all cells.
pub open spec fn rain(precip: Seq<u32>) -> int {
    sum(Seq::new(precip.len(), |i: int| precip[i] as int))
}

proof fn sum_below(s: Seq<int>, most: int)
    requires
        forall|i: int| 0 <= i < s.len() ==> #[trigger] s[i] <= most,
    ensures
        sum(s) <= s.len() * most,
    decreases s.len(),
{
    if s.len() > 0 {
        sum_below(s.drop_last(), most);
        assert(s.len() * most == (s.len() - 1) * most + most) by (nonlinear_arith);
    }
}

proof fn rain_fits(precip: Seq<u32>)
    requires
        precip.len() < SINK,
    ensures
        rain(precip) <= u64::MAX,
{
    let s = Seq::new(precip.len(), |i: int| precip[i] as int);
    sum_below(s, 0xffff_ffff);
}

/// What flows into `c` from those of `cells` that drain to it.
pub open spec fn inflow(flow: Seq<u64>, downstream: Seq<u32>, cells: Seq<u32>, c: int) -> int
    decreases cells.len(),
{
    if cells.len() == 0 {
        0
    } else {
        (if downstream[cells[0] as int] == c {
            flow[cells[0] as int] as int
        } else {
            0
        }) + inflow(flow, downstream, cells.drop_first(), c)
    }
}

proof fn inflow_same(f: Seq<u64>, g: Seq<u64>, downstream: Seq<u32>, cells: Seq<u32>, c: int)
    requires
        forall|i: int|
            0 <= i < cells.len() ==> f[#[trigger] cells[i] as int] == g[cells[i] as int],
    ensures
        inflow(f, downstream, cells, c) == inflow(g, downstream, cells, c),
    decreases cells.len(),
{
    if cells.len() > 0 {
        let rest = cells.drop_first();
        assert forall|i: int| 0 <= i < rest.len() implies f[#[trigger] rest[i] as int]
            == g[rest[i] as int] by {
            assert(rest[i] == cells[i + 1]);
        }
        inflow_same(f, g, downstream, rest, c);
        assert(f[cells[0] as int] == g[cells[0] as int]);
    }
}

/// What leaves the land: the flow of a cell that drains nowhere, nothing of one that does.
pub open spec fn outflow(flow: Seq<u64>, downstream: Seq<u32>) -> Seq<int> {
    Seq::new(
        flow.len(),
        |c: int|
            if downstream[c] == SINK {
                flow[c] as int
            } else {
                0
            },
    )
}

/// In a drainage, a cell's downstream was settled before it.
proof fn downstream_is_earlier(height: Seq<i64>, nbrs: Seq<u32>, d: Drainage, i: int) -> (j: int)
    requires
        d.of(height, nbrs),
        height.len() < SINK,
        0 <= i < d.order.len(),
        d.downstream[d.order[i] as int] != SINK,
    ensures
        0 <= j < i,
        d.order[j] == d.downstream[d.order[i] as int],
{
    let c = d.order[i] as int;
    assert(d.order[i] < height.len());
    assert(drains_right(height, nbrs, d.downstream@, d.filled@, c));
    let e = d.downstream[c] as int;
    assert(d.order@.contains(e as u32));
    let j = choose|j: int| 0 <= j < d.order.len() && d.order@[j] == e as u32;
    assert(d.filled[c] > d.filled[e]);
    if j > i {
        assert(no_later(d.filled@, d.order[i] as int, d.order[j] as int));
    }
    j
}

/// Adds up the precipitation that passes each cell on its way down: its own and that of all
/// cells that drain to it, directly or not.
pub fn accumulate(height: &Vec<i64>, nbrs: &Vec<u32>, d: &Drainage, precip: &Vec<u32>) -> (flow:
    Vec<u64>)
    requires
        height.len() < SINK,
        d.of(height@, nbrs@),
        precip.len() == height.len(),
    ensures
        flow.len() == precip.len(),
        forall|c: int|
            0 <= c < flow.len() ==> #[trigger] flow[c] == precip[c] + inflow(
                flow@,
                d.downstream@,
                d.order@,
                c,
            ),
        sum(outflow(flow@, d.downstream@)) == rain(precip@),
{
    let n: usize = precip.len();
    proof {
        rain_fits(precip@);
    }
    let mut flow: Vec<u64> = Vec::new();
    let mut c: usize = 0;
    while c < n
        invariant
            c <= n == precip.len(),
            flow.len() == c,
            forall|i: int| 0 <= i < c ==> #[trigger] flow[i] == precip[i],
        decreases n - c,
    {
        flow.push(precip[c] as u64);
        c = c + 1;
    }
    let ghost mut held: Seq<int> = Seq::new(n as nat, |i: int| precip@[i] as int);
    let mut i: usize = d.order.len();
    proof {
        assert(d.order@.skip(i as int) =~= Seq::<u32>::empty());
    }
    while i > 0
        invariant
            i <= d.order.len(),
            n == precip.len() == height.len(),
            n < SINK,
            d.of(height@, nbrs@),
            flow.len() == n,
            held.len() == n,
            forall|c: int|
                0 <= c < n ==> #[trigger] flow[c] == precip[c] + inflow(
                    flow@,
                    d.downstream@,
                    d.order@.skip(i as int),
                    c,
                ),
            forall|j: int|
                i <= j < d.order.len() && d.downstream[#[trigger] d.order[j] as int] != SINK
                    ==> held[d.order[j] as int] == 0,
            forall|c: int|
                0 <= c < n && (d.downstream[c] == SINK || !d.order@.skip(i as int).contains(
                    c as u32,
                )) ==> #[trigger] held[c] == flow[c],
            forall|c: int| 0 <= c < n ==> 0 <= #[trigger] held[c],
            sum(held) == rain(precip@),
            rain(precip@) <= u64::MAX,
        decreases i,
    {
        i = i - 1;
        let ghost at = i as int;
        let ghost rest = d.order@.skip(at + 1);
        let ghost now = d.order@.skip(at);
        let ghost f0 = flow@;
        proof {
            assert(now.drop_first() =~= rest);
            assert(now[0] == d.order@[at]);
            assert(d.order[at] < height.len());
        }
        let c: usize = d.order[i] as usize;
        let e: u32 = d.downstream[c];
        proof {
            assert(!rest.contains(c as u32)) by {
                if rest.contains(c as u32) {
                    let j = choose|j: int| 0 <= j < rest.len() && rest[j] == c as u32;
                    assert(d.order@[at + 1 + j] == c as u32);
                    assert(d.order[at] != d.order[at + 1 + j]);
                }
            }
        }
        if e != SINK {
            proof {
                assert(drains_right(height@, nbrs@, d.downstream@, d.filled@, c as int));
                let j = downstream_is_earlier(height@, nbrs@, *d, at);
                assert(!now.contains(e)) by {
                    if now.contains(e) {
                        let m = choose|m: int| 0 <= m < now.len() && now[m] == e;
                        assert(d.order@[at + m] == e);
                        assert(d.order[j] != d.order[at + m]);
                    }
                }
                assert(!rest.contains(e)) by {
                    if rest.contains(e) {
                        let m = choose|m: int| 0 <= m < rest.len() && rest[m] == e;
                        assert(now[m + 1] == e);
                    }
                }
                assert(held[c as int] == flow[c as int]);
                assert(held[e as int] == flow[e as int]);
                assert(e as int != c as int);
                two_within_sum(held, c as int, e as int);
            }
            let add: u64 = flow[c];
            let had: u64 = flow[e as usize];
            flow.set(e as usize, had + add);
            proof {
                let h1 = held.update(c as int, 0);
                sum_update(held, c as int, 0);
                sum_update(h1, e as int, held[e as int] + held[c as int]);
                held = h1.update(e as int, held[e as int] + held[c as int]);
            }
        }
        proof {
            assert forall|x: int| 0 <= x < n implies #[trigger] flow@[x] == precip@[x] + inflow(
                flow@,
                d.downstream@,
                now,
                x,
            ) by {
                assert forall|k: int| 0 <= k < rest.len() implies f0[#[trigger] rest[k] as int]
                    == flow@[rest[k] as int] by {
                    if e != SINK {
                        assert(rest.contains(rest[k]));
                    }
                }
                inflow_same(f0, flow@, d.downstream@, rest, x);
                assert(f0[x] == precip@[x] + inflow(f0, d.downstream@, rest, x));
                if e != SINK {
                    assert(flow@[c as int] == f0[c as int]);
                }
            }
            assert forall|x: int|
                0 <= x < n && (d.downstream[x] == SINK || !now.contains(
                    x as u32,
                )) implies #[trigger] held[x] == flow@[x] by {
                if !now.contains(x as u32) {
                    assert(!rest.contains(x as u32)) by {
                        if rest.contains(x as u32) {
                            let m = choose|m: int| 0 <= m < rest.len() && rest[m] == x as u32;
                            assert(now[m + 1] == x as u32);
                        }
                    }
                    assert(now[0] == c as u32);
                }
            }
            assert forall|j: int|
                at <= j < d.order.len() && d.downstream[#[trigger] d.order[j] as int]
                    != SINK implies held[d.order[j] as int] == 0 by {
                if j > at {
                    assert(rest[j - at - 1] == d.order@[j]);
                    assert(rest.contains(d.order@[j]));
                    assert(d.order[at] != d.order[j]);
                }
            }
        }
    }
    proof {
        assert(d.order@.skip(0) =~= d.order@);
        assert(held =~= outflow(flow@, d.downstream@)) by {
            assert forall|x: int| 0 <= x < n implies held[x] == outflow(
                flow@,
                d.downstream@,
            )[x] by {
                if d.downstream[x] != SINK {
                    assert(reached(height@, d.downstream@, x));
                    let j = choose|j: int| 0 <= j < d.order.len() && d.order@[j] == x as u32;
                    assert(d.order[j] == x as u32);
                }
            }
        }
    }
    flow
}

/// Land that enough water passes.
pub open spec fn is_channel(height: Seq<i64>, flow: Seq<u64>, threshold: u64, c: int) -> bool {
    height[c] >= 0 && flow[c] >= threshold
}

/// Marks the channel cells.
pub fn channels(height: &Vec<i64>, flow: &Vec<u64>, threshold: u64) -> (mask: Vec<bool>)
    requires
        flow.len() == height.len(),
    ensures
        mask.len() == height.len(),
        forall|c: int|
            0 <= c < mask.len() ==> #[trigger] mask[c] == is_channel(
                height@,
                flow@,
                threshold,
                c,
            ),
{
    let mut mask: Vec<bool> = Vec::new();
    let mut c: usize = 0;
    while c < height.len()
        invariant
            c <= height.len() == flow.len(),
            mask.len() == c,
            forall|i: int|
                0 <= i < c ==> #[trigger] mask[i] == is_channel(height@, flow@, threshold, i),
        decreases height.len() - c,
    {
        mask.push(height[c] >= 0 && flow[c] >= threshold);
        c = c + 1;
    }
    mask
}

/// How many of the first `n` cells are channels that drain to `c`.
pub open spec fn tributaries(downstream: Seq<u32>, mask: Seq<bool>, n: int, c: int) -> nat
    decreases n,
{
    if n <= 0 {
        0
    } else {
        tributaries(downstream, mask, n - 1, c) + (if mask[n - 1] && downstream[n - 1] == c {
            1nat
        } else {
            0nat
        })
    }
}

proof fn tributaries_fit(downstream: Seq<u32>, mask: Seq<bool>, n: int, c: int)
    requires
        n >= 0,
    ensures
        tributaries(downstream, mask, n, c) <= n,
    decreases n,
{
    if n > 0 {
        tributaries_fit(downstream, mask, n - 1, c);
    }
}

/// Every downstream is a cell or [`SINK`].
pub open spec fn leads_on(downstream: Seq<u32>, n: int) -> bool {
    forall|c: int|
        0 <= c < downstream.len() ==> (#[trigger] downstream[c]) < n || downstream[c] == SINK
}

/// Counts, for each channel cell, the channel cells that drain to it.
pub fn in_degrees(downstream: &Vec<u32>, mask: &Vec<bool>) -> (indeg: Vec<u32>)
    requires
        mask.len() == downstream.len(),
        downstream.len() < SINK,
        leads_on(downstream@, downstream.len() as int),
    ensures
        indeg.len() == mask.len(),
        forall|c: int|
            0 <= c < indeg.len() ==> #[trigger] indeg[c] == (if mask[c] {
                tributaries(downstream@, mask@, mask.len() as int, c)
            } else {
                0
            }),
{
    let n: usize = mask.len();
    let mut indeg: Vec<u32> = Vec::new();
    let mut c: usize = 0;
    while c < n
        invariant
            c <= n,
            indeg.len() == c,
            forall|i: int| 0 <= i < c ==> #[trigger] indeg[i] == 0,
        decreases n - c,
    {
        indeg.push(0);
        c = c + 1;
    }
    c = 0;
    while c < n
        invariant
            c <= n,
            n == mask.len() == downstream.len(),
            n < SINK,
            leads_on(downstream@, n as int),
            indeg.len() == n,
            forall|x: int|
                0 <= x < n ==> #[trigger] indeg[x] == (if mask[x] {
                    tributaries(downstream@, mask@, c as int, x)
                } else {
                    0
                }),
        decreases n - c,
    {
        if mask[c] {
            let d: u32 = downstream[c];
            if d != SINK && mask[d as usize] {
                proof {
                    tributaries_fit(downstream@, mask@, c as int, d as int);
                }
                let was: u32 = indeg[d as usize];
                indeg.set(d as usize, was + 1);
            }
        }
        c = c + 1;
    }
    indeg
}

/// The reach ends at its `i`-th cell, `cur`: a confluence that it came down to, an outlet,
/// or the most cells a reach has.
pub open spec fn ends(
    downstream: Seq<u32>,
    indeg: Seq<u32>,
    mask: Seq<bool>,
    i: int,
    cur: int,
) -> bool {
    ||| i > 0 && indeg[cur] >= 2
    ||| downstream[cur] == SINK
    ||| !mask[downstream[cur] as int]
    ||| i == MAX_STEPS
}

/// `cells` is the reach from `start`: downstream step by step to the first cell that ends it.
pub open spec fn is_reach(
    downstream: Seq<u32>,
    indeg: Seq<u32>,
    mask: Seq<bool>,
    start: u32,
    cells: Seq<u32>,
) -> bool {
    &&& cells.len() > 0
    &&& cells[0] == start
    &&& forall|i: int| 0 <= i < cells.len() ==> (#[trigger] cells[i]) < downstream.len()
    &&& forall|i: int|
        0 <= i < cells.len() - 1 ==> cells[i + 1] == downstream[#[trigger] cells[i] as int]
            && !ends(downstream, indeg, mask, i, cells[i] as int)
    &&& ends(downstream, indeg, mask, cells.len() - 1, cells.last() as int)
}

/// Walks downstream from a node of the network to the next confluence or outlet.
pub fn walk_reach(start: u32, downstream: &Vec<u32>, indeg: &Vec<u32>, mask: &Vec<bool>) -> (cells:
    Vec<u32>)
    requires
        start < downstream.len(),
        indeg.len() == downstream.len(),
        mask.len() == downstream.len(),
        leads_on(downstream@, downstream.len() as int),
    ensures
        is_reach(downstream@, indeg@, mask@, start, cells@),
{
    let mut cells: Vec<u32> = Vec::new();
    let mut cur: u32 = start;
    let mut step: usize = 0;
    cells.push(cur);
    loop
        invariant
            step <= MAX_STEPS,
            start < downstream.len(),
            indeg.len() == downstream.len(),
            mask.len() == downstream.len(),
            leads_on(downstream@, downstream.len() as int),
            cells.len() == step + 1,
            cells[0] == start,
            cells@.last() == cur,
            forall|i: int| 0 <= i < cells.len() ==> (#[trigger] cells[i]) < downstream.len(),
            forall|i: int|
                0 <= i < cells.len() - 1 ==> cells@[i + 1] == downstream[#[trigger] cells@[i] as int]
                    && !ends(downstream@, indeg@, mask@, i, cells@[i] as int),
        ensures
            is_reach(downstream@, indeg@, mask@, start, cells@),
        decreases MAX_STEPS - step,
    {
        proof {
            assert(cells[step as int] < downstream.len());
        }
        if step > 0 && indeg[cur as usize] >= 2 {
            break ;
        }
        let d: u32 = downstream[cur as usize];
        if d == SINK || !mask[d as usize] {
            break ;
        }
        if step == MAX_STEPS {
            break ;
        }
        let ghost was = cells@;
        cells.push(d);
        step = step + 1;
        proof {
            assert forall|i: int| 0 <= i < cells.len() - 1 implies cells@[i + 1]
                == downstream[#[trigger] cells@[i] as int] && !ends(
                downstream@,
                indeg@,
                mask@,
                i,
                cells@[i] as int,
            ) by {
                assert(cells@[i] == was[i]);
                if i + 1 < was.len() {
                    assert(cells@[i + 1] == was[i + 1]);
                }
            }
        }
        cur = d;
    }
    cells
}

/// A node of the network among the first `n` cells: a channel cell where a reach starts, a
/// source or a confluence.
pub open spec fn nodes(indeg: Seq<u32>, mask: Seq<bool>, n: int) -> Seq<u32>
    decreases n,
{
    if n <= 0 {
        Seq::empty()
    } else if mask[n - 1] && indeg[n - 1] != 1 {
        nodes(indeg, mask, n - 1).push((n - 1) as u32)
    } else {
        nodes(indeg, mask, n - 1)
    }
}

/// There is sea.
pub open spec fn has_sea(height: Seq<i64>) -> bool {
    exists|c: int| 0 <= c < height.len() && #[trigger] height[c] < 0
}

/// The reaches of the river network, one from each source and each confluence, in the order
/// of the cells that they start from. Without a sea there are none.
pub fn trace_rivers(height: &Vec<i64>, nbrs: &Vec<u32>, d: &Drainage, flow: &Vec<u64>, threshold: u64) -> (reaches:
    Vec<Vec<u32>>)
    requires
        height.len() < SINK,
        d.of(height@, nbrs@),
        flow.len() == height.len(),
    ensures
        !has_sea(height@) ==> reaches.len() == 0,
        has_sea(height@) ==> exists|mask: Seq<bool>, indeg: Seq<u32>|
            network(height@, d.downstream@, flow@, threshold, mask, indeg) && #[trigger] traced(
                d.downstream@,
                mask,
                indeg,
                reaches@,
            ),
{
    let mut reaches: Vec<Vec<u32>> = Vec::new();
    let n: usize = height.len();
    let mut sea: bool = false;
    let mut c: usize = 0;
    while c < n
        invariant
            c <= n == height.len(),
            sea <==> exists|i: int| 0 <= i < c && #[trigger] height@[i] < 0,
        decreases n - c,
    {
        if height[c] < 0 {
            sea = true;
        }
        c = c + 1;
    }
    if !sea {
        return reaches;
    }
    proof {
        assert forall|c: int| 0 <= c < n implies (#[trigger] d.downstream@[c]) < n
            || d.downstream@[c] == SINK by {
            if d.downstream[c] != SINK {
                assert(drains_right(height@, nbrs@, d.downstream@, d.filled@, c));
            }
        }
    }
    let mask = channels(height, flow, threshold);
    let indeg = in_degrees(&d.downstream, &mask);
    c = 0;
    while c < n
        invariant
            c <= n,
            n == height.len() == mask.len() == indeg.len() == d.downstream.len(),
            n < SINK,
            leads_on(d.downstream@, n as int),
            reaches.len() == nodes(indeg@, mask@, c as int).len(),
            forall|i: int|
                0 <= i < reaches.len() ==> is_reach(
                    d.downstream@,
                    indeg@,
                    mask@,
                    nodes(indeg@, mask@, c as int)[i],
                    (#[trigger] reaches[i])@,
                ),
        decreases n - c,
    {
        if mask[c] && indeg[c] != 1 {
            let reach = walk_reach(c as u32, &d.downstream, &indeg, &mask);
            reaches.push(reach);
        }
        c = c + 1;
    }
    proof {
        assert(network(height@, d.downstream@, flow@, threshold, mask@, indeg@));
        assert(traced(d.downstream@, mask@, indeg@, reaches@));
    }
    reaches
}

/// `mask` marks the channels and `indeg` counts their tributaries.
pub open spec fn network(
    height: Seq<i64>,
    downstream: Seq<u32>,
    flow: Seq<u64>,
    threshold: u64,
    mask: Seq<bool>,
    indeg: Seq<u32>,
) -> bool {
    &&& mask.len() == height.len()
    &&& indeg.len() == height.len()
    &&& forall|c: int|
        0 <= c < mask.len() ==> #[trigger] mask[c] == is_channel(height, flow, threshold, c)
    &&& forall|c: int|
        0 <= c < indeg.len() ==> #[trigger] indeg[c] == (if mask[c] {
            tributaries(downstream, mask, mask.len() as int, c)
        } else {
            0
        })
}

/// `reaches` are the reaches from all nodes, in order.
pub open spec fn traced(
    downstream: Seq<u32>,
    mask: Seq<bool>,
    indeg: Seq<u32>,
    reaches: Seq<Vec<u32>>,
) -> bool {
    &&& reaches.len() == nodes(indeg, mask, mask.len() as int).len()
    &&& forall|i: int|
        0 <= i < reaches.len() ==> is_reach(
            downstream,
            indeg,
            mask,
            nodes(indeg, mask, mask.len() as int)[i],
            (#[trigger] reaches[i])@,
        )
}

/// The cell `k` steps downstream.
pub open spec fn down(downstream: Seq<u32>, c: int, k: nat) -> int
    decreases k,
{
    if k == 0 {
        c
    } else {
        downstream[down(downstream, c, (k - 1) as nat)] as int
    }
}

proof fn down_shift(downstream: Seq<u32>, c: int, k: nat)
    ensures
        down(downstream, c, k + 1) == down(downstream, downstream[c] as int, k),
    decreases k,
{
    reveal_with_fuel(down, 2);
    if k > 0 {
        down_shift(downstream, c, (k - 1) as nat);
    }
}

/// Every cell that the water reaches drains to the sea: step by step downstream, always
/// lower, until a sea cell.
pub proof fn everything_reached_drains_to_the_sea(
    height: Seq<i64>,
    nbrs: Seq<u32>,
    d: Drainage,
    c: int,
) -> (k: nat)
    requires
        height.len() < SINK,
        d.of(height, nbrs),
        0 <= c < height.len(),
        reached(height, d.downstream@, c),
    ensures
        0 <= down(d.downstream@, c, k) < height.len(),
        height[down(d.downstream@, c, k)] < 0,
        forall|j: nat|
            j < k ==> {
                &&& 0 <= #[trigger] down(d.downstream@, c, j) < height.len()
                &&& height[down(d.downstream@, c, j)] >= 0
                &&& d.filled[down(d.downstream@, c, (j + 1) as nat)] < d.filled[down(
                    d.downstream@,
                    c,
                    j,
                )]
            },
{
    assert(d.order@.contains(c as u32));
    let i = choose|i: int| 0 <= i < d.order.len() && d.order@[i] == c as u32;
    drains_from(height, nbrs, d, i)
}

/// `path` leads from a sea cell on from neighbour to neighbour.
pub open spec fn leads_inland(height: Seq<i64>, nbrs: Seq<u32>, path: Seq<int>) -> bool {
    &&& path.len() > 0
    &&& height[path[0]] < 0
    &&& forall|i: int| 0 <= i < path.len() ==> 0 <= #[trigger] path[i] < height.len()
    &&& forall|i: int|
        0 < i < path.len() ==> touches(nbrs, path[i - 1], #[trigger] path[i])
}

/// The water reaches every cell that is joined to a sea cell by a path of neighbours.
pub proof fn joined_cells_are_reached(
    height: Seq<i64>,
    nbrs: Seq<u32>,
    d: Drainage,
    path: Seq<int>,
)
    requires
        d.of(height, nbrs),
        leads_inland(height, nbrs, path),
    ensures
        reached(height, d.downstream@, path.last()),
    decreases path.len(),
{
    if path.len() > 1 {
        let front = path.drop_last();
        assert forall|i: int| 0 < i < front.len() implies touches(
            nbrs,
            front[i - 1],
            #[trigger] front[i],
        ) by {
            assert(front[i] == path[i]);
        }
        joined_cells_are_reached(height, nbrs, d, front);
        let p = front.last();
        let c = path[path.len() - 1];
        assert(p == path[path.len() - 2]);
        assert(touches(nbrs, p, c));
        let k = choose|k: int| 0 <= k < 8 && #[trigger] nbrs[8 * p + k] == c;
        assert(0 <= path[path.len() - 2] < height.len());
        assert(reached(height, d.downstream@, nbrs[8 * p + k] as int));
    }
}

/// Every cell that is joined to a sea cell by a path of neighbours drains to the sea: step by step
/// downstream, always lower, until a sea cell.
pub proof fn joined_cells_drain_to_the_sea(
    height: Seq<i64>,
    nbrs: Seq<u32>,
    d: Drainage,
    path: Seq<int>,
) -> (k: nat)
    requires
        height.len() < SINK,
        d.of(height, nbrs),
        leads_inland(height, nbrs, path),
    ensures
        0 <= down(d.downstream@, path.last(), k) < height.len(),
        height[down(d.downstream@, path.last(), k)] < 0,
        forall|j: nat|
            j < k ==> {
                &&& 0 <= #[trigger] down(d.downstream@, path.last(), j) < height.len()
                &&& height[down(d.downstream@, path.last(), j)] >= 0
                &&& d.filled[down(d.downstream@, path.last(), (j + 1) as nat)] < d.filled[down(
                    d.downstream@,
                    path.last(),
                    j,
                )]
            },
{
    joined_cells_are_reached(height, nbrs, d, path);
    assert(0 <= path[path.len() - 1] < height.len());
    everything_reached_drains_to_the_sea(height, nbrs, d, path.last())
}

proof fn drains_from(height: Seq<i64>, nbrs: Seq<u32>, d: Drainage, i: int) -> (k: nat)
    requires
        height.len() < SINK,
        d.of(height, nbrs),
        0 <= i < d.order.len(),
    ensures
        0 <= down(d.downstream@, d.order[i] as int, k) < height.len(),
        height[down(d.downstream@, d.order[i] as int, k)] < 0,
        forall|j: nat|
            j < k ==> {
                &&& 0 <= #[trigger] down(d.downstream@, d.order[i] as int, j) < height.len()
                &&& height[down(d.downstream@, d.order[i] as int, j)] >= 0
                &&& d.filled[down(d.downstream@, d.order[i] as int, (j + 1) as nat)] < d.filled[down(
                    d.downstream@,
                    d.order[i] as int,
                    j,
                )]
            },
    decreases i,
{
    let c = d.order[i] as int;
    assert(d.order[i] < height.len());
    if height[c] < 0 {
        0
    } else {
        assert(d.downstream[c] != SINK);
        assert(drains_right(height, nbrs, d.downstream@, d.filled@, c));
        let p = downstream_is_earlier(height, nbrs, d, i);
        let e = d.downstream[c] as int;
        let k = drains_from(height, nbrs, d, p);
        down_shift(d.downstream@, c, k);
        assert forall|j: nat| j < k + 1 implies {
            &&& 0 <= #[trigger] down(d.downstream@, c, j) < height.len()
            &&& height[down(d.downstream@, c, j)] >= 0
            &&& d.filled[down(d.downstream@, c, (j + 1) as nat)] < d.filled[down(
                d.downstream@,
                c,
                j,
            )]
        } by {
            down_shift(d.downstream@, c, j);
            if j > 0 {
                down_shift(d.downstream@, c, (j - 1) as nat);
                assert(0 <= down(d.downstream@, e, (j - 1) as nat));
            } else {
                reveal_with_fuel(down, 2);
            }
        }
        k + 1
    }
}

proof fn inflow_bounds(flow: Seq<u64>, downstream: Seq<u32>, cells: Seq<u32>, c: int, x: u32)
    requires
        cells.contains(x),
        downstream[x as int] == c,
    ensures
        inflow(flow, downstream, cells, c) >= flow[x as int],
    decreases cells.len(),
{
    let rest = cells.drop_first();
    inflow_nonneg(flow, downstream, rest, c);
    if cells[0] != x {
        let n = choose|n: int| 0 <= n < cells.len() && cells[n] == x;
        assert(rest[n - 1] == x);
        inflow_bounds(flow, downstream, rest, c, x);
    }
}

proof fn inflow_nonneg(flow: Seq<u64>, downstream: Seq<u32>, cells: Seq<u32>, c: int)
    ensures
        inflow(flow, downstream, cells, c) >= 0,
    decreases cells.len(),
{
    if cells.len() > 0 {
        inflow_nonneg(flow, downstream, cells.drop_first(), c);
    }
}

/// Discharge never shrinks on the way down.
pub proof fn discharge_grows_downstream(
    height: Seq<i64>,
    nbrs: Seq<u32>,
    d: Drainage,
    precip: Seq<u32>,
    flow: Seq<u64>,
    c: int,
)
    requires
        height.len() < SINK,
        d.of(height, nbrs),
        precip.len() == height.len(),
        flow.len() == height.len(),
        forall|c: int|
            0 <= c < flow.len() ==> #[trigger] flow[c] == precip[c] + inflow(
                flow,
                d.downstream@,
                d.order@,
                c,
            ),
        0 <= c < height.len(),
        d.downstream[c] != SINK,
    ensures
        flow[d.downstream[c] as int] >= flow[c],
{
    assert(drains_right(height, nbrs, d.downstream@, d.filled@, c));
    assert(reached(height, d.downstream@, c));
    let e = d.downstream[c] as int;
    inflow_bounds(flow, d.downstream@, d.order@, e, c as u32);
    assert(flow[e] == precip[e] + inflow(flow, d.downstream@, d.order@, e));
}

/// A river does not run dry: what a channel cell drains to is a channel too, or the sea.
pub proof fn channels_run_to_the_sea(
    height: Seq<i64>,
    nbrs: Seq<u32>,
    d: Drainage,
    precip: Seq<u32>,
    flow: Seq<u64>,
    threshold: u64,
    c: int,
)
    requires
        height.len() < SINK,
        d.of(height, nbrs),
        precip.len() == height.len(),
        flow.len() == height.len(),
        forall|c: int|
            0 <= c < flow.len() ==> #[trigger] flow[c] == precip[c] + inflow(
                flow,
                d.downstream@,
                d.order@,
                c,
            ),
        0 <= c < height.len(),
        is_channel(height, flow, threshold, c),
        d.downstream[c] != SINK,
    ensures
        is_channel(height, flow, threshold, d.downstream[c] as int)
            || height[d.downstream[c] as int] < 0,
{
    discharge_grows_downstream(height, nbrs, d, precip, flow, c);
}

/// Some reach passes through `c`.
pub open spec fn on_a_reach(reaches: Seq<Vec<u32>>, c: int) -> bool {
    exists|r: int| 0 <= r < reaches.len() && (#[trigger] reaches[r])@.contains(c as u32)
}

proof fn some_tributary(downstream: Seq<u32>, mask: Seq<bool>, n: int, c: int) -> (x: int)
    requires
        tributaries(downstream, mask, n, c) > 0,
    ensures
        0 <= x < n,
        mask[x],
        downstream[x] == c,
    decreases n,
{
    if n > 0 && mask[n - 1] && downstream[n - 1] == c {
        n - 1
    } else {
        some_tributary(downstream, mask, n - 1, c)
    }
}

proof fn node_place(indeg: Seq<u32>, mask: Seq<bool>, n: int, c: int) -> (r: int)
    requires
        0 <= c < n <= u32::MAX,
        mask[c],
        indeg[c] != 1,
    ensures
        0 <= r < nodes(indeg, mask, n).len(),
        nodes(indeg, mask, n)[r] == c,
    decreases n,
{
    if c == n - 1 {
        nodes(indeg, mask, n).len() - 1
    } else {
        let r = node_place(indeg, mask, n - 1, c);
        assert(nodes(indeg, mask, n)[r] == nodes(indeg, mask, n - 1)[r]);
        r
    }
}

/// The reaches miss no channel: unless one was cut short, every channel cell lies on one.
pub proof fn reaches_cover_the_channels(
    height: Seq<i64>,
    nbrs: Seq<u32>,
    d: Drainage,
    flow: Seq<u64>,
    threshold: u64,
    mask: Seq<bool>,
    indeg: Seq<u32>,
    reaches: Seq<Vec<u32>>,
    c: int,
)
    requires
        height.len() < SINK,
        d.of(height, nbrs),
        network(height, d.downstream@, flow, threshold, mask, indeg),
        traced(d.downstream@, mask, indeg, reaches),
        forall|r: int| 0 <= r < reaches.len() ==> (#[trigger] reaches[r]).len() <= MAX_STEPS,
        0 <= c < height.len(),
        mask[c],
    ensures
        on_a_reach(reaches, c),
    decreases
            if d.order@.contains(c as u32) {
                d.order.len() - d.order@.index_of(c as u32)
            } else {
                0
            },
{
    let n = mask.len() as int;
    let down = d.downstream@;
    if indeg[c] != 1 {
        let r = node_place(indeg, mask, n, c);
        assert(reaches[r]@[0] == c as u32);
        assert(reaches[r]@.contains(c as u32));
    } else {
        let x = some_tributary(down, mask, n, c);
        assert(drains_right(height, nbrs, down, d.filled@, x));
        assert(reached(height, down, x));
        assert(reached(height, down, c));
        let px = d.order@.index_of(x as u32);
        let pc = d.order@.index_of(c as u32);
        assert(d.order@.contains(x as u32));
        assert(d.order@.contains(c as u32));
        let j = downstream_is_earlier(height, nbrs, d, px);
        assert(pc == j) by {
            if pc < j {
                assert(d.order[pc] != d.order[j]);
            } else if j < pc {
                assert(d.order[j] != d.order[pc]);
            }
        }
        reaches_cover_the_channels(
            height,
            nbrs,
            d,
            flow,
            threshold,
            mask,
            indeg,
            reaches,
            x,
        );
        let r = choose|r: int|
            0 <= r < reaches.len() && (#[trigger] reaches[r])@.contains(x as u32);
        let cells = reaches[r]@;
        let p = choose|p: int| 0 <= p < cells.len() && cells[p] == x as u32;
        assert(is_reach(down, indeg, mask, nodes(indeg, mask, n)[r], cells));
        if p < cells.len() - 1 {
            assert(cells[p + 1] == down[cells[p] as int]);
            assert(cells.contains(c as u32));
        } else {
            assert(ends(down, indeg, mask, p, x));
            let q = node_place(indeg, mask, n, x);
            let more = reaches[q]@;
            assert(is_reach(down, indeg, mask, nodes(indeg, mask, n)[q], more));
            assert(more[0] == x as u32);
            assert(!ends(down, indeg, mask, 0, x));
            let z: int = 0;
            assert(more[z + 1] == down[more[z] as int]);
            assert(more.contains(c as u32));
        }
    }
}

/// How high water must stand to come along a path from the sea: at each cell at least at the
/// ground, and one step above the cell before.
pub open spec fn rise(height: Seq<i64>, path: Seq<int>) -> int
    decreases path.len(),
{
    if path.len() <= 1 {
        height[path[0]] as int
    } else if height[path.last()] > rise(height, path.drop_last()) + 1 {
        height[path.last()] as int
    } else {
        rise(height, path.drop_last()) + 1
    }
}

/// Water stands no higher than any way from the sea makes it.
pub proof fn water_finds_the_lowest_way(
    height: Seq<i64>,
    nbrs: Seq<u32>,
    d: Drainage,
    path: Seq<int>,
)
    requires
        height.len() < SINK,
        d.of(height, nbrs),
        leads_inland(height, nbrs, path),
    ensures
        d.filled[path.last()] <= rise(height, path),
        d.filled[path.last()] >= height[path.last()],
    decreases path.len(),
{
    let c = path.last();
    assert(0 <= path[path.len() - 1] < height.len());
    joined_cells_are_reached(height, nbrs, d, path);
    if path.len() > 1 {
        let front = path.drop_last();
        assert forall|i: int| 0 < i < front.len() implies touches(
            nbrs,
            front[i - 1],
            #[trigger] front[i],
        ) by {
            assert(front[i] == path[i]);
        }
        water_finds_the_lowest_way(height, nbrs, d, front);
        joined_cells_are_reached(height, nbrs, d, front);
        let p = front.last();
        assert(p == path[path.len() - 2]);
        assert(0 <= path[path.len() - 2] < height.len());
        assert(touches(nbrs, p, c));
        if d.downstream[c] != SINK {
            assert(drains_right(height, nbrs, d.downstream@, d.filled@, c));
            assert(no_later(d.filled@, d.downstream[c] as int, p));
        }
    }
    if d.downstream[c] != SINK {
        assert(drains_right(height, nbrs, d.downstream@, d.filled@, c));
    }
}

/// And it stands as high as some way from the sea makes it: the way against its own flow.
pub proof fn water_comes_from_the_sea(height: Seq<i64>, nbrs: Seq<u32>, d: Drainage, c: int) -> (path:
    Seq<int>)
    requires
        height.len() < SINK,
        d.of(height, nbrs),
        0 <= c < height.len(),
        reached(height, d.downstream@, c),
    ensures
        leads_inland(height, nbrs, path),
        path.last() == c,
        d.filled[c] == rise(height, path),
{
    assert(d.order@.contains(c as u32));
    let i = choose|i: int| 0 <= i < d.order.len() && d.order@[i] == c as u32;
    way_from_the_sea(height, nbrs, d, i)
}

proof fn way_from_the_sea(height: Seq<i64>, nbrs: Seq<u32>, d: Drainage, i: int) -> (path: Seq<int>)
    requires
        height.len() < SINK,
        d.of(height, nbrs),
        0 <= i < d.order.len(),
    ensures
        leads_inland(height, nbrs, path),
        path.last() == d.order[i],
        d.filled[d.order[i] as int] == rise(height, path),
    decreases i,
{
    let c = d.order[i] as int;
    assert(d.order[i] < height.len());
    if height[c] < 0 {
        assert(d.downstream[c] == SINK);
        assert(d.filled[c] == height[c]);
        seq![c]
    } else {
        assert(d.downstream[c] != SINK);
        assert(drains_right(height, nbrs, d.downstream@, d.filled@, c));
        let j = downstream_is_earlier(height, nbrs, d, i);
        let front = way_from_the_sea(height, nbrs, d, j);
        let path = front.push(c);
        assert(path.drop_last() =~= front);
        assert forall|k: int| 0 <= k < path.len() implies 0 <= #[trigger] path[k] < height.len() by {
            if k < front.len() {
                assert(path[k] == front[k]);
            }
        }
        assert forall|k: int| 0 < k < path.len() implies touches(
            nbrs,
            path[k - 1],
            #[trigger] path[k],
        ) by {
            if k < front.len() {
                assert(path[k] == front[k]);
                assert(path[k - 1] == front[k - 1]);
            } else {
                assert(path[k - 1] == front.last());
            }
        }
        path
    }
}

/// Channels are the land cells that enough water passes: the sea is none, and with a higher
/// threshold there are no more.
pub proof fn channels_are_wet_land(height: Seq<i64>, flow: Seq<u64>, low: u64, high: u64, c: int)
    requires
        low <= high,
    ensures
        is_channel(height, flow, high, c) ==> is_channel(height, flow, low, c),
        is_channel(height, flow, low, c) ==> height[c] >= 0 && flow[c] >= low,
        height[c] >= 0 ==> is_channel(height, flow, flow[c], c),
{
}

/// The channel cells among the first `n` that drain to `c`.
pub open spec fn drain_to(downstream: Seq<u32>, mask: Seq<bool>, n: int, c: int) -> Set<int> {
    Set::new(|x: int| 0 <= x < n && mask[x] && downstream[x] == c)
}

/// The in-degree of a cell is the number of channel cells that drain to it.
pub proof fn tributaries_are_counted(downstream: Seq<u32>, mask: Seq<bool>, n: int, c: int)
    requires
        0 <= n,
    ensures
        drain_to(downstream, mask, n, c).finite(),
        tributaries(downstream, mask, n, c) == drain_to(downstream, mask, n, c).len(),
    decreases n,
{
    if n > 0 {
        tributaries_are_counted(downstream, mask, n - 1, c);
        let was = drain_to(downstream, mask, n - 1, c);
        let now = drain_to(downstream, mask, n, c);
        if mask[n - 1] && downstream[n - 1] == c {
            assert(now =~= was.insert(n - 1));
        } else {
            assert(now =~= was);
        }
    } else {
        assert(drain_to(downstream, mask, n, c) =~= Set::<int>::empty());
    }
}

/// Reaches start at the sources and the confluences, all of them, in the order of the cells.
pub proof fn reaches_start_at_nodes(indeg: Seq<u32>, mask: Seq<bool>, n: int, c: int)
    requires
        0 <= n <= u32::MAX,
        0 <= c < n,
    ensures
        nodes(indeg, mask, n).contains(c as u32) <==> mask[c] && (indeg[c] == 0 || indeg[c] >= 2),
        forall|i: int|
            0 <= i < nodes(indeg, mask, n).len() ==> (#[trigger] nodes(indeg, mask, n)[i]) < n,
        forall|i: int, j: int|
            0 <= i < j < nodes(indeg, mask, n).len() ==> (#[trigger] nodes(indeg, mask, n)[i]) < (
            #[trigger] nodes(indeg, mask, n)[j]),
    decreases n,
{
    let all = nodes(indeg, mask, n);
    let front = nodes(indeg, mask, n - 1);
    if n > 1 {
        let k = if c < n - 1 {
            c
        } else {
            0
        };
        reaches_start_at_nodes(indeg, mask, n - 1, k);
    }
    if mask[n - 1] && indeg[n - 1] != 1 {
        assert(all[front.len() as int] == n - 1);
        if front.contains(c as u32) {
            let k = choose|k: int| 0 <= k < front.len() && front[k] == c as u32;
            assert(all[k] == c as u32);
        }
        if all.contains(c as u32) && c < n - 1 {
            let k = choose|k: int| 0 <= k < all.len() && all[k] == c as u32;
            assert(front[k] == c as u32);
        }
    }
    if front.contains((n - 1) as u32) {
        let k = choose|k: int| 0 <= k < front.len() && front[k] == (n - 1) as u32;
        assert(front[k] < n - 1);
    }
}

/// A reach goes on from cell to cell through channels: it passes no confluence on its way and
/// stops at the first, or where the channel ends, or when it has become very long.
pub proof fn reaches_pass_no_confluence(
    downstream: Seq<u32>,
    indeg: Seq<u32>,
    mask: Seq<bool>,
    start: u32,
    cells: Seq<u32>,
    i: int,
)
    requires
        is_reach(downstream, indeg, mask, start, cells),
        0 <= i < cells.len(),
    ensures
        cells.first() == start,
        0 < i < cells.len() - 1 ==> indeg[cells[i] as int] < 2,
        i < cells.len() - 1 ==> cells[i + 1] == downstream[cells[i] as int] && mask[cells[i
            + 1] as int],
        cells.len() <= 8193 ==> i == cells.len() - 1 && i < 8192 ==> (i > 0 && indeg[cells[i] as int]
            >= 2) || downstream[cells[i] as int] == SINK || !mask[downstream[cells[i] as int] as int],
        i < 8192 || i == cells.len() - 1,
{
    if i < cells.len() - 1 {
        assert(!ends(downstream, indeg, mask, i, cells[i] as int));
    }
    if i > 8192 {
        assert(!ends(downstream, indeg, mask, 8192, cells[8192] as int));
    }
}

/// Water takes the lowest of the cells around that the sea reaches, and of those that are level the
/// one with the lowest number.
pub proof fn water_takes_the_lowest_neighbour(
    height: Seq<i64>,
    nbrs: Seq<u32>,
    d: Drainage,
    c: int,
    p: int,
)
    requires
        height.len() < SINK,
        d.of(height, nbrs),
        0 <= c < height.len(),
        0 <= p < height.len(),
        d.downstream[c] != SINK,
        height[p] < 0 || d.downstream[p] != SINK,
        touches(nbrs, p, c),
    ensures
        d.filled[d.downstream[c] as int] <= d.filled[p],
        d.filled[d.downstream[c] as int] == d.filled[p] ==> d.downstream[c] <= p,
        d.filled[c] > d.filled[d.downstream[c] as int],
{
    assert(drains_right(height, nbrs, d.downstream@, d.filled@, c));
    assert(reached(height, d.downstream@, p));
    assert(no_later(d.filled@, d.downstream[c] as int, p));
}

/// The cells are told from the lowest water up, and those that are level by their numbers.
pub proof fn cells_are_told_from_the_sea_up(
    height: Seq<i64>,
    nbrs: Seq<u32>,
    d: Drainage,
    i: int,
    j: int,
)
    requires
        height.len() < SINK,
        d.of(height, nbrs),
        0 <= i < j < d.order.len(),
    ensures
        d.filled[d.order[i] as int] <= d.filled[d.order[j] as int],
        d.filled[d.order[i] as int] == d.filled[d.order[j] as int] ==> d.order[i] < d.order[j],
{
    assert(no_later(d.filled@, d.order[i] as int, d.order[j] as int));
    assert(d.order[i] < height.len() && d.order[j] < height.len());
}

} // verus!
