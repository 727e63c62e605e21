//! Drainage: depressions filled from the sea upward, and a direction of flow for each cell.
//!
//! Heights are whole steps of the fill increment, below zero for the sea. The lowest cell
//! that the water has reached is settled first; it fills its neighbours to at least one step
//! above itself and has them drain to it.
use vstd::prelude::*;

use crate::rivers::heap::{le, MinHeap};

verus! {

/// The downstream of a cell that drains nowhere.
pub const SINK: u32 = 0xFFFF_FFFF;

/// Every cell has eight neighbours in the table, all of them cells.
pub open spec fn grid_ok(nbrs: Seq<u32>, n: int) -> bool {
    &&& nbrs.len() == 8 * n
    &&& forall|i: int| 0 <= i < nbrs.len() ==> (#[trigger] nbrs[i]) < n
}

/// `c` is among the neighbours of `p`.
pub open spec fn touches(nbrs: Seq<u32>, p: int, c: int) -> bool {
    exists|k: int| 0 <= k < 8 && #[trigger] nbrs[8 * p + k] == c
}

/// `a` is settled no later than `b`.
pub open spec fn no_later(filled: Seq<i64>, a: int, b: int) -> bool {
    le((filled[a], a as u32), (filled[b], b as u32))
}

/// The water reaches `c`: it is sea, or it drains somewhere.
pub open spec fn reached(height: Seq<i64>, downstream: Seq<u32>, c: int) -> bool {
    height[c] < 0 || downstream[c] != SINK
}

/// `c` drains to the first settled of the reached cells that it neighbours, and lies at its
/// own height or one step above it, whichever is higher.
pub open spec fn drains_right(
    height: Seq<i64>,
    nbrs: Seq<u32>,
    downstream: Seq<u32>,
    filled: Seq<i64>,
    c: int,
) -> bool {
    let d = downstream[c] as int;
    &&& d < height.len()
    &&& reached(height, downstream, d)
    &&& touches(nbrs, d, c)
    &&& filled[c] == (if height[c] > filled[d] + 1 {
        height[c] as int
    } else {
        filled[d] + 1
    })
    &&& forall|p: int|
        0 <= p < height.len() && reached(height, downstream, p) && #[trigger] touches(nbrs, p, c)
            ==> no_later(filled, d, p)
}

/// Cells in the order they are settled: ascending, by filled height and then by number.
pub open spec fn settles(filled: Seq<i64>, order: Seq<u32>) -> bool {
    forall|i: int, j: int|
        0 <= i < j < order.len() ==> no_later(
            filled,
            #[trigger] order[i] as int,
            #[trigger] order[j] as int,
        ) && order[i] != order[j]
}

/// How each cell drains.
pub struct Drainage {
    /// The cell that each cell drains to, or [`SINK`].
    pub downstream: Vec<u32>,
    /// The heights with depressions filled.
    pub filled: Vec<i64>,
    /// The reached cells, lowest first.
    pub order: Vec<u32>,
}

impl Drainage {
    /// This is the drainage of the terrain. The clauses leave no choice: they fix every
    /// downstream, every filled height and the order.
    pub open spec fn of(&self, height: Seq<i64>, nbrs: Seq<u32>) -> bool {
        &&& self.downstream.len() == height.len()
        &&& self.filled.len() == height.len()
        &&& forall|c: int|
            0 <= c < height.len() && height[c] < 0 ==> #[trigger] self.downstream[c] == SINK
        &&& forall|c: int|
            0 <= c < height.len() && self.downstream[c] == SINK ==> #[trigger] self.filled[c]
                == height[c]
        &&& forall|c: int|
            0 <= c < height.len() && #[trigger] self.downstream[c] != SINK ==> drains_right(
                height,
                nbrs,
                self.downstream@,
                self.filled@,
                c,
            )
        &&& forall|p: int, k: int|
            0 <= p < height.len() && 0 <= k < 8 && reached(height, self.downstream@, p) ==> reached(
                height,
                self.downstream@,
                #[trigger] nbrs[8 * p + k] as int,
            )
        &&& settles(self.filled@, self.order@)
        &&& forall|i: int|
            0 <= i < self.order.len() ==> (#[trigger] self.order[i]) < height.len() && reached(
                height,
                self.downstream@,
                self.order[i] as int,
            )
        &&& forall|c: int|
            0 <= c < height.len() && #[trigger] reached(height, self.downstream@, c)
                ==> self.order@.contains(c as u32)
    }
}

proof fn distinct_fit(s: Seq<u32>, n: int)
    requires
        n >= 0,
        s.no_duplicates(),
        forall|i: int| 0 <= i < s.len() ==> (#[trigger] s[i]) < n,
    ensures
        s.len() <= n,
    decreases n,
{
    if n == 0 {
        if s.len() > 0 {
            assert(s[0] < 0);
        }
    } else if s.contains((n - 1) as u32) {
        let i = choose|i: int| 0 <= i < s.len() && s[i] == (n - 1) as u32;
        let t = s.remove(i);
        assert(t.len() == s.len() - 1);
        assert forall|a: int, b: int| 0 <= a < t.len() && 0 <= b < t.len() && a != b implies t[a]
            != t[b] by {
            let a1 = if a < i {
                a
            } else {
                a + 1
            };
            let b1 = if b < i {
                b
            } else {
                b + 1
            };
            assert(t[a] == s[a1] && t[b] == s[b1]);
        }
        assert forall|a: int| 0 <= a < t.len() implies (#[trigger] t[a]) < n - 1 by {
            let a1 = if a < i {
                a
            } else {
                a + 1
            };
            assert(t[a] == s[a1]);
            assert(s[a1] < n);
            assert(s[a1] != s[i]);
        }
        distinct_fit(t, n - 1);
    } else {
        assert forall|a: int| 0 <= a < s.len() implies (#[trigger] s[a]) < n - 1 by {
            assert(s.contains(s[a]));
        }
        distinct_fit(s, n - 1);
    }
}

/// What holds of the flood between two cells: `done` are the settled cells.
spec fn flooding(
    height: Seq<i64>,
    nbrs: Seq<u32>,
    filled: Seq<i64>,
    downstream: Seq<u32>,
    wet: Seq<bool>,
    done: Set<int>,
    queue: Set<(i64, u32)>,
) -> bool {
    let n = height.len() as int;
    &&& filled.len() == n
    &&& downstream.len() == n
    &&& wet.len() == n
    &&& forall|c: int| #[trigger] done.contains(c) ==> 0 <= c < n && wet[c]
    &&& forall|c: int|
        0 <= c < n ==> (#[trigger] wet[c] <==> (done.contains(c) || queue.contains(
            (filled[c], c as u32),
        )))
    &&& forall|x: (i64, u32)| #[trigger]
        queue.contains(x) ==> x.1 < n && x.0 == filled[x.1 as int] && !done.contains(x.1 as int)
    &&& forall|c: int| 0 <= c < n && height[c] < 0 ==> #[trigger] wet[c]
    &&& forall|c: int|
        0 <= c < n && (height[c] < 0 || !wet[c]) ==> #[trigger] downstream[c] == SINK && filled[c]
            == height[c]
    &&& forall|c: int|
        0 <= c < n && wet[c] && height[c] >= 0 ==> #[trigger] downstream[c] != SINK
            && done.contains(downstream[c] as int) && touches(nbrs, downstream[c] as int, c)
            && filled[c] == (if height[c] > filled[downstream[c] as int] + 1 {
            height[c] as int
        } else {
            filled[downstream[c] as int] + 1
        })
    &&& forall|c: int, p: int|
        0 <= c < n && wet[c] && height[c] >= 0 && done.contains(p) && #[trigger] touches(
            nbrs,
            p,
            c,
        ) ==> no_later(filled, downstream[c] as int, p)
    &&& forall|p: int, x: (i64, u32)|
        #![trigger done.contains(p), queue.contains(x)]
        done.contains(p) && queue.contains(x) ==> le((filled[p], p as u32), x)
}

/// Every neighbour of a settled cell was reached.
spec fn closed_under(nbrs: Seq<u32>, wet: Seq<bool>, done: Set<int>) -> bool {
    forall|p: int, k: int|
        done.contains(p) && 0 <= k < 8 ==> wet[#[trigger] nbrs[8 * p + k] as int]
}

/// Fills the depressions of a terrain and finds where each cell drains.
pub fn flood(height: &Vec<i64>, nbrs: &Vec<u32>) -> (d: Drainage)
    requires
        height.len() < SINK,
        grid_ok(nbrs@, height.len() as int),
        8 * height.len() <= usize::MAX,
        forall|c: int| 0 <= c < height.len() ==> #[trigger] height[c] + height.len() <= i64::MAX,
    ensures
        d.of(height@, nbrs@),
{
    let n: usize = height.len();
    let mut filled: Vec<i64> = Vec::new();
    let mut downstream: Vec<u32> = Vec::new();
    let mut wet: Vec<bool> = Vec::new();
    let mut order: Vec<u32> = Vec::new();
    let mut queue = MinHeap::new();
    let mut c: usize = 0;
    while c < n
        invariant
            n == height.len() < SINK,
            c <= n,
            filled@ == height@.take(c as int),
            downstream.len() == c,
            wet.len() == c,
            queue.wf(),
            forall|i: int| 0 <= i < c ==> #[trigger] downstream[i] == SINK,
            forall|i: int| 0 <= i < c ==> #[trigger] wet[i] == (height[i] < 0),
            forall|x: (i64, u32)|
                #[trigger] queue@.contains(x) <==> (x.1 < c && height[x.1 as int] < 0 && x.0
                    == height[x.1 as int]),
        decreases n - c,
    {
        let h: i64 = height[c];
        filled.push(h);
        downstream.push(SINK);
        if h < 0 {
            wet.push(true);
            queue.push((h, c as u32));
        } else {
            wet.push(false);
        }
        proof {
            assert(height@.take(c as int + 1) =~= height@.take(c as int).push(h));
        }
        c = c + 1;
    }
    let ghost mut done: Set<int> = Set::empty();
    let ghost most: int = i64::MAX - n;
    proof {
        assert(height@.take(n as int) =~= height@);
        assert forall|i: int| 0 <= i < n implies (#[trigger] wet@[i] <==> (done.contains(i)
            || queue@.contains((filled@[i], i as u32)))) by {}
    }
    loop
        invariant
            n == height.len() < SINK,
            grid_ok(nbrs@, n as int),
            8 * n <= usize::MAX,
            forall|c: int| 0 <= c < n ==> #[trigger] height[c] <= most,
            most == i64::MAX - n,
            queue.wf(),
            flooding(height@, nbrs@, filled@, downstream@, wet@, done, queue@),
            closed_under(nbrs@, wet@, done),
            settles(filled@, order@),
            forall|i: int|
                0 <= i < order.len() ==> (#[trigger] order[i]) < n && done.contains(
                    order[i] as int,
                ),
            forall|c: int| #[trigger] done.contains(c) ==> order@.contains(c as u32),
            forall|c: int|
                0 <= c < n && wet@[c] ==> #[trigger] filled[c] <= most + order.len(),
        ensures
            flooding(height@, nbrs@, filled@, downstream@, wet@, done, Set::empty()),
            closed_under(nbrs@, wet@, done),
            settles(filled@, order@),
            forall|i: int|
                0 <= i < order.len() ==> (#[trigger] order[i]) < n && done.contains(
                    order[i] as int,
                ),
            forall|c: int| #[trigger] done.contains(c) ==> order@.contains(c as u32),
        decreases n - order.len(),
    {
        let ghost q0 = queue@;
        let ghost d0 = done;
        let ghost o0 = order@;
        let item = match queue.pop() {
            None => {
                break ;
            },
            Some(x) => x,
        };
        let c: usize = item.1 as usize;
        let f: i64 = item.0;
        proof {
            assert(q0.contains(item));
            done = d0.insert(c as int);
            assert forall|i: int, j: int| 0 <= i < o0.len() && 0 <= j < o0.len() && i
                != j implies o0[i] != o0[j] by {
                if i < j {
                    assert(no_later(filled@, o0[i] as int, o0[j] as int));
                } else {
                    assert(no_later(filled@, o0[j] as int, o0[i] as int));
                }
            }
            let o1 = o0.push(c as u32);
            assert forall|i: int| 0 <= i < o0.len() implies o0[i] != c as u32 by {
                assert(d0.contains(o0[i] as int));
            }
            distinct_fit(o1, n as int);
        }
        order.push(c as u32);
        proof {
            assert forall|x: int| #[trigger] done.contains(x) implies order@.contains(x as u32) by {
                if d0.contains(x) {
                    let i = choose|i: int| 0 <= i < o0.len() && o0[i] == x as u32;
                    assert(order@[i] == x as u32);
                } else {
                    assert(order@[o0.len() as int] == x as u32);
                }
            }
            assert forall|i: int, j: int| 0 <= i < j < order.len() implies no_later(
                filled@,
                #[trigger] order@[i] as int,
                #[trigger] order@[j] as int,
            ) && order@[i] != order@[j] by {
                if j == o0.len() {
                    assert(d0.contains(o0[i] as int));
                    assert(le((filled@[o0[i] as int], o0[i]), item));
                } else {
                    assert(no_later(filled@, o0[i] as int, o0[j] as int));
                }
            }
            assert(flooding(height@, nbrs@, filled@, downstream@, wet@, done, queue@)) by {
                popped(height@, nbrs@, filled@, downstream@, wet@, d0, q0, item);
            }
        }
        let mut k: usize = 0;
        while k < 8
            invariant
                k <= 8,
                n == height.len() < SINK,
                grid_ok(nbrs@, n as int),
                8 * n <= usize::MAX,
                c < n,
                forall|c: int| 0 <= c < n ==> #[trigger] height[c] <= most,
                most == i64::MAX - n,
                queue.wf(),
                flooding(height@, nbrs@, filled@, downstream@, wet@, done, queue@),
                done == d0.insert(c as int),
                !d0.contains(c as int),
                f == filled[c as int],
                wet[c as int],
                closed_under(nbrs@, wet@, d0),
                forall|j: int| 0 <= j < k ==> wet@[#[trigger] nbrs[8 * c + j] as int],
                settles(filled@, order@),
                order.len() <= n,
                forall|i: int|
                    0 <= i < order.len() ==> (#[trigger] order[i]) < n && done.contains(
                        order[i] as int,
                    ),
                forall|x: int| #[trigger] done.contains(x) ==> order@.contains(x as u32),
                forall|x: int|
                    0 <= x < n && wet@[x] ==> #[trigger] filled[x] <= most + order.len(),
                f <= most + order.len() - 1,
                forall|x: int| #[trigger] done.contains(x) ==> no_later(filled@, x, c as int),
            decreases 8 - k,
        {
            let nc: usize = nbrs[8 * c + k] as usize;
            if !wet[nc] {
                let up: i64 = f + 1;
                let h: i64 = height[nc];
                let nf: i64 = if h > up {
                    h
                } else {
                    up
                };
                let ghost s = (filled@, downstream@, wet@, queue@);
                wet.set(nc, true);
                filled.set(nc, nf);
                downstream.set(nc, c as u32);
                proof {
                    if queue@.contains((nf, nc as u32)) {
                        assert(s.2[nc as int]);
                    }
                }
                queue.push((nf, nc as u32));
                proof {
                    assert(touches(nbrs@, c as int, nc as int)) by {
                        assert(nbrs@[8 * (c as int) + k as int] == nc);
                    }
                    reached_one(
                        height@,
                        nbrs@,
                        s.0,
                        s.1,
                        s.2,
                        d0,
                        s.3,
                        c as int,
                        nc as int,
                        nf,
                    );
                    assert forall|i: int, j: int| 0 <= i < j < order.len() implies no_later(
                        filled@,
                        #[trigger] order@[i] as int,
                        #[trigger] order@[j] as int,
                    ) && order@[i] != order@[j] by {
                        assert(done.contains(order@[i] as int));
                        assert(done.contains(order@[j] as int));
                        assert(no_later(s.0, order@[i] as int, order@[j] as int));
                    }
                }
            }
            k = k + 1;
        }
        proof {
            assert forall|p: int, k: int|
                done.contains(p) && 0 <= k < 8 implies wet@[#[trigger] nbrs@[8 * p + k] as int] by {
                if p != c {
                    assert(d0.contains(p));
                }
            }
        }
    }
    let d = Drainage { downstream, filled, order };
    proof {
        finished(height@, nbrs@, d.filled@, d.downstream@, wet@, done);
        assert forall|i: int| 0 <= i < d.order.len() implies (#[trigger] d.order[i]) < height.len()
            && reached(height@, d.downstream@, d.order[i] as int) by {
            assert(done.contains(d.order[i] as int));
        }
        assert forall|c: int|
            0 <= c < height.len() && #[trigger] reached(
                height@,
                d.downstream@,
                c,
            ) implies d.order@.contains(c as u32) by {
            assert(done.contains(c));
        }
    }
    d
}

/// Settling the least of the queue keeps what holds of the flood.
proof fn popped(
    height: Seq<i64>,
    nbrs: Seq<u32>,
    filled: Seq<i64>,
    downstream: Seq<u32>,
    wet: Seq<bool>,
    done: Set<int>,
    queue: Set<(i64, u32)>,
    item: (i64, u32),
)
    requires
        height.len() < SINK,
        flooding(height, nbrs, filled, downstream, wet, done, queue),
        closed_under(nbrs, wet, done),
        queue.contains(item),
        forall|y: (i64, u32)| #[trigger] queue.contains(y) ==> le(item, y),
    ensures
        flooding(
            height,
            nbrs,
            filled,
            downstream,
            wet,
            done.insert(item.1 as int),
            queue.remove(item),
        ),
{
    let n = height.len() as int;
    let c = item.1 as int;
    let d1 = done.insert(c);
    let q1 = queue.remove(item);
    assert forall|x: int| 0 <= x < n implies (#[trigger] wet[x] <==> (d1.contains(x)
        || q1.contains((filled[x], x as u32)))) by {
        assert(done.contains(x) ==> wet[x]);
        if x == c {
            assert(item == (filled[c], c as u32));
        }
    }
    assert forall|x: (i64, u32)| #[trigger] q1.contains(x) implies x.1 < n && x.0
        == filled[x.1 as int] && !d1.contains(x.1 as int) by {
        assert(queue.contains(x));
        if x.1 as int == c {
            assert(x == item);
        }
    }
    assert forall|x: int, p: int|
        0 <= x < n && wet[x] && height[x] >= 0 && d1.contains(p) && #[trigger] touches(
            nbrs,
            p,
            x,
        ) implies no_later(filled, downstream[x] as int, p) by {
        if p == c {
            assert(done.contains(downstream[x] as int));
            assert(le((filled[downstream[x] as int], downstream[x]), item));
        }
    }
    assert forall|p: int, x: (i64, u32)|
        #![trigger d1.contains(p), q1.contains(x)]
        d1.contains(p) && q1.contains(x) implies le((filled[p], p as u32), x) by {
        assert(queue.contains(x));
        if p == c {
            assert(item == (filled[c], c as u32));
        } else {
            assert(done.contains(p));
        }
    }
}

/// Reaching one more cell from the cell just settled keeps what holds of the flood.
proof fn reached_one(
    height: Seq<i64>,
    nbrs: Seq<u32>,
    filled: Seq<i64>,
    downstream: Seq<u32>,
    wet: Seq<bool>,
    before: Set<int>,
    queue: Set<(i64, u32)>,
    c: int,
    nc: int,
    nf: i64,
)
    requires
        height.len() < SINK,
        grid_ok(nbrs, height.len() as int),
        flooding(height, nbrs, filled, downstream, wet, before.insert(c), queue),
        closed_under(nbrs, wet, before),
        0 <= c < height.len(),
        0 <= nc < height.len(),
        !wet[nc],
        touches(nbrs, c, nc),
        nf == (if height[nc] > filled[c] + 1 {
            height[nc] as int
        } else {
            filled[c] + 1
        }),
        forall|x: int| #[trigger]
            before.insert(c).contains(x) ==> no_later(filled, x, c),
    ensures
        flooding(
            height,
            nbrs,
            filled.update(nc, nf),
            downstream.update(nc, c as u32),
            wet.update(nc, true),
            before.insert(c),
            queue.insert((nf, nc as u32)),
        ),
        closed_under(nbrs, wet.update(nc, true), before),
        forall|x: int| #[trigger]
            before.insert(c).contains(x) ==> no_later(filled.update(nc, nf), x, c),
{
    let n = height.len() as int;
    let done = before.insert(c);
    let f1 = filled.update(nc, nf);
    let w1 = wet.update(nc, true);
    let d1 = downstream.update(nc, c as u32);
    let q1 = queue.insert((nf, nc as u32));
    assert(!done.contains(nc));
    assert forall|x: (i64, u32)| #[trigger] q1.contains(x) implies x.1 < n && x.0 == f1[x.1 as int]
        && !done.contains(x.1 as int) by {
        if x != (nf, nc as u32) {
            assert(queue.contains(x));
            if x.1 as int == nc {
                assert(wet[nc]);
            }
        }
    }
    assert forall|x: int| 0 <= x < n implies (#[trigger] w1[x] <==> (done.contains(x)
        || q1.contains((f1[x], x as u32)))) by {
        if x != nc {
            assert(wet[x] == w1[x]);
            assert(f1[x] == filled[x]);
        }
    }
    assert forall|x: int| 0 <= x < n && (height[x] < 0 || !w1[x]) implies #[trigger] d1[x] == SINK
        && f1[x] == height[x] by {
        assert(x != nc) by {
            if x == nc {
                assert(wet[x]);
            }
        }
        assert(downstream[x] == SINK);
    }
    assert forall|x: int| 0 <= x < n && w1[x] && height[x] >= 0 implies #[trigger] d1[x] != SINK
        && done.contains(d1[x] as int) && touches(nbrs, d1[x] as int, x) && f1[x] == (if height[x]
        > f1[d1[x] as int] + 1 {
        height[x] as int
    } else {
        f1[d1[x] as int] + 1
    }) by {
        if x != nc {
            assert(downstream[x] != SINK);
            assert(done.contains(downstream[x] as int));
        }
    }
    assert forall|x: int, p: int|
        0 <= x < n && w1[x] && height[x] >= 0 && done.contains(p) && #[trigger] touches(
            nbrs,
            p,
            x,
        ) implies no_later(f1, d1[x] as int, p) by {
        assert(p != nc);
        if x == nc {
            if p != c {
                assert(before.contains(p));
                let k = choose|k: int| 0 <= k < 8 && #[trigger] nbrs[8 * p + k] == nc;
                assert(wet[nbrs[8 * p + k] as int]);
            }
        } else {
            assert(wet[x]);
            assert(downstream[x] != SINK);
            assert(done.contains(downstream[x] as int));
            assert(no_later(filled, downstream[x] as int, p));
        }
    }
    assert forall|p: int, x: (i64, u32)|
        #![trigger done.contains(p), q1.contains(x)]
        done.contains(p) && q1.contains(x) implies le((f1[p], p as u32), x) by {
        assert(p != nc);
        if x == (nf, nc as u32) {
            assert(no_later(filled, p, c));
        } else {
            assert(queue.contains(x));
        }
    }
    assert forall|x: int| #[trigger] done.contains(x) implies no_later(f1, x, c) by {
        assert(no_later(filled, x, c));
    }
    assert forall|p: int, k: int| before.contains(p) && 0 <= k < 8 implies w1[#[trigger] nbrs[8 * p
        + k] as int] by {
        assert(done.contains(p));
        assert(nbrs[8 * p + k] < n);
        assert(wet[nbrs[8 * p + k] as int]);
    }
}

proof fn finished(
    height: Seq<i64>,
    nbrs: Seq<u32>,
    filled: Seq<i64>,
    downstream: Seq<u32>,
    wet: Seq<bool>,
    done: Set<int>,
)
    requires
        height.len() < SINK,
        grid_ok(nbrs, height.len() as int),
        flooding(height, nbrs, filled, downstream, wet, done, Set::empty()),
        closed_under(nbrs, wet, done),
    ensures
        forall|c: int|
            0 <= c < height.len() ==> (#[trigger] done.contains(c) <==> reached(
                height,
                downstream,
                c,
            )),
        forall|c: int|
            0 <= c < height.len() && height[c] < 0 ==> #[trigger] downstream[c] == SINK,
        forall|c: int|
            0 <= c < height.len() && downstream[c] == SINK ==> #[trigger] filled[c] == height[c],
        forall|c: int|
            0 <= c < height.len() && #[trigger] downstream[c] != SINK ==> drains_right(
                height,
                nbrs,
                downstream,
                filled,
                c,
            ),
        forall|p: int, k: int|
            0 <= p < height.len() && 0 <= k < 8 && reached(height, downstream, p) ==> reached(
                height,
                downstream,
                #[trigger] nbrs[8 * p + k] as int,
            ),
{
    let n = height.len() as int;
    assert forall|c: int| 0 <= c < n implies (#[trigger] done.contains(c) <==> reached(
        height,
        downstream,
        c,
    )) by {
        assert(wet[c] <==> done.contains(c));
        assert(height[c] < 0 ==> wet[c]);
        if !wet[c] {
            assert(downstream[c] == SINK);
        } else if height[c] >= 0 {
            assert(downstream[c] != SINK);
        }
    }
    assert forall|c: int| 0 <= c < n && downstream[c] == SINK implies #[trigger] filled[c]
        == height[c] by {
        if wet[c] && height[c] >= 0 {
            assert(downstream[c] != SINK);
        }
    }
    assert forall|c: int| 0 <= c < n && #[trigger] downstream[c] != SINK implies drains_right(
        height,
        nbrs,
        downstream,
        filled,
        c,
    ) by {
        assert(wet[c] && height[c] >= 0);
        assert(done.contains(downstream[c] as int));
        assert forall|p: int|
            0 <= p < n && reached(height, downstream, p) && #[trigger] touches(
                nbrs,
                p,
                c,
            ) implies no_later(filled, downstream[c] as int, p) by {
            assert(done.contains(p));
        }
    }
    assert forall|p: int, k: int|
        0 <= p < n && 0 <= k < 8 && reached(height, downstream, p) implies reached(
        height,
        downstream,
        #[trigger] nbrs[8 * p + k] as int,
    ) by {
        assert(done.contains(p));
        let c = nbrs[8 * p + k] as int;
        assert(wet[c]);
        assert(done.contains(c));
    }
}

/// What one drainage reaches the other reaches too, and does not fill higher.
proof fn no_higher(a: Drainage, b: Drainage, height: Seq<i64>, nbrs: Seq<u32>, c: int)
    requires
        a.of(height, nbrs),
        b.of(height, nbrs),
        0 <= c < height.len(),
        reached(height, a.downstream@, c),
    ensures
        reached(height, b.downstream@, c),
        b.filled[c] <= a.filled[c],
    decreases a.filled[c] - i64::MIN,
{
    if height[c] < 0 {
        assert(a.downstream[c] == SINK && b.downstream[c] == SINK);
        assert(a.filled[c] == height[c] && b.filled[c] == height[c]);
    } else {
        let d = a.downstream[c] as int;
        assert(drains_right(height, nbrs, a.downstream@, a.filled@, c));
        no_higher(a, b, height, nbrs, d);
        let k = choose|k: int| 0 <= k < 8 && #[trigger] nbrs[8 * d + k] == c;
        assert(reached(height, b.downstream@, nbrs[8 * d + k] as int));
        assert(b.downstream[c] != SINK);
        assert(drains_right(height, nbrs, b.downstream@, b.filled@, c));
        assert(no_later(b.filled@, b.downstream[c] as int, d));
    }
}

/// Two orders of the same cells, each ascending, agree up to any place.
proof fn one_order(filled: Seq<i64>, x: Seq<u32>, y: Seq<u32>, n: int)
    requires
        settles(filled, x),
        settles(filled, y),
        forall|c: u32| x.contains(c) <==> y.contains(c),
        0 <= n <= x.len(),
    ensures
        n <= y.len(),
        forall|i: int| 0 <= i < n ==> x[i] == y[i],
    decreases n,
{
    if n > 0 {
        one_order(filled, x, y, n - 1);
        let last = x[n - 1];
        assert(x.contains(last));
        let j = choose|j: int| 0 <= j < y.len() && y[j] == last;
        if j < n - 1 {
            assert(x[j] == y[j]);
            assert(x[j] != x[n - 1]);
        }
        let other = y[n - 1];
        assert(y.contains(other));
        let k = choose|k: int| 0 <= k < x.len() && x[k] == other;
        if k < n - 1 {
            assert(x[k] == y[k]);
            assert(y[k] != y[n - 1]);
        }
        if k > n - 1 {
            assert(no_later(filled, x[n - 1] as int, x[k] as int));
        }
        if j > n - 1 {
            assert(no_later(filled, y[n - 1] as int, y[j] as int));
        }
    }
}

/// A terrain drains in one way only.
pub proof fn drainage_is_unique(a: Drainage, b: Drainage, height: Seq<i64>, nbrs: Seq<u32>)
    requires
        a.of(height, nbrs),
        b.of(height, nbrs),
    ensures
        a.downstream@ == b.downstream@,
        a.filled@ == b.filled@,
        a.order@ == b.order@,
{
    assert forall|c: int| 0 <= c < height.len() implies reached(height, a.downstream@, c)
        == reached(height, b.downstream@, c) && #[trigger] a.filled@[c] == b.filled@[c] by {
        if reached(height, a.downstream@, c) {
            no_higher(a, b, height, nbrs, c);
        }
        if reached(height, b.downstream@, c) {
            no_higher(b, a, height, nbrs, c);
        }
        if !reached(height, a.downstream@, c) {
            assert(a.filled[c] == height[c] && b.filled[c] == height[c]);
        }
    }
    assert(a.filled@ =~= b.filled@);
    assert forall|c: int| 0 <= c < height.len() implies #[trigger] a.downstream@[c]
        == b.downstream@[c] by {
        assert(a.filled@[c] == b.filled@[c]);
        if height[c] < 0 {
            assert(a.downstream[c] == SINK && b.downstream[c] == SINK);
        } else if a.downstream[c] != SINK {
            let d = a.downstream[c] as int;
            let e = b.downstream[c] as int;
            assert(drains_right(height, nbrs, a.downstream@, a.filled@, c));
            assert(drains_right(height, nbrs, b.downstream@, b.filled@, c));
            assert(a.filled@[d] == b.filled@[d]);
            assert(a.filled@[e] == b.filled@[e]);
            assert(no_later(a.filled@, d, e));
            assert(no_later(b.filled@, e, d));
        }
    }
    assert(a.downstream@ =~= b.downstream@);
    assert forall|c: u32| a.order@.contains(c) <==> b.order@.contains(c) by {
        if a.order@.contains(c) {
            let i = choose|i: int| 0 <= i < a.order.len() && a.order[i] == c;
            assert(reached(height, b.downstream@, c as int));
        }
        if b.order@.contains(c) {
            let i = choose|i: int| 0 <= i < b.order.len() && b.order[i] == c;
            assert(reached(height, a.downstream@, c as int));
        }
    }
    one_order(a.filled@, a.order@, b.order@, a.order.len() as int);
    one_order(a.filled@, b.order@, a.order@, b.order.len() as int);
    assert(a.order@ =~= b.order@);
}

} // verus!
