//! A pool of GPU slots with a timeline graveyard.
//!
//! A slot is free, live or retired. A retired slot becomes free only once the GPU has
//! completed the frame it was retired at, so a slot that a frame in flight still reads is
//! never handed out.
use vstd::prelude::*;

verus! {

/// The state of a [`PagePool`] as mathematics.
#[verifier::ext_equal]
pub struct PoolState {
    pub capacity: nat,
    /// The free slots; the last one is handed out next.
    pub free: Seq<u32>,
    /// The retired slots, each with the frame that must be complete before it is free.
    pub grave: Seq<(u32, u64)>,
}

/// The retired slots that the GPU is done with once `completed` is complete.
pub open spec fn due(grave: Seq<(u32, u64)>, completed: u64) -> Seq<u32> {
    grave.filter(|g: (u32, u64)| g.1 <= completed).map_values(|g: (u32, u64)| g.0)
}

/// The retired slots that still wait once `completed` is complete.
pub open spec fn waiting(grave: Seq<(u32, u64)>, completed: u64) -> Seq<(u32, u64)> {
    grave.filter(|g: (u32, u64)| g.1 > completed)
}

/// Some entry of the graveyard is for this slot.
pub open spec fn buried(grave: Seq<(u32, u64)>, slot: u32) -> bool {
    exists|i: int| 0 <= i < grave.len() && (#[trigger] grave[i]).0 == slot
}

impl PoolState {
    /// Every slot is in range, and free or retired at most once, never both.
    pub open spec fn wf(self) -> bool {
        &&& self.capacity <= u32::MAX
        &&& self.free.no_duplicates()
        &&& forall|i: int| 0 <= i < self.free.len() ==> (#[trigger] self.free[i]) < self.capacity
        &&& forall|i: int| 0 <= i < self.grave.len() ==> (#[trigger] self.grave[i]).0 < self.capacity
        &&& forall|i: int, j: int|
            0 <= i < j < self.grave.len() ==> (#[trigger] self.grave[i]).0 != (
            #[trigger] self.grave[j]).0
        &&& forall|i: int, j: int|
            0 <= i < self.free.len() && 0 <= j < self.grave.len() ==> (#[trigger] self.free[i])
                != (#[trigger] self.grave[j]).0
    }

    /// The slot was handed out and not retired since.
    pub open spec fn live(self, slot: u32) -> bool {
        slot < self.capacity && !self.free.contains(slot) && !buried(self.grave, slot)
    }

    /// The pool once `completed` is complete.
    pub open spec fn collected(self, completed: u64) -> PoolState {
        PoolState {
            free: self.free + due(self.grave, completed),
            grave: waiting(self.grave, completed),
            ..self
        }
    }
}

/// A pool of slots numbered from zero.
pub struct PagePool {
    capacity: usize,
    free: Vec<u32>,
    grave: Vec<(u32, u64)>,
}

impl View for PagePool {
    type V = PoolState;

    closed spec fn view(&self) -> PoolState {
        PoolState { capacity: self.capacity as nat, free: self.free@, grave: self.grave@ }
    }
}

impl PagePool {
    /// A pool of `capacity` free slots, handed out in ascending order.
    pub fn new(capacity: usize) -> (pool: Self)
        requires
            capacity <= u32::MAX,
        ensures
            pool@.wf(),
            pool@ == (PoolState {
                capacity: capacity as nat,
                free: Seq::new(capacity as nat, |i: int| (capacity - 1 - i) as u32),
                grave: Seq::empty(),
            }),
    {
        let mut free: Vec<u32> = Vec::new();
        let mut n: usize = capacity;
        while n > 0
            invariant
                n <= capacity <= u32::MAX,
                free@ == Seq::new((capacity - n) as nat, |i: int| (capacity - 1 - i) as u32),
            decreases n,
        {
            n = n - 1;
            free.push(n as u32);
        }
        PagePool { capacity, free, grave: Vec::new() }
    }

    /// Hands out a free slot.
    pub fn allocate(&mut self) -> (slot: Option<u32>)
        requires
            old(self)@.wf(),
        ensures
            final(self)@.wf(),
            slot is None <==> old(self)@.free.len() == 0,
            slot is None ==> final(self)@ == old(self)@,
            slot matches Some(s) ==> {
                &&& s == old(self)@.free.last()
                &&& final(self)@ == (PoolState {
                    free: old(self)@.free.drop_last(),
                    ..old(self)@
                })
                &&& final(self)@.live(s)
                &&& forall|t: u32| old(self)@.live(t) ==> t != s && final(self)@.live(t)
            },
    {
        let slot = self.free.pop();
        proof {
            if let Some(s) = slot {
                let f = old(self)@.free;
                assert(f[f.len() - 1] == s);
                assert(f.contains(s));
                assert(self@.free =~= f.drop_last());
                assert(!buried(self@.grave, s));
            }
        }
        slot
    }

    /// The number of free slots.
    pub fn free_count(&self) -> (n: usize)
        ensures
            n == self@.free.len(),
    {
        self.free.len()
    }

    /// The slot that `n` allocations from now would be handed out.
    pub fn upcoming(&self, n: usize) -> (slot: u32)
        requires
            n < self@.free.len(),
        ensures
            slot == self@.free[self@.free.len() - 1 - n],
    {
        self.free[self.free.len() - 1 - n]
    }

    /// Retires a live slot: it is free again once frame `at` is complete.
    pub fn retire(&mut self, slot: u32, at: u64)
        requires
            old(self)@.wf(),
            old(self)@.live(slot),
        ensures
            final(self)@.wf(),
            final(self)@ == (PoolState { grave: old(self)@.grave.push((slot, at)), ..old(self)@ }),
            forall|t: u32| final(self)@.live(t) <==> old(self)@.live(t) && t != slot,
    {
        self.grave.push((slot, at));
        proof {
            let g = old(self)@.grave;
            let h = self@.grave;
            assert forall|t: u32| self@.live(t) <==> old(self)@.live(t) && t != slot by {
                if buried(g, t) {
                    let i = choose|i: int| 0 <= i < g.len() && (#[trigger] g[i]).0 == t;
                    assert(h[i].0 == t);
                }
                if buried(h, t) && t != slot {
                    let i = choose|i: int| 0 <= i < h.len() && (#[trigger] h[i]).0 == t;
                    assert(g[i].0 == t);
                }
                assert(h[g.len() as int].0 == slot);
            }
            assert forall|i: int, j: int| 0 <= i < j < h.len() implies (#[trigger] h[i]).0 != (
            #[trigger] h[j]).0 by {
                if j == g.len() {
                    assert(g[i].0 != slot);
                }
            }
            assert forall|i: int, j: int| 0 <= i < self@.free.len() && 0 <= j < h.len() implies (
            #[trigger] self@.free[i]) != (#[trigger] h[j]).0 by {
                if j == g.len() {
                    assert(self@.free.contains(self@.free[i]));
                }
            }
        }
    }

    /// Frees every retired slot that the GPU is done with: those retired at `completed` or
    /// before.
    pub fn collect(&mut self, completed: u64)
        requires
            old(self)@.wf(),
        ensures
            final(self)@.wf(),
            final(self)@ == old(self)@.collected(completed),
            forall|t: u32| old(self)@.live(t) <==> final(self)@.live(t),
    {
        let mut left: Vec<(u32, u64)> = Vec::new();
        let ghost start = self@;
        let mut i: usize = 0;
        proof {
            reveal(Seq::filter);
            assert(start.grave.take(0) =~= Seq::empty());
            assert(due(start.grave.take(0), completed) =~= Seq::empty());
            assert(start.free + due(start.grave.take(0), completed) =~= start.free);
        }
        while i < self.grave.len()
            invariant
                i <= self.grave.len(),
                self.grave@ == start.grave,
                self.capacity == start.capacity,
                left@ == waiting(start.grave.take(i as int), completed),
                self.free@ == start.free + due(start.grave.take(i as int), completed),
            decreases self.grave.len() - i,
        {
            let (slot, at) = self.grave[i];
            proof {
                let now = start.grave.take(i as int + 1);
                let was = start.grave.take(i as int);
                assert(now.drop_last() =~= was);
                assert(now.last() == (slot, at));
                reveal(Seq::filter);
                if at <= completed {
                    let f = |g: (u32, u64)| g.1 <= completed;
                    assert(now.filter(f) == was.filter(f).push((slot, at)));
                    assert(due(now, completed) =~= due(was, completed).push(slot));
                    assert(start.free + due(now, completed) =~= (start.free + due(
                        was,
                        completed,
                    )).push(slot));
                } else {
                    let f = |g: (u32, u64)| g.1 > completed;
                    assert(now.filter(f) == was.filter(f).push((slot, at)));
                    assert(due(now, completed) =~= due(was, completed));
                }
            }
            if at <= completed {
                self.free.push(slot);
            } else {
                left.push((slot, at));
            }
            i = i + 1;
        }
        self.grave = left;
        proof {
            assert(start.grave.take(start.grave.len() as int) =~= start.grave);
            assert(self@ =~= start.collected(completed));
            collected_keeps(start, completed);
        }
    }
}

/// What is in the graveyard either waits or is due.
proof fn grave_splits(grave: Seq<(u32, u64)>, completed: u64)
    ensures
        forall|slot: u32|
            buried(waiting(grave, completed), slot) <==> exists|i: int|
                0 <= i < grave.len() && (#[trigger] grave[i]).0 == slot && grave[i].1 > completed,
        forall|slot: u32|
            due(grave, completed).contains(slot) <==> exists|i: int|
                0 <= i < grave.len() && (#[trigger] grave[i]).0 == slot && grave[i].1 <= completed,
        (forall|i: int, j: int|
            0 <= i < j < grave.len() ==> (#[trigger] grave[i]).0 != (#[trigger] grave[j]).0) ==> {
            &&& due(grave, completed).no_duplicates()
            &&& forall|i: int, j: int|
                0 <= i < j < waiting(grave, completed).len() ==> (#[trigger] waiting(
                    grave,
                    completed,
                )[i]).0 != (#[trigger] waiting(grave, completed)[j]).0
        },
    decreases grave.len(),
{
    reveal(Seq::filter);
    if grave.len() > 0 {
        let front = grave.drop_last();
        let last = grave.last();
        grave_splits(front, completed);
        let fd = |g: (u32, u64)| g.1 <= completed;
        let fw = |g: (u32, u64)| g.1 > completed;
        let d0 = due(front, completed);
        let d1 = due(grave, completed);
        let w0 = waiting(front, completed);
        let w1 = waiting(grave, completed);
        if last.1 <= completed {
            assert(grave.filter(fd) == front.filter(fd).push(last));
            assert(d1 =~= d0.push(last.0));
            assert(w1 == w0);
        } else {
            assert(w1 == w0.push(last));
            assert(d1 == d0);
        }
        assert forall|slot: u32|
            buried(w1, slot) <==> exists|i: int|
                0 <= i < grave.len() && (#[trigger] grave[i]).0 == slot && grave[i].1
                    > completed by {
            if buried(w1, slot) {
                let n = choose|n: int| 0 <= n < w1.len() && (#[trigger] w1[n]).0 == slot;
                if n < w0.len() {
                    assert(w0[n].0 == slot);
                    assert(buried(w0, slot));
                    let i = choose|i: int|
                        0 <= i < front.len() && (#[trigger] front[i]).0 == slot && front[i].1
                            > completed;
                    assert(grave[i].0 == slot);
                } else {
                    assert(grave[grave.len() - 1].0 == slot);
                }
            }
            if exists|i: int|
                0 <= i < grave.len() && (#[trigger] grave[i]).0 == slot && grave[i].1 > completed {
                let i = choose|i: int|
                    0 <= i < grave.len() && (#[trigger] grave[i]).0 == slot && grave[i].1
                        > completed;
                if i < front.len() {
                    assert(front[i].0 == slot);
                    assert(buried(w0, slot));
                    let n = choose|n: int| 0 <= n < w0.len() && (#[trigger] w0[n]).0 == slot;
                    assert(w1[n].0 == slot);
                } else {
                    assert(w1[w1.len() - 1].0 == slot);
                }
            }
        }
        assert forall|slot: u32|
            d1.contains(slot) <==> exists|i: int|
                0 <= i < grave.len() && (#[trigger] grave[i]).0 == slot && grave[i].1
                    <= completed by {
            if d1.contains(slot) {
                let n = choose|n: int| 0 <= n < d1.len() && d1[n] == slot;
                if n < d0.len() {
                    assert(d0[n] == slot);
                    assert(d0.contains(slot));
                    let i = choose|i: int|
                        0 <= i < front.len() && (#[trigger] front[i]).0 == slot && front[i].1
                            <= completed;
                    assert(grave[i].0 == slot);
                } else {
                    assert(grave[grave.len() - 1].0 == slot);
                }
            }
            if exists|i: int|
                0 <= i < grave.len() && (#[trigger] grave[i]).0 == slot && grave[i].1 <= completed {
                let i = choose|i: int|
                    0 <= i < grave.len() && (#[trigger] grave[i]).0 == slot && grave[i].1
                        <= completed;
                if i < front.len() {
                    assert(front[i].0 == slot);
                    assert(d0.contains(slot));
                    let n = choose|n: int| 0 <= n < d0.len() && d0[n] == slot;
                    assert(d1[n] == slot);
                } else {
                    assert(d1[d1.len() - 1] == slot);
                }
            }
        }
        if forall|i: int, j: int|
            0 <= i < j < grave.len() ==> (#[trigger] grave[i]).0 != (#[trigger] grave[j]).0 {
            assert forall|i: int, j: int| 0 <= i < j < front.len() implies (#[trigger] front[i]).0
                != (#[trigger] front[j]).0 by {
                assert(grave[i].0 != grave[j].0);
            }
            if last.1 <= completed {
                assert(!d0.contains(last.0)) by {
                    if d0.contains(last.0) {
                        let i = choose|i: int|
                            0 <= i < front.len() && (#[trigger] front[i]).0 == last.0 && front[i].1
                                <= completed;
                        assert(grave[i].0 != grave[grave.len() - 1].0);
                    }
                }
                assert forall|i: int, j: int| 0 <= i < d1.len() && 0 <= j < d1.len() && i
                    != j implies d1[i] != d1[j] by {
                    if i < d0.len() {
                        assert(d0.contains(d0[i]));
                    }
                    if j < d0.len() {
                        assert(d0.contains(d0[j]));
                    }
                }
            } else {
                assert forall|i: int, j: int| 0 <= i < j < w1.len() implies (#[trigger] w1[i]).0
                    != (#[trigger] w1[j]).0 by {
                    if j == w0.len() {
                        assert(w0[i].0 == w1[i].0);
                        assert(buried(w0, w1[i].0));
                        let k = choose|k: int|
                            0 <= k < front.len() && (#[trigger] front[k]).0 == w1[i].0 && front[k].1
                                > completed;
                        assert(grave[k].0 != grave[grave.len() - 1].0);
                    }
                }
            }
        }
    }
}

/// Collecting keeps a pool well formed and changes nothing about which slots are live.
proof fn collected_keeps(p: PoolState, completed: u64)
    requires
        p.wf(),
    ensures
        p.collected(completed).wf(),
        forall|t: u32| p.live(t) <==> p.collected(completed).live(t),
{
    grave_splits(p.grave, completed);
    let q = p.collected(completed);
    let d = due(p.grave, completed);
    assert forall|t: u32| p.live(t) <==> q.live(t) by {
        if p.free.contains(t) {
            let n = choose|n: int| 0 <= n < p.free.len() && p.free[n] == t;
            assert(q.free[n] == t);
        }
        if d.contains(t) {
            let n = choose|n: int| 0 <= n < d.len() && d[n] == t;
            assert(q.free[p.free.len() + n] == t);
        }
        if q.free.contains(t) {
            let n = choose|n: int| 0 <= n < q.free.len() && q.free[n] == t;
            if n < p.free.len() {
                assert(p.free[n] == t);
            } else {
                assert(d[n - p.free.len()] == t);
            }
        }
        if buried(p.grave, t) {
            let i = choose|i: int| 0 <= i < p.grave.len() && (#[trigger] p.grave[i]).0 == t;
            if p.grave[i].1 > completed {
                assert(buried(q.grave, t));
            } else {
                assert(d.contains(t));
            }
        }
        if buried(q.grave, t) {
            let i = choose|i: int|
                0 <= i < p.grave.len() && (#[trigger] p.grave[i]).0 == t && p.grave[i].1
                    > completed;
        }
        if d.contains(t) {
            let i = choose|i: int|
                0 <= i < p.grave.len() && (#[trigger] p.grave[i]).0 == t && p.grave[i].1
                    <= completed;
        }
    }
    assert forall|i: int, j: int| 0 <= i < q.free.len() && 0 <= j < q.free.len() && i
        != j implies q.free[i] != q.free[j] by {
        let n = p.free.len() as int;
        if i < n && j >= n {
            assert(d.contains(d[j - n]));
            let k = choose|k: int|
                0 <= k < p.grave.len() && (#[trigger] p.grave[k]).0 == d[j - n] && p.grave[k].1
                    <= completed;
            assert(p.free[i] != p.grave[k].0);
        }
        if j < n && i >= n {
            assert(d.contains(d[i - n]));
            let k = choose|k: int|
                0 <= k < p.grave.len() && (#[trigger] p.grave[k]).0 == d[i - n] && p.grave[k].1
                    <= completed;
            assert(p.free[j] != p.grave[k].0);
        }
    }
    assert forall|i: int| 0 <= i < q.free.len() implies (#[trigger] q.free[i]) < q.capacity by {
        let n = p.free.len() as int;
        if i >= n {
            assert(d.contains(d[i - n]));
        }
    }
    assert forall|i: int| 0 <= i < q.grave.len() implies (#[trigger] q.grave[i]).0
        < q.capacity by {
        assert(buried(q.grave, q.grave[i].0));
    }
    assert forall|i: int, j: int| 0 <= i < q.free.len() && 0 <= j < q.grave.len() implies (
    #[trigger] q.free[i]) != (#[trigger] q.grave[j]).0 by {
        assert(buried(q.grave, q.grave[j].0));
        let k = choose|k: int|
            0 <= k < p.grave.len() && (#[trigger] p.grave[k]).0 == q.grave[j].0 && p.grave[k].1
                > completed;
        let n = p.free.len() as int;
        if i >= n {
            assert(d.contains(d[i - n]));
            let m = choose|m: int|
                0 <= m < p.grave.len() && (#[trigger] p.grave[m]).0 == d[i - n] && p.grave[m].1
                    <= completed;
            if m < k {
                assert(p.grave[m].0 != p.grave[k].0);
            } else if k < m {
                assert(p.grave[k].0 != p.grave[m].0);
            }
        } else {
            assert(p.free[i] != p.grave[k].0);
        }
    }
}

/// A retired slot is not handed out before its frame is complete: while `completed` lies
/// before `at`, collecting leaves it in the graveyard and out of the free list.
pub proof fn retired_slot_waits(p: PoolState, slot: u32, at: u64, completed: u64)
    requires
        p.wf(),
        p.grave.contains((slot, at)),
        completed < at,
    ensures
        p.collected(completed).grave.contains((slot, at)),
        !p.collected(completed).free.contains(slot),
{
    let i = choose|i: int| 0 <= i < p.grave.len() && p.grave[i] == (slot, at);
    assert(p.grave[i].0 == slot);
    collected_keeps(p, completed);
    let q = p.collected(completed);
    p.grave.lemma_filter_contains(|g: (u32, u64)| g.1 > completed, i);
    let n = choose|n: int| 0 <= n < q.grave.len() && q.grave[n] == (slot, at);
    if q.free.contains(slot) {
        let m = choose|m: int| 0 <= m < q.free.len() && q.free[m] == slot;
        assert(q.free[m] != q.grave[n].0);
    }
}

/// A retired slot is free once its frame is complete.
pub proof fn retired_slot_comes_back(p: PoolState, slot: u32, at: u64, completed: u64)
    requires
        p.grave.contains((slot, at)),
        at <= completed,
    ensures
        p.collected(completed).free.contains(slot),
{
    let i = choose|i: int| 0 <= i < p.grave.len() && p.grave[i] == (slot, at);
    assert(p.grave[i].0 == slot);
    grave_splits(p.grave, completed);
    let d = due(p.grave, completed);
    assert(d.contains(slot));
    let n = choose|n: int| 0 <= n < d.len() && d[n] == slot;
    assert(p.collected(completed).free[p.free.len() + n] == slot);
}

} // verus!
