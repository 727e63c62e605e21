//! Which quadtree nodes are baked, kept and shown.
//!
//! The quadtree and the bakers live elsewhere; this is the bookkeeping between them. A node
//! is being baked, ready (baked, not shown) or resident (shown).
use std::collections::{HashMap, HashSet};

use vstd::prelude::*;

use crate::order::{nearest_first, sorts};
use crate::sums::{total, total_below, total_splits};
use crate::voxel::chunk_key::{code, pack, ChunkKey};
use crate::voxel::key_list::{codes, firsts, firsts_holds, lists, pushed_to_set, take_one_more};

verus! {

broadcast use vstd::std_specs::hash::group_hash_axioms;

/// Integer tunables of the streaming terrain.
#[derive(Clone, Copy, Debug, PartialEq, Eq, Structural)]
pub struct StreamConfig {
    /// Grid resolution that each node is tessellated at.
    pub node_resolution: u32,
    pub max_depth: u8,
    /// How many nodes are kept, shown and ready ones together. The shown ones always stay, so there
    /// may be more of those alone.
    pub lru_capacity: usize,
    pub workers: usize,
}

impl Default for StreamConfig {
    fn default() -> (c: Self)
        ensures
            c == (StreamConfig {
                node_resolution: 32,
                max_depth: 12,
                lru_capacity: 1024,
                workers: 4,
            }),
    {
        StreamConfig { node_resolution: 32, max_depth: 12, lru_capacity: 1024, workers: 4 }
    }
}

impl StreamConfig {
    /// The threads that bake: as many as asked for, but at least one.
    pub fn bake_workers(&self) -> (n: usize)
        ensures
            n == (if self.workers == 0 {
                1
            } else {
                self.workers
            }),
    {
        if self.workers == 0 {
            1
        } else {
            self.workers
        }
    }
}

/// A baked node: its key, how many clusters it has, and the clusters themselves.
pub struct Baked<A> {
    pub key: ChunkKey,
    pub clusters: u32,
    pub asset: A,
}

/// The state of a [`NaniteStreamer`] as mathematics.
#[verifier::ext_equal]
#[verifier::reject_recursive_types(A)]
pub struct StreamState<A> {
    /// The settings it was made with.
    pub cfg: StreamConfig,
    pub submitted: Set<u128>,
    pub ready: Map<u128, Baked<A>>,
    pub resident: Map<u128, Baked<A>>,
    pub dirty: bool,
}

impl<A> StreamState<A> {
    /// The node is being baked, ready or shown.
    pub open spec fn known(self, c: u128) -> bool {
        self.submitted.contains(c) || self.ready.contains_key(c) || self.resident.contains_key(c)
    }

    /// The nodes that are nowhere.
    pub open spec fn missing(self) -> Set<u128> {
        Set::new(|c: u128| !self.known(c))
    }

    /// Nodes stand under their own key.
    pub open spec fn wf(self) -> bool {
        &&& self.submitted.finite()
        &&& self.ready.dom().finite()
        &&& self.resident.dom().finite()
        &&& forall|c: u128| #[trigger]
            self.ready.contains_key(c) ==> code(self.ready[c].key) == c
        &&& forall|c: u128| #[trigger]
            self.resident.contains_key(c) ==> code(self.resident[c].key) == c
    }

    /// With the nodes of `keys` no longer awaited.
    pub open spec fn cancelled(self, keys: Seq<ChunkKey>) -> StreamState<A> {
        StreamState { submitted: self.submitted.difference(codes(keys).to_set()), ..self }
    }

    /// With the nodes of `keys` being baked.
    pub open spec fn awaiting(self, keys: Seq<ChunkKey>) -> StreamState<A> {
        StreamState { submitted: self.submitted.union(codes(keys).to_set()), ..self }
    }

    /// With the ready nodes among `keys` shown.
    pub open spec fn showing(self, keys: Seq<ChunkKey>) -> StreamState<A> {
        let k = codes(keys).to_set();
        StreamState {
            ready: self.ready.remove_keys(k),
            resident: self.resident.union_prefer_right(self.ready.restrict(k)),
            dirty: self.dirty || !self.ready.dom().disjoint(k),
            ..self
        }
    }

    /// With the shown nodes among `keys` taken back to the ready ones.
    pub open spec fn hiding(self, keys: Seq<ChunkKey>) -> StreamState<A> {
        let k = codes(keys).to_set();
        StreamState {
            ready: self.ready.union_prefer_right(self.resident.restrict(k)),
            resident: self.resident.remove_keys(k),
            dirty: self.dirty || !self.resident.dom().disjoint(k),
            ..self
        }
    }
}

/// The ready nodes after pruning to `capacity`: some of those before, all of them if they
/// fit, else as many as fit.
pub open spec fn pruned<A>(
    before: Map<u128, Baked<A>>,
    after: Map<u128, Baked<A>>,
    capacity: nat,
) -> bool {
    &&& after.submap_of(before)
    &&& after.len() == (if before.len() <= capacity {
        before.len()
    } else {
        capacity
    })
}

/// How many ready nodes are kept beside those that are shown.
pub open spec fn room(capacity: usize, shown: nat) -> nat {
    if capacity <= shown {
        0
    } else {
        (capacity - shown) as nat
    }
}

/// How many clusters the nodes have.
pub open spec fn cluster_counts<A>(nodes: Map<u128, Baked<A>>) -> Map<u128, nat> {
    nodes.map_values(|b: Baked<A>| b.clusters as nat)
}

/// The bookkeeping of streamed nodes.
pub struct NaniteStreamer<A> {
    cfg: StreamConfig,
    submitted: HashSet<u128>,
    ready: HashMap<u128, Baked<A>>,
    resident: HashMap<u128, Baked<A>>,
    dirty: bool,
}

impl<A> View for NaniteStreamer<A> {
    type V = StreamState<A>;

    closed spec fn view(&self) -> StreamState<A> {
        StreamState {
            cfg: self.cfg,
            submitted: self.submitted@,
            ready: self.ready@,
            resident: self.resident@,
            dirty: self.dirty,
        }
    }
}

impl<A> NaniteStreamer<A> {
    /// Nothing baked or shown, and dirty, so that the empty set reaches the renderer once.
    pub fn new(cfg: StreamConfig) -> (s: Self)
        ensures
            s@.wf(),
            s@ == (StreamState::<A> {
                cfg,
                submitted: Set::empty(),
                ready: Map::empty(),
                resident: Map::empty(),
                dirty: true,
            }),
    {
        NaniteStreamer {
            cfg,
            submitted: HashSet::new(),
            ready: HashMap::new(),
            resident: HashMap::new(),
            dirty: true,
        }
    }

    /// Takes in a node that a baker finished.
    pub fn node_baked(&mut self, baked: Baked<A>)
        requires
            old(self)@.wf(),
        ensures
            final(self)@.wf(),
            final(self)@ == (StreamState {
                submitted: old(self)@.submitted.remove(code(baked.key)),
                ready: old(self)@.ready.insert(code(baked.key), baked),
                ..old(self)@
            }),
    {
        let c: u128 = pack(baked.key);
        self.submitted.remove(&c);
        self.ready.insert(c, baked);
    }

    /// The node is baked, shown or not.
    pub fn is_available(&self, key: ChunkKey) -> (b: bool)
        ensures
            b == (self@.ready.contains_key(code(key)) || self@.resident.contains_key(code(key))),
    {
        self.ready.contains_key(&pack(key)) || self.resident.contains_key(&pack(key))
    }

    /// The node is shown.
    pub fn is_resident(&self, key: ChunkKey) -> (b: bool)
        ensures
            b == self@.resident.contains_key(code(key)),
    {
        self.resident.contains_key(&pack(key))
    }

    fn cancel_all(&mut self, cancels: &Vec<ChunkKey>)
        requires
            old(self)@.wf(),
        ensures
            final(self)@.wf(),
            final(self)@ == old(self)@.cancelled(cancels@),
    {
        let ghost start = self@;
        let mut i: usize = 0;
        proof {
            assert(codes(cancels@.take(0)).to_set() =~= Set::<u128>::empty());
            assert(start.cancelled(cancels@.take(0)) =~= start);
        }
        while i < cancels.len()
            invariant
                i <= cancels.len(),
                self@.wf(),
                self@ == start.cancelled(cancels@.take(i as int)),
            decreases cancels.len() - i,
        {
            let c: u128 = pack(cancels[i]);
            proof {
                take_one_more(cancels@, i as int);
            }
            self.submitted.remove(&c);
            proof {
                assert(self@ =~= start.cancelled(cancels@.take(i as int + 1)));
            }
            i = i + 1;
        }
        proof {
            assert(cancels@.take(cancels.len() as int) =~= cancels@);
        }
    }

    fn submit_missing(&mut self, builds: &Vec<ChunkKey>) -> (jobs: Vec<ChunkKey>)
        requires
            old(self)@.wf(),
        ensures
            final(self)@.wf(),
            jobs@ == firsts(builds@, old(self)@.missing()),
            final(self)@ == old(self)@.awaiting(jobs@),
    {
        let ghost start = self@;
        let ghost missing = start.missing();
        let mut jobs: Vec<ChunkKey> = Vec::new();
        let mut i: usize = 0;
        proof {
            assert(codes(jobs@).to_set() =~= Set::<u128>::empty());
            assert(start.awaiting(jobs@) =~= start);
        }
        while i < builds.len()
            invariant
                i <= builds.len(),
                self@.wf(),
                missing == start.missing(),
                jobs@ == firsts(builds@.take(i as int), missing),
                self@ == start.awaiting(jobs@),
            decreases builds.len() - i,
        {
            let key = builds[i];
            let c: u128 = pack(key);
            let ghost before = jobs@;
            proof {
                take_one_more(builds@, i as int);
                firsts_holds(builds@.take(i as int), missing, c);
                assert(codes(before).to_set().contains(c) <==> codes(before).contains(c));
            }
            if !self.submitted.contains(&c) && !self.ready.contains_key(&c)
                && !self.resident.contains_key(&c) {
                self.submitted.insert(c);
                jobs.push(key);
                proof {
                    assert(codes(jobs@) =~= codes(before).push(c));
                    pushed_to_set(codes(before), c);
                    assert(self@ =~= start.awaiting(jobs@));
                }
            }
            i = i + 1;
        }
        proof {
            assert(builds@.take(builds.len() as int) =~= builds@);
        }
        jobs
    }

    fn show_all(&mut self, show: &Vec<ChunkKey>)
        requires
            old(self)@.wf(),
        ensures
            final(self)@.wf(),
            final(self)@ == old(self)@.showing(show@),
    {
        let ghost start = self@;
        let mut i: usize = 0;
        proof {
            assert(codes(show@.take(0)).to_set() =~= Set::<u128>::empty());
            assert(start.showing(show@.take(0)) =~= start);
        }
        while i < show.len()
            invariant
                i <= show.len(),
                self@.wf(),
                start.wf(),
                self@ == start.showing(show@.take(i as int)),
            decreases show.len() - i,
        {
            let c: u128 = pack(show[i]);
            let ghost k = codes(show@.take(i as int)).to_set();
            proof {
                take_one_more(show@, i as int);
            }
            if let Some(a) = self.ready.remove(&c) {
                self.resident.insert(c, a);
                self.dirty = true;
                proof {
                    assert(start.ready.contains_key(c) && k.insert(c).contains(c));
                }
            }
            proof {
                assert(self@ =~= start.showing(show@.take(i as int + 1))) by {
                    assert(self@.dirty == start.showing(show@.take(i as int + 1)).dirty) by {
                        shared_key(start.ready.dom(), k, c);
                    }
                }
            }
            i = i + 1;
        }
        proof {
            assert(show@.take(show.len() as int) =~= show@);
        }
    }

    fn hide_all(&mut self, hide: &Vec<ChunkKey>)
        requires
            old(self)@.wf(),
        ensures
            final(self)@.wf(),
            final(self)@ == old(self)@.hiding(hide@),
    {
        let ghost start = self@;
        let mut i: usize = 0;
        proof {
            assert(codes(hide@.take(0)).to_set() =~= Set::<u128>::empty());
            assert(start.hiding(hide@.take(0)) =~= start);
        }
        while i < hide.len()
            invariant
                i <= hide.len(),
                self@.wf(),
                start.wf(),
                self@ == start.hiding(hide@.take(i as int)),
            decreases hide.len() - i,
        {
            let c: u128 = pack(hide[i]);
            let ghost k = codes(hide@.take(i as int)).to_set();
            proof {
                take_one_more(hide@, i as int);
            }
            if let Some(a) = self.resident.remove(&c) {
                self.ready.insert(c, a);
                self.dirty = true;
            }
            proof {
                assert(self@ =~= start.hiding(hide@.take(i as int + 1))) by {
                    assert(self@.dirty == start.hiding(hide@.take(i as int + 1)).dirty) by {
                        shared_key(start.resident.dom(), k, c);
                    }
                }
            }
            i = i + 1;
        }
        proof {
            assert(hide@.take(hide.len() as int) =~= hide@);
        }
    }

    /// Drops ready nodes, whichever come first, until with the shown ones no more than the capacity
    /// are left.
    fn prune(&mut self)
        requires
            old(self)@.wf(),
        ensures
            final(self)@.wf(),
            pruned(
                old(self)@.ready,
                final(self)@.ready,
                room(old(self)@.cfg.lru_capacity, old(self)@.resident.len()),
            ),
            final(self)@ == (StreamState { ready: final(self)@.ready, ..old(self)@ }),
    {
        let mut keys: Vec<u128> = Vec::new();
        {
            let iter = self.ready.keys();
            let ghost all = vstd::std_specs::iter::IteratorSpec::remaining(&iter).unref();
            for k in it: iter
                invariant
                    self@ == old(self)@,
                    it.seq().unref() == all,
                    all.no_duplicates(),
                    all.to_set() == self.ready@.dom(),
                    all.len() == self.ready@.dom().len(),
                    keys@ == all.take(it.index()),
            {
                proof {
                    assert(all[it.index()] == *k);
                    assert(all.take(it.index() + 1) =~= all.take(it.index()).push(*k));
                }
                keys.push(*k);
            }
            proof {
                assert(all.take(all.len() as int) =~= all);
            }
        }
        let ghost start = self@;
        let shown: usize = self.resident.len();
        let kept: usize = if self.cfg.lru_capacity <= shown {
            0
        } else {
            self.cfg.lru_capacity - shown
        };
        let mut i: usize = 0;
        while self.ready.len() > kept
            invariant
                i <= keys.len(),
                self@.wf(),
                keys@.no_duplicates(),
                keys@.to_set() == start.ready.dom(),
                keys.len() == start.ready.len(),
                self@ == (StreamState { ready: self@.ready, ..start }),
                self@.ready.submap_of(start.ready),
                forall|j: int| i <= j < keys.len() ==> self@.ready.contains_key(#[trigger] keys[j]),
                self@.ready.len() == keys.len() - i,
                i == 0 || self@.ready.len() >= kept,
            decreases self@.ready.len(),
        {
            let k: u128 = keys[i];
            proof {
                assert(self@.ready.contains_key(keys[i as int]));
            }
            self.ready.remove(&k);
            i = i + 1;
        }
    }

    /// Applies the quadtree's selection for one frame, then bounds how many nodes are
    /// kept. Hands back the nodes to bake: those to build that are nowhere yet, each once.
    pub fn update(
        &mut self,
        cancels: &Vec<ChunkKey>,
        builds: &Vec<ChunkKey>,
        show: &Vec<ChunkKey>,
        hide: &Vec<ChunkKey>,
    ) -> (jobs: Vec<ChunkKey>)
        requires
            old(self)@.wf(),
        ensures
            final(self)@.wf(),
            jobs@ == firsts(builds@, old(self)@.cancelled(cancels@).missing()),
            ({
                let moved = old(self)@.cancelled(cancels@).awaiting(jobs@).showing(show@).hiding(
                    hide@,
                );
                &&& pruned(
                    moved.ready,
                    final(self)@.ready,
                    room(old(self)@.cfg.lru_capacity, moved.resident.len()),
                )
                &&& final(self)@ == (StreamState { ready: final(self)@.ready, ..moved })
            }),
            final(self)@.ready.len() == 0 || final(self)@.ready.len() + final(self)@.resident.len()
                <= old(self)@.cfg.lru_capacity,
    {
        self.cancel_all(cancels);
        let jobs = self.submit_missing(builds);
        self.show_all(show);
        self.hide_all(hide);
        self.prune();
        jobs
    }

    /// Whether the shown set changed since this was last asked.
    pub fn take_dirty(&mut self) -> (was: bool)
        requires
            old(self)@.wf(),
        ensures
            final(self)@.wf(),
            was == old(self)@.dirty,
            final(self)@ == (StreamState { dirty: false, ..old(self)@ }),
    {
        let was: bool = self.dirty;
        self.dirty = false;
        was
    }

    /// The number of shown nodes.
    pub fn resident_nodes(&self) -> (n: usize)
        ensures
            n == self@.resident.len(),
    {
        self.resident.len()
    }

    /// The number of nodes being baked.
    pub fn pending(&self) -> (n: usize)
        ensures
            n == self@.submitted.len(),
    {
        self.submitted.len()
    }

    /// The clusters of a shown node.
    pub fn resident(&self, key: ChunkKey) -> (node: Option<&Baked<A>>)
        ensures
            node is Some <==> self@.resident.contains_key(code(key)),
            node is Some ==> *node->0 == self@.resident[code(key)],
    {
        self.resident.get(&pack(key))
    }

    /// The shown nodes, each once, in no particular order.
    pub fn resident_keys(&self) -> (keys: Vec<ChunkKey>)
        requires
            self@.wf(),
        ensures
            lists(keys@, self@.resident.dom()),
    {
        let mut keys: Vec<ChunkKey> = Vec::new();
        let iter = self.resident.keys();
        let ghost all = vstd::std_specs::iter::IteratorSpec::remaining(&iter).unref();
        for c in it: iter
            invariant
                self@.wf(),
                it.seq().unref() == all,
                all.no_duplicates(),
                all.to_set() == self.resident@.dom(),
                codes(keys@) == all.take(it.index()),
        {
            let ghost before = keys@;
            proof {
                assert(all[it.index()] == *c);
                assert(all.to_set().contains(*c));
            }
            if let Some(b) = self.resident.get(c) {
                proof {
                    assert(self@.resident.contains_key(*c));
                }
                keys.push(b.key);
                proof {
                    assert(codes(keys@) =~= codes(before).push(*c));
                    assert(all.take(it.index() + 1) =~= all.take(it.index()).push(*c));
                }
            }
        }
        proof {
            assert(all.take(all.len() as int) =~= all);
        }
        keys
    }

    /// The shown nodes, nearest first, so that what finds no room is what is farthest. `keys`
    /// lists them and `distances` says how far each of those is; nodes at the same distance stay
    /// in the order of `keys`.
    pub fn visible_assets(&self, keys: &Vec<ChunkKey>, distances: &Vec<u64>) -> (nodes: Vec<
        &Baked<A>,
    >)
        requires
            lists(keys@, self@.resident.dom()),
            distances.len() == keys.len(),
        ensures
            exists|order: Seq<usize>| #[trigger]
                sorts(order, distances@) && nodes.len() == order.len() && (forall|i: int|
                    0 <= i < nodes.len() ==> *(#[trigger] nodes[i]) == self@.resident[code(
                        keys[order[i] as int],
                    )]),
    {
        let order: Vec<usize> = nearest_first(distances);
        let mut nodes: Vec<&Baked<A>> = Vec::new();
        let mut i: usize = 0;
        while i < order.len()
            invariant
                i <= order.len(),
                sorts(order@, distances@),
                distances.len() == keys.len(),
                lists(keys@, self@.resident.dom()),
                nodes.len() == i,
                forall|j: int|
                    0 <= j < i ==> *(#[trigger] nodes[j]) == self@.resident[code(
                        keys[order[j] as int],
                    )],
            decreases order.len() - i,
        {
            let n: usize = order[i];
            let c: u128 = pack(keys[n]);
            proof {
                assert(codes(keys@)[n as int] == c);
                assert(codes(keys@).contains(c));
                assert(codes(keys@).to_set().contains(c));
            }
            match self.resident.get(&c) {
                Some(b) => {
                    nodes.push(b);
                },
                None => {},
            }
            i = i + 1;
        }
        nodes
    }

    /// The clusters of all shown nodes.
    pub fn resident_clusters(&self) -> (n: usize)
        requires
            self@.wf(),
            self@.resident.len() * 0xffff_ffff <= usize::MAX || total(
                cluster_counts(self@.resident),
            ) <= usize::MAX,
        ensures
            n == total(cluster_counts(self@.resident)),
    {
        proof {
            let counts = cluster_counts(self@.resident);
            assert(counts.dom() =~= self@.resident.dom());
            total_below(counts, 0xffff_ffff);
        }
        let mut sum: usize = 0;
        let ghost counts = cluster_counts(self@.resident);
        let iter = self.resident.keys();
        let ghost all = vstd::std_specs::iter::IteratorSpec::remaining(&iter).unref();
        proof {
            assert(all.take(0).to_set() =~= Set::<u128>::empty());
            assert(counts.remove_keys(Set::<u128>::empty()) =~= counts);
            assert(counts.dom() =~= self.resident@.dom());
        }
        for c in it: iter
            invariant
                it.seq().unref() == all,
                all.no_duplicates(),
                all.to_set() == self.resident@.dom(),
                counts == cluster_counts(self.resident@),
                counts.dom() == self.resident@.dom(),
                total(counts) <= usize::MAX,
                sum + total(counts.remove_keys(all.take(it.index()).to_set())) == total(counts),
        {
            let ghost seen = all.take(it.index());
            proof {
                assert(all[it.index()] == *c);
                assert(all.to_set().contains(*c));
                assert(all.take(it.index() + 1) =~= seen.push(*c));
                pushed_to_set(seen, *c);
                let left = counts.remove_keys(seen.to_set());
                assert(!seen.contains(*c)) by {
                    if seen.contains(*c) {
                        let n = choose|n: int| 0 <= n < seen.len() && seen[n] == *c;
                        assert(all[n] == *c);
                    }
                }
                assert(left.dom() =~= counts.dom().difference(seen.to_set()));
                total_splits(left, *c);
                assert(left.remove(*c) =~= counts.remove_keys(seen.to_set().insert(*c)));
            }
            if let Some(b) = self.resident.get(c) {
                sum = sum + b.clusters as usize;
            }
        }
        proof {
            assert(all.take(all.len() as int) =~= all);
            assert(counts.remove_keys(all.to_set()) =~= Map::<u128, nat>::empty());
        }
        sum
    }
}

proof fn shared_key(dom: Set<u128>, k: Set<u128>, c: u128)
    ensures
        dom.disjoint(k.insert(c)) <==> dom.disjoint(k) && !dom.contains(c),
{
    if dom.contains(c) {
        assert(k.insert(c).contains(c));
    }
    if !dom.disjoint(k) {
        let x = choose|x: u128| dom.contains(x) && k.contains(x);
        assert(dom.contains(x) && k.insert(c).contains(x));
    }
}

/// Showing and hiding lose no node: what was baked before is baked after.
pub proof fn moving_loses_nothing<A>(s: StreamState<A>, show: Seq<ChunkKey>, hide: Seq<ChunkKey>)
    ensures
        ({
            let t = s.showing(show).hiding(hide);
            t.ready.dom().union(t.resident.dom()) == s.ready.dom().union(s.resident.dom())
        }),
{
    let t = s.showing(show).hiding(hide);
    assert(t.ready.dom().union(t.resident.dom()) =~= s.ready.dom().union(s.resident.dom()));
}

/// No node is sent to be baked while it is being baked, ready or shown, nor twice at once.
pub proof fn no_node_is_baked_twice<A>(s: StreamState<A>, builds: Seq<ChunkKey>)
    ensures
        codes(firsts(builds, s.missing())).no_duplicates(),
        forall|i: int|
            0 <= i < firsts(builds, s.missing()).len() ==> !s.known(
                code(#[trigger] firsts(builds, s.missing())[i]),
            ),
    decreases builds.len(),
{
    let missing = s.missing();
    let jobs = firsts(builds, missing);
    if builds.len() > 0 {
        let front = builds.drop_last();
        let was = firsts(front, missing);
        no_node_is_baked_twice(s, front);
        firsts_holds(front, missing, code(builds.last()));
        if jobs.len() > was.len() {
            assert(codes(jobs) =~= codes(was).push(code(builds.last())));
            assert(!codes(was).contains(code(builds.last())));
        }
    }
}

/// A ready node that is to be shown is shown, as it was baked, and a shown one that is to be hidden
/// is ready; no other node moves.
pub proof fn nodes_move_as_told<A>(s: StreamState<A>, keys: Seq<ChunkKey>, c: u128)
    ensures
        codes(keys).contains(c) && s.ready.contains_key(c) ==> !s.showing(keys).ready.contains_key(c)
            && s.showing(keys).resident.contains_key(c) && s.showing(keys).resident[c] == s.ready[c],
        !codes(keys).contains(c) || !s.ready.contains_key(c) ==> s.showing(keys).ready.contains_key(
            c,
        ) == s.ready.contains_key(c) && s.showing(keys).resident.contains_key(c)
            == s.resident.contains_key(c),
        codes(keys).contains(c) && s.resident.contains_key(c) ==> !s.hiding(
            keys,
        ).resident.contains_key(c) && s.hiding(keys).ready.contains_key(c) && s.hiding(keys).ready[c]
            == s.resident[c],
        !codes(keys).contains(c) || !s.resident.contains_key(c) ==> s.hiding(
            keys,
        ).resident.contains_key(c) == s.resident.contains_key(c) && s.hiding(
            keys,
        ).ready.contains_key(c) == s.ready.contains_key(c),
        s.showing(keys).submitted == s.submitted && s.hiding(keys).submitted == s.submitted,
{
}

/// The renderer is told whenever a node came on or went off the screen, and only then anew.
pub proof fn moves_are_told<A>(s: StreamState<A>, keys: Seq<ChunkKey>, c: u128)
    ensures
        codes(keys).contains(c) && s.ready.contains_key(c) ==> s.showing(keys).dirty,
        codes(keys).contains(c) && s.resident.contains_key(c) ==> s.hiding(keys).dirty,
        s.dirty ==> s.showing(keys).dirty && s.hiding(keys).dirty,
        !s.dirty && s.showing(keys).dirty ==> exists|k: u128|
            codes(keys).contains(k) && #[trigger] s.ready.contains_key(k),
        !s.dirty && s.hiding(keys).dirty ==> exists|k: u128|
            codes(keys).contains(k) && #[trigger] s.resident.contains_key(k),
{
    let k = codes(keys).to_set();
    if codes(keys).contains(c) && s.ready.contains_key(c) {
        assert(s.ready.dom().contains(c) && k.contains(c));
    }
    if codes(keys).contains(c) && s.resident.contains_key(c) {
        assert(s.resident.dom().contains(c) && k.contains(c));
    }
    if !s.dirty && s.showing(keys).dirty {
        let x = choose|x: u128| s.ready.dom().contains(x) && k.contains(x);
        assert(s.ready.contains_key(x));
    }
    if !s.dirty && s.hiding(keys).dirty {
        let x = choose|x: u128| s.resident.dom().contains(x) && k.contains(x);
        assert(s.resident.contains_key(x));
    }
}

/// A node is awaited from when it is sent to be baked until it is called off; calling off and
/// sending move nothing else.
pub proof fn bakes_are_awaited<A>(s: StreamState<A>, keys: Seq<ChunkKey>, c: u128)
    ensures
        s.awaiting(keys).submitted.contains(c) <==> s.submitted.contains(c) || codes(keys).contains(
            c,
        ),
        s.cancelled(keys).submitted.contains(c) <==> s.submitted.contains(c) && !codes(
            keys,
        ).contains(c),
        s.awaiting(keys).ready == s.ready && s.cancelled(keys).ready == s.ready,
        s.awaiting(keys).resident == s.resident && s.cancelled(keys).resident == s.resident,
        s.awaiting(keys).dirty == s.dirty && s.cancelled(keys).dirty == s.dirty,
        s.missing().contains(c) <==> !s.submitted.contains(c) && !s.ready.contains_key(c)
            && !s.resident.contains_key(c),
{
}

/// Pruning keeps nodes as they are and drops as few as it must: as many are left as there is room
/// for beside those on the screen, or all.
pub proof fn pruning_drops_no_more_than_it_must<A>(
    before: Map<u128, Baked<A>>,
    after: Map<u128, Baked<A>>,
    capacity: usize,
    shown: nat,
    c: u128,
)
    requires
        pruned(before, after, room(capacity, shown)),
    ensures
        after.contains_key(c) ==> before.contains_key(c) && after[c] == before[c],
        shown + before.len() <= capacity ==> after.len() == before.len(),
        shown <= capacity < shown + before.len() ==> shown + after.len() == capacity,
        shown >= capacity ==> after.len() == 0,
{
    if after.contains_key(c) {
        assert(after.dom().contains(c));
        assert(before.dom().contains(c));
    }
}

} // verus!
