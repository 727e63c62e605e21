//! Residency of clusters in the GPU page pool.
//!
//! Each resident cluster keeps one slot of fixed stride, so a reselection uploads only the
//! added clusters and retires only the removed ones. A cluster is only ever written to a
//! free slot, and a retired slot is only freed once the GPU is past it.
use std::collections::{HashMap, HashSet};

use vstd::prelude::*;

use crate::nanite::page_pool::{
    buried, retired_slot_comes_back, retired_slot_waits, PagePool, PoolState,
};

verus! {

broadcast use vstd::std_specs::hash::group_hash_axioms;

/// Cluster slots of the GPU pool.
pub const POOL_MAX_CLUSTERS: usize = 49_152;

/// Vertices that a cluster holds at most.
pub const MAX_CLUSTER_VERTS: usize = 64;

/// Triangles that a cluster holds at most.
pub const MAX_CLUSTER_TRIS: usize = 128;

/// Floats of a slot: position, normal and colour of each vertex.
pub const SLOT_FLOATS: usize = 576;

/// Indices of a slot.
pub const SLOT_INDICES: usize = 384;

/// Bytes of a cluster's metadata record.
pub const META_BYTES: u64 = 64;

/// Node translations that the pool has room for.
pub const POOL_MAX_NODES: usize = 64;

/// A cluster of the cut: the cube face it lies on and its number there.
#[derive(Clone, Copy, Debug, PartialEq, Eq, Structural)]
pub struct ClusterEntry {
    pub face: u32,
    pub cluster: u32,
}

/// A cluster to write to a slot.
#[derive(Clone, Copy, Debug, PartialEq, Eq, Structural)]
pub struct ClusterWrite {
    pub slot: u32,
    pub key: u32,
    pub face: u32,
    pub cluster: u32,
}

/// Node in the high twelve bits, cluster in the low twenty.
pub open spec fn stable(node: u32, cluster: u32) -> u32 {
    (node << 20) | (cluster & 0x000F_FFFF)
}

/// Id of a cluster that does not depend on the slot it happens to be in.
pub fn stable_id(node: u32, cluster: u32) -> (id: u32)
    ensures
        id == stable(node, cluster),
        node < 0x1000 ==> id == node * 0x10_0000 + cluster % 0x10_0000,
{
    proof {
        stable_is_sum(node, cluster);
    }
    (node << 20) | (cluster & 0x000F_FFFF)
}

/// The id as a sum, for nodes that fit.
pub proof fn stable_is_sum(node: u32, cluster: u32)
    ensures
        node < 0x1000 ==> stable(node, cluster) == node * 0x10_0000 + cluster % 0x10_0000,
{
    assert(node < 0x1000 ==> (node << 20) | (cluster & 0x000F_FFFF) == node * 0x10_0000 + cluster
        % 0x10_0000) by (bit_vector);
}

/// Within its range the id tells clusters apart.
pub proof fn stable_id_tells_clusters_apart(n1: u32, c1: u32, n2: u32, c2: u32)
    requires
        n1 < 0x1000,
        n2 < 0x1000,
        c1 < 0x10_0000,
        c2 < 0x10_0000,
        stable(n1, c1) == stable(n2, c2),
    ensures
        n1 == n2,
        c1 == c2,
{
    stable_is_sum(n1, c1);
    stable_is_sum(n2, c2);
}

/// Where a slot's data lies: byte offsets of vertices, triangles and metadata, and the
/// global number of its first vertex.
#[derive(Clone, Copy, Debug, PartialEq, Eq, Structural)]
pub struct SlotLayout {
    pub verts_off: u64,
    pub tris_off: u64,
    pub meta_off: u64,
    pub vertex_base: u32,
}

/// Where the data of `slot` lies.
pub open spec fn layout_of(slot: u32) -> SlotLayout {
    SlotLayout {
        verts_off: (slot * 2304) as u64,
        tris_off: (slot * 1536) as u64,
        meta_off: (slot * 64) as u64,
        vertex_base: (slot * 64) as u32,
    }
}

/// Where the data of a slot lies, four bytes to a float or index.
pub fn slot_layout(slot: u32) -> (l: SlotLayout)
    requires
        slot < POOL_MAX_CLUSTERS,
    ensures
        l == layout_of(slot),
{
    let n: u64 = slot as u64;
    let floats: u64 = SLOT_FLOATS as u64;
    let indices: u64 = SLOT_INDICES as u64;
    proof {
        assert(n * floats == n * 576);
        assert(n * indices == n * 384);
    }
    SlotLayout {
        verts_off: n * floats * 4,
        tris_off: n * indices * 4,
        meta_off: slot as u64 * META_BYTES,
        vertex_base: slot * MAX_CLUSTER_VERTS as u32,
    }
}

/// What is written for one slot never reaches into what another slot holds, nor past the
/// end of the pool's buffers.
pub proof fn slots_do_not_overlap(a: u32, b: u32)
    requires
        a < b < POOL_MAX_CLUSTERS,
    ensures
        layout_of(a).verts_off + 4 * SLOT_FLOATS <= layout_of(b).verts_off,
        layout_of(a).tris_off + 4 * SLOT_INDICES <= layout_of(b).tris_off,
        layout_of(a).meta_off + META_BYTES <= layout_of(b).meta_off,
        layout_of(a).vertex_base + MAX_CLUSTER_VERTS <= layout_of(b).vertex_base,
        layout_of(b).verts_off + 4 * SLOT_FLOATS <= 4 * SLOT_FLOATS * POOL_MAX_CLUSTERS,
        layout_of(b).tris_off + 4 * SLOT_INDICES <= 4 * SLOT_INDICES * POOL_MAX_CLUSTERS,
        layout_of(b).meta_off + META_BYTES <= META_BYTES * POOL_MAX_CLUSTERS,
{
}

/// The sizes of the buffers, in bytes.
#[derive(Clone, Copy, Debug, PartialEq, Eq, Structural)]
pub struct BufferSizes {
    pub verts: u64,
    pub tris: u64,
    pub meta: u64,
    /// The clusters that a cull keeps, a number each.
    pub visible: u64,
    /// The arguments of the indirect draw.
    pub args: u64,
    /// Where each node stands from the camera.
    pub nodes: u64,
    /// The slots in use, a number each.
    pub active: u64,
}

/// The sizes of the buffers: room for every slot, whatever is resident.
pub fn buffer_sizes() -> (s: BufferSizes)
    ensures
        s.verts == 4 * SLOT_FLOATS * POOL_MAX_CLUSTERS,
        s.tris == 4 * SLOT_INDICES * POOL_MAX_CLUSTERS,
        s.meta == META_BYTES * POOL_MAX_CLUSTERS,
        s.visible == 4 * POOL_MAX_CLUSTERS,
        s.args == 16,
        s.nodes == 16 * POOL_MAX_NODES,
        s.active == 4 * POOL_MAX_CLUSTERS,
        s.verts == 2304 * 49_152,
        s.tris == 1536 * 49_152,
        s.meta == 64 * 49_152,
        s.visible == 4 * 49_152,
        s.nodes == 1024,
        s.active == 4 * 49_152,
{
    BufferSizes {
        verts: 4 * 576 * POOL_MAX_CLUSTERS as u64,
        tris: 4 * 384 * POOL_MAX_CLUSTERS as u64,
        meta: 64 * POOL_MAX_CLUSTERS as u64,
        visible: 4 * POOL_MAX_CLUSTERS as u64,
        args: 16,
        nodes: 16 * POOL_MAX_NODES as u64,
        active: 4 * POOL_MAX_CLUSTERS as u64,
    }
}

/// The triangles of a cluster with the global vertex numbers of `slot`.
pub fn slot_triangles(slot: u32, triangles: &Vec<[u32; 3]>) -> (out: Vec<u32>)
    requires
        slot < POOL_MAX_CLUSTERS,
        forall|i: int, k: int|
            0 <= i < triangles.len() && 0 <= k < 3 ==> #[trigger] triangles[i]@[k]
                < MAX_CLUSTER_VERTS,
    ensures
        out.len() == 3 * triangles.len(),
        forall|i: int, k: int|
            0 <= i < triangles.len() && 0 <= k < 3 ==> out[3 * i + k] == slot * 64
                + #[trigger] triangles[i]@[k],
{
    let base: u32 = slot * MAX_CLUSTER_VERTS as u32;
    let mut out: Vec<u32> = Vec::new();
    let mut i: usize = 0;
    while i < triangles.len()
        invariant
            i <= triangles.len(),
            slot < POOL_MAX_CLUSTERS,
            base == slot * 64,
            forall|i: int, k: int|
                0 <= i < triangles.len() && 0 <= k < 3 ==> #[trigger] triangles[i]@[k]
                    < MAX_CLUSTER_VERTS,
            out.len() == 3 * i,
            forall|j: int, k: int|
                0 <= j < i && 0 <= k < 3 ==> out[3 * j + k] == slot * 64
                    + #[trigger] triangles[j]@[k],
        decreases triangles.len() - i,
    {
        let t = triangles[i];
        proof {
            assert(triangles[i as int]@[0] < 64);
            assert(triangles[i as int]@[1] < 64);
            assert(triangles[i as int]@[2] < 64);
        }
        out.push(base + t[0]);
        out.push(base + t[1]);
        out.push(base + t[2]);
        i = i + 1;
    }
    out
}

/// The keys in the map and not in the set.
pub open spec fn undesired(resident: Map<u32, u32>, desired: Set<u32>) -> Set<u32> {
    resident.dom().difference(desired)
}

/// `pairs` lists the entries of `map` at the keys of `keys`, each once.
pub open spec fn lists_entries(pairs: Seq<(u32, u32)>, map: Map<u32, u32>, keys: Set<u32>) -> bool {
    &&& forall|i: int, j: int|
        0 <= i < j < pairs.len() ==> (#[trigger] pairs[i]).0 != (#[trigger] pairs[j]).0
    &&& forall|i: int|
        0 <= i < pairs.len() ==> keys.contains((#[trigger] pairs[i]).0) && map[pairs[i].0]
            == pairs[i].1
    &&& forall|k: u32| #[trigger]
        keys.contains(k) ==> exists|i: int| 0 <= i < pairs.len() && (#[trigger] pairs[i]).0 == k
}

/// The resident clusters that are no longer desired, each with its slot, in no particular
/// order.
pub fn residency_evictions(resident: &HashMap<u32, u32>, desired: &HashSet<u32>) -> (out: Vec<
    (u32, u32),
>)
    ensures
        lists_entries(out@, resident@, undesired(resident@, desired@)),
{
    let mut out: Vec<(u32, u32)> = Vec::new();
    let iter = resident.keys();
    let ghost all = vstd::std_specs::iter::IteratorSpec::remaining(&iter).unref();
    for k in it: iter
        invariant
            it.seq().unref() == all,
            all.no_duplicates(),
            all.to_set() == resident@.dom(),
            forall|i: int, j: int|
                0 <= i < j < out.len() ==> (#[trigger] out[i]).0 != (#[trigger] out[j]).0,
            forall|i: int|
                0 <= i < out.len() ==> undesired(resident@, desired@).contains(
                    (#[trigger] out[i]).0,
                ) && resident@[out[i].0] == out[i].1 && all.take(it.index()).contains(out[i].0),
            forall|n: int|
                0 <= n < it.index() && undesired(resident@, desired@).contains(#[trigger] all[n])
                    ==> exists|i: int| 0 <= i < out.len() && (#[trigger] out[i]).0 == all[n],
    {
        let ghost before = out@;
        let ghost idx = it.index();
        proof {
            assert(all[idx] == *k);
            assert(all.to_set().contains(*k));
            assert(all.take(idx + 1) =~= all.take(idx).push(*k));
            assert(!all.take(idx).contains(*k)) by {
                if all.take(idx).contains(*k) {
                    let n = choose|n: int| 0 <= n < idx && all.take(idx)[n] == *k;
                    assert(all[n] == *k);
                }
            }
            assert forall|x: u32| all.take(idx).contains(x) implies all.take(idx + 1).contains(
                x,
            ) by {
                let n = choose|n: int| 0 <= n < idx && all.take(idx)[n] == x;
                assert(all.take(idx + 1)[n] == x);
            }
            assert(all.take(idx + 1)[idx] == *k);
        }
        if !desired.contains(k) {
            if let Some(s) = resident.get(k) {
                out.push((*k, *s));
                proof {
                    assert(out@[before.len() as int].0 == *k);
                }
            }
        }
        proof {
            assert forall|n: int|
                0 <= n < idx + 1 && undesired(resident@, desired@).contains(
                    #[trigger] all[n],
                ) implies exists|i: int| 0 <= i < out.len() && (#[trigger] out[i]).0 == all[n] by {
                if n < idx {
                    let i = choose|i: int|
                        0 <= i < before.len() && (#[trigger] before[i]).0 == all[n];
                    assert(out@[i].0 == all[n]);
                }
            }
        }
    }
    proof {
        assert forall|k: u32| #[trigger]
            undesired(resident@, desired@).contains(k) implies exists|i: int|
            0 <= i < out.len() && (#[trigger] out[i]).0 == k by {
            assert(all.to_set().contains(k));
            let n = choose|n: int| 0 <= n < all.len() && all[n] == k;
            assert(undesired(resident@, desired@).contains(all[n]));
        }
    }
    out
}

/// The state of a [`NaniteRenderer`] as mathematics.
#[verifier::ext_equal]
pub struct RendererState {
    pub pool: PoolState,
    /// Cluster ids to slots.
    pub resident: Map<u32, u32>,
    /// The slots that culling walks.
    pub active: Seq<u32>,
    pub last_visible: u32,
}

impl RendererState {
    /// Every resident cluster has a live slot to itself.
    pub open spec fn wf(self) -> bool {
        &&& self.pool.wf()
        &&& self.resident.dom().finite()
        &&& forall|k: u32| #[trigger]
            self.resident.contains_key(k) ==> self.pool.live(self.resident[k])
        &&& forall|k: u32, l: u32|
            #![trigger self.resident[k], self.resident[l]]
            self.resident.contains_key(k) && self.resident.contains_key(l) && k != l
                ==> self.resident[k] != self.resident[l]
    }
}

/// The ids of the selected clusters, in their order.
pub open spec fn wanted(entries: Seq<ClusterEntry>, selected: Seq<u32>) -> Seq<u32> {
    Seq::new(
        selected.len(),
        |i: int| stable(entries[selected[i] as int].face, entries[selected[i] as int].cluster),
    )
}

/// The places in `keys` of the keys that are not resident, each key at its first place.
pub open spec fn missing(keys: Seq<u32>, resident: Set<u32>) -> Seq<int>
    decreases keys.len(),
{
    if keys.len() == 0 {
        Seq::empty()
    } else {
        let front = keys.drop_last();
        if !resident.contains(keys.last()) && !front.contains(keys.last()) {
            missing(front, resident).push(keys.len() - 1)
        } else {
            missing(front, resident)
        }
    }
}

/// The residents once `writes` are in.
pub open spec fn with_writes(resident: Map<u32, u32>, writes: Seq<ClusterWrite>) -> Map<u32, u32>
    decreases writes.len(),
{
    if writes.len() == 0 {
        resident
    } else {
        with_writes(resident, writes.drop_last()).insert(writes.last().key, writes.last().slot)
    }
}

/// The writes go to the slots that the pool hands out next, and are for different clusters,
/// none of which is resident.
pub open spec fn writes_fit(s: RendererState, writes: Seq<ClusterWrite>) -> bool {
    &&& writes.len() <= s.pool.free.len()
    &&& forall|j: int|
        0 <= j < writes.len() ==> (#[trigger] writes[j]).slot == s.pool.free[s.pool.free.len() - 1
            - j] && !s.resident.contains_key(writes[j].key)
    &&& forall|i: int, j: int|
        0 <= i < j < writes.len() ==> (#[trigger] writes[i]).key != (#[trigger] writes[j]).key
}

/// The pool after evictions: the evicted slots joined the graveyard, in some order, all to
/// wait for `retire_at`.
pub open spec fn evicted(
    before: PoolState,
    after: PoolState,
    gone: Seq<(u32, u32)>,
    retire_at: u64,
) -> bool {
    after == (PoolState {
        grave: before.grave + gone.map_values(|e: (u32, u32)| (e.1, retire_at)),
        ..before
    })
}

/// `slots` lists the slots of the residents, each once.
pub open spec fn lists_slots(slots: Seq<u32>, resident: Map<u32, u32>) -> bool {
    slots.no_duplicates() && slots.to_set() == resident.values()
}

/// The clusters of assets in order, `counts[f]` of them on face `f`.
pub open spec fn clusters_of(counts: Seq<u32>) -> Seq<(u32, u32)>
    decreases counts.len(),
{
    if counts.len() == 0 {
        Seq::empty()
    } else {
        clusters_of(counts.drop_last()) + Seq::new(
            counts.last() as nat,
            |c: int| ((counts.len() - 1) as u32, c as u32),
        )
    }
}

spec fn seeded(start: RendererState, writes: Seq<ClusterWrite>, flat: Seq<(u32, u32)>) -> bool {
    forall|j: int|
        0 <= j < writes.len() ==> #[trigger] writes[j] == (ClusterWrite {
            slot: start.pool.free[start.pool.free.len() - 1 - j],
            key: stable(flat[j].0, flat[j].1),
            face: flat[j].0,
            cluster: flat[j].1,
        })
}

proof fn clusters_prefix(counts: Seq<u32>, n: int)
    requires
        0 < n <= counts.len() <= u32::MAX,
    ensures
        clusters_of(counts.take(n)).len() == clusters_of(counts.take(n - 1)).len() + counts[n - 1],
        clusters_of(counts.take(n)).len() <= clusters_of(counts).len(),
        forall|c: int|
            0 <= c < counts[n - 1] ==> clusters_of(counts)[clusters_of(counts.take(n - 1)).len()
                + c] == ((n - 1) as u32, #[trigger] (c as u32)),
    decreases counts.len(),
{
    let front = counts.drop_last();
    if n == counts.len() {
        assert(counts.take(n) =~= counts);
        assert(counts.take(n - 1) =~= front);
    } else {
        clusters_prefix(front, n);
        assert(front.take(n) =~= counts.take(n));
        assert(front.take(n - 1) =~= counts.take(n - 1));
        assert(front[n - 1] == counts[n - 1]);
    }
}

proof fn missing_props(keys: Seq<u32>, resident: Set<u32>)
    ensures
        missing(keys, resident).len() <= keys.len(),
        forall|j: int|
            0 <= j < missing(keys, resident).len() ==> 0 <= #[trigger] missing(keys, resident)[j]
                < keys.len() && !resident.contains(keys[missing(keys, resident)[j]]),
        forall|i: int, j: int|
            0 <= i < j < missing(keys, resident).len() ==> keys[#[trigger] missing(
                keys,
                resident,
            )[i]] != keys[#[trigger] missing(keys, resident)[j]],
    decreases keys.len(),
{
    if keys.len() > 0 {
        let front = keys.drop_last();
        missing_props(front, resident);
        let m0 = missing(front, resident);
        let m1 = missing(keys, resident);
        assert forall|j: int| 0 <= j < m1.len() implies 0 <= #[trigger] m1[j] < keys.len()
            && !resident.contains(keys[m1[j]]) by {
            if j < m0.len() {
                assert(m1[j] == m0[j]);
                assert(front[m0[j]] == keys[m1[j]]);
            }
        }
        assert forall|i: int, j: int| 0 <= i < j < m1.len() implies keys[#[trigger] m1[i]]
            != keys[#[trigger] m1[j]] by {
            assert(m1[i] == m0[i]);
            assert(front[m0[i]] == keys[m1[i]]);
            if j < m0.len() {
                assert(m1[j] == m0[j]);
                assert(front[m0[j]] == keys[m1[j]]);
            } else {
                assert(front.contains(front[m0[i]]));
            }
        }
    }
}

/// Every key that is not resident has a place among the missing.
proof fn missing_covers(keys: Seq<u32>, resident: Set<u32>, k: u32) -> (j: int)
    requires
        keys.contains(k),
        !resident.contains(k),
    ensures
        0 <= j < missing(keys, resident).len(),
        0 <= missing(keys, resident)[j] < keys.len(),
        keys[missing(keys, resident)[j]] == k,
    decreases keys.len(),
{
    let front = keys.drop_last();
    if front.contains(k) {
        let j = missing_covers(front, resident, k);
        assert(missing(keys, resident)[j] == missing(front, resident)[j]);
        j
    } else {
        let n = choose|n: int| 0 <= n < keys.len() && keys[n] == k;
        if n < front.len() {
            assert(front[n] == k);
        }
        missing(keys, resident).len() - 1
    }
}

proof fn missing_grows(keys: Seq<u32>, resident: Set<u32>, i: int)
    requires
        0 <= i <= keys.len(),
    ensures
        missing(keys.take(i), resident).len() <= missing(keys, resident).len(),
        forall|j: int|
            0 <= j < missing(keys.take(i), resident).len() ==> #[trigger] missing(keys, resident)[j]
                == missing(keys.take(i), resident)[j],
    decreases keys.len(),
{
    if i == keys.len() {
        assert(keys.take(i) =~= keys);
    } else {
        let front = keys.drop_last();
        missing_grows(front, resident, i);
        assert(front.take(i) =~= keys.take(i));
    }
}

/// The GPU page pool of clusters: who is in which slot.
pub struct NaniteRenderer {
    pool: PagePool,
    resident: HashMap<u32, u32>,
    active_slots: Vec<u32>,
    last_visible: u32,
}

impl View for NaniteRenderer {
    type V = RendererState;

    closed spec fn view(&self) -> RendererState {
        RendererState {
            pool: self.pool@,
            resident: self.resident@,
            active: self.active_slots@,
            last_visible: self.last_visible,
        }
    }
}

impl NaniteRenderer {
    /// An empty pool.
    pub fn new() -> (r: Self)
        ensures
            r@.wf(),
            r@.resident == Map::<u32, u32>::empty(),
            r@.active == Seq::<u32>::empty(),
            r@.last_visible == 0,
            r@.pool.capacity == POOL_MAX_CLUSTERS,
            r@.pool.free == Seq::new(
                POOL_MAX_CLUSTERS as nat,
                |i: int| (POOL_MAX_CLUSTERS - 1 - i) as u32,
            ),
            r@.pool.grave == Seq::<(u32, u64)>::empty(),
    {
        NaniteRenderer {
            pool: PagePool::new(POOL_MAX_CLUSTERS),
            resident: HashMap::new(),
            active_slots: Vec::new(),
            last_visible: 0,
        }
    }

    /// The number of resident clusters.
    pub fn resident_count(&self) -> (n: usize)
        ensures
            n == self@.resident.len(),
    {
        self.resident.len()
    }

    /// The slots of the resident clusters as of the last finished update.
    pub fn active_slots(&self) -> (slots: &Vec<u32>)
        ensures
            slots@ == self@.active,
    {
        &self.active_slots
    }

    fn evict(&mut self, gone: &Vec<(u32, u32)>, retire_at: u64)
        requires
            old(self)@.wf(),
            forall|i: int, j: int|
                0 <= i < j < gone.len() ==> (#[trigger] gone[i]).0 != (#[trigger] gone[j]).0,
            forall|i: int|
                0 <= i < gone.len() ==> old(self)@.resident.contains_key((#[trigger] gone[i]).0)
                    && old(self)@.resident[gone[i].0] == gone[i].1,
        ensures
            final(self)@.wf(),
            evicted(old(self)@.pool, final(self)@.pool, gone@, retire_at),
            forall|k: u32|
                final(self)@.resident.contains_key(k) <==> old(self)@.resident.contains_key(k)
                    && !(exists|i: int| 0 <= i < gone.len() && (#[trigger] gone[i]).0 == k),
            forall|k: u32| #[trigger]
                final(self)@.resident.contains_key(k) ==> final(self)@.resident[k] == old(
                    self,
                )@.resident[k],
            final(self)@.active == old(self)@.active,
            final(self)@.last_visible == old(self)@.last_visible,
    {
        let ghost start = self@;
        let mut i: usize = 0;
        proof {
            let none = gone@.take(0).map_values(|e: (u32, u32)| (e.1, retire_at));
            assert(start.pool.grave + none =~= start.pool.grave);
        }
        while i < gone.len()
            invariant
                i <= gone.len(),
                self@.wf(),
                forall|i: int, j: int|
                    0 <= i < j < gone.len() ==> (#[trigger] gone[i]).0 != (#[trigger] gone[j]).0,
                forall|i: int|
                    0 <= i < gone.len() ==> start.resident.contains_key((#[trigger] gone[i]).0)
                        && start.resident[gone[i].0] == gone[i].1,
                evicted(start.pool, self@.pool, gone@.take(i as int), retire_at),
                forall|k: u32|
                    self@.resident.contains_key(k) <==> start.resident.contains_key(k)
                        && !(exists|j: int| 0 <= j < i && (#[trigger] gone[j]).0 == k),
                forall|k: u32| #[trigger]
                    self@.resident.contains_key(k) ==> self@.resident[k] == start.resident[k],
                self@.active == start.active,
                self@.last_visible == start.last_visible,
            decreases gone.len() - i,
        {
            let (key, slot) = gone[i];
            let ghost mid = self@;
            proof {
                assert(gone[i as int].0 == key);
                assert(mid.resident.contains_key(key));
                assert(mid.pool.live(mid.resident[key]));
                let f = |e: (u32, u32)| (e.1, retire_at);
                assert(gone@.take(i as int + 1).map_values(f) =~= gone@.take(i as int).map_values(
                    f,
                ).push((slot, retire_at)));
                assert(start.pool.grave + gone@.take(i as int + 1).map_values(f) =~= (
                start.pool.grave + gone@.take(i as int).map_values(f)).push((slot, retire_at)));
            }
            self.pool.retire(slot, retire_at);
            self.resident.remove(&key);
            proof {
                assert forall|k: u32| #[trigger] self@.resident.contains_key(k) implies self@.pool.live(
                    self@.resident[k],
                ) by {
                    assert(mid.resident.contains_key(k));
                    assert(mid.resident[k] != mid.resident[key]);
                    assert(mid.pool.live(mid.resident[k]));
                }
            }
            i = i + 1;
        }
        proof {
            assert(gone@.take(gone.len() as int) =~= gone@);
        }
    }

    /// Starts to bring the resident clusters in line with the selection, which is nearest
    /// first: frees the slots that the GPU is done with, retires the clusters that are no
    /// longer wanted, and lists the wanted clusters that are missing with the slots to write
    /// them to. The answer's flag says that the pool is too full for all of them; the
    /// farthest are then left out.
    pub fn update_residency(
        &mut self,
        completed_frame: u64,
        retire_at: u64,
        entries: &Vec<ClusterEntry>,
        selected: &Vec<u32>,
    ) -> (out: (Vec<ClusterWrite>, bool))
        requires
            old(self)@.wf(),
            forall|i: int| 0 <= i < selected.len() ==> (#[trigger] selected[i]) < entries.len(),
        ensures
            final(self)@.wf(),
            exists|gone: Seq<(u32, u32)>|
                lists_entries(
                    gone,
                    old(self)@.resident,
                    undesired(old(self)@.resident, wanted(entries@, selected@).to_set()),
                ) && #[trigger] evicted(
                    old(self)@.pool.collected(completed_frame),
                    final(self)@.pool,
                    gone,
                    retire_at,
                ),
            final(self)@.resident == old(self)@.resident.restrict(
                wanted(entries@, selected@).to_set(),
            ),
            final(self)@.active == old(self)@.active,
            final(self)@.last_visible == old(self)@.last_visible,
            ({
                let keys = wanted(entries@, selected@);
                let new = missing(keys, final(self)@.resident.dom());
                let room = final(self)@.pool.free.len();
                &&& writes_fit(final(self)@, out.0@)
                &&& out.0.len() == (if new.len() <= room {
                    new.len()
                } else {
                    room
                })
                &&& out.1 == (new.len() > room)
                &&& forall|j: int|
                    0 <= j < out.0.len() ==> (#[trigger] out.0[j]).key == keys[new[j]]
                        && out.0[j].face == entries[selected[new[j]] as int].face
                        && out.0[j].cluster == entries[selected[new[j]] as int].cluster
            }),
    {
        let ghost keys = wanted(entries@, selected@);
        self.pool.collect(completed_frame);
        let ghost collected = self@;
        let mut desired: HashSet<u32> = HashSet::new();
        let mut i: usize = 0;
        proof {
            assert(keys.take(0).to_set() =~= Set::<u32>::empty());
        }
        while i < selected.len()
            invariant
                i <= selected.len(),
                forall|i: int| 0 <= i < selected.len() ==> (#[trigger] selected[i]) < entries.len(),
                keys == wanted(entries@, selected@),
                desired@ == keys.take(i as int).to_set(),
            decreases selected.len() - i,
        {
            let e = entries[selected[i] as usize];
            let key: u32 = stable_id(e.face, e.cluster);
            desired.insert(key);
            proof {
                assert(keys[i as int] == key);
                one_more_key(keys, i as int);
            }
            i = i + 1;
        }
        proof {
            assert(keys.take(keys.len() as int) =~= keys);
        }
        let gone = residency_evictions(&self.resident, &desired);
        self.evict(&gone, retire_at);
        proof {
            assert(self@.resident =~= old(self)@.resident.restrict(keys.to_set())) by {
                assert forall|k: u32| self@.resident.contains_key(k) <==> (old(
                    self,
                )@.resident.contains_key(k) && keys.to_set().contains(k)) by {
                    if old(self)@.resident.contains_key(k) && !keys.to_set().contains(k) {
                        assert(undesired(old(self)@.resident, keys.to_set()).contains(k));
                    }
                    if self@.resident.contains_key(k) && !keys.to_set().contains(k) {
                        assert(undesired(old(self)@.resident, keys.to_set()).contains(k));
                    }
                }
            }
            assert(evicted(
                old(self)@.pool.collected(completed_frame),
                self@.pool,
                gone@,
                retire_at,
            ));
        }
        let ghost have = self@.resident.dom();
        let room: usize = self.pool.free_count();
        let mut writes: Vec<ClusterWrite> = Vec::new();
        let mut planned: HashSet<u32> = HashSet::new();
        let mut full: bool = false;
        let mut n: usize = 0;
        let ghost now = self@;
        while n < selected.len() && !full
            invariant
                n <= selected.len(),
                self@ == now,
                now.wf(),
                have == now.resident.dom(),
                room == now.pool.free.len(),
                keys == wanted(entries@, selected@),
                forall|i: int| 0 <= i < selected.len() ==> (#[trigger] selected[i]) < entries.len(),
                forall|k: u32| #[trigger]
                    planned@.contains(k) <==> (keys.take(n as int).contains(k) && !have.contains(
                        k,
                    )),
                writes.len() <= room,
                !full ==> writes.len() == missing(keys.take(n as int), have).len(),
                full ==> writes.len() == room && missing(keys, have).len() > room,
                writes.len() <= missing(keys, have).len(),
                forall|j: int|
                    0 <= j < writes.len() ==> {
                        &&& (#[trigger] writes[j]).key == keys[missing(keys, have)[j]]
                        &&& writes[j].face == entries[selected[missing(
                            keys,
                            have,
                        )[j]] as int].face
                        &&& writes[j].cluster == entries[selected[missing(
                            keys,
                            have,
                        )[j]] as int].cluster
                        &&& writes[j].slot == now.pool.free[room - 1 - j]
                    },
            decreases selected.len() - n, if full { 0int } else { 1int },
        {
            let e = entries[selected[n] as usize];
            let key: u32 = stable_id(e.face, e.cluster);
            let ghost before = planned@;
            let ghost at = n as int;
            proof {
                assert(keys[n as int] == key);
                let now_keys = keys.take(n as int + 1);
                assert(now_keys.drop_last() =~= keys.take(n as int));
                assert(now_keys.last() == key);
                missing_grows(keys, have, n as int + 1);
                one_more_key(keys, n as int);
            }
            if self.resident.contains_key(&key) || planned.contains(&key) {
                n = n + 1;
            } else if writes.len() == room {
                full = true;
                // The cluster at `n` finds no room, and neither would any after it.
                proof {
                    assert(!keys.take(n as int).contains(key));
                    assert(missing(keys.take(n as int + 1), have).len() == room + 1);
                }
            } else {
                proof {
                    assert(!keys.take(n as int).contains(key));
                    let m1 = missing(keys.take(n as int + 1), have);
                    assert(m1[m1.len() - 1] == n as int);
                    assert(missing(keys, have)[writes.len() as int] == n as int);
                }
                let slot: u32 = self.pool.upcoming(writes.len());
                writes.push(ClusterWrite { slot, key, face: e.face, cluster: e.cluster });
                planned.insert(key);
                n = n + 1;
            }
            proof {
                if !full {
                    assert forall|k: u32| #[trigger] planned@.contains(k) <==> (keys.take(
                        n as int,
                    ).contains(k) && !have.contains(k)) by {
                        assert(keys.take(at + 1).contains(k) <==> (keys.take(at).contains(k) || k
                            == keys[at]));
                        assert(before.contains(k) <==> (keys.take(at).contains(k)
                            && !have.contains(k)));
                    }
                }
            }
        }
        proof {
            assert(keys.take(keys.len() as int) =~= keys);
            missing_props(keys, have);
            let m = missing(keys, have);
            assert forall|j: int| 0 <= j < writes.len() implies !self@.resident.contains_key(
                (#[trigger] writes[j]).key,
            ) by {
                assert(!have.contains(keys[m[j]]));
            }
            assert forall|i: int, j: int| 0 <= i < j < writes.len() implies (
            #[trigger] writes[i]).key != (#[trigger] writes[j]).key by {
                assert(keys[m[i]] != keys[m[j]]);
            }
        }
        (writes, full)
    }

    fn put(&mut self, w: ClusterWrite)
        requires
            old(self)@.wf(),
            old(self)@.pool.free.len() > 0,
            w.slot == old(self)@.pool.free.last(),
        ensures
            final(self)@.wf(),
            final(self)@ == (RendererState {
                pool: PoolState {
                    free: old(self)@.pool.free.drop_last(),
                    ..old(self)@.pool
                },
                resident: old(self)@.resident.insert(w.key, w.slot),
                ..old(self)@
            }),
    {
        let ghost before = self@;
        if let Some(slot) = self.pool.allocate() {
            self.resident.insert(w.key, slot);
            proof {
                assert forall|k: u32| #[trigger] self@.resident.contains_key(k) implies self@.pool.live(
                    self@.resident[k],
                ) by {
                    if k != w.key {
                        assert(before.resident.contains_key(k));
                        assert(before.pool.live(before.resident[k]));
                    }
                }
                assert forall|k: u32, l: u32|
                    #![trigger self@.resident[k], self@.resident[l]]
                    self@.resident.contains_key(k) && self@.resident.contains_key(l) && k
                        != l implies self@.resident[k] != self@.resident[l] by {
                    if k != w.key {
                        assert(before.pool.live(before.resident[k]));
                    }
                    if l != w.key {
                        assert(before.pool.live(before.resident[l]));
                    }
                }
            }
        }
    }

    fn rebuild_active(&mut self)
        requires
            old(self)@.wf(),
        ensures
            final(self)@.wf(),
            lists_slots(final(self)@.active, final(self)@.resident),
            final(self)@ == (RendererState { active: final(self)@.active, ..old(self)@ }),
    {
        let mut slots: Vec<u32> = Vec::new();
        let iter = self.resident.keys();
        let ghost all = vstd::std_specs::iter::IteratorSpec::remaining(&iter).unref();
        for k in it: iter
            invariant
                self@ == old(self)@,
                self@.wf(),
                it.seq().unref() == all,
                all.no_duplicates(),
                all.to_set() == self.resident@.dom(),
                slots.len() == it.index(),
                forall|i: int|
                    0 <= i < slots.len() ==> #[trigger] slots[i] == self.resident@[all[i]],
        {
            proof {
                assert(all[it.index()] == *k);
                assert(all.to_set().contains(*k));
            }
            if let Some(s) = self.resident.get(k) {
                slots.push(*s);
            }
        }
        proof {
            let m = self.resident@;
            assert forall|i: int, j: int| 0 <= i < slots.len() && 0 <= j < slots.len() && i
                != j implies slots[i] != slots[j] by {
                assert(all[i] != all[j]);
                assert(all.to_set().contains(all[i]));
                assert(all.to_set().contains(all[j]));
                assert(self@.resident[all[i]] != self@.resident[all[j]]);
            }
            assert forall|v: u32| slots@.to_set().contains(v) <==> m.values().contains(v) by {
                if slots@.contains(v) {
                    let i = choose|i: int| 0 <= i < slots.len() && slots@[i] == v;
                    assert(all.to_set().contains(all[i]));
                    assert(m.contains_key(all[i]) && m[all[i]] == v);
                }
                if m.values().contains(v) {
                    let k = choose|k: u32| #[trigger] m.contains_key(k) && m[k] == v;
                    assert(all.to_set().contains(k));
                    let i = choose|i: int| 0 <= i < all.len() && all[i] == k;
                    assert(slots@[i] == v);
                }
            }
            assert(slots@.to_set() =~= m.values());
        }
        self.active_slots = slots;
    }

    /// Finishes an update once the first `written` of its writes reached the GPU: those
    /// clusters are resident. If a write failed, its slot stays taken, the clusters after it
    /// are left out, and culling goes on with the slots that it had.
    pub fn finish_residency(&mut self, writes: &Vec<ClusterWrite>, written: usize)
        requires
            old(self)@.wf(),
            writes_fit(old(self)@, writes@),
            written <= writes.len(),
        ensures
            final(self)@.wf(),
            final(self)@.resident == with_writes(
                old(self)@.resident,
                writes@.take(written as int),
            ),
            final(self)@.pool == (PoolState {
                free: old(self)@.pool.free.take(
                    old(self)@.pool.free.len() - written - if written < writes.len() {
                        1int
                    } else {
                        0int
                    },
                ),
                ..old(self)@.pool
            }),
            written == writes.len() ==> lists_slots(final(self)@.active, final(self)@.resident),
            written < writes.len() ==> final(self)@.active == old(self)@.active,
            final(self)@.last_visible == old(self)@.last_visible,
    {
        let ghost start = self@;
        let ghost room = start.pool.free.len() as int;
        let mut j: usize = 0;
        proof {
            assert(start.pool.free.take(room) =~= start.pool.free);
        }
        while j < written
            invariant
                j <= written <= writes.len(),
                self@.wf(),
                writes_fit(start, writes@),
                room == start.pool.free.len(),
                self@ == (RendererState {
                    pool: PoolState { free: start.pool.free.take(room - j), ..start.pool },
                    resident: with_writes(start.resident, writes@.take(j as int)),
                    ..start
                }),
            decreases written - j,
        {
            let w = writes[j];
            proof {
                assert(writes@[j as int].slot == start.pool.free[room - 1 - j]);
                assert(start.pool.free.take(room - j).drop_last() =~= start.pool.free.take(
                    room - j - 1,
                ));
                assert(writes@.take(j as int + 1).drop_last() =~= writes@.take(j as int));
            }
            self.put(w);
            j = j + 1;
        }
        if written < writes.len() {
            let ghost mid = self@;
            proof {
                assert(start.pool.free.take(room - written).drop_last() =~= start.pool.free.take(
                    room - written - 1,
                ));
            }
            let _ = self.pool.allocate();
            proof {
                assert forall|k: u32| #[trigger] self@.resident.contains_key(k) implies self@.pool.live(
                    self@.resident[k],
                ) by {
                    assert(mid.pool.live(mid.resident[k]));
                }
            }
            return ;
        }
        self.rebuild_active();
    }

    /// Seeds the pool with whole assets, `counts[f]` clusters of face `f`, as far as there
    /// is room. Hands back what to write where.
    pub fn seed(&mut self, counts: &Vec<u32>) -> (writes: Vec<ClusterWrite>)
        requires
            old(self)@.wf(),
            counts.len() <= u32::MAX,
        ensures
            final(self)@.wf(),
            writes.len() == (if clusters_of(counts@).len() <= old(self)@.pool.free.len() {
                clusters_of(counts@).len()
            } else {
                old(self)@.pool.free.len()
            }),
            forall|j: int|
                0 <= j < writes.len() ==> #[trigger] writes[j] == (ClusterWrite {
                    slot: old(self)@.pool.free[old(self)@.pool.free.len() - 1 - j],
                    key: stable(clusters_of(counts@)[j].0, clusters_of(counts@)[j].1),
                    face: clusters_of(counts@)[j].0,
                    cluster: clusters_of(counts@)[j].1,
                }),
            final(self)@.resident == with_writes(old(self)@.resident, writes@),
            final(self)@.pool == (PoolState {
                free: old(self)@.pool.free.take(old(self)@.pool.free.len() - writes.len()),
                ..old(self)@.pool
            }),
            counts.len() > 0 ==> lists_slots(final(self)@.active, final(self)@.resident),
            counts.len() == 0 ==> final(self)@.active == old(self)@.active,
            final(self)@.last_visible == old(self)@.last_visible,
    {
        let ghost start = self@;
        let ghost room = start.pool.free.len() as int;
        let ghost flat = clusters_of(counts@);
        let mut writes: Vec<ClusterWrite> = Vec::new();
        if counts.len() == 0 {
            proof {
                assert(start.pool.free.take(room) =~= start.pool.free);
            }
            return writes;
        }
        let mut face: usize = 0;
        proof {
            assert(start.pool.free.take(room) =~= start.pool.free);
            assert(counts@.take(0) =~= Seq::<u32>::empty());
        }
        while face < counts.len()
            invariant
                face <= counts.len() <= u32::MAX,
                self@.wf(),
                room == start.pool.free.len(),
                flat == clusters_of(counts@),
                writes.len() <= room,
                writes.len() == clusters_of(counts@.take(face as int)).len() || (writes.len()
                    == room && room <= clusters_of(counts@.take(face as int)).len()),
                writes.len() <= flat.len(),
                seeded(start, writes@, flat),
                self@ == (RendererState {
                    pool: PoolState {
                        free: start.pool.free.take(room - writes.len()),
                        ..start.pool
                    },
                    resident: with_writes(start.resident, writes@),
                    ..start
                }),
            decreases counts.len() - face,
        {
            let n: u32 = counts[face];
            let ghost base = clusters_of(counts@.take(face as int)).len() as int;
            proof {
                assert(counts@.take(face as int + 1).drop_last() =~= counts@.take(face as int));
                clusters_prefix(counts@, face as int + 1);
            }
            let mut ci: u32 = 0;
            let mut full: bool = false;
            while ci < n && !full
                invariant
                    face < counts.len() <= u32::MAX,
                    ci <= n == counts[face as int],
                    self@.wf(),
                    room == start.pool.free.len(),
                    flat == clusters_of(counts@),
                    base == clusters_of(counts@.take(face as int)).len(),
                    base + n == clusters_of(counts@.take(face as int + 1)).len(),
                    base + n <= flat.len(),
                    forall|c: int|
                        0 <= c < n ==> flat[base + c] == (face as u32, #[trigger] (c as u32)),
                    writes.len() <= room,
                    !full ==> writes.len() == base + ci || (writes.len() == room && room <= base),
                    full ==> writes.len() == room && room <= base + n,
                    writes.len() <= flat.len(),
                    seeded(start, writes@, flat),
                    self@ == (RendererState {
                        pool: PoolState {
                            free: start.pool.free.take(room - writes.len()),
                            ..start.pool
                        },
                        resident: with_writes(start.resident, writes@),
                        ..start
                    }),
                decreases
                        n - ci,
                        if full {
                            0int
                        } else {
                            1int
                        },
            {
                if self.pool.free_count() == 0 {
                    full = true;
                } else {
                    let slot: u32 = self.pool.upcoming(0);
                    let w = ClusterWrite {
                        slot,
                        key: stable_id(face as u32, ci),
                        face: face as u32,
                        cluster: ci,
                    };
                    let ghost before = writes@;
                    proof {
                        assert(flat[base + ci as int] == (face as u32, (ci as int) as u32));
                        assert(start.pool.free.take(room - before.len()).drop_last()
                            =~= start.pool.free.take(room - before.len() - 1));
                    }
                    self.put(w);
                    writes.push(w);
                    proof {
                        assert(writes@.drop_last() =~= before);
                    }
                    ci = ci + 1;
                }
            }
            face = face + 1;
        }
        proof {
            assert(counts@.take(counts.len() as int) =~= counts@);
        }
        self.rebuild_active();
        writes
    }

    /// Notes how many clusters the last completed cull kept, from the indirect arguments
    /// that it left. Too few bytes to tell: the former number stays.
    pub fn note_visible(&mut self, args: &Vec<u8>)
        requires
            old(self)@.wf(),
        ensures
            final(self)@ == (RendererState {
                last_visible: if args.len() >= 4 {
                    ((args[0] + 0x100 * args[1] + 0x1_0000 * args[2] + 0x100_0000 * args[3]) / 384)
                        as u32
                } else {
                    old(self)@.last_visible
                },
                ..old(self)@
            }),
    {
        if args.len() >= 4 {
            let vertex_count: u32 = args[0] as u32 + 0x100 * args[1] as u32 + 0x1_0000
                * args[2] as u32 + 0x100_0000 * args[3] as u32;
            self.last_visible = vertex_count / (MAX_CLUSTER_TRIS as u32 * 3);
        }
    }

    /// The clusters that the last completed cull kept.
    pub fn last_visible_clusters(&self) -> (n: u32)
        ensures
            n == self@.last_visible,
    {
        self.last_visible
    }

    /// Work groups of 64 that cover the active slots, at least one.
    pub fn cull_groups(&self) -> (n: u32)
        requires
            self@.active.len() <= u32::MAX,
        ensures
            n >= 1,
            64 * n >= self@.active.len(),
            n > 1 ==> 64 * (n - 1) < self@.active.len(),
    {
        let count: u32 = self.active_slots.len() as u32;
        if count <= 1 {
            1
        } else {
            (count - 1) / 64 + 1
        }
    }
}

proof fn one_more_key(keys: Seq<u32>, i: int)
    requires
        0 <= i < keys.len(),
    ensures
        keys.take(i + 1).to_set() == keys.take(i).to_set().insert(keys[i]),
        forall|k: u32| #[trigger]
            keys.take(i + 1).contains(k) <==> (keys.take(i).contains(k) || k == keys[i]),
{
    let a = keys.take(i + 1);
    let b = keys.take(i);
    assert forall|k: u32| a.contains(k) <==> (b.contains(k) || k == keys[i]) by {
        if b.contains(k) {
            let n = choose|n: int| 0 <= n < b.len() && b[n] == k;
            assert(a[n] == k);
        }
        if k == keys[i] {
            assert(a[i] == k);
        }
        if a.contains(k) {
            let n = choose|n: int| 0 <= n < a.len() && a[n] == k;
            if n < i {
                assert(b[n] == k);
            }
        }
    }
    assert(a.to_set() =~= b.to_set().insert(keys[i]));
}

proof fn written_keys(resident: Map<u32, u32>, writes: Seq<ClusterWrite>, k: u32)
    ensures
        with_writes(resident, writes).contains_key(k) <==> (resident.contains_key(k) || exists|
            j: int,
        |
            0 <= j < writes.len() && (#[trigger] writes[j]).key == k),
    decreases writes.len(),
{
    if writes.len() > 0 {
        let front = writes.drop_last();
        written_keys(resident, front, k);
        if exists|j: int| 0 <= j < front.len() && (#[trigger] front[j]).key == k {
            let j = choose|j: int| 0 <= j < front.len() && (#[trigger] front[j]).key == k;
            assert(writes[j].key == k);
        }
        if exists|j: int| 0 <= j < writes.len() && (#[trigger] writes[j]).key == k {
            let j = choose|j: int| 0 <= j < writes.len() && (#[trigger] writes[j]).key == k;
            if j < front.len() {
                assert(front[j].key == k);
            }
        }
        if writes.last().key == k {
            assert(writes[writes.len() - 1].key == k);
        }
    }
}

/// A planned write never touches a slot that a resident cluster holds, nor one that waits
/// in the graveyard for the GPU.
pub proof fn writes_touch_free_slots_only(s: RendererState, writes: Seq<ClusterWrite>, j: int)
    requires
        s.wf(),
        writes_fit(s, writes),
        0 <= j < writes.len(),
    ensures
        !s.pool.live(writes[j].slot),
        !s.resident.values().contains(writes[j].slot),
        !buried(s.pool.grave, writes[j].slot),
{
    let f = s.pool.free;
    assert(writes[j].slot == f[f.len() - 1 - j]);
    assert(f.contains(writes[j].slot));
    if s.resident.values().contains(writes[j].slot) {
        let k = choose|k: u32| #[trigger]
            s.resident.contains_key(k) && s.resident[k] == writes[j].slot;
        assert(s.pool.live(s.resident[k]));
    }
    if buried(s.pool.grave, writes[j].slot) {
        let i = choose|i: int|
            0 <= i < s.pool.grave.len() && (#[trigger] s.pool.grave[i]).0 == writes[j].slot;
        assert(f[f.len() - 1 - j] != s.pool.grave[i].0);
    }
}

/// With room for all that is missing, an update leaves exactly the selection resident.
pub proof fn selection_becomes_resident(
    before: Map<u32, u32>,
    keys: Seq<u32>,
    writes: Seq<ClusterWrite>,
)
    requires
        writes.len() == missing(keys, before.restrict(keys.to_set()).dom()).len(),
        forall|j: int|
            0 <= j < writes.len() ==> (#[trigger] writes[j]).key == keys[missing(
                keys,
                before.restrict(keys.to_set()).dom(),
            )[j]],
    ensures
        with_writes(before.restrict(keys.to_set()), writes).dom() == keys.to_set(),
{
    let kept = before.restrict(keys.to_set());
    let m = missing(keys, kept.dom());
    missing_props(keys, kept.dom());
    let after = with_writes(kept, writes);
    assert forall|k: u32| after.dom().contains(k) <==> keys.to_set().contains(k) by {
        written_keys(kept, writes, k);
        if keys.contains(k) && !kept.contains_key(k) {
            let j = missing_covers(keys, kept.dom(), k);
            assert(writes[j].key == k);
        }
        if exists|j: int| 0 <= j < writes.len() && (#[trigger] writes[j]).key == k {
            let j = choose|j: int| 0 <= j < writes.len() && (#[trigger] writes[j]).key == k;
            assert(keys[m[j]] == k);
            assert(keys.contains(k));
        }
    }
    assert(after.dom() =~= keys.to_set());
}

/// Slots lie side by side from the start of each buffer, each as large as the largest cluster: 64
/// vertices of nine numbers, 128 triangles of three, and sixteen words beside them.
pub proof fn slots_lie_side_by_side(slot: u32)
    requires
        slot < POOL_MAX_CLUSTERS,
    ensures
        layout_of(0) == (SlotLayout { verts_off: 0, tris_off: 0, meta_off: 0, vertex_base: 0 }),
        layout_of((slot + 1) as u32).verts_off == layout_of(slot).verts_off + 64 * 9 * 4,
        layout_of((slot + 1) as u32).tris_off == layout_of(slot).tris_off + 128 * 3 * 4,
        layout_of((slot + 1) as u32).meta_off == layout_of(slot).meta_off + 16 * 4,
        layout_of((slot + 1) as u32).vertex_base == layout_of(slot).vertex_base + 64,
        layout_of(slot).vertex_base * 36 == layout_of(slot).verts_off,
{
}

/// What is wanted are the ids of the clusters that were selected, one for one: the face and the
/// number of the cluster can be read off each.
pub proof fn wanted_are_the_selected(entries: Seq<ClusterEntry>, selected: Seq<u32>, i: int)
    requires
        0 <= i < selected.len(),
        entries[selected[i] as int].face < 0x1000,
        entries[selected[i] as int].cluster < 0x10_0000,
    ensures
        wanted(entries, selected).len() == selected.len(),
        wanted(entries, selected)[i] / 0x10_0000 == entries[selected[i] as int].face,
        wanted(entries, selected)[i] % 0x10_0000 == entries[selected[i] as int].cluster,
{
    let e = entries[selected[i] as int];
    stable_is_sum(e.face, e.cluster);
}

/// What is missing is listed nearest first, each cluster once, at the first place it is wanted;
/// nothing that is wanted and not resident is passed over.
pub proof fn missing_come_nearest_first(keys: Seq<u32>, resident: Set<u32>, n: int)
    requires
        0 <= n < keys.len(),
    ensures
        missing(keys, resident).contains(n) <==> !resident.contains(keys[n]) && forall|m: int|
            0 <= m < n ==> #[trigger] keys[m] != keys[n],
        forall|i: int, j: int|
            0 <= i < j < missing(keys, resident).len() ==> (#[trigger] missing(keys, resident)[i]) < (
            #[trigger] missing(keys, resident)[j]),
    decreases keys.len(),
{
    let front = keys.drop_last();
    let was = missing(front, resident);
    let now = missing(keys, resident);
    let last = keys.len() - 1;
    missing_props(front, resident);
    if front.len() > 0 {
        let m = if n < last {
            n
        } else {
            0
        };
        missing_come_nearest_first(front, resident, m);
    }
    if n < last {
        if was.contains(n) {
            let k = choose|k: int| 0 <= k < was.len() && was[k] == n;
            assert(now[k] == n);
            assert forall|m: int| 0 <= m < n implies #[trigger] keys[m] != keys[n] by {
                assert(front[m] != front[n]);
            }
        }
        if now.contains(n) {
            let k = choose|k: int| 0 <= k < now.len() && now[k] == n;
            assert(was[k] == n);
        }
        if forall|m: int| 0 <= m < n ==> #[trigger] keys[m] != keys[n] {
            assert forall|m: int| 0 <= m < n implies #[trigger] front[m] != front[n] by {
                assert(keys[m] != keys[n]);
            }
        }
    } else {
        if now.contains(n) {
            let k = choose|k: int| 0 <= k < now.len() && now[k] == n;
            if k < was.len() {
                assert(was[k] < last);
            }
            assert forall|m: int| 0 <= m < n implies #[trigger] keys[m] != keys[n] by {
                assert(front.contains(front[m]));
            }
        }
        if !resident.contains(keys[n]) && forall|m: int| 0 <= m < n ==> #[trigger] keys[m] != keys[n] {
            if front.contains(keys[n]) {
                let m = choose|m: int| 0 <= m < front.len() && front[m] == keys[n];
                assert(keys[m] == keys[n]);
            }
            assert(now[was.len() as int] == n);
        }
    }
}

/// Written clusters are resident in the slots they were written to, and the others stay where they
/// were.
pub proof fn writes_take_their_slots(resident: Map<u32, u32>, writes: Seq<ClusterWrite>, k: u32)
    requires
        forall|i: int, j: int|
            0 <= i < j < writes.len() ==> (#[trigger] writes[i]).key != (#[trigger] writes[j]).key,
    ensures
        forall|j: int|
            0 <= j < writes.len() ==> with_writes(resident, writes).contains_key(
                (#[trigger] writes[j]).key,
            ) && with_writes(resident, writes)[writes[j].key] == writes[j].slot,
        (forall|j: int| 0 <= j < writes.len() ==> (#[trigger] writes[j]).key != k) ==> (with_writes(
            resident,
            writes,
        ).contains_key(k) <==> resident.contains_key(k)) && with_writes(resident, writes)[k]
            == resident[k],
    decreases writes.len(),
{
    if writes.len() > 0 {
        let front = writes.drop_last();
        assert forall|i: int, j: int| 0 <= i < j < front.len() implies (#[trigger] front[i]).key != (
        #[trigger] front[j]).key by {
            assert(writes[i].key != writes[j].key);
        }
        writes_take_their_slots(resident, front, k);
        let now = with_writes(resident, writes);
        assert forall|j: int| 0 <= j < writes.len() implies now.contains_key(
            (#[trigger] writes[j]).key,
        ) && now[writes[j].key] == writes[j].slot by {
            if j < front.len() {
                assert(front[j] == writes[j]);
                assert(writes[j].key != writes[writes.len() - 1].key);
            }
        }
        if forall|j: int| 0 <= j < writes.len() ==> (#[trigger] writes[j]).key != k {
            assert forall|j: int| 0 <= j < front.len() implies (#[trigger] front[j]).key != k by {
                assert(writes[j].key != k);
            }
            assert(writes[writes.len() - 1].key != k);
        }
    }
}

/// A cluster that is no longer wanted gives up its slot, but not before the frames that may read it
/// are done: until then the slot is not handed out, and from then on it is.
pub proof fn evicted_slots_wait(
    before: PoolState,
    after: PoolState,
    gone: Seq<(u32, u32)>,
    retire_at: u64,
    n: int,
    completed: u64,
)
    requires
        after.wf(),
        evicted(before, after, gone, retire_at),
        0 <= n < gone.len(),
    ensures
        after.free == before.free,
        completed < retire_at ==> !after.collected(completed).free.contains(gone[n].1),
        completed >= retire_at ==> after.collected(completed).free.contains(gone[n].1),
{
    assert(after.grave[before.grave.len() + n] == (gone[n].1, retire_at));
    assert(after.grave.contains((gone[n].1, retire_at)));
    if completed < retire_at {
        retired_slot_waits(after, gone[n].1, retire_at, completed);
    } else {
        retired_slot_comes_back(after, gone[n].1, retire_at, completed);
    }
}

/// Seeding goes through the faces in order, and through the clusters of each in order, every one
/// once.
pub proof fn seeds_go_face_by_face(counts: Seq<u32>, f: int, c: int) -> (at: int)
    requires
        counts.len() <= u32::MAX,
        0 <= f < counts.len(),
        0 <= c < counts[f],
    ensures
        0 <= at < clusters_of(counts).len(),
        clusters_of(counts)[at] == (f as u32, c as u32),
        c > 0 ==> at > 0 && clusters_of(counts)[at - 1] == (f as u32, (c - 1) as u32),
        f == 0 && c == 0 ==> at == 0,
{
    clusters_prefix(counts, f + 1);
    let at = clusters_of(counts.take(f)).len() + c;
    let b = clusters_of(counts.take(f)).len();
    assert(clusters_of(counts)[b + c] == (f as u32, c as u32));
    if c > 0 {
        assert(clusters_of(counts)[b + (c - 1)] == (f as u32, (c - 1) as u32));
    }
    assert(counts.take(0) =~= Seq::<u32>::empty());
    at
}

} // verus!
