//! Residency of voxel leaves: the drawn leaves, the cached meshes, the requests in flight.
//!
//! Meshing and uploading happen elsewhere. This module decides: it turns finished meshes,
//! edits and a level-of-detail selection into requests, uploads and retirements.
use std::collections::HashMap;

use lru::LruCache;
use vstd::prelude::*;

use crate::arith::wrap_step;
use crate::sums::{total, total_splits};
use crate::voxel::chunk_key::{
    code, code_is_injective, coarser, dbg_id, has_side, pack, parent, sides_face_coarser_leaves,
    sides_of, stitched, ChunkKey, HIGH_X, HIGH_Y, LOW_X, LOW_Y,
};
use crate::voxel::draw::LeafDraw;
use crate::voxel::key_list::{codes, firsts, firsts_holds, lists, pushed_to_set, take_one_more};
use crate::voxel::mesh_cache::{
    after_put, after_put_keeps, cache_clear, cache_contains, cache_entries, cache_len, cache_limit,
    cache_new, cache_peek, cache_pop, cache_put, distinct_keys, has_key, without_key,
    without_key_keeps,
};

verus! {

broadcast use vstd::std_specs::hash::group_hash_axioms;

/// How many meshed leaves the CPU cache keeps.
pub const CACHE_CAPACITY: usize = 4096;

/// How many threads mesh leaves.
pub const MESH_WORKERS: usize = 4;

/// A sphere edit; the coordinates are kept as the bit patterns of their `f64` values.
#[derive(Clone, Copy, Debug, PartialEq, Eq)]
pub struct Edit {
    pub center: (u64, u64, u64),
    pub radius: u64,
    pub dig: bool,
}

/// What a mesher works against: whether caves are carved, how many of the edits are in,
/// and the data field baked into the vertex colours.
#[derive(Clone, Copy, Debug, PartialEq, Eq, Structural)]
pub struct MeshCtx {
    pub caves: bool,
    pub edits: usize,
    pub dbg_field: u8,
}

/// A request to mesh one leaf, for the mesher with number `worker`.
#[derive(Clone, Copy, Debug, PartialEq, Eq)]
pub struct MeshRequest {
    pub key: ChunkKey,
    pub sides: u8,
    pub gen: u64,
    pub worker: usize,
    pub ctx: MeshCtx,
}

/// A drawn leaf.
#[derive(Clone, Copy, Debug, PartialEq, Eq)]
pub struct Resident {
    pub key: ChunkKey,
    pub sides: u8,
    /// The GPU mesh that it is drawn from, by its handle.
    pub mesh: u64,
    pub index_count: u32,
}

/// What becomes of a finished mesh.
#[derive(Clone, Copy, Debug, PartialEq, Eq, Structural)]
pub enum MeshFate {
    /// Its request was superseded or cancelled: drop it.
    Stale,
    /// The leaf is drawn: upload the mesh in its place.
    Upload,
    /// The leaf is not drawn: the mesh is cached.
    Cached,
}

/// How an upload to the GPU went.
#[derive(Clone, Copy, Debug, PartialEq, Eq, Structural)]
pub enum UploadOutcome {
    /// On the GPU, under this handle and with this many indices.
    Uploaded(u64, u32),
    /// No room this frame.
    BudgetFull,
    /// The device refused.
    Failed,
}

/// What follows from the changes since the last frame.
pub struct Changes {
    /// The leaves that the change of the caves takes off the screen.
    pub forgotten: Vec<Resident>,
    /// The leaves to mesh anew for another data field.
    pub requests: Vec<MeshRequest>,
    /// The leaves that the edits take off the screen.
    pub touched: Vec<Resident>,
}

/// What to do for a leaf that should be shown.
#[derive(Clone, Copy, Debug, PartialEq, Eq)]
pub enum ShowAction {
    /// It is drawn already.
    Shown,
    /// Upload the cached mesh of this generation, meshed with these sides.
    Upload(u64, u8),
    /// Its mesh is on the way.
    Wait,
    /// Have it meshed.
    Request(MeshRequest),
}

/// The state of a [`VoxelView`] as mathematics.
#[verifier::ext_equal]
pub struct VoxelState {
    pub resident: Map<u128, Resident>,
    pub requested: Map<u128, u64>,
    pub gen: u64,
    pub rr: usize,
    pub cache: Seq<(u128, (u64, u8))>,
    pub dirty_caves: bool,
    pub dirty_recolor: bool,
    pub dbg_field: u8,
    pub caves_on: bool,
    pub edits: Seq<Edit>,
    pub pending_edits: Seq<Edit>,
}

impl VoxelState {
    /// What a mesher would work against now.
    pub open spec fn ctx(self) -> MeshCtx {
        MeshCtx {
            caves: self.caves_on,
            edits: self.edits.len() as usize,
            dbg_field: self.dbg_field,
        }
    }

    /// The leaf is drawn, cached or being meshed.
    pub open spec fn known(self, c: u128) -> bool {
        self.resident.contains_key(c) || has_key(self.cache, c) || self.requested.contains_key(c)
    }

    /// The leaves that are nowhere.
    pub open spec fn missing(self) -> Set<u128> {
        Set::new(|c: u128| !self.known(c))
    }

    /// The state with the leaves of `keys` taken off the screen.
    pub open spec fn hidden(self, keys: Seq<ChunkKey>) -> VoxelState {
        VoxelState { resident: self.resident.remove_keys(codes(keys).to_set()), ..self }
    }

    /// The state with the requests for `keys` dropped.
    pub open spec fn cancelled(self, keys: Seq<ChunkKey>) -> VoxelState {
        VoxelState { requested: self.requested.remove_keys(codes(keys).to_set()), ..self }
    }

    /// The state once a change of the caves is seen to: nothing of before counts.
    pub open spec fn forgotten(self) -> VoxelState {
        if self.dirty_caves {
            VoxelState {
                resident: Map::empty(),
                requested: Map::empty(),
                cache: Seq::empty(),
                dirty_caves: false,
                ..self
            }
        } else {
            self
        }
    }

    /// The state once a change of the data field is seen to by `requests`.
    pub open spec fn recolored(self, requests: Seq<MeshRequest>) -> VoxelState {
        if self.dirty_recolor {
            after_requests(
                VoxelState { cache: Seq::empty(), dirty_recolor: false, ..self },
                requests,
            )
        } else {
            self
        }
    }

    /// The state once the queued edits are in. They touch the leaves of `hit`.
    pub open spec fn edited(self, hit: Seq<ChunkKey>) -> VoxelState {
        if self.pending_edits.len() == 0 {
            self
        } else {
            VoxelState {
                resident: self.resident.remove_keys(codes(hit).to_set()),
                requested: self.requested.remove_keys(codes(hit).to_set()),
                cache: without_keys(self.cache, codes(hit).to_set()),
                edits: self.edits + self.pending_edits,
                pending_edits: Seq::empty(),
                ..self
            }
        }
    }

    /// The drawn leaves with no request in flight whose sides no longer fit their
    /// neighbours.
    pub open spec fn unstitched(self) -> Set<u128> {
        self.resident.dom().filter(
            |c: u128|
                !self.requested.contains_key(c) && self.resident[c].sides != sides_of(
                    self.resident.dom(),
                    self.resident[c].key,
                ),
        )
    }
}

/// The keys of drawn leaves.
pub open spec fn leaves(list: Seq<Resident>) -> Seq<ChunkKey> {
    list.map_values(|r: Resident| r.key)
}

/// The leaves stand in the table as they are in the list.
pub open spec fn taken_from(resident: Map<u128, Resident>, list: Seq<Resident>) -> bool {
    forall|i: int|
        0 <= i < list.len() ==> resident.contains_key(code((#[trigger] list[i]).key))
            && resident[code(list[i].key)] == list[i]
}

/// The GPU mesh of a leaf, where the leaf is drawn.
pub open spec fn mesh_at(resident: Map<u128, Resident>, c: u128) -> Option<u64> {
    if resident.contains_key(c) {
        Some(resident[c].mesh)
    } else {
        None
    }
}

/// The keys of requests.
pub open spec fn keys_of(requests: Seq<MeshRequest>) -> Seq<ChunkKey> {
    requests.map_values(|r: MeshRequest| r.key)
}

/// The table of requests in flight once `requests` are out too.
pub open spec fn noted(requested: Map<u128, u64>, requests: Seq<MeshRequest>) -> Map<u128, u64>
    decreases requests.len(),
{
    if requests.len() == 0 {
        requested
    } else {
        noted(requested, requests.drop_last()).insert(
            code(requests.last().key),
            requests.last().gen,
        )
    }
}

/// The requests carry the generations that follow on the state's, go round the workers,
/// and all see the state's settings.
pub open spec fn numbered(s: VoxelState, requests: Seq<MeshRequest>) -> bool {
    forall|i: int|
        0 <= i < requests.len() ==> {
            &&& (#[trigger] requests[i]).gen == (s.gen + i) % 0x1_0000_0000_0000_0000
            &&& requests[i].worker == ((s.rr + i) % (usize::MAX + 1)) % (MESH_WORKERS as int)
            &&& requests[i].ctx == s.ctx()
        }
}

/// The state once `requests` are out.
pub open spec fn after_requests(s: VoxelState, requests: Seq<MeshRequest>) -> VoxelState {
    VoxelState {
        requested: noted(s.requested, requests),
        gen: ((s.gen + requests.len()) % 0x1_0000_0000_0000_0000) as u64,
        rr: ((s.rr + requests.len()) % (usize::MAX + 1)) as usize,
        ..s
    }
}

/// The entries whose key is not in `gone`.
pub open spec fn without_keys(entries: Seq<(u128, (u64, u8))>, gone: Set<u128>) -> Seq<
    (u128, (u64, u8)),
> {
    entries.filter(|e: (u128, (u64, u8))| !gone.contains(e.0))
}

proof fn without_none(entries: Seq<(u128, (u64, u8))>)
    ensures
        without_keys(entries, Set::empty()) == entries,
    decreases entries.len(),
{
    reveal(Seq::filter);
    if entries.len() > 0 {
        without_none(entries.drop_last());
        assert(entries.drop_last().push(entries.last()) =~= entries);
    }
}

proof fn without_one_more(entries: Seq<(u128, (u64, u8))>, gone: Set<u128>, c: u128)
    ensures
        without_key(without_keys(entries, gone), c) == without_keys(entries, gone.insert(c)),
    decreases entries.len(),
{
    reveal(Seq::filter);
    if entries.len() > 0 {
        let front = entries.drop_last();
        without_one_more(front, gone, c);
        if !gone.contains(entries.last().0) {
            let kept = without_keys(front, gone);
            assert(without_keys(entries, gone) == kept.push(entries.last()));
            assert(kept.push(entries.last()).drop_last() =~= kept);
        }
    }
}

/// Some request is for the leaf with code `c`.
pub open spec fn requests_hold(requests: Seq<MeshRequest>, c: u128) -> bool {
    exists|n: int| 0 <= n < requests.len() && code((#[trigger] requests[n]).key) == c
}

proof fn noted_holds(requested: Map<u128, u64>, requests: Seq<MeshRequest>, c: u128)
    ensures
        noted(requested, requests).contains_key(c) <==> (requested.contains_key(c)
            || requests_hold(requests, c)),
    decreases requests.len(),
{
    if requests.len() > 0 {
        let front = requests.drop_last();
        noted_holds(requested, front, c);
        if requests_hold(front, c) {
            let n = choose|n: int| 0 <= n < front.len() && code((#[trigger] front[n]).key) == c;
            assert(code(requests[n].key) == c);
        }
        if code(requests.last().key) == c {
            assert(code(requests[requests.len() - 1].key) == c);
        }
        if requests_hold(requests, c) {
            let n = choose|n: int|
                0 <= n < requests.len() && code((#[trigger] requests[n]).key) == c;
            if n < front.len() {
                assert(code(front[n].key) == c);
            }
        }
    }
}

proof fn chain_request(s: VoxelState, before: Seq<MeshRequest>, r: MeshRequest, c: u128)
    requires
        numbered(s, before),
        code(r.key) == c,
        numbered(
            VoxelState {
                requested: after_requests(s, before).requested.remove(c),
                ..after_requests(s, before)
            },
            seq![r],
        ),
    ensures
        numbered(s, before.push(r)),
        after_requests(
            VoxelState {
                requested: after_requests(s, before).requested.remove(c),
                ..after_requests(s, before)
            },
            seq![r],
        ) == after_requests(s, before.push(r)),
{
    let n = before.len() as int;
    let mid = after_requests(s, before);
    let cut = VoxelState { requested: mid.requested.remove(c), ..mid };
    let one = seq![r];
    assert(one.drop_last() =~= Seq::<MeshRequest>::empty());
    assert(before.push(r).drop_last() =~= before);
    reveal_with_fuel(noted, 2);
    assert(noted(cut.requested, one) =~= noted(s.requested, before.push(r)));
    wrap_step(s.gen + n, 0x1_0000_0000_0000_0000);
    wrap_step(s.rr + n, usize::MAX + 1);
    wrap_step(mid.gen as int, 0x1_0000_0000_0000_0000);
    wrap_step(mid.rr as int, usize::MAX + 1);
    let m = usize::MAX + 1;
    assert(0 <= (s.rr + n) % m < m) by (nonlinear_arith)
        requires
            m > 0,
    ;
    assert((mid.rr as int) % m == mid.rr as int) by {
        vstd::arithmetic::div_mod::lemma_small_mod(mid.rr as nat, m as nat);
    }
    assert(one[0] == r);
    assert forall|i: int| 0 <= i < before.push(r).len() implies {
        &&& (#[trigger] before.push(r)[i]).gen == (s.gen + i) % 0x1_0000_0000_0000_0000
        &&& before.push(r)[i].worker == ((s.rr + i) % (usize::MAX + 1)) % (MESH_WORKERS as int)
        &&& before.push(r)[i].ctx == s.ctx()
    } by {
        if i < n {
            assert(before.push(r)[i] == before[i]);
        }
    }
}

/// The index counts of drawn leaves.
pub open spec fn index_counts(resident: Map<u128, Resident>) -> Map<u128, nat> {
    resident.map_values(|r: Resident| r.index_count as nat)
}

/// The data field that a view mode shows: height, material, wetness and volcano are 1 to 4,
/// every other mode shows none.
pub open spec fn data_field(view_mode: u32) -> u8 {
    if 7 <= view_mode <= 10 {
        (view_mode - 6) as u8
    } else {
        0
    }
}

/// Which leaves are drawn, cached and being meshed.
pub struct VoxelView {
    resident: HashMap<u128, Resident>,
    requested: HashMap<u128, u64>,
    gen: u64,
    rr: usize,
    cache: LruCache<u128, (u64, u8)>,
    dirty_caves: bool,
    dirty_recolor: bool,
    dbg_field: u8,
    caves_on: bool,
    edits: Vec<Edit>,
    pending_edits: Vec<Edit>,
}

impl View for VoxelView {
    type V = VoxelState;

    closed spec fn view(&self) -> VoxelState {
        VoxelState {
            resident: self.resident@,
            requested: self.requested@,
            gen: self.gen,
            rr: self.rr,
            cache: cache_entries(self.cache),
            dirty_caves: self.dirty_caves,
            dirty_recolor: self.dirty_recolor,
            dbg_field: self.dbg_field,
            caves_on: self.caves_on,
            edits: self.edits@,
            pending_edits: self.pending_edits@,
        }
    }
}

impl VoxelView {
    /// Drawn leaves stand under their own key, and the cache holds each leaf at most once
    /// and no more leaves than it has room for.
    pub closed spec fn wf(&self) -> bool {
        &&& forall|c: u128| #[trigger]
            self.resident@.contains_key(c) ==> code(self.resident@[c].key) == c
                && self.resident@[c].key.1 <= 62
        &&& distinct_keys(cache_entries(self.cache))
        &&& cache_entries(self.cache).len() <= CACHE_CAPACITY
        &&& cache_limit(self.cache) == CACHE_CAPACITY
    }

    /// Nothing drawn, cached or in flight; caves on, no data field, no edits.
    pub fn new() -> (v: Self)
        ensures
            v.wf(),
            v@ == (VoxelState {
                resident: Map::empty(),
                requested: Map::empty(),
                gen: 0,
                rr: 0,
                cache: Seq::empty(),
                dirty_caves: false,
                dirty_recolor: false,
                dbg_field: 0,
                caves_on: true,
                edits: Seq::empty(),
                pending_edits: Seq::empty(),
            }),
    {
        let v = VoxelView {
            resident: HashMap::new(),
            requested: HashMap::new(),
            gen: 0,
            rr: 0,
            cache: cache_new(CACHE_CAPACITY),
            dirty_caves: false,
            dirty_recolor: false,
            dbg_field: 0,
            caves_on: true,
            edits: Vec::new(),
            pending_edits: Vec::new(),
        };
        v
    }

    /// What a mesher would work against now.
    pub fn mesh_ctx(&self) -> (ctx: MeshCtx)
        ensures
            ctx == self@.ctx(),
    {
        MeshCtx {
            caves: self.caves_on,
            edits: self.edits.len(),
            dbg_field: self.dbg_field,
        }
    }

    /// Asks for a mesh of `key`. The request gets a generation of its own, so the result
    /// of any older request for the key is stale from here on.
    pub fn request(&mut self, key: ChunkKey, sides: u8) -> (r: MeshRequest)
        requires
            old(self).wf(),
        ensures
            final(self).wf(),
            r.key == key,
            r.sides == sides,
            numbered(old(self)@, seq![r]),
            final(self)@ == after_requests(old(self)@, seq![r]),
    {
        let gen: u64 = self.gen;
        let rr: usize = self.rr;
        let ctx = self.mesh_ctx();
        let r = MeshRequest { key, sides, gen, worker: rr % MESH_WORKERS, ctx };
        self.gen = gen.wrapping_add(1);
        self.requested.insert(pack(key), gen);
        self.rr = rr.wrapping_add(1);
        proof {
            wrap_step(gen as int, 0x1_0000_0000_0000_0000);
            wrap_step(rr as int, usize::MAX + 1);
            let one = seq![r];
            assert(one.drop_last() =~= Seq::<MeshRequest>::empty());
            reveal_with_fuel(noted, 2);
            assert(noted(old(self)@.requested, one) =~= self.requested@);
            assert((gen as int) % 0x1_0000_0000_0000_0000 == gen as int);
            assert((rr as int) % (usize::MAX + 1) == rr as int) by {
                vstd::arithmetic::div_mod::lemma_small_mod(rr as nat, (usize::MAX + 1) as nat);
            }
            assert(self@ =~= after_requests(old(self)@, one));
        }
        r
    }

    fn is_coarser(&self, key: ChunkKey, dx: i64, dy: i64) -> (b: bool)
        requires
            key.1 <= 62,
            -1 <= dx <= 1,
            -1 <= dy <= 1,
        ensures
            b == coarser(self@.resident.dom(), key, dx as int, dy as int),
    {
        let (face, level, ix, iy) = key;
        proof {
            vstd::arithmetic::power2::lemma_pow2_pos(level as nat);
            vstd::arithmetic::power2::lemma_pow2_strictly_increases(level as nat, 63);
            vstd::arithmetic::power2::lemma2_to64_rest();
            vstd::bits::lemma_u64_shl_is_mul(1, level as u64);
        }
        let max: i64 = (1u64 << level as u64) as i64;
        let nix: i64 = ix as i64 + dx;
        let niy: i64 = iy as i64 + dy;
        if nix < 0 || niy < 0 || nix >= max || niy >= max {
            return false;
        }
        let there: ChunkKey = (face, level, nix as u32, niy as u32);
        if self.resident.contains_key(&pack(there)) {
            return false;
        }
        level > 0 && self.resident.contains_key(
            &pack((face, level - 1, nix as u32 / 2, niy as u32 / 2)),
        )
    }

    /// The transition sides that `key` needs among the drawn leaves.
    pub fn compute_sides(&self, key: ChunkKey) -> (s: u8)
        requires
            key.1 <= 62,
        ensures
            s == sides_of(self@.resident.dom(), key),
            has_side(s, LOW_X) <==> stitched(self@.resident.dom(), key, -1, 0),
            has_side(s, HIGH_X) <==> stitched(self@.resident.dom(), key, 1, 0),
            has_side(s, LOW_Y) <==> stitched(self@.resident.dom(), key, 0, -1),
            has_side(s, HIGH_Y) <==> stitched(self@.resident.dom(), key, 0, 1),
    {
        proof {
            sides_face_coarser_leaves(self@.resident.dom(), key);
        }
        let mut s: u8 = 0;
        if self.is_coarser(key, -1, 0) {
            s = s + LOW_X;
        }
        if self.is_coarser(key, 1, 0) {
            s = s + HIGH_X;
        }
        if self.is_coarser(key, 0, -1) {
            s = s + LOW_Y;
        }
        if self.is_coarser(key, 0, 1) {
            s = s + HIGH_Y;
        }
        s
    }

    /// The drawn leaves, each once, in no particular order.
    pub fn resident_keys(&self) -> (keys: Vec<ChunkKey>)
        requires
            self.wf(),
        ensures
            lists(keys@, self@.resident.dom()),
            forall|i: int|
                0 <= i < keys.len() ==> self@.resident[code(#[trigger] keys[i])].key == keys[i]
                    && keys[i].1 <= 62,
    {
        let mut keys: Vec<ChunkKey> = Vec::new();
        let iter = self.resident.keys();
        let ghost all = vstd::std_specs::iter::IteratorSpec::remaining(&iter).unref();
        for c in it: iter
            invariant
                self.wf(),
                it.seq().unref() == all,
                all.no_duplicates(),
                all.to_set() == self.resident@.dom(),
                codes(keys@) == all.take(it.index()),
                forall|i: int|
                    0 <= i < keys.len() ==> self@.resident[code(#[trigger] keys[i])].key == keys[i]
                        && keys[i].1 <= 62,
        {
            let ghost before = keys@;
            proof {
                assert(all[it.index()] == *c);
                assert(all.to_set().contains(*c));
            }
            if let Some(r) = self.resident.get(c) {
                keys.push(r.key);
                proof {
                    assert(codes(keys@) =~= codes(before).push(*c));
                    assert(all.take(it.index() + 1) =~= all.take(it.index()).push(*c));
                }
            }
        }
        proof {
            assert(all.take(all.len() as int) =~= all);
        }
        keys
    }

    /// The drawn leaves as they are recorded, each once, in no particular order.
    fn resident_leaves(&self) -> (list: Vec<Resident>)
        requires
            self.wf(),
        ensures
            lists(leaves(list@), self@.resident.dom()),
            taken_from(self@.resident, list@),
    {
        let keys: Vec<ChunkKey> = self.resident_keys();
        let mut list: Vec<Resident> = Vec::new();
        let mut n: usize = 0;
        proof {
            assert(leaves(list@) =~= keys@.take(0));
        }
        while n < keys.len()
            invariant
                n <= keys.len(),
                self.wf(),
                lists(keys@, self@.resident.dom()),
                leaves(list@) == keys@.take(n as int),
                taken_from(self@.resident, list@),
            decreases keys.len() - n,
        {
            let c: u128 = pack(keys[n]);
            let ghost before = list@;
            proof {
                assert(codes(keys@)[n as int] == c);
                assert(codes(keys@).to_set().contains(c));
            }
            if let Some(r) = self.resident.get(&c) {
                list.push(*r);
                proof {
                    code_is_injective(r.key, keys[n as int]);
                    assert(leaves(list@) =~= leaves(before).push(r.key));
                    assert(keys@.take(n as int + 1) =~= keys@.take(n as int).push(r.key));
                }
            }
            n = n + 1;
        }
        proof {
            assert(keys@.take(keys.len() as int) =~= keys@);
        }
        list
    }

    /// What is drawn: every resident leaf once, in no particular order.
    pub fn draw_list(&self) -> (list: Vec<LeafDraw>)
        requires
            self.wf(),
        ensures
            lists(list@.map_values(|d: LeafDraw| d.key), self@.resident.dom()),
            forall|i: int|
                0 <= i < list.len() ==> {
                    let d = #[trigger] list[i];
                    &&& self@.resident[code(d.key)].key == d.key
                    &&& d.index_count == self@.resident[code(d.key)].index_count
                    &&& d.mesh == self@.resident[code(d.key)].mesh
                    &&& d.level == d.key.1
                    &&& d.id == (d.key.0 as u32) | ((d.key.1 as u32) << 3) | (d.key.2 << 8) | (
                    d.key.3 << 20)
                },
    {
        let keys: Vec<ChunkKey> = self.resident_keys();
        let mut list: Vec<LeafDraw> = Vec::new();
        let mut n: usize = 0;
        while n < keys.len()
            invariant
                n <= keys.len(),
                self.wf(),
                lists(keys@, self@.resident.dom()),
                forall|i: int|
                    0 <= i < keys.len() ==> self@.resident[code(#[trigger] keys[i])].key
                        == keys[i],
                list.len() == n,
                forall|i: int|
                    0 <= i < list.len() ==> {
                        let d = #[trigger] list[i];
                        &&& d.key == keys[i]
                        &&& d.index_count == self@.resident[code(d.key)].index_count
                        &&& d.mesh == self@.resident[code(d.key)].mesh
                        &&& d.level == d.key.1
                        &&& d.id == (d.key.0 as u32) | ((d.key.1 as u32) << 3) | (d.key.2 << 8) | (
                        d.key.3 << 20)
                    },
            decreases keys.len() - n,
        {
            let key: ChunkKey = keys[n];
            let c: u128 = pack(key);
            proof {
                assert(codes(keys@)[n as int] == c);
                assert(codes(keys@).to_set().contains(c));
            }
            if let Some(r) = self.resident.get(&c) {
                list.push(
                    LeafDraw {
                        key,
                        id: dbg_id(key),
                        level: key.1 as u32,
                        mesh: r.mesh,
                        index_count: r.index_count,
                    },
                );
            }
            n = n + 1;
        }
        proof {
            assert(list@.map_values(|d: LeafDraw| d.key) =~= keys@);
        }
        list
    }

    /// Takes in a finished mesh. It counts only while the request that it answers is the
    /// one on record for the leaf.
    pub fn mesh_done(&mut self, key: ChunkKey, gen: u64, sides: u8) -> (fate: MeshFate)
        requires
            old(self).wf(),
        ensures
            final(self).wf(),
            fate == (if !(old(self)@.requested.contains_key(code(key))
                && old(self)@.requested[code(key)] == gen) {
                MeshFate::Stale
            } else if old(self)@.resident.contains_key(code(key)) {
                MeshFate::Upload
            } else {
                MeshFate::Cached
            }),
            final(self)@ == (match fate {
                MeshFate::Stale => old(self)@,
                MeshFate::Upload => VoxelState {
                    requested: old(self)@.requested.remove(code(key)),
                    ..old(self)@
                },
                MeshFate::Cached => VoxelState {
                    requested: old(self)@.requested.remove(code(key)),
                    cache: after_put(
                        old(self)@.cache,
                        CACHE_CAPACITY as nat,
                        code(key),
                        (gen, sides),
                    ),
                    ..old(self)@
                },
            }),
    {
        let c: u128 = pack(key);
        let current: bool = match self.requested.get(&c) {
            Some(g) => *g == gen,
            None => false,
        };
        if !current {
            return MeshFate::Stale;
        }
        self.requested.remove(&c);
        if self.resident.contains_key(&c) {
            MeshFate::Upload
        } else {
            proof {
                after_put_keeps(
                    cache_entries(self.cache),
                    CACHE_CAPACITY as nat,
                    c,
                    (gen, sides),
                );
            }
            cache_put(&mut self.cache, c, (gen, sides));
            MeshFate::Cached
        }
    }

    /// Records how the upload of a fresh mesh went. Uploaded, the leaf is drawn from it and
    /// the answer names the former GPU mesh, which is to be retired; without room the mesh is
    /// cached, for a later frame to retry.
    pub fn upload_done(
        &mut self,
        key: ChunkKey,
        gen: u64,
        sides: u8,
        outcome: UploadOutcome,
    ) -> (replaced: Option<u64>)
        requires
            old(self).wf(),
            key.1 <= 62,
        ensures
            final(self).wf(),
            replaced == (if outcome is Uploaded {
                mesh_at(old(self)@.resident, code(key))
            } else {
                None
            }),
            final(self)@ == (match outcome {
                UploadOutcome::Uploaded(mesh, index_count) => VoxelState {
                    resident: old(self)@.resident.insert(
                        code(key),
                        Resident { key, sides, mesh, index_count },
                    ),
                    ..old(self)@
                },
                UploadOutcome::BudgetFull => VoxelState {
                    cache: after_put(
                        old(self)@.cache,
                        CACHE_CAPACITY as nat,
                        code(key),
                        (gen, sides),
                    ),
                    ..old(self)@
                },
                UploadOutcome::Failed => old(self)@,
            }),
    {
        match outcome {
            UploadOutcome::Uploaded(mesh, index_count) => {
                let former = self.resident.insert(
                    pack(key),
                    Resident { key, sides, mesh, index_count },
                );
                match former {
                    Some(r) => Some(r.mesh),
                    None => None,
                }
            },
            UploadOutcome::BudgetFull => {
                let c: u128 = pack(key);
                proof {
                    after_put_keeps(
                        cache_entries(self.cache),
                        CACHE_CAPACITY as nat,
                        c,
                        (gen, sides),
                    );
                }
                cache_put(&mut self.cache, c, (gen, sides));
                None
            },
            UploadOutcome::Failed => None,
        }
    }

    /// After caves were toggled or retuned: forgets every cached, drawn and requested leaf.
    /// Hands back the leaves whose GPU meshes are to be retired.
    pub fn apply_dirty_caves(&mut self) -> (retired: Vec<Resident>)
        requires
            old(self).wf(),
        ensures
            final(self).wf(),
            taken_from(old(self)@.resident, retired@),
            lists(
                leaves(retired@),
                if old(self)@.dirty_caves {
                    old(self)@.resident.dom()
                } else {
                    Set::empty()
                },
            ),
            final(self)@ == old(self)@.forgotten(),
    {
        if !self.dirty_caves {
            let none: Vec<Resident> = Vec::new();
            proof {
                assert(codes(leaves(none@)).to_set() =~= Set::<u128>::empty());
            }
            return none;
        }
        self.dirty_caves = false;
        let retired = self.resident_leaves();
        cache_clear(&mut self.cache);
        self.resident.clear();
        self.requested.clear();
        retired
    }

    /// After the data field changed: asks for every drawn leaf anew, with the sides it has,
    /// and empties the cache. What is drawn stays drawn until its replacement arrives.
    pub fn apply_dirty_recolor(&mut self) -> (requests: Vec<MeshRequest>)
        requires
            old(self).wf(),
        ensures
            final(self).wf(),
            lists(
                keys_of(requests@),
                if old(self)@.dirty_recolor {
                    old(self)@.resident.dom()
                } else {
                    Set::empty()
                },
            ),
            forall|i: int|
                0 <= i < requests.len() ==> (#[trigger] requests[i]).sides == old(
                    self,
                )@.resident[code(requests[i].key)].sides,
            numbered(old(self)@, requests@),
            final(self)@ == old(self)@.recolored(requests@),
    {
        let mut requests: Vec<MeshRequest> = Vec::new();
        if !self.dirty_recolor {
            proof {
                assert(codes(keys_of(requests@)).to_set() =~= Set::<u128>::empty());
            }
            return requests;
        }
        self.dirty_recolor = false;
        cache_clear(&mut self.cache);
        let keys = self.resident_keys();
        let ghost start = self@;
        let mut i: usize = 0;
        proof {
            assert(after_requests(start, requests@) =~= start) by {
                vstd::arithmetic::div_mod::lemma_small_mod(
                    start.rr as nat,
                    (usize::MAX + 1) as nat,
                );
            }
        }
        while i < keys.len()
            invariant
                i <= keys.len(),
                self.wf(),
                lists(keys@, start.resident.dom()),
                keys_of(requests@) == keys@.take(i as int),
                forall|j: int|
                    0 <= j < requests.len() ==> (#[trigger] requests[j]).sides
                        == start.resident[code(requests[j].key)].sides,
                numbered(start, requests@),
                self@ == after_requests(start, requests@),
            decreases keys.len() - i,
        {
            let key = keys[i];
            let c: u128 = pack(key);
            proof {
                assert(codes(keys@)[i as int] == c);
                assert(codes(keys@).to_set().contains(c));
            }
            if let Some(r) = self.resident.get(&c) {
                let sides: u8 = r.sides;
                let ghost before = requests@;
                let ghost mid = self@;
                self.requested.remove(&c);
                let req = self.request(key, sides);
                requests.push(req);
                proof {
                    assert(requests@.drop_last() =~= before);
                    chain_request(start, before, req, c);
                    assert(keys_of(requests@) =~= keys_of(before).push(key));
                    assert(keys@.take(i as int + 1) =~= keys@.take(i as int).push(key));
                }
            }
            i = i + 1;
        }
        proof {
            assert(keys@.take(keys.len() as int) =~= keys@);
        }
        requests
    }

    /// Applies the queued edits. `hit` are the drawn leaves that they touch: those are no
    /// longer drawn, cached or requested. Hands back the leaves to retire.
    pub fn apply_edits(&mut self, hit: &Vec<ChunkKey>) -> (retired: Vec<Resident>)
        requires
            old(self).wf(),
        ensures
            final(self).wf(),
            taken_from(old(self)@.resident, retired@),
            leaves(retired@) == (if old(self)@.pending_edits.len() == 0 {
                Seq::empty()
            } else {
                firsts(hit@, old(self)@.resident.dom())
            }),
            final(self)@ == old(self)@.edited(hit@),
    {
        let mut retired: Vec<Resident> = Vec::new();
        proof {
            assert(leaves(retired@) =~= Seq::empty());
        }
        if self.pending_edits.len() == 0 {
            return retired;
        }
        self.edits.append(&mut self.pending_edits);
        let ghost start = self@;
        let mut i: usize = 0;
        proof {
            without_none(start.cache);
            assert(codes(hit@.take(0)).to_set() =~= Set::<u128>::empty());
            assert(start.resident.remove_keys(Set::<u128>::empty()) =~= start.resident);
            assert(start.requested.remove_keys(Set::<u128>::empty()) =~= start.requested);
        }
        while i < hit.len()
            invariant
                i <= hit.len(),
                self.wf(),
                start.resident == old(self)@.resident,
                taken_from(start.resident, retired@),
                leaves(retired@) == firsts(hit@.take(i as int), start.resident.dom()),
                self@ == (VoxelState {
                    resident: start.resident.remove_keys(codes(hit@.take(i as int)).to_set()),
                    requested: start.requested.remove_keys(codes(hit@.take(i as int)).to_set()),
                    cache: without_keys(start.cache, codes(hit@.take(i as int)).to_set()),
                    ..start
                }),
            decreases hit.len() - i,
        {
            let key = hit[i];
            let c: u128 = pack(key);
            let ghost front = hit@.take(i as int);
            let ghost gone = codes(front).to_set();
            proof {
                take_one_more(hit@, i as int);
                without_one_more(start.cache, gone, c);
                without_key_keeps(self@.cache, c);
                assert(start.resident.remove_keys(gone).remove(c) =~= start.resident.remove_keys(
                    gone.insert(c),
                ));
                assert(start.requested.remove_keys(gone).remove(c)
                    =~= start.requested.remove_keys(gone.insert(c)));
            }
            let former = self.resident.remove(&c);
            if let Some(r) = former {
                let ghost before = retired@;
                retired.push(r);
                proof {
                    code_is_injective(r.key, key);
                    assert(leaves(retired@) =~= leaves(before).push(key));
                }
            }
            cache_pop(&mut self.cache, c);
            self.requested.remove(&c);
            i = i + 1;
        }
        proof {
            assert(hit@.take(hit.len() as int) =~= hit@);
        }
        retired
    }

    /// Takes the drawn leaves among `hide` off the screen; their cached meshes and their
    /// requests stay. Hands back the leaves to retire.
    fn hide_all(&mut self, hide: &Vec<ChunkKey>) -> (retired: Vec<Resident>)
        requires
            old(self).wf(),
        ensures
            final(self).wf(),
            taken_from(old(self)@.resident, retired@),
            leaves(retired@) == firsts(hide@, old(self)@.resident.dom()),
            final(self)@ == (VoxelState {
                resident: old(self)@.resident.remove_keys(codes(hide@).to_set()),
                ..old(self)@
            }),
    {
        let mut retired: Vec<Resident> = Vec::new();
        let ghost start = self@;
        let mut i: usize = 0;
        proof {
            assert(leaves(retired@) =~= Seq::empty());
            assert(codes(hide@.take(0)).to_set() =~= Set::<u128>::empty());
            assert(start.resident.remove_keys(Set::<u128>::empty()) =~= start.resident);
        }
        while i < hide.len()
            invariant
                i <= hide.len(),
                self.wf(),
                start.resident == old(self)@.resident,
                taken_from(start.resident, retired@),
                leaves(retired@) == firsts(hide@.take(i as int), start.resident.dom()),
                self@ == (VoxelState {
                    resident: start.resident.remove_keys(codes(hide@.take(i as int)).to_set()),
                    ..start
                }),
            decreases hide.len() - i,
        {
            let key = hide[i];
            let c: u128 = pack(key);
            let ghost gone = codes(hide@.take(i as int)).to_set();
            proof {
                take_one_more(hide@, i as int);
                assert(start.resident.remove_keys(gone).remove(c) =~= start.resident.remove_keys(
                    gone.insert(c),
                ));
            }
            let former = self.resident.remove(&c);
            if let Some(r) = former {
                let ghost before = retired@;
                retired.push(r);
                proof {
                    code_is_injective(r.key, key);
                    assert(leaves(retired@) =~= leaves(before).push(key));
                }
            }
            i = i + 1;
        }
        proof {
            assert(hide@.take(hide.len() as int) =~= hide@);
        }
        retired
    }

    fn cancel_all(&mut self, cancels: &Vec<ChunkKey>)
        requires
            old(self).wf(),
        ensures
            final(self).wf(),
            final(self)@ == (VoxelState {
                requested: old(self)@.requested.remove_keys(codes(cancels@).to_set()),
                ..old(self)@
            }),
    {
        let ghost start = self@;
        let mut i: usize = 0;
        proof {
            assert(codes(cancels@.take(0)).to_set() =~= Set::<u128>::empty());
            assert(start.requested.remove_keys(Set::<u128>::empty()) =~= start.requested);
        }
        while i < cancels.len()
            invariant
                i <= cancels.len(),
                self.wf(),
                self@ == (VoxelState {
                    requested: start.requested.remove_keys(
                        codes(cancels@.take(i as int)).to_set(),
                    ),
                    ..start
                }),
            decreases cancels.len() - i,
        {
            let c: u128 = pack(cancels[i]);
            let ghost gone = codes(cancels@.take(i as int)).to_set();
            proof {
                take_one_more(cancels@, i as int);
                assert(start.requested.remove_keys(gone).remove(c)
                    =~= start.requested.remove_keys(gone.insert(c)));
            }
            self.requested.remove(&c);
            i = i + 1;
        }
        proof {
            assert(cancels@.take(cancels.len() as int) =~= cancels@);
        }
    }

    fn request_missing(&mut self, builds: &Vec<ChunkKey>) -> (requests: Vec<MeshRequest>)
        requires
            old(self).wf(),
            forall|i: int| 0 <= i < builds.len() ==> (#[trigger] builds[i]).1 <= 62,
        ensures
            final(self).wf(),
            keys_of(requests@) == firsts(builds@, old(self)@.missing()),
            forall|i: int|
                0 <= i < requests.len() ==> (#[trigger] requests[i]).sides == sides_of(
                    old(self)@.resident.dom(),
                    requests[i].key,
                ),
            numbered(old(self)@, requests@),
            final(self)@ == after_requests(old(self)@, requests@),
    {
        let mut requests: Vec<MeshRequest> = Vec::new();
        let ghost start = self@;
        let ghost missing = start.missing();
        let mut i: usize = 0;
        proof {
            assert(after_requests(start, requests@) =~= start) by {
                vstd::arithmetic::div_mod::lemma_small_mod(
                    start.rr as nat,
                    (usize::MAX + 1) as nat,
                );
            }
            assert(keys_of(requests@) =~= firsts(builds@.take(0), missing));
        }
        while i < builds.len()
            invariant
                i <= builds.len(),
                self.wf(),
                forall|i: int| 0 <= i < builds.len() ==> (#[trigger] builds[i]).1 <= 62,
                missing == start.missing(),
                keys_of(requests@) == firsts(builds@.take(i as int), missing),
                forall|j: int|
                    0 <= j < requests.len() ==> (#[trigger] requests[j]).sides == sides_of(
                        start.resident.dom(),
                        requests[j].key,
                    ),
                numbered(start, requests@),
                self@ == after_requests(start, requests@),
            decreases builds.len() - i,
        {
            let key = builds[i];
            let c: u128 = pack(key);
            let ghost before = requests@;
            proof {
                take_one_more(builds@, i as int);
                noted_holds(start.requested, before, c);
                firsts_holds(builds@.take(i as int), missing, c);
                assert(codes(keys_of(before)).contains(c) <==> requests_hold(before, c)) by {
                    if codes(keys_of(before)).contains(c) {
                        let n = choose|n: int|
                            0 <= n < before.len() && codes(keys_of(before))[n] == c;
                        assert(code(before[n].key) == c);
                    }
                    if requests_hold(before, c) {
                        let n = choose|n: int|
                            0 <= n < before.len() && code((#[trigger] before[n]).key) == c;
                        assert(codes(keys_of(before))[n] == c);
                    }
                }
            }
            if !cache_contains(&self.cache, c) && !self.resident.contains_key(&c)
                && !self.requested.contains_key(&c) {
                let sides: u8 = self.compute_sides(key);
                let req = self.request(key, sides);
                requests.push(req);
                proof {
                    assert(after_requests(start, before).requested.remove(c)
                        =~= after_requests(start, before).requested);
                    chain_request(start, before, req, c);
                    assert(keys_of(requests@) =~= keys_of(before).push(key));
                }
            }
            i = i + 1;
        }
        proof {
            assert(builds@.take(builds.len() as int) =~= builds@);
        }
        requests
    }

    /// Sees to all that changed since the last frame: first the caves, then the data field, then
    /// the queued edits, which touch the leaves of `hit`.
    pub fn apply_changes(&mut self, hit: &Vec<ChunkKey>) -> (out: Changes)
        requires
            old(self).wf(),
        ensures
            final(self).wf(),
            taken_from(old(self)@.resident, out.forgotten@),
            lists(
                leaves(out.forgotten@),
                if old(self)@.dirty_caves {
                    old(self)@.resident.dom()
                } else {
                    Set::empty()
                },
            ),
            lists(
                keys_of(out.requests@),
                if old(self)@.dirty_recolor {
                    old(self)@.forgotten().resident.dom()
                } else {
                    Set::empty()
                },
            ),
            forall|i: int|
                0 <= i < out.requests.len() ==> (#[trigger] out.requests[i]).sides == old(
                    self,
                )@.forgotten().resident[code(out.requests[i].key)].sides,
            numbered(old(self)@, out.requests@),
            taken_from(old(self)@.forgotten().resident, out.touched@),
            leaves(out.touched@) == (if old(self)@.pending_edits.len() == 0 {
                Seq::empty()
            } else {
                firsts(hit@, old(self)@.forgotten().resident.dom())
            }),
            final(self)@ == old(self)@.forgotten().recolored(out.requests@).edited(hit@),
    {
        let forgotten = self.apply_dirty_caves();
        let requests = self.apply_dirty_recolor();
        let touched = self.apply_edits(hit);
        Changes { forgotten, requests, touched }
    }

    /// Applies a level-of-detail selection: hides, cancels, then asks for each leaf to
    /// build that is nowhere yet, once. Hands back the leaves to retire and the requests.
    pub fn apply_selection(
        &mut self,
        hide: &Vec<ChunkKey>,
        cancels: &Vec<ChunkKey>,
        builds: &Vec<ChunkKey>,
    ) -> (out: (Vec<Resident>, Vec<MeshRequest>))
        requires
            old(self).wf(),
            forall|i: int| 0 <= i < builds.len() ==> (#[trigger] builds[i]).1 <= 62,
        ensures
            final(self).wf(),
            taken_from(old(self)@.resident, out.0@),
            leaves(out.0@) == firsts(hide@, old(self)@.resident.dom()),
            keys_of(out.1@) == firsts(
                builds@,
                old(self)@.hidden(hide@).cancelled(cancels@).missing(),
            ),
            forall|i: int|
                0 <= i < out.1.len() ==> (#[trigger] out.1[i]).sides == sides_of(
                    old(self)@.hidden(hide@).resident.dom(),
                    out.1[i].key,
                ),
            numbered(old(self)@, out.1@),
            final(self)@ == after_requests(
                old(self)@.hidden(hide@).cancelled(cancels@),
                out.1@,
            ),
    {
        let retired = self.hide_all(hide);
        self.cancel_all(cancels);
        let requests = self.request_missing(builds);
        (retired, requests)
    }

    /// What to do for a leaf that the selection wants on screen.
    pub fn show(&mut self, key: ChunkKey) -> (action: ShowAction)
        requires
            old(self).wf(),
            key.1 <= 62,
        ensures
            final(self).wf(),
            match action {
                ShowAction::Shown => old(self)@.resident.contains_key(code(key)) && final(self)@
                    == old(self)@,
                ShowAction::Upload(gen, sides) => !old(self)@.resident.contains_key(code(key))
                    && old(self)@.cache.contains((code(key), (gen, sides))) && final(self)@ == old(
                    self,
                )@,
                ShowAction::Wait => !old(self)@.resident.contains_key(code(key)) && !has_key(
                    old(self)@.cache,
                    code(key),
                ) && old(self)@.requested.contains_key(code(key)) && final(self)@ == old(self)@,
                ShowAction::Request(r) => !old(self)@.known(code(key)) && r.key == key && r.sides
                    == sides_of(old(self)@.resident.dom(), key) && numbered(old(self)@, seq![r])
                    && final(self)@ == after_requests(old(self)@, seq![r]),
            },
    {
        let c: u128 = pack(key);
        if self.resident.contains_key(&c) {
            return ShowAction::Shown;
        }
        match cache_peek(&self.cache, c) {
            Some((gen, sides)) => {
                proof {
                    let e = self@.cache;
                    let n = choose|n: int| 0 <= n < e.len() && e[n] == (c, (gen, sides));
                    assert(e[n].0 == c);
                }
                ShowAction::Upload(gen, sides)
            },
            None => {
                if self.requested.contains_key(&c) {
                    ShowAction::Wait
                } else {
                    let sides: u8 = self.compute_sides(key);
                    ShowAction::Request(self.request(key, sides))
                }
            },
        }
    }

    /// Records how the upload of a cached mesh went. The cache keeps its entry either way,
    /// and unless it was uploaded a later frame retries. The answer names the GPU mesh to retire.
    pub fn shown_from_cache(
        &mut self,
        key: ChunkKey,
        sides: u8,
        outcome: UploadOutcome,
    ) -> (replaced: Option<u64>)
        requires
            old(self).wf(),
            key.1 <= 62,
        ensures
            final(self).wf(),
            replaced == (if outcome is Uploaded {
                mesh_at(old(self)@.resident, code(key))
            } else {
                None
            }),
            final(self)@ == (match outcome {
                UploadOutcome::Uploaded(mesh, index_count) => VoxelState {
                    resident: old(self)@.resident.insert(
                        code(key),
                        Resident { key, sides, mesh, index_count },
                    ),
                    ..old(self)@
                },
                _ => old(self)@,
            }),
    {
        match outcome {
            UploadOutcome::Uploaded(mesh, index_count) => {
                let former = self.resident.insert(
                    pack(key),
                    Resident { key, sides, mesh, index_count },
                );
                match former {
                    Some(r) => Some(r.mesh),
                    None => None,
                }
            },
            _ => None,
        }
    }

    /// Asks anew for every drawn leaf whose neighbours changed level since it was meshed,
    /// with the sides it needs now; its cached mesh goes. What is drawn stays drawn.
    pub fn remesh_unstitched(&mut self) -> (requests: Vec<MeshRequest>)
        requires
            old(self).wf(),
        ensures
            final(self).wf(),
            lists(keys_of(requests@), old(self)@.unstitched()),
            forall|i: int|
                0 <= i < requests.len() ==> (#[trigger] requests[i]).sides == sides_of(
                    old(self)@.resident.dom(),
                    requests[i].key,
                ),
            numbered(old(self)@, requests@),
            final(self)@ == after_requests(
                VoxelState {
                    cache: without_keys(old(self)@.cache, old(self)@.unstitched()),
                    ..old(self)@
                },
                requests@,
            ),
    {
        let mut requests: Vec<MeshRequest> = Vec::new();
        let keys = self.resident_keys();
        let ghost start = self@;
        let ghost stale = start.unstitched();
        let mut i: usize = 0;
        proof {
            without_none(start.cache);
            assert(codes(keys@.take(0)).to_set() =~= Set::<u128>::empty());
            assert(stale.intersect(codes(keys@.take(0)).to_set()) =~= Set::<u128>::empty());
            assert(codes(keys_of(requests@)).to_set() =~= Set::<u128>::empty());
            assert(after_requests(start, requests@) =~= start) by {
                vstd::arithmetic::div_mod::lemma_small_mod(
                    start.rr as nat,
                    (usize::MAX + 1) as nat,
                );
            }
        }
        while i < keys.len()
            invariant
                i <= keys.len(),
                self.wf(),
                stale == start.unstitched(),
                codes(keys@).no_duplicates(),
                codes(keys@).to_set() == start.resident.dom(),
                forall|j: int|
                    0 <= j < keys.len() ==> start.resident[code(#[trigger] keys[j])].key == keys[j]
                        && keys[j].1 <= 62,
                codes(keys_of(requests@)).no_duplicates(),
                codes(keys_of(requests@)).to_set() == stale.intersect(
                    codes(keys@.take(i as int)).to_set(),
                ),
                forall|j: int|
                    0 <= j < requests.len() ==> (#[trigger] requests[j]).sides == sides_of(
                        start.resident.dom(),
                        requests[j].key,
                    ),
                numbered(start, requests@),
                self@ == after_requests(
                    VoxelState {
                        cache: without_keys(
                            start.cache,
                            stale.intersect(codes(keys@.take(i as int)).to_set()),
                        ),
                        ..start
                    },
                    requests@,
                ),
            decreases keys.len() - i,
        {
            let key = keys[i];
            let c: u128 = pack(key);
            let ghost before = requests@;
            let ghost front = codes(keys@.take(i as int)).to_set();
            let ghost base = VoxelState {
                cache: without_keys(start.cache, stale.intersect(front)),
                ..start
            };
            let ghost next = VoxelState {
                cache: without_keys(start.cache, stale.intersect(front.insert(c))),
                ..start
            };
            proof {
                take_one_more(keys@, i as int);
                assert(codes(keys@)[i as int] == c);
                assert(codes(keys@).to_set().contains(c));
                assert(!front.contains(c)) by {
                    if codes(keys@.take(i as int)).contains(c) {
                        let n = choose|n: int|
                            0 <= n < i && codes(keys@.take(i as int))[n] == c;
                        assert(codes(keys@)[n] == c);
                    }
                }
                noted_holds(start.requested, before, c);
                assert(!requests_hold(before, c)) by {
                    if requests_hold(before, c) {
                        let n = choose|n: int|
                            0 <= n < before.len() && code((#[trigger] before[n]).key) == c;
                        assert(codes(keys_of(before))[n] == c);
                        assert(codes(keys_of(before)).to_set().contains(c));
                    }
                }
                without_one_more(start.cache, stale.intersect(front), c);
                without_key_keeps(self@.cache, c);
                if stale.contains(c) {
                    assert(stale.intersect(front.insert(c)) =~= stale.intersect(front).insert(c));
                } else {
                    assert(stale.intersect(front.insert(c)) =~= stale.intersect(front));
                }
            }
            if !self.requested.contains_key(&c) {
                let new_sides: u8 = self.compute_sides(key);
                let fits: bool = match self.resident.get(&c) {
                    Some(r) => r.sides == new_sides,
                    None => false,
                };
                if !fits {
                    cache_pop(&mut self.cache, c);
                    let req = self.request(key, new_sides);
                    requests.push(req);
                    proof {
                        assert(stale.contains(c));
                        assert(after_requests(next, before).requested.remove(c)
                            =~= after_requests(next, before).requested);
                        chain_request(next, before, req, c);
                        assert(keys_of(requests@) =~= keys_of(before).push(key));
                        assert(codes(keys_of(requests@)) =~= codes(keys_of(before)).push(c));
                        assert(codes(keys_of(requests@)).to_set() =~= codes(
                            keys_of(before),
                        ).to_set().insert(c)) by {
                            pushed_to_set(codes(keys_of(before)), c);
                        }
                        assert(!codes(keys_of(before)).contains(c)) by {
                            if codes(keys_of(before)).contains(c) {
                                assert(codes(keys_of(before)).to_set().contains(c));
                            }
                        }
                    }
                }
            }
            i = i + 1;
        }
        proof {
            assert(keys@.take(keys.len() as int) =~= keys@);
            assert(stale.intersect(start.resident.dom()) =~= stale);
        }
        requests
    }

    /// Picks the data field to bake for a view mode. A change has every drawn leaf
    /// recoloured on the next frame.
    pub fn set_view_mode(&mut self, view_mode: u32)
        requires
            old(self).wf(),
        ensures
            final(self).wf(),
            final(self)@ == (VoxelState {
                dbg_field: data_field(view_mode),
                dirty_recolor: old(self)@.dirty_recolor || data_field(view_mode) != old(
                    self,
                )@.dbg_field,
                ..old(self)@
            }),
    {
        let field: u8 = match view_mode {
            7 => 1u8,
            8 => 2u8,
            9 => 3u8,
            10 => 4u8,
            _ => 0u8,
        };
        if field != self.dbg_field {
            self.dbg_field = field;
            self.dirty_recolor = true;
        }
    }

    /// Whether caves are carved.
    pub fn caves_enabled(&self) -> (on: bool)
        ensures
            on == self@.caves_on,
    {
        self.caves_on
    }

    /// Switches caves. A change has everything meshed afresh on the next frame.
    pub fn set_caves_enabled(&mut self, on: bool)
        requires
            old(self).wf(),
        ensures
            final(self).wf(),
            final(self)@ == (VoxelState {
                caves_on: on,
                dirty_caves: old(self)@.dirty_caves || on != old(self)@.caves_on,
                ..old(self)@
            }),
    {
        if self.caves_on != on {
            self.caves_on = on;
            self.dirty_caves = true;
        }
    }

    /// The strength of the caves changed: with caves on, everything is meshed afresh on the
    /// next frame.
    pub fn retune_caves(&mut self)
        requires
            old(self).wf(),
        ensures
            final(self).wf(),
            final(self)@ == (VoxelState {
                dirty_caves: old(self)@.dirty_caves || old(self)@.caves_on,
                ..old(self)@
            }),
    {
        if self.caves_on {
            self.dirty_caves = true;
        }
    }

    /// Queues an edit for the next frame.
    pub fn queue_edit(&mut self, edit: Edit)
        requires
            old(self).wf(),
        ensures
            final(self).wf(),
            final(self)@ == (VoxelState {
                pending_edits: old(self)@.pending_edits.push(edit),
                ..old(self)@
            }),
    {
        self.pending_edits.push(edit);
    }

    /// The edits that are in, in the order they were queued.
    pub fn edits(&self) -> (edits: &Vec<Edit>)
        ensures
            edits@ == self@.edits,
    {
        &self.edits
    }

    /// The edits that wait for the next frame.
    pub fn pending_edits(&self) -> (edits: &Vec<Edit>)
        ensures
            edits@ == self@.pending_edits,
    {
        &self.pending_edits
    }

    /// The leaf is drawn.
    pub fn is_resident(&self, key: ChunkKey) -> (b: bool)
        ensures
            b == self@.resident.contains_key(code(key)),
    {
        self.resident.contains_key(&pack(key))
    }

    /// The leaf is meshed: drawn or cached. A leaf that is only asked for is not, or a
    /// coarse parent would go before its children can be drawn.
    pub fn is_available(&self, key: ChunkKey) -> (b: bool)
        ensures
            b == (has_key(self@.cache, code(key)) || self@.resident.contains_key(code(key))),
    {
        cache_contains(&self.cache, pack(key)) || self.resident.contains_key(&pack(key))
    }

    /// The number of drawn leaves, of cached leaves and of requests in flight.
    pub fn counts(&self) -> (n: (usize, usize, usize))
        ensures
            n.0 == self@.resident.len(),
            n.1 == self@.cache.len(),
            n.2 == self@.requested.len(),
    {
        (self.resident.len(), cache_len(&self.cache), self.requested.len())
    }

    /// The triangles of all drawn leaves.
    pub fn triangle_count(&self) -> (n: u32)
        requires
            total(index_counts(self@.resident)) <= u32::MAX,
        ensures
            n == total(index_counts(self@.resident)) / 3,
    {
        let mut sum: u32 = 0;
        let ghost counts = index_counts(self@.resident);
        let iter = self.resident.keys();
        let ghost all = vstd::std_specs::iter::IteratorSpec::remaining(&iter).unref();
        proof {
            assert(all.take(0).to_set() =~= Set::<u128>::empty());
            assert(counts.remove_keys(Set::<u128>::empty()) =~= counts);
            assert(counts.dom() =~= self.resident@.dom());
        }
        for c in it: iter
            invariant
                it.seq().unref() == all,
                all.no_duplicates(),
                all.to_set() == self.resident@.dom(),
                counts == index_counts(self.resident@),
                counts.dom() == self.resident@.dom(),
                total(counts) <= u32::MAX,
                sum + total(counts.remove_keys(all.take(it.index()).to_set())) == total(counts),
        {
            let ghost seen = all.take(it.index());
            proof {
                assert(all[it.index()] == *c);
                assert(all.to_set().contains(*c));
                assert(all.take(it.index() + 1) =~= seen.push(*c));
                pushed_to_set(seen, *c);
                let left = counts.remove_keys(seen.to_set());
                assert(!seen.contains(*c)) by {
                    if seen.contains(*c) {
                        let n = choose|n: int| 0 <= n < seen.len() && seen[n] == *c;
                        assert(all[n] == *c);
                    }
                }
                assert(left.dom() =~= counts.dom().difference(seen.to_set()));
                total_splits(left, *c);
                assert(left.remove(*c) =~= counts.remove_keys(seen.to_set().insert(*c)));
            }
            if let Some(r) = self.resident.get(c) {
                sum = sum + r.index_count;
            }
        }
        proof {
            assert(all.take(all.len() as int) =~= all);
            assert(counts.remove_keys(all.to_set()) =~= Map::<u128, nat>::empty());
        }
        sum / 3
    }
}

/// After a request the leaf's record names it: a result of any other generation is stale.
pub proof fn newest_request_wins(s: VoxelState, r: MeshRequest)
    ensures
        after_requests(s, seq![r]).requested.contains_key(code(r.key)),
        after_requests(s, seq![r]).requested[code(r.key)] == r.gen,
{
    reveal_with_fuel(noted, 2);
    assert(seq![r].last() == r);
}

/// Of requests made one after the other no two share a generation.
pub proof fn generations_differ(s: VoxelState, requests: Seq<MeshRequest>, i: int, j: int)
    requires
        numbered(s, requests),
        requests.len() <= u64::MAX,
        0 <= i < j < requests.len(),
    ensures
        requests[i].gen != requests[j].gen,
{
    assert(requests[i].gen == (s.gen + i) % 0x1_0000_0000_0000_0000);
    assert(requests[j].gen == (s.gen + j) % 0x1_0000_0000_0000_0000);
}

/// Requests made one after the other go to the workers in turn.
pub proof fn workers_take_turns(s: VoxelState, requests: Seq<MeshRequest>, i: int)
    requires
        numbered(s, requests),
        0 <= i,
        i + 1 < requests.len(),
        s.rr + requests.len() <= usize::MAX,
    ensures
        requests[i + 1].worker == (requests[i].worker + 1) % 4,
{
    let m = usize::MAX + 1;
    vstd::arithmetic::div_mod::lemma_small_mod((s.rr + i) as nat, m as nat);
    vstd::arithmetic::div_mod::lemma_small_mod((s.rr + i + 1) as nat, m as nat);
    assert(requests[i].worker == ((s.rr + i) % m) % 4);
    assert(requests[i + 1].worker == ((s.rr + (i + 1)) % m) % 4);
}

/// Once a selection was applied, every leaf that it wanted built is drawn, cached or being
/// meshed.
pub proof fn builds_are_known(s: VoxelState, builds: Seq<ChunkKey>, requests: Seq<MeshRequest>)
    requires
        keys_of(requests) == firsts(builds, s.missing()),
    ensures
        forall|i: int|
            0 <= i < builds.len() ==> after_requests(s, requests).known(code(#[trigger] builds[i])),
{
    assert forall|i: int| 0 <= i < builds.len() implies after_requests(s, requests).known(
        code(#[trigger] builds[i]),
    ) by {
        let c = code(builds[i]);
        noted_holds(s.requested, requests, c);
        if !s.known(c) {
            let missing = s.missing();
            firsts_holds(builds, missing, c);
            assert(codes(builds)[i] == c);
            let asked = codes(keys_of(requests));
            let n = choose|n: int| 0 <= n < asked.len() && asked[n] == c;
            assert(code(requests[n].key) == c);
        }
    }
}

/// Once the leaves with wrong sides were asked for anew, every drawn leaf either has the
/// sides that its neighbours call for or has a mesh with the right ones on the way.
pub proof fn seams_settle(
    s: VoxelState,
    cache: Seq<(u128, (u64, u8))>,
    requests: Seq<MeshRequest>,
)
    requires
        lists(keys_of(requests), s.unstitched()),
    ensures
        after_requests(VoxelState { cache, ..s }, requests).unstitched() == Set::<u128>::empty(),
{
    let t = after_requests(VoxelState { cache, ..s }, requests);
    assert forall|c: u128| !t.unstitched().contains(c) by {
        noted_holds(s.requested, requests, c);
        if t.unstitched().contains(c) {
            assert(s.unstitched().contains(c));
            let asked = codes(keys_of(requests));
            assert(asked.to_set().contains(c));
            let n = choose|n: int| 0 <= n < asked.len() && asked[n] == c;
            assert(code(requests[n].key) == c);
        }
    }
    assert(t.unstitched() =~= Set::<u128>::empty());
}

/// The finest of the leaves that cover a point, the first of them where several are as
/// fine: what stands on the ground stands on that leaf.
pub fn finest_leaf(leaves: &Vec<ChunkKey>, face: u8, covers: &Vec<bool>) -> (best: Option<usize>)
    requires
        leaves.len() == covers.len(),
    ensures
        best is None <==> forall|i: int|
            0 <= i < leaves.len() ==> !(leaves[i].0 == face && #[trigger] covers[i]),
        best matches Some(b) ==> {
            &&& b < leaves.len()
            &&& leaves[b as int].0 == face
            &&& covers[b as int]
            &&& forall|i: int|
                0 <= i < leaves.len() && leaves[i].0 == face && #[trigger] covers[i]
                    ==> leaves[i].1 < leaves[b as int].1 || (leaves[i].1 == leaves[b as int].1 && b
                    <= i)
        },
{
    let mut best: Option<usize> = None;
    let mut n: usize = 0;
    while n < leaves.len()
        invariant
            n <= leaves.len(),
            leaves.len() == covers.len(),
            best is None <==> forall|i: int|
                0 <= i < n ==> !(leaves[i].0 == face && #[trigger] covers[i]),
            best matches Some(b) ==> {
                &&& b < n
                &&& leaves[b as int].0 == face
                &&& covers[b as int]
                &&& forall|i: int|
                    0 <= i < n && leaves[i].0 == face && #[trigger] covers[i] ==> leaves[i].1
                        < leaves[b as int].1 || (leaves[i].1 == leaves[b as int].1 && b <= i)
            },
        decreases leaves.len() - n,
    {
        if leaves[n].0 == face && covers[n] {
            let finer: bool = match best {
                Some(b) => leaves[n].1 > leaves[b].1,
                None => true,
            };
            if finer {
                best = Some(n);
            }
        }
        n = n + 1;
    }
    best
}

} // verus!
