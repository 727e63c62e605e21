//! What each change does to the leaves, leaf by leaf.
use vstd::prelude::*;

use crate::voxel::chunk_key::{code, sides_of, ChunkKey};
use crate::voxel::key_list::codes;
use crate::voxel::mesh_cache::{after_put, has_key};
use crate::voxel::view::{
    after_requests, data_field, noted, without_keys, MeshRequest, VoxelState, CACHE_CAPACITY,
};

verus! {

/// Leaf `c` is where it was: drawn, asked for and cached as before, or not.
pub open spec fn untouched(s: VoxelState, t: VoxelState, c: u128) -> bool {
    &&& s.resident.contains_key(c) == t.resident.contains_key(c)
    &&& s.resident.contains_key(c) ==> s.resident[c] == t.resident[c]
    &&& s.requested.contains_key(c) == t.requested.contains_key(c)
    &&& s.requested.contains_key(c) ==> s.requested[c] == t.requested[c]
    &&& has_key(s.cache, c) == has_key(t.cache, c)
}

/// Leaf `c` is not drawn, not cached and not asked for.
pub open spec fn nowhere(s: VoxelState, c: u128) -> bool {
    !s.resident.contains_key(c) && !has_key(s.cache, c) && !s.requested.contains_key(c)
}

proof fn cache_without(entries: Seq<(u128, (u64, u8))>, gone: Set<u128>, c: u128)
    ensures
        has_key(without_keys(entries, gone), c) <==> has_key(entries, c) && !gone.contains(c),
    decreases entries.len(),
{
    reveal(Seq::filter);
    if entries.len() > 0 {
        let front = entries.drop_last();
        let last = entries.last();
        cache_without(front, gone, c);
        let kept = without_keys(entries, gone);
        let front_kept = without_keys(front, gone);
        if has_key(entries, c) {
            let n = choose|n: int| 0 <= n < entries.len() && (#[trigger] entries[n]).0 == c;
            if n < front.len() {
                assert(front[n].0 == c);
            }
        }
        if has_key(front, c) {
            let n = choose|n: int| 0 <= n < front.len() && (#[trigger] front[n]).0 == c;
            assert(entries[n].0 == c);
        }
        if last.0 == c {
            assert(entries[entries.len() - 1].0 == c);
        }
        if !gone.contains(last.0) {
            assert(kept == front_kept.push(last));
            if has_key(front_kept, c) {
                let n = choose|n: int| 0 <= n < front_kept.len() && (#[trigger] front_kept[n]).0
                    == c;
                assert(kept[n].0 == c);
            }
            if last.0 == c {
                assert(kept[kept.len() - 1].0 == c);
            }
            if has_key(kept, c) {
                let n = choose|n: int| 0 <= n < kept.len() && (#[trigger] kept[n]).0 == c;
                if n < front_kept.len() {
                    assert(front_kept[n].0 == c);
                }
            }
        }
    }
}

/// Edits throw away all there is of the leaves they touch, so that they are meshed with the edit,
/// and nothing of any other leaf. They join those that are in, in the order they were queued.
pub proof fn edits_redo_what_they_touch(s: VoxelState, hit: Seq<ChunkKey>, c: u128)
    requires
        s.pending_edits.len() > 0,
    ensures
        codes(hit).contains(c) ==> nowhere(s.edited(hit), c),
        !codes(hit).contains(c) ==> untouched(s, s.edited(hit), c),
        s.edited(hit).pending_edits.len() == 0,
        s.edited(hit).edits == s.edits + s.pending_edits,
        s.edited(hit).gen == s.gen,
        s.edited(hit).caves_on == s.caves_on,
{
    cache_without(s.cache, codes(hit).to_set(), c);
}

/// Without a queued edit nothing changes.
pub proof fn no_edits_no_change(s: VoxelState, hit: Seq<ChunkKey>)
    requires
        s.pending_edits.len() == 0,
    ensures
        s.edited(hit) == s,
{
}

/// A change of the caves leaves nothing of any leaf, and is seen to once; without one nothing
/// changes.
pub proof fn caves_forget_everything(s: VoxelState, c: u128)
    ensures
        s.dirty_caves ==> nowhere(s.forgotten(), c),
        !s.forgotten().dirty_caves,
        !s.dirty_caves ==> s.forgotten() == s,
        s.forgotten().edits == s.edits,
        s.forgotten().forgotten() == s.forgotten(),
        s.forgotten().gen == s.gen && s.forgotten().caves_on == s.caves_on,
        s.forgotten().pending_edits == s.pending_edits,
{
}

/// Another data field takes no leaf off the screen: all that is drawn stays drawn, while the
/// meshes in the old colours are dropped from the cache.
pub proof fn recolouring_keeps_what_is_drawn(s: VoxelState, requests: Seq<MeshRequest>, c: u128)
    ensures
        s.recolored(requests).resident == s.resident,
        s.dirty_recolor ==> !has_key(s.recolored(requests).cache, c),
        !s.recolored(requests).dirty_recolor,
        !s.dirty_recolor ==> s.recolored(requests) == s,
        s.recolored(requests).edits == s.edits && s.recolored(requests).pending_edits
            == s.pending_edits,
        s.recolored(requests).dbg_field == s.dbg_field,
{
}

/// Hiding takes leaves off the screen and leaves their cached meshes and their requests alone.
pub proof fn hiding_takes_off_the_screen(s: VoxelState, keys: Seq<ChunkKey>, c: u128)
    ensures
        codes(keys).contains(c) ==> !s.hidden(keys).resident.contains_key(c),
        !codes(keys).contains(c) ==> untouched(s, s.hidden(keys), c),
        s.hidden(keys).cache == s.cache,
        s.hidden(keys).requested == s.requested,
{
}

/// Cancelling drops requests and nothing else.
pub proof fn cancelling_drops_requests(s: VoxelState, keys: Seq<ChunkKey>, c: u128)
    ensures
        codes(keys).contains(c) ==> !s.cancelled(keys).requested.contains_key(c),
        !codes(keys).contains(c) ==> untouched(s, s.cancelled(keys), c),
        s.cancelled(keys).resident == s.resident,
        s.cancelled(keys).cache == s.cache,
{
}

/// A request is noted under its own leaf and its own generation; the next one gets the next
/// generation and the next worker. Nothing is drawn or cached by it.
pub proof fn requests_are_noted(s: VoxelState, r: MeshRequest, c: u128)
    requires
        s.gen < u64::MAX,
        s.rr < usize::MAX,
    ensures
        ({
            let t = after_requests(s, seq![r]);
            &&& t.requested.contains_key(code(r.key))
            &&& t.requested[code(r.key)] == r.gen
            &&& c != code(r.key) ==> untouched(s, t, c)
            &&& t.resident == s.resident
            &&& t.cache == s.cache
            &&& t.gen == s.gen + 1
            &&& t.rr == s.rr + 1
        }),
{
    reveal_with_fuel(noted, 2);
    assert(seq![r].drop_last() =~= Seq::<MeshRequest>::empty());
    assert(seq![r].last() == r);
    vstd::arithmetic::div_mod::lemma_small_mod((s.rr + 1) as nat, (usize::MAX + 1) as nat);
}

/// A leaf is to be asked for anew exactly if it is drawn, nothing is on the way for it, and its
/// neighbours call for other sides than it was meshed with.
pub proof fn unstitched_leaves_do_not_fit(s: VoxelState, c: u128)
    ensures
        s.unstitched().contains(c) <==> s.resident.contains_key(c) && !s.requested.contains_key(c)
            && s.resident[c].sides != sides_of(s.resident.dom(), s.resident[c].key),
{
}

/// A leaf is missing exactly if it is nowhere.
pub proof fn missing_leaves_are_nowhere(s: VoxelState, c: u128)
    ensures
        s.missing().contains(c) <==> nowhere(s, c),
        s.known(c) <==> !nowhere(s, c),
{
}

/// The four views of data show a field each, in their order; no other view shows one.
pub proof fn data_views_show_their_field(view: u32)
    ensures
        data_field(7) == 1 && data_field(8) == 2 && data_field(9) == 3 && data_field(10) == 4,
        view < 7 || view > 10 ==> data_field(view) == 0,
{
}

/// A mesher sees the caves, all edits that are in and the data field, as they are when it is
/// asked.
pub proof fn meshers_see_the_present(s: VoxelState)
    requires
        s.edits.len() <= usize::MAX,
    ensures
        s.ctx().caves == s.caves_on,
        s.ctx().edits == s.edits.len(),
        s.ctx().dbg_field == s.dbg_field,
{
}

/// The cache loses nothing before it holds 4096 leaves, and never holds more.
pub proof fn cache_has_room(entries: Seq<(u128, (u64, u8))>, key: u128, value: (u64, u8))
    requires
        !has_key(entries, key),
        entries.len() <= 4096,
    ensures
        entries.len() < 4096 ==> after_put(entries, CACHE_CAPACITY as nat, key, value) == seq![
            (key, value),
        ] + entries,
        after_put(entries, CACHE_CAPACITY as nat, key, value).len() <= 4096,
{
}

} // verus!
