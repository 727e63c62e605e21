//! What becomes of the GPU meshes: each one that was uploaded is drawn until it is retired, and it
//! is retired once.
use vstd::prelude::*;

use crate::voxel::chunk_key::{code, code_is_injective, ChunkKey};
use crate::voxel::draw::LeafDraw;
use crate::voxel::key_list::{codes, firsts, firsts_holds, firsts_once, lists};
use crate::voxel::view::{leaves, mesh_at, taken_from, MeshRequest, Resident, VoxelState};

verus! {

/// The GPU meshes that were uploaded so far, and those of them that were retired.
#[verifier::ext_equal]
pub struct Books {
    pub uploaded: Set<u64>,
    pub retired: Set<u64>,
}

impl Books {
    /// With the meshes of `list` retired too.
    pub open spec fn retiring(self, list: Seq<Resident>) -> Books {
        Books { retired: self.retired.union(meshes(list).to_set()), ..self }
    }

    /// With `mesh` uploaded, and the one that it replaces retired.
    pub open spec fn uploading(self, mesh: u64, replaced: Option<u64>) -> Books {
        Books {
            uploaded: self.uploaded.insert(mesh),
            retired: match replaced {
                Some(m) => self.retired.insert(m),
                None => self.retired,
            },
        }
    }
}

/// The GPU meshes of leaves.
pub open spec fn meshes(list: Seq<Resident>) -> Seq<u64> {
    list.map_values(|r: Resident| r.mesh)
}

/// The GPU mesh is drawn.
pub open spec fn is_drawn(resident: Map<u128, Resident>, mesh: u64) -> bool {
    exists|c: u128| #[trigger] resident.contains_key(c) && resident[c].mesh == mesh
}

/// No two leaves are drawn from one mesh, and what was uploaded is drawn or was retired, never
/// both.
pub open spec fn balanced(resident: Map<u128, Resident>, books: Books) -> bool {
    &&& forall|c: u128, d: u128|
        #![trigger resident.contains_key(c), resident.contains_key(d)]
        resident.contains_key(c) && resident.contains_key(d) && resident[c].mesh
            == resident[d].mesh ==> c == d
    &&& forall|m: u64| #[trigger]
        books.uploaded.contains(m) <==> is_drawn(resident, m) || books.retired.contains(m)
    &&& forall|m: u64| #[trigger] is_drawn(resident, m) ==> !books.retired.contains(m)
}

/// The meshes of `list` are retired for the first time, each once.
pub open spec fn first_retired(list: Seq<Resident>, books: Books) -> bool {
    &&& meshes(list).no_duplicates()
    &&& meshes(list).to_set().subset_of(books.uploaded)
    &&& meshes(list).to_set().disjoint(books.retired)
}

proof fn taken_off(
    resident: Map<u128, Resident>,
    gone: Set<u128>,
    list: Seq<Resident>,
    books: Books,
)
    requires
        balanced(resident, books),
        taken_from(resident, list),
        lists(leaves(list), resident.dom().intersect(gone)),
    ensures
        balanced(resident.remove_keys(gone), books.retiring(list)),
        first_retired(list, books),
{
    let after = resident.remove_keys(gone);
    let named = codes(leaves(list));
    assert forall|i: int, j: int|
        0 <= i < meshes(list).len() && 0 <= j < meshes(list).len() && i != j implies meshes(list)[i]
        != meshes(list)[j] by {
        assert(named[i] != named[j]);
        assert(resident.contains_key(code(list[i].key)));
        assert(resident.contains_key(code(list[j].key)));
    }
    assert forall|m: u64| meshes(list).to_set().contains(m) implies is_drawn(resident, m)
        && !is_drawn(after, m) by {
        let i = choose|i: int| 0 <= i < meshes(list).len() && meshes(list)[i] == m;
        let c = code(list[i].key);
        assert(resident.contains_key(c));
        assert(named[i] == c);
        assert(named.to_set().contains(c));
        if is_drawn(after, m) {
            let d = choose|d: u128| #[trigger] after.contains_key(d) && after[d].mesh == m;
            assert(resident.contains_key(d));
        }
    }
    assert forall|m: u64| is_drawn(resident, m) implies is_drawn(after, m) || meshes(
        list,
    ).to_set().contains(m) by {
        let c = choose|c: u128| #[trigger] resident.contains_key(c) && resident[c].mesh == m;
        if gone.contains(c) {
            assert(named.to_set().contains(c));
            let i = choose|i: int| 0 <= i < named.len() && named[i] == c;
            assert(list[i] == resident[c]);
            assert(meshes(list)[i] == m);
        } else {
            assert(after.contains_key(c));
        }
    }
    assert(meshes(list).no_duplicates());
    assert forall|m: u64| meshes(list).to_set().contains(m) implies books.uploaded.contains(m)
        && !books.retired.contains(m) by {
        assert(is_drawn(resident, m));
    }
    assert forall|m: u64| is_drawn(after, m) implies is_drawn(resident, m) by {
        let c = choose|c: u128| #[trigger] after.contains_key(c) && after[c].mesh == m;
        assert(resident.contains_key(c));
    }
}

proof fn nothing_off(resident: Map<u128, Resident>, list: Seq<Resident>, books: Books)
    requires
        balanced(resident, books),
        list.len() == 0,
    ensures
        balanced(resident, books.retiring(list)),
        first_retired(list, books),
{
    assert(meshes(list).to_set() =~= Set::<u64>::empty());
    assert(books.retired.union(Set::<u64>::empty()) =~= books.retired);
}

proof fn firsts_list(keys: Seq<ChunkKey>, pick: Set<u128>)
    ensures
        lists(firsts(keys, pick), pick.intersect(codes(keys).to_set())),
{
    firsts_once(keys, pick);
    let named = codes(firsts(keys, pick));
    assert forall|c: u128|
        named.to_set().contains(c) <==> pick.intersect(codes(keys).to_set()).contains(c) by {
        firsts_holds(keys, pick, c);
    }
    assert(named.to_set() =~= pick.intersect(codes(keys).to_set()));
}

/// Before the first upload the books are empty, and nothing is drawn.
pub proof fn books_open_empty()
    ensures
        balanced(Map::empty(), Books { uploaded: Set::empty(), retired: Set::empty() }),
{
}

/// An upload of a fresh mesh keeps the books: the mesh is drawn from here on, and the one that it
/// replaces, if any, is retired, for the first time.
pub proof fn uploads_balance(
    s: VoxelState,
    key: ChunkKey,
    sides: u8,
    mesh: u64,
    index_count: u32,
    books: Books,
)
    requires
        balanced(s.resident, books),
        !books.uploaded.contains(mesh),
    ensures
        ({
            let replaced = mesh_at(s.resident, code(key));
            let leaf = Resident { key, sides, mesh, index_count };
            &&& balanced(s.resident.insert(code(key), leaf), books.uploading(mesh, replaced))
            &&& is_drawn(s.resident.insert(code(key), leaf), mesh)
            &&& replaced matches Some(m) ==> is_drawn(s.resident, m) && !books.retired.contains(m)
        }),
{
    let c = code(key);
    let replaced = mesh_at(s.resident, c);
    let after = s.resident.insert(c, Resident { key, sides, mesh, index_count });
    assert(after.contains_key(c));
    if replaced is Some {
        assert(s.resident.contains_key(c));
        assert(is_drawn(s.resident, s.resident[c].mesh));
    }
    assert forall|m: u64| is_drawn(after, m) implies m == mesh || (is_drawn(s.resident, m)
        && replaced != Some(m)) by {
        let d = choose|d: u128| #[trigger] after.contains_key(d) && after[d].mesh == m;
        if d != c {
            assert(s.resident.contains_key(d));
        }
    }
    assert forall|m: u64| is_drawn(s.resident, m) implies is_drawn(after, m) || replaced == Some(
        m,
    ) by {
        let d = choose|d: u128| #[trigger] s.resident.contains_key(d) && s.resident[d].mesh == m;
        if d != c {
            assert(after.contains_key(d));
        }
    }
    assert forall|d: u128, e: u128|
        #![trigger after.contains_key(d), after.contains_key(e)]
        after.contains_key(d) && after.contains_key(e) && after[d].mesh == after[e].mesh implies d
        == e by {
        if d != c {
            assert(s.resident.contains_key(d));
            assert(is_drawn(s.resident, s.resident[d].mesh));
        }
        if e != c {
            assert(s.resident.contains_key(e));
            assert(is_drawn(s.resident, s.resident[e].mesh));
        }
    }
}

/// A selection keeps the books: it retires the meshes of the leaves that it hides, each for the
/// first time, and no others.
pub proof fn selections_balance(
    s: VoxelState,
    hide: Seq<ChunkKey>,
    retired: Seq<Resident>,
    books: Books,
)
    requires
        balanced(s.resident, books),
        taken_from(s.resident, retired),
        leaves(retired) == firsts(hide, s.resident.dom()),
    ensures
        balanced(s.hidden(hide).resident, books.retiring(retired)),
        first_retired(retired, books),
{
    firsts_list(hide, s.resident.dom());
    taken_off(s.resident, codes(hide).to_set(), retired, books);
}

/// A change of the caves keeps the books: every drawn mesh is retired, each for the first time.
pub proof fn caves_balance(s: VoxelState, forgotten: Seq<Resident>, books: Books)
    requires
        balanced(s.resident, books),
        taken_from(s.resident, forgotten),
        lists(
            leaves(forgotten),
            if s.dirty_caves {
                s.resident.dom()
            } else {
                Set::empty()
            },
        ),
    ensures
        balanced(s.forgotten().resident, books.retiring(forgotten)),
        first_retired(forgotten, books),
{
    if s.dirty_caves {
        let all = s.resident.dom();
        assert(all.intersect(all) =~= all);
        taken_off(s.resident, all, forgotten, books);
        assert(s.resident.remove_keys(all) =~= Map::empty());
    } else {
        if forgotten.len() > 0 {
            assert(codes(leaves(forgotten)).to_set().contains(codes(leaves(forgotten))[0]));
        }
        nothing_off(s.resident, forgotten, books);
    }
}

/// Queued edits keep the books: the meshes of the leaves that they touch are retired, each for the
/// first time.
pub proof fn edits_balance(
    s: VoxelState,
    hit: Seq<ChunkKey>,
    touched: Seq<Resident>,
    books: Books,
)
    requires
        balanced(s.resident, books),
        taken_from(s.resident, touched),
        leaves(touched) == (if s.pending_edits.len() == 0 {
            Seq::empty()
        } else {
            firsts(hit, s.resident.dom())
        }),
    ensures
        balanced(s.edited(hit).resident, books.retiring(touched)),
        first_retired(touched, books),
{
    if s.pending_edits.len() == 0 {
        assert(leaves(touched).len() == 0);
        nothing_off(s.resident, touched, books);
    } else {
        firsts_list(hit, s.resident.dom());
        taken_off(s.resident, codes(hit).to_set(), touched, books);
    }
}

/// All that changed since the last frame, taken together, keeps the books.
pub proof fn changes_balance(
    s: VoxelState,
    forgotten: Seq<Resident>,
    requests: Seq<MeshRequest>,
    hit: Seq<ChunkKey>,
    touched: Seq<Resident>,
    books: Books,
)
    requires
        balanced(s.resident, books),
        taken_from(s.resident, forgotten),
        lists(
            leaves(forgotten),
            if s.dirty_caves {
                s.resident.dom()
            } else {
                Set::empty()
            },
        ),
        taken_from(s.forgotten().resident, touched),
        leaves(touched) == (if s.pending_edits.len() == 0 {
            Seq::empty()
        } else {
            firsts(hit, s.forgotten().resident.dom())
        }),
    ensures
        balanced(
            s.forgotten().recolored(requests).edited(hit).resident,
            books.retiring(forgotten).retiring(touched),
        ),
        first_retired(forgotten, books),
        first_retired(touched, books.retiring(forgotten)),
{
    caves_balance(s, forgotten, books);
    let t = s.forgotten().recolored(requests);
    assert(t.resident == s.forgotten().resident);
    assert(t.pending_edits == s.pending_edits);
    edits_balance(t, hit, touched, books.retiring(forgotten));
}

/// What is drawn is what was uploaded and not retired, each mesh once.
pub proof fn uploads_are_drawn(s: VoxelState, list: Seq<LeafDraw>, books: Books)
    requires
        balanced(s.resident, books),
        lists(list.map_values(|d: LeafDraw| d.key), s.resident.dom()),
        forall|i: int|
            0 <= i < list.len() ==> (#[trigger] list[i]).mesh == s.resident[code(
                list[i].key,
            )].mesh,
    ensures
        list.map_values(|d: LeafDraw| d.mesh).no_duplicates(),
        list.map_values(|d: LeafDraw| d.mesh).to_set() == books.uploaded.difference(
            books.retired,
        ),
{
    let keys = list.map_values(|d: LeafDraw| d.key);
    let drawn = list.map_values(|d: LeafDraw| d.mesh);
    let named = codes(keys);
    assert forall|i: int| 0 <= i < list.len() implies s.resident.contains_key(
        code((#[trigger] list[i]).key),
    ) by {
        assert(named[i] == code(list[i].key));
        assert(named.to_set().contains(named[i]));
    }
    assert forall|i: int, j: int| 0 <= i < drawn.len() && 0 <= j < drawn.len() && i != j implies drawn[i]
        != drawn[j] by {
        assert(named[i] != named[j]);
        assert(s.resident.contains_key(code(list[i].key)));
        assert(s.resident.contains_key(code(list[j].key)));
    }
    let left = books.uploaded.difference(books.retired);
    assert forall|m: u64| drawn.to_set().contains(m) <==> left.contains(m) by {
        if drawn.contains(m) {
            let i = choose|i: int| 0 <= i < drawn.len() && drawn[i] == m;
            assert(s.resident.contains_key(code(list[i].key)));
            assert(is_drawn(s.resident, m));
        }
        if left.contains(m) {
            let c = choose|c: u128| #[trigger]
                s.resident.contains_key(c) && s.resident[c].mesh == m;
            assert(named.to_set().contains(c));
            let i = choose|i: int| 0 <= i < named.len() && named[i] == c;
            assert(drawn[i] == m);
        }
    }
    assert(drawn.to_set() =~= left);
}

/// What one stands on is drawn, and all that is drawn can be stood on: the leaves asked for the
/// ground are those of the draw list.
pub proof fn ground_is_drawn(s: VoxelState, ground: Seq<ChunkKey>, list: Seq<LeafDraw>)
    requires
        lists(ground, s.resident.dom()),
        lists(list.map_values(|d: LeafDraw| d.key), s.resident.dom()),
    ensures
        ground.to_set() == list.map_values(|d: LeafDraw| d.key).to_set(),
        ground.no_duplicates(),
{
    let keys = list.map_values(|d: LeafDraw| d.key);
    same_keys(ground, keys);
    same_keys(keys, ground);
    assert forall|i: int, j: int| 0 <= i < ground.len() && 0 <= j < ground.len() && i != j implies ground[i]
        != ground[j] by {
        assert(codes(ground)[i] != codes(ground)[j]);
    }
    assert(ground.to_set() =~= keys.to_set());
}

proof fn same_keys(a: Seq<ChunkKey>, b: Seq<ChunkKey>)
    requires
        codes(a).to_set() == codes(b).to_set(),
    ensures
        a.to_set().subset_of(b.to_set()),
{
    assert forall|k: ChunkKey| a.to_set().contains(k) implies b.to_set().contains(k) by {
        let i = choose|i: int| 0 <= i < a.len() && a[i] == k;
        assert(codes(a)[i] == code(k));
        assert(codes(a).to_set().contains(code(k)));
        assert(codes(b).to_set().contains(code(k)));
        let j = choose|j: int| 0 <= j < b.len() && codes(b)[j] == code(k);
        code_is_injective(b[j], k);
        assert(b[j] == k);
    }
}

} // verus!
