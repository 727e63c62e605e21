use enki::voxel::chunk_key::{dbg_id, HIGH_X, HIGH_Y, LOW_X, LOW_Y};
use enki::voxel::draw::{csm_bindings, farthest_hit, Binding, BindingKind};
use enki::voxel::view::{
    finest_leaf, Edit, MeshCtx, MeshFate, Resident, ShowAction, UploadOutcome, VoxelView,
    CACHE_CAPACITY,
};

type Key = (u8, u8, u32, u32);

fn key(x: u32) -> Key {
    (0, 4, x, 5)
}

/// Meshes a leaf and brings it onto the screen.
fn draw(v: &mut VoxelView, k: Key) {
    let r = v.request(k, v.compute_sides(k));
    assert_eq!(v.mesh_done(k, r.gen, r.sides), MeshFate::Cached);
    match v.show(k) {
        ShowAction::Upload(_, sides) => {
            v.shown_from_cache(k, sides, UploadOutcome::Uploaded(k.2 as u64, 30));
        }
        other => panic!("{other:?}"),
    }
}

/// The leaves and the meshes they were drawn from.
fn taken(list: &[Resident]) -> Vec<(Key, u64)> {
    list.iter().map(|r| (r.key, r.mesh)).collect()
}

#[test]
fn leaf_is_meshed_then_cached_then_drawn() {
    let mut v = VoxelView::new();
    let (_, requests) = v.apply_selection(&vec![], &vec![], &vec![key(1), key(1), key(2)]);
    assert_eq!(requests.iter().map(|r| r.key).collect::<Vec<Key>>(), vec![key(1), key(2)]);
    assert_eq!((requests[0].gen, requests[1].gen), (0, 1));
    assert_eq!((requests[0].worker, requests[1].worker), (0, 1));
    assert_eq!(requests[0].ctx, MeshCtx { caves: true, edits: 0, dbg_field: 0 });
    assert_eq!(v.show(key(1)), ShowAction::Wait);
    assert_eq!(v.mesh_done(key(1), 0, 0), MeshFate::Cached);
    assert_eq!(v.show(key(1)), ShowAction::Upload(0, 0));
    assert_eq!(v.shown_from_cache(key(1), 0, UploadOutcome::BudgetFull), None);
    assert!(!v.is_resident(key(1)));
    assert_eq!(v.shown_from_cache(key(1), 0, UploadOutcome::Uploaded(8, 12)), None);
    assert_eq!(v.show(key(1)), ShowAction::Shown);
    assert!(v.is_resident(key(1)) && v.is_available(key(1)));
    assert_eq!(v.counts(), (1, 1, 1));
    assert_eq!(v.triangle_count(), 4);
}

#[test]
fn newest_request_wins() {
    let mut v = VoxelView::new();
    let first = v.request(key(1), 0);
    let second = v.request(key(1), 0);
    assert_ne!(first.gen, second.gen);
    assert_eq!(v.mesh_done(key(1), first.gen, 0), MeshFate::Stale);
    assert_eq!(v.mesh_done(key(1), second.gen, 0), MeshFate::Cached);
    assert_eq!(v.mesh_done(key(1), second.gen, 0), MeshFate::Stale);
}

#[test]
fn cancelled_meshes_are_dropped() {
    let mut v = VoxelView::new();
    let r = v.request(key(1), 0);
    v.apply_selection(&vec![], &vec![key(1)], &vec![]);
    assert_eq!(v.mesh_done(key(1), r.gen, 0), MeshFate::Stale);
    match v.show(key(1)) {
        ShowAction::Request(r) => assert_eq!((r.gen, r.worker), (1, 1)),
        other => panic!("{other:?}"),
    }
}

#[test]
fn drawn_leaf_is_replaced_in_place() {
    let mut v = VoxelView::new();
    draw(&mut v, key(1));
    let r = v.request(key(1), LOW_X);
    assert_eq!(v.mesh_done(key(1), r.gen, LOW_X), MeshFate::Upload);
    assert!(v.is_resident(key(1)));
    assert_eq!(v.upload_done(key(1), r.gen, LOW_X, UploadOutcome::Uploaded(77, 60)), Some(1));
    assert_eq!(v.triangle_count(), 20);
    let r = v.request(key(1), 0);
    v.mesh_done(key(1), r.gen, 0);
    assert_eq!(v.upload_done(key(1), r.gen, 0, UploadOutcome::Failed), None);
    assert_eq!(v.triangle_count(), 20);
}

#[test]
fn full_budget_keeps_the_mesh() {
    let mut v = VoxelView::new();
    draw(&mut v, key(1));
    let r = v.request(key(1), HIGH_Y);
    v.mesh_done(key(1), r.gen, HIGH_Y);
    assert_eq!(v.upload_done(key(1), r.gen, HIGH_Y, UploadOutcome::BudgetFull), None);
    v.apply_selection(&vec![key(1)], &vec![], &vec![]);
    assert_eq!(v.show(key(1)), ShowAction::Upload(r.gen, HIGH_Y));
}

#[test]
fn hidden_leaves_come_back_from_the_cache() {
    let mut v = VoxelView::new();
    draw(&mut v, key(1));
    draw(&mut v, key(2));
    let (retired, requests) =
        v.apply_selection(&vec![key(1), key(9)], &vec![], &vec![key(1), key(3)]);
    assert_eq!(taken(&retired), vec![(key(1), 1)]);
    assert_eq!(requests.len(), 1);
    assert_eq!(requests[0].key, key(3));
    assert!(matches!(v.show(key(1)), ShowAction::Upload(_, _)));
    assert_eq!(v.resident_keys(), vec![key(2)]);
}

#[test]
fn caves_throw_everything_away() {
    let mut v = VoxelView::new();
    draw(&mut v, key(1));
    assert!(v.apply_dirty_caves().is_empty());
    v.set_caves_enabled(true);
    assert!(v.apply_dirty_caves().is_empty());
    v.set_caves_enabled(false);
    assert!(!v.caves_enabled());
    assert_eq!(taken(&v.apply_dirty_caves()), vec![(key(1), 1)]);
    assert_eq!(v.counts(), (0, 0, 0));
    assert!(!v.mesh_ctx().caves);
    draw(&mut v, key(1));
    v.retune_caves();
    assert!(v.apply_dirty_caves().is_empty());
    v.set_caves_enabled(true);
    v.apply_dirty_caves();
    draw(&mut v, key(1));
    v.retune_caves();
    assert_eq!(taken(&v.apply_dirty_caves()), vec![(key(1), 1)]);
}

#[test]
fn recolouring_blanks_nothing() {
    let mut v = VoxelView::new();
    draw(&mut v, key(1));
    draw(&mut v, key(2));
    v.set_view_mode(6);
    assert!(v.apply_dirty_recolor().is_empty());
    v.set_view_mode(9);
    let requests = v.apply_dirty_recolor();
    assert_eq!(requests.len(), 2);
    assert!(requests.iter().all(|r| r.ctx.dbg_field == 3));
    assert_eq!(v.counts(), (2, 0, 2));
    assert!(v.apply_dirty_recolor().is_empty());
}

#[test]
fn edits_hit_what_they_touch() {
    let mut v = VoxelView::new();
    draw(&mut v, key(1));
    draw(&mut v, key(2));
    assert!(v.apply_edits(&vec![key(1)]).is_empty());
    let edit = Edit { center: (1, 2, 3), radius: 4, dig: true };
    v.queue_edit(edit);
    assert_eq!(v.pending_edits(), &vec![edit]);
    assert_eq!(taken(&v.apply_edits(&vec![key(1), key(7)])), vec![(key(1), 1)]);
    assert_eq!(v.edits(), &vec![edit]);
    assert!(v.pending_edits().is_empty());
    assert_eq!(v.counts(), (1, 1, 0));
    assert!(matches!(v.show(key(1)), ShowAction::Request(_)));
    assert_eq!(v.mesh_ctx().edits, 1);
}

#[test]
fn changes_are_seen_to_in_order() {
    let edit = Edit { center: (1, 2, 3), radius: 4, dig: false };
    let mut v = VoxelView::new();
    draw(&mut v, key(1));
    draw(&mut v, key(2));
    v.set_view_mode(7);
    v.queue_edit(edit);
    let out = v.apply_changes(&vec![key(2)]);
    assert!(out.forgotten.is_empty());
    assert_eq!(out.requests.len(), 2);
    assert!(out.requests.iter().all(|r| r.ctx.edits == 0 && r.ctx.dbg_field == 1));
    assert_eq!(taken(&out.touched), vec![(key(2), 2)]);
    assert_eq!(v.counts(), (1, 0, 1));
    v.set_caves_enabled(false);
    v.set_view_mode(0);
    v.queue_edit(edit);
    let out = v.apply_changes(&vec![key(1)]);
    assert_eq!(taken(&out.forgotten), vec![(key(1), 1)]);
    assert!(out.requests.is_empty() && out.touched.is_empty());
    assert_eq!((v.counts(), v.edits().len()), ((0, 0, 0), 2));
}

#[test]
fn seams_follow_coarser_neighbours() {
    let mut v = VoxelView::new();
    let fine = (2, 3, 4, 4);
    draw(&mut v, fine);
    assert_eq!(v.compute_sides(fine), 0);
    draw(&mut v, (2, 2, 1, 2));
    assert_eq!(v.compute_sides(fine), LOW_X);
    draw(&mut v, (2, 2, 2, 1));
    assert_eq!(v.compute_sides(fine), LOW_X + LOW_Y);
    assert_eq!(v.compute_sides((2, 3, 1, 5)), HIGH_X);
    let requests = v.remesh_unstitched();
    assert_eq!(requests.len(), 1);
    assert_eq!((requests[0].key, requests[0].sides), (fine, LOW_X + LOW_Y));
    assert!(v.remesh_unstitched().is_empty());
    let r = requests[0];
    assert_eq!(v.mesh_done(fine, r.gen, r.sides), MeshFate::Upload);
    v.upload_done(fine, r.gen, r.sides, UploadOutcome::Uploaded(9, 3));
    assert!(v.remesh_unstitched().is_empty());
}

#[test]
fn cache_forgets_the_oldest() {
    let mut v = VoxelView::new();
    for x in 0..=CACHE_CAPACITY as u32 {
        let r = v.request((0, 20, x, 0), 0);
        v.mesh_done((0, 20, x, 0), r.gen, 0);
    }
    assert_eq!(v.counts(), (0, CACHE_CAPACITY, 0));
    assert!(!v.is_available((0, 20, 0, 0)));
    assert!(v.is_available((0, 20, 1, 0)));
    assert!(matches!(v.show((0, 20, 1, 0)), ShowAction::Upload(1, 0)));
}

#[test]
fn looking_does_not_freshen() {
    let mut v = VoxelView::new();
    for x in 0..CACHE_CAPACITY as u32 {
        let r = v.request((0, 20, x, 0), 0);
        v.mesh_done((0, 20, x, 0), r.gen, 0);
    }
    assert!(matches!(v.show((0, 20, 0, 0)), ShowAction::Upload(0, 0)));
    let r = v.request((1, 20, 0, 0), 0);
    v.mesh_done((1, 20, 0, 0), r.gen, 0);
    assert!(!v.is_available((0, 20, 0, 0)));
}

#[test]
fn draw_list_names_every_leaf_once() {
    let mut v = VoxelView::new();
    draw(&mut v, key(1));
    draw(&mut v, (5, 4, 2, 3));
    let mut list = v.draw_list();
    list.sort_by_key(|d| d.key);
    assert_eq!(list.len(), 2);
    assert_eq!((list[0].key, list[0].level, list[0].index_count), (key(1), 4, 30));
    assert_eq!(list[1].id, dbg_id((5, 4, 2, 3)));
    assert_eq!(list[1].id, 5 + 8 * 4 + 256 * 2 + 0x10_0000 * 3);
}

#[test]
fn finest_cover_is_stood_on() {
    let leaves = vec![(0, 2, 0, 0), (0, 5, 1, 1), (1, 9, 0, 0), (0, 5, 2, 2), (0, 7, 3, 3)];
    let covers = vec![true, true, true, true, false];
    assert_eq!(finest_leaf(&leaves, 0, &covers), Some(1));
    assert_eq!(finest_leaf(&leaves, 1, &covers), Some(2));
    assert_eq!(finest_leaf(&leaves, 3, &covers), None);
}

#[test]
fn top_of_the_ground_is_the_farthest_hit() {
    assert_eq!(farthest_hit(&vec![None, Some(3), Some(8), None, Some(5)]), Some(8));
    assert_eq!(farthest_hit(&vec![None, None]), None);
    assert_eq!(farthest_hit(&vec![]), None);
    let bits: Vec<Option<u64>> = [1.5_f64, 50_000.0, 2.0].iter().map(|d| Some(d.to_bits())).collect();
    assert_eq!(farthest_hit(&bits).map(f64::from_bits), Some(50_000.0));
}

#[test]
fn shadow_maps_are_bound_between_uniforms_and_sampler() {
    let list = csm_bindings();
    assert_eq!(list.len(), 5);
    assert_eq!(list[0], Binding { number: 0, kind: BindingKind::Uniforms, vertex: true });
    assert_eq!(list[3], Binding { number: 3, kind: BindingKind::ShadowMap, vertex: false });
    assert_eq!(list[4], Binding { number: 4, kind: BindingKind::Sampler, vertex: false });
}

#[test]
fn every_mesh_is_drawn_or_retired_once() {
    let mut v = VoxelView::new();
    let (mut uploaded, mut retired) = (0_u64, Vec::new());
    for round in 0..40_u32 {
        let k = key(round * 7 % 5);
        let r = v.request(k, v.compute_sides(k));
        let mut outcome = UploadOutcome::Uploaded(uploaded, 3);
        if round % 6 == 5 {
            outcome = UploadOutcome::BudgetFull;
        }
        let fate = v.mesh_done(k, r.gen, r.sides);
        let old = match fate {
            MeshFate::Upload => v.upload_done(k, r.gen, r.sides, outcome),
            _ => v.shown_from_cache(k, r.sides, outcome),
        };
        if outcome != UploadOutcome::BudgetFull {
            uploaded += 1;
        }
        retired.extend(old);
        if round % 9 == 8 {
            let (gone, _) = v.apply_selection(&vec![k, k, key(3)], &vec![], &vec![]);
            retired.extend(gone.iter().map(|r| r.mesh));
        }
        if round % 11 == 10 {
            v.queue_edit(Edit { center: (1, 2, 3), radius: 4, dig: true });
        }
        if round % 17 == 16 {
            v.set_caves_enabled(!v.caves_enabled());
        }
        let out = v.apply_changes(&vec![key(2), key(4), key(2)]);
        retired.extend(out.forgotten.iter().map(|r| r.mesh));
        retired.extend(out.touched.iter().map(|r| r.mesh));
        let mut all: Vec<u64> = v.draw_list().iter().map(|d| d.mesh).collect();
        all.extend(&retired);
        all.sort();
        assert_eq!(all, (0..uploaded).collect::<Vec<u64>>());
    }
    assert!(uploaded > 30 && retired.len() > 20);
}

#[test]
fn ground_is_asked_of_what_is_drawn() {
    let mut v = VoxelView::new();
    for k in [key(1), (0, 2, 0, 0), (0, 3, 1, 1)] {
        draw(&mut v, k);
    }
    v.apply_selection(&vec![(0, 3, 1, 1)], &vec![], &vec![]);
    let mut ground = v.resident_keys();
    let mut drawn: Vec<Key> = v.draw_list().iter().map(|d| d.key).collect();
    ground.sort();
    drawn.sort();
    assert_eq!(ground, drawn);
    assert_eq!(ground, vec![(0, 2, 0, 0), key(1)]);
}
