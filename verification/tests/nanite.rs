use std::collections::{HashMap, HashSet};

use enki::nanite::debug::{
    id_hsv, mix2, ply_face, ply_header, ply_layout, ClusterShape, ColorMode,
};
use enki::nanite::page_pool::PagePool;
use enki::nanite::render::{
    buffer_sizes, residency_evictions, slot_layout, slot_triangles, stable_id, ClusterEntry,
    ClusterWrite, NaniteRenderer, SlotLayout, POOL_MAX_CLUSTERS,
};
use enki::nanite::upload::{active_bytes, cluster_bytes, start_arguments, ClusterData};
use enki::nanite::streamer::{Baked, NaniteStreamer, StreamConfig};

#[test]
fn residency_evictions_picks_undesired_keys() {
    let mut resident: HashMap<u32, u32> = HashMap::new();
    resident.insert(10, 0);
    resident.insert(11, 1);
    resident.insert(12, 2);
    let mut desired: HashSet<u32> = HashSet::new();
    desired.insert(11);
    desired.insert(99);

    let mut ev = residency_evictions(&resident, &desired);
    ev.sort();
    assert_eq!(ev, vec![(10, 0), (12, 2)]);
}

#[test]
fn page_pool_slot_is_reused_only_after_completion() {
    let mut pool = PagePool::new(2);
    let s0 = pool.allocate().unwrap();
    let s1 = pool.allocate().unwrap();
    assert!(pool.allocate().is_none(), "pool full");

    pool.retire(s0, 5);
    pool.collect(4);
    assert!(pool.allocate().is_none(), "evicted slot must wait for completion");
    pool.collect(5);
    assert_eq!(pool.allocate(), Some(s0), "slot reused after completion");
    let _ = s1;
}

#[test]
fn pool_hands_slots_out_in_order() {
    let mut pool = PagePool::new(3);
    assert_eq!(pool.free_count(), 3);
    assert_eq!(pool.upcoming(1), 1);
    assert_eq!((pool.allocate(), pool.allocate(), pool.allocate()), (Some(0), Some(1), Some(2)));
    assert_eq!(PagePool::new(0).allocate(), None);
}

fn entries(n: u32) -> Vec<ClusterEntry> {
    (0..n).map(|c| ClusterEntry { face: c % 6, cluster: c }).collect()
}

#[test]
fn selection_becomes_resident() {
    let mut r = NaniteRenderer::new();
    let all = entries(8);
    let (writes, full) = r.update_residency(0, 2, &all, &vec![0, 3, 5]);
    assert!(!full);
    assert_eq!(writes.len(), 3);
    assert_eq!(
        writes[1],
        ClusterWrite { slot: 1, key: stable_id(3, 3), face: 3, cluster: 3 }
    );
    r.finish_residency(&writes, 3);
    assert_eq!(r.resident_count(), 3);
    let mut active = r.active_slots().clone();
    active.sort();
    assert_eq!(active, vec![0, 1, 2]);

    let (writes, _) = r.update_residency(1, 3, &all, &vec![3, 6]);
    assert_eq!(writes.len(), 1);
    assert_eq!(writes[0].slot, 3);
    r.finish_residency(&writes, 1);
    assert_eq!(r.resident_count(), 2);
    let (writes, _) = r.update_residency(3, 5, &all, &vec![3, 6, 7]);
    assert!(writes[0].slot == 0 || writes[0].slot == 2);
}

#[test]
fn failed_write_leaves_the_rest_out() {
    let mut r = NaniteRenderer::new();
    let all = entries(4);
    let (writes, _) = r.update_residency(0, 2, &all, &vec![0, 1, 2]);
    r.finish_residency(&writes, 1);
    assert_eq!(r.resident_count(), 1);
    assert!(r.active_slots().is_empty());
    let (writes, _) = r.update_residency(0, 2, &all, &vec![0, 1, 2]);
    assert_eq!(writes.iter().map(|w| w.slot).collect::<Vec<u32>>(), vec![2, 3]);
}

#[test]
fn seeding_fills_slots_in_order() {
    let mut r = NaniteRenderer::new();
    let writes = r.seed(&vec![2, 0, 1]);
    assert_eq!(writes.len(), 3);
    assert_eq!(writes[2], ClusterWrite { slot: 2, key: stable_id(2, 0), face: 2, cluster: 0 });
    assert_eq!(r.resident_count(), 3);
    assert_eq!(r.cull_groups(), 1);
}

#[test]
fn cull_arguments_tell_the_visible_clusters() {
    let mut r = NaniteRenderer::new();
    assert_eq!(r.last_visible_clusters(), 0);
    r.note_visible(&(384_u32 * 700).to_le_bytes().to_vec());
    assert_eq!(r.last_visible_clusters(), 700);
    r.note_visible(&vec![1, 2, 3]);
    assert_eq!(r.last_visible_clusters(), 700);
    assert_eq!(r.cull_groups(), 1);
    r.seed(&vec![65]);
    assert_eq!(r.cull_groups(), 2);
}

#[test]
fn slots_lie_side_by_side() {
    assert_eq!(
        slot_layout(3),
        SlotLayout { verts_off: 6912, tris_off: 4608, meta_off: 192, vertex_base: 192 }
    );
    let last = slot_layout(POOL_MAX_CLUSTERS as u32 - 1);
    let sizes = buffer_sizes();
    assert_eq!(last.verts_off + 2304, sizes.verts);
    assert_eq!(last.tris_off + 1536, sizes.tris);
    assert_eq!(last.meta_off + 64, sizes.meta);
    assert_eq!((sizes.args, sizes.nodes), (16, 1024));
    assert_eq!(slot_triangles(2, &vec![[0, 1, 63]]), vec![128, 129, 191]);
}

fn words(bytes: &[u8]) -> Vec<u32> {
    assert_eq!(bytes.len() % 4, 0);
    bytes.chunks(4).map(|b| u32::from_ne_bytes([b[0], b[1], b[2], b[3]])).collect()
}

#[test]
fn clusters_go_out_as_bytes() {
    let write = ClusterWrite { slot: 2, key: stable_id(3, 7), face: 3, cluster: 7 };
    let one = 1.0_f32.to_bits();
    let data = ClusterData {
        verts: vec![one, 0x0102_0304, 5],
        triangles: vec![[0, 1, 2], [2, 1, 63]],
        bounds: [one, 2, 3, 4],
        parent_bounds: [5, 6, 7, 8],
        self_error: 9,
        parent_error: f32::INFINITY.to_bits(),
        lod: 2.0_f32.to_bits(),
    };
    let out = cluster_bytes(&write, &data);
    assert_eq!(words(&out.verts), data.verts);
    assert_eq!(&out.verts[4..8], &0x0102_0304_u32.to_ne_bytes());
    assert_eq!(words(&out.tris), vec![128, 129, 130, 130, 129, 191]);
    assert_eq!(out.meta.len(), 64);
    assert_eq!(
        words(&out.meta),
        vec![
            one,
            2,
            3,
            4,
            5,
            6,
            7,
            8,
            9,
            f32::INFINITY.to_bits(),
            2.0_f32.to_bits(),
            0,
            0,
            2,
            3,
            stable_id(3, 7)
        ]
    );
}

#[test]
fn cull_starts_from_the_slots_in_use() {
    let mut r = NaniteRenderer::new();
    assert!(active_bytes(&r).is_empty());
    r.seed(&vec![3]);
    let mut slots = words(&active_bytes(&r));
    slots.sort();
    assert_eq!(slots, vec![0, 1, 2]);
    assert_eq!(words(&start_arguments()), vec![0, 1, 0, 0]);
}

#[test]
fn stable_ids_differ() {
    assert_ne!(stable_id(0, 1), stable_id(1, 0));
    assert_eq!(stable_id(0, 5), 5);
}

fn key(n: u32) -> (u8, u8, u32, u32) {
    (1, 3, n, 2)
}

fn baked(n: u32, clusters: u32) -> Baked<&'static str> {
    Baked { key: key(n), clusters, asset: "dag" }
}

#[test]
fn initial_state_is_dirty_then_clears() {
    let mut s: NaniteStreamer<()> = NaniteStreamer::new(StreamConfig::default());
    assert!(s.take_dirty(), "fresh streamer seeds the renderer (dirty)");
    assert!(!s.take_dirty(), "dirty clears after being taken");
}

#[test]
fn converges_to_a_resident_set_near_camera() {
    let cfg = StreamConfig { workers: 2, ..Default::default() };
    let mut s = NaniteStreamer::new(cfg);
    let near = vec![key(0), key(1)];
    let mut shown = 0;
    for _ in 0..2000 {
        let jobs = s.update(&vec![], &near, &near, &vec![]);
        for k in jobs {
            s.node_baked(Baked { key: k, clusters: 9, asset: () });
        }
        shown = s.resident_nodes();
        if shown > 0 && s.pending() == 0 {
            break;
        }
    }
    assert!(shown > 0, "expected at least one resident node near the camera");
    assert!(s.resident_clusters() > 0, "resident nodes must carry clusters");
    assert_eq!(s.resident_clusters(), 18);
}

#[test]
fn nodes_are_baked_once() {
    let mut s = NaniteStreamer::new(StreamConfig::default());
    let none = vec![];
    assert_eq!(s.update(&none, &vec![key(1), key(1), key(2)], &none, &none), vec![key(1), key(2)]);
    assert_eq!(s.pending(), 2);
    assert_eq!(s.update(&none, &vec![key(1)], &none, &none), vec![]);
    assert_eq!(s.update(&vec![key(2)], &vec![key(2)], &none, &none), vec![key(2)]);
    s.node_baked(baked(1, 4));
    assert!(s.is_available(key(1)) && !s.is_resident(key(1)));
    assert_eq!(s.update(&none, &vec![key(1)], &vec![key(1)], &none), vec![]);
    assert!(s.is_resident(key(1)));
    assert_eq!(s.resident(key(1)).map(|b| b.asset), Some("dag"));
    s.take_dirty();
    s.update(&none, &none, &none, &vec![key(1)]);
    assert!(s.take_dirty());
    assert!(s.is_available(key(1)) && !s.is_resident(key(1)));
    assert!(s.resident(key(1)).is_none());
}

#[test]
fn ready_nodes_are_pruned() {
    let cfg = StreamConfig { lru_capacity: 2, ..Default::default() };
    assert_eq!((cfg.bake_workers(), StreamConfig { workers: 0, ..cfg }.bake_workers()), (4, 1));
    let mut s = NaniteStreamer::new(cfg);
    for n in 0..5 {
        s.node_baked(baked(n, 1));
    }
    s.update(&vec![], &vec![], &vec![], &vec![]);
    assert_eq!((0..5).filter(|&n| s.is_available(key(n))).count(), 2);
}

#[test]
fn shown_nodes_count_towards_the_cap() {
    let cfg = StreamConfig { lru_capacity: 3, ..Default::default() };
    let mut s = NaniteStreamer::new(cfg);
    for n in 0..6 {
        s.node_baked(baked(n, 1));
    }
    let none = vec![];
    s.update(&none, &none, &vec![key(0), key(1)], &none);
    assert_eq!((s.resident_nodes(), s.is_resident(key(0)), s.is_resident(key(1))), (2, true, true));
    assert_eq!((0..6).filter(|&n| s.is_available(key(n))).count(), 3);
    for n in 2..6 {
        s.node_baked(baked(n, 1));
    }
    s.update(&none, &none, &(2..6).map(key).collect(), &none);
    assert_eq!(s.resident_nodes(), 6);
    s.node_baked(baked(9, 1));
    s.update(&none, &none, &none, &none);
    assert_eq!((s.resident_nodes(), s.is_available(key(9))), (6, false));
}

#[test]
fn nearest_nodes_come_first() {
    let mut s = NaniteStreamer::new(StreamConfig::default());
    let all: Vec<_> = (0..4).map(key).collect();
    for n in 0..4 {
        s.node_baked(baked(n, n + 1));
    }
    s.update(&vec![], &vec![], &all, &vec![]);
    let keys = s.resident_keys();
    let distances: Vec<u64> =
        keys.iter().map(|k| ((k.2 as f64 - 2.0) * (k.2 as f64 - 2.0)).to_bits()).collect();
    let order: Vec<u32> = s.visible_assets(&keys, &distances).iter().map(|b| b.key.2).collect();
    assert_eq!(order[0], 2);
    assert_eq!(order[3], 0);
    let mut middle = vec![order[1], order[2]];
    middle.sort();
    assert_eq!(middle, vec![1, 3]);
}

fn hsv_to_rgb(h: f32, s: f32, v: f32) -> [f32; 3] {
    let c = v * s;
    let x = c * (1.0 - ((h / 60.0) % 2.0 - 1.0).abs());
    let m = v - c;
    let (r, g, b) = match (h / 60.0) as u32 {
        0 => (c, x, 0.0),
        1 => (x, c, 0.0),
        2 => (0.0, c, x),
        3 => (0.0, x, c),
        4 => (x, 0.0, c),
        _ => (c, 0.0, x),
    };
    [r + m, g + m, b + m]
}

fn id_color(id: u32) -> [f32; 3] {
    let (hue, sat, val) = id_hsv(id);
    hsv_to_rgb(
        hue as f32 / 10.0,
        0.55 + sat as f32 / 255.0 * 0.30,
        0.80 + val as f32 / 255.0 * 0.20,
    )
}

#[test]
fn id_color_in_range_and_distinct() {
    for id in 0..1000u32 {
        let c = id_color(id);
        for ch in c {
            assert!((0.0..=1.0).contains(&ch), "color channel out of range: {ch}");
        }
    }
    assert_ne!(id_color(0), id_color(1), "adjacent ids should differ");
}

fn clusters() -> Vec<ClusterShape> {
    vec![
        ClusterShape { lod: 0, verts: 4, triangles: vec![(0, 1, 2), (2, 1, 3)] },
        ClusterShape { lod: 1, verts: 3, triangles: vec![(0, 1, 2)] },
        ClusterShape { lod: 0, verts: 3, triangles: vec![(2, 1, 0)] },
    ]
}

#[test]
fn ply_cluster_export_is_valid() {
    let a = clusters();
    let out = ply_layout(&a, Some(0), ColorMode::Cluster);
    let s = ply_header(ColorMode::Cluster, out.verts.len() as u64, out.faces.len() as u64);
    assert!(s.starts_with("ply\n"));
    let lod0_tris: usize = a.iter().filter(|c| c.lod == 0).map(|c| c.triangles.len()).sum();
    assert!(s.contains(&format!("element face {lod0_tris}")), "wrong face count");
    assert_eq!(out.faces, vec![(0, 1, 2), (2, 1, 3), (6, 5, 4)]);
    assert_eq!(out.verts[4].color_id, 2);
}

#[test]
fn ply_triangle_export_duplicates_verts() {
    let a = clusters();
    let out = ply_layout(&a, Some(0), ColorMode::Triangle);
    let s = ply_header(ColorMode::Triangle, out.verts.len() as u64, out.faces.len() as u64);
    let lod0_tris: usize = a.iter().filter(|c| c.lod == 0).map(|c| c.triangles.len()).sum();
    assert!(s.contains(&format!("element vertex {}", lod0_tris * 3)));
    assert!(s.contains(&format!("element face {lod0_tris}")));
    assert_eq!(out.verts[3].color_id, mix2(0, 1));
}

#[test]
fn ply_indices_are_looked_up_by_triangle_only() {
    let a = vec![
        ClusterShape { lod: 0, verts: 2, triangles: vec![(0, 1, 1)] },
        ClusterShape { lod: 0, verts: 1, triangles: vec![(0, 7, 9)] },
    ];
    let out = ply_layout(&a, None, ColorMode::Cluster);
    assert_eq!(out.verts.len(), 3);
    assert_eq!(out.faces, vec![(0, 1, 1), (2, 9, 11)]);
}

#[test]
fn ply_levels_share_a_colour() {
    let out = ply_layout(&clusters(), None, ColorMode::Lod);
    assert_eq!(out.verts.len(), 10);
    assert_eq!((out.verts[0].color_id, out.verts[4].color_id), (1, 2));
    assert_eq!(ply_face((3, 14, 159)), "3 3 14 159\n");
}
