use enki::flora::cas::{gene_tab_sliders, tabs, Tab};
use enki::flora::dials::{
    climate_rows, media, view_rows, ClimateRow, Dial, Medium, Surroundings, ViewDial, ViewRow,
};
use enki::flora::genome_schema::{
    clamp_field, clamp_field_seed, cosmetic_fields, gene, gene_range, proportions_fields,
    structural_fields, GeneKind, Tier,
};
use enki::flora::grove::{plant, Ground};
use enki::flora::leaf::{
    fan_count, fan_sources, frondyness, leaf_anchors, leaf_cards, leaves_per_clump, max_radius,
    nearest_bone, strip_indices, Anchor,
};
use enki::flora::render_mode::{draw_call_count, triangle_count, LeafMode, RenderMode};
use enki::flora::scatter::{candidates, hash, keep_nearest, stand, unit, MAX_TREES};
use enki::flora::staging::{backdrops, quad_corner, quad_indices, Backdrop};
use enki::flora::streams::{braided, usable_normals, with_third};
use enki::flora::viewer::{
    grade, mode_label, mode_setting, render_modes, seed_setting, shown_draw_calls, target_size, Capture,
    FirstGenome, Grade, Growth, KeyAction, PanelEvent, PanelOut, Viewer, ViewerKey, ViewerParts,
    ViewerPass,
};
use enki::flora::weld::weld_indices;
use enki::order::nearest_first;
use enki::shell::begin::Begun;
use enki::text::{eq_ignore_case, parse_u32, push_decimal, same_text, trim};

fn millionths(v: f64) -> i64 {
    (v * 1e6).round() as i64
}

#[test]
fn clamp_continuous() {
    assert_eq!(clamp_field("branchAngle", millionths(0.1)), millionths(0.35));
    assert_eq!(clamp_field("branchAngle", millionths(0.9)), millionths(0.80));
    assert_eq!(clamp_field("branchAngle", millionths(0.5)), millionths(0.5));
    assert_eq!(clamp_field("droopBias", millionths(-0.5)), millionths(-0.2));
}

#[test]
fn unknown_field_passthrough() {
    assert_eq!(clamp_field("nope", millionths(42.0)), millionths(42.0));
}

#[test]
fn seed_is_not_continuous() {
    assert_eq!(gene("structuralSeed").unwrap().1, GeneKind::Seed);
}

#[test]
fn genes_have_tiers_and_ranges() {
    assert_eq!(
        gene("leafSize"),
        Some((Tier::Cosmetic, GeneKind::Continuous { lo: 600_000, hi: 4_000_000 }))
    );
    assert_eq!(gene("whorl").unwrap().0, Tier::Structure);
    assert_eq!(gene("weep").unwrap().0, Tier::Proportions);
    assert_eq!(gene("nope"), None);
    assert_eq!(gene_range("lengthRatio"), (550_000, 850_000));
    assert_eq!(clamp_field("structuralSeed", 7), 7);
    assert_eq!(clamp_field_seed(u32::MAX), u32::MAX);
    let counts = (structural_fields().len(), proportions_fields().len(), cosmetic_fields().len());
    assert_eq!(counts, (19, 17, 21));
}

#[test]
fn editor_tabs_offer_real_genes() {
    assert_eq!(
        tabs().iter().map(|t| t.label()).collect::<Vec<&str>>(),
        vec!["Climate", "Trunk", "Branches", "Leaves", "Root"]
    );
    let counts: Vec<usize> = tabs().iter().map(|t| gene_tab_sliders(*t).len()).collect();
    assert_eq!(counts, vec![0, 18, 13, 14, 7]);
    for t in tabs() {
        for s in gene_tab_sliders(t) {
            assert!(gene(s.name).is_some(), "{}", s.name);
            assert_eq!(clamp_field(s.name, s.min), s.min);
            assert_eq!(clamp_field(s.name, s.max), s.max);
        }
    }
    let droop = gene_tab_sliders(Tab::Branches)[9];
    assert_eq!((droop.name, droop.label), ("droopBias", "Droop bias"));
    assert_eq!((droop.min, droop.max), (-200_000, 400_000));
}

#[test]
fn render_modes_have_their_lanes() {
    assert_eq!(RenderMode::default(), RenderMode::Lit);
    let lanes: Vec<(u32, u32)> =
        render_modes(true).iter().map(|m| (m.debug_mode(), m.nanite_debug_mode())).collect();
    assert_eq!(lanes, vec![(0, 0), (1, 0), (0, 0), (2, 0), (3, 0), (0, 3), (0, 4), (0, 5)]);
    assert!(RenderMode::Wireframe.is_wireframe() && !RenderMode::Ao.is_wireframe());
    assert!(RenderMode::Lod.uses_nanite() && !RenderMode::Lit.uses_nanite());
    assert_eq!(render_modes(false).len(), 5);
    assert_eq!(mode_label(RenderMode::Ao), "AO");
}

#[test]
fn leaf_mode_reads_its_setting() {
    assert_eq!(LeafMode::from_setting(None), LeafMode::Cluster);
    assert_eq!(LeafMode::from_setting(Some("SiNgLe")), LeafMode::Single);
    assert_eq!(LeafMode::from_setting(Some("single ")), LeafMode::Cluster);
    assert_eq!(LeafMode::default(), LeafMode::Cluster);
    assert_eq!((triangle_count(30, Some(6)), triangle_count(30, None)), (12, 10));
    assert_eq!((draw_call_count(true), draw_call_count(false)), (2, 1));
    assert_eq!(shown_draw_calls(2), 4);
}

#[test]
fn leaves_grow_on_twigs() {
    let anchor = |level, terminal, radius| Anchor { level, terminal, radius };
    let all = vec![
        anchor(0, false, 100),
        anchor(1, true, 55),
        anchor(1, true, 56),
        anchor(3, false, 100),
        anchor(4, true, 1),
    ];
    assert_eq!(max_radius(&all), 100);
    assert_eq!(leaf_anchors(&all, &vec![true; 5]), vec![1, 3, 4]);
    assert_eq!(leaf_anchors(&all, &vec![true, false, true, true, false]), vec![3]);
    assert_eq!(max_radius(&vec![]), 0);
}

#[test]
fn leaves_need_foliage() {
    let twig = Anchor { level: 3, terminal: false, radius: 9 };
    let bough = Anchor { level: 0, terminal: false, radius: 90 };
    assert_eq!(leaf_cards(&vec![], &vec![]), None);
    assert_eq!(leaf_cards(&vec![bough], &vec![true]), Some(vec![]));
    assert_eq!(leaf_cards(&vec![bough, twig], &vec![true, false]), Some(vec![]));
    assert_eq!(leaf_cards(&vec![bough, twig], &vec![true, true]), Some(vec![1]));
}

#[test]
fn fewer_draws_keep_no_more_leaves() {
    let all: Vec<Anchor> =
        (0..40).map(|n| Anchor { level: n % 5, terminal: n % 3 == 0, radius: n }).collect();
    let more: Vec<bool> = (0..40).map(|n| n % 4 != 0).collect();
    let fewer: Vec<bool> = (0..40).map(|n| n % 4 != 0 && n % 7 != 0).collect();
    let (few, many) = (leaf_anchors(&all, &fewer), leaf_anchors(&all, &more));
    assert!(few.len() < many.len());
    assert!(few.iter().all(|i| many.contains(i)));
    assert!(few.iter().all(|&i| fewer[i]));
}

#[test]
fn narrow_leaves_are_like_fronds() {
    assert_eq!(frondyness(500_000, 0, 0), 0);
    assert_eq!(frondyness(0, 0, 0), 1_000_000);
    assert_eq!(frondyness(150_000, 100_000, 200_000), 500_000);
    assert_eq!(frondyness(299_999, 0, 0), 3);
    assert_eq!(frondyness(500_000, 700_000, 200_000), 700_000);
    assert_eq!(frondyness(500_000, 100_000, 600_000), 600_000);
    assert_eq!(fan_count(frondyness(150_000, 0, 0), 0), 6);
    assert_eq!(fan_count(frondyness(149_999, 0, 0), 0), 1);
}

#[test]
fn clumps_fan_out_into_single_leaves_only() {
    assert_eq!(leaves_per_clump(LeafMode::Cluster, 0, 0), 1);
    assert_eq!(leaves_per_clump(LeafMode::Single, 0, 0), 6);
    assert_eq!(leaves_per_clump(LeafMode::Single, 500_001, 0), 1);
    assert_eq!(leaves_per_clump(LeafMode::Single, 0, 50_001), 1);
    assert_eq!(leaves_per_clump(LeafMode::Cluster, 900_000, 900_000), 1);
}

#[test]
fn clumps_fan_out() {
    assert_eq!(fan_count(500_000, 50_000), 6);
    assert_eq!((fan_count(500_001, 0), fan_count(0, 50_001)), (1, 1));
    assert_eq!(fan_sources(2, 3), vec![0, 0, 0, 1, 1, 1]);
    let idx = strip_indices(2);
    assert_eq!(idx.len(), 72);
    assert_eq!(&idx[..6], &[0, 1, 2, 2, 1, 3]);
    assert_eq!(&idx[36..42], &[14, 15, 16, 16, 15, 17]);
    assert_eq!(*idx.iter().max().unwrap(), 27);
}

#[test]
fn leaves_follow_the_nearest_bone() {
    assert_eq!(nearest_bone(&vec![false, false, true, false], &vec![9, 4, 1, 4]), 1);
    assert_eq!(nearest_bone(&vec![true, true], &vec![3, 2]), 0);
    assert_eq!(nearest_bone(&vec![], &vec![]), 0);
}

const TURN: i64 = 62_832;

#[test]
fn density_zero_is_empty() {
    assert!(candidates(1200, -77, 61, TURN, 50_000, 0).is_empty());
}

#[test]
fn candidates_repeat_and_stay_in_their_window() {
    let density = (0.6 * 16_777_216.0) as u32;
    let a = candidates(300, 140, 75, TURN, 50_000, density);
    let b = candidates(300, 140, 75, TURN, 50_000, density);
    assert!(!a.is_empty(), "expected some trees at density 0.6");
    assert_eq!(a, b, "same inputs must yield byte-identical scatter");
    for &(i, j) in &a {
        assert!((i - 300).abs() <= 61 && (j - 140).abs() <= 75, "tree outside the window");
        assert!(unit(hash(i, j, 1)) < density);
    }
}

#[test]
fn density_only_adds() {
    let few = candidates(0, 0, 61, TURN, 10_000, 1 << 20);
    let many = candidates(0, 0, 61, TURN, 10_000, 1 << 22);
    assert!(few.len() < many.len());
    assert!(few.iter().all(|c| many.contains(c)));
    assert_eq!(candidates(0, 0, 61, TURN, 10_000, 1 << 24).len(), 123 * 123);
    assert!(candidates(10_100, 0, 61, TURN, 10_000, 1 << 24).is_empty());
}

#[test]
fn cells_have_one_name_from_either_side() {
    let row = |list: Vec<(i64, i64)>| -> Vec<i64> {
        list.into_iter().filter(|c| c.0 == 0).map(|c| c.1).collect()
    };
    assert_eq!(row(candidates(0, 0, 2, 100, 50, 1 << 24)), vec![-2, -1, 0, 1, 2]);
    assert_eq!(row(candidates(0, 49, 2, 100, 50, 1 << 24)), vec![47, 48, 49, -50, -49]);
    assert_eq!(row(candidates(0, -50, 2, 100, 50, 1 << 24)), vec![48, 49, -50, -49, -48]);
    assert_eq!(row(candidates(0, 50, 2, 100, 50, 1 << 24)), vec![48, 49, -50, -49, -48]);
    assert_eq!(row(candidates(0, 0, 3, 5, 50, 1 << 24)), vec![2, -2, -1, 0, 1]);
}

#[test]
fn columns_count_from_the_zero_meridian() {
    let density = 1 << 23;
    for (ci, cj) in [(300, -40), (-2000, -31_000), (12, 9)] {
        let mut want = Vec::new();
        for i in ci - 61..=ci + 61 {
            for j in cj - 61..=cj + 61 {
                if unit(hash(i, j, 1)) < density {
                    want.push((i, j));
                }
            }
        }
        assert_eq!(candidates(ci, cj, 61, TURN, 15_708, density), want);
    }
}

#[test]
fn windows_agree_across_the_seam() {
    let share = 1 << 22;
    let west = candidates(10, TURN / 2 - 3, 70, TURN, 15_000, share);
    let east = candidates(40, -TURN / 2 + 20, 90, TURN, 15_000, share);
    let near = |c: &(i64, i64), i: i64, j: i64, w: i64| {
        let d = (c.1 - j).rem_euclid(TURN);
        (c.0 - i).abs() <= 61 && (d <= w || TURN - d <= w)
    };
    let mut shared = 0;
    for c in west.iter().filter(|c| near(c, 40, -TURN / 2 + 20, 90)) {
        assert!(east.contains(c));
        shared += 1;
    }
    assert!(shared > 100);
    for c in east.iter().filter(|c| near(c, 10, TURN / 2 - 3, 70)) {
        assert!(west.contains(c));
    }
}

#[test]
fn high_latitudes_take_more_columns() {
    let c = (10_472, 100);
    let all = candidates(10_472, 0, 122, TURN, 15_708, 1 << 24);
    assert!(all.contains(&c) && all.contains(&(10_472, -100)));
    assert_eq!(all.len(), 123 * 245);
}

#[test]
fn trees_stand_by_their_cell_alone() {
    for (i, j) in [(3, 4), (-700, 62_831), (0, 0)] {
        let s = stand(i, j);
        assert_eq!(s, stand(i, j));
        assert_eq!((s.north, s.east), (unit(hash(i, j, 2)), unit(hash(i, j, 3))));
        assert_eq!(s.yaw, unit(hash(i, j, 4)));
        let scale = s.scale as f64 / (1 << 24) as f64 / 100.0;
        assert!((0.85..1.25).contains(&scale));
    }
    assert_eq!(stand(0, 0).scale, (85 << 24) + 40 * unit(hash(0, 0, 5)) as u64);
    assert_ne!(stand(0, 1), stand(1, 0));
}

#[test]
fn groves_keep_what_stands_within_reach() {
    let cells = candidates(300, 140, 75, TURN, 50_000, 1 << 23);
    let far = |c: &(i64, i64)| ((c.0 - 300) * (c.0 - 300) + (c.1 - 140) * (c.1 - 140)) as u64;
    let ground: Vec<Ground> =
        cells.iter().map(|c| Ground { share: 1 << 22, distance: far(c) }).collect();
    let (trees, dropped) = plant(&cells, &ground, 3600);
    assert_eq!(dropped, 0);
    let want: Vec<(i64, i64)> = cells
        .iter()
        .filter(|c| unit(hash(c.0, c.1, 1)) < 1 << 22 && far(c) <= 3600)
        .copied()
        .collect();
    assert_eq!(trees.iter().map(|t| t.cell).collect::<Vec<_>>(), want);
    assert!(!want.is_empty() && want.len() <= MAX_TREES);
    assert!(trees.iter().all(|t| t.stand == stand(t.cell.0, t.cell.1)));
    let walked = candidates(310, 150, 75, TURN, 50_000, 1 << 23);
    let away = |c: &(i64, i64)| ((c.0 - 310) * (c.0 - 310) + (c.1 - 150) * (c.1 - 150)) as u64;
    let ground: Vec<Ground> =
        walked.iter().map(|c| Ground { share: 1 << 22, distance: away(c) }).collect();
    let (later, _) = plant(&walked, &ground, 3600);
    assert!(trees.iter().filter(|t| away(&t.cell) <= 3600).all(|t| later.contains(t)));
    assert!(plant(&cells, &vec![Ground { share: 0, distance: 0 }; cells.len()], 9).0.is_empty());
}

#[test]
fn crowded_groves_lose_the_farthest() {
    let cells: Vec<(i64, i64)> = (0..MAX_TREES as i64 + 5).map(|n| (0, n)).collect();
    let n = cells.len() as u64;
    let ground: Vec<Ground> =
        (0..n).map(|k| Ground { share: 1 << 24, distance: n - k }).collect();
    let (trees, dropped) = plant(&cells, &ground, n);
    assert_eq!((trees.len(), dropped), (MAX_TREES, 5));
    assert_eq!(plant(&cells, &ground, n), (trees.clone(), dropped));
    assert_eq!(trees[0].cell, (0, n as i64 - 1));
    assert!(trees.iter().all(|t| t.cell.1 >= 5));
}

#[test]
fn hashes_are_exact() {
    assert_eq!(hash(0, 0, 0), 0);
    assert_eq!(unit(u64::MAX), (1 << 24) - 1);
    assert_ne!(hash(1, 0, 1), hash(0, 1, 1));
    assert_ne!(hash(1, 0, 1), hash(1, 0, 2));
}

#[test]
fn too_many_trees_lose_the_farthest() {
    let n = MAX_TREES as u64 + 10;
    let far: Vec<u64> = (0..n).map(|i| n - i).collect();
    let keep = keep_nearest(&far);
    assert_eq!(keep.len(), MAX_TREES);
    assert!(keep.iter().all(|&i| far[i] <= MAX_TREES as u64));
}

#[test]
fn nearest_first_is_stable() {
    assert_eq!(nearest_first(&vec![5, 1, 5, 0, 1]), vec![3, 1, 4, 0, 2]);
    assert_eq!(nearest_first(&vec![]), Vec::<usize>::new());
}

#[test]
fn welding_copies_every_triangle() {
    let single = vec![0, 1, 2, 2, 1, 3];
    let welded = weld_indices(4, &single, 20);
    assert_eq!(welded.len(), 20 * single.len());
    assert_eq!(&welded[6..12], &[4, 5, 6, 6, 5, 7]);
    assert_eq!(*welded.iter().max().unwrap(), 79);
    for (n, t) in welded.chunks_exact(3).enumerate() {
        let (copy, one) = (n as u32 / 2, &single[n % 2 * 3..n % 2 * 3 + 3]);
        assert_eq!(t, &[4 * copy + one[0], 4 * copy + one[1], 4 * copy + one[2]]);
    }
}

#[test]
fn welding_moves_any_index() {
    assert_eq!(weld_indices(2, &vec![0, 5, 1], 2), vec![0, 5, 1, 2, 7, 3]);
    assert_eq!(weld_indices(u32::MAX, &vec![0], 2), vec![0, u32::MAX]);
    assert!(weld_indices(u32::MAX, &vec![], 9).is_empty());
    assert!(weld_indices(9, &vec![4], 0).is_empty());
}

#[test]
fn stage_is_drawn_behind_the_plant() {
    assert_eq!(backdrops(), vec![Backdrop::Sky, Backdrop::Ground, Backdrop::Shadow]);
    assert_eq!(quad_indices(), vec![0, 1, 2, 2, 1, 3]);
    let corners: Vec<(i32, i32)> = (0..4).map(quad_corner).collect();
    assert_eq!(corners, vec![(-1, -1), (1, -1), (-1, 1), (1, 1)]);
}

#[test]
fn viewer_reads_its_settings() {
    let (v, first) = Viewer::new(true, Some(" 42\n"), Some(" LOD "), Some("out.png"), Some("1 "));
    assert_eq!(first, FirstGenome::Drawn(42));
    assert_eq!((v.seed, v.mode, v.picture, v.picture_panel), (42, RenderMode::Lod, true, true));
    let (v, first) = Viewer::new(false, Some("4x2"), Some("lod"), Some("  "), None);
    assert_eq!(first, FirstGenome::Default);
    assert_eq!((v.seed, v.mode, v.picture, v.picture_panel), (0, RenderMode::Lit, false, false));
    assert!(v.wind_on && v.bloom_on && v.tab == Tab::Climate);
    assert_eq!(mode_setting(Some("ao"), false), RenderMode::Ao);
    assert_eq!(mode_setting(Some("Unlit"), false), RenderMode::Unlit);
    assert_eq!(mode_setting(Some("wireframe"), false), RenderMode::Wireframe);
    assert_eq!(mode_setting(Some("NORMALS"), false), RenderMode::Normals);
    assert_eq!(mode_setting(Some("triangle"), true), RenderMode::Triangle);
    assert_eq!(mode_setting(Some("cluster"), true), RenderMode::Cluster);
    assert_eq!(seed_setting(None), None);
}

#[test]
fn viewer_panel_ranks_its_wishes() {
    let (mut v, _) = Viewer::new(true, None, None, None, None);
    let mut out = PanelOut::default();
    assert_eq!(v.growth(&out), Growth::Nothing);
    v.on_panel(PanelEvent::ModePicked(RenderMode::Ao), &mut out);
    assert_eq!(v.growth(&out), Growth::Show(RenderMode::Ao));
    v.on_panel(PanelEvent::Edited, &mut out);
    assert_eq!(v.growth(&out), Growth::Grow);
    v.on_panel(PanelEvent::Reroll, &mut out);
    assert_eq!(v.growth(&out), Growth::Draw(1));
    v.on_panel(PanelEvent::SeedSet(u32::MAX), &mut out);
    v.on_panel(PanelEvent::Reroll, &mut out);
    assert_eq!(v.seed, 0);
    let mut out = PanelOut::default();
    v.on_panel(PanelEvent::TabPicked(Tab::Root), &mut out);
    v.on_panel(PanelEvent::WindSet(false), &mut out);
    v.on_panel(PanelEvent::BloomSet(false), &mut out);
    assert_eq!(out, PanelOut::default());
    assert!(v.tab == Tab::Root && !v.wind_on && !v.bloom_on);
    v.on_panel(PanelEvent::Preset, &mut out);
    v.on_panel(PanelEvent::StructureSet, &mut out);
    assert_eq!(v.growth(&out), Growth::Grow);
    v.on_panel(PanelEvent::Generate, &mut out);
    assert_eq!(v.growth(&out), Growth::Draw(0));
}

#[test]
fn viewer_keys_yield_to_the_panel() {
    let (mut v, _) = Viewer::new(false, Some("7"), None, None, None);
    assert_eq!(v.on_key(ViewerKey::Next, true, false), KeyAction::Nothing);
    assert_eq!(v.on_key(ViewerKey::Escape, false, true), KeyAction::Nothing);
    assert_eq!(v.on_key(ViewerKey::Next, false, false), KeyAction::Draw(8));
    assert_eq!(v.seed, 8);
    assert_eq!(v.on_key(ViewerKey::Other, false, false), KeyAction::Nothing);
    assert_eq!(v.on_key(ViewerKey::Escape, false, false), KeyAction::Quit);
}

#[test]
fn viewer_counts_pictures_only() {
    let (mut v, _) = Viewer::new(false, None, None, Some("a.png"), None);
    for begun in [Begun::NoPicture, Begun::Lost, Begun::Failed] {
        assert!((0..90).all(|_| v.count_frame(begun) == Capture::Nothing));
    }
    let taken: Vec<u32> =
        (1..90).filter(|_| v.count_frame(Begun::Picture) == Capture::Clean).collect();
    assert_eq!(taken, vec![45]);
}

#[test]
fn viewer_takes_its_picture_once() {
    let (mut v, _) = Viewer::new(false, None, None, Some("a.png"), None);
    assert!(!v.builds_panel());
    let taken: Vec<u32> =
        (1..200).filter(|_| v.count_frame(Begun::Picture) == Capture::Clean).collect();
    assert_eq!(taken, vec![45]);
    v.picture_taken();
    assert!(v.done);
    let (mut v, _) = Viewer::new(false, None, None, Some("a.png"), Some("1"));
    assert!(v.builds_panel());
    assert_eq!((0..45).map(|_| v.count_frame(Begun::Picture)).last(), Some(Capture::WithPanel));
    let (mut v, _) = Viewer::new(false, None, None, None, Some("1"));
    assert!((0..100).all(|_| v.count_frame(Begun::Picture) == Capture::Nothing));
    v.picture_taken();
    v.on_resize(0, 9);
    assert!(!v.done && v.minimized);
}

const PARTS: ViewerParts =
    ViewerParts {
        renderer: true,
        resized: false,
        plant: true,
        clusters: true,
        staging: true,
        panel: true,
    };

#[test]
fn viewer_draws_plant_or_clusters() {
    let (mut v, _) = Viewer::new(true, None, None, None, None);
    assert_eq!(
        v.scene_passes(PARTS),
        vec![
            ViewerPass::Uniforms,
            ViewerPass::Bones,
            ViewerPass::Shadow,
            ViewerPass::BeginScene,
            ViewerPass::Staging,
            ViewerPass::Plant,
            ViewerPass::EndScene,
            ViewerPass::Bloom,
        ]
    );
    v.mode = RenderMode::Cluster;
    let passes = v.scene_passes(PARTS);
    assert!(passes.contains(&ViewerPass::ClusterCull) && passes.contains(&ViewerPass::ClusterDraw));
    assert!(!passes.contains(&ViewerPass::Plant));
    assert!(!v.draws_clusters(false));
}

#[test]
fn viewer_output_ends_every_frame() {
    let (mut v, _) = Viewer::new(true, None, None, None, None);
    assert_eq!(
        v.output_passes(PARTS, Capture::Nothing),
        vec![
            ViewerPass::BeginRendering,
            ViewerPass::Composite,
            ViewerPass::UiPass,
            ViewerPass::Panel,
            ViewerPass::EndFrame,
        ]
    );
    v.picture = true;
    assert_eq!(
        v.output_passes(PARTS, Capture::WithPanel),
        vec![
            ViewerPass::BeginCapture,
            ViewerPass::CapturePanel,
            ViewerPass::EndCapture,
            ViewerPass::BeginRendering,
            ViewerPass::Composite,
            ViewerPass::UiPass,
            ViewerPass::EndFrame,
            ViewerPass::WritePicture,
        ]
    );
    assert_eq!(v.output_passes(PARTS, Capture::Clean)[0], ViewerPass::CaptureClean);
}

#[test]
fn targets_follow_the_window() {
    assert_eq!(target_size((16, 9), (16, 9)), None);
    assert_eq!(target_size((16, 9), (16, 10)), Some((16, 10)));
    assert_eq!(target_size((15, 9), (16, 9)), Some((16, 9)));
    let (v, _) = Viewer::new(false, None, None, None, None);
    let passes = v.scene_passes(ViewerParts { resized: true, ..PARTS });
    assert_eq!(passes[..2], [ViewerPass::Resize, ViewerPass::Uniforms]);
    let none = ViewerParts { resized: true, renderer: false, ..PARTS };
    assert!(!v.scene_passes(none).contains(&ViewerPass::Resize));
}

#[test]
fn surroundings_are_set_one_by_one() {
    let rows = climate_rows();
    assert_eq!(rows.len(), 7);
    assert_eq!(rows[0], ClimateRow::Slider(Dial::Gravity));
    assert_eq!(rows[1], ClimateRow::Media);
    assert_eq!(rows[3], ClimateRow::Slider(Dial::SunAngle));
    assert_eq!((Dial::SunAngle.label(), Dial::Temperature.label()), ("Sun angle", "Temperature"));
    assert_eq!((Dial::Gravity.range(), Dial::Wind.range()), ((100_000, 3_000_000), (0, 1_000_000)));
    assert_eq!(media().iter().map(|m| m.label()).collect::<Vec<_>>(), vec!["Air", "Water"]);
    let mut s = Surroundings {
        gravity: 1,
        light: 2,
        sun_angle: 3,
        wind: 4,
        aridity: 5,
        temperature: 6,
        medium: Medium::Air,
    };
    s.turn(Dial::Aridity, 9);
    assert_eq!((s.get(Dial::Aridity), s.get(Dial::Wind), s.get(Dial::Temperature)), (9, 4, 6));
    assert!(!s.pick(Medium::Air));
    assert!(s.pick(Medium::Water));
    assert_eq!((s.medium, s.gravity), (Medium::Water, 1));
}

#[test]
fn bloom_is_set_while_it_is_on() {
    let (mut v, _) = Viewer::new(false, None, None, None, None);
    let mut out = PanelOut::default();
    let real = |bits: u32| f32::from_bits(bits);
    assert_eq!((real(v.looks.wind_strength), real(v.looks.bloom_strength)), (0.6, 0.15));
    assert_eq!((real(v.looks.wind_x), real(v.looks.wind_z)), (1.0, 0.0));
    let (half, most) = (0.5_f32.to_bits(), 1.5_f32.to_bits());
    v.on_panel(PanelEvent::Turned(ViewDial::BloomStrength, half), &mut out);
    assert_eq!(v.looks.get(ViewDial::BloomStrength), half);
    v.on_panel(PanelEvent::BloomSet(false), &mut out);
    assert!(!ViewDial::BloomStrength.usable(v.bloom_on) && ViewDial::WindX.usable(v.bloom_on));
    v.on_panel(PanelEvent::Turned(ViewDial::BloomStrength, most), &mut out);
    assert_eq!((v.looks.bloom_strength, v.looks.bloom_shown(v.bloom_on)), (half, 0));
    v.on_panel(PanelEvent::Turned(ViewDial::WindStrength, most), &mut out);
    assert_eq!(v.looks.wind_shown(v.wind_on), most);
    v.on_panel(PanelEvent::WindSet(false), &mut out);
    assert_eq!((v.looks.wind_shown(v.wind_on), v.looks.wind_strength), (0, most));
    assert_eq!(out, PanelOut::default());
    assert_eq!(ViewDial::WindStrength.range(), (0, 1_500_000));
    assert_eq!(ViewDial::WindZ.range(), (-1_000_000, 1_000_000));
    assert_eq!(ViewDial::WindX.label(), "dir x");
    assert_eq!(view_rows().last(), Some(&ViewRow::Slider(ViewDial::BloomStrength)));
}

#[test]
fn frame_rates_are_graded() {
    assert_eq!((grade(50), grade(49), grade(30), grade(29)), (Grade::Good, Grade::Fair, Grade::Fair, Grade::Poor));
    assert_eq!(Grade::Good.colour(), (0x4c, 0xd9, 0x64));
    assert_eq!(Grade::Fair.colour(), (0xe6, 0xc4, 0x4c));
    assert_eq!(Grade::Poor.colour(), (0xe0, 0x5c, 0x5c));
}

#[test]
fn text_is_read_as_std_reads_it() {
    for t in ["", "  ", " a b ", "\u{2003}x\u{3000}", "\tü\n", "x", "\u{200b}y"] {
        assert_eq!(trim(t), t.trim());
    }
    for t in ["0", "+7", "-1", "", "+", "++1", "4294967295", "4294967296", "007", "1 ", "12a", "٣"] {
        assert_eq!(parse_u32(t), t.parse::<u32>().ok(), "{t}");
    }
    for (a, b) in [("AbC", "aBc"), ("a", "b"), ("Ä", "ä"), ("", ""), ("ab", "abc"), ("[", "{")] {
        assert_eq!(eq_ignore_case(a, b), a.eq_ignore_ascii_case(b), "{a} {b}");
    }
    assert!(same_text("x", "x") && !same_text("x", "X"));
    let mut s = String::from("n=");
    push_decimal(&mut s, 1_203_456_789_000);
    push_decimal(&mut s, 0);
    assert_eq!(s, "n=12034567890000");
}

#[test]
fn streams_have_three_numbers_a_vertex() {
    assert_eq!(with_third(&vec![1, 2, 3, 4], &vec![7, 8]), vec![1, 2, 7, 3, 4, 8]);
    assert_eq!(with_third(&vec![1, 2, 3, 4, 5], &vec![7, 8, 9]), vec![1, 2, 7, 3, 4, 8]);
    assert_eq!(with_third(&vec![1, 2, 3, 4], &vec![7]), vec![1, 2, 7]);
    assert_eq!(braided(&vec![1, 2], &vec![3, 4], &vec![5, 6]), vec![1, 3, 5, 2, 4, 6]);
    assert_eq!(braided(&vec![1, 2], &vec![3], &vec![5, 6]), vec![1, 3, 5]);
    assert!(braided(&vec![1], &vec![2], &vec![]).is_empty());
}

#[test]
fn missing_normals_point_up() {
    let one = 1.0_f32.to_bits();
    assert_eq!(usable_normals(3, &vec![4, 5, 6], one), vec![4, 5, 6]);
    assert_eq!(usable_normals(6, &vec![4, 5, 6], one), vec![0, one, 0, 0, one, 0]);
    assert_eq!(usable_normals(4, &vec![4, 5, 6, 7], one), vec![4, 5, 6]);
    assert!(usable_normals(0, &vec![], one).is_empty());
}
