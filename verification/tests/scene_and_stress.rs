use enki::scene::{bodies, record_frame, Body, Pipe, Step, CAMERA_RADIUS};
use enki::stress::{fan_indices, random_numbers, Attempt, StressHarness};

/// Where a marker stands, from the first camera: ahead and aside.
fn markers() -> Vec<(f64, f64)> {
    bodies()
        .iter()
        .filter_map(|b| b.sphere().from_camera)
        .map(|(ahead, aside)| (ahead as f64, aside as f64))
        .collect()
}

#[test]
fn all_markers_in_front_of_camera() {
    assert_eq!(markers().len(), 4);
    for (ahead, _) in markers() {
        assert!(ahead > 0.0, "marker is NOT in front of the camera: dot={ahead:.2}");
    }
}

#[test]
fn nearest_marker_within_10m() {
    let (ahead, aside) = markers()[0];
    let dist = ahead.hypot(aside);
    assert!(dist <= 10.0, "nearest marker is {dist:.2} m from camera, expected ≤ 10 m");
}

#[test]
fn farthest_marker_at_least_500km() {
    let (ahead, aside) = *markers().last().unwrap();
    let dist = ahead.hypot(aside);
    assert!(dist >= 500_000.0, "farthest marker is {dist:.0} m from camera");
}

#[test]
fn markers_span_wide_depth_range() {
    let dists: Vec<f64> = markers().iter().map(|(a, b)| a.hypot(*b)).collect();
    let min_dist = dists.iter().cloned().fold(f64::INFINITY, f64::min);
    let max_dist = dists.iter().cloned().fold(f64::NEG_INFINITY, f64::max);
    let ratio = max_dist / min_dist;
    assert!(ratio >= 50_000.0, "depth range ratio {ratio:.0} is too small");
}

#[test]
fn far_marker_clears_planet() {
    let (ahead, aside) = Body::Far.sphere().from_camera.unwrap();
    let past = ahead as f64 - CAMERA_RADIUS as f64;
    let dist_to_origin = past.hypot(aside as f64);
    assert!(
        dist_to_origin > 200_000.0,
        "far marker is too close to the planet origin: dist={dist_to_origin:.0} m"
    );
}

#[test]
fn water_is_drawn_last_and_filled() {
    let steps = record_frame(3, true);
    assert_eq!(steps.len(), 9);
    assert_eq!(steps[1], Step::Bind(Pipe::TerrainLines));
    assert_eq!(steps[2], Step::Draw { body: Body::Planet, material: 3 });
    assert_eq!(steps[7], Step::Bind(Pipe::Water));
    assert_eq!(steps[8], Step::Draw { body: Body::Water, material: 0 });
    assert_eq!(record_frame(0, false)[1], Step::Bind(Pipe::Terrain));
    assert_eq!((Body::Planet.sphere().radius, Body::Water.sphere().radius), (50_000, 50_500));
}

#[test]
fn stress_keeps_its_working_set() {
    let mut s = StressHarness::new();
    let mut retired = Vec::new();
    for n in 0..200 {
        if let Some(old) = s.attempted(Attempt::Uploaded(n)) {
            retired.push(old);
        }
    }
    let live = s.live();
    assert_eq!(live.len() + retired.len(), 200);
    assert_eq!(retired, (0..retired.len() as u64).collect::<Vec<u64>>());
    assert_eq!(live[0], retired.len() as u64);
    let oldest = live[0];
    assert_eq!(s.drawn(), Some(oldest));
    for _ in 0..6 {
        assert_eq!(s.drawn(), None);
    }
    assert_eq!(s.drawn(), Some(oldest + 1));
    assert_eq!(s.live()[0], oldest + 2);
}

#[test]
fn stress_counts_every_outcome() {
    let mut s = StressHarness::new();
    let (count, seed) = s.next_mesh(0);
    assert_eq!(count, 3);
    assert_eq!(s.attempted(Attempt::Backpressure), None);
    assert_eq!(s.attempted(Attempt::Failed), None);
    assert_eq!(s.attempted(Attempt::Uploaded(5)), None);
    assert_eq!(s.next_mesh(5), (1024, seed + 3));
    let (_, attempts, uploads, backpressure, retired) = s.totals();
    assert_eq!((attempts, uploads, backpressure, retired), (3, 1, 1, 0));
}

#[test]
fn stress_meshes_repeat_by_seed() {
    assert_eq!(random_numbers(7, 12), random_numbers(7, 12));
    assert_ne!(random_numbers(7, 12), random_numbers(8, 12));
    assert_eq!(random_numbers(7, 3), random_numbers(7, 12)[..3].to_vec());
    let fan = fan_indices(5);
    assert_eq!(fan.len() % 3, 0);
    assert!(fan.iter().all(|&i| i < 5));
}
