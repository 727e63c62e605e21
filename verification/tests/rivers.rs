use enki::rivers::flood::{flood, SINK};
use enki::rivers::heap::MinHeap;
use enki::rivers::network::{accumulate, channels, in_degrees, trace_rivers, walk_reach};
use enki::rivers::ribbon::{
    catmull_span, cell_to_fxy, ribbon_indices, ribbon_points, texel_index, MIN_REACH_POINTS,
};

/// A square grid whose border cells neighbour themselves outwards.
fn neighbours(n: usize) -> Vec<u32> {
    let mut out = Vec::new();
    for y in 0..n as i64 {
        for x in 0..n as i64 {
            for (dx, dy) in
                [(-1, -1), (0, -1), (1, -1), (-1, 0), (1, 0), (-1, 1), (0, 1), (1, 1)]
            {
                let u = (x + dx).clamp(0, n as i64 - 1);
                let v = (y + dy).clamp(0, n as i64 - 1);
                out.push((v * n as i64 + u) as u32);
            }
        }
    }
    out
}

/// Land that slopes down to a sea in the last rows, with bumps that dissect it.
fn slope(n: usize) -> Vec<i64> {
    let mut out = Vec::new();
    for y in 0..n {
        for x in 0..n {
            let (u, v) = (x as f64 / n as f64, 1.0 - 2.0 * y as f64 / n as f64);
            let h = 0.3 * v + 0.05 * (u * 16.0).sin() * (v * 8.0).sin();
            out.push((h * 1e7) as i64);
        }
    }
    out
}

#[test]
fn traces_a_coherent_channel() {
    let n = 32;
    let (height, nbrs) = (slope(n), neighbours(n));
    let d = flood(&height, &nbrs);
    let flow = accumulate(&height, &nbrs, &d, &vec![6; n * n]);
    let most = *flow.iter().max().unwrap();
    let part = |f: u64| ((1.0 + f as f64 / 10.0).ln()) / ((1.0 + most as f64 / 10.0).ln());
    let threshold = *flow.iter().filter(|&&f| part(f) >= 0.22).min().unwrap();
    let reaches = trace_rivers(&height, &nbrs, &d, &flow, threshold);

    let mut verts: u32 = 0;
    let mut indices = Vec::new();
    for reach in &reaches {
        let m = ribbon_points(reach.len());
        if m > 0 {
            assert!(reach.len() >= MIN_REACH_POINTS);
            indices.extend(ribbon_indices(verts, &vec![true; m - 1]));
            verts += 2 * m as u32;
        }
    }
    assert!(verts > 0, "no river geometry traced");
    assert!(!indices.is_empty());
    assert!(indices.len() % 3 == 0, "indices not whole triangles");
    assert!(*indices.iter().max().unwrap() < verts, "index out of range");
    for reach in &reaches {
        for w in reach.windows(2) {
            assert_eq!(d.downstream[w[0] as usize], w[1]);
            assert!(d.filled[w[1] as usize] <= d.filled[w[0] as usize]);
        }
    }
}

#[test]
fn no_ocean_traces_nothing() {
    let n = 8;
    let (height, nbrs) = (vec![1_000_000; n * n], neighbours(n));
    let d = flood(&height, &nbrs);
    assert!(d.order.is_empty());
    assert!(d.downstream.iter().all(|&c| c == SINK));
    let flow = accumulate(&height, &nbrs, &d, &vec![1; n * n]);
    assert!(trace_rivers(&height, &nbrs, &d, &flow, 1).is_empty());
}

#[test]
fn water_climbs_out_of_a_pit() {
    let n = 3;
    let height = vec![-1, 9, 9, 9, 2, 9, 9, 9, 9];
    let d = flood(&height, &neighbours(n));
    assert_eq!(d.downstream[4], 0);
    assert_eq!(d.downstream[0], SINK);
    assert_eq!(d.filled[4], 2);
    let pit = vec![-1, 5, 9, 5, 5, 9, 9, 9, 2];
    let d = flood(&pit, &neighbours(n));
    assert_eq!(d.downstream[8], 4);
    assert_eq!(d.filled[8], 6);
}

#[test]
fn discharge_is_conserved() {
    let n = 16;
    let (height, nbrs) = (slope(n), neighbours(n));
    let d = flood(&height, &nbrs);
    let rain: Vec<u32> = (0..n * n).map(|c| (c % 7) as u32).collect();
    let flow = accumulate(&height, &nbrs, &d, &rain);
    let out: u64 = (0..n * n).filter(|&c| d.downstream[c] == SINK).map(|c| flow[c]).sum();
    assert_eq!(out, rain.iter().map(|&r| r as u64).sum::<u64>());
    for c in 0..n * n {
        if d.downstream[c] != SINK {
            assert!(flow[d.downstream[c] as usize] >= flow[c]);
        }
    }
}

#[test]
fn everything_drains_to_the_sea() {
    let n = 24;
    let (height, nbrs) = (slope(n), neighbours(n));
    let d = flood(&height, &nbrs);
    for start in 0..n * n {
        let mut c = start;
        let mut steps = 0;
        while d.downstream[c] != SINK {
            c = d.downstream[c] as usize;
            steps += 1;
            assert!(steps <= n * n);
        }
        assert!(height[c] < 0);
    }
}

#[test]
fn water_reaches_what_is_joined_to_the_sea() {
    let n = 8;
    let mut height = vec![40; n * n];
    height[n * n - 1] = -1;
    let d = flood(&height, &neighbours(n));
    assert!((0..n * n - 1).all(|c| d.downstream[c] != SINK));
    let apart = (0..8 * n * n).map(|k| (k / 8) as u32).collect();
    let d = flood(&height, &apart);
    assert!(d.downstream.iter().all(|&c| c == SINK));
}

#[test]
fn reaches_end_at_confluences() {
    let downstream = vec![2, 2, 3, 4, SINK];
    let mask = vec![true, true, true, true, false];
    let indeg = in_degrees(&downstream, &mask);
    assert_eq!(indeg, vec![0, 0, 2, 1, 0]);
    assert_eq!(walk_reach(0, &downstream, &indeg, &mask), vec![0, 2]);
    assert_eq!(walk_reach(2, &downstream, &indeg, &mask), vec![2, 3]);
    assert_eq!(channels(&vec![1, -1, 1], &vec![5, 5, 4], 5), vec![true, false, false]);
}

#[test]
fn heap_gives_the_least_first() {
    let mut heap = MinHeap::new();
    for item in [(5, 1), (3, 9), (5, 0), (-2, 4), (3, 2)] {
        heap.push(item);
    }
    let mut out = Vec::new();
    while let Some(item) = heap.pop() {
        out.push(item);
    }
    assert_eq!(out, vec![(-2, 4), (3, 2), (3, 9), (5, 0), (5, 1)]);
}

#[test]
fn cells_and_places_round_trip() {
    for c in [0, 1, 159, 160, 25_599, 25_600, 153_599] {
        let (face, x, y) = cell_to_fxy(c, 160);
        assert_eq!(texel_index(face, x, y, 160), c);
    }
    assert_eq!(cell_to_fxy(25_600 + 160 * 3 + 7, 160), (1, 7, 3));
}

#[test]
fn spans_repeat_the_ends() {
    assert_eq!(catmull_span(0, 3), (0, 0, 1, 2));
    assert_eq!(catmull_span(1, 3), (0, 1, 2, 2));
    assert_eq!(catmull_span(0, 2), (0, 0, 1, 1));
    assert_eq!((ribbon_points(2), ribbon_points(3)), (0, 9));
}

#[test]
fn ribbons_skip_seams() {
    assert_eq!(
        ribbon_indices(10, &vec![false, true]),
        vec![12, 13, 14, 13, 15, 14, 12, 14, 13, 13, 14, 15]
    );
    assert!(ribbon_indices(0, &vec![false; 4]).is_empty());
}
