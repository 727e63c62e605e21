use std::collections::HashMap;

use enki::grid::{grid_indices, grid_points, patch_topology, reverse_winding};
use enki::ocean::clipmap::{clipmap_mesh, LatticeVert};
use enki::ocean::transform::{bit_reversal, bit_reverse, butterflies};

#[test]
fn vertex_and_index_counts() {
    let res = 32;
    let (indices, boundary) = patch_topology(res);
    let expect_v = ((res + 1) * (res + 1)) as usize;
    assert_eq!(grid_points(res).len(), expect_v);
    assert_eq!(boundary.len(), expect_v);
    assert_eq!(indices.len(), (res * res * 6) as usize);
}

#[test]
fn boundary_is_perimeter() {
    let res = 16;
    let (_, boundary) = patch_topology(res);
    let count = boundary.iter().filter(|&&b| b).count();
    assert_eq!(count, (4 * res) as usize);
}

#[test]
fn positions_finite_indices_in_range() {
    let (indices, boundary) = patch_topology(16);
    let n = boundary.len() as u32;
    for &i in &indices {
        assert!(i < n, "index {i} out of range (n={n})");
    }
}

#[test]
fn grid_mesh_is_well_formed() {
    let half = 100.0_f32;
    let p: Vec<[f32; 3]> = grid_points(4)
        .iter()
        .map(|&(i, j)| {
            let at = |n: u32| (n as f32 / 4.0 * 2.0 - 1.0) * half;
            [at(i), 0.0, at(j)]
        })
        .collect();
    let idx = grid_indices(4);
    assert_eq!(p.len(), 25);
    assert_eq!(idx.len(), 4 * 4 * 6);
    assert_eq!(p[0], [-100.0, 0.0, -100.0]);
    assert_eq!(p[24], [100.0, 0.0, 100.0]);
    assert!(idx.iter().all(|&i| (i as usize) < p.len()));
}

#[test]
fn patches_are_watertight() {
    let res = 5;
    let (indices, boundary) = patch_topology(res);
    let mut edges = HashMap::new();
    for t in indices.chunks_exact(3) {
        for e in [(t[0], t[1]), (t[1], t[2]), (t[2], t[0])] {
            assert_eq!(edges.insert(e, ()), None, "an edge is used twice");
        }
    }
    let open: Vec<(u32, u32)> =
        edges.keys().filter(|&&(a, b)| !edges.contains_key(&(b, a))).copied().collect();
    assert_eq!(open.len(), 4 * res as usize);
    assert!(open.iter().all(|&(a, b)| boundary[a as usize] && boundary[b as usize]));
}

#[test]
fn clipmap_fills_its_square() {
    for (block, levels) in [(2, 0), (2, 1), (4, 3), (8, 4)] {
        let mesh = clipmap_mesh(block, levels);
        let at = |i: u32| {
            let v = mesh.verts[i as usize];
            (v.ix as i64, v.iz as i64)
        };
        let doubled: i64 = mesh
            .indices
            .chunks_exact(3)
            .map(|t| {
                let (a, b, c) = (at(t[0]), at(t[1]), at(t[2]));
                (b.0 - a.0) * (c.1 - a.1) - (b.1 - a.1) * (c.0 - a.0)
            })
            .sum();
        let outer = block as i64 * (1 << levels);
        assert_eq!(doubled, 2 * (2 * outer) * (2 * outer));
        let reach = mesh.verts.iter().map(|v| v.ix.abs().max(v.iz.abs()) as i64).max();
        assert_eq!(reach, Some(outer));
    }
}

#[test]
fn smallest_grids_are_exact() {
    assert_eq!(grid_points(1), vec![(0, 0), (1, 0), (0, 1), (1, 1)]);
    assert_eq!(grid_indices(1), vec![0, 1, 2, 1, 3, 2]);
    let (indices, boundary) = patch_topology(1);
    assert_eq!(indices, vec![0, 2, 1, 1, 2, 3]);
    assert_eq!(boundary, vec![true; 4]);
    assert!(!patch_topology(2).1[4]);
}

#[test]
fn turning_triangles_over_twice_changes_nothing() {
    let mut idx = grid_indices(3);
    let first = idx.clone();
    reverse_winding(&mut idx);
    assert_eq!(&idx[..3], &[first[2], first[1], first[0]]);
    reverse_winding(&mut idx);
    assert_eq!(idx, first);
}

fn tri_area(pos: &[[f32; 3]], a: u32, b: u32, c: u32) -> f32 {
    let (pa, pb, pc) = (pos[a as usize], pos[b as usize], pos[c as usize]);
    let (ux, uz) = (pb[0] - pa[0], pb[2] - pa[2]);
    let (vx, vz) = (pc[0] - pa[0], pc[2] - pa[2]);
    0.5 * (ux * vz - uz * vx).abs()
}

#[test]
fn clipmap_is_watertight() {
    let block = 8;
    let c0 = 4.0_f32;
    let levels = 4;
    let mesh = clipmap_mesh(block, levels);
    let pos: Vec<[f32; 3]> =
        mesh.verts.iter().map(|v| [v.ix as f32 * c0, 0.0, v.iz as f32 * c0]).collect();
    let idx = mesh.indices;
    assert!(idx.len() % 3 == 0);
    let outer = (block * (1 << levels)) as f32 * c0;

    let mut edges: HashMap<(u32, u32), u32> = HashMap::new();
    for tri in idx.chunks_exact(3) {
        let [a, b, c] = [tri[0], tri[1], tri[2]];
        assert!(a != b && b != c && a != c, "degenerate index triangle");
        let area = tri_area(&pos, a, b, c);
        assert!(area > 1e-3, "near-degenerate triangle area {area}");
        for &(u, v) in &[(a, b), (b, c), (c, a)] {
            let key = if u < v { (u, v) } else { (v, u) };
            *edges.entry(key).or_insert(0) += 1;
        }
    }
    for (&(u, v), &count) in &edges {
        assert!(count <= 2, "non-manifold edge shared {count}× ");
        if count == 1 {
            let on_rim = |i: u32| {
                let p = pos[i as usize];
                (p[0].abs() - outer).abs() < 0.5 || (p[2].abs() - outer).abs() < 0.5
            };
            assert!(on_rim(u) && on_rim(v), "interior crack / T-junction edge");
        }
    }
}

#[test]
fn clipmap_sizes_are_exact() {
    let centre = clipmap_mesh(2, 0);
    assert_eq!(centre.verts.len(), 25);
    assert_eq!(centre.indices.len(), 16 * 6);
    assert_eq!(centre.verts[0], LatticeVert { ix: -2, iz: -2, step: 1 });
    let ring = clipmap_mesh(2, 1);
    assert_eq!(ring.indices.len(), 16 * 6 + 12 * 6 + 8 * 3);
    assert_eq!(clipmap_mesh(0, 3).verts.len(), 0);
    assert_eq!(clipmap_mesh(-2, 3).indices.len(), 0);
}

#[derive(Clone, Copy, Debug)]
struct Cx {
    re: f32,
    im: f32,
}

impl Cx {
    fn times(self, o: Cx) -> Cx {
        Cx { re: self.re * o.re - self.im * o.im, im: self.re * o.im + self.im * o.re }
    }

    fn plus(self, o: Cx) -> Cx {
        Cx { re: self.re + o.re, im: self.im + o.im }
    }

    fn minus(self, o: Cx) -> Cx {
        Cx { re: self.re - o.re, im: self.im - o.im }
    }
}

const ZERO: Cx = Cx { re: 0.0, im: 0.0 };

fn turn(ang: f32) -> Cx {
    Cx { re: ang.cos(), im: ang.sin() }
}

fn fft(a: &mut Vec<Cx>, inverse: bool) {
    let n = a.len();
    let sign = if inverse { 1.0 } else { -1.0 };
    bit_reverse(a, n.trailing_zeros());
    let mut half = 1;
    while 2 * half <= n {
        for (i, j, k) in butterflies(n, half) {
            let w = turn(sign * 2.0 * std::f32::consts::PI * k as f32 / (2 * half) as f32);
            let (u, v) = (a[i], a[j].times(w));
            a[i] = u.plus(v);
            a[j] = u.minus(v);
        }
        half *= 2;
    }
}

fn dft(a: &[Cx], inverse: bool) -> Vec<Cx> {
    let n = a.len();
    let sign = if inverse { 1.0 } else { -1.0 };
    (0..n)
        .map(|k| {
            let mut acc = ZERO;
            for (m, &x) in a.iter().enumerate() {
                let ang = sign * 2.0 * std::f32::consts::PI * (k * m) as f32 / n as f32;
                acc = acc.plus(x.times(turn(ang)));
            }
            acc
        })
        .collect()
}

#[test]
fn fft_matches_dft() {
    let n = 16;
    let mut a: Vec<Cx> = (0..n)
        .map(|i| Cx {
            re: ((i * 7 + 3) % 11) as f32 - 5.0,
            im: ((i * 5 + 1) % 9) as f32 - 4.0,
        })
        .collect();
    let reference = dft(&a, false);
    fft(&mut a, false);
    for (got, exp) in a.iter().zip(reference.iter()) {
        assert!((got.re - exp.re).abs() < 1e-3, "re {got:?} vs {exp:?}");
        assert!((got.im - exp.im).abs() < 1e-3, "im {got:?} vs {exp:?}");
    }
}

#[test]
fn forward_inverse_roundtrips() {
    let n = 32;
    let orig: Vec<Cx> =
        (0..n).map(|i| Cx { re: (i as f32).sin(), im: (i as f32 * 0.3).cos() }).collect();
    let mut a = orig.clone();
    fft(&mut a, false);
    fft(&mut a, true);
    for (got, exp) in a.iter().zip(orig.iter()) {
        assert!((got.re / n as f32 - exp.re).abs() < 1e-4);
        assert!((got.im / n as f32 - exp.im).abs() < 1e-4);
    }
}

fn fft2(grid: &mut [Cx], n: usize, inverse: bool) {
    for r in 0..n {
        let mut row = grid[r * n..r * n + n].to_vec();
        fft(&mut row, inverse);
        grid[r * n..r * n + n].copy_from_slice(&row);
    }
    for c in 0..n {
        let mut col: Vec<Cx> = (0..n).map(|r| grid[r * n + c]).collect();
        fft(&mut col, inverse);
        for r in 0..n {
            grid[r * n + c] = col[r];
        }
    }
}

#[test]
fn ifft2_roundtrips_a_delta() {
    let n = 8;
    let mut grid = vec![ZERO; n * n];
    grid[0] = Cx { re: 1.0, im: 0.0 };
    fft2(&mut grid, n, false);
    for g in &grid {
        assert!((g.re - 1.0).abs() < 1e-3 && g.im.abs() < 1e-3);
    }
    fft2(&mut grid, n, true);
    assert!((grid[0].re - (n * n) as f32).abs() < 1e-2);
    for g in &grid[1..] {
        assert!(g.re.abs() < 1e-2 && g.im.abs() < 1e-2);
    }
}

#[test]
fn reversal_undoes_itself() {
    assert_eq!(bit_reversal(3), vec![0, 4, 2, 6, 1, 5, 3, 7]);
    let mut a: Vec<u32> = (0..16).collect();
    bit_reverse(&mut a, 4);
    assert_eq!(a[1], 8);
    bit_reverse(&mut a, 4);
    assert_eq!(a, (0..16).collect::<Vec<u32>>());
}

#[test]
fn butterflies_pair_halves() {
    assert_eq!(butterflies(4, 1), vec![(0, 1, 0), (2, 3, 0)]);
    assert_eq!(butterflies(4, 2), vec![(0, 2, 0), (1, 3, 1)]);
}
