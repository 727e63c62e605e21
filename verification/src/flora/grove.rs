//! The trees around a point: which cells carry one, and which of them are drawn.
use vstd::prelude::*;

use crate::flora::scatter::{
    around, cell_hash, draw, hash, in_window, keep_nearest, may_grow, no_density_no_trees, stand, stand_of,
    unit, width, window_holds, Stand, MAX_TREES, WINDOW,
};
use crate::order::{sorted_one_way, sorts};

verus! {

/// A tree: its cell, and how it stands there.
#[derive(Clone, Copy, Debug, PartialEq, Eq)]
pub struct Tree {
    pub cell: (i64, i64),
    pub stand: Stand,
}

/// What is known of the place where the tree of a cell would stand.
#[derive(Clone, Copy, Debug, PartialEq, Eq)]
pub struct Ground {
    /// The share of the cells that carry a tree there, as a fraction of two to the 24th.
    pub share: u32,
    /// How far from the centre it is, as an ordered integer.
    pub distance: u64,
}

/// A tree stands there, and near enough.
pub open spec fn stands(cell: (i64, i64), ground: Ground, reach: u64) -> bool {
    draw(cell.0, cell.1) < ground.share && ground.distance <= reach
}

/// The tree of a cell.
pub open spec fn tree_of(cell: (i64, i64)) -> Tree {
    Tree { cell, stand: stand_of(cell.0, cell.1) }
}

/// The trees within reach of the first `n` cells, in order.
pub open spec fn standing(cells: Seq<(i64, i64)>, ground: Seq<Ground>, reach: u64, n: int) -> Seq<
    Tree,
>
    decreases n,
{
    if n <= 0 {
        Seq::empty()
    } else if stands(cells[n - 1], ground[n - 1], reach) {
        standing(cells, ground, reach, n - 1).push(tree_of(cells[n - 1]))
    } else {
        standing(cells, ground, reach, n - 1)
    }
}

/// How far away they are.
pub open spec fn distances(cells: Seq<(i64, i64)>, ground: Seq<Ground>, reach: u64, n: int) -> Seq<
    u64,
>
    decreases n,
{
    if n <= 0 {
        Seq::empty()
    } else if stands(cells[n - 1], ground[n - 1], reach) {
        distances(cells, ground, reach, n - 1).push(ground[n - 1].distance)
    } else {
        distances(cells, ground, reach, n - 1)
    }
}

/// `trees` are those to draw: all within reach, in their order, if they are few enough, else the
/// nearest, each after those that are nearer.
pub open spec fn planted(
    cells: Seq<(i64, i64)>,
    ground: Seq<Ground>,
    reach: u64,
    trees: Seq<Tree>,
) -> bool {
    let all = standing(cells, ground, reach, cells.len() as int);
    let far = distances(cells, ground, reach, cells.len() as int);
    if all.len() <= MAX_TREES {
        trees == all
    } else {
        exists|order: Seq<usize>| #[trigger]
            sorts(order, far) && trees == Seq::new(
                MAX_TREES as nat,
                |i: int| all[order[i] as int],
            )
    }
}

proof fn distances_fit(cells: Seq<(i64, i64)>, ground: Seq<Ground>, reach: u64, n: int)
    requires
        0 <= n,
    ensures
        standing(cells, ground, reach, n).len() == distances(cells, ground, reach, n).len() <= n,
    decreases n,
{
    if n > 0 {
        distances_fit(cells, ground, reach, n - 1);
    }
}

/// The same cells on the same ground give the same trees, in the same order.
pub proof fn groves_repeat(
    cells: Seq<(i64, i64)>,
    ground: Seq<Ground>,
    reach: u64,
    a: Seq<Tree>,
    b: Seq<Tree>,
)
    requires
        cells.len() <= usize::MAX,
        planted(cells, ground, reach, a),
        planted(cells, ground, reach, b),
    ensures
        a == b,
{
    let all = standing(cells, ground, reach, cells.len() as int);
    let far = distances(cells, ground, reach, cells.len() as int);
    distances_fit(cells, ground, reach, cells.len() as int);
    if all.len() > MAX_TREES {
        let x = choose|order: Seq<usize>| #[trigger]
            sorts(order, far) && a == Seq::new(MAX_TREES as nat, |i: int| all[order[i] as int]);
        let y = choose|order: Seq<usize>| #[trigger]
            sorts(order, far) && b == Seq::new(MAX_TREES as nat, |i: int| all[order[i] as int]);
        sorted_one_way(x, y, far);
    }
}

/// The trees to draw, out of the cells that may carry one and what is known of each: all within
/// reach, in their order, if they are few enough, else the nearest. Tells too how many were
/// dropped.
pub fn plant(cells: &Vec<(i64, i64)>, ground: &Vec<Ground>, reach: u64) -> (out: (
    Vec<Tree>,
    usize,
))
    requires
        cells.len() == ground.len(),
    ensures
        planted(cells@, ground@, reach, out.0@),
        out.1 == standing(cells@, ground@, reach, cells.len() as int).len() - out.0.len(),
{
    let mut all: Vec<Tree> = Vec::new();
    let mut far: Vec<u64> = Vec::new();
    let mut n: usize = 0;
    while n < cells.len()
        invariant
            n <= cells.len() == ground.len(),
            all@ == standing(cells@, ground@, reach, n as int),
            far@ == distances(cells@, ground@, reach, n as int),
            all.len() == far.len(),
        decreases cells.len() - n,
    {
        let (i, j) = cells[n];
        let g = ground[n];
        if unit(hash(i, j, 1)) < g.share && g.distance <= reach {
            all.push(Tree { cell: (i, j), stand: stand(i, j) });
            far.push(g.distance);
        }
        n = n + 1;
    }
    let keep: Vec<usize> = keep_nearest(&far);
    let mut trees: Vec<Tree> = Vec::new();
    let mut k: usize = 0;
    while k < keep.len()
        invariant
            k <= keep.len(),
            all.len() == far.len(),
            far.len() <= MAX_TREES ==> keep@ == Seq::new(far.len() as nat, |i: int| i as usize),
            far.len() > MAX_TREES ==> exists|order: Seq<usize>|
                #[trigger] sorts(order, far@) && keep@ == order.take(MAX_TREES as int),
            trees@ == Seq::new(k as nat, |i: int| all[keep[i] as int]),
        decreases keep.len() - k,
    {
        proof {
            assert(keep[k as int] < all.len());
        }
        trees.push(all[keep[k]]);
        k = k + 1;
        assert(trees@ =~= Seq::new(k as nat, |i: int| all[keep[i] as int]));
    }
    proof {
        if far.len() <= MAX_TREES {
            assert(trees@ =~= all@);
        } else {
            let order = choose|order: Seq<usize>|
                #[trigger] sorts(order, far@) && keep@ == order.take(MAX_TREES as int);
            assert(trees@ =~= Seq::new(MAX_TREES as nat, |i: int| all[order[i] as int]));
        }
    }
    let dropped: usize = all.len() - trees.len();
    (trees, dropped)
}

/// A tree is in the list exactly if it is that of a listed cell where one stands.
pub proof fn standing_holds(
    cells: Seq<(i64, i64)>,
    ground: Seq<Ground>,
    reach: u64,
    n: int,
    tree: Tree,
)
    requires
        0 <= n <= cells.len(),
    ensures
        standing(cells, ground, reach, n).contains(tree) <==> exists|k: int|
            0 <= k < n && tree == tree_of(cells[k]) && stands(
                #[trigger] cells[k],
                ground[k],
                reach,
            ),
    decreases n,
{
    if n > 0 {
        standing_holds(cells, ground, reach, n - 1, tree);
        let front = standing(cells, ground, reach, n - 1);
        let all = standing(cells, ground, reach, n);
        if stands(cells[n - 1], ground[n - 1], reach) {
            assert(all[front.len() as int] == tree_of(cells[n - 1]));
            if front.contains(tree) {
                let k = choose|k: int| 0 <= k < front.len() && front[k] == tree;
                assert(all[k] == tree);
            }
            if all.contains(tree) && tree != tree_of(cells[n - 1]) {
                let k = choose|k: int| 0 <= k < all.len() && all[k] == tree;
                assert(front[k] == tree);
            }
        }
    }
}

/// No more trees are drawn than the most. Every one stands within reach on a listed cell, as its
/// cell alone has it: turned by less than a full turn, and between 85 and 125 hundredths of its
/// size.
pub proof fn trees_are_bounded(
    cells: Seq<(i64, i64)>,
    ground: Seq<Ground>,
    reach: u64,
    trees: Seq<Tree>,
    tree: Tree,
)
    requires
        planted(cells, ground, reach, trees),
        trees.contains(tree),
    ensures
        trees.len() <= 16_000,
        tree.stand == stand_of(tree.cell.0, tree.cell.1),
        tree.stand.yaw < 0x100_0000,
        85 * 0x100_0000 <= tree.stand.scale < 125 * 0x100_0000,
        exists|k: int|
            0 <= k < cells.len() && #[trigger] cells[k] == tree.cell && ground[k].distance <= reach,
{
    let all = standing(cells, ground, reach, cells.len() as int);
    let far = distances(cells, ground, reach, cells.len() as int);
    distances_fit(cells, ground, reach, cells.len() as int);
    if all.len() > MAX_TREES {
        let order = choose|order: Seq<usize>| #[trigger]
            sorts(order, far) && trees == Seq::new(
                MAX_TREES as nat,
                |i: int| all[order[i] as int],
            );
        let k = choose|k: int| 0 <= k < trees.len() && trees[k] == tree;
        assert(order[k] < far.len());
        assert(all[order[k] as int] == tree);
    }
    assert(all.contains(tree));
    standing_holds(cells, ground, reach, cells.len() as int, tree);
}

/// Without density no trees are drawn.
pub proof fn no_density_no_grove(
    row: int,
    column: int,
    columns: int,
    turn: int,
    pole: i64,
    ground: Seq<Ground>,
    reach: u64,
    trees: Seq<Tree>,
)
    requires
        planted(around(row, column, columns, turn, pole, 0), ground, reach, trees),
    ensures
        trees == Seq::<Tree>::empty(),
{
    no_density_no_trees(
        row - WINDOW,
        column - columns,
        2 * WINDOW + 1,
        width(columns, turn),
        turn,
        pole,
    );
}

/// A place to look around from: the centre's row and column, how many columns to either side, and
/// how far from it the tree of each cell is.
pub struct Lookout {
    pub row: int,
    pub column: int,
    pub columns: int,
    pub distance: spec_fn((i64, i64)) -> u64,
}

impl Lookout {
    /// The cells that are looked at.
    pub open spec fn cells(self, turn: int, pole: i64, density: u32) -> Seq<(i64, i64)> {
        around(self.row, self.column, self.columns, turn, pole, density)
    }

    /// What is known of their ground, where `share` says how well trees grow.
    pub open spec fn ground(
        self,
        turn: int,
        pole: i64,
        density: u32,
        share: spec_fn((i64, i64)) -> u32,
    ) -> Seq<Ground> {
        self.cells(turn, pole, density).map_values(
            |c: (i64, i64)| Ground { share: share(c), distance: (self.distance)(c) },
        )
    }

    /// The trees within reach.
    pub open spec fn trees(
        self,
        turn: int,
        pole: i64,
        density: u32,
        share: spec_fn((i64, i64)) -> u32,
        reach: u64,
    ) -> Seq<Tree> {
        let cells = self.cells(turn, pole, density);
        standing(cells, self.ground(turn, pole, density, share), reach, cells.len() as int)
    }

    /// The row is one that can be looked around from.
    pub open spec fn valid(self) -> bool {
        i64::MIN + WINDOW <= self.row < i64::MAX - WINDOW && 0 <= self.columns
    }
}

/// The trees within reach are those of the window's cells where a tree may grow, does, and is near
/// enough.
pub proof fn trees_hold(
    at: Lookout,
    turn: int,
    pole: i64,
    density: u32,
    share: spec_fn((i64, i64)) -> u32,
    reach: u64,
    cell: (i64, i64),
)
    requires
        at.valid(),
        0 < turn <= i64::MAX,
    ensures
        at.trees(turn, pole, density, share, reach).contains(tree_of(cell)) <==> {
            &&& in_window(cell, at.row, at.column, at.columns, turn)
            &&& may_grow(cell.0, cell.1, pole, density)
            &&& stands(cell, Ground { share: share(cell), distance: (at.distance)(cell) }, reach)
        },
{
    let cells = at.cells(turn, pole, density);
    let ground = at.ground(turn, pole, density, share);
    window_holds(at.row, at.column, at.columns, turn, pole, density, cell);
    standing_holds(cells, ground, reach, cells.len() as int, tree_of(cell));
    if cells.contains(cell) {
        let k = choose|k: int| 0 <= k < cells.len() && cells[k] == cell;
        assert(ground[k] == (Ground { share: share(cell), distance: (at.distance)(cell) }));
    }
}

/// Walking never reshuffles the grove: a tree of one place that is in the window and within reach
/// of another is one of the other's too, standing as before. Where there are few enough, these
/// are the trees that are drawn.
pub proof fn walking_never_reshuffles(
    here: Lookout,
    there: Lookout,
    turn: int,
    pole: i64,
    density: u32,
    share: spec_fn((i64, i64)) -> u32,
    reach: u64,
    tree: Tree,
)
    requires
        here.valid(),
        there.valid(),
        0 < turn <= i64::MAX,
        here.trees(turn, pole, density, share, reach).contains(tree),
        in_window(tree.cell, there.row, there.column, there.columns, turn),
        (there.distance)(tree.cell) <= reach,
    ensures
        there.trees(turn, pole, density, share, reach).contains(tree),
{
    let cells = here.cells(turn, pole, density);
    let ground = here.ground(turn, pole, density, share);
    standing_holds(cells, ground, reach, cells.len() as int, tree);
    trees_hold(here, turn, pole, density, share, reach, tree.cell);
    trees_hold(there, turn, pole, density, share, reach, tree.cell);
}

/// A tree stands in a listed cell exactly if the cell's draw lies below the share of cells that
/// carry one there, and the place is no farther away than the reach.
pub proof fn trees_stand_where_they_grow(
    cells: Seq<(i64, i64)>,
    ground: Seq<Ground>,
    reach: u64,
    k: int,
)
    requires
        0 <= k < cells.len(),
        forall|j: int| 0 <= j < cells.len() && j != k ==> #[trigger] cells[j] != cells[k],
    ensures
        standing(cells, ground, reach, cells.len() as int).contains(
            Tree { cell: cells[k], stand: stand_of(cells[k].0, cells[k].1) },
        ) <==> cell_hash(cells[k].0, cells[k].1, 1) / 0x100_0000_0000 < ground[k].share
            && ground[k].distance <= reach,
{
    let tree = tree_of(cells[k]);
    standing_holds(cells, ground, reach, cells.len() as int, tree);
    if exists|j: int|
        0 <= j < cells.len() && tree == tree_of(cells[j]) && stands(#[trigger] cells[j], ground[j], reach) {
        let j = choose|j: int|
            0 <= j < cells.len() && tree == tree_of(cells[j]) && stands(
                #[trigger] cells[j],
                ground[j],
                reach,
            );
        assert(cells[j] == cells[k]);
        assert(j == k);
    }
    if stands(cells[k], ground[k], reach) {
        assert(tree == tree_of(cells[k]));
    }
}

} // verus!
