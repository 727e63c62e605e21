//! What stands round a plant on show: sky, ground, and the shadow at its foot.
use vstd::prelude::*;

verus! {

/// A part of the stage.
#[derive(Clone, Copy, Debug, PartialEq, Eq, Structural)]
pub enum Backdrop {
    Sky,
    Ground,
    Shadow,
}

/// The parts in the order in which they are drawn: each lies over those before it, and the
/// plant comes after them.
pub open spec fn backdrop_order() -> Seq<Backdrop> {
    seq![Backdrop::Sky, Backdrop::Ground, Backdrop::Shadow]
}

/// The parts in the order in which they are drawn.
pub fn backdrops() -> (list: Vec<Backdrop>)
    ensures
        list@ == backdrop_order(),
{
    let list: Vec<Backdrop> = vec![Backdrop::Sky, Backdrop::Ground, Backdrop::Shadow];
    assert(list@ =~= backdrop_order());
    list
}

/// A corner of a quad, in halves of its side: left before right, near before far.
pub open spec fn corner(n: int) -> (int, int) {
    (if n % 2 == 0 {
        -1
    } else {
        1
    }, if n / 2 == 0 {
        -1
    } else {
        1
    })
}

/// The triangles of a quad.
pub open spec fn quad_triangles() -> Seq<u32> {
    seq![0u32, 1, 2, 2, 1, 3]
}

/// The corner of a quad: across and along, each negative or positive.
pub fn quad_corner(n: u32) -> (c: (i32, i32))
    requires
        n < 4,
    ensures
        (c.0 as int, c.1 as int) == corner(n as int),
{
    let across: i32 = if n % 2 == 0 {
        -1
    } else {
        1
    };
    let along: i32 = if n / 2 == 0 {
        -1
    } else {
        1
    };
    (across, along)
}

/// The triangles of a quad.
pub fn quad_indices() -> (list: Vec<u32>)
    ensures
        list@ == quad_triangles(),
{
    let list: Vec<u32> = vec![0, 1, 2, 2, 1, 3];
    assert(list@ =~= quad_triangles());
    list
}

/// Twice the area of a triangle of corners, positive if they go counter-clockwise.
pub open spec fn turn(a: (int, int), b: (int, int), c: (int, int)) -> int {
    (b.0 - a.0) * (c.1 - a.1) - (b.1 - a.1) * (c.0 - a.0)
}

proof fn product(x: int, y: int)
    ensures
        x == 0 || y == 0 ==> x * y == 0,
        x == 2 && y == 2 ==> x * y == 4,
        x == -2 && y == 2 ==> x * y == -4,
{
}

/// Both triangles of a quad go counter-clockwise, and together they cover it.
pub proof fn quad_is_covered()
    ensures
        ({
            let t = quad_triangles();
            let first = turn(corner(t[0] as int), corner(t[1] as int), corner(t[2] as int));
            let second = turn(corner(t[3] as int), corner(t[4] as int), corner(t[5] as int));
            first > 0 && second > 0 && first + second == 8
        }),
{
    assert(corner(0) == (-1int, -1int));
    assert(corner(1) == (1int, -1int));
    assert(corner(2) == (-1int, 1int));
    assert(corner(3) == (1int, 1int));
    product(2, 2);
    product(0, 0);
    product(2, 0);
    product(-2, 2);
}

} // verus!
