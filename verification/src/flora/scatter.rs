//! Which cells of the ground carry a tree.
//!
//! Everything about a cell is a hash of its place, so what stands where does not depend on
//! where one looks from.
use vstd::arithmetic::div_mod::{
    lemma_add_mod_noop_right, lemma_fundamental_div_mod, lemma_fundamental_div_mod_converse,
    lemma_mod_bound, lemma_mul_mod_noop_left, lemma_mul_mod_noop_right, lemma_small_mod,
};
use vstd::prelude::*;

use crate::order::{nearest_first, sorts};

verus! {

/// Trees that are drawn at most.
pub const MAX_TREES: usize = 16000;

/// Rows to each side of the centre that are looked at.
pub const WINDOW: i64 = 61;

/// The hash of a cell and a salt: the three are scaled and joined, then mixed in three
/// rounds.
pub open spec fn cell_hash(cell_i: i64, cell_j: i64, salt: u64) -> u64 {
    let a = (cell_i as u64).wrapping_mul(0x9E3779B97F4A7C15) ^ (cell_j as u64).wrapping_mul(
        0xC2B2AE3D27D4EB4F,
    ) ^ salt.wrapping_mul(0x165667B19E3779F9);
    let b = (a ^ (a >> 30)).wrapping_mul(0xBF58476D1CE4E5B9);
    let c = (b ^ (b >> 27)).wrapping_mul(0x94D049BB133111EB);
    c ^ (c >> 31)
}

/// The hash of a cell and a salt.
pub fn hash(cell_i: i64, cell_j: i64, salt: u64) -> (h: u64)
    ensures
        h == cell_hash(cell_i, cell_j, salt),
{
    let mut x: u64 = (cell_i as u64).wrapping_mul(0x9E3779B97F4A7C15) ^ (
    cell_j as u64).wrapping_mul(0xC2B2AE3D27D4EB4F) ^ salt.wrapping_mul(0x165667B19E3779F9);
    x = x ^ (x >> 30);
    x = x.wrapping_mul(0xBF58476D1CE4E5B9);
    x = x ^ (x >> 27);
    x = x.wrapping_mul(0x94D049BB133111EB);
    x ^ (x >> 31)
}

/// An odd factor can be divided out of a product of machine words again: `back` is its inverse.
proof fn factor_comes_out(x: u64, y: u64, factor: u64, back: u64)
    requires
        factor * back % 0x1_0000_0000_0000_0000 == 1,
        x.wrapping_mul(factor) == y.wrapping_mul(factor),
    ensures
        x == y,
{
    comes_back(x, factor, back);
    comes_back(y, factor, back);
}

proof fn comes_back(x: u64, factor: u64, back: u64)
    requires
        factor * back % 0x1_0000_0000_0000_0000 == 1,
    ensures
        x.wrapping_mul(factor) as int * back % 0x1_0000_0000_0000_0000 == x,
{
    let m = 0x1_0000_0000_0000_0000int;
    let (a, f, b) = (x as int, factor as int, back as int);
    assert(x.wrapping_mul(factor) == a * f % m);
    lemma_mul_mod_noop_left(a * f, b, m);
    assert((a * f) * b == a * (f * b)) by (nonlinear_arith);
    lemma_mul_mod_noop_right(a, f * b, m);
    assert(a * 1 == a);
    lemma_small_mod(x as nat, m as nat);
}

proof fn mixing_loses_nothing(a: u64, b: u64)
    requires
        ({
            let a1 = (a ^ (a >> 30)).wrapping_mul(0xBF58476D1CE4E5B9);
            let a2 = (a1 ^ (a1 >> 27)).wrapping_mul(0x94D049BB133111EB);
            let b1 = (b ^ (b >> 30)).wrapping_mul(0xBF58476D1CE4E5B9);
            let b2 = (b1 ^ (b1 >> 27)).wrapping_mul(0x94D049BB133111EB);
            a2 ^ (a2 >> 31) == b2 ^ (b2 >> 31)
        }),
    ensures
        a == b,
{
    let a0 = a ^ (a >> 30);
    let b0 = b ^ (b >> 30);
    let a1 = a0.wrapping_mul(0xBF58476D1CE4E5B9);
    let b1 = b0.wrapping_mul(0xBF58476D1CE4E5B9);
    let a3 = a1 ^ (a1 >> 27);
    let b3 = b1 ^ (b1 >> 27);
    let a2 = a3.wrapping_mul(0x94D049BB133111EB);
    let b2 = b3.wrapping_mul(0x94D049BB133111EB);
    assert(a2 ^ (a2 >> 31) == b2 ^ (b2 >> 31) ==> a2 == b2) by (bit_vector);
    factor_comes_out(a3, b3, 0x94D049BB133111EB, 0x319642B2D24D8EC3);
    assert(a1 ^ (a1 >> 27) == b1 ^ (b1 >> 27) ==> a1 == b1) by (bit_vector);
    factor_comes_out(a0, b0, 0xBF58476D1CE4E5B9, 0x96DE1B173F119089);
    assert(a ^ (a >> 30) == b ^ (b >> 30) ==> a == b) by (bit_vector);
}

/// Two columns of a row never share a hash.
pub proof fn columns_have_hashes_of_their_own(i: i64, j: i64, k: i64, salt: u64)
    requires
        cell_hash(i, j, salt) == cell_hash(i, k, salt),
    ensures
        j == k,
{
    let p = (i as u64).wrapping_mul(0x9E3779B97F4A7C15);
    let q = salt.wrapping_mul(0x165667B19E3779F9);
    let x = (j as u64).wrapping_mul(0xC2B2AE3D27D4EB4F);
    let y = (k as u64).wrapping_mul(0xC2B2AE3D27D4EB4F);
    mixing_loses_nothing(p ^ x ^ q, p ^ y ^ q);
    assert(p ^ x ^ q == p ^ y ^ q ==> x == y) by (bit_vector);
    factor_comes_out(j as u64, k as u64, 0xC2B2AE3D27D4EB4F, 0x0BA79078168D4BAF);
    assert(j as u64 == k as u64 ==> j == k) by (bit_vector);
}

/// Two rows of a column never share a hash.
pub proof fn rows_have_hashes_of_their_own(i: i64, k: i64, j: i64, salt: u64)
    requires
        cell_hash(i, j, salt) == cell_hash(k, j, salt),
    ensures
        i == k,
{
    let p = (j as u64).wrapping_mul(0xC2B2AE3D27D4EB4F);
    let q = salt.wrapping_mul(0x165667B19E3779F9);
    let x = (i as u64).wrapping_mul(0x9E3779B97F4A7C15);
    let y = (k as u64).wrapping_mul(0x9E3779B97F4A7C15);
    mixing_loses_nothing(x ^ p ^ q, y ^ p ^ q);
    assert(x ^ p ^ q == y ^ p ^ q ==> x == y) by (bit_vector);
    factor_comes_out(i as u64, k as u64, 0x9E3779B97F4A7C15, 0xF1DE83E19937733D);
    assert(i as u64 == k as u64 ==> i == k) by (bit_vector);
}

/// Two salts never give a cell one hash.
pub proof fn salts_have_hashes_of_their_own(i: i64, j: i64, a: u64, b: u64)
    requires
        cell_hash(i, j, a) == cell_hash(i, j, b),
    ensures
        a == b,
{
    let p = (i as u64).wrapping_mul(0x9E3779B97F4A7C15);
    let q = (j as u64).wrapping_mul(0xC2B2AE3D27D4EB4F);
    let x = a.wrapping_mul(0x165667B19E3779F9);
    let y = b.wrapping_mul(0x165667B19E3779F9);
    mixing_loses_nothing(p ^ q ^ x, p ^ q ^ y);
    assert(p ^ q ^ x == p ^ q ^ y ==> x == y) by (bit_vector);
    factor_comes_out(a, b, 0x165667B19E3779F9, 0xE9E9F4C41D6DF849);
}

/// A hash by its steps: the three products, what they are joined to, and each round of mixing.
proof fn hash_by_steps(
    cell: (i64, i64, u64),
    products: (u64, u64, u64),
    a: (u64, u64),
    b: (u64, u64),
    c: (u64, u64),
)
    requires
        cell.0 >= 0,
        cell.1 >= 0,
        cell.0 * 0x9E3779B97F4A7C15 % 0x1_0000_0000_0000_0000 == products.0,
        cell.1 * 0xC2B2AE3D27D4EB4F % 0x1_0000_0000_0000_0000 == products.1,
        cell.2 * 0x165667B19E3779F9 % 0x1_0000_0000_0000_0000 == products.2,
        products.0 ^ products.1 ^ products.2 == a.0,
        a.0 ^ (a.0 >> 30) == a.1,
        a.1 * 0xBF58476D1CE4E5B9 % 0x1_0000_0000_0000_0000 == b.0,
        b.0 ^ (b.0 >> 27) == b.1,
        b.1 * 0x94D049BB133111EB % 0x1_0000_0000_0000_0000 == c.0,
        c.0 ^ (c.0 >> 31) == c.1,
    ensures
        cell_hash(cell.0, cell.1, cell.2) == c.1,
{
}

proof fn hash_of_0_0_salted_1()
    ensures
        cell_hash(0, 0, 1) == 0xB39362CB946013E3u64,
{
    assert(0x0000000000000000u64 ^ 0x0000000000000000u64 ^ 0x165667B19E3779F9u64 == 0x165667B19E3779F9u64 && 0x165667B19E3779F9u64 ^ (0x165667B19E3779F9u64 >> 30) == 0x165667B1C76EE73Fu64 && 0x665BA5C32C1C7787u64 ^ (0x665BA5C32C1C7787u64 >> 27) == 0x665BA5CFE768CFE2u64 && 0xB39362CAF346D676u64
        ^ (0xB39362CAF346D676u64 >> 31) == 0xB39362CB946013E3u64) by (bit_vector);
    hash_by_steps(
        (0, 0, 1),
        (0x0000000000000000u64, 0x0000000000000000u64, 0x165667B19E3779F9u64),
        (0x165667B19E3779F9u64, 0x165667B1C76EE73Fu64),
        (0x665BA5C32C1C7787u64, 0x665BA5CFE768CFE2u64),
        (0xB39362CAF346D676u64, 0xB39362CB946013E3u64),
    );
}

proof fn hash_of_0_0_salted_2()
    ensures
        cell_hash(0, 0, 2) == 0xFBF70F510E50A076u64,
{
    assert(0x0000000000000000u64 ^ 0x0000000000000000u64 ^ 0x2CACCF633C6EF3F2u64 == 0x2CACCF633C6EF3F2u64 && 0x2CACCF633C6EF3F2u64 ^ (0x2CACCF633C6EF3F2u64 >> 30) == 0x2CACCF638EDDCE7Eu64 && 0xCCB74B865838EF0Eu64 ^ (0xCCB74B865838EF0Eu64 >> 27) == 0xCCB74B9FCED19FC5u64 && 0xFBF70F50F9BEBED7u64
        ^ (0xFBF70F50F9BEBED7u64 >> 31) == 0xFBF70F510E50A076u64) by (bit_vector);
    hash_by_steps(
        (0, 0, 2),
        (0x0000000000000000u64, 0x0000000000000000u64, 0x2CACCF633C6EF3F2u64),
        (0x2CACCF633C6EF3F2u64, 0x2CACCF638EDDCE7Eu64),
        (0xCCB74B865838EF0Eu64, 0xCCB74B9FCED19FC5u64),
        (0xFBF70F50F9BEBED7u64, 0xFBF70F510E50A076u64),
    );
}

proof fn hash_of_0_0_salted_3()
    ensures
        cell_hash(0, 0, 3) == 0x7F3BACCF2E5F41AAu64,
{
    assert(0x0000000000000000u64 ^ 0x0000000000000000u64 ^ 0x43033714DAA66DEBu64 == 0x43033714DAA66DEBu64 && 0x43033714DAA66DEBu64 ^ (0x43033714DAA66DEBu64 >> 30) == 0x43033715D6AAB1B8u64 && 0xDDBEE69D3A3405F8u64 ^ (0xDDBEE69D3A3405F8u64 >> 27) == 0xDDBEE6868DE8D65Fu64 && 0x7F3BACCFD0281835u64
        ^ (0x7F3BACCFD0281835u64 >> 31) == 0x7F3BACCF2E5F41AAu64) by (bit_vector);
    hash_by_steps(
        (0, 0, 3),
        (0x0000000000000000u64, 0x0000000000000000u64, 0x43033714DAA66DEBu64),
        (0x43033714DAA66DEBu64, 0x43033715D6AAB1B8u64),
        (0xDDBEE69D3A3405F8u64, 0xDDBEE6868DE8D65Fu64),
        (0x7F3BACCFD0281835u64, 0x7F3BACCF2E5F41AAu64),
    );
}

proof fn hash_of_0_0_salted_4()
    ensures
        cell_hash(0, 0, 4) == 0xF39FE7F084BD4746u64,
{
    assert(0x0000000000000000u64 ^ 0x0000000000000000u64 ^ 0x59599EC678DDE7E4u64 == 0x59599EC678DDE7E4u64 && 0x59599EC678DDE7E4u64 ^ (0x59599EC678DDE7E4u64 >> 30) == 0x59599EC71DBB9CFDu64 && 0x58C6DE79CD56C3D5u64 ^ (0x58C6DE79CD56C3D5u64 >> 27) == 0x58C6DE72D58D0CECu64 && 0xF39FE7F1638288A4u64
        ^ (0xF39FE7F1638288A4u64 >> 31) == 0xF39FE7F084BD4746u64) by (bit_vector);
    hash_by_steps(
        (0, 0, 4),
        (0x0000000000000000u64, 0x0000000000000000u64, 0x59599EC678DDE7E4u64),
        (0x59599EC678DDE7E4u64, 0x59599EC71DBB9CFDu64),
        (0x58C6DE79CD56C3D5u64, 0x58C6DE72D58D0CECu64),
        (0xF39FE7F1638288A4u64, 0xF39FE7F084BD4746u64),
    );
}

proof fn hash_of_0_0_salted_5()
    ensures
        cell_hash(0, 0, 5) == 0x3C2C7B59EA1987BAu64,
{
    assert(0x0000000000000000u64 ^ 0x0000000000000000u64 ^ 0x6FB00678171561DDu64 == 0x6FB00678171561DDu64 && 0x6FB00678171561DDu64 ^ (0x6FB00678171561DDu64 >> 30) == 0x6FB00679A9D5783Du64 && 0x9B233B1672267515u64 ^ (0x9B233B1672267515u64 >> 27) == 0x9B233B05164117DBu64 && 0x3C2C7B5992417109u64
        ^ (0x3C2C7B5992417109u64 >> 31) == 0x3C2C7B59EA1987BAu64) by (bit_vector);
    hash_by_steps(
        (0, 0, 5),
        (0x0000000000000000u64, 0x0000000000000000u64, 0x6FB00678171561DDu64),
        (0x6FB00678171561DDu64, 0x6FB00679A9D5783Du64),
        (0x9B233B1672267515u64, 0x9B233B05164117DBu64),
        (0x3C2C7B5992417109u64, 0x3C2C7B59EA1987BAu64),
    );
}

proof fn hash_of_0_1_salted_1()
    ensures
        cell_hash(0, 1, 1) == 0x0F02F0FD2571D374u64,
{
    assert(0x0000000000000000u64 ^ 0xC2B2AE3D27D4EB4Fu64 ^ 0x165667B19E3779F9u64 == 0xD4E4C98CB9E392B6u64 && 0xD4E4C98CB9E392B6u64 ^ (0xD4E4C98CB9E392B6u64 >> 30) == 0xD4E4C98FEA70B484u64 && 0x60E1FE0A727C8764u64 ^ (0x60E1FE0A727C8764u64 >> 27) == 0x60E1FE066E43462Au64 && 0x0F02F0FD3B74328Eu64
        ^ (0x0F02F0FD3B74328Eu64 >> 31) == 0x0F02F0FD2571D374u64) by (bit_vector);
    hash_by_steps(
        (0, 1, 1),
        (0x0000000000000000u64, 0xC2B2AE3D27D4EB4Fu64, 0x165667B19E3779F9u64),
        (0xD4E4C98CB9E392B6u64, 0xD4E4C98FEA70B484u64),
        (0x60E1FE0A727C8764u64, 0x60E1FE066E43462Au64),
        (0x0F02F0FD3B74328Eu64, 0x0F02F0FD2571D374u64),
    );
}

proof fn hash_of_0_1_salted_4()
    ensures
        cell_hash(0, 1, 4) == 0xB794CE5FBFDEE016u64,
{
    assert(0x0000000000000000u64 ^ 0xC2B2AE3D27D4EB4Fu64 ^ 0x59599EC678DDE7E4u64 == 0x9BEB30FB5F090CABu64 && 0x9BEB30FB5F090CABu64 ^ (0x9BEB30FB5F090CABu64 >> 30) == 0x9BEB30F930A5CF46u64 && 0x1C2C6DBEBC946796u64 ^ (0x1C2C6DBEBC946796u64 >> 27) == 0x1C2C6DBD3919D041u64 && 0xB794CE5ED0F77CABu64
        ^ (0xB794CE5ED0F77CABu64 >> 31) == 0xB794CE5FBFDEE016u64) by (bit_vector);
    hash_by_steps(
        (0, 1, 4),
        (0x0000000000000000u64, 0xC2B2AE3D27D4EB4Fu64, 0x59599EC678DDE7E4u64),
        (0x9BEB30FB5F090CABu64, 0x9BEB30F930A5CF46u64),
        (0x1C2C6DBEBC946796u64, 0x1C2C6DBD3919D041u64),
        (0xB794CE5ED0F77CABu64, 0xB794CE5FBFDEE016u64),
    );
}

proof fn hash_of_3_5_salted_1()
    ensures
        cell_hash(3, 5, 1) == 0x6D153171B8CA641Du64,
{
    assert(0xDAA66D2C7DDF743Fu64 ^ 0xCD7D6731C728988Bu64 ^ 0x165667B19E3779F9u64 == 0x018D6DAC24C0954Du64 && 0x018D6DAC24C0954Du64 ^ (0x018D6DAC24C0954Du64 >> 30) == 0x018D6DAC22F523FDu64 && 0x24C4ACA745AC52D5u64 ^ (0x24C4ACA745AC52D5u64 >> 27) == 0x24C4ACA3DD39C63Du64 && 0x6D15317162E006FFu64
        ^ (0x6D15317162E006FFu64 >> 31) == 0x6D153171B8CA641Du64) by (bit_vector);
    hash_by_steps(
        (3, 5, 1),
        (0xDAA66D2C7DDF743Fu64, 0xCD7D6731C728988Bu64, 0x165667B19E3779F9u64),
        (0x018D6DAC24C0954Du64, 0x018D6DAC22F523FDu64),
        (0x24C4ACA745AC52D5u64, 0x24C4ACA3DD39C63Du64),
        (0x6D15317162E006FFu64, 0x6D153171B8CA641Du64),
    );
}

/// Some draws as numbers.
pub proof fn known_draws()
    ensures
        cell_hash(0, 0, 1) / 0x100_0000_0000 == 11768674,
        cell_hash(0, 0, 2) / 0x100_0000_0000 == 16512783,
        cell_hash(0, 0, 3) / 0x100_0000_0000 == 8338348,
        cell_hash(0, 0, 4) / 0x100_0000_0000 == 15966183,
        cell_hash(0, 0, 5) / 0x100_0000_0000 == 3943547,
        cell_hash(0, 1, 1) / 0x100_0000_0000 == 983792,
        cell_hash(0, 1, 4) / 0x100_0000_0000 == 12031182,
        cell_hash(3, 5, 1) / 0x100_0000_0000 == 7148849,
{
    hash_of_0_0_salted_1();
    hash_of_0_0_salted_2();
    hash_of_0_0_salted_3();
    hash_of_0_0_salted_4();
    hash_of_0_0_salted_5();
    hash_of_0_1_salted_1();
    hash_of_0_1_salted_4();
    hash_of_3_5_salted_1();
}

/// The draw of a hash: its top 24 bits, a fraction of two to the 24th.
pub fn unit(h: u64) -> (u: u32)
    ensures
        u == h / 0x100_0000_0000,
        u < 0x100_0000,
{
    proof {
        assert(h >> 40 == h / 0x100_0000_0000 && h >> 40 < 0x100_0000) by (bit_vector);
    }
    (h >> 40) as u32
}

/// The draw that decides whether a cell carries a tree.
pub open spec fn draw(cell_i: i64, cell_j: i64) -> int {
    cell_hash(cell_i, cell_j, 1) as int / 0x100_0000_0000
}

/// The cell may carry a tree: it is not at a pole and its draw lies below the density.
pub open spec fn may_grow(cell_i: i64, cell_j: i64, pole: i64, density: u32) -> bool {
    -pole < cell_i < pole && draw(cell_i, cell_j) < density
}

/// The column that a count of columns around the planet comes to: after `turn` of them one is back.
/// Columns count from the zero meridian, up to half a turn to either side.
pub open spec fn wrapped(x: int, turn: int) -> int {
    (x + turn / 2) % turn - turn / 2
}

/// Columns lie within half a turn of the zero meridian, and one that does keeps its number.
pub proof fn near_columns_keep_their_number(x: int, turn: int)
    requires
        turn > 0,
    ensures
        -(turn / 2) <= wrapped(x, turn) < turn - turn / 2,
        -(turn / 2) <= x < turn - turn / 2 ==> wrapped(x, turn) == x,
{
    lemma_mod_bound(x + turn / 2, turn);
    if -(turn / 2) <= x < turn - turn / 2 {
        lemma_small_mod((x + turn / 2) as nat, turn as nat);
    }
}

/// The first `n` cells of row `i` from column `j0` on that may carry a tree.
pub open spec fn grown(i: int, j0: int, n: int, turn: int, pole: i64, density: u32) -> Seq<
    (i64, i64),
>
    decreases n,
{
    if n <= 0 {
        Seq::empty()
    } else {
        let front = grown(i, j0, n - 1, turn, pole, density);
        let j = wrapped(j0 + n - 1, turn) as i64;
        if may_grow(i as i64, j, pole, density) {
            front.push((i as i64, j))
        } else {
            front
        }
    }
}

/// The cells of the first `m` rows of a window, each of `n` cells, that may carry a tree.
pub open spec fn grove(
    i0: int,
    j0: int,
    m: int,
    n: int,
    turn: int,
    pole: i64,
    density: u32,
) -> Seq<(i64, i64)>
    decreases m,
{
    if m <= 0 {
        Seq::empty()
    } else {
        grove(i0, j0, m - 1, n, turn, pole, density) + grown(
            i0 + m - 1,
            j0,
            n,
            turn,
            pole,
            density,
        )
    }
}

/// The columns that are looked at in a row: `columns` to each side, but no column twice.
pub open spec fn width(columns: int, turn: int) -> int {
    if 2 * columns + 1 < turn {
        2 * columns + 1
    } else {
        turn
    }
}

/// The cells around a centre that may carry a tree.
pub open spec fn around(
    center_i: int,
    center_j: int,
    columns: int,
    turn: int,
    pole: i64,
    density: u32,
) -> Seq<(i64, i64)> {
    grove(
        center_i - WINDOW,
        center_j - columns,
        2 * WINDOW + 1,
        width(columns, turn),
        turn,
        pole,
        density,
    )
}

fn rest(x: i64, turn: i64) -> (j: i64)
    requires
        turn > 0,
    ensures
        j == x as int % turn as int,
        0 <= j < turn,
{
    if x >= 0 {
        (x as u64 % turn as u64) as i64
    } else {
        let before: u64 = (-(x + 1)) as u64;
        let left: i64 = (before % turn as u64) as i64;
        proof {
            let q = before as int / turn as int;
            lemma_fundamental_div_mod(before as int, turn as int);
            let up = -(q + 1);
            assert(x as int == up * turn + (turn - 1 - left)) by (nonlinear_arith)
                requires
                    before as int == turn * q + left,
                    before as int == -(x + 1),
                    up == -(q + 1),
            ;
            lemma_fundamental_div_mod_converse(x as int, turn as int, up, turn - 1 - left);
        }
        turn - 1 - left
    }
}

fn column(x: i64, turn: i64) -> (j: i64)
    requires
        0 < turn <= 0x1000_0000_0000_0000,
        -0x4000_0000_0000_0000 <= x <= 0x4000_0000_0000_0000,
    ensures
        j == wrapped(x as int, turn as int),
{
    let half: i64 = (turn as u64 / 2) as i64;
    rest(x + half, turn) - half
}

/// The cells around a centre that may carry a tree, row by row. Columns are counted around the
/// planet, `turn` of them in all, so a cell has one name from either side; `columns` is how many
/// are looked at to each side. Rows at `pole` and beyond are skipped; `density` is a fraction of
/// two to the 24th.
pub fn candidates(
    center_i: i64,
    center_j: i64,
    columns: i64,
    turn: i64,
    pole: i64,
    density: u32,
) -> (cells: Vec<(i64, i64)>)
    requires
        -0x1000_0000_0000_0000 <= center_i <= 0x1000_0000_0000_0000,
        -0x1000_0000_0000_0000 <= center_j <= 0x1000_0000_0000_0000,
        0 <= columns <= 0x1000_0000_0000_0000,
        0 < turn <= 0x1000_0000_0000_0000,
        0 <= pole,
    ensures
        cells@ == around(
            center_i as int,
            center_j as int,
            columns as int,
            turn as int,
            pole,
            density,
        ),
{
    let mut cells: Vec<(i64, i64)> = Vec::new();
    let i0: i64 = center_i - WINDOW;
    let j0: i64 = center_j - columns;
    let side: i64 = 2 * WINDOW + 1;
    let wide: i64 = if 2 * columns + 1 < turn {
        2 * columns + 1
    } else {
        turn
    };
    let mut m: i64 = 0;
    while m < side
        invariant
            0 <= m <= side == 123,
            -0x2000_0000_0000_0000 <= i0 <= 0x2000_0000_0000_0000,
            -0x2000_0000_0000_0000 <= j0 <= 0x2000_0000_0000_0000,
            0 < wide <= turn <= 0x1000_0000_0000_0000,
            0 <= pole,
            cells@ == grove(
                i0 as int,
                j0 as int,
                m as int,
                wide as int,
                turn as int,
                pole,
                density,
            ),
        decreases side - m,
    {
        let i: i64 = i0 + m;
        let ghost rows = cells@;
        let mut n: i64 = 0;
        proof {
            assert(rows + grown(i as int, j0 as int, 0, turn as int, pole, density) =~= rows);
        }
        while n < wide
            invariant
                0 <= n <= wide <= turn <= 0x1000_0000_0000_0000,
                0 < turn,
                -0x2000_0000_0000_0000 <= j0 <= 0x2000_0000_0000_0000,
                0 <= pole,
                cells@ == rows + grown(i as int, j0 as int, n as int, turn as int, pole, density),
            decreases wide - n,
        {
            let j: i64 = column(j0 + n, turn);
            if -pole < i && i < pole && unit(hash(i, j, 1)) < density {
                cells.push((i, j));
            }
            proof {
                assert(cells@ =~= rows + grown(
                    i as int,
                    j0 as int,
                    n as int + 1,
                    turn as int,
                    pole,
                    density,
                ));
            }
            n = n + 1;
        }
        m = m + 1;
    }
    cells
}

/// Without density nothing grows.
pub proof fn no_density_no_trees(i0: int, j0: int, m: int, n: int, turn: int, pole: i64)
    ensures
        grove(i0, j0, m, n, turn, pole, 0) == Seq::<(i64, i64)>::empty(),
    decreases m,
{
    if m > 0 {
        no_density_no_trees(i0, j0, m - 1, n, turn, pole);
        bare_row(i0 + m - 1, j0, n, turn, pole);
        assert(grove(i0, j0, m, n, turn, pole, 0) =~= Seq::<(i64, i64)>::empty());
    }
}

proof fn bare_row(i: int, j0: int, n: int, turn: int, pole: i64)
    ensures
        grown(i, j0, n, turn, pole, 0) == Seq::<(i64, i64)>::empty(),
    decreases n,
{
    if n > 0 {
        bare_row(i, j0, n - 1, turn, pole);
    }
}

/// The column is one of the `n` from `j0` on.
spec fn passes(j0: int, n: int, turn: int, j: int) -> bool {
    exists|x: int| j0 <= x < j0 + n && #[trigger] wrapped(x, turn) == j
}

proof fn row_holds(
    i: int,
    j0: int,
    n: int,
    turn: int,
    pole: i64,
    density: u32,
    cell: (i64, i64),
)
    requires
        i64::MIN <= i <= i64::MAX,
        0 < turn <= i64::MAX,
    ensures
        grown(i, j0, n, turn, pole, density).contains(cell) <==> cell.0 == i && passes(
            j0,
            n,
            turn,
            cell.1 as int,
        ) && may_grow(cell.0, cell.1, pole, density),
    decreases n,
{
    if n > 0 {
        row_holds(i, j0, n - 1, turn, pole, density, cell);
        let front = grown(i, j0, n - 1, turn, pole, density);
        let all = grown(i, j0, n, turn, pole, density);
        let j = wrapped(j0 + n - 1, turn);
        near_columns_keep_their_number(j0 + n - 1, turn);
        if may_grow(i as i64, j as i64, pole, density) {
            assert(all[front.len() as int] == (i as i64, j as i64));
        }
        if front.contains(cell) {
            let k = choose|k: int| 0 <= k < front.len() && front[k] == cell;
            assert(all[k] == cell);
        }
        if all.contains(cell) && cell != (i as i64, j as i64) {
            let k = choose|k: int| 0 <= k < all.len() && all[k] == cell;
            assert(front[k] == cell);
        }
        if passes(j0, n - 1, turn, cell.1 as int) {
            let x = choose|x: int|
                j0 <= x < j0 + n - 1 && #[trigger] wrapped(x, turn) == cell.1 as int;
            assert(passes(j0, n, turn, cell.1 as int));
        }
        if passes(j0, n, turn, cell.1 as int) && cell.1 != j {
            let x = choose|x: int|
                j0 <= x < j0 + n && #[trigger] wrapped(x, turn) == cell.1 as int;
            assert(x != j0 + n - 1);
            assert(passes(j0, n - 1, turn, cell.1 as int));
        }
    }
}

proof fn rows_hold(
    i0: int,
    j0: int,
    m: int,
    n: int,
    turn: int,
    pole: i64,
    density: u32,
    cell: (i64, i64),
)
    requires
        i64::MIN <= i0,
        i0 + m <= i64::MAX,
        0 < turn <= i64::MAX,
    ensures
        grove(i0, j0, m, n, turn, pole, density).contains(cell) <==> i0 <= cell.0 < i0 + m && passes(
            j0,
            n,
            turn,
            cell.1 as int,
        ) && may_grow(cell.0, cell.1, pole, density),
    decreases m,
{
    if m > 0 {
        rows_hold(i0, j0, m - 1, n, turn, pole, density, cell);
        row_holds(i0 + m - 1, j0, n, turn, pole, density, cell);
        let front = grove(i0, j0, m - 1, n, turn, pole, density);
        let last = grown(i0 + m - 1, j0, n, turn, pole, density);
        let all = grove(i0, j0, m, n, turn, pole, density);
        assert(all == front + last);
        if front.contains(cell) {
            let k = choose|k: int| 0 <= k < front.len() && front[k] == cell;
            assert(all[k] == cell);
        }
        if last.contains(cell) {
            let k = choose|k: int| 0 <= k < last.len() && last[k] == cell;
            assert(all[front.len() + k] == cell);
        }
        if all.contains(cell) {
            let k = choose|k: int| 0 <= k < all.len() && all[k] == cell;
            if k < front.len() {
                assert(front[k] == cell);
            } else {
                assert(last[k - front.len()] == cell);
            }
        }
    }
}

/// The cell lies in the window of a centre: not too many rows away, and not too many columns to
/// either side.
pub open spec fn in_window(
    cell: (i64, i64),
    center_i: int,
    center_j: int,
    columns: int,
    turn: int,
) -> bool {
    &&& center_i - WINDOW <= cell.0 <= center_i + WINDOW
    &&& exists|x: int|
        center_j - columns <= x <= center_j + columns && #[trigger] wrapped(x, turn) == cell.1
}

/// As many columns as there are pass over every one of them.
proof fn all_are_passed(j0: int, turn: int, x: int)
    requires
        turn > 0,
    ensures
        passes(j0, turn, turn, wrapped(x, turn)),
{
    let y = j0 + (x - j0) % turn;
    lemma_mod_bound(x - j0, turn);
    lemma_add_mod_noop_right(j0 + turn / 2, x - j0, turn);
    assert(wrapped(y, turn) == wrapped(x, turn));
}

/// The candidates are the cells of the window that may carry a tree, and no others.
pub proof fn window_holds(
    center_i: int,
    center_j: int,
    columns: int,
    turn: int,
    pole: i64,
    density: u32,
    cell: (i64, i64),
)
    requires
        i64::MIN + WINDOW <= center_i < i64::MAX - WINDOW,
        0 <= columns,
        0 < turn <= i64::MAX,
    ensures
        around(center_i, center_j, columns, turn, pole, density).contains(cell) <==> in_window(
            cell,
            center_i,
            center_j,
            columns,
            turn,
        ) && may_grow(cell.0, cell.1, pole, density),
{
    let j0 = center_j - columns;
    let n = width(columns, turn);
    rows_hold(center_i - WINDOW, j0, 2 * WINDOW + 1, n, turn, pole, density, cell);
    if passes(j0, n, turn, cell.1 as int) {
        let x = choose|x: int| j0 <= x < j0 + n && #[trigger] wrapped(x, turn) == cell.1 as int;
        assert(center_j - columns <= x <= center_j + columns);
    }
    if exists|x: int|
        center_j - columns <= x <= center_j + columns && #[trigger] wrapped(x, turn) == cell.1 {
        let x = choose|x: int|
            center_j - columns <= x <= center_j + columns && #[trigger] wrapped(x, turn) == cell.1;
        if n == turn {
            all_are_passed(j0, turn, x);
        } else {
            assert(j0 <= x < j0 + n);
        }
    }
}

/// A cell is a candidate exactly if its row is at most 61 from the centre and lies between the
/// poles, its column is at most `columns` from the centre once whole turns are taken off, and its
/// draw lies below the density.
pub proof fn candidates_are_the_open_cells(
    center_i: int,
    center_j: int,
    columns: int,
    turn: int,
    pole: i64,
    density: u32,
    i: i64,
    j: i64,
)
    requires
        i64::MIN + WINDOW <= center_i < i64::MAX - WINDOW,
        0 <= columns,
        0 < turn <= i64::MAX,
        0 <= pole,
    ensures
        around(center_i, center_j, columns, turn, pole, density).contains((i, j)) <==> {
            &&& center_i - 61 <= i <= center_i + 61
            &&& -pole < i < pole
            &&& cell_hash(i, j, 1) / 0x100_0000_0000 < density
            &&& -(turn / 2) <= j < turn - turn / 2
            &&& exists|turns: int|
                center_j - columns <= j + #[trigger] (turn * turns) <= center_j + columns
        },
{
    let list = around(center_i, center_j, columns, turn, pole, density);
    window_holds(center_i, center_j, columns, turn, pole, density, (i, j));
    if exists|x: int| center_j - columns <= x <= center_j + columns && #[trigger] wrapped(x, turn)
        == j {
        let x = choose|x: int|
            center_j - columns <= x <= center_j + columns && #[trigger] wrapped(x, turn) == j;
        near_columns_keep_their_number(x, turn);
        lemma_fundamental_div_mod(x + turn / 2, turn);
        let turns = (x + turn / 2) / turn;
        assert(x == j + turn * turns);
    }
    if -(turn / 2) <= j < turn - turn / 2 && exists|turns: int|
        center_j - columns <= j + #[trigger] (turn * turns) <= center_j + columns {
        let turns = choose|turns: int|
            center_j - columns <= j + #[trigger] (turn * turns) <= center_j + columns;
        let x = j + turn * turns;
        assert(turn * turns == turns * turn) by (nonlinear_arith);
        lemma_fundamental_div_mod_converse(x + turn / 2, turn, turns, j + turn / 2);
        assert(wrapped(x, turn) == j);
    }
}

/// Walking never reshuffles the grove: a cell inside the windows of two centres is in both lists
/// or in neither, on whichever side of the seam the centres lie.
pub proof fn windows_agree(
    cell: (i64, i64),
    a: (int, int, int),
    b: (int, int, int),
    turn: int,
    pole: i64,
    density: u32,
)
    requires
        i64::MIN + WINDOW <= a.0 < i64::MAX - WINDOW,
        i64::MIN + WINDOW <= b.0 < i64::MAX - WINDOW,
        0 <= a.2,
        0 <= b.2,
        0 < turn <= i64::MAX,
        in_window(cell, a.0, a.1, a.2, turn),
        in_window(cell, b.0, b.1, b.2, turn),
    ensures
        around(a.0, a.1, a.2, turn, pole, density).contains(cell) <==> around(
            b.0,
            b.1,
            b.2,
            turn,
            pole,
            density,
        ).contains(cell),
{
    window_holds(a.0, a.1, a.2, turn, pole, density, cell);
    window_holds(b.0, b.1, b.2, turn, pole, density, cell);
}

/// More density only adds trees: a cell of the list is still one of the denser list.
pub proof fn density_only_adds(
    center_i: int,
    center_j: int,
    columns: int,
    turn: int,
    pole: i64,
    less: u32,
    more: u32,
    cell: (i64, i64),
)
    requires
        i64::MIN + WINDOW <= center_i < i64::MAX - WINDOW,
        0 <= columns,
        0 < turn <= i64::MAX,
        less <= more,
        around(center_i, center_j, columns, turn, pole, less).contains(cell),
    ensures
        around(center_i, center_j, columns, turn, pole, more).contains(cell),
{
    window_holds(center_i, center_j, columns, turn, pole, less, cell);
    window_holds(center_i, center_j, columns, turn, pole, more, cell);
}

proof fn columns_differ(j0: int, turn: int, x: int, y: int)
    requires
        turn > 0,
        j0 <= x < y < j0 + turn,
    ensures
        wrapped(x, turn) != wrapped(y, turn),
{
    if wrapped(x, turn) == wrapped(y, turn) {
        let u = x + turn / 2;
        let v = y + turn / 2;
        lemma_fundamental_div_mod(u, turn);
        lemma_fundamental_div_mod(v, turn);
        let a = u / turn;
        let b = v / turn;
        assert(false) by (nonlinear_arith)
            requires
                u == turn * a + u % turn,
                v == turn * b + v % turn,
                u % turn == v % turn,
                0 < v - u < turn,
        ;
    }
}

proof fn row_comes_once(i: int, j0: int, n: int, turn: int, pole: i64, density: u32)
    requires
        i64::MIN <= i <= i64::MAX,
        0 <= n <= turn <= i64::MAX,
        0 < turn,
    ensures
        grown(i, j0, n, turn, pole, density).no_duplicates(),
    decreases n,
{
    if n > 0 {
        row_comes_once(i, j0, n - 1, turn, pole, density);
        let front = grown(i, j0, n - 1, turn, pole, density);
        let j = wrapped(j0 + n - 1, turn);
        near_columns_keep_their_number(j0 + n - 1, turn);
        let cell = (i as i64, j as i64);
        row_holds(i, j0, n - 1, turn, pole, density, cell);
        if front.contains(cell) {
            let x = choose|x: int| j0 <= x < j0 + n - 1 && #[trigger] wrapped(x, turn) == j;
            columns_differ(j0, turn, x, j0 + n - 1);
        }
    }
}

proof fn rows_come_once(i0: int, j0: int, m: int, n: int, turn: int, pole: i64, density: u32)
    requires
        i64::MIN <= i0,
        i0 + m <= i64::MAX,
        0 <= n <= turn <= i64::MAX,
        0 < turn,
    ensures
        grove(i0, j0, m, n, turn, pole, density).no_duplicates(),
    decreases m,
{
    if m > 0 {
        rows_come_once(i0, j0, m - 1, n, turn, pole, density);
        row_comes_once(i0 + m - 1, j0, n, turn, pole, density);
        let front = grove(i0, j0, m - 1, n, turn, pole, density);
        let last = grown(i0 + m - 1, j0, n, turn, pole, density);
        assert forall|x: int, y: int| 0 <= x < front.len() && 0 <= y < last.len() implies front[x]
            != last[y] by {
            rows_hold(i0, j0, m - 1, n, turn, pole, density, front[x]);
            row_holds(i0 + m - 1, j0, n, turn, pole, density, last[y]);
            assert(front.contains(front[x]));
            assert(last.contains(last[y]));
        }
        let all = front + last;
        assert(all.no_duplicates());
    }
}

/// No cell comes twice, however wide the window.
pub proof fn cells_come_once(
    center_i: int,
    center_j: int,
    columns: int,
    turn: int,
    pole: i64,
    density: u32,
)
    requires
        i64::MIN + WINDOW <= center_i < i64::MAX - WINDOW,
        0 <= columns,
        0 < turn <= i64::MAX,
    ensures
        around(center_i, center_j, columns, turn, pole, density).no_duplicates(),
{
    rows_come_once(
        center_i - WINDOW,
        center_j - columns,
        2 * WINDOW + 1,
        width(columns, turn),
        turn,
        pole,
        density,
    );
}

/// How the tree of a cell stands.
#[derive(Clone, Copy, Debug, PartialEq, Eq, Structural)]
pub struct Stand {
    /// How far north and east in the cell, in fractions of two to the 24th.
    pub north: u32,
    pub east: u32,
    /// How far it is turned, as a fraction of two to the 24th of a full turn.
    pub yaw: u32,
    /// How large it is, in hundredths of two to the 24th.
    pub scale: u64,
}

/// How the tree of a cell stands: it depends on the cell alone.
pub open spec fn stand_of(cell_i: i64, cell_j: i64) -> Stand {
    Stand {
        north: (cell_hash(cell_i, cell_j, 2) / 0x100_0000_0000) as u32,
        east: (cell_hash(cell_i, cell_j, 3) / 0x100_0000_0000) as u32,
        yaw: (cell_hash(cell_i, cell_j, 4) / 0x100_0000_0000) as u32,
        scale: (85 * 0x100_0000 + 40 * (cell_hash(cell_i, cell_j, 5) / 0x100_0000_0000)) as u64,
    }
}

/// The first tree, in numbers: where in its cell it stands, how it is turned, and its size.
pub proof fn known_stand()
    ensures
        draw(0, 0) == 11768674,
        draw(0, 1) == 983792,
        stand_of(0, 0) == (Stand {
            north: 16512783,
            east: 8338348,
            yaw: 15966183,
            scale: 1583805240,
        }),
        stand_of(0, 1).yaw == 12031182,
{
    known_draws();
}

/// How the tree of a cell stands: within its cell, turned by less than a full turn, and between 85
/// and 125 hundredths of its size.
pub fn stand(cell_i: i64, cell_j: i64) -> (s: Stand)
    ensures
        s == stand_of(cell_i, cell_j),
        s.north == cell_hash(cell_i, cell_j, 2) / 0x100_0000_0000,
        s.east == cell_hash(cell_i, cell_j, 3) / 0x100_0000_0000,
        s.yaw == cell_hash(cell_i, cell_j, 4) / 0x100_0000_0000,
        s.scale == 85 * 0x100_0000 + 40 * (cell_hash(cell_i, cell_j, 5) / 0x100_0000_0000),
        s.north < 0x100_0000 && s.east < 0x100_0000 && s.yaw < 0x100_0000,
        85 * 0x100_0000 <= s.scale < 125 * 0x100_0000,
{
    Stand {
        north: unit(hash(cell_i, cell_j, 2)),
        east: unit(hash(cell_i, cell_j, 3)),
        yaw: unit(hash(cell_i, cell_j, 4)),
        scale: 85 * 0x100_0000 + 40 * unit(hash(cell_i, cell_j, 5)) as u64,
    }
}

/// The trees to draw, given their distances as ordered integers: all of them in their order
/// if they are few enough, else the nearest.
pub fn keep_nearest(distance: &Vec<u64>) -> (keep: Vec<usize>)
    ensures
        keep.len() <= MAX_TREES,
        distance.len() <= 16_000 ==> keep@ == Seq::new(distance.len() as nat, |i: int| i as usize),
        distance.len() > 16_000 ==> keep.len() == 16_000,
        distance.len() > MAX_TREES ==> exists|order: Seq<usize>|
            #[trigger] sorts(order, distance@) && keep@ == order.take(MAX_TREES as int),
{
    if distance.len() <= MAX_TREES {
        let mut keep: Vec<usize> = Vec::new();
        let mut i: usize = 0;
        while i < distance.len()
            invariant
                i <= distance.len(),
                keep@ == Seq::new(i as nat, |i: int| i as usize),
            decreases distance.len() - i,
        {
            keep.push(i);
            i = i + 1;
        }
        return keep;
    }
    let order = nearest_first(distance);
    let ghost all = order@;
    let mut keep = order;
    keep.truncate(MAX_TREES);
    proof {
        assert(sorts(all, distance@));
        assert(keep@ =~= all.take(MAX_TREES as int));
    }
    keep
}

} // verus!
