//! What the stages of the wave transform add up to.
//!
//! Sums are counted term by term. A term is an input that was turned, and a full turn has as many
//! parts as there are inputs; to take a sum away is to add it half a turn further.
use vstd::arithmetic::div_mod::{
    lemma_add_mod_noop, lemma_fundamental_div_mod, lemma_fundamental_div_mod_converse,
    lemma_mod_bound, lemma_mod_multiples_vanish, lemma_small_mod, lemma_sub_mod_noop,
};
use vstd::arithmetic::power2::{
    lemma2_to64, lemma_pow2_adds, lemma_pow2_pos, lemma_pow2_subtracts, lemma_pow2_unfold, pow2,
};
use vstd::prelude::*;

use crate::ocean::transform::{reversal_undoes_itself, reversed};

verus! {

/// How often input `m`, turned by `e` parts, is in the sum at place `i` after the first `s`
/// stages. At first each place holds the input of the reversed place. A stage adds to the `k`-th
/// place of a block's first half the `k`-th of its second half, turned by `k` parts of the
/// block; the `k`-th place of the second half gets the same with the turned one taken away.
pub open spec fn terms(bits: nat, s: nat, i: int, m: int, e: int) -> nat
    decreases s,
{
    let n = pow2(bits) as int;
    if s == 0 {
        if m == reversed(i, bits) && e == 0 {
            1
        } else {
            0
        }
    } else {
        let half = pow2((s - 1) as nat) as int;
        let j = i % (2 * half);
        let k = if j < half {
            j
        } else {
            j - half
        };
        let lo = i - j + k;
        let turn = k * (n / (2 * half)) + if j < half {
            0
        } else {
            n / 2
        };
        terms(bits, (s - 1) as nat, lo, m, e) + terms(
            bits,
            (s - 1) as nat,
            lo + half,
            m,
            (e - turn) % n,
        )
    }
}

/// After `s` stages place `i` holds the transform of the inputs of its block: input `m` belongs to
/// it if it lies on the block's stride, and is turned once for each step along the stride and
/// each place along the block.
pub open spec fn belongs(bits: nat, s: nat, i: int, m: int, e: int) -> bool {
    let n = pow2(bits) as int;
    let block = pow2(s) as int;
    let stride = pow2((bits - s) as nat) as int;
    m % stride == reversed(i / block, (bits - s) as nat) && e == ((i % block) * (stride * (m
        / stride))) % n
}

proof fn turned_back(e: int, t: int, x: int, n: int)
    requires
        n > 0,
        0 <= e < n,
    ensures
        (e - t) % n == x % n <==> e == (x + t) % n,
{
    lemma_small_mod(e as nat, n as nat);
    lemma_add_mod_noop(e - t, t, n);
    lemma_add_mod_noop(x, t, n);
    lemma_sub_mod_noop(e, t, n);
    lemma_sub_mod_noop(x + t, t, n);
}

/// Where the two places lie that a place is made from, seen from the blocks before.
proof fn two_blocks(i: int, half: int, stride: int, n: int) -> (r: (int, int, int))
    requires
        half > 0,
        stride > 0,
        n == (2 * half) * stride,
        0 <= i < n,
    ensures
        r.0 == i % (2 * half),
        r.1 == i / (2 * half),
        0 <= r.1 < stride,
        r.2 == (if r.0 < half {
            r.0
        } else {
            r.0 - half
        }),
        0 <= r.2 < half,
        ({
            let lo = i - r.0 + r.2;
            &&& 0 <= lo
            &&& lo + half < n
            &&& lo / half == 2 * r.1
            &&& lo % half == r.2
            &&& (lo + half) / half == 2 * r.1 + 1
            &&& (lo + half) % half == r.2
        }),
{
    let j = i % (2 * half);
    let b = i / (2 * half);
    lemma_fundamental_div_mod(i, 2 * half);
    lemma_mod_bound(i, 2 * half);
    assert(0 <= b < stride) by (nonlinear_arith)
        requires
            0 <= i < (2 * half) * stride,
            i == (2 * half) * b + j,
            0 <= j < 2 * half,
    ;
    let k = if j < half {
        j
    } else {
        j - half
    };
    let lo = i - j + k;
    assert((2 * half) * b == (2 * b) * half) by (nonlinear_arith);
    assert((2 * b + 1) * half == (2 * b) * half + half) by (nonlinear_arith);
    lemma_fundamental_div_mod_converse(lo, half, 2 * b, k);
    lemma_fundamental_div_mod_converse(lo + half, half, 2 * b + 1, k);
    assert(0 <= (2 * half) * b && (2 * half) * b + 2 * half <= n) by (nonlinear_arith)
        requires
            0 <= b < stride,
            half > 0,
            n == (2 * half) * stride,
    ;
    (j, b, k)
}

/// The turns of a stage fit together.
proof fn turns_fit(n: int, half: int, stride: int, j: int, k: int, q: int)
    requires
        half > 0,
        stride > 0,
        n == (2 * half) * stride,
        j == k || j == k + half,
    ensures
        n / 2 == half * stride,
        (j * (stride * (2 * q))) % n == (k * ((2 * stride) * q)) % n,
        (j * (stride * (2 * q + 1))) % n == (k * ((2 * stride) * q) + (k * stride + if j == k {
            0
        } else {
            n / 2
        })) % n,
{
    assert((2 * half) * stride == 2 * (half * stride)) by (nonlinear_arith);
    assert(half * stride > 0) by (nonlinear_arith)
        requires
            half > 0,
            stride > 0,
    ;
    let x = k * ((2 * stride) * q);
    assert(k * (stride * (2 * q)) == x) by (nonlinear_arith)
        requires
            x == k * ((2 * stride) * q),
    ;
    assert(k * (stride * (2 * q + 1)) == x + k * stride) by (nonlinear_arith)
        requires
            x == k * ((2 * stride) * q),
    ;
    if j != k {
        assert((k + half) * (stride * (2 * q)) == n * q + x) by (nonlinear_arith)
            requires
                x == k * ((2 * stride) * q),
                n == (2 * half) * stride,
        ;
        assert((k + half) * (stride * (2 * q + 1)) == n * q + (x + (k * stride + half * stride)))
            by (nonlinear_arith)
            requires
                x == k * ((2 * stride) * q),
                n == (2 * half) * stride,
        ;
        lemma_mod_multiples_vanish(q, x, n);
        lemma_mod_multiples_vanish(q, x + (k * stride + half * stride), n);
    }
}

proof fn after_stages(bits: nat, s: nat, i: int, m: int, e: int)
    requires
        s <= bits,
        0 <= i < pow2(bits),
        0 <= m < pow2(bits),
        0 <= e < pow2(bits),
    ensures
        terms(bits, s, i, m, e) == (if belongs(bits, s, i, m, e) {
            1nat
        } else {
            0nat
        }),
    decreases s,
{
    let n = pow2(bits) as int;
    lemma_pow2_pos(bits);
    lemma2_to64();
    if s == 0 {
        lemma_small_mod(m as nat, n as nat);
        lemma_small_mod(0, n as nat);
        assert(i % 1 == 0 && i / 1 == i);
        assert(0 * (n * (m / n)) == 0) by (nonlinear_arith);
    } else {
        let before = (s - 1) as nat;
        let half = pow2(before) as int;
        let rest = (bits - s) as nat;
        let stride = pow2(rest) as int;
        lemma_pow2_pos(before);
        lemma_pow2_pos(rest);
        lemma_pow2_unfold(s);
        lemma_pow2_unfold((bits - before) as nat);
        lemma_pow2_adds(s, rest);
        lemma_pow2_subtracts(s, bits);
        let (j, b, k) = two_blocks(i, half, stride, n);
        let lo = i - j + k;
        let turn = k * stride + if j < half {
            0
        } else {
            n / 2
        };
        let back = (e - turn) % n;
        lemma_mod_bound(e - turn, n);
        after_stages(bits, before, lo, m, e);
        after_stages(bits, before, lo + half, m, back);
        reversal_undoes_itself(b, rest);
        let r0 = reversed(b, rest);
        assert(0 * stride == 0 && 1 * stride == stride) by (nonlinear_arith);
        assert((2 * b) % 2 == 0 && (2 * b) / 2 == b);
        assert((2 * b + 1) % 2 == 1 && (2 * b + 1) / 2 == b);
        assert(reversed(2 * b, (bits - before) as nat) == r0);
        assert(reversed(2 * b + 1, (bits - before) as nat) == stride + r0);
        let q = m / (2 * stride);
        let r = m % (2 * stride);
        lemma_fundamental_div_mod(m, 2 * stride);
        lemma_mod_bound(m, 2 * stride);
        turns_fit(n, half, stride, j, k, q);
        turned_back(e, turn, k * ((2 * stride) * q), n);
        if r < stride {
            assert((2 * stride) * q == (2 * q) * stride) by (nonlinear_arith);
            lemma_fundamental_div_mod_converse(m, stride, 2 * q, r);
        } else {
            assert((2 * stride) * q + stride == (2 * q + 1) * stride) by (nonlinear_arith);
            lemma_fundamental_div_mod_converse(m, stride, 2 * q + 1, r - stride);
        }
    }
}

/// All stages together make the Fourier transform: place `k` holds every input once, and input
/// `m` is turned by `k` times `m` parts.
pub proof fn stages_make_the_transform(bits: nat, k: int, m: int, e: int)
    requires
        0 <= k < pow2(bits),
        0 <= m < pow2(bits),
        0 <= e < pow2(bits),
    ensures
        terms(bits, bits, k, m, e) == (if e == (k * m) % (pow2(bits) as int) {
            1nat
        } else {
            0nat
        }),
{
    let n = pow2(bits) as int;
    after_stages(bits, bits, k, m, e);
    lemma2_to64();
    lemma_small_mod(k as nat, n as nat);
    lemma_fundamental_div_mod_converse(k, n, 0, k);
    assert(m % 1 == 0 && m / 1 == m);
    assert(1 * m == m);
}

/// A stage is what its pairs of places do, one pair after the other: both places of a pair get the
/// first, and the second turned by the pair's number of parts of the block; the latter place gets
/// it half a turn further.
pub proof fn pairs_make_the_stage(bits: nat, s: nat, p: int, m: int, e: int)
    requires
        s < bits,
        0 <= p < pow2(bits) / 2,
    ensures
        ({
            let n = pow2(bits) as int;
            let half = pow2(s) as int;
            let k = p % half;
            let lo = 2 * (p - k) + k;
            let turn = k * (n / (2 * half));
            &&& terms(bits, s + 1, lo, m, e) == terms(bits, s, lo, m, e) + terms(
                bits,
                s,
                lo + half,
                m,
                (e - turn) % n,
            )
            &&& terms(bits, s + 1, lo + half, m, e) == terms(bits, s, lo, m, e) + terms(
                bits,
                s,
                lo + half,
                m,
                (e - (turn + n / 2)) % n,
            )
        }),
{
    let half = pow2(s) as int;
    lemma_pow2_pos(s);
    let k = p % half;
    let b = p / half;
    lemma_fundamental_div_mod(p, half);
    lemma_mod_bound(p, half);
    let lo = 2 * (p - k) + k;
    assert(2 * (half * b) == b * (2 * half)) by (nonlinear_arith);
    lemma_fundamental_div_mod_converse(lo, 2 * half, b, k);
    lemma_fundamental_div_mod_converse(lo + half, 2 * half, b, k + half);
}

/// Every place is in exactly one pair of a stage.
pub proof fn places_are_paired_once(half: int, n: int, i: int, p: int)
    requires
        half > 0,
        n % (2 * half) == 0,
        0 <= i < n,
        0 <= p < n / 2,
    ensures
        ({
            let j = i % (2 * half);
            let own = (i - j) / 2 + if j < half {
                j
            } else {
                j - half
            };
            let k = p % half;
            let lo = 2 * (p - k) + k;
            &&& 0 <= own < n / 2
            &&& (i == lo || i == lo + half) <==> p == own
        }),
{
    let len = 2 * half;
    let j = i % len;
    let b = i / len;
    lemma_fundamental_div_mod(i, len);
    lemma_mod_bound(i, len);
    lemma_fundamental_div_mod(n, len);
    let blocks = n / len;
    assert(b < blocks) by (nonlinear_arith)
        requires
            i == len * b + j,
            i < n,
            n == len * blocks,
            0 <= j,
            len > 0,
    ;
    assert(0 <= b) by (nonlinear_arith)
        requires
            i == len * b + j,
            0 <= i,
            j < len,
            len > 0,
    ;
    assert(len * b == 2 * (half * b)) by (nonlinear_arith)
        requires
            len == 2 * half,
    ;
    assert(len * blocks == 2 * (half * blocks)) by (nonlinear_arith)
        requires
            len == 2 * half,
    ;
    assert(0 <= half * b && half * b + half <= half * blocks) by (nonlinear_arith)
        requires
            0 <= b < blocks,
            half > 0,
    ;
    let place = if j < half {
        j
    } else {
        j - half
    };
    let own = (i - j) / 2 + place;
    assert(own == half * b + place);
    let k = p % half;
    let c = p / half;
    lemma_fundamental_div_mod(p, half);
    lemma_mod_bound(p, half);
    let lo = 2 * (p - k) + k;
    assert(2 * (half * c) == c * len) by (nonlinear_arith)
        requires
            len == 2 * half,
    ;
    lemma_fundamental_div_mod_converse(lo, len, c, k);
    lemma_fundamental_div_mod_converse(lo + half, len, c, k + half);
    assert(half * b == b * half) by (nonlinear_arith);
    lemma_fundamental_div_mod_converse(own, half, b, place);
}

/// Some number of steps of `d` parts comes to half a turn.
proof fn half_turn(bits: nat, d: int) -> (h: int)
    requires
        0 < d < pow2(bits),
    ensures
        (h * d) % (pow2(bits) as int) == pow2(bits) / 2,
    decreases bits,
{
    let n = pow2(bits) as int;
    lemma2_to64();
    lemma_pow2_pos(bits);
    lemma_pow2_unfold(bits);
    let half = pow2((bits - 1) as nat) as int;
    if d % 2 == 1 {
        let c = d / 2;
        assert(half * d == n * c + half) by (nonlinear_arith)
            requires
                d == 2 * c + 1,
                n == 2 * half,
        ;
        lemma_mod_multiples_vanish(c, half, n);
        lemma_small_mod(half as nat, n as nat);
        half
    } else {
        let c = d / 2;
        let h = half_turn((bits - 1) as nat, c);
        if bits == 1 {
            assert(false);
        }
        lemma_pow2_unfold((bits - 1) as nat);
        let x = h * c;
        let y = x / half;
        lemma_pow2_pos((bits - 1) as nat);
        lemma_fundamental_div_mod(x, half);
        assert(h * d == 2 * x) by (nonlinear_arith)
            requires
                d == 2 * c,
                x == h * c,
        ;
        assert(2 * (half * y) == n * y) by (nonlinear_arith)
            requires
                n == 2 * half,
        ;
        assert(2 * x == n * y + half);
        lemma_mod_multiples_vanish(y, half, n);
        lemma_small_mod(half as nat, n as nat);
        h
    }
}

/// Back and forth gives the inputs back, each as often as there are inputs. Turned back, input `m`
/// reaches place `j` by way of every place `k`, turned by `k` times `m` parts and back by `k`
/// times `j`. The input of the place itself arrives unturned each time. With any other the ways
/// cancel: going some `h` places further turns it by half a turn.
pub proof fn inverse_gives_the_inputs_back(bits: nat, j: int, m: int)
    requires
        0 <= j < pow2(bits),
        0 <= m < pow2(bits),
    ensures
        m == j ==> forall|k: int| (#[trigger] (k * m) - k * j) % (pow2(bits) as int) == 0,
        m != j ==> exists|h: int| #[trigger] turns_about(bits, h, m - j),
{
    let n = pow2(bits) as int;
    lemma_pow2_pos(bits);
    if m == j {
        lemma_small_mod(0, n as nat);
    } else {
        let d = if m > j {
            m - j
        } else {
            m - j + n
        };
        let h = half_turn(bits, d);
        assert forall|k: int| ((k + h) * (m - j)) % n == (#[trigger] (k * (m - j)) + n / 2) % n by {
            let a = k * (m - j);
            let b = h * (m - j);
            assert((k + h) * (m - j) == a + b) by (nonlinear_arith)
                requires
                    a == k * (m - j),
                    b == h * (m - j),
            ;
            if m < j {
                assert(h * d == n * h + b) by (nonlinear_arith)
                    requires
                        d == m - j + n,
                        b == h * (m - j),
                ;
                lemma_mod_multiples_vanish(h, b, n);
            }
            lemma_add_mod_noop(a, b, n);
            lemma_add_mod_noop(a, n / 2, n);
            lemma_small_mod((n / 2) as nat, n as nat);
        }
        assert(turns_about(bits, h, m - j));
    }
}

/// Going `h` steps further turns what turns by `d` parts a step by half a turn.
pub open spec fn turns_about(bits: nat, h: int, d: int) -> bool {
    let n = pow2(bits) as int;
    forall|k: int| ((k + h) * d) % n == (#[trigger] (k * d) + n / 2) % n
}

} // verus!
