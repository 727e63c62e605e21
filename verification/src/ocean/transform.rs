//! The index work of the wave transform: bit-reversed order and the pairs of each stage.
use vstd::arithmetic::power2::pow2;
use vstd::prelude::*;

verus! {

/// The lowest `bits` bits of `i` in reverse order.
pub open spec fn reversed(i: int, bits: nat) -> int
    decreases bits,
{
    if bits == 0 {
        0
    } else {
        (i % 2) * pow2((bits - 1) as nat) + reversed(i / 2, (bits - 1) as nat)
    }
}

proof fn reversed_bounds(i: int, bits: nat)
    ensures
        0 <= reversed(i, bits) < pow2(bits),
    decreases bits,
{
    vstd::arithmetic::power2::lemma_pow2_pos(bits);
    if bits > 0 {
        reversed_bounds(i / 2, (bits - 1) as nat);
        vstd::arithmetic::power2::lemma_pow2_unfold(bits);
        let h = pow2((bits - 1) as nat) as int;
        let b = i % 2;
        assert(b * h == (if b == 1 {
            h
        } else {
            0
        })) by (nonlinear_arith)
            requires
                b == 0 || b == 1,
        ;
    } else {
        vstd::arithmetic::power2::lemma2_to64();
    }
}

/// Counting on by one in reversed bits: leading ones are cleared, the zero after them is set.
proof fn reversed_next(i: int, bits: nat)
    requires
        0 <= i,
        i + 1 < pow2(bits),
        bits > 0,
    ensures
        ({
            let h = pow2((bits - 1) as nat) as int;
            &&& i % 2 == 0 ==> reversed(i, bits) < h && reversed(i + 1, bits) == reversed(
                i,
                bits,
            ) + h
            &&& i % 2 == 1 ==> bits > 1 && reversed(i, bits) >= h && reversed(i, bits) == h
                + reversed(i / 2, (bits - 1) as nat) && reversed(i + 1, bits) == reversed(
                i / 2 + 1,
                (bits - 1) as nat,
            ) && i / 2 + 1 < pow2((bits - 1) as nat)
        }),
{
    let h = pow2((bits - 1) as nat) as int;
    vstd::arithmetic::power2::lemma_pow2_unfold(bits);
    reversed_bounds(i / 2, (bits - 1) as nat);
    assert(0 * h == 0 && 1 * h == h) by (nonlinear_arith);
    if i % 2 == 0 {
        assert((i + 1) / 2 == i / 2);
        assert((i + 1) % 2 == 1);
    } else {
        assert((i + 1) / 2 == i / 2 + 1);
        assert((i + 1) % 2 == 0);
        if bits == 1 {
            vstd::arithmetic::power2::lemma2_to64();
        }
    }
}

/// The reversed order of the places that have numbers of `bits` bits: place by place the one
/// whose bits read backwards.
pub fn bit_reversal(bits: u32) -> (table: Vec<usize>)
    requires
        bits < 32,
    ensures
        table.len() == pow2(bits as nat),
        forall|i: int| 0 <= i < table.len() ==> #[trigger] table[i] == reversed(i, bits as nat),
{
    proof {
        vstd::arithmetic::power2::lemma_pow2_pos(bits as nat);
        vstd::arithmetic::power2::lemma_pow2_strictly_increases(bits as nat, 32);
        vstd::arithmetic::power2::lemma2_to64();
        vstd::bits::lemma_u64_shl_is_mul(1, bits as u64);
        reversed_of_zero(bits as nat);
    }
    let n: usize = (1u64 << bits as u64) as usize;
    let mut table: Vec<usize> = Vec::new();
    let mut j: usize = 0;
    table.push(0);
    let mut i: usize = 1;
    while i < n
        invariant
            1 <= i <= n,
            n == pow2(bits as nat),
            table.len() == i,
            j == reversed(i - 1, bits as nat),
            forall|x: int| 0 <= x < i ==> #[trigger] table[x] == reversed(x, bits as nat),
        decreases n - i,
    {
        let mut bit: usize = n / 2;
        let ghost mut left: int = i as int - 1;
        let ghost mut b: nat = bits as nat;
        proof {
            if bits == 0 {
                vstd::arithmetic::power2::lemma2_to64();
            }
            vstd::arithmetic::power2::lemma_pow2_unfold(bits as nat);
            reversed_next(left, b);
            reversed_bounds(left, b);
        }
        while j >= bit
            invariant
                b > 0,
                bit == pow2((b - 1) as nat),
                0 <= left,
                left + 1 < pow2(b),
                j == reversed(left, b),
                reversed(i as int, bits as nat) == reversed(left + 1, b),
            decreases b,
        {
            proof {
                reversed_next(left, b);
                vstd::arithmetic::power2::lemma_pow2_unfold((b - 1) as nat);
            }
            j = j - bit;
            bit = bit / 2;
            proof {
                left = left / 2;
                b = (b - 1) as nat;
                reversed_bounds(left, b);
            }
        }
        proof {
            reversed_next(left, b);
            reversed_bounds(i as int, bits as nat);
        }
        j = j + bit;
        table.push(j);
        i = i + 1;
    }
    table
}

/// The reversal told from the top bit down.
proof fn reversed_from_top(i: int, bits: nat)
    requires
        bits > 0,
        0 <= i < pow2(bits),
    ensures
        ({
            let h = pow2((bits - 1) as nat) as int;
            reversed(i, bits) == 2 * reversed(i % h, (bits - 1) as nat) + i / h
        }),
    decreases bits,
{
    let h = pow2((bits - 1) as nat) as int;
    vstd::arithmetic::power2::lemma_pow2_pos((bits - 1) as nat);
    vstd::arithmetic::power2::lemma_pow2_unfold(bits);
    if bits == 1 {
        vstd::arithmetic::power2::lemma2_to64();
        reveal_with_fuel(reversed, 2);
        assert((i % 2) * 1 == i % 2);
    } else {
        let g = pow2((bits - 2) as nat) as int;
        vstd::arithmetic::power2::lemma_pow2_pos((bits - 2) as nat);
        vstd::arithmetic::power2::lemma_pow2_unfold((bits - 1) as nat);
        reversed_from_top(i / 2, (bits - 1) as nat);
        let u = i % h;
        assert(2 * g == h);
        vstd::arithmetic::div_mod::lemma_mod_breakdown(i, 2, g);
        vstd::arithmetic::div_mod::lemma_div_denominator(i, 2, g);
        assert(u == 2 * ((i / 2) % g) + i % 2);
        assert(u % 2 == i % 2);
        assert(u / 2 == (i / 2) % g);
        let r = i % 2;
        assert(r * h == 2 * (r * g)) by (nonlinear_arith)
            requires
                h == 2 * g,
        ;
    }
}

/// Reversing twice gives the number back.
pub proof fn reversal_undoes_itself(i: int, bits: nat)
    requires
        0 <= i < pow2(bits),
    ensures
        0 <= reversed(i, bits) < pow2(bits),
        reversed(reversed(i, bits), bits) == i,
    decreases bits,
{
    reversed_bounds(i, bits);
    if bits == 0 {
        vstd::arithmetic::power2::lemma2_to64();
    } else {
        let h = pow2((bits - 1) as nat) as int;
        vstd::arithmetic::power2::lemma_pow2_pos((bits - 1) as nat);
        vstd::arithmetic::power2::lemma_pow2_unfold(bits);
        let q = i / 2;
        let r = i % 2;
        reversal_undoes_itself(q, (bits - 1) as nat);
        let low = reversed(q, (bits - 1) as nat);
        let whole = reversed(i, bits);
        assert(whole == r * h + low);
        vstd::arithmetic::div_mod::lemma_fundamental_div_mod_converse(whole, h, r, low);
        reversed_from_top(whole, bits);
    }
}

/// Puts the elements in reversed order of their places.
pub fn bit_reverse<T: Copy>(a: &mut Vec<T>, bits: u32)
    requires
        bits < 32,
        old(a).len() == pow2(bits as nat),
    ensures
        final(a).len() == old(a).len(),
        forall|i: int|
            0 <= i < old(a).len() ==> #[trigger] final(a)[i] == old(a)[reversed(i, bits as nat)],
{
    let table = bit_reversal(bits);
    let n: usize = a.len();
    let mut i: usize = 0;
    proof {
        assert forall|x: int| 0 <= x < n implies 0 <= #[trigger] reversed(x, bits as nat) by {
            reversed_bounds(x, bits as nat);
        }
    }
    while i < n
        invariant
            i <= n,
            n == a.len() == old(a).len() == table.len() == pow2(bits as nat),
            forall|x: int| 0 <= x < n ==> #[trigger] table[x] == reversed(x, bits as nat),
            forall|x: int|
                0 <= x < n ==> #[trigger] a[x] == (if x < i || reversed(x, bits as nat) < i {
                    old(a)[reversed(x, bits as nat)]
                } else {
                    old(a)[x]
                }),
        decreases n - i,
    {
        let j: usize = table[i];
        let ghost was = a@;
        proof {
            reversal_undoes_itself(i as int, bits as nat);
        }
        if i < j {
            let x = a[i];
            let y = a[j];
            a.set(i, y);
            a.set(j, x);
        }
        proof {
            assert forall|x: int| 0 <= x < n implies #[trigger] a@[x] == (if x < i + 1 || reversed(
                x,
                bits as nat,
            ) < i + 1 {
                old(a)@[reversed(x, bits as nat)]
            } else {
                old(a)@[x]
            }) by {
                reversal_undoes_itself(x, bits as nat);
                assert(was[x] == (if x < i || reversed(x, bits as nat) < i {
                    old(a)@[reversed(x, bits as nat)]
                } else {
                    old(a)@[x]
                }));
                assert(was[j as int] == (if j < i || reversed(j as int, bits as nat) < i {
                    old(a)@[reversed(j as int, bits as nat)]
                } else {
                    old(a)@[j as int]
                }));
                assert(was[i as int] == (if reversed(i as int, bits as nat) < i {
                    old(a)@[reversed(i as int, bits as nat)]
                } else {
                    old(a)@[i as int]
                }));
            }
        }
        i = i + 1;
    }
    proof {
        assert forall|x: int| 0 <= x < n implies #[trigger] a@[x] == old(a)@[reversed(
            x,
            bits as nat,
        )] by {
            assert(a[x] == a@[x]);
        }
    }
}

/// The pairs of places that a stage combines, block by block: within each block of `2 half`
/// places the `k`-th with the `k`-th of the second half.
pub fn butterflies(n: usize, half: usize) -> (pairs: Vec<(usize, usize, usize)>)
    requires
        half > 0,
        2 * half <= usize::MAX,
        n % (2 * half) as usize == 0,
    ensures
        pairs.len() == n / 2,
        forall|p: int|
            0 <= p < pairs.len() ==> {
                let k = p % (half as int);
                let i = 2 * (p - k);
                #[trigger] pairs[p] == ((i + k) as usize, (i + k + half) as usize, k as usize)
            },
        forall|p: int|
            0 <= p < pairs.len() ==> (#[trigger] pairs[p]).0 < pairs[p].1 && pairs[p].1 < n,
{
    let mut pairs: Vec<(usize, usize, usize)> = Vec::new();
    let mut i: usize = 0;
    let ghost len: int = 2 * (half as int);
    proof {
        vstd::arithmetic::div_mod::lemma_mod_self_0(len);
        vstd::arithmetic::div_mod::lemma_small_mod(0, len as nat);
        vstd::arithmetic::div_mod::lemma_small_mod(0, half as nat);
    }
    while i < n
        invariant
            half > 0,
            2 * half <= usize::MAX,
            len == 2 * (half as int),
            n as int % len == 0,
            i as int % len == 0,
            i <= n,
            2 * pairs.len() == i,
            pairs.len() as int % (half as int) == 0,
            forall|p: int|
                0 <= p < pairs.len() ==> {
                    let k = p % (half as int);
                    let i = 2 * (p - k);
                    #[trigger] pairs[p] == ((i + k) as usize, (i + k + half) as usize, k as usize)
                },
            forall|p: int|
                0 <= p < pairs.len() ==> (#[trigger] pairs[p]).0 < pairs[p].1 && pairs[p].1 < n,
        decreases n - i,
    {
        proof {
            block_fits(i as int, n as int, len);
        }
        let ghost base = pairs.len() as int;
        let mut k: usize = 0;
        while k < half
            invariant
                k <= half,
                half > 0,
                len == 2 * (half as int),
                i + len <= n,
                base % (half as int) == 0,
                2 * base == i,
                pairs.len() == base + k,
                forall|p: int|
                    0 <= p < pairs.len() ==> {
                        let k = p % (half as int);
                        let i = 2 * (p - k);
                        #[trigger] pairs[p] == (
                            (i + k) as usize,
                            (i + k + half) as usize,
                            k as usize,
                        )
                    },
                forall|p: int|
                    0 <= p < pairs.len() ==> (#[trigger] pairs[p]).0 < pairs[p].1 && pairs[p].1
                        < n,
            decreases half - k,
        {
            proof {
                let q = base / (half as int);
                vstd::arithmetic::div_mod::lemma_fundamental_div_mod(base, half as int);
                assert(base + k == q * (half as int) + k) by (nonlinear_arith)
                    requires
                        base == (half as int) * q,
                ;
                vstd::arithmetic::div_mod::lemma_fundamental_div_mod_converse(
                    base + k,
                    half as int,
                    q,
                    k as int,
                );
            }
            pairs.push((i + k, i + k + half, k));
            k = k + 1;
        }
        proof {
            vstd::arithmetic::div_mod::lemma_mod_add_multiples_vanish(i as int, len);
            vstd::arithmetic::div_mod::lemma_mod_add_multiples_vanish(base, half as int);
        }
        i = i + 2 * half;
    }
    pairs
}

proof fn block_fits(i: int, n: int, len: int)
    requires
        0 <= i < n,
        len > 0,
        i % len == 0,
        n % len == 0,
    ensures
        i + len <= n,
{
    vstd::arithmetic::div_mod::lemma_fundamental_div_mod(i, len);
    vstd::arithmetic::div_mod::lemma_fundamental_div_mod(n, len);
    let a = i / len;
    let b = n / len;
    assert(i + len <= n) by (nonlinear_arith)
        requires
            i == len * a,
            n == len * b,
            i < n,
            len > 0,
    ;
}

proof fn reversed_of_zero(bits: nat)
    ensures
        reversed(0, bits) == 0,
    decreases bits,
{
    if bits > 0 {
        reversed_of_zero((bits - 1) as nat);
        let h = pow2((bits - 1) as nat) as int;
        assert(0 * h == 0) by (nonlinear_arith);
    }
}

} // verus!
