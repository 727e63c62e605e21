//! Arithmetic facts that several modules lean on.
use vstd::prelude::*;

verus! {

/// Counting on by one under a modulus: it wraps exactly at the top.
pub proof fn wrap_step(x: int, m: int)
    requires
        m > 0,
    ensures
        (x + 1) % m == (if x % m == m - 1 {
            0
        } else {
            x % m + 1
        }),
{
    vstd::arithmetic::div_mod::lemma_fundamental_div_mod(x, m);
    let q = x / m;
    let r = x % m;
    assert(0 <= r < m) by (nonlinear_arith)
        requires
            m > 0,
            r == x % m,
    ;
    if r == m - 1 {
        assert(x + 1 == m * (q + 1) + 0) by (nonlinear_arith)
            requires
                x == m * q + r,
                r == m - 1,
        ;
        vstd::arithmetic::div_mod::lemma_fundamental_div_mod_converse(x + 1, m, q + 1, 0);
    } else {
        assert(x + 1 == q * m + (r + 1)) by (nonlinear_arith)
            requires
                x == m * q + r,
        ;
        vstd::arithmetic::div_mod::lemma_fundamental_div_mod_converse(x + 1, m, q, r + 1);
    }
}

} // verus!
