//! Arithmetic facts about powers of two and multiples.

use vstd::arithmetic::div_mod::{lemma_fundamental_div_mod, lemma_mod_multiples_basic};
use vstd::arithmetic::power2::is_pow2;
use vstd::prelude::*;

verus! {

/// A smaller power of two divides a larger one.
pub proof fn lemma_pow2_divides(a: int, b: int)
    requires
        is_pow2(a),
        is_pow2(b),
        a <= b,
    ensures
        b % a == 0,
    decreases b,
{
    reveal(is_pow2);
    if a == 1 {
        assert(b % 1 == 0);
    } else {
        assert(b > 1);
        let ha = a / 2;
        let hb = b / 2;
        lemma_pow2_divides(ha, hb);
        lemma_fundamental_div_mod(hb, ha);
        let k = hb / ha;
        assert(hb == ha * k);
        assert(b == a * k) by (nonlinear_arith)
            requires
                b == 2 * hb,
                a == 2 * ha,
                hb == ha * k,
        ;
        lemma_mod_multiples_basic(k, a);
        assert(k * a == a * k) by (nonlinear_arith);
    }
}

/// A power of two is positive.
pub proof fn lemma_pow2_positive(a: int)
    requires
        is_pow2(a),
    ensures
        a > 0,
{
    reveal(is_pow2);
}

/// The sum of two multiples of `m` is a multiple of `m`.
pub proof fn lemma_add_multiples(x: int, y: int, m: int)
    requires
        m > 0,
        x % m == 0,
        y % m == 0,
    ensures
        (x + y) % m == 0,
{
    lemma_fundamental_div_mod(x, m);
    lemma_fundamental_div_mod(y, m);
    let k = x / m + y / m;
    assert(x + y == k * m) by (nonlinear_arith)
        requires
            x == m * (x / m),
            y == m * (y / m),
            k == x / m + y / m,
    ;
    lemma_mod_multiples_basic(k, m);
}

/// A multiple of `m` stays one when multiplied by any integer.
pub proof fn lemma_scale_multiple(x: int, c: int, m: int)
    requires
        m > 0,
        x % m == 0,
    ensures
        (c * x) % m == 0,
{
    lemma_fundamental_div_mod(x, m);
    let k = c * (x / m);
    assert(c * x == k * m) by (nonlinear_arith)
        requires
            x == m * (x / m),
            k == c * (x / m),
    ;
    lemma_mod_multiples_basic(k, m);
}

} // verus!
