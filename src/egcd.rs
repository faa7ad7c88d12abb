//! The extended Euclidean algorithm, run on non-negative magnitudes with the
//! sign of the Bézout coefficient kept as a parity flag.
use vstd::prelude::*;
use vstd::arithmetic::div_mod::{lemma_fundamental_div_mod, lemma_mod_equivalence, lemma_mod_multiples_basic};
use crate::arith::gcd;

verus! {

/// The signed Bézout coefficient whose magnitude is `mag`: positive after an
/// even number of reduction steps, negative after an odd number.
pub open spec fn signed(mag: nat, even: bool) -> int {
    if even {
        mag as int
    } else {
        -(mag as int)
    }
}

/// A combination of two multiples of `m` is again a multiple of `m`.
proof fn lemma_combination_divisible(x: int, y: int, q: int, m: int)
    requires
        m > 0,
        x % m == 0,
        y % m == 0,
    ensures
        (x - q * y) % m == 0,
{
    lemma_fundamental_div_mod(x, m);
    lemma_fundamental_div_mod(y, m);
    let a = x / m;
    let b = y / m;
    assert(x - q * y == (a - q * b) * m) by (nonlinear_arith)
        requires
            x == m * a,
            y == m * b,
    ;
    lemma_mod_multiples_basic(a - q * b, m);
}

/// Computes the inverse of `n` modulo `p` by the extended Euclidean
/// algorithm. The result lies in `[0, p]` and is congruent to the inverse;
/// it equals `p` only where `p == 1`.
pub fn egcds(n: usize, p: usize) -> (r: usize)
    requires
        p > 0,
        gcd(n as nat, p as nat) == 1,
    ensures
        r <= p,
        (n as int * r as int) % (p as int) == 1int % (p as int),
{
    // Two remainders r_i, r_{i+1} of Euclid's sequence started at (n, p), and
    // the magnitudes of the Bézout coefficients of `n` that go with them.
    let mut rem0: usize = n;
    let mut rem1: usize = p;
    let mut coef0: usize = 1;
    let mut coef1: usize = 0;
    let mut even: bool = true;
    proof {
        lemma_mod_multiples_basic(0, p as int);
        lemma_mod_multiples_basic(-1, p as int);
    }
    while rem1 != 0
        invariant
            p > 0,
            gcd(rem0 as nat, rem1 as nat) == gcd(n as nat, p as nat),
            coef1 * rem0 + coef0 * rem1 == p,
            coef0 <= p,
            coef1 <= p,
            (signed(coef0 as nat, even) * n - rem0) % (p as int) == 0,
            (signed(coef1 as nat, !even) * n - rem1) % (p as int) == 0,
        decreases rem1,
    {
        let q: usize = rem0 / rem1;
        let next_rem: usize = rem0 % rem1;
        proof {
            lemma_fundamental_div_mod(rem0 as int, rem1 as int);
            assert(next_rem == rem0 - rem1 * q);
            assert((coef1 * q + coef0) * rem1 <= p && coef1 * q + coef0 <= (coef1 * q + coef0)
                * rem1) by (nonlinear_arith)
                requires
                    coef1 * rem0 + coef0 * rem1 == p,
                    rem1 * q <= rem0,
                    rem1 >= 1,
            ;
            assert(coef1 * next_rem + (coef1 * q + coef0) * rem1 == p) by (nonlinear_arith)
                requires
                    coef1 * rem0 + coef0 * rem1 == p,
                    next_rem == rem0 - rem1 * q,
            ;
            let s0 = signed(coef0 as nat, even);
            let s1 = signed(coef1 as nat, !even);
            lemma_combination_divisible(s0 * n - rem0, s1 * n - rem1, q as int, p as int);
            assert((s0 * n - rem0) - q * (s1 * n - rem1) == (s0 - q * s1) * n - next_rem)
                by (nonlinear_arith)
                requires
                    next_rem == rem0 - rem1 * q,
            ;
            assert(s0 - q * s1 == signed((coef1 * q + coef0) as nat, even)) by (nonlinear_arith)
                requires
                    s0 == signed(coef0 as nat, even),
                    s1 == signed(coef1 as nat, !even),
            ;
        }
        let next_coef: usize = coef1 * q + coef0;
        rem0 = rem1;
        rem1 = next_rem;
        coef0 = coef1;
        coef1 = next_coef;
        even = !even;
    }
    // Euclid's sequence has reached gcd(n, p) == 1.
    assert(rem0 == 1);
    let r: usize = if even {
        coef0
    } else {
        p - coef0
    };
    proof {
        let s0 = signed(coef0 as nat, even);
        if even {
            assert(n * r - 1 == s0 * n - rem0) by (nonlinear_arith)
                requires
                    s0 == coef0,
                    r == coef0,
                    rem0 == 1,
            ;
        } else {
            lemma_combination_divisible(s0 * n - rem0, p as int, -n, p as int);
            assert(n * r - 1 == (s0 * n - rem0) - (-n) * p) by (nonlinear_arith)
                requires
                    s0 == -coef0,
                    r == p - coef0,
                    rem0 == 1,
            ;
        }
        lemma_mod_equivalence(n * r, 1, p as int);
    }
    r
}

} // verus!
