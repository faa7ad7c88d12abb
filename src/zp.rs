//! The field element: a residue `n` together with its modulus `p`.
use vstd::prelude::*;
use vstd::arithmetic::div_mod::{lemma_mod_add_multiples_vanish, lemma_mul_mod_noop_general};
use vstd::arithmetic::power::{pow, lemma_pow0, lemma_pow1, lemma_pow_adds, lemma_pow_multiplies, lemma_square_is_pow2, lemma_pow_mod_noop};
use crate::arith::{gcd, decimal, usize_to_decimal};
use crate::egcd::egcds;

verus! {

/// An element of the integers modulo `p`. A well-formed element has
/// `0 <= n < p`; operations between two elements require the same `p`.
#[derive(Debug, Clone, Copy)]
pub struct Zp {
    pub p: usize,
    pub n: usize,
}

/// One square-and-multiply step keeps `acc * b^e mod m`: the low bit of `e`
/// moves into the accumulator and the base is squared.
proof fn lemma_square_step(acc: int, b: int, e: nat, m: int)
    requires
        m > 0,
    ensures
        (acc * pow(b, e)) % m == ((if e % 2 == 1 {
            (acc * b) % m
        } else {
            acc
        }) * pow((b * b) % m, e / 2)) % m,
{
    let half: nat = e / 2;
    let bit: nat = e % 2;
    assert(e == 2 * half + bit);
    lemma_pow_adds(b, 2 * half, bit);
    lemma_pow_multiplies(b, 2, half);
    lemma_square_is_pow2(b);
    lemma_pow_mod_noop(b * b, half, m);
    let big = pow(b * b, half);
    let small = pow((b * b) % m, half);
    assert(pow(b, e) == big * pow(b, bit));
    if bit == 1 {
        lemma_pow1(b);
        lemma_mul_mod_noop_general(acc * b, small, m);
        lemma_mul_mod_noop_general(acc * b, big, m);
        assert(acc * pow(b, e) == (acc * b) * big) by (nonlinear_arith)
            requires
                pow(b, e) == big * b,
        ;
    } else {
        lemma_pow0(b);
        lemma_mul_mod_noop_general(acc, small, m);
        lemma_mul_mod_noop_general(acc, big, m);
        assert(acc * pow(b, e) == acc * big) by (nonlinear_arith)
            requires
                pow(b, e) == big * 1,
        ;
    }
}

impl Zp {
    /// The element is a residue of a positive modulus.
    pub open spec fn wf(self) -> bool {
        self.p > 0 && self.n < self.p
    }

    /// Both elements belong to the same well-formed field.
    pub open spec fn same_field(self, other: Zp) -> bool {
        self.wf() && other.wf() && self.p == other.p
    }

    /// The element of modulus `p` whose value is `x mod p`.
    pub open spec fn reduce(p: usize, x: int) -> Zp {
        Zp { p, n: (x % (p as int)) as usize }
    }

    /// `(a + b) mod p`.
    pub open spec fn spec_add(self, other: Zp) -> Zp {
        Zp::reduce(self.p, self.n + other.n)
    }

    /// `(a - b) mod p`, taken in `[0, p)`.
    pub open spec fn spec_sub(self, other: Zp) -> Zp {
        Zp::reduce(self.p, self.n - other.n)
    }

    /// `(a * b) mod p`.
    pub open spec fn spec_mul(self, other: Zp) -> Zp {
        Zp::reduce(self.p, self.n * other.n)
    }

    /// `a^e mod p`, where `e` is the value of the exponent element.
    pub open spec fn spec_pow(self, exponent: Zp) -> Zp {
        Zp::reduce(self.p, pow(self.n as int, exponent.n as nat))
    }

    /// The product of the values taken modulo `p - 1`, the order of the
    /// multiplicative group when `p` is prime; the modulus stays `p`.
    pub open spec fn spec_mult_phi(self, other: Zp) -> Zp {
        Zp { p: self.p, n: ((self.n * other.n) % (self.p - 1)) as usize }
    }

    /// `x` is an inverse of this element: `self.n * x.n ≡ 1 (mod p)`.
    pub open spec fn is_inverse(self, x: Zp) -> bool {
        &&& x.wf()
        &&& x.p == self.p
        &&& (self.n * x.n) % (self.p as int) == 1int % (self.p as int)
    }

    /// This element has a multiplicative inverse modulo `p`.
    pub open spec fn invertible(self) -> bool {
        gcd(self.n as nat, self.p as nat) == 1
    }

    /// Builds the element `n mod p`. Every `usize` modulus has an integer
    /// square root within `usize`, so no modulus is too large.
    pub fn new(p: usize, n: usize) -> (r: Zp)
        requires
            p > 0,
        ensures
            r.wf(),
            r == Zp::reduce(p, n as int),
    {
        Zp { p, n: n % p }
    }

    /// `(self + other) mod p`.
    pub fn add(self, other: Zp) -> (r: Zp)
        requires
            self.same_field(other),
        ensures
            r.wf(),
            r == self.spec_add(other),
    {
        let m: u128 = self.p as u128;
        let s: u128 = (self.n as u128 + other.n as u128) % m;
        Zp { p: self.p, n: s as usize }
    }

    /// Overwrites `self` with `(self + other) mod p`.
    pub fn add_assign(&mut self, other: Zp)
        requires
            old(self).same_field(other),
        ensures
            final(self).wf(),
            *final(self) == old(self).spec_add(other),
    {
        let m: u128 = self.p as u128;
        let s: u128 = (self.n as u128 + other.n as u128) % m;
        *self = Zp { p: self.p, n: s as usize };
    }

    /// `(self - other) mod p`, computed as `self + (p - other)`.
    pub fn sub(self, other: Zp) -> (r: Zp)
        requires
            self.same_field(other),
        ensures
            r.wf(),
            r == self.spec_sub(other),
    {
        let additive_inverse: usize = self.p - other.n;
        let m: u128 = self.p as u128;
        let s: u128 = (self.n as u128 + additive_inverse as u128) % m;
        proof {
            lemma_mod_add_multiples_vanish(self.n - other.n, self.p as int);
        }
        Zp { p: self.p, n: s as usize }
    }

    /// `(self * other) mod p`.
    pub fn mul(self, other: Zp) -> (r: Zp)
        requires
            self.same_field(other),
        ensures
            r.wf(),
            r == self.spec_mul(other),
    {
        let m: u128 = self.p as u128;
        let a: u128 = self.n as u128;
        let b: u128 = other.n as u128;
        assert(a * b < 0x1_0000_0000_0000_0000_0000_0000_0000_0000) by (nonlinear_arith)
            requires
                a < 0x1_0000_0000_0000_0000,
                b < 0x1_0000_0000_0000_0000,
        ;
        let s: u128 = (a * b) % m;
        Zp { p: self.p, n: s as usize }
    }

    /// `(self * other) mod (p - 1)`, for combining exponents; the result
    /// keeps the modulus `p`.
    pub fn mult_phi(self, other: Zp) -> (r: Zp)
        requires
            self.same_field(other),
            self.p >= 2,
        ensures
            r.wf(),
            r == self.spec_mult_phi(other),
    {
        let m: u128 = (self.p - 1) as u128;
        let a: u128 = self.n as u128;
        let b: u128 = other.n as u128;
        assert(a * b < 0x1_0000_0000_0000_0000_0000_0000_0000_0000) by (nonlinear_arith)
            requires
                a < 0x1_0000_0000_0000_0000,
                b < 0x1_0000_0000_0000_0000,
        ;
        let s: u128 = (a * b) % m;
        Zp { p: self.p, n: s as usize }
    }
    /// `self` raised to the power `exponent.n`, modulo `p`, by binary
    /// exponentiation. The exponent is an element of the same field.
    pub fn pow(&self, exponent: &Zp) -> (r: Zp)
        requires
            self.same_field(*exponent),
        ensures
            r.wf(),
            r == self.spec_pow(*exponent),
    {
        let modulus: u128 = self.p as u128;
        let mut result: u128 = 1;
        let mut base_power: u128 = (self.n as u128) % modulus;
        let mut exp_remaining: usize = exponent.n;
        proof {
            lemma_pow_mod_noop(self.n as int, exp_remaining as nat, self.p as int);
        }
        while exp_remaining > 0
            invariant
                modulus == self.p,
                modulus > 0,
                modulus < 0x1_0000_0000_0000_0000,
                result <= modulus,
                base_power < modulus,
                (result * pow(base_power as int, exp_remaining as nat)) % (modulus as int)
                    == pow(self.n as int, exponent.n as nat) % (modulus as int),
            decreases exp_remaining,
        {
            proof {
                lemma_square_step(result as int, base_power as int, exp_remaining as nat, modulus as int);
            }
            assert(result * base_power < 0x1_0000_0000_0000_0000_0000_0000_0000_0000
                && base_power * base_power < 0x1_0000_0000_0000_0000_0000_0000_0000_0000)
                by (nonlinear_arith)
                requires
                    result <= modulus,
                    base_power < modulus,
                    modulus < 0x1_0000_0000_0000_0000,
            ;
            if exp_remaining % 2 == 1 {
                result = (result * base_power) % modulus;
            }
            exp_remaining = exp_remaining / 2;
            base_power = (base_power * base_power) % modulus;
        }
        proof {
            lemma_pow0(base_power as int);
        }
        Zp::new(self.p, result as usize)
    }

    /// `self / other`, that is `self * inverse(other)`.
    pub fn div(self, other: Zp) -> (r: Zp)
        requires
            self.same_field(other),
            other.invertible(),
        ensures
            r.wf(),
            r.p == self.p,
            r.spec_mul(other) == self,
    {
        let x = inverse(&other);
        let r = self.mul(x);
        proof {
            crate::laws::lemma_div_consistency(self, other, x);
        }
        r
    }

    /// The decimal rendering of the value; the modulus is not shown.
    pub fn to_string(&self) -> (r: String)
        ensures
            r@ == decimal(self.n as nat),
    {
        usize_to_decimal(self.n)
    }
}

/// Two elements are equal when both the modulus and the value match.
impl PartialEq for Zp {
    fn eq(&self, other: &Zp) -> (r: bool) {
        self.p == other.p && self.n == other.n
    }

    fn ne(&self, other: &Zp) -> (r: bool) {
        self.p != other.p || self.n != other.n
    }
}

impl vstd::std_specs::cmp::PartialEqSpecImpl for Zp {
    open spec fn obeys_eq_spec() -> bool {
        true
    }

    open spec fn eq_spec(&self, other: &Zp) -> bool {
        self.p == other.p && self.n == other.n
    }
}

/// An element equals a bare integer when its value does; the modulus is
/// not compared.
impl PartialEq<usize> for Zp {
    fn eq(&self, other: &usize) -> (r: bool) {
        self.n == *other
    }

    fn ne(&self, other: &usize) -> (r: bool) {
        self.n != *other
    }
}

impl vstd::std_specs::cmp::PartialEqSpecImpl<usize> for Zp {
    open spec fn obeys_eq_spec() -> bool {
        true
    }

    open spec fn eq_spec(&self, other: &usize) -> bool {
        self.n == *other
    }
}

/// The inverse of `num` modulo its modulus, from the extended Euclidean
/// algorithm.
pub fn inverse(num: &Zp) -> (r: Zp)
    requires
        num.wf(),
        num.invertible(),
    ensures
        num.is_inverse(r),
{
    let s: usize = egcds(num.n, num.p);
    proof {
        lemma_mul_mod_noop_general(num.n as int, s as int, num.p as int);
    }
    Zp::new(num.p, s)
}

} // verus!
