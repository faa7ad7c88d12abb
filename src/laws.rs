//! Algebraic laws that the field element operations obey, stated over the
//! spec functions that the operations' contracts use.
use vstd::prelude::*;
use vstd::arithmetic::div_mod::{lemma_mod_self_0, lemma_mul_mod_noop_general, lemma_small_mod};
use vstd::arithmetic::power::{lemma0_pow, lemma_pow0};
use vstd::std_specs::cmp::PartialEqSpec;
use crate::zp::Zp;

verus! {

/// Sum, difference and product of two elements of one field are elements of
/// that field: same modulus, value in `[0, p)`.
pub proof fn lemma_closure(a: Zp, b: Zp)
    requires
        a.same_field(b),
    ensures
        a.spec_add(b).wf() && a.spec_add(b).p == a.p,
        a.spec_sub(b).wf() && a.spec_sub(b).p == a.p,
        a.spec_mul(b).wf() && a.spec_mul(b).p == a.p,
{
}

/// An element minus itself is zero.
pub proof fn lemma_sub_self(a: Zp)
    requires
        a.wf(),
    ensures
        a.spec_sub(a).n == 0,
{
    lemma_mod_self_0(a.p as int);
    assert(0int % (a.p as int) == 0);
}

/// An element times its inverse is one, in every field with more than one
/// element.
pub proof fn lemma_inverse_law(a: Zp, x: Zp)
    requires
        a.wf(),
        a.invertible(),
        a.p > 1,
        a.is_inverse(x),
    ensures
        a.spec_mul(x).n == 1,
{
    lemma_small_mod(1, a.p as nat);
}

/// Dividing by `b` (multiplying by an inverse of `b`) and multiplying by
/// `b` again gives back the element.
pub proof fn lemma_div_consistency(a: Zp, b: Zp, x: Zp)
    requires
        a.same_field(b),
        b.invertible(),
        b.is_inverse(x),
    ensures
        a.spec_mul(x).spec_mul(b) == a,
{
    let m = a.p as int;
    let (an, bn, xn) = (a.n as int, b.n as int, x.n as int);
    lemma_mul_mod_noop_general(an * xn, bn, m);
    lemma_mul_mod_noop_general(an, bn * xn, m);
    lemma_mul_mod_noop_general(an, 1, m);
    lemma_small_mod(a.n as nat, a.p as nat);
    assert((an * xn) * bn == an * (bn * xn)) by (nonlinear_arith);
    assert((an * (bn * xn)) % m == (an * 1) % m);
}

/// Any element to the power zero is one, in every field with more than one
/// element.
pub proof fn lemma_pow_zero(a: Zp, e: Zp)
    requires
        a.same_field(e),
        e.n == 0,
        a.p > 1,
    ensures
        a.spec_pow(e).n == 1,
{
    lemma_pow0(a.n as int);
    lemma_small_mod(1, a.p as nat);
}

/// Zero to any nonzero power is zero.
pub proof fn lemma_zero_pow(z: Zp, e: Zp)
    requires
        z.same_field(e),
        z.n == 0,
        e.n != 0,
    ensures
        z.spec_pow(e).n == 0,
{
    lemma0_pow(e.n as nat);
    lemma_small_mod(0, z.p as nat);
}

/// Equality of elements is reflexive, symmetric and transitive.
pub proof fn lemma_eq_equivalence(a: Zp, b: Zp, c: Zp)
    ensures
        a.eq_spec(&a),
        a.eq_spec(&b) == b.eq_spec(&a),
        a.eq_spec(&b) && b.eq_spec(&c) ==> a.eq_spec(&c),
{
}

} // verus!
