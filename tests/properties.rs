use zp_field::egcd::egcds;
use zp_field::zp::{inverse, Zp};

#[test]
fn new_reduces_value() {
    let a = Zp::new(7, 23);
    assert_eq!(a.p, 7);
    assert_eq!(a.n, 2);
    assert_eq!(Zp::new(1, 5).n, 0);
}

#[test]
fn closure_keeps_modulus_and_range() {
    let p: usize = 13;
    for x in 0..p {
        for y in 0..p {
            let a = Zp::new(p, x);
            let b = Zp::new(p, y);
            for r in [a.add(b), a.sub(b), a.mul(b)] {
                assert_eq!(r.p, p);
                assert!(r.n < p);
            }
            assert_eq!(a.add(b).n, (x + y) % p);
            assert_eq!(a.sub(b).n, (x + p - y) % p);
            assert_eq!(a.mul(b).n, (x * y) % p);
        }
    }
}

#[test]
fn sub_wraps_below_zero() {
    let a = Zp::new(617, 3);
    let b = Zp::new(617, 10);
    assert_eq!(a.sub(b).n, 610);
    assert_eq!(a.sub(Zp::new(617, 0)).n, 3);
}

#[test]
fn sub_self_is_zero() {
    for x in [0usize, 1, 5, 616] {
        let a = Zp::new(617, x);
        assert_eq!(a.sub(a).n, 0);
    }
}

#[test]
fn add_assign_overwrites_receiver() {
    let mut a = Zp::new(617, 11);
    a.add_assign(Zp::new(617, 616));
    assert_eq!(a.n, 10);
    assert_eq!(a.p, 617);
}

#[test]
fn large_modulus_has_no_overflow() {
    let p: usize = usize::MAX;
    let a = Zp::new(p, p - 1);
    let b = Zp::new(p, p - 2);
    assert_eq!(a.add(b).n, p - 3);
    assert_eq!(b.sub(a).n, p - 1);
    // (-1) * (-2) = 2
    assert_eq!(a.mul(b).n, 2);
    // (-1)^3 = -1
    assert_eq!(a.pow(&Zp::new(p, 3)).n, p - 1);
}

#[test]
fn inverse_law_holds() {
    let p: usize = 617;
    for x in 1..p {
        let a = Zp::new(p, x);
        let i = inverse(&a);
        assert!(i.n < p);
        assert_eq!(a.mul(i).n, 1);
    }
}

#[test]
fn inverse_in_composite_modulus() {
    // 7 * 13 = 91 = 1 (mod 15)
    let a = Zp::new(15, 7);
    assert_eq!(inverse(&a).n, 13);
}

#[test]
fn inverse_in_trivial_field_is_zero() {
    let a = Zp::new(1, 0);
    let i = inverse(&a);
    assert_eq!(i.n, 0);
    assert_eq!(i.p, 1);
}

#[test]
fn egcds_raw_results() {
    assert_eq!(egcds(11, 617), 561);
    assert_eq!(egcds(1, 2), 1);
    assert_eq!(egcds(0, 1), 1);
    assert_eq!(egcds(3, 7), 5);
}

#[test]
fn division_consistency() {
    let p: usize = 31;
    for x in 0..p {
        for y in 1..p {
            let a = Zp::new(p, x);
            let b = Zp::new(p, y);
            assert!(a.div(b).mul(b) == a);
        }
    }
}

#[test]
fn pow_zero_exponent_is_one() {
    for x in 0..7usize {
        assert_eq!(Zp::new(7, x).pow(&Zp::new(7, 0)).n, 1);
    }
    assert_eq!(Zp::new(1, 0).pow(&Zp::new(1, 0)).n, 0);
}

#[test]
fn zero_to_nonzero_power_is_zero() {
    for e in 1..7usize {
        assert_eq!(Zp::new(7, 0).pow(&Zp::new(7, e)).n, 0);
    }
}

#[test]
fn pow_matches_repeated_multiplication() {
    let p: usize = 101;
    let a = Zp::new(p, 37);
    let mut acc = Zp::new(p, 1);
    for e in 0..p {
        assert!(a.pow(&Zp::new(p, e)) == acc);
        acc = acc.mul(a);
    }
}

#[test]
fn mult_phi_reduces_modulo_p_minus_one() {
    let a = Zp::new(7, 5);
    let b = Zp::new(7, 4);
    let r = a.mult_phi(b);
    assert_eq!(r.n, 2);
    assert_eq!(r.p, 7);
    assert_eq!(Zp::new(2, 1).mult_phi(Zp::new(2, 1)).n, 0);
}

#[test]
fn equality_between_elements() {
    let a = Zp::new(7, 3);
    let b = Zp::new(7, 10);
    let c = Zp::new(11, 3);
    assert!(a == a);
    assert!(a == b && b == a);
    assert!(a != c);
    assert!(!(a != b));
}

#[test]
fn equality_with_scalar_ignores_modulus() {
    let a = Zp::new(7, 3);
    let c = Zp::new(11, 3);
    assert!(a == 3usize);
    assert!(c == 3usize);
    assert!(a != 4usize);
}

#[test]
fn renders_value_in_decimal() {
    assert_eq!(Zp::new(617, 561).to_string(), "561");
    assert_eq!(Zp::new(617, 0).to_string(), "0");
    assert_eq!(Zp::new(usize::MAX, 1234567890).to_string(), "1234567890");
}
