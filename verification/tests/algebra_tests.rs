use algebra::algebra::{ext_gcd, gcd, AlgebraError, EuclideanDomain, Field, Group, Ring};
use algebra::std_impls::{mod_inv, AdditiveGroupZM, ZM};

#[test]
fn gcd_concrete() {
    assert_eq!(gcd(&48i64, &18i64), 6);
    assert_eq!(gcd(&18i64, &48i64), 6);
    assert_eq!(gcd(&0i64, &5i64), 5);
    assert_eq!(gcd(&5i64, &0i64), 5);
    assert_eq!(gcd(&7i64, &13i64), 1);
    assert_eq!(gcd(&-48i64, &18i64).abs(), 6);
}

#[test]
fn ext_gcd_concrete() {
    let (g, x, y) = ext_gcd(48i64, 18i64).unwrap();
    assert_eq!(g, 6);
    assert_eq!(48 * x + 18 * y, 6);
    assert_eq!((x, y), (-1, 3));
}

#[test]
fn ext_gcd_matches_gcd() {
    for a in 0i64..40 {
        for b in 0i64..40 {
            let (g, x, y) = ext_gcd(a, b).unwrap();
            assert_eq!(g, gcd(&a, &b));
            assert_eq!(a * x + b * y, g);
        }
    }
}

#[test]
fn mod_inv_concrete() {
    // the raw Bézout coefficient; reduced modulo 13 it is 10
    assert_eq!(mod_inv(4i64, 13i64), Ok(-3));
    assert_eq!((4 * -3i64).rem_euclid(13), 1);
}

#[test]
fn zm_inverse_concrete() {
    let four = ZM::from_int(13, 4);
    let inv = four.inverse().unwrap();
    assert_eq!(inv, ZM::from_int(13, 10));
    assert_eq!(four.mul(&inv), ZM::from_int(13, 1));
}

#[test]
fn zm_division_round_trip() {
    let four = ZM::from_int(13, 4);
    let one = four.div(&four).unwrap();
    assert_eq!(one, ZM::from_int(13, 1));
}

#[test]
fn zm_canonical_residue() {
    assert_eq!(ZM::from_int(7, -3), ZM::from_int(7, 4));
    assert_eq!(ZM::from_int(7, -3).val, 4);
    assert_eq!(ZM::from_int(7, 21).val, 0);
    assert_eq!(ZM::from_int(7, i64::MIN).val, (i64::MIN).rem_euclid(7) as u64);
    for x in -30i64..30 {
        let r = ZM::from_int(7, x);
        assert!(r.val < 7);
        assert_eq!(r.val as i64, x.rem_euclid(7));
    }
}

#[test]
fn zm_ring_ops() {
    let a = ZM::from_int(13, 9);
    let b = ZM::from_int(13, 7);
    assert_eq!(a.add(&b).val, 3);
    assert_eq!(a.sub(&b).val, 2);
    assert_eq!(b.sub(&a).val, 11);
    assert_eq!(a.mul(&b).val, (9 * 7) % 13);
    assert_eq!(a.neg().val, 4);
    assert_eq!(Ring::zero(&a).val, 0);
    assert_eq!(Ring::one(&a).val, 1);
    assert!(ZM::from_int(13, 0).is_zero());
    assert!(!a.is_zero());
}

#[test]
fn zm_assign_ops() {
    let mut a = ZM::from_int(13, 9);
    let b = ZM::from_int(13, 7);
    a.add_assign(&b);
    assert_eq!(a.val, 3);
    a.sub_assign(&b);
    assert_eq!(a.val, 9);
    a.mul_assign(&b);
    assert_eq!(a.val, (9 * 7) % 13);
    let mut c = ZM::from_int(13, 4);
    c.div_assign(&ZM::from_int(13, 4)).unwrap();
    assert_eq!(c.val, 1);
    let before = c;
    assert_eq!(
        c.div_assign(&ZM::from_int(13, 0)),
        Err(AlgebraError::DivisionByZero)
    );
    assert_eq!(c, before);
}

#[test]
fn zm_division_by_zero_fails() {
    let a = ZM::from_int(13, 5);
    assert_eq!(a.div(&ZM::from_int(13, 0)), Err(AlgebraError::DivisionByZero));
    assert_eq!(
        ZM::from_int(13, 0).inverse(),
        Err(AlgebraError::DivisionByZero)
    );
    assert_eq!(
        ZM::from_int(101, 0).inverse(),
        Err(AlgebraError::DivisionByZero)
    );
}

#[test]
fn zm_mixed_moduli_fail_fast() {
    let a = ZM::from_int(13, 5);
    let b = ZM::from_int(7, 5);
    assert_eq!(a.div(&b), Err(AlgebraError::PreconditionViolation));
    assert_eq!(Ring::checked_mul(&a, &b), None);
    assert_eq!(Ring::checked_sub(&a, &b), None);
}

#[test]
fn zm_power() {
    let two = ZM::from_int(13, 2);
    assert_eq!(two.power(5).unwrap().val, 6);
    assert_eq!(two.power(0).unwrap().val, 1);
    // negative exponents route through inversion: 2 * 7 == 14 == 1 (mod 13)
    assert_eq!(two.power(-1).unwrap().val, 7);
    assert_eq!(two.power(-2).unwrap().val, (7 * 7) % 13);
    assert_eq!(
        ZM::from_int(13, 0).power(-1),
        Err(AlgebraError::DivisionByZero)
    );
}

#[test]
fn zm_field_inverse_all_nonzero() {
    for x in 1u64..13 {
        let a = ZM::from_int(13, x as i64);
        let inv = a.inverse().unwrap();
        assert_eq!(a.mul(&inv).val, 1);
    }
}

#[test]
fn zm_convert_re_reduces() {
    let big = ZM::from_int(13, 12);
    let small = ZM::convert(5, big);
    assert_eq!(small, ZM::from_int(5, 2));
}

#[test]
fn zm_random_is_canonical() {
    for _ in 0..50 {
        let r = ZM::rnd(13);
        assert!(r.val < 13);
        assert_eq!(r.modulus, 13);
    }
}

#[test]
fn group_addition() {
    let three = AdditiveGroupZM::from_int(5, 3);
    let four = AdditiveGroupZM::from_int(5, 4);
    assert_eq!(three.add(&four), AdditiveGroupZM::from_int(5, 2));
}

#[test]
fn group_inverse_law() {
    for x in -10i64..10 {
        let a = AdditiveGroupZM::from_int(5, x);
        assert_eq!(a.mul(&a.inverse()), a.identity());
        assert_eq!(a.add(&a.neg()).val, 0);
    }
}

#[test]
fn group_degenerate_aliases() {
    let one = AdditiveGroupZM::from_int(5, 1);
    let three = AdditiveGroupZM::from_int(5, 3);
    // mul is addition, div is subtraction
    assert_eq!(one.mul(&three), one.add(&three));
    assert_eq!(one.div(&three), AdditiveGroupZM::from_int(5, -2));
    let mut a = one;
    a.mul_assign(&three);
    assert_eq!(a.val, 4);
    a.div_assign(&three);
    assert_eq!(a.val, 1);
    a.add_assign(&three);
    a.sub_assign(&three);
    assert_eq!(a.val, 1);
}

#[test]
fn group_random_in_range() {
    for _ in 0..50 {
        let r = AdditiveGroupZM::random(7);
        assert!(r.val < 7);
        assert_eq!(r.modulus, 7);
    }
}

#[test]
fn int_ring_identities() {
    assert_eq!(Ring::zero(&5i64), 0);
    assert_eq!(Ring::one(&5i64), 1);
    assert!(Ring::is_zero(&0i32));
    assert!(!Ring::is_zero(&3i32));
    assert_eq!(Ring::add(&2i64, &3i64), 5);
    assert_eq!(Ring::sub(&2i64, &3i64), -1);
    assert_eq!(Ring::mul(&2i64, &3i64), 6);
    assert_eq!(Ring::neg(&2i64), -2);
    assert_eq!(Ring::add(&2i8, &3i8), 5);
    assert_eq!(Ring::mul(&2i16, &3i16), 6);
    assert_eq!(Ring::mul(&2i128, &3i128), 6);
}

#[test]
fn int_power() {
    assert_eq!(Ring::power(&2i64, 10), Ok(1024));
    assert_eq!(Ring::power(&0i64, 0), Ok(1));
    assert_eq!(Ring::power(&-3i64, 3), Ok(-27));
    assert_eq!(Ring::power(&2i64, -1), Err(AlgebraError::UnsupportedOperation));
    assert_eq!(Ring::power(&10i64, 50), Err(AlgebraError::Overflow));
    assert_eq!(Ring::power(&2i8, 7), Err(AlgebraError::Overflow));
    assert_eq!(Ring::power(&-2i8, 7), Ok(-128));
    assert_eq!(Ring::power(&2i32, 31), Err(AlgebraError::Overflow));
    assert_eq!(Ring::power(&2i128, 100), Ok(1i128 << 100));
    assert_eq!(Ring::power(&2i128, 127), Err(AlgebraError::Overflow));
}

#[test]
fn euclidean_domain_i64() {
    assert_eq!(EuclideanDomain::euc_size(&-5i64), 5);
    assert_eq!(EuclideanDomain::euc_size(&5i64), 5);
    assert_eq!(EuclideanDomain::quotient_and_remainder(&7i64, &2i64), (3, 1));
    assert_eq!(EuclideanDomain::quotient_and_remainder(&-7i64, &2i64), (-3, -1));
    assert_eq!(EuclideanDomain::quotient_and_remainder(&7i64, &-2i64), (-3, 1));
    assert_eq!(EuclideanDomain::quotient_and_remainder(&-7i64, &-2i64), (3, -1));
}

#[test]
fn checked_ring_ops() {
    assert_eq!(Ring::checked_mul(&3i64, &4i64), Some(12));
    assert_eq!(Ring::checked_mul(&i64::MAX, &2i64), None);
    assert_eq!(Ring::checked_sub(&3i64, &4i64), Some(-1));
    assert_eq!(Ring::checked_sub(&i64::MIN, &1i64), None);
}

#[test]
fn mod_inv_not_coprime_is_not_an_inverse() {
    // the documented sharp edge: when the operands are not coprime the
    // returned coefficient is not a multiplicative inverse, and no
    // coprimality check is made
    let i = mod_inv(4i64, 6i64).unwrap();
    assert_eq!(i, -1);
    assert_ne!((4 * i).rem_euclid(6), 1);
}

#[test]
fn ext_gcd_with_zero_operands() {
    assert_eq!(ext_gcd(0i64, 9i64), Ok((9, 0, 1)));
    assert_eq!(ext_gcd(9i64, 0i64), Ok((9, 1, 0)));
    assert_eq!(ext_gcd(0i64, 0i64), Ok((0, 0, 1)));
    let (g, x, y) = ext_gcd(9i64, 0i64).unwrap();
    assert_eq!(9 * x + 0 * y, g);
}

#[test]
fn zm_power_fermat_instance() {
    // 2^12 == 4096 == 1 (mod 13)
    assert_eq!(ZM::from_int(13, 2).power(12).unwrap().val, 1);
    assert_eq!(ZM::from_int(13, 2).power(13).unwrap().val, 2);
}
