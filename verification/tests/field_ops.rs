use std::cmp::Ordering;

use bls12381_fr::field::Bls12381Fr;
use ff::{Field, PrimeField};
use halo2curves::bls12381::Fr;
use halo2curves::serde::SerdeObject;
use num_bigint::BigUint;

type F = Bls12381Fr;

fn lib(x: Fr) -> F {
    F::from_canonical_bytes(x.to_repr().into()).unwrap()
}

fn ext(x: &F) -> Fr {
    Fr::from_repr(x.to_canonical_bytes().into()).unwrap()
}

fn modulus() -> BigUint {
    BigUint::parse_bytes(
        b"52435875175126190479447740508185965837690552500527637822603658699938581184513",
        10,
    )
    .unwrap()
}

fn value(x: &F) -> BigUint {
    BigUint::from_bytes_le(&x.to_canonical_bytes())
}

fn sample() -> Vec<F> {
    vec![
        F::zero(),
        F::one(),
        F::two(),
        F::neg_one(),
        F::generator(),
        lib(Fr::from_u128(0x1234_5678_9abc_def0_1122_3344_5566_7788)),
        lib(Fr::from_str_vartime("4242424242424242424242424242424242424242424242").unwrap()),
    ]
}

#[test]
fn constants_have_their_values() {
    assert_eq!(value(&F::zero()), BigUint::from(0u8));
    assert_eq!(value(&F::one()), BigUint::from(1u8));
    assert_eq!(value(&F::two()), BigUint::from(2u8));
    assert_eq!(value(&F::neg_one()), modulus() - BigUint::from(1u8));
    assert_eq!(value(&F::generator()), BigUint::from(7u8));
    assert_eq!(F::default(), F::zero());
}

#[test]
fn order_digits_give_the_modulus() {
    assert_eq!(BigUint::new(F::order_u32_digits()), modulus());
}

#[test]
fn group_factors_multiply_to_order_minus_one() {
    let factors = F::multiplicative_group_factors();
    assert_eq!(factors.len(), 12);
    assert_eq!(factors[0], (2, 32));
    assert_eq!(factors[11], (254760293, 2));
    let mut product = BigUint::from(1u8);
    for (p, e) in factors {
        product *= BigUint::from(p).pow(e as u32);
    }
    assert_eq!(product, modulus() - BigUint::from(1u8));
}

#[test]
fn group_factors_are_prime() {
    for (p, e) in F::multiplicative_group_factors() {
        assert!(p > 1 && e >= 1);
        let mut d: u64 = 2;
        while d * d <= p as u64 {
            assert_ne!(p as u64 % d, 0, "{} has the divisor {}", p, d);
            d += 1;
        }
    }
}

#[test]
fn generator_has_full_order() {
    let r_minus_1 = modulus() - BigUint::from(1u8);
    let seven = BigUint::from(7u8);
    assert_eq!(seven.modpow(&r_minus_1, &modulus()), BigUint::from(1u8));
    for (p, _) in F::multiplicative_group_factors() {
        let e = &r_minus_1 / BigUint::from(p);
        assert_ne!(seven.modpow(&e, &modulus()), BigUint::from(1u8));
    }
    assert_eq!(value(&F::generator()), seven);
}

#[test]
fn conversions_from_integers() {
    assert_eq!(value(&F::from_bool(true)), BigUint::from(1u8));
    assert_eq!(value(&F::from_bool(false)), BigUint::from(0u8));
    assert_eq!(value(&F::from_canonical_u8(200)), BigUint::from(200u8));
    assert_eq!(value(&F::from_canonical_u16(60000)), BigUint::from(60000u16));
    assert_eq!(value(&F::from_canonical_u32(u32::MAX)), BigUint::from(u32::MAX));
    assert_eq!(value(&F::from_canonical_u64(u64::MAX)), BigUint::from(u64::MAX));
    assert_eq!(value(&F::from_canonical_usize(12345)), BigUint::from(12345u32));
    assert_eq!(value(&F::from_wrapped_u32(7)), BigUint::from(7u8));
    assert_eq!(value(&F::from_wrapped_u64(u64::MAX - 1)), BigUint::from(u64::MAX - 1));
}

#[test]
fn arithmetic_agrees_with_halo2curves() {
    for a in sample() {
        for b in sample() {
            assert_eq!(ext(&a.add(&b)), ext(&a) + ext(&b));
            assert_eq!(ext(&a.sub(&b)), ext(&a) - ext(&b));
            assert_eq!(ext(&a.mul(&b)), ext(&a) * ext(&b));
            if !b.is_zero() {
                assert_eq!(a.div(&b).mul(&b), a);
            }
            let mut c = a;
            c.add_assign(&b);
            assert_eq!(c, a.add(&b));
            let mut c = a;
            c.sub_assign(&b);
            assert_eq!(c, a.sub(&b));
            let mut c = a;
            c.mul_assign(&b);
            assert_eq!(c, a.mul(&b));
        }
        assert_eq!(ext(&a.neg()), -ext(&a));
        assert_eq!(a.square(), a.mul(&a));
    }
}

#[test]
fn field_laws_on_samples() {
    for a in sample() {
        assert_eq!(a.add(&F::zero()), a);
        assert_eq!(a.mul(&F::one()), a);
        assert_eq!(a.mul(&F::zero()), F::zero());
        assert_eq!(a.add(&a.neg()), F::zero());
        for b in sample() {
            assert_eq!(a.add(&b), b.add(&a));
            assert_eq!(a.mul(&b), b.mul(&a));
            assert_eq!(a.sub(&b), a.add(&b.neg()));
            assert_eq!(a.sub(&b).add(&b), a);
            for c in sample() {
                assert_eq!(a.add(&b).add(&c), a.add(&b.add(&c)));
                assert_eq!(a.mul(&b).mul(&c), a.mul(&b.mul(&c)));
                assert_eq!(a.mul(&b.add(&c)), a.mul(&b).add(&a.mul(&c)));
            }
        }
    }
}

#[test]
fn inverse_of_zero_is_none_and_others_invert() {
    assert!(F::zero().try_inverse().is_none());
    for a in sample() {
        if a.is_zero() {
            continue;
        }
        let w = a.try_inverse().unwrap();
        assert_eq!(a.mul(&w), F::one());
        assert_eq!(a.inverse(), w);
    }
    assert_eq!(F::two().inverse().mul(&F::two()), F::one());
}

#[test]
fn sum_and_product() {
    assert_eq!(F::sum(&[]), F::zero());
    assert_eq!(F::product(&[]), F::one());
    let v = vec![F::one(), F::two(), F::generator()];
    assert_eq!(value(&F::sum(&v)), BigUint::from(10u8));
    assert_eq!(value(&F::product(&v)), BigUint::from(14u8));
    assert_eq!(F::sum(&[F::one(), F::neg_one()]), F::zero());
}

#[test]
fn compare_orders_by_value() {
    assert_eq!(F::one().compare(&F::two()), Ordering::Less);
    assert_eq!(F::neg_one().compare(&F::two()), Ordering::Greater);
    assert_eq!(F::generator().compare(&F::from_canonical_u8(7)), Ordering::Equal);
    let big = lib(Fr::from_u128(1u128 << 100));
    assert_eq!(F::from_canonical_u64(u64::MAX).compare(&big), Ordering::Less);
}

#[test]
fn canonical_bytes_round_trip_and_reject_r() {
    for a in sample() {
        assert_eq!(F::from_canonical_bytes(a.to_canonical_bytes()), Some(a));
    }
    let mut r_bytes = [0u8; 32];
    let digits = modulus().to_bytes_le();
    r_bytes.copy_from_slice(&digits);
    assert_eq!(F::from_canonical_bytes(r_bytes), None);
    assert_eq!(F::from_canonical_bytes([0xff; 32]), None);
}

#[test]
fn raw_bytes_are_montgomery_form() {
    for a in sample() {
        let raw = a.to_raw_bytes();
        assert_eq!(raw, ext(&a).to_raw_bytes());
        let r256 = BigUint::from(1u8) << 256;
        assert_eq!(BigUint::from_bytes_le(&raw), (value(&a) * r256) % modulus());
        assert_eq!(F::from_raw_bytes(&raw), Some(a));
    }
    assert_eq!(value(&F::from_raw_bytes(&[0u8; 32]).unwrap()), BigUint::from(0u8));
    assert_eq!(F::from_raw_bytes(&[0u8; 31]), None);
    assert_eq!(F::from_raw_bytes(&[0u8; 33]), None);
    assert_eq!(F::from_raw_bytes(&[0xff; 32]), None);
}

#[test]
fn two_adic_generators_have_their_order() {
    assert_eq!(F::two_adicity(), 32);
    assert_eq!(ext(&F::two_adic_generator(32)), Fr::ROOT_OF_UNITY);
    assert_eq!(F::two_adic_generator(33), F::two_adic_generator(32));
    assert_eq!(F::two_adic_generator(0), F::one());
    assert_eq!(F::two_adic_generator(1), F::neg_one());
    for bits in 1..=32usize {
        let g = F::two_adic_generator(bits);
        let mut x = g;
        for _ in 0..bits - 1 {
            x = x.square();
        }
        assert_eq!(x, F::neg_one());
        assert_eq!(x.square(), F::one());
    }
}

#[test]
fn root_of_unity_is_seven_to_the_odd_part() {
    let t = (modulus() - BigUint::from(1u8)) >> 32;
    let expected = BigUint::from(7u8).modpow(&t, &modulus());
    assert_eq!(value(&F::two_adic_generator(32)), expected);
    assert!(Fr::ONE.is_zero_vartime() == false);
}
