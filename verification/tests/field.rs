use bls12381_fr::field::Bls12381Fr;
use ff::PrimeField;
use halo2curves::bls12381::Fr as FFBls12381Fr;
use num_bigint::BigUint;
use num_traits::One;

type F = Bls12381Fr;

/// The library element standing for a `halo2curves` element.
fn new(value: FFBls12381Fr) -> F {
    F::from_canonical_bytes(value.to_repr().into()).unwrap()
}

fn order() -> BigUint {
    BigUint::new(F::order_u32_digits())
}

fn as_canonical_biguint(x: &F) -> BigUint {
    BigUint::from_bytes_le(&x.to_canonical_bytes())
}

fn serde_round_trip(x: &F) -> F {
    let serialized = serde_json::to_string(&x.to_raw_bytes()).unwrap();
    let bytes: Vec<u8> = serde_json::from_str(&serialized).unwrap();
    F::from_raw_bytes(&bytes).unwrap()
}

#[test]
fn test_bls12381fr() {
    let f = new(FFBls12381Fr::from_u128(100));
    assert_eq!(as_canonical_biguint(&f), BigUint::new(vec![100]));

    let f = F::from_canonical_u64(0);
    assert!(f.is_zero());

    let f = new(FFBls12381Fr::from_str_vartime(&order().to_str_radix(10)).unwrap());
    assert!(f.is_zero());

    assert_eq!(as_canonical_biguint(&F::generator()), BigUint::new(vec![7]));

    let f_1 = new(FFBls12381Fr::from_u128(1));
    let f_1_copy = new(FFBls12381Fr::from_u128(1));

    let expected_result = F::zero();
    assert_eq!(f_1.sub(&f_1_copy), expected_result);

    let expected_result = new(FFBls12381Fr::from_u128(2));
    assert_eq!(f_1.add(&f_1_copy), expected_result);

    let f_2 = new(FFBls12381Fr::from_u128(2));
    let expected_result = new(FFBls12381Fr::from_u128(3));
    assert_eq!(f_1.add(&f_1_copy.mul(&f_2)), expected_result);

    let expected_result = new(FFBls12381Fr::from_u128(5));
    assert_eq!(f_1.add(&f_2.mul(&f_2)), expected_result);

    let f_r_minus_1 = new(
        FFBls12381Fr::from_str_vartime(&(order() - BigUint::one()).to_str_radix(10)).unwrap(),
    );
    let expected_result = F::zero();
    assert_eq!(f_1.add(&f_r_minus_1), expected_result);

    let f_r_minus_2 = new(
        FFBls12381Fr::from_str_vartime(&(order() - BigUint::new(vec![2])).to_str_radix(10))
            .unwrap(),
    );
    let expected_result = new(
        FFBls12381Fr::from_str_vartime(&(order() - BigUint::new(vec![3])).to_str_radix(10))
            .unwrap(),
    );
    assert_eq!(f_r_minus_1.add(&f_r_minus_2), expected_result);

    let expected_result = new(FFBls12381Fr::from_u128(1));
    assert_eq!(f_r_minus_1.sub(&f_r_minus_2), expected_result);

    let expected_result = f_r_minus_1;
    assert_eq!(f_r_minus_2.sub(&f_r_minus_1), expected_result);

    let expected_result = f_r_minus_2;
    assert_eq!(f_r_minus_1.sub(&f_1), expected_result);

    let expected_result = new(FFBls12381Fr::from_u128(3));
    assert_eq!(f_2.mul(&f_2).sub(&f_1), expected_result);

    // Generator check
    let expected_multiplicative_group_generator = new(FFBls12381Fr::from_u128(7));
    assert_eq!(F::generator(), expected_multiplicative_group_generator);

    let f_deserialized = serde_round_trip(&f);
    assert_eq!(f, f_deserialized);

    let f_1_deserialized = serde_round_trip(&f_1);
    let f_1_deserialized_again = serde_round_trip(&f_1_deserialized);
    assert_eq!(f_1, f_1_deserialized);
    assert_eq!(f_1, f_1_deserialized_again);

    let f_2_deserialized = serde_round_trip(&f_2);
    assert_eq!(f_2, f_2_deserialized);

    let f_r_minus_1_deserialized = serde_round_trip(&f_r_minus_1);
    assert_eq!(f_r_minus_1, f_r_minus_1_deserialized);

    let f_r_minus_2_deserialized = serde_round_trip(&f_r_minus_2);
    assert_eq!(f_r_minus_2, f_r_minus_2_deserialized);
}
