use bls12381_fr::field::Bls12381Fr;
use bls12381_fr::poseidon2::{
    diffusion_matrix_3, Poseidon2Bls12381, Poseidon2ExternalLayerBls12381,
    Poseidon2InternalLayerBls12381,
};
use ff::{Field, PrimeField};
use halo2curves::bls12381::Fr;
use rand::Rng;
use zkhash::ark_ff::{BigInteger, PrimeField as ArkPrimeField};
use zkhash::fields::bls12::FpBLS12 as ark_FpBLS12;
use zkhash::poseidon2::poseidon2::Poseidon2 as Poseidon2Ref;
use zkhash::poseidon2::poseidon2_instance_bls12::{POSEIDON2_BLS_3_PARAMS, RC3};

type F = Bls12381Fr;

fn lib(x: Fr) -> F {
    F::from_canonical_bytes(x.to_repr().into()).unwrap()
}

fn ext(x: &F) -> Fr {
    Fr::from_repr(x.to_canonical_bytes().into()).unwrap()
}

fn sbox(x: Fr) -> Fr {
    x.square().square() * x
}

fn internal_round(s: [Fr; 3], rc: Fr) -> [Fr; 3] {
    let s0 = sbox(s[0] + rc);
    let sum = s0 + s[1] + s[2];
    [s0 + sum, s[1] + sum, s[2].double() + sum]
}

fn external_matmul(s: [Fr; 3]) -> [Fr; 3] {
    let sum = s[0] + s[1] + s[2];
    [s[0] + sum, s[1] + sum, s[2] + sum]
}

fn external_round(s: [Fr; 3], rc: [Fr; 3]) -> [Fr; 3] {
    external_matmul([sbox(s[0] + rc[0]), sbox(s[1] + rc[1]), sbox(s[2] + rc[2])])
}

fn constants(seed: u64, n: usize) -> Vec<Fr> {
    (0..n as u64).map(|i| Fr::from(seed * 1000 + i) * Fr::from(0x9e3779b97f4a7c15u64)).collect()
}

fn triples(seed: u64, n: usize) -> Vec<[Fr; 3]> {
    let c = constants(seed, 3 * n);
    (0..n).map(|i| [c[3 * i], c[3 * i + 1], c[3 * i + 2]]).collect()
}

fn to_lib3(s: [Fr; 3]) -> [F; 3] {
    [lib(s[0]), lib(s[1]), lib(s[2])]
}

fn to_ext3(s: &[F; 3]) -> [Fr; 3] {
    [ext(&s[0]), ext(&s[1]), ext(&s[2])]
}

#[test]
fn diffusion_matrix_is_one_one_two() {
    let d = diffusion_matrix_3();
    assert_eq!(d, [F::one(), F::one(), F::two()]);
}

#[test]
fn internal_layer_matches_reference_rounds() {
    let rcs = constants(1, 5);
    let layer = Poseidon2InternalLayerBls12381::new_from_constants(rcs.iter().map(|c| lib(*c)).collect());
    let input = [Fr::from(1u64), Fr::from(2u64), Fr::from(3u64)];
    let mut state = to_lib3(input);
    layer.permute_state(&mut state);
    let mut expected = input;
    for rc in &rcs {
        expected = internal_round(expected, *rc);
    }
    assert_eq!(to_ext3(&state), expected);
}

#[test]
fn internal_layer_without_constants_is_identity() {
    let layer = Poseidon2InternalLayerBls12381::new_from_constants(Vec::new());
    let mut state = [F::one(), F::two(), F::generator()];
    layer.permute_state(&mut state);
    assert_eq!(state, [F::one(), F::two(), F::generator()]);
}

#[test]
fn external_layers_match_reference_rounds() {
    let initial = triples(2, 4);
    let terminal = triples(3, 4);
    let layer = Poseidon2ExternalLayerBls12381::new(
        initial.iter().map(|t| to_lib3(*t)).collect(),
        terminal.iter().map(|t| to_lib3(*t)).collect(),
    );
    assert_eq!(layer.get_initial_constants().len(), 4);
    assert_eq!(layer.get_terminal_constants()[0], to_lib3(terminal[0]));
    let input = [Fr::from(5u64), Fr::ZERO, -Fr::ONE];

    let mut state = to_lib3(input);
    layer.permute_state_initial(&mut state);
    let mut expected = external_matmul(input);
    for rc in &initial {
        expected = external_round(expected, *rc);
    }
    assert_eq!(to_ext3(&state), expected);

    let mut state = to_lib3(input);
    layer.permute_state_terminal(&mut state);
    let mut expected = input;
    for rc in &terminal {
        expected = external_round(expected, *rc);
    }
    assert_eq!(to_ext3(&state), expected);
}

#[test]
fn external_matrix_separates_distinct_states() {
    let layer = Poseidon2ExternalLayerBls12381::new(Vec::new(), Vec::new());
    let inputs = [
        [Fr::ONE, Fr::ZERO, Fr::ZERO],
        [Fr::ZERO, Fr::ONE, Fr::ZERO],
        [Fr::ZERO, Fr::ZERO, Fr::ONE],
        [Fr::ONE, Fr::ONE, -Fr::from(2u64)],
        [Fr::ONE, Fr::ONE, -Fr::ONE],
    ];
    let mut outputs = Vec::new();
    for input in inputs {
        let mut state = to_lib3(input);
        layer.permute_state_initial(&mut state);
        assert_eq!(to_ext3(&state), external_matmul(input));
        outputs.push(state);
    }
    for i in 0..outputs.len() {
        for j in 0..i {
            assert_ne!(outputs[i], outputs[j]);
        }
    }
    let mut zero = [F::zero(); 3];
    layer.permute_state_initial(&mut zero);
    assert_eq!(zero, [F::zero(); 3]);
}

#[test]
fn permutation_composes_the_layers() {
    let initial = triples(4, 4);
    let terminal = triples(5, 4);
    let internal = constants(6, 56);
    let external = Poseidon2ExternalLayerBls12381::new(
        initial.iter().map(|t| to_lib3(*t)).collect(),
        terminal.iter().map(|t| to_lib3(*t)).collect(),
    );
    let poseidon2 = Poseidon2Bls12381::new(external, internal.iter().map(|c| lib(*c)).collect());
    let input = [Fr::from(0u64), Fr::from(1u64), Fr::from(2u64)];

    let mut expected = external_matmul(input);
    for rc in &initial {
        expected = external_round(expected, *rc);
    }
    for rc in &internal {
        expected = internal_round(expected, *rc);
    }
    for rc in &terminal {
        expected = external_round(expected, *rc);
    }

    let output = poseidon2.permute(to_lib3(input));
    assert_eq!(to_ext3(&output), expected);
    let mut state = to_lib3(input);
    poseidon2.permute_mut(&mut state);
    assert_eq!(state, output);
    assert_ne!(output, to_lib3(input));
}

#[test]
fn sbox_degree_is_smallest_coprime_to_order_minus_one() {
    let digits = F::order_u32_digits();
    let r_minus_1 = num_bigint::BigUint::new(digits) - num_bigint::BigUint::from(1u8);
    let zero = num_bigint::BigUint::from(0u8);
    assert_eq!(&r_minus_1 % 2u8, zero);
    assert_eq!(&r_minus_1 % 3u8, zero);
    assert_eq!(&r_minus_1 % 4u8, zero);
    assert_ne!(&r_minus_1 % 5u8, zero);
    assert_eq!(bls12381_fr::poseidon2::BLS12381_S_BOX_DEGREE, 5);
    assert_eq!(bls12381_fr::poseidon2::BLS12381_WIDTH, 3);
}

fn bls12_from_ark_ff(input: ark_FpBLS12) -> F {
    let bytes = input.into_bigint().to_bytes_le();
    let mut res = [0u8; 32];
    for (i, digit) in res.iter_mut().enumerate() {
        *digit = bytes[i];
    }
    match F::from_canonical_bytes(res) {
        Some(value) => value,
        None => panic!("Invalid field element"),
    }
}

#[test]
fn test_poseidon2_bls12381() {

    const WIDTH: usize = 3;
    const ROUNDS_F: usize = 8;
    const ROUNDS_P: usize = 56;

    let mut rng = rand::thread_rng();

    // Poseidon2 reference implementation from zkhash.
    let poseidon2_ref = Poseidon2Ref::new(&POSEIDON2_BLS_3_PARAMS);

    // Copy over round constants from zkhash.
    let mut round_constants: Vec<[F; WIDTH]> = RC3
        .iter()
        .map(|vec| {
            vec.iter()
                .cloned()
                .map(bls12_from_ark_ff)
                .collect::<Vec<_>>()
                .try_into()
                .unwrap()
        })
        .collect();

    let internal_start = ROUNDS_F / 2;
    let internal_end = (ROUNDS_F / 2) + ROUNDS_P;
    let internal_round_constants = round_constants
        .drain(internal_start..internal_end)
        .map(|vec| vec[0])
        .collect::<Vec<_>>();
    let external_round_constants = Poseidon2ExternalLayerBls12381::new(
        round_constants[..(ROUNDS_F / 2)].to_vec(),
        round_constants[(ROUNDS_F / 2)..].to_vec(),
    );
    let poseidon2 = Poseidon2Bls12381::new(external_round_constants, internal_round_constants);

    // Generate random input in both representations.
    let input_ark_ff = rng.gen::<[ark_FpBLS12; WIDTH]>();
    let input: [F; 3] = input_ark_ff
        .iter()
        .cloned()
        .map(bls12_from_ark_ff)
        .collect::<Vec<_>>()
        .try_into()
        .unwrap();

    // Run reference implementation.
    let output_ref = poseidon2_ref.permutation(&input_ark_ff);

    let expected: [F; WIDTH] = output_ref
        .iter()
        .cloned()
        .map(bls12_from_ark_ff)
        .collect::<Vec<_>>()
        .try_into()
        .unwrap();

    // Run our implementation.
    let mut output = input;
    poseidon2.permute_mut(&mut output);

    assert_eq!(output, expected);
}
