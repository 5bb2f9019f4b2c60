use bls12381_fr::batching::{
    batch_columns, combine_claims, commit_observations, commit_steps, extract_column,
    multilinear_eval, opened_values, verify_observations, verify_steps, TranscriptStep,
};
use bls12381_fr::field::Bls12381Fr;
use ff::{Field, PrimeField};
use halo2curves::bls12381::Fr;

type F = Bls12381Fr;

fn lib(x: Fr) -> F {
    F::from_canonical_bytes(x.to_repr().into()).unwrap()
}

fn ext(x: &F) -> Fr {
    Fr::from_repr(x.to_canonical_bytes().into()).unwrap()
}

fn n(v: u64) -> F {
    F::from_canonical_u64(v)
}

/// A 4 x 3 row-major matrix.
fn matrix() -> Vec<F> {
    (1..=12u64).map(|v| n(v * v + 3)).collect()
}

fn mle2(f: &[Fr], z0: Fr, z1: Fr) -> Fr {
    let one = Fr::ONE;
    (one - z0) * (one - z1) * f[0] + (one - z0) * z1 * f[1] + z0 * (one - z1) * f[2] + z0 * z1 * f[3]
}

#[test]
fn batching_combines_columns_with_powers_of_alpha() {
    let m = matrix();
    let alpha = n(5);
    let g = batch_columns(&m, 3, 4, &alpha);
    assert_eq!(g.len(), 4);
    for row in 0..4 {
        let expected = ext(&m[3 * row]) + Fr::from(5u64) * ext(&m[3 * row + 1])
            + Fr::from(25u64) * ext(&m[3 * row + 2]);
        assert_eq!(ext(&g[row]), expected);
    }
}

#[test]
fn batching_a_single_column_keeps_it() {
    let v = vec![n(9), n(8), n(7), n(6)];
    assert_eq!(batch_columns(&v, 1, 4, &n(123)), v);
}

#[test]
fn column_extraction() {
    let m = matrix();
    assert_eq!(extract_column(&m, 3, 4, 1), vec![m[1], m[4], m[7], m[10]]);
}

#[test]
fn multilinear_evaluation_interpolates() {
    let f = vec![n(3), n(10), n(4), n(20)];
    let fe: Vec<Fr> = f.iter().map(ext).collect();
    let z = vec![n(7), n(11)];
    assert_eq!(ext(&multilinear_eval(&f, &z)), mle2(&fe, Fr::from(7u64), Fr::from(11u64)));
    // On the hypercube the extension takes the stored values, MSB first.
    assert_eq!(multilinear_eval(&f, &[F::one(), F::zero()]), n(4));
    assert_eq!(multilinear_eval(&f, &[F::zero(), F::one()]), n(10));
    assert_eq!(multilinear_eval(&[n(42)], &[]), n(42));
}

#[test]
fn verifier_claim_equals_batched_opening() {
    let m = matrix();
    let points = vec![vec![n(2), n(9)], vec![n(100), n(3)]];
    let opened = opened_values(&m, 3, 4, &[points.clone(), points.clone(), points.clone()]);
    assert_eq!(opened.len(), 3);
    let alpha = n(17);
    let claims: Vec<Vec<(Vec<F>, F)>> = (0..3)
        .map(|j| points.iter().cloned().zip(opened[j].iter().cloned()).collect())
        .collect();
    let combined = combine_claims(&claims, &alpha).unwrap();
    let g = batch_columns(&m, 3, 4, &alpha);
    assert_eq!(combined.len(), 2);
    for k in 0..2 {
        assert_eq!(combined[k].0, points[k]);
        assert_eq!(combined[k].1, multilinear_eval(&g, &points[k]));
    }
}

#[test]
fn single_column_openings_and_claims() {
    let v = vec![n(9), n(8), n(7), n(6)];
    assert!(opened_values(&v, 1, 4, &[]).is_empty());
    let point = vec![n(4), n(5)];
    let opened = opened_values(&v, 1, 4, &[vec![point.clone()]]);
    assert_eq!(opened, vec![vec![multilinear_eval(&v, &point)]]);
    let claims = vec![vec![(point.clone(), opened[0][0])]];
    assert_eq!(combine_claims(&claims, &n(99)), Some(claims[0].clone()));
    let none = opened_values(&matrix(), 3, 4, &[]);
    assert_eq!(none, vec![Vec::<F>::new(), Vec::new(), Vec::new()]);
}

#[test]
fn prover_and_verifier_absorb_the_same_values() {
    let points = vec![vec![n(2), n(9)], vec![n(100), n(3)]];
    let sets = vec![points.clone(), points.clone()];
    let committed = commit_observations(&sets, 2);
    let expected = vec![n(2), n(9), n(100), n(3), n(2), n(9), n(100), n(3), F::one(), F::one()];
    assert_eq!(committed, expected);
    let claims: Vec<Vec<(Vec<F>, F)>> =
        (0..2).map(|j| points.iter().map(|p| (p.clone(), n(j))).collect()).collect();
    assert_eq!(verify_observations(&claims), committed);
    assert_eq!(commit_observations(&[], 3), vec![F::one(), F::one(), F::one()]);
}

#[test]
fn combined_claims_use_powers_of_alpha() {
    let p = vec![n(1)];
    let claims = vec![vec![(p.clone(), n(3))], vec![(p.clone(), n(4))], vec![(p.clone(), n(5))]];
    let combined = combine_claims(&claims, &n(10));
    assert_eq!(combined, Some(vec![(p, n(3 + 40 + 500))]));
    let _ = lib(Fr::ONE);
}

#[test]
fn batching_an_empty_matrix() {
    assert!(batch_columns(&[], 3, 0, &n(2)).is_empty());
    assert!(extract_column(&[], 2, 0, 1).is_empty());
}

#[test]
fn commit_opens_each_column_at_its_own_points() {
    // Two columns over two rows: column 0 is [0, 0], column 1 is [0, 1].
    let m = vec![n(0), n(0), n(0), n(1)];
    let opened = opened_values(&m, 2, 2, &[vec![vec![n(0)]], vec![vec![n(1)]]]);
    assert_eq!(opened, vec![vec![n(0)], vec![n(1)]]);
    // A column without an opening set opens nothing.
    let opened = opened_values(&m, 2, 2, &[vec![vec![n(1)], vec![n(0)]]]);
    assert_eq!(opened, vec![vec![n(0), n(0)], vec![]]);
    // With distinct sets of two points each, every value is at the column's own point.
    let sets = vec![vec![vec![n(2)], vec![n(3)]], vec![vec![n(5)], vec![n(7)]]];
    let opened = opened_values(&m, 2, 2, &sets);
    let col1 = extract_column(&m, 2, 2, 1);
    assert_eq!(opened[1], vec![multilinear_eval(&col1, &[n(5)]), multilinear_eval(&col1, &[n(7)])]);
    assert_eq!(ext(&opened[1][0]), Fr::from(5u64));
}

#[test]
fn claims_at_different_points_are_refused() {
    let claims = vec![vec![(vec![n(0)], n(0))], vec![(vec![n(1)], n(1))]];
    assert_eq!(combine_claims(&claims, &n(3)), None);
    let uneven = vec![vec![(vec![n(0)], n(0))], vec![(vec![n(0)], n(1)), (vec![n(2)], n(1))]];
    assert_eq!(combine_claims(&uneven, &n(3)), None);
    let shared = vec![vec![(vec![n(4)], n(1))], vec![(vec![n(4)], n(2))]];
    assert_eq!(combine_claims(&shared, &n(3)), Some(vec![(vec![n(4)], n(7))]));
}

#[test]
fn challenge_is_drawn_after_all_observations() {
    let points = vec![vec![n(2), n(9)]];
    let sets = vec![points.clone(), points.clone()];
    let steps = commit_steps(&sets, 2);
    let mut expected: Vec<TranscriptStep> =
        commit_observations(&sets, 2).into_iter().map(TranscriptStep::Observe).collect();
    expected.push(TranscriptStep::SampleChallenge);
    assert_eq!(steps, expected);
    let single = commit_steps(&[points.clone()], 1);
    assert_eq!(single.len(), 3);
    assert!(single.iter().all(|s| matches!(s, TranscriptStep::Observe(_))));
    let claims: Vec<Vec<(Vec<F>, F)>> =
        (0..2).map(|j| points.iter().map(|p| (p.clone(), n(j))).collect()).collect();
    assert_eq!(verify_steps(&claims), steps);
}
