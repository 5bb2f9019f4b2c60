//! Laws of the column batching: evaluating the batched column is batching
//! the column evaluations, and prover and verifier absorb the same values.

use vstd::arithmetic::div_mod::{
    lemma_add_mod_noop, lemma_mod_twice, lemma_mul_mod_noop, lemma_small_mod, lemma_sub_mod_noop,
};
use vstd::arithmetic::div_mod::{lemma_add_mod_noop_right, lemma_mul_mod_noop_left};
use vstd::arithmetic::mul::lemma_mul_is_commutative;
use vstd::arithmetic::power::pow;
use vstd::arithmetic::power2::{lemma_pow2_pos, lemma_pow2_unfold, pow2};
use vstd::prelude::*;

use crate::arith::{fadd, fmul, fpow, fsub, modulus};
use crate::batching::{
    batched, claim_points, claimed_at, column_of, commit_transcript, fcombine, flat_point_sets,
    flat_points, lemma_row_index, mle, point_values, row_of,
};
use crate::field::{values, Bls12381Fr};

verus! {

/// `x` and `y` are congruent modulo `r`.
pub open spec fn congruent(x: int, y: int) -> bool {
    x % (modulus() as int) == y % (modulus() as int)
}

proof fn cong_add(x: int, xx: int, y: int, yy: int)
    requires
        congruent(x, xx),
        congruent(y, yy),
    ensures
        congruent(x + y, xx + yy),
{
    lemma_add_mod_noop(x, y, modulus() as int);
    lemma_add_mod_noop(xx, yy, modulus() as int);
}

proof fn cong_sub(x: int, xx: int, y: int, yy: int)
    requires
        congruent(x, xx),
        congruent(y, yy),
    ensures
        congruent(x - y, xx - yy),
{
    lemma_sub_mod_noop(x, y, modulus() as int);
    lemma_sub_mod_noop(xx, yy, modulus() as int);
}

proof fn cong_mul(x: int, xx: int, y: int, yy: int)
    requires
        congruent(x, xx),
        congruent(y, yy),
    ensures
        congruent(x * y, xx * yy),
{
    lemma_mul_mod_noop(x, y, modulus() as int);
    lemma_mul_mod_noop(xx, yy, modulus() as int);
}

proof fn cong_fadd(a: nat, b: nat)
    ensures
        congruent(fadd(a, b) as int, (a + b) as int),
{
    lemma_mod_twice((a + b) as int, modulus() as int);
}

proof fn cong_fmul(a: nat, b: nat)
    ensures
        congruent(fmul(a, b) as int, (a * b) as int),
{
    lemma_mod_twice((a * b) as int, modulus() as int);
}

proof fn cong_fsub(a: nat, b: nat)
    ensures
        congruent(fsub(a, b) as int, a - b),
{
    lemma_mod_twice(a - b, modulus() as int);
}

proof fn cong_eq(x: nat, y: nat)
    requires
        x < modulus(),
        y < modulus(),
        congruent(x as int, y as int),
    ensures
        x == y,
{
    lemma_small_mod(x, modulus());
    lemma_small_mod(y, modulus());
}

/// Interpolation along one coordinate is linear in the two endpoints.
proof fn lemma_interpolation_linear(a: nat, b: nat, x: nat, y: nat, c: nat, z: nat)
    ensures
        ({
            let lo = fadd(a, fmul(c, x));
            let hi = fadd(b, fmul(c, y));
            fadd(lo, fmul(z, fsub(hi, lo)))
        }) == fadd(
            fadd(a, fmul(z, fsub(b, a))),
            fmul(c, fadd(x, fmul(z, fsub(y, x)))),
        ),
{
    let (ai, bi, xi, yi, ci, zi) = (a as int, b as int, x as int, y as int, c as int, z as int);
    let cx = fmul(c, x);
    let cy = fmul(c, y);
    cong_fmul(c, x);
    cong_fmul(c, y);
    let lo = fadd(a, cx);
    let hi = fadd(b, cy);
    cong_fadd(a, cx);
    cong_fadd(b, cy);
    cong_add(ai, ai, cx as int, ci * xi);
    cong_add(bi, bi, cy as int, ci * yi);
    let d = fsub(hi, lo);
    cong_fsub(hi, lo);
    cong_sub(hi as int, bi + ci * yi, lo as int, ai + ci * xi);
    let zd = fmul(z, d);
    cong_fmul(z, d);
    cong_mul(zi, zi, d as int, (bi + ci * yi) - (ai + ci * xi));
    let lhs = fadd(lo, zd);
    cong_fadd(lo, zd);
    cong_add(lo as int, ai + ci * xi, zd as int, zi * ((bi + ci * yi) - (ai + ci * xi)));
    let p = (ai + ci * xi) + zi * ((bi + ci * yi) - (ai + ci * xi));

    let d1 = fsub(b, a);
    cong_fsub(b, a);
    let zd1 = fmul(z, d1);
    cong_fmul(z, d1);
    cong_mul(zi, zi, d1 as int, bi - ai);
    let left = fadd(a, zd1);
    cong_fadd(a, zd1);
    cong_add(ai, ai, zd1 as int, zi * (bi - ai));
    let d2 = fsub(y, x);
    cong_fsub(y, x);
    let zd2 = fmul(z, d2);
    cong_fmul(z, d2);
    cong_mul(zi, zi, d2 as int, yi - xi);
    let inner = fadd(x, zd2);
    cong_fadd(x, zd2);
    cong_add(xi, xi, zd2 as int, zi * (yi - xi));
    let right = fmul(c, inner);
    cong_fmul(c, inner);
    cong_mul(ci, ci, inner as int, xi + zi * (yi - xi));
    let rhs = fadd(left, right);
    cong_fadd(left, right);
    cong_add(left as int, ai + zi * (bi - ai), right as int, ci * (xi + zi * (yi - xi)));
    let q = (ai + zi * (bi - ai)) + ci * (xi + zi * (yi - xi));

    assert((ai + ci * xi) + zi * ((bi + ci * yi) - (ai + ci * xi)) == (ai + zi * (bi - ai)) + ci * (
    xi + zi * (yi - xi))) by (nonlinear_arith);
    cong_eq(lhs, rhs);
}

/// The pointwise combination `f + c * g` in the field.
pub open spec fn add_scaled(f: Seq<nat>, c: nat, g: Seq<nat>) -> Seq<nat> {
    Seq::new(f.len(), |i: int| fadd(f[i], fmul(c, g[i])))
}

/// All values of the sequence are field elements.
pub open spec fn reduced(f: Seq<nat>) -> bool {
    forall|i: int| 0 <= i < f.len() ==> #[trigger] f[i] < modulus()
}

proof fn lemma_mle_bounded(f: Seq<nat>, z: Seq<nat>)
    requires
        f.len() == pow2(z.len()),
        reduced(f),
    ensures
        mle(f, z) < modulus(),
    decreases z.len(),
{
    if z.len() == 0 {
        lemma_pow2_pos(0);
    }
}

/// Evaluating the multilinear extension is linear: `(f + c g)(z) = f(z) + c g(z)`.
pub proof fn lemma_mle_linear(f: Seq<nat>, c: nat, g: Seq<nat>, z: Seq<nat>)
    requires
        f.len() == pow2(z.len()),
        g.len() == f.len(),
        reduced(f),
        reduced(g),
    ensures
        mle(add_scaled(f, c, g), z) == fadd(mle(f, z), fmul(c, mle(g, z))),
    decreases z.len(),
{
    let h = add_scaled(f, c, g);
    if z.len() == 0 {
        lemma_pow2_pos(0);
    } else {
        lemma_pow2_unfold(z.len());
        let n = f.len() as int;
        let half = n / 2;
        let zr = z.drop_first();
        assert(h.subrange(0, half) =~= add_scaled(f.subrange(0, half), c, g.subrange(0, half)));
        assert(h.subrange(half, n) =~= add_scaled(f.subrange(half, n), c, g.subrange(half, n)));
        lemma_mle_linear(f.subrange(0, half), c, g.subrange(0, half), zr);
        lemma_mle_linear(f.subrange(half, n), c, g.subrange(half, n), zr);
        lemma_interpolation_linear(
            mle(f.subrange(0, half), zr),
            mle(f.subrange(half, n), zr),
            mle(g.subrange(0, half), zr),
            mle(g.subrange(half, n), zr),
            c,
            z[0],
        );
    }
}

/// The zero column of length `n`.
pub open spec fn zeros(n: nat) -> Seq<nat> {
    Seq::new(n, |i: int| 0nat)
}

/// The multilinear extension of the zero column is zero.
proof fn lemma_mle_zero(n: nat, z: Seq<nat>)
    requires
        n == pow2(z.len()),
    ensures
        mle(zeros(n), z) == 0,
    decreases z.len(),
{
    if z.len() == 0 {
        lemma_pow2_pos(0);
    } else {
        lemma_pow2_unfold(z.len());
        let f = zeros(n);
        let half = (n / 2) as int;
        assert(f.subrange(0, half) =~= zeros((n / 2) as nat));
        assert(f.subrange(half, n as int) =~= zeros((n / 2) as nat));
        lemma_mle_zero((n / 2) as nat, z.drop_first());
        let lo = mle(f.subrange(0, half), z.drop_first());
        let hi = mle(f.subrange(half, n as int), z.drop_first());
        assert(lo == 0 && hi == 0);
        lemma_small_mod(0, modulus());
        assert(fsub(0, 0) == 0);
        assert(fmul(z[0], 0) == 0);
        assert(fadd(0, 0) == 0);
    }
}

/// The columns batched over their first `k` columns.
pub open spec fn partial_batch(vals: Seq<nat>, width: nat, num_rows: nat, alpha: nat, k: int) -> Seq<nat> {
    Seq::new(num_rows, |row: int| fcombine(row_of(vals, width, row as nat).subrange(0, k), alpha))
}

/// The evaluations of the first `k` columns at `z`.
pub open spec fn column_evaluations(vals: Seq<nat>, width: nat, num_rows: nat, z: Seq<nat>, k: nat) -> Seq<nat> {
    Seq::new(k, |j: int| mle(column_of(vals, width, num_rows, j as nat), z))
}

proof fn lemma_partial_batch(vals: Seq<nat>, width: nat, num_rows: nat, alpha: nat, z: Seq<nat>, k: nat)
    requires
        k <= width,
        vals.len() == num_rows * width,
        num_rows == pow2(z.len()),
        reduced(vals),
    ensures
        mle(partial_batch(vals, width, num_rows, alpha, k as int), z) == fcombine(
            column_evaluations(vals, width, num_rows, z, k),
            alpha,
        ),
    decreases k,
{
    let pb = partial_batch(vals, width, num_rows, alpha, k as int);
    if k == 0 {
        assert(pb =~= zeros(num_rows));
        lemma_mle_zero(num_rows, z);
    } else {
        let j = (k - 1) as nat;
        lemma_partial_batch(vals, width, num_rows, alpha, z, j);
        let prev = partial_batch(vals, width, num_rows, alpha, j as int);
        let col = column_of(vals, width, num_rows, j);
        let c = fpow(alpha, j);
        assert forall|row: int| 0 <= row < num_rows implies #[trigger] pb[row] == add_scaled(prev, c, col)[row] by {
            lemma_row_index(row, j as int, width as int, num_rows as int);
            let s = row_of(vals, width, row as nat);
            assert(s.subrange(0, k as int).drop_last() =~= s.subrange(0, j as int));
        }
        assert(pb =~= add_scaled(prev, c, col));
        assert forall|row: int| 0 <= row < num_rows implies #[trigger] col[row] < modulus() by {
            lemma_row_index(row, j as int, width as int, num_rows as int);
        }
        lemma_mle_linear(prev, c, col, z);
        let evs = column_evaluations(vals, width, num_rows, z, k);
        assert(evs.drop_last() =~= column_evaluations(vals, width, num_rows, z, j));
    }
}

/// Evaluating the batched column at a point is batching the evaluations of
/// the columns there: `g(z) = sum_j alpha^j f_j(z)`, which is the claim the
/// verifier rebuilds from the per-column claims.
pub proof fn law_batched_evaluation(vals: Seq<nat>, width: nat, num_rows: nat, alpha: nat, z: Seq<nat>)
    requires
        width >= 1,
        vals.len() == num_rows * width,
        num_rows == pow2(z.len()),
        reduced(vals),
    ensures
        mle(batched(vals, width, num_rows, alpha), z) == fcombine(
            column_evaluations(vals, width, num_rows, z, width),
            alpha,
        ),
{
    lemma_partial_batch(vals, width, num_rows, alpha, z, width);
    assert forall|row: int| 0 <= row < num_rows implies #[trigger] row_of(vals, width, row as nat).subrange(
        0,
        width as int,
    ) =~= row_of(vals, width, row as nat) by {
        lemma_row_index(row, 0, width as int, num_rows as int);
    }
    assert(partial_batch(vals, width, num_rows, alpha, width as int) =~= batched(vals, width, num_rows, alpha));
}

/// Completeness of the batching on the library's side: when every column's
/// `k`-th claim is at the same point `z` and claims the value that
/// `opened_values` opens there (the column's multilinear extension at `z`),
/// the value that `combine_claims` gives at `k` is the batched column's
/// multilinear extension at `z`, the claim the WHIR verifier then checks.
pub proof fn law_honest_claims_combine_to_batched_opening(
    vals: Seq<nat>,
    width: nat,
    num_rows: nat,
    alpha: nat,
    claims: Seq<Vec<(Vec<Bls12381Fr>, Bls12381Fr)>>,
    k: int,
    z: Seq<nat>,
)
    requires
        width >= 1,
        vals.len() == num_rows * width,
        num_rows == pow2(z.len()),
        reduced(vals),
        claims.len() == width,
        forall|j: int| 0 <= j < width ==> 0 <= k < #[trigger] claims[j]@.len(),
        forall|j: int| 0 <= j < width ==> #[trigger] claim_points(claims[j]@)[k] == z,
        forall|j: int|
            0 <= j < width ==> (#[trigger] claims[j]@[k]).1@ == mle(
                column_of(vals, width, num_rows, j as nat),
                z,
            ),
    ensures
        fcombine(claimed_at(claims, k), alpha) == mle(batched(vals, width, num_rows, alpha), z),
{
    law_batched_evaluation(vals, width, num_rows, alpha, z);
    assert(claimed_at(claims, k) =~= column_evaluations(vals, width, num_rows, z, width));
}

/// The prover and the verifier absorb the same values, and draw the batching
/// challenge at the same step, when each column's claims carry that column's
/// committed opening points: what `commit_observations(points, points.len())`
/// and `verify_observations(claims)` return, and what `commit_steps` and
/// `verify_steps` schedule, coincide.
pub proof fn law_transcripts_agree(
    points: Seq<Vec<Vec<Bls12381Fr>>>,
    claims: Seq<Vec<(Vec<Bls12381Fr>, Bls12381Fr)>>,
)
    requires
        claims.len() == points.len(),
        forall|j: int| 0 <= j < points.len() ==> #[trigger] claims[j]@.len() == points[j]@.len(),
        forall|j: int, k: int|
            0 <= j < points.len() && 0 <= k < points[j]@.len() ==> values(
                (#[trigger] claims[j]@[k]).0@,
            ) == values(points[j]@[k]@),
    ensures
        commit_transcript(
            points.map_values(|set: Vec<Vec<Bls12381Fr>>| point_values(set@)),
            points.len(),
        ) == commit_transcript(
            claims.map_values(|c: Vec<(Vec<Bls12381Fr>, Bls12381Fr)>| claim_points(c@)),
            claims.len(),
        ),
{
    let ps = points.map_values(|set: Vec<Vec<Bls12381Fr>>| point_values(set@));
    let cs = claims.map_values(|c: Vec<(Vec<Bls12381Fr>, Bls12381Fr)>| claim_points(c@));
    assert forall|j: int| 0 <= j < points.len() implies #[trigger] ps[j] == cs[j] by {
        assert forall|k: int| 0 <= k < points[j]@.len() implies #[trigger] ps[j][k] == cs[j][k] by {
            assert(values((claims[j]@[k]).0@) == values(points[j]@[k]@));
        }
        assert(ps[j] =~= cs[j]);
    }
    assert(ps =~= cs);
}

/// The integer sum of a sequence.
pub open spec fn int_sum(s: Seq<int>) -> int {
    s.fold_left(0int, |acc: int, x: int| acc + x)
}

/// The field power is the integer power reduced modulo `r`.
pub proof fn lemma_fpow_is_pow(a: nat, k: nat)
    ensures
        fpow(a, k) == pow(a as int, k) % (modulus() as int),
    decreases k,
{
    reveal(pow);
    let m = modulus() as int;
    if k == 0 {
        lemma_small_mod(1, modulus());
    } else {
        let k1 = (k - 1) as nat;
        lemma_fpow_is_pow(a, k1);
        lemma_mul_mod_noop_left(pow(a as int, k1), a as int, m);
        lemma_mul_is_commutative(pow(a as int, k1), a as int);
    }
}

/// Combining with `alpha` weighs the value at position `j` by the integer
/// power `alpha^j` and sums, modulo `r`.
pub proof fn lemma_fcombine_is_power_weighted_sum(v: Seq<nat>, alpha: nat)
    ensures
        fcombine(v, alpha) == int_sum(Seq::new(v.len(), |j: int| pow(alpha as int, j as nat) * v[j]))
            % (modulus() as int),
    decreases v.len(),
{
    let m = modulus() as int;
    let w = Seq::new(v.len(), |j: int| pow(alpha as int, j as nat) * v[j]);
    if v.len() == 0 {
        lemma_small_mod(0, modulus());
    } else {
        let n = v.len() - 1;
        let v1 = v.drop_last();
        let w1 = Seq::new(v1.len(), |j: int| pow(alpha as int, j as nat) * v1[j]);
        lemma_fcombine_is_power_weighted_sum(v1, alpha);
        assert(w.drop_last() =~= w1);
        assert(int_sum(w) == int_sum(w1) + w.last());
        let p = pow(alpha as int, n as nat);
        assert(w.last() == p * v.last());
        lemma_fpow_is_pow(alpha, n as nat);
        lemma_mul_mod_noop_left(p, v.last() as int, m);
        lemma_add_mod_noop(int_sum(w1), p * v.last(), m);
        lemma_mod_twice(int_sum(w1), m);
        lemma_mod_twice(p * v.last(), m);
    }
}

/// Batching weighs column `j` by `alpha^j`: every row of the batched column
/// is `sum_j alpha^j vals[row * width + j] mod r`.
pub proof fn law_batched_row_is_power_weighted_sum(
    vals: Seq<nat>,
    width: nat,
    num_rows: nat,
    alpha: nat,
    row: int,
)
    requires
        vals.len() == num_rows * width,
        0 <= row < num_rows,
    ensures
        batched(vals, width, num_rows, alpha)[row] == int_sum(
            Seq::new(width, |j: int| pow(alpha as int, j as nat) * vals[row * width + j]),
        ) % (modulus() as int),
{
    if width > 0 {
        lemma_row_index(row, 0, width as int, num_rows as int);
    } else {
        assert(row * width == 0) by (nonlinear_arith)
            requires
                width == 0,
        ;
    }
    let r = row_of(vals, width, row as nat);
    lemma_fcombine_is_power_weighted_sum(r, alpha);
    assert(Seq::new(r.len(), |j: int| pow(alpha as int, j as nat) * r[j]) =~= Seq::new(
        width,
        |j: int| pow(alpha as int, j as nat) * vals[row * width + j],
    ));
}

/// The coordinates of a sequence of points are their concatenation.
proof fn lemma_flat_points_is_flatten(points: Seq<Seq<nat>>)
    ensures
        flat_points(points) == points.flatten(),
    decreases points.len(),
{
    if points.len() > 0 {
        lemma_flat_points_is_flatten(points.drop_last());
        points.drop_last().lemma_flatten_push(points.last());
        assert(points.drop_last().push(points.last()) =~= points);
    }
}

/// The coordinates of a sequence of point sets are their concatenation.
proof fn lemma_flat_point_sets_is_flatten(sets: Seq<Seq<Seq<nat>>>)
    ensures
        flat_point_sets(sets) == sets.map_values(|set: Seq<Seq<nat>>| set.flatten()).flatten(),
    decreases sets.len(),
{
    let f = sets.map_values(|set: Seq<Seq<nat>>| set.flatten());
    if sets.len() > 0 {
        let s1 = sets.drop_last();
        lemma_flat_point_sets_is_flatten(s1);
        lemma_flat_points_is_flatten(sets.last());
        let f1 = s1.map_values(|set: Seq<Seq<nat>>| set.flatten());
        assert(f1.push(sets.last().flatten()) =~= f);
        f1.lemma_flatten_push(sets.last().flatten());
    }
}

/// What is absorbed before the batching challenge is, in order, every
/// coordinate of every point of every set (set by set, point by point), then
/// one `1` per column.
pub proof fn law_commit_transcript_concatenates_the_point_sets(
    sets: Seq<Seq<Seq<nat>>>,
    width: nat,
)
    ensures
        commit_transcript(sets, width) == sets.map_values(|set: Seq<Seq<nat>>| set.flatten()).flatten()
            + Seq::new(width, |i: int| 1nat),
{
    lemma_flat_point_sets_is_flatten(sets);
}

/// The transcript is exactly as long as all the coordinates of all the
/// points together, plus one per column, and each set contributes its
/// points' coordinates right after those of the sets before it.
pub proof fn law_commit_transcript_layout(sets: Seq<Seq<Seq<nat>>>, width: nat, j: int)
    requires
        0 <= j < sets.len(),
    ensures
        commit_transcript(sets, width).len() == sets.map_values(
            |set: Seq<Seq<nat>>| set.flatten(),
        ).flatten().len() + width,
        commit_transcript(sets, width).subrange(
            sets.take(j).map_values(|set: Seq<Seq<nat>>| set.flatten()).flatten().len() as int,
            sets.take(j + 1).map_values(|set: Seq<Seq<nat>>| set.flatten()).flatten().len() as int,
        ) == sets[j].flatten(),
{
    law_commit_transcript_concatenates_the_point_sets(sets, width);
    let g = |set: Seq<Seq<nat>>| set.flatten();
    let all = sets.map_values(g);
    let a = sets.take(j).map_values(g);
    let b = sets.take(j + 1).map_values(g);
    assert(a.push(sets[j].flatten()) =~= b);
    a.lemma_flatten_push(sets[j].flatten());
    // the prefix of the whole concatenation is the concatenation of the prefix
    lemma_flatten_prefix(all, j + 1);
    assert(all.take(j + 1) =~= b);
    let t = commit_transcript(sets, width);
    let af = a.flatten();
    let bf = b.flatten();
    let cf = sets[j].flatten();
    assert(all.flatten().take(bf.len() as int) == bf);
    assert(bf == af + cf);
    assert(bf.len() <= all.flatten().len());
    assert(t.len() == all.flatten().len() + width);
    assert forall|i: int| 0 <= i < cf.len() implies #[trigger] t[af.len() + i] == cf[i] by {
        assert(all.flatten().take(bf.len() as int)[af.len() + i] == bf[af.len() + i]);
    }
    let sub = t.subrange(af.len() as int, bf.len() as int);
    assert(sub.len() == cf.len());
    assert forall|i: int| 0 <= i < cf.len() implies #[trigger] sub[i] == cf[i] by {
        assert(sub[i] == t[af.len() + i]);
        assert(t[af.len() + i] == cf[i]);
    }
    assert(sub =~= cf);
}

/// Flattening a prefix gives a prefix of the flattening.
proof fn lemma_flatten_prefix(s: Seq<Seq<nat>>, k: int)
    requires
        0 <= k <= s.len(),
    ensures
        s.take(k).flatten().len() <= s.flatten().len(),
        s.flatten().take(s.take(k).flatten().len() as int) == s.take(k).flatten(),
    decreases s.len() - k,
{
    if k == s.len() {
        assert(s.take(k) =~= s);
    } else {
        lemma_flatten_prefix(s, k + 1);
        s.take(k).lemma_flatten_push(s[k]);
        assert(s.take(k).push(s[k]) =~= s.take(k + 1));
        let pk = s.take(k).flatten();
        let pk1 = s.take(k + 1).flatten();
        assert(pk1.take(pk.len() as int) =~= pk);
        assert(s.flatten().take(pk.len() as int) =~= pk1.take(pk.len() as int));
    }
}

/// A nonempty sum is its first term plus the sum of the rest.
proof fn lemma_int_sum_first(s: Seq<int>)
    requires
        s.len() >= 1,
    ensures
        int_sum(s) == s[0] + int_sum(s.drop_first()),
    decreases s.len(),
{
    if s.len() == 1 {
        assert(s.drop_last().len() == 0);
        assert(int_sum(s.drop_last()) == 0);
        assert(s.drop_first().len() == 0);
        assert(int_sum(s.drop_first()) == 0);
    } else {
        lemma_int_sum_first(s.drop_last());
        assert(s.drop_first().drop_last() =~= s.drop_last().drop_first());
        assert(int_sum(s.drop_first()) == int_sum(s.drop_first().drop_last()) + s.drop_first().last());
    }
}

/// The binary digits of a hypercube point, first coordinate most significant,
/// weighted by their place values.
pub open spec fn place_values(b: Seq<nat>) -> Seq<int> {
    Seq::new(b.len(), |j: int| (b[j] * pow2((b.len() - 1 - j) as nat)) as int)
}

proof fn lemma_place_values_first(b: Seq<nat>)
    requires
        b.len() >= 1,
    ensures
        int_sum(place_values(b)) == b[0] * pow2((b.len() - 1) as nat) + int_sum(
            place_values(b.drop_first()),
        ),
{
    lemma_int_sum_first(place_values(b));
    assert(place_values(b).drop_first() =~= place_values(b.drop_first()));
}

/// The value of a hypercube point read in binary lies in `[0, 2^m)`.
proof fn lemma_place_values_bounded(b: Seq<nat>)
    requires
        forall|j: int| 0 <= j < b.len() ==> #[trigger] b[j] <= 1,
    ensures
        0 <= int_sum(place_values(b)) < pow2(b.len()),
    decreases b.len(),
{
    if b.len() == 0 {
        lemma_pow2_pos(0);
        assert(int_sum(place_values(b)) == 0);
    } else {
        lemma_place_values_first(b);
        assert forall|j: int| 0 <= j < b.drop_first().len() implies #[trigger] b.drop_first()[j] <= 1 by {
            assert(b.drop_first()[j] == b[j + 1]);
        }
        lemma_place_values_bounded(b.drop_first());
        lemma_pow2_unfold(b.len());
        if b[0] == 0 {
            assert(b[0] * pow2((b.len() - 1) as nat) == 0);
        } else {
            assert(b[0] * pow2((b.len() - 1) as nat) == pow2((b.len() - 1) as nat));
        }
    }
}

/// On the hypercube the multilinear extension takes the stored values: at a
/// point `b` of `{0, 1}^m` it is `f[sum_j b_j 2^(m - 1 - j)]`, coordinate `j`
/// selecting bit `m - 1 - j` of the index.
pub proof fn law_mle_interpolates_the_hypercube(f: Seq<nat>, b: Seq<nat>)
    requires
        f.len() == pow2(b.len()),
        reduced(f),
        forall|j: int| 0 <= j < b.len() ==> #[trigger] b[j] <= 1,
    ensures
        0 <= int_sum(place_values(b)) < f.len(),
        mle(f, b) == f[int_sum(place_values(b))],
    decreases b.len(),
{
    lemma_place_values_bounded(b);
    if b.len() == 0 {
        assert(int_sum(place_values(b)) == 0);
    } else {
        let m = modulus() as int;
        lemma_pow2_unfold(b.len());
        let h = (f.len() / 2) as int;
        let br = b.drop_first();
        assert forall|j: int| 0 <= j < br.len() implies #[trigger] br[j] <= 1 by {
            assert(br[j] == b[j + 1]);
        }
        let fl = f.subrange(0, h);
        let fh = f.subrange(h, f.len() as int);
        law_mle_interpolates_the_hypercube(fl, br);
        law_mle_interpolates_the_hypercube(fh, br);
        lemma_place_values_first(b);
        let i = int_sum(place_values(br));
        let lo = mle(fl, br);
        let hi = mle(fh, br);
        assert(lo == f[i]);
        assert(hi == f[h + i]);
        assert(lo < modulus() && hi < modulus());
        if b[0] == 0 {
            assert(b[0] * pow2((b.len() - 1) as nat) == 0);
            lemma_small_mod(0, modulus());
            assert(fmul(0, fsub(hi, lo)) == 0);
            lemma_small_mod(lo, modulus());
        } else {
            assert(b[0] == 1);
            assert(b[0] * pow2((b.len() - 1) as nat) == h);
            let d = fsub(hi, lo);
            assert(d < modulus());
            lemma_small_mod(d, modulus());
            assert(fmul(1, d) == d);
            lemma_add_mod_noop_right(lo as int, hi - lo, m);
            lemma_small_mod(hi, modulus());
        }
    }
}

} // verus!
