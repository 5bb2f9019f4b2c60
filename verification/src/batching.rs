//! The column-batching logic of the WHIR multilinear commitment adapter.
//!
//! A trace of `width` columns over the hypercube of `num_rows = 2^m` points is
//! held row-major. The prover batches the columns `f_0, ..., f_{N-1}` into
//! `g = sum_j alpha^j f_j` with a challenge `alpha` drawn after the opening
//! points were absorbed into the transcript, and opens every column at the
//! points; the verifier rebuilds the claim on `g` from the per-column claims as
//! `g(z) = sum_j alpha^j f_j(z)`.

use vstd::arithmetic::div_mod::lemma_small_mod;
use vstd::arithmetic::power::pow;
use vstd::arithmetic::power2::{lemma_pow2_pos, lemma_pow2_unfold, pow2};
use vstd::prelude::*;

use crate::arith::{fadd, fmul, fpow, fsub, modulus};
use crate::batching_laws::{
    int_sum, law_batched_row_is_power_weighted_sum, law_commit_transcript_concatenates_the_point_sets,
    law_mle_interpolates_the_hypercube, lemma_fcombine_is_power_weighted_sum, place_values,
};
use crate::field::{values, Bls12381Fr};

verus! {

/// `sum_j alpha^j v_j` in the field.
pub open spec fn fcombine(v: Seq<nat>, alpha: nat) -> nat
    decreases v.len(),
{
    if v.len() == 0 {
        0
    } else {
        fadd(fcombine(v.drop_last(), alpha), fmul(fpow(alpha, (v.len() - 1) as nat), v.last()))
    }
}

/// Row `row` of a row-major matrix of the given width.
pub open spec fn row_of(vals: Seq<nat>, width: nat, row: nat) -> Seq<nat> {
    vals.subrange((row * width) as int, (row * width + width) as int)
}

/// Column `col` of a row-major matrix with the given width and number of rows.
pub open spec fn column_of(vals: Seq<nat>, width: nat, num_rows: nat, col: nat) -> Seq<nat> {
    Seq::new(num_rows, |row: int| vals[row * width + col])
}

/// The batched column `g[row] = sum_j alpha^j f_j[row]`.
pub open spec fn batched(vals: Seq<nat>, width: nat, num_rows: nat, alpha: nat) -> Seq<nat> {
    Seq::new(num_rows, |row: int| fcombine(row_of(vals, width, row as nat), alpha))
}

pub(crate) proof fn lemma_row_index(row: int, col: int, width: int, num_rows: int)
    requires
        0 <= row < num_rows,
        0 <= col < width,
    ensures
        0 <= row * width + col < num_rows * width,
        row * width + width <= num_rows * width,
{
    assert(row * width + col < num_rows * width) by (nonlinear_arith)
        requires
            0 <= row < num_rows,
            0 <= col < width,
    ;
    assert(row * width + width <= num_rows * width) by (nonlinear_arith)
        requires
            0 <= row < num_rows,
            0 <= col < width,
    ;
    assert(0 <= row * width) by (nonlinear_arith)
        requires
            0 <= row,
            0 <= width,
    ;
}

/// Batches the columns of a row-major matrix: `g[row] = sum_j alpha^j
/// values[row * width + j]`. A single column is returned as it is.
pub fn batch_columns(values_in: &[Bls12381Fr], width: usize, num_rows: usize, alpha: &Bls12381Fr) -> (res: Vec<Bls12381Fr>)
    requires
        width >= 1,
        values_in@.len() == num_rows * width,
    ensures
        values(res@) == batched(values(values_in@), width as nat, num_rows as nat, alpha@),
        forall|row: int|
            0 <= row < num_rows ==> #[trigger] values(res@)[row] == int_sum(
                Seq::new(
                    width as nat,
                    |j: int| pow(alpha@ as int, j as nat) * values(values_in@)[row * width + j],
                ),
            ) % (modulus() as int),
{
    let ghost vals = values(values_in@);
    if width == 1 {
        let mut out: Vec<Bls12381Fr> = Vec::new();
        let mut row: usize = 0;
        while row < num_rows
            invariant
                width == 1,
                values_in@.len() == num_rows,
                vals == values(values_in@),
                row <= num_rows,
                out@.len() == row,
                forall|r: int| 0 <= r < row ==> #[trigger] out@[r]@ == fcombine(row_of(vals, 1, r as nat), alpha@),
            decreases num_rows - row,
        {
            let v = values_in[row];
            proof {
                let s = row_of(vals, 1, row as nat);
                assert(s.drop_last() =~= Seq::<nat>::empty());
                v.lemma_bounded();
                lemma_small_mod(v@, modulus());
                assert(s.last() == v@);
                assert(fpow(alpha@, 0) == 1);
                assert(fmul(1, v@) == v@);
                assert(fcombine(s.drop_last(), alpha@) == 0);
                assert(fadd(0, v@) == v@);
            }
            out.push(v);
            row = row + 1;
        }
        assert(values(out@) =~= batched(vals, 1, num_rows as nat, alpha@));
        proof {
            assert forall|row: int| 0 <= row < num_rows implies #[trigger] values(out@)[row] == int_sum(
                Seq::new(width as nat, |j: int| pow(alpha@ as int, j as nat) * vals[row * width + j]),
            ) % (modulus() as int) by {
                law_batched_row_is_power_weighted_sum(vals, width as nat, num_rows as nat, alpha@, row);
            }
        }
        return out;
    }
    let mut combined: Vec<Bls12381Fr> = Vec::new();
    let mut row: usize = 0;
    while row < num_rows
        invariant
            row <= num_rows,
            combined@.len() == row,
            forall|r: int| 0 <= r < row ==> #[trigger] combined@[r]@ == 0,
        decreases num_rows - row,
    {
        combined.push(Bls12381Fr::zero());
        row = row + 1;
    }
    let total = values_in.len();
    let mut alpha_pow = Bls12381Fr::one();
    let mut col: usize = 0;
    while col < width
        invariant
            width >= 1,
            values_in@.len() == num_rows * width,
            total == num_rows * width,
            vals == values(values_in@),
            col <= width,
            combined@.len() == num_rows,
            alpha_pow@ == fpow(alpha@, col as nat),
            forall|r: int|
                0 <= r < num_rows ==> #[trigger] combined@[r]@ == fcombine(
                    row_of(vals, width as nat, r as nat).subrange(0, col as int),
                    alpha@,
                ),
        decreases width - col,
    {
        let mut row: usize = 0;
        while row < num_rows
            invariant
                width >= 1,
                values_in@.len() == num_rows * width,
                total == num_rows * width,
                vals == values(values_in@),
                col < width,
                row <= num_rows,
                combined@.len() == num_rows,
                alpha_pow@ == fpow(alpha@, col as nat),
                forall|r: int|
                    0 <= r < row ==> #[trigger] combined@[r]@ == fcombine(
                        row_of(vals, width as nat, r as nat).subrange(0, col + 1),
                        alpha@,
                    ),
                forall|r: int|
                    row <= r < num_rows ==> #[trigger] combined@[r]@ == fcombine(
                        row_of(vals, width as nat, r as nat).subrange(0, col as int),
                        alpha@,
                    ),
            decreases num_rows - row,
        {
            proof {
                lemma_row_index(row as int, col as int, width as int, num_rows as int);
            }
            let idx = row * width + col;
            let term = alpha_pow.mul(&values_in[idx]);
            let updated = combined[row].add(&term);
            proof {
                let s = row_of(vals, width as nat, row as nat);
                assert(s.subrange(0, col + 1).drop_last() =~= s.subrange(0, col as int));
                assert(s.subrange(0, col + 1).last() == vals[idx as int]);
            }
            combined.set(row, updated);
            row = row + 1;
        }
        alpha_pow = alpha_pow.mul(alpha);
        col = col + 1;
    }
    proof {
        assert forall|r: int| 0 <= r < num_rows implies #[trigger] row_of(vals, width as nat, r as nat).subrange(
            0,
            width as int,
        ) =~= row_of(vals, width as nat, r as nat) by {
            lemma_row_index(r, 0, width as int, num_rows as int);
        }
    }
    assert(values(combined@) =~= batched(vals, width as nat, num_rows as nat, alpha@));
    proof {
        assert forall|row: int| 0 <= row < num_rows implies #[trigger] values(combined@)[row] == int_sum(
            Seq::new(width as nat, |j: int| pow(alpha@ as int, j as nat) * vals[row * width + j]),
        ) % (modulus() as int) by {
            law_batched_row_is_power_weighted_sum(vals, width as nat, num_rows as nat, alpha@, row);
        }
    }
    combined
}

/// The multilinear extension of `f` (the values on the hypercube, the first
/// coordinate binding the most significant index bit) evaluated at `z`:
/// `f(z) = f_0(z') + z_0 * (f_1(z') - f_0(z'))` where `f_0` and `f_1` are the
/// two halves of `f` and `z'` is `z` without its first coordinate.
pub open spec fn mle(f: Seq<nat>, z: Seq<nat>) -> nat
    decreases z.len(),
{
    if z.len() == 0 {
        f[0]
    } else {
        let h = f.len() / 2;
        let lo = mle(f.subrange(0, h as int), z.drop_first());
        let hi = mle(f.subrange(h as int, f.len() as int), z.drop_first());
        fadd(lo, fmul(z[0], fsub(hi, lo)))
    }
}

/// The values of the points of a sequence of claims.
pub open spec fn claim_points(claims: Seq<(Vec<Bls12381Fr>, Bls12381Fr)>) -> Seq<Seq<nat>> {
    claims.map_values(|c: (Vec<Bls12381Fr>, Bls12381Fr)| values(c.0@))
}

/// The values of a sequence of points.
pub open spec fn point_values(points: Seq<Vec<Bls12381Fr>>) -> Seq<Seq<nat>> {
    points.map_values(|p: Vec<Bls12381Fr>| values(p@))
}

/// The claimed values at point `k` across the columns, column by column.
pub open spec fn claimed_at(claims: Seq<Vec<(Vec<Bls12381Fr>, Bls12381Fr)>>, k: int) -> Seq<nat> {
    Seq::new(claims.len(), |j: int| claims[j]@[k].1@)
}

/// All coordinates of a sequence of points, in order.
pub open spec fn flat_points(points: Seq<Seq<nat>>) -> Seq<nat>
    decreases points.len(),
{
    if points.len() == 0 {
        Seq::empty()
    } else {
        flat_points(points.drop_last()) + points.last()
    }
}

/// All coordinates of a sequence of point sets, in order.
pub open spec fn flat_point_sets(sets: Seq<Seq<Seq<nat>>>) -> Seq<nat>
    decreases sets.len(),
{
    if sets.len() == 0 {
        Seq::empty()
    } else {
        flat_point_sets(sets.drop_last()) + flat_points(sets.last())
    }
}

/// `n` copies of one.
pub open spec fn ones(n: nat) -> Seq<nat> {
    Seq::new(n, |i: int| 1nat)
}

/// The values the prover absorbs before drawing the batching challenge: every
/// coordinate of every opening point, then one `1` per column.
pub open spec fn commit_transcript(point_sets: Seq<Seq<Seq<nat>>>, width: nat) -> Seq<nat> {
    flat_point_sets(point_sets) + ones(width)
}

/// Column `col` of a row-major matrix.
pub fn extract_column(values_in: &[Bls12381Fr], width: usize, num_rows: usize, col: usize) -> (res: Vec<Bls12381Fr>)
    requires
        col < width,
        values_in@.len() == num_rows * width,
    ensures
        values(res@) == column_of(values(values_in@), width as nat, num_rows as nat, col as nat),
{
    let total = values_in.len();
    let mut out: Vec<Bls12381Fr> = Vec::new();
    let mut row: usize = 0;
    while row < num_rows
        invariant
            col < width,
            values_in@.len() == num_rows * width,
            total == num_rows * width,
            row <= num_rows,
            out@.len() == row,
            forall|r: int| 0 <= r < row ==> #[trigger] out@[r] == values_in@[r * width + col],
        decreases num_rows - row,
    {
        proof {
            lemma_row_index(row as int, col as int, width as int, num_rows as int);
        }
        out.push(values_in[row * width + col]);
        row = row + 1;
    }
    assert forall|r: int| 0 <= r < num_rows implies #[trigger] values(out@)[r] == column_of(
        values(values_in@),
        width as nat,
        num_rows as nat,
        col as nat,
    )[r] by {
        lemma_row_index(r, col as int, width as int, num_rows as int);
    }
    assert(values(out@) =~= column_of(values(values_in@), width as nat, num_rows as nat, col as nat));
    out
}

/// A copy of a point.
fn copy_point(p: &Vec<Bls12381Fr>) -> (res: Vec<Bls12381Fr>)
    ensures
        res@ == p@,
{
    let mut out: Vec<Bls12381Fr> = Vec::new();
    let mut i: usize = 0;
    while i < p.len()
        invariant
            i <= p@.len(),
            out@ == p@.subrange(0, i as int),
        decreases p@.len() - i,
    {
        out.push(p[i]);
        i = i + 1;
        assert(out@ =~= p@.subrange(0, i as int));
    }
    assert(p@.subrange(0, p@.len() as int) =~= p@);
    out
}

proof fn lemma_fcombine_single(v: nat, alpha: nat)
    requires
        v < modulus(),
    ensures
        fcombine(seq![v], alpha) == v,
{
    let s = seq![v];
    assert(s.drop_last() =~= Seq::<nat>::empty());
    assert(s.len() == 1);
    assert(s.last() == v);
    assert(fcombine(Seq::<nat>::empty(), alpha) == 0);
    assert(fpow(alpha, 0) == 1);
    lemma_small_mod(v, modulus());
    assert(fmul(1, v) == v);
    assert(fadd(0, v) == v);
}

/// The claims of every column are at the points of the first column's
/// claims, in the same order: the batched claim `g(z) = sum_j alpha^j f_j(z)`
/// only checks claims that share their point `z`.
pub open spec fn claims_share_points(claims: Seq<Vec<(Vec<Bls12381Fr>, Bls12381Fr)>>) -> bool {
    forall|j: int|
        0 <= j < claims.len() ==> #[trigger] claim_points(claims[j]@) == claim_points(claims[0]@)
}

/// Whether two points have the same coordinates.
fn same_point(p: &Vec<Bls12381Fr>, q: &Vec<Bls12381Fr>) -> (res: bool)
    ensures
        res == (values(p@) == values(q@)),
{
    if p.len() != q.len() {
        return false;
    }
    let mut i: usize = 0;
    while i < p.len()
        invariant
            p@.len() == q@.len(),
            i <= p@.len(),
            forall|t: int| 0 <= t < i ==> #[trigger] p@[t]@ == q@[t]@,
        decreases p@.len() - i,
    {
        if !p[i].equals(&q[i]) {
            assert(values(p@)[i as int] != values(q@)[i as int]);
            return false;
        }
        i = i + 1;
    }
    assert(values(p@) =~= values(q@));
    true
}

/// Whether every column's claims are at the first column's points.
fn share_points(claims: &[Vec<(Vec<Bls12381Fr>, Bls12381Fr)>]) -> (res: bool)
    requires
        claims@.len() >= 1,
    ensures
        res == claims_share_points(claims@),
{
    let first = &claims[0];
    let mut j: usize = 0;
    while j < claims.len()
        invariant
            claims@.len() >= 1,
            first == claims@[0],
            j <= claims@.len(),
            forall|i: int| 0 <= i < j ==> #[trigger] claim_points(claims@[i]@) == claim_points(claims@[0]@),
        decreases claims@.len() - j,
    {
        let col_claims = &claims[j];
        if col_claims.len() != first.len() {
            assert(claim_points(col_claims@).len() != claim_points(first@).len());
            assert(claim_points(claims@[j as int]@) != claim_points(claims@[0]@));
            return false;
        }
        let mut k: usize = 0;
        while k < first.len()
            invariant
                claims@.len() >= 1,
                first == claims@[0],
                j < claims@.len(),
                col_claims == claims@[j as int],
                col_claims@.len() == first@.len(),
                k <= first@.len(),
                forall|t: int| 0 <= t < k ==> #[trigger] claim_points(col_claims@)[t] == claim_points(first@)[t],
            decreases first@.len() - k,
        {
            if !same_point(&col_claims[k].0, &first[k].0) {
                assert(claim_points(col_claims@)[k as int] == values(col_claims@[k as int].0@));
                assert(claim_points(first@)[k as int] == values(first@[k as int].0@));
                assert(claim_points(claims@[j as int]@) != claim_points(claims@[0]@));
                return false;
            }
            k = k + 1;
        }
        assert(claim_points(col_claims@) =~= claim_points(first@));
        j = j + 1;
    }
    assert(claims_share_points(claims@));
    true
}

/// Combines per-column claims into claims on the batched column: for every
/// point of the first column's claims, the point with the value
/// `sum_j alpha^j claims[j][k].1`. A single column's claims are returned as
/// they are. Every column must have at least as many claims as the first.
/// Claims of columns at points other than the first column's, or beyond its
/// number of claims, are refused (`None`): the batched claim could not check
/// them.
pub fn combine_claims(claims: &[Vec<(Vec<Bls12381Fr>, Bls12381Fr)>], alpha: &Bls12381Fr) -> (res: Option<Vec<(Vec<Bls12381Fr>, Bls12381Fr)>>)
    requires
        claims@.len() >= 1,
        forall|j: int| 0 <= j < claims@.len() ==> #[trigger] claims@[j]@.len() >= claims@[0]@.len(),
    ensures
        res is Some <==> claims_share_points(claims@),
        res matches Some(r) ==> r@.len() == claims@[0]@.len() && forall|k: int|
            0 <= k < r@.len() ==> (#[trigger] r@[k]).0@ == claims@[0]@[k].0@ && r@[k].1@ == fcombine(
                claimed_at(claims@, k),
                alpha@,
            ),
        res matches Some(r) ==> forall|k: int|
            0 <= k < r@.len() ==> (#[trigger] r@[k]).1@ == int_sum(
                Seq::new(
                    claims@.len(),
                    |j: int| pow(alpha@ as int, j as nat) * claims@[j]@[k].1@,
                ),
            ) % (modulus() as int),
{
    if !share_points(claims) {
        return None;
    }
    let width = claims.len();
    let num_points = claims[0].len();
    proof {
        assert forall|j: int| 0 <= j < claims@.len() implies #[trigger] claims@[j]@.len() == claims@[0]@.len() by {
            assert(claim_points(claims@[j]@) == claim_points(claims@[0]@));
            assert(claim_points(claims@[j]@).len() == claims@[j]@.len());
        }
    }
    let mut combined: Vec<(Vec<Bls12381Fr>, Bls12381Fr)> = Vec::new();
    let mut pt_idx: usize = 0;
    while pt_idx < num_points
        invariant
            width == claims@.len(),
            width >= 1,
            num_points == claims@[0]@.len(),
            forall|j: int| 0 <= j < claims@.len() ==> #[trigger] claims@[j]@.len() == claims@[0]@.len(),
            pt_idx <= num_points,
            combined@.len() == pt_idx,
            forall|k: int|
                0 <= k < pt_idx ==> (#[trigger] combined@[k]).0@ == claims@[0]@[k].0@ && combined@[k].1@
                    == fcombine(claimed_at(claims@, k), alpha@),
        decreases num_points - pt_idx,
    {
        let point = copy_point(&claims[0][pt_idx].0);
        let ghost vals = claimed_at(claims@, pt_idx as int);
        if width == 1 {
            let v = claims[0][pt_idx].1;
            proof {
                v.lemma_bounded();
                lemma_fcombine_single(v@, alpha@);
                assert(vals =~= seq![v@]);
            }
            combined.push((point, v));
        } else {
            let mut combined_val = Bls12381Fr::zero();
            let mut alpha_pow = Bls12381Fr::one();
            let mut col: usize = 0;
            while col < width
                invariant
                    width == claims@.len(),
                    forall|j: int| 0 <= j < claims@.len() ==> #[trigger] claims@[j]@.len() == claims@[0]@.len(),
                    pt_idx < num_points,
                    num_points == claims@[0]@.len(),
                    vals == claimed_at(claims@, pt_idx as int),
                    col <= width,
                    alpha_pow@ == fpow(alpha@, col as nat),
                    combined_val@ == fcombine(vals.subrange(0, col as int), alpha@),
                decreases width - col,
            {
                let term = alpha_pow.mul(&claims[col][pt_idx].1);
                combined_val = combined_val.add(&term);
                assert(vals.subrange(0, col + 1).drop_last() =~= vals.subrange(0, col as int));
                alpha_pow = alpha_pow.mul(alpha);
                col = col + 1;
            }
            assert(vals.subrange(0, width as int) =~= vals);
            combined.push((point, combined_val));
        }
        pt_idx = pt_idx + 1;
    }
    proof {
        assert forall|k: int| 0 <= k < combined@.len() implies (#[trigger] combined@[k]).1@ == int_sum(
            Seq::new(claims@.len(), |j: int| pow(alpha@ as int, j as nat) * claims@[j]@[k].1@),
        ) % (modulus() as int) by {
            let v = claimed_at(claims@, k);
            lemma_fcombine_is_power_weighted_sum(v, alpha@);
            assert(Seq::new(v.len(), |j: int| pow(alpha@ as int, j as nat) * v[j]) =~= Seq::new(
                claims@.len(),
                |j: int| pow(alpha@ as int, j as nat) * claims@[j]@[k].1@,
            ));
        }
    }
    Some(combined)
}

/// Appends the coordinates of a point.
fn push_point(out: &mut Vec<Bls12381Fr>, point: &Vec<Bls12381Fr>)
    ensures
        values(final(out)@) == values(old(out)@) + values(point@),
{
    let ghost start = values(out@);
    let mut i: usize = 0;
    while i < point.len()
        invariant
            i <= point@.len(),
            values(out@) == start + values(point@.subrange(0, i as int)),
        decreases point@.len() - i,
    {
        let ghost prev = out@;
        out.push(point[i]);
        assert(out@ == prev.push(point@[i as int]));
        assert(point@.subrange(0, i + 1) == point@.subrange(0, i as int).push(point@[i as int]));
        assert(values(out@) =~= values(prev).push(point@[i as int]@));
        assert(values(point@.subrange(0, i + 1)) =~= values(point@.subrange(0, i as int)).push(
            point@[i as int]@,
        ));
        i = i + 1;
        assert(values(out@) =~= start + values(point@.subrange(0, i as int)));
    }
    assert(point@.subrange(0, point@.len() as int) =~= point@);
}

/// The coordinates, in order, of every opening point, followed by one `1`
/// per column: what the prover absorbs before drawing the batching challenge.
pub fn commit_observations(opening_points: &[Vec<Vec<Bls12381Fr>>], width: usize) -> (res: Vec<Bls12381Fr>)
    ensures
        values(res@) == commit_transcript(
            opening_points@.map_values(|set: Vec<Vec<Bls12381Fr>>| point_values(set@)),
            width as nat,
        ),
        values(res@) == opening_points@.map_values(
            |set: Vec<Vec<Bls12381Fr>>| point_values(set@).flatten(),
        ).flatten() + Seq::new(width as nat, |i: int| 1nat),
{
    let ghost sets = opening_points@.map_values(|set: Vec<Vec<Bls12381Fr>>| point_values(set@));
    let mut out: Vec<Bls12381Fr> = Vec::new();
    let mut j: usize = 0;
    while j < opening_points.len()
        invariant
            j <= opening_points@.len(),
            sets == opening_points@.map_values(|set: Vec<Vec<Bls12381Fr>>| point_values(set@)),
            values(out@) == flat_point_sets(sets.subrange(0, j as int)),
        decreases opening_points@.len() - j,
    {
        let set = &opening_points[j];
        let ghost before = values(out@);
        let ghost pts = point_values(set@);
        let mut k: usize = 0;
        while k < set.len()
            invariant
                k <= set@.len(),
                pts == point_values(set@),
                values(out@) == before + flat_points(pts.subrange(0, k as int)),
            decreases set@.len() - k,
        {
            push_point(&mut out, &set[k]);
            assert(pts.subrange(0, k + 1).drop_last() =~= pts.subrange(0, k as int));
            k = k + 1;
        }
        assert(pts.subrange(0, set@.len() as int) =~= pts);
        assert(sets.subrange(0, j + 1).drop_last() =~= sets.subrange(0, j as int));
        j = j + 1;
    }
    assert(sets.subrange(0, opening_points@.len() as int) =~= sets);
    let ghost flat = values(out@);
    let mut i: usize = 0;
    while i < width
        invariant
            i <= width,
            values(out@) == flat + ones(i as nat),
        decreases width - i,
    {
        let ghost prev = out@;
        let one = Bls12381Fr::one();
        out.push(one);
        assert(out@ == prev.push(one));
        assert(values(out@) =~= values(prev).push(1nat));
        assert(ones((i + 1) as nat) =~= ones(i as nat).push(1nat));
        i = i + 1;
        assert(values(out@) =~= flat + ones(i as nat));
    }
    proof {
        law_commit_transcript_concatenates_the_point_sets(sets, width as nat);
        assert(sets.map_values(|set: Seq<Seq<nat>>| set.flatten()) =~= opening_points@.map_values(|set: Vec<Vec<Bls12381Fr>>| point_values(set@).flatten()));
        assert(ones(width as nat) =~= Seq::new(width as nat, |i: int| 1nat));
    }
    out
}

/// The coordinates, in order, of every claimed point, followed by one `1` per
/// column: what the verifier absorbs before drawing the batching challenge.
pub fn verify_observations(claims: &[Vec<(Vec<Bls12381Fr>, Bls12381Fr)>]) -> (res: Vec<Bls12381Fr>)
    ensures
        values(res@) == commit_transcript(
            claims@.map_values(|c: Vec<(Vec<Bls12381Fr>, Bls12381Fr)>| claim_points(c@)),
            claims@.len(),
        ),
        values(res@) == claims@.map_values(
            |c: Vec<(Vec<Bls12381Fr>, Bls12381Fr)>| claim_points(c@).flatten(),
        ).flatten() + Seq::new(claims@.len(), |i: int| 1nat),
{
    let ghost sets = claims@.map_values(|c: Vec<(Vec<Bls12381Fr>, Bls12381Fr)>| claim_points(c@));
    let mut out: Vec<Bls12381Fr> = Vec::new();
    let mut j: usize = 0;
    while j < claims.len()
        invariant
            j <= claims@.len(),
            sets == claims@.map_values(|c: Vec<(Vec<Bls12381Fr>, Bls12381Fr)>| claim_points(c@)),
            values(out@) == flat_point_sets(sets.subrange(0, j as int)),
        decreases claims@.len() - j,
    {
        let col_claims = &claims[j];
        let ghost before = values(out@);
        let ghost pts = claim_points(col_claims@);
        let mut k: usize = 0;
        while k < col_claims.len()
            invariant
                k <= col_claims@.len(),
                pts == claim_points(col_claims@),
                values(out@) == before + flat_points(pts.subrange(0, k as int)),
            decreases col_claims@.len() - k,
        {
            push_point(&mut out, &col_claims[k].0);
            assert(pts.subrange(0, k + 1).drop_last() =~= pts.subrange(0, k as int));
            k = k + 1;
        }
        assert(pts.subrange(0, col_claims@.len() as int) =~= pts);
        assert(sets.subrange(0, j + 1).drop_last() =~= sets.subrange(0, j as int));
        j = j + 1;
    }
    assert(sets.subrange(0, claims@.len() as int) =~= sets);
    let width = claims.len();
    let ghost flat = values(out@);
    let mut i: usize = 0;
    while i < width
        invariant
            i <= width,
            values(out@) == flat + ones(i as nat),
        decreases width - i,
    {
        let ghost prev = out@;
        let one = Bls12381Fr::one();
        out.push(one);
        assert(out@ == prev.push(one));
        assert(values(out@) =~= values(prev).push(1nat));
        assert(ones((i + 1) as nat) =~= ones(i as nat).push(1nat));
        i = i + 1;
        assert(values(out@) =~= flat + ones(i as nat));
    }
    proof {
        law_commit_transcript_concatenates_the_point_sets(sets, claims@.len());
        assert(sets.map_values(|set: Seq<Seq<nat>>| set.flatten()) =~= claims@.map_values(|c: Vec<(Vec<Bls12381Fr>, Bls12381Fr)>| claim_points(c@).flatten()));
        assert(ones(claims@.len()) =~= Seq::new(claims@.len(), |i: int| 1nat));
    }
    out
}

/// One action on the Fiat-Shamir transcript.
#[derive(Clone, Copy, Debug, PartialEq, Eq)]
pub enum TranscriptStep {
    /// Absorb a value.
    Observe(Bls12381Fr),
    /// Draw the batching challenge.
    SampleChallenge,
}

/// `steps` absorbs the `observed` values in order and then, when `sample`
/// holds, draws the batching challenge, after every one of them.
pub open spec fn schedule(steps: Seq<TranscriptStep>, observed: Seq<nat>, sample: bool) -> bool {
    &&& steps.len() == observed.len() + (if sample { 1int } else { 0int })
    &&& forall|i: int|
        0 <= i < observed.len() ==> (#[trigger] steps[i] matches TranscriptStep::Observe(x) && x@
            == observed[i])
    &&& sample ==> steps[observed.len() as int] is SampleChallenge
}

/// The transcript steps for the given values, followed by the challenge when
/// asked for.
fn steps_of(observed: Vec<Bls12381Fr>, sample: bool) -> (res: Vec<TranscriptStep>)
    ensures
        schedule(res@, values(observed@), sample),
{
    let mut steps: Vec<TranscriptStep> = Vec::new();
    let mut i: usize = 0;
    while i < observed.len()
        invariant
            i <= observed@.len(),
            steps@.len() == i,
            forall|t: int|
                0 <= t < i ==> (#[trigger] steps@[t] matches TranscriptStep::Observe(x) && x@
                    == observed@[t]@),
        decreases observed@.len() - i,
    {
        steps.push(TranscriptStep::Observe(observed[i]));
        i = i + 1;
    }
    if sample {
        steps.push(TranscriptStep::SampleChallenge);
    }
    steps
}

/// What the prover does on the transcript before batching: absorb every
/// coordinate of every opening point and one `1` per column, then, for more
/// than one column, draw the batching challenge.
pub fn commit_steps(opening_points: &[Vec<Vec<Bls12381Fr>>], width: usize) -> (res: Vec<TranscriptStep>)
    ensures
        schedule(
            res@,
            commit_transcript(
                opening_points@.map_values(|set: Vec<Vec<Bls12381Fr>>| point_values(set@)),
                width as nat,
            ),
            width != 1,
        ),
{
    steps_of(commit_observations(opening_points, width), width != 1)
}

/// What the verifier does on the transcript before batching: absorb every
/// coordinate of every claimed point and one `1` per column, then, for more
/// than one column, draw the batching challenge.
pub fn verify_steps(claims: &[Vec<(Vec<Bls12381Fr>, Bls12381Fr)>]) -> (res: Vec<TranscriptStep>)
    ensures
        schedule(
            res@,
            commit_transcript(
                claims@.map_values(|c: Vec<(Vec<Bls12381Fr>, Bls12381Fr)>| claim_points(c@)),
                claims@.len(),
            ),
            claims@.len() != 1,
        ),
{
    steps_of(verify_observations(claims), claims.len() != 1)
}

/// Evaluates the multilinear extension of `evals` (of length `2^n`) at a
/// point of `n` coordinates.
pub fn multilinear_eval(evals: &[Bls12381Fr], point: &[Bls12381Fr]) -> (res: Bls12381Fr)
    requires
        evals@.len() == pow2(point@.len()),
    ensures
        res@ == mle(values(evals@), values(point@)),
        (forall|j: int| 0 <= j < point@.len() ==> #[trigger] point@[j]@ <= 1) ==> 0 <= int_sum(
            place_values(values(point@)),
        ) < evals@.len() && res@ == evals@[int_sum(place_values(values(point@)))]@,
    decreases point@.len(),
{
    proof {
        assert forall|i: int| 0 <= i < values(evals@).len() implies #[trigger] values(evals@)[i]
            < modulus() by {
            evals@[i].lemma_bounded();
        }
        if forall|j: int| 0 <= j < point@.len() ==> #[trigger] point@[j]@ <= 1 {
            let b = values(point@);
            assert forall|j: int| 0 <= j < b.len() implies #[trigger] b[j] <= 1 by {
                assert(b[j] == point@[j]@);
            }
            law_mle_interpolates_the_hypercube(values(evals@), b);
        }
    }
    if point.len() == 0 {
        proof {
            lemma_pow2_pos(0);
        }
        return evals[0];
    }
    proof {
        lemma_pow2_unfold(point@.len());
        lemma_pow2_pos((point@.len() - 1) as nat);
    }
    let h = evals.len() / 2;
    let n = evals.len();
    let rest = &point[1..point.len()];
    let lo = multilinear_eval(&evals[0..h], rest);
    let hi = multilinear_eval(&evals[h..n], rest);
    proof {
        assert(values(evals@).subrange(0, h as int) =~= values(evals@.subrange(0, h as int)));
        assert(values(evals@).subrange(h as int, n as int) =~= values(evals@.subrange(h as int, n as int)));
        assert(values(point@).drop_first() =~= values(rest@));
    }
    lo.add(&point[0].mul(&hi.sub(&lo)))
}

/// The evaluations of a column at every point of a set.
fn evaluate_column(
    values_in: &[Bls12381Fr],
    width: usize,
    num_rows: usize,
    col: usize,
    points: &Vec<Vec<Bls12381Fr>>,
) -> (res: Vec<Bls12381Fr>)
    requires
        col < width,
        values_in@.len() == num_rows * width,
        forall|k: int| 0 <= k < points@.len() ==> num_rows == pow2(#[trigger] points@[k]@.len()),
    ensures
        res@.len() == points@.len(),
        forall|k: int|
            0 <= k < points@.len() ==> #[trigger] res@[k]@ == mle(
                column_of(values(values_in@), width as nat, num_rows as nat, col as nat),
                values(points@[k]@),
            ),
{
    let col_evals = extract_column(values_in, width, num_rows, col);
    assert(col_evals@.len() == values(col_evals@).len());
    let mut col_values: Vec<Bls12381Fr> = Vec::new();
    let mut k: usize = 0;
    while k < points.len()
        invariant
            forall|k: int| 0 <= k < points@.len() ==> num_rows == pow2(#[trigger] points@[k]@.len()),
            col_evals@.len() == num_rows,
            values(col_evals@) == column_of(values(values_in@), width as nat, num_rows as nat, col as nat),
            k <= points@.len(),
            col_values@.len() == k,
            forall|i: int|
                0 <= i < k ==> #[trigger] col_values@[i]@ == mle(
                    column_of(values(values_in@), width as nat, num_rows as nat, col as nat),
                    values(points@[i]@),
                ),
        decreases points@.len() - k,
    {
        let e = multilinear_eval(col_evals.as_slice(), points[k].as_slice());
        col_values.push(e);
        k = k + 1;
    }
    col_values
}

/// The number of values opened for column `col`: one per point of its own
/// opening set, none when it has no set.
pub open spec fn opened_count(opening_points: Seq<Vec<Vec<Bls12381Fr>>>, col: int) -> int {
    if col < opening_points.len() {
        opening_points[col]@.len() as int
    } else {
        0
    }
}

/// The values the prover opens: entry `[i][j]` is column `i` evaluated at its
/// own `j`-th opening point, that is at `opening_points[i][j]`; a column
/// without an opening set opens nothing. A single column admits at most one
/// opening set and is opened only when it has one.
pub fn opened_values(
    values_in: &[Bls12381Fr],
    width: usize,
    num_rows: usize,
    opening_points: &[Vec<Vec<Bls12381Fr>>],
) -> (res: Vec<Vec<Bls12381Fr>>)
    requires
        width >= 1,
        values_in@.len() == num_rows * width,
        width == 1 ==> opening_points@.len() <= 1,
        forall|i: int, k: int|
            0 <= i < opening_points@.len() && i < width && 0 <= k < opening_points@[i]@.len()
                ==> num_rows == pow2(#[trigger] opening_points@[i]@[k]@.len()),
    ensures
        res@.len() == (if width == 1 && opening_points@.len() == 0 { 0 } else { width as int }),
        forall|i: int|
            0 <= i < res@.len() ==> #[trigger] res@[i]@.len() == opened_count(opening_points@, i)
                && forall|k: int|
                0 <= k < res@[i]@.len() ==> #[trigger] res@[i]@[k]@ == mle(
                    column_of(values(values_in@), width as nat, num_rows as nat, i as nat),
                    values(opening_points@[i]@[k]@),
                ),
{
    let mut all_values: Vec<Vec<Bls12381Fr>> = Vec::new();
    if width == 1 && opening_points.len() == 0 {
        return all_values;
    }
    let mut col: usize = 0;
    while col < width
        invariant
            width >= 1,
            values_in@.len() == num_rows * width,
            forall|i: int, k: int|
                0 <= i < opening_points@.len() && i < width && 0 <= k < opening_points@[i]@.len()
                    ==> num_rows == pow2(#[trigger] opening_points@[i]@[k]@.len()),
            col <= width,
            all_values@.len() == col,
            forall|i: int|
                0 <= i < col ==> #[trigger] all_values@[i]@.len() == opened_count(opening_points@, i)
                    && forall|k: int|
                    0 <= k < all_values@[i]@.len() ==> #[trigger] all_values@[i]@[k]@ == mle(
                        column_of(values(values_in@), width as nat, num_rows as nat, i as nat),
                        values(opening_points@[i]@[k]@),
                    ),
        decreases width - col,
    {
        if col < opening_points.len() {
            let points = &opening_points[col];
            assert(forall|k: int| 0 <= k < points@.len() ==> num_rows == pow2(#[trigger] points@[k]@.len())) by {
                assert forall|k: int| 0 <= k < points@.len() implies num_rows == pow2(#[trigger] points@[k]@.len()) by {
                    assert(num_rows == pow2(opening_points@[col as int]@[k]@.len()));
                }
            }
            let col_values = evaluate_column(values_in, width, num_rows, col, points);
            all_values.push(col_values);
        } else {
            all_values.push(Vec::new());
        }
        col = col + 1;
    }
    all_values
}

} // verus!
