//! The Poseidon2 permutation over the BLS12-381 scalar field, for the single
//! supported width 3 and S-box degree 5.
//!
//! A round of the internal layer adds a constant to the first word, applies
//! the S-box `x^5` to it and multiplies the state by
//! `M_I = 1 + diag(1, 1, 2)`. A round of the external layer adds a constant to
//! every word, applies the S-box to every word and multiplies the state by
//! `M_E = 1 + I`; the initial external layer first multiplies by `M_E` once.

use vstd::arithmetic::div_mod::{
    lemma_add_mod_noop, lemma_fundamental_div_mod, lemma_mod_equivalence, lemma_mul_mod_noop_left,
    lemma_mul_mod_noop_right, lemma_small_mod, lemma_sub_mod_noop,
};
use vstd::arithmetic::power::pow;
use vstd::prelude::*;

use crate::arith::{fadd, fmul, modulus};
use crate::field::{values, Bls12381Fr};

verus! {

/// Degree of the S-box. As `r - 1` is divisible by 2 and 3, the smallest
/// degree `D` with `gcd(r - 1, D) = 1` is 5.
pub const BLS12381_S_BOX_DEGREE: u64 = 5;

/// The only width supported for Poseidon2 over this field.
pub const BLS12381_WIDTH: usize = 3;

/// A Poseidon2 state of width 3, by value.
pub type State = (nat, nat, nat);

/// The values of a state of field elements.
pub open spec fn state_view(s: [Bls12381Fr; 3]) -> State {
    (s[0]@, s[1]@, s[2]@)
}

/// The S-box `x^5 mod r`.
pub open spec fn sbox(x: nat) -> nat {
    (pow(x as int, 5) % (modulus() as int)) as nat
}

/// Multiplication by the internal matrix `[[2, 1, 1], [1, 2, 1], [1, 1, 3]]`.
pub open spec fn internal_matmul(s: State) -> State {
    (
        (2 * s.0 + s.1 + s.2) % modulus(),
        (s.0 + 2 * s.1 + s.2) % modulus(),
        (s.0 + s.1 + 3 * s.2) % modulus(),
    )
}

/// Multiplication by the external matrix `[[2, 1, 1], [1, 2, 1], [1, 1, 2]]`.
pub open spec fn external_matmul(s: State) -> State {
    (
        (2 * s.0 + s.1 + s.2) % modulus(),
        (s.0 + 2 * s.1 + s.2) % modulus(),
        (s.0 + s.1 + 2 * s.2) % modulus(),
    )
}

/// One internal round with round constant `rc`.
pub open spec fn internal_round(s: State, rc: nat) -> State {
    internal_matmul((sbox(fadd(s.0, rc)), s.1, s.2))
}

/// The internal rounds, one per constant, in order.
pub open spec fn internal_rounds(s: State, rcs: Seq<nat>) -> State
    decreases rcs.len(),
{
    if rcs.len() == 0 {
        s
    } else {
        internal_round(internal_rounds(s, rcs.drop_last()), rcs.last())
    }
}

/// One external round with round constants `rc`.
pub open spec fn external_round(s: State, rc: State) -> State {
    external_matmul((sbox(fadd(s.0, rc.0)), sbox(fadd(s.1, rc.1)), sbox(fadd(s.2, rc.2))))
}

/// The external rounds, one per constant triple, in order.
pub open spec fn external_rounds(s: State, rcs: Seq<State>) -> State
    decreases rcs.len(),
{
    if rcs.len() == 0 {
        s
    } else {
        external_round(external_rounds(s, rcs.drop_last()), rcs.last())
    }
}

/// The values of a sequence of constant triples.
pub open spec fn triples(s: Seq<[Bls12381Fr; 3]>) -> Seq<State> {
    s.map_values(|x: [Bls12381Fr; 3]| state_view(x))
}

proof fn lemma_sbox(x: nat)
    requires
        x < modulus(),
    ensures
        fmul(fmul(fmul(x, x), fmul(x, x)), x) == sbox(x),
{
    let m = modulus() as int;
    let xi = x as int;
    reveal_with_fuel(pow, 6);
    lemma_mul_mod_noop_left(xi * xi, xi * xi, m);
    lemma_mul_mod_noop_right((xi * xi) % m, xi * xi, m);
    lemma_mul_mod_noop_left((xi * xi) * (xi * xi), xi, m);
    assert(((xi * xi) * (xi * xi)) * xi == pow(xi, 5)) by (nonlinear_arith)
        requires
            pow(xi, 5) == xi * (xi * (xi * (xi * (xi * 1)))),
    ;
}

/// `x^5` for a field element.
fn sbox_exec(x: &Bls12381Fr) -> (res: Bls12381Fr)
    ensures
        res@ == sbox(x@),
{
    let x2 = x.square();
    let x4 = x2.square();
    let res = x4.mul(x);
    proof {
        x.lemma_bounded();
        lemma_sbox(x@);
    }
    res
}

/// `(x + rc)^5`.
fn add_rc_and_sbox(x: &Bls12381Fr, rc: &Bls12381Fr) -> (res: Bls12381Fr)
    ensures
        res@ == sbox(fadd(x@, rc@)),
{
    sbox_exec(&x.add(rc))
}

/// The sum of the three words, as the matrices compute it.
fn state_sum(state: &[Bls12381Fr; 3]) -> (res: Bls12381Fr)
    ensures
        res@ == (state[0]@ + state[1]@ + state[2]@) % modulus(),
{
    let s01 = state[0].add(&state[1]);
    let res = s01.add(&state[2]);
    proof {
        state[2].lemma_bounded();
        lemma_small_mod(state[2]@, modulus());
        lemma_add_mod_noop((state[0]@ + state[1]@) as int, state[2]@ as int, modulus() as int);
    }
    res
}

/// Multiplies the state by the internal matrix `1 + diag(1, 1, 2)`.
fn matmul_internal(state: &mut [Bls12381Fr; 3], diag: &[Bls12381Fr; 3])
    requires
        diag[0]@ == 1,
        diag[1]@ == 1,
        diag[2]@ == 2,
    ensures
        state_view(*final(state)) == internal_matmul(state_view(*old(state))),
{
    let ghost s = state_view(*state);
    let sum = state_sum(state);
    let a = state[0].mul(&diag[0]).add(&sum);
    let b = state[1].mul(&diag[1]).add(&sum);
    let c = state[2].mul(&diag[2]).add(&sum);
    proof {
        let m = modulus() as int;
        state[0].lemma_bounded();
        state[1].lemma_bounded();
        lemma_small_mod(s.0, modulus());
        lemma_small_mod(s.1, modulus());
        assert(s.0 * diag[0]@ == s.0 && s.1 * diag[1]@ == s.1 && s.2 * diag[2]@ == 2 * s.2)
            by (nonlinear_arith)
            requires
                diag[0]@ == 1,
                diag[1]@ == 1,
                diag[2]@ == 2,
        ;
        lemma_add_mod_noop(s.0 as int, (s.0 + s.1 + s.2) as int, m);
        lemma_add_mod_noop(s.1 as int, (s.0 + s.1 + s.2) as int, m);
        lemma_add_mod_noop((2 * s.2) as int, (s.0 + s.1 + s.2) as int, m);
    }
    *state = [a, b, c];
}

/// Multiplies the state by the external matrix `1 + I` (the width-3 case of
/// the light MDS layer).
fn mds_light_permutation(state: &mut [Bls12381Fr; 3])
    ensures
        state_view(*final(state)) == external_matmul(state_view(*old(state))),
{
    let ghost s = state_view(*state);
    let sum = state_sum(state);
    let a = state[0].add(&sum);
    let b = state[1].add(&sum);
    let c = state[2].add(&sum);
    proof {
        let m = modulus() as int;
        state[0].lemma_bounded();
        state[1].lemma_bounded();
        state[2].lemma_bounded();
        lemma_small_mod(s.0, modulus());
        lemma_small_mod(s.1, modulus());
        lemma_small_mod(s.2, modulus());
        lemma_add_mod_noop(s.0 as int, (s.0 + s.1 + s.2) as int, m);
        lemma_add_mod_noop(s.1 as int, (s.0 + s.1 + s.2) as int, m);
        lemma_add_mod_noop(s.2 as int, (s.0 + s.1 + s.2) as int, m);
    }
    *state = [a, b, c];
}

/// The diagonal of `M_I - 1` for width 3: `[1, 1, 2]`.
pub fn diffusion_matrix_3() -> (res: [Bls12381Fr; 3])
    ensures
        res[0]@ == 1,
        res[1]@ == 1,
        res[2]@ == 2,
{
    [Bls12381Fr::one(), Bls12381Fr::one(), Bls12381Fr::two()]
}

/// The full permutation: initial external rounds, internal rounds, terminal
/// external rounds.
pub open spec fn permutation(
    s: State,
    initial: Seq<State>,
    internal: Seq<nat>,
    terminal: Seq<State>,
) -> State {
    external_rounds(internal_rounds(external_rounds(external_matmul(s), initial), internal), terminal)
}

/// The internal layer of Poseidon2 over BLS12-381, for width 3.
pub struct Poseidon2InternalLayerBls12381 {
    internal_constants: Vec<Bls12381Fr>,
}

impl Poseidon2InternalLayerBls12381 {
    /// The values of the round constants, one per internal round.
    pub closed spec fn constants(&self) -> Seq<nat> {
        values(self.internal_constants@)
    }

    /// A layer with the given round constants.
    pub fn new_from_constants(internal_constants: Vec<Bls12381Fr>) -> (res: Self)
        ensures
            res.constants() == values(internal_constants@),
    {
        Poseidon2InternalLayerBls12381 { internal_constants }
    }

    /// Performs the internal rounds on the state.
    pub fn permute_state(&self, state: &mut [Bls12381Fr; 3])
        ensures
            state_view(*final(state)) == internal_rounds(state_view(*old(state)), self.constants()),
    {
        let diag = diffusion_matrix_3();
        let ghost start = state_view(*state);
        let ghost rcs = self.constants();
        let n = self.internal_constants.len();
        let mut i: usize = 0;
        while i < n
            invariant
                n == self.internal_constants@.len(),
                rcs == self.constants(),
                rcs.len() == n,
                i <= n,
                diag[0]@ == 1,
                diag[1]@ == 1,
                diag[2]@ == 2,
                state_view(*state) == internal_rounds(start, rcs.subrange(0, i as int)),
            decreases n - i,
        {
            let x0 = add_rc_and_sbox(&state[0], &self.internal_constants[i]);
            *state = [x0, state[1], state[2]];
            matmul_internal(state, &diag);
            assert(rcs.subrange(0, i + 1).drop_last() =~= rcs.subrange(0, i as int));
            i = i + 1;
        }
        assert(rcs.subrange(0, n as int) =~= rcs);
    }
}

/// The external layers of Poseidon2 over BLS12-381, for width 3: the
/// constants of the initial and of the terminal rounds.
pub struct Poseidon2ExternalLayerBls12381 {
    initial: Vec<[Bls12381Fr; 3]>,
    terminal: Vec<[Bls12381Fr; 3]>,
}

/// Performs one external round per constant triple.
fn external_permute_rounds(state: &mut [Bls12381Fr; 3], constants: &Vec<[Bls12381Fr; 3]>)
    ensures
        state_view(*final(state)) == external_rounds(state_view(*old(state)), triples(constants@)),
{
    let ghost start = state_view(*state);
    let ghost rcs = triples(constants@);
    let n = constants.len();
    let mut i: usize = 0;
    while i < n
        invariant
            n == constants@.len(),
            rcs == triples(constants@),
            i <= n,
            state_view(*state) == external_rounds(start, rcs.subrange(0, i as int)),
        decreases n - i,
    {
        let rc = &constants[i];
        let x0 = add_rc_and_sbox(&state[0], &rc[0]);
        let x1 = add_rc_and_sbox(&state[1], &rc[1]);
        let x2 = add_rc_and_sbox(&state[2], &rc[2]);
        *state = [x0, x1, x2];
        mds_light_permutation(state);
        assert(rcs.subrange(0, i + 1).drop_last() =~= rcs.subrange(0, i as int));
        i = i + 1;
    }
    assert(rcs.subrange(0, n as int) =~= rcs);
}

impl Poseidon2ExternalLayerBls12381 {
    /// The values of the initial round constants.
    pub closed spec fn initial_constants(&self) -> Seq<State> {
        triples(self.initial@)
    }

    /// The values of the terminal round constants.
    pub closed spec fn terminal_constants(&self) -> Seq<State> {
        triples(self.terminal@)
    }

    /// External constants for as many initial as terminal rounds (the
    /// constants of Poseidon2's external layers must split the external rounds
    /// evenly between the initial and the terminal layer).
    pub fn new(initial: Vec<[Bls12381Fr; 3]>, terminal: Vec<[Bls12381Fr; 3]>) -> (res: Self)
        requires
            initial@.len() == terminal@.len(),
        ensures
            res.initial_constants() == triples(initial@),
            res.terminal_constants() == triples(terminal@),
    {
        Poseidon2ExternalLayerBls12381 { initial, terminal }
    }

    /// The layer built from its constants, which are the layer itself.
    pub fn new_from_constants(external_constants: Self) -> (res: Self)
        ensures
            res.initial_constants() == external_constants.initial_constants(),
            res.terminal_constants() == external_constants.terminal_constants(),
    {
        external_constants
    }

    /// The constants of the initial rounds.
    pub fn get_initial_constants(&self) -> (res: &[[Bls12381Fr; 3]])
        ensures
            triples(res@) == self.initial_constants(),
    {
        self.initial.as_slice()
    }

    /// The constants of the terminal rounds.
    pub fn get_terminal_constants(&self) -> (res: &[[Bls12381Fr; 3]])
        ensures
            triples(res@) == self.terminal_constants(),
    {
        self.terminal.as_slice()
    }

    /// Performs the initial external layer: one multiplication by the
    /// external matrix, then the initial rounds.
    pub fn permute_state_initial(&self, state: &mut [Bls12381Fr; 3])
        ensures
            state_view(*final(state)) == external_rounds(
                external_matmul(state_view(*old(state))),
                self.initial_constants(),
            ),
    {
        mds_light_permutation(state);
        external_permute_rounds(state, &self.initial);
    }

    /// Performs the terminal external rounds.
    pub fn permute_state_terminal(&self, state: &mut [Bls12381Fr; 3])
        ensures
            state_view(*final(state)) == external_rounds(
                state_view(*old(state)),
                self.terminal_constants(),
            ),
    {
        external_permute_rounds(state, &self.terminal);
    }
}

/// The S-box degree is the smallest admissible one: `r - 1` is divisible by
/// 2, 3 and 4, so no smaller degree is coprime to it, and not by the prime 5,
/// so `gcd(r - 1, 5) = 1` and `x^5` permutes the field.
pub proof fn law_sbox_degree_smallest_coprime()
    ensures
        (modulus() - 1) % 2 == 0,
        (modulus() - 1) % 3 == 0,
        (modulus() - 1) % 4 == 0,
        (modulus() - 1) % (BLS12381_S_BOX_DEGREE as int) != 0,
{
}

/// `x` is a multiple of `r`.
#[verifier::opaque]
spec fn multiple_of_r(x: int) -> bool {
    x % (modulus() as int) == 0
}

proof fn lemma_multiple_of_r_sub(x: int, y: int)
    requires
        multiple_of_r(x),
        multiple_of_r(y),
    ensures
        multiple_of_r(x - y),
{
    reveal(multiple_of_r);
    lemma_sub_mod_noop(x, y, modulus() as int);
}

proof fn lemma_multiple_of_r_scale(c: int, x: int)
    requires
        multiple_of_r(x),
    ensures
        multiple_of_r(c * x),
{
    reveal(multiple_of_r);
    lemma_mul_mod_noop_right(c, x, modulus() as int);
}

/// A multiple of `r` times `c`, with `c` invertible modulo `r`, has `x` a multiple of `r`.
proof fn lemma_multiple_of_r_cancel(x: int, c: int, c_inv: int)
    requires
        multiple_of_r(c * x),
        (c_inv * c) % (modulus() as int) == 1,
    ensures
        multiple_of_r(x),
{
    reveal(multiple_of_r);
    let m = modulus() as int;
    lemma_multiple_of_r_scale(c_inv, c * x);
    assert(c_inv * (c * x) == (c_inv * c) * x) by (nonlinear_arith);
    lemma_mul_mod_noop_left(c_inv * c, x, m);
}

/// The only multiple of `r` strictly between `-r` and `r` is zero.
proof fn lemma_multiple_of_r_small(x: int)
    requires
        multiple_of_r(x),
        -(modulus() as int) < x < modulus(),
    ensures
        x == 0,
{
    reveal(multiple_of_r);
    let m = modulus() as int;
    lemma_fundamental_div_mod(x, m);
    let q = x / m;
    assert(x == 0) by (nonlinear_arith)
        requires
            x == m * q,
            -m < x < m,
            m > 0,
    ;
}

/// Equal reductions differ by a multiple of `r`.
proof fn lemma_equal_reductions(a: int, b: int)
    requires
        a % (modulus() as int) == b % (modulus() as int),
    ensures
        multiple_of_r(a - b),
{
    reveal(multiple_of_r);
    lemma_mod_equivalence(a, b, modulus() as int);
}

/// The state is made of field elements.
pub open spec fn reduced_state(s: State) -> bool {
    s.0 < modulus() && s.1 < modulus() && s.2 < modulus()
}

/// A difference annihilated by the internal matrix modulo `r` is zero.
proof fn lemma_internal_kernel(d0: int, d1: int, d2: int)
    requires
        multiple_of_r(2 * d0 + d1 + d2),
        multiple_of_r(d0 + 2 * d1 + d2),
        multiple_of_r(d0 + d1 + 3 * d2),
        -(modulus() as int) < d0 < modulus(),
        -(modulus() as int) < d1 < modulus(),
        -(modulus() as int) < d2 < modulus(),
    ensures
        d0 == 0 && d1 == 0 && d2 == 0,
{
    let e0 = 2 * d0 + d1 + d2;
    let e1 = d0 + 2 * d1 + d2;
    let e2 = d0 + d1 + 3 * d2;
    lemma_multiple_of_r_scale(3, e2);
    lemma_multiple_of_r_sub(3 * e2, e0);
    lemma_multiple_of_r_sub(3 * e2 - e0, e1);
    assert(3 * e2 - e0 - e1 == 7 * d2);
    lemma_multiple_of_r_cancel(
        d2,
        7,
        14981678621464625851270783002338847382197300714436467949315331057125308909861int,
    );
    lemma_multiple_of_r_small(d2);
    lemma_multiple_of_r_sub(e1, e2);
    lemma_multiple_of_r_small(e1 - e2);
    lemma_multiple_of_r_sub(e0, e1);
    lemma_multiple_of_r_small(e0 - e1);
}

/// A difference annihilated by the external matrix modulo `r` is zero.
proof fn lemma_external_kernel(d0: int, d1: int, d2: int)
    requires
        multiple_of_r(2 * d0 + d1 + d2),
        multiple_of_r(d0 + 2 * d1 + d2),
        multiple_of_r(d0 + d1 + 2 * d2),
        -(modulus() as int) < d0 < modulus(),
        -(modulus() as int) < d1 < modulus(),
        -(modulus() as int) < d2 < modulus(),
    ensures
        d0 == 0 && d1 == 0 && d2 == 0,
{
    let e0 = 2 * d0 + d1 + d2;
    let e1 = d0 + 2 * d1 + d2;
    let e2 = d0 + d1 + 2 * d2;
    lemma_multiple_of_r_scale(3, e2);
    lemma_multiple_of_r_sub(3 * e2, e0);
    lemma_multiple_of_r_sub(3 * e2 - e0, e1);
    assert(3 * e2 - e0 - e1 == 4 * d2);
    lemma_multiple_of_r_cancel(
        d2,
        4,
        39326906381344642859585805381139474378267914375395728366952744024953935888385int,
    );
    lemma_multiple_of_r_small(d2);
    lemma_multiple_of_r_sub(e1, e2);
    lemma_multiple_of_r_small(e1 - e2);
    lemma_multiple_of_r_sub(e0, e1);
    lemma_multiple_of_r_small(e0 - e1);
}

/// The internal matrix `[[2, 1, 1], [1, 2, 1], [1, 1, 3]]` is injective on
/// field states: its determinant, 7, is invertible modulo `r`.
pub proof fn law_internal_matmul_injective(s: State, t: State)
    requires
        reduced_state(s),
        reduced_state(t),
        internal_matmul(s) == internal_matmul(t),
    ensures
        s == t,
{
    let (a0, a1, a2) = (s.0 as int, s.1 as int, s.2 as int);
    let (b0, b1, b2) = (t.0 as int, t.1 as int, t.2 as int);
    lemma_equal_reductions(2 * a0 + a1 + a2, 2 * b0 + b1 + b2);
    lemma_equal_reductions(a0 + 2 * a1 + a2, b0 + 2 * b1 + b2);
    lemma_equal_reductions(a0 + a1 + 3 * a2, b0 + b1 + 3 * b2);
    assert((2 * a0 + a1 + a2) - (2 * b0 + b1 + b2) == 2 * (a0 - b0) + (a1 - b1) + (a2 - b2));
    assert((a0 + 2 * a1 + a2) - (b0 + 2 * b1 + b2) == (a0 - b0) + 2 * (a1 - b1) + (a2 - b2));
    assert((a0 + a1 + 3 * a2) - (b0 + b1 + 3 * b2) == (a0 - b0) + (a1 - b1) + 3 * (a2 - b2));
    lemma_internal_kernel(a0 - b0, a1 - b1, a2 - b2);
}

/// The external matrix `[[2, 1, 1], [1, 2, 1], [1, 1, 2]]` is injective on
/// field states: its determinant, 4, is invertible modulo `r`.
pub proof fn law_external_matmul_injective(s: State, t: State)
    requires
        reduced_state(s),
        reduced_state(t),
        external_matmul(s) == external_matmul(t),
    ensures
        s == t,
{
    let (a0, a1, a2) = (s.0 as int, s.1 as int, s.2 as int);
    let (b0, b1, b2) = (t.0 as int, t.1 as int, t.2 as int);
    lemma_equal_reductions(2 * a0 + a1 + a2, 2 * b0 + b1 + b2);
    lemma_equal_reductions(a0 + 2 * a1 + a2, b0 + 2 * b1 + b2);
    lemma_equal_reductions(a0 + a1 + 2 * a2, b0 + b1 + 2 * b2);
    assert((2 * a0 + a1 + a2) - (2 * b0 + b1 + b2) == 2 * (a0 - b0) + (a1 - b1) + (a2 - b2));
    assert((a0 + 2 * a1 + a2) - (b0 + 2 * b1 + b2) == (a0 - b0) + 2 * (a1 - b1) + (a2 - b2));
    assert((a0 + a1 + 2 * a2) - (b0 + b1 + 2 * b2) == (a0 - b0) + (a1 - b1) + 2 * (a2 - b2));
    lemma_external_kernel(a0 - b0, a1 - b1, a2 - b2);
}

/// The Poseidon2 permutation over BLS12-381 of width 3 with S-box `x^5`.
pub struct Poseidon2Bls12381 {
    external_layer: Poseidon2ExternalLayerBls12381,
    internal_layer: Poseidon2InternalLayerBls12381,
}

impl Poseidon2Bls12381 {
    /// The permutation as a function of its input.
    pub closed spec fn spec_permute(&self, s: State) -> State {
        permutation(
            s,
            self.external_layer.initial_constants(),
            self.internal_layer.constants(),
            self.external_layer.terminal_constants(),
        )
    }

    /// A permutation with the given external and internal round constants.
    pub fn new(
        external_constants: Poseidon2ExternalLayerBls12381,
        internal_constants: Vec<Bls12381Fr>,
    ) -> (res: Self)
        ensures
            forall|s: State|
                #[trigger] res.spec_permute(s) == permutation(
                    s,
                    external_constants.initial_constants(),
                    values(internal_constants@),
                    external_constants.terminal_constants(),
                ),
    {
        let external_layer = Poseidon2ExternalLayerBls12381::new_from_constants(external_constants);
        let internal_layer = Poseidon2InternalLayerBls12381::new_from_constants(internal_constants);
        Poseidon2Bls12381 { external_layer, internal_layer }
    }

    /// Permutes the state in place.
    pub fn permute_mut(&self, state: &mut [Bls12381Fr; 3])
        ensures
            state_view(*final(state)) == self.spec_permute(state_view(*old(state))),
    {
        self.external_layer.permute_state_initial(state);
        self.internal_layer.permute_state(state);
        self.external_layer.permute_state_terminal(state);
    }

    /// The permutation of the input.
    pub fn permute(&self, input: [Bls12381Fr; 3]) -> (res: [Bls12381Fr; 3])
        ensures
            state_view(res) == self.spec_permute(state_view(input)),
    {
        let mut state = input;
        self.permute_mut(&mut state);
        state
    }
}

} // verus!
