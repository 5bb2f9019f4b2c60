//! The scalar field of the BLS12-381 curve, `F_r` with
//! `r = 52435875175126190479447740508185965837690552500527637822603658699938581184513`.
//!
//! An element is held as its canonical little-endian 32-byte encoding; its
//! view is the integer it stands for, always below `r`.

use vstd::arithmetic::div_mod::{
    lemma_mod_multiples_vanish, lemma_mul_mod_noop_left, lemma_mul_mod_noop_right, lemma_small_mod,
};
use vstd::arithmetic::power::pow;
use vstd::prelude::*;

use crate::arith::{
    factors_product, fadd, fmul, fneg, fproduct, fsub, fsum, is_prime, le_nat, limbs_nat,
    modulus, montgomery_radix, root_of_unity, square_iter, u32_digits_nat,
};
use crate::backend::{
    fr_add, fr_compare, fr_from_raw, fr_from_raw_bytes, fr_from_repr, fr_from_u64, fr_invert,
    fr_is_zero, fr_mul, fr_one, fr_root_of_unity, fr_square, fr_sub, fr_to_raw_bytes,
    fr_two_adicity, fr_zero,
};
use crate::primes::{
    lemma_10177_is_prime, lemma_11_is_prime, lemma_125527_is_prime, lemma_19_is_prime,
    lemma_2508409_is_prime, lemma_2529403_is_prime, lemma_254760293_is_prime, lemma_2_is_prime,
    lemma_3_is_prime, lemma_52437899_is_prime, lemma_859267_is_prime, lemma_906349_is_prime,
};

verus! {

/// An element of the BLS12-381 scalar field.
#[derive(Clone, Copy, Debug, PartialEq, Eq, Hash)]
pub struct Bls12381Fr {
    repr: [u8; 32],
}

/// The values of a sequence of field elements.
pub open spec fn values(s: Seq<Bls12381Fr>) -> Seq<nat> {
    s.map_values(|x: Bls12381Fr| x@)
}

impl View for Bls12381Fr {
    type V = nat;

    /// The integer in `[0, r)` that this element stands for.
    closed spec fn view(&self) -> nat {
        le_nat(self.repr@) % modulus()
    }
}

impl Bls12381Fr {
    #[verifier::type_invariant]
    spec fn canonical(self) -> bool {
        le_nat(self.repr@) < modulus()
    }

    /// Wraps a canonical encoding.
    fn from_canonical_repr(repr: [u8; 32]) -> (res: Self)
        requires
            le_nat(repr@) < modulus(),
        ensures
            res@ == le_nat(repr@),
    {
        proof {
            lemma_small_mod(le_nat(repr@), modulus());
        }
        Bls12381Fr { repr }
    }

    /// The canonical encoding, with its value.
    fn repr_of(&self) -> (res: [u8; 32])
        ensures
            le_nat(res@) < modulus(),
            le_nat(res@) == self@,
    {
        proof {
            use_type_invariant(self);
            lemma_small_mod(le_nat(self.repr@), modulus());
        }
        self.repr
    }

    /// Every element stands for an integer below `r`.
    pub proof fn lemma_bounded(&self)
        ensures
            self@ < modulus(),
    {
    }

    /// The additive identity.
    pub fn zero() -> (res: Self)
        ensures
            res@ == 0,
    {
        Self::from_canonical_repr(fr_zero())
    }

    /// The multiplicative identity.
    pub fn one() -> (res: Self)
        ensures
            res@ == 1,
    {
        Self::from_canonical_repr(fr_one())
    }

    /// The element two.
    pub fn two() -> (res: Self)
        ensures
            res@ == 2,
    {
        let limbs: [u64; 4] = [2u64, 0, 0, 0];
        proof {
            reveal_with_fuel(limbs_nat, 5);
            assert(limbs_nat(limbs@) == 2);
        }
        Self::from_canonical_repr(fr_from_raw(limbs))
    }

    /// The element `r - 1`, that is minus one.
    pub fn neg_one() -> (res: Self)
        ensures
            res@ == modulus() - 1,
    {
        let limbs: [u64; 4] = [
            0xffffffff00000000u64,
            0x53bda402fffe5bfeu64,
            0x3339d80809a1d805u64,
            0x73eda753299d7d48u64,
        ];
        proof {
            reveal_with_fuel(limbs_nat, 5);
            assert(limbs_nat(limbs@) == modulus() - 1);
        }
        Self::from_canonical_repr(fr_from_raw(limbs))
    }

    /// The multiplicative generator 7.
    pub fn generator() -> (res: Self)
        ensures
            res@ == 7,
    {
        let limbs: [u64; 4] = [7u64, 0, 0, 0];
        proof {
            reveal_with_fuel(limbs_nat, 5);
            assert(limbs_nat(limbs@) == 7);
        }
        Self::from_canonical_repr(fr_from_raw(limbs))
    }

    /// `a + b`.
    pub fn add(&self, rhs: &Self) -> (res: Self)
        ensures
            res@ == fadd(self@, rhs@),
    {
        Self::from_canonical_repr(fr_add(self.repr_of(), rhs.repr_of()))
    }

    /// `a - b`.
    pub fn sub(&self, rhs: &Self) -> (res: Self)
        ensures
            res@ == fsub(self@, rhs@),
    {
        Self::from_canonical_repr(fr_sub(self.repr_of(), rhs.repr_of()))
    }

    /// `a * b`.
    pub fn mul(&self, rhs: &Self) -> (res: Self)
        ensures
            res@ == fmul(self@, rhs@),
    {
        Self::from_canonical_repr(fr_mul(self.repr_of(), rhs.repr_of()))
    }

    /// `-a`, computed as `a * (r - 1)`.
    pub fn neg(&self) -> (res: Self)
        ensures
            res@ == fneg(self@),
    {
        let res = self.mul(&Self::neg_one());
        proof {
            let a = self@ as int;
            let m = modulus() as int;
            assert(a * (m - 1) == m * a + (0 - a)) by (nonlinear_arith);
            lemma_mod_multiples_vanish(a, 0 - a, m);
        }
        res
    }

    /// `a * a`.
    pub fn square(&self) -> (res: Self)
        ensures
            res@ == fmul(self@, self@),
    {
        Self::from_canonical_repr(fr_square(self.repr_of()))
    }

    /// `a += b`.
    pub fn add_assign(&mut self, rhs: &Self)
        ensures
            final(self)@ == fadd(old(self)@, rhs@),
    {
        *self = self.add(rhs);
    }

    /// `a -= b`.
    pub fn sub_assign(&mut self, rhs: &Self)
        ensures
            final(self)@ == fsub(old(self)@, rhs@),
    {
        *self = self.sub(rhs);
    }

    /// `a *= b`.
    pub fn mul_assign(&mut self, rhs: &Self)
        ensures
            final(self)@ == fmul(old(self)@, rhs@),
    {
        *self = self.mul(rhs);
    }

    /// Whether this is the zero element.
    pub fn is_zero(&self) -> (res: bool)
        ensures
            res == (self@ == 0),
    {
        fr_is_zero(self.repr_of())
    }

    /// The multiplicative inverse, or `None` for zero.
    pub fn try_inverse(&self) -> (res: Option<Self>)
        ensures
            res is Some <==> self@ != 0,
            res matches Some(w) ==> fmul(self@, w@) == 1,
    {
        match fr_invert(self.repr_of()) {
            Some(w) => Some(Self::from_canonical_repr(w)),
            None => None,
        }
    }

    /// The multiplicative inverse of a non-zero element.
    pub fn inverse(&self) -> (res: Self)
        requires
            self@ != 0,
        ensures
            fmul(self@, res@) == 1,
    {
        match self.try_inverse() {
            Some(w) => w,
            None => {
                assert(false);
                Self::zero()
            },
        }
    }

    /// `a / b = a * b^-1`, for non-zero `b`.
    pub fn div(&self, rhs: &Self) -> (res: Self)
        requires
            rhs@ != 0,
        ensures
            fmul(res@, rhs@) == self@,
    {
        let w = rhs.inverse();
        let res = self.mul(&w);
        proof {
            let a = self@ as int;
            let b = rhs@ as int;
            let v = w@ as int;
            let m = modulus() as int;
            lemma_mul_mod_noop_left(a * v, b, m);
            assert(a * v * b == a * (v * b)) by (nonlinear_arith);
            lemma_mul_mod_noop_right(a, v * b, m);
            assert((v * b) % m == 1) by (nonlinear_arith)
                requires (b * v) % m == 1;
            lemma_small_mod(self@, modulus());
        }
        res
    }

    /// The element with value `b as u64`.
    pub fn from_bool(b: bool) -> (res: Self)
        ensures
            res@ == (if b { 1nat } else { 0nat }),
    {
        let n: u64 = if b { 1 } else { 0 };
        Self::from_canonical_repr(fr_from_u64(n))
    }

    /// The element `n`.
    pub fn from_canonical_u8(n: u8) -> (res: Self)
        ensures
            res@ == n,
    {
        Self::from_canonical_repr(fr_from_u64(n as u64))
    }

    /// The element `n`.
    pub fn from_canonical_u16(n: u16) -> (res: Self)
        ensures
            res@ == n,
    {
        Self::from_canonical_repr(fr_from_u64(n as u64))
    }

    /// The element `n`.
    pub fn from_canonical_u32(n: u32) -> (res: Self)
        ensures
            res@ == n,
    {
        Self::from_canonical_repr(fr_from_u64(n as u64))
    }

    /// The element `n`.
    pub fn from_canonical_u64(n: u64) -> (res: Self)
        ensures
            res@ == n,
    {
        Self::from_canonical_repr(fr_from_u64(n))
    }

    /// The element `n`.
    pub fn from_canonical_usize(n: usize) -> (res: Self)
        ensures
            res@ == n,
    {
        Self::from_canonical_repr(fr_from_u64(n as u64))
    }

    /// The element `n mod r`, which is `n` since `n < r`.
    pub fn from_wrapped_u32(n: u32) -> (res: Self)
        ensures
            res@ == n,
    {
        Self::from_canonical_repr(fr_from_u64(n as u64))
    }

    /// The element `n mod r`, which is `n` since `n < r`.
    pub fn from_wrapped_u64(n: u64) -> (res: Self)
        ensures
            res@ == n,
    {
        Self::from_canonical_repr(fr_from_u64(n))
    }

    /// Sum of all the values, zero for none.
    pub fn sum(values_in: &[Self]) -> (res: Self)
        ensures
            res@ == fsum(values(values_in@)),
    {
        let ghost vals = values(values_in@);
        let mut acc = Self::zero();
        let mut i: usize = 0;
        while i < values_in.len()
            invariant
                i <= values_in.len(),
                vals == values(values_in@),
                acc@ == fsum(vals.subrange(0, i as int)),
            decreases values_in.len() - i,
        {
            acc = acc.add(&values_in[i]);
            assert(vals.subrange(0, i + 1).drop_last() =~= vals.subrange(0, i as int));
            i = i + 1;
        }
        assert(vals.subrange(0, i as int) =~= vals);
        acc
    }

    /// Product of all the values, one for none.
    pub fn product(values_in: &[Self]) -> (res: Self)
        ensures
            res@ == fproduct(values(values_in@)),
    {
        let ghost vals = values(values_in@);
        let mut acc = Self::one();
        let mut i: usize = 0;
        while i < values_in.len()
            invariant
                i <= values_in.len(),
                vals == values(values_in@),
                acc@ == fproduct(vals.subrange(0, i as int)),
            decreases values_in.len() - i,
        {
            acc = acc.mul(&values_in[i]);
            assert(vals.subrange(0, i + 1).drop_last() =~= vals.subrange(0, i as int));
            i = i + 1;
        }
        assert(vals.subrange(0, i as int) =~= vals);
        acc
    }

    /// The 2-adicity of `r - 1`: `2^32` is the largest power of two dividing it.
    pub fn two_adicity() -> (res: usize)
        ensures
            res == 32,
    {
        fr_two_adicity() as usize
    }

    /// A generator of the multiplicative subgroup of order `2^bits`: the
    /// primitive `2^32`-th root of unity squared `32 - bits` times (not at all
    /// when `bits` exceeds 32).
    pub fn two_adic_generator(bits: usize) -> (res: Self)
        ensures
            res@ == square_iter(root_of_unity(), if bits <= 32 { (32 - bits) as nat } else { 0 }),
    {
        let mut omega = Self::from_canonical_repr(fr_root_of_unity());
        let s = Self::two_adicity();
        if bits >= s {
            return omega;
        }
        let mut i = bits;
        while i < s
            invariant
                s == 32,
                bits <= i <= s,
                omega@ == square_iter(root_of_unity(), (i - bits) as nat),
            decreases s - i,
        {
            omega = omega.square();
            i = i + 1;
        }
        omega
    }

    /// Compares the values of two elements.
    pub fn compare(&self, other: &Self) -> (res: core::cmp::Ordering)
        ensures
            (res == core::cmp::Ordering::Less) <==> self@ < other@,
            (res == core::cmp::Ordering::Equal) <==> self@ == other@,
            (res == core::cmp::Ordering::Greater) <==> self@ > other@,
    {
        fr_compare(self.repr_of(), other.repr_of())
    }

    /// Whether two elements have the same value.
    pub fn equals(&self, other: &Self) -> (res: bool)
        ensures
            res == (self@ == other@),
    {
        match self.compare(other) {
            core::cmp::Ordering::Equal => true,
            _ => false,
        }
    }

    /// The canonical little-endian encoding of the value.
    pub fn to_canonical_bytes(&self) -> (res: [u8; 32])
        ensures
            le_nat(res@) == self@,
    {
        self.repr_of()
    }

    /// The element with the given canonical little-endian encoding, or `None`
    /// when the encoded integer is not below `r`.
    pub fn from_canonical_bytes(bytes: [u8; 32]) -> (res: Option<Self>)
        ensures
            res is Some <==> le_nat(bytes@) < modulus(),
            res matches Some(x) ==> x@ == le_nat(bytes@),
    {
        match fr_from_repr(bytes) {
            Some(r) => Some(Self::from_canonical_repr(r)),
            None => None,
        }
    }

    /// The raw bytes of the element: the 32 little-endian bytes of its
    /// Montgomery form `a * 2^256 mod r`.
    pub fn to_raw_bytes(&self) -> (res: Vec<u8>)
        ensures
            res@.len() == 32,
            le_nat(res@) == (self@ * montgomery_radix()) % modulus(),
    {
        fr_to_raw_bytes(self.repr_of())
    }

    /// Reads raw bytes written by `to_raw_bytes`: `None` unless there are
    /// exactly 32 bytes whose little-endian value is below `r`; otherwise the
    /// element whose Montgomery form they encode.
    pub fn from_raw_bytes(bytes: &[u8]) -> (res: Option<Self>)
        ensures
            res is Some <==> (bytes@.len() == 32 && le_nat(bytes@) < modulus()),
            res matches Some(x) ==> (x@ * montgomery_radix()) % modulus() == le_nat(bytes@),
    {
        match fr_from_raw_bytes(bytes) {
            Some(r) => Some(Self::from_canonical_repr(r)),
            None => None,
        }
    }

    /// The order `r` of the field, as little-endian 32-bit digits.
    pub fn order_u32_digits() -> (res: Vec<u32>)
        ensures
            res@.len() == 8,
            u32_digits_nat(res@) == modulus(),
    {
        let mut v: Vec<u32> = Vec::new();
        v.push(0x00000001u32);
        v.push(0xffffffffu32);
        v.push(0xfffe5bfeu32);
        v.push(0x53bda402u32);
        v.push(0x09a1d805u32);
        v.push(0x3339d808u32);
        v.push(0x299d7d48u32);
        v.push(0x73eda753u32);
        proof {
            reveal_with_fuel(u32_digits_nat, 9);
        }
        v
    }
}

impl Bls12381Fr {
    /// The prime factorisation of `r - 1`, the order of the multiplicative
    /// group, as `(prime, exponent)` pairs.
    pub fn multiplicative_group_factors() -> (res: Vec<(u32, usize)>)
        ensures
            res@ == seq![
                (2u32, 32usize),
                (3u32, 1usize),
                (11u32, 1usize),
                (19u32, 1usize),
                (10177u32, 1usize),
                (125527u32, 1usize),
                (859267u32, 1usize),
                (906349u32, 2usize),
                (2508409u32, 1usize),
                (2529403u32, 1usize),
                (52437899u32, 1usize),
                (254760293u32, 2usize),
            ],
            factors_product(res@) == modulus() - 1,
            forall|i: int| 0 <= i < res@.len() ==> is_prime(#[trigger] res@[i].0 as int),
    {
        let mut v: Vec<(u32, usize)> = Vec::new();
        proof {
            reveal_with_fuel(pow, 3);
            assert(pow(2, 32) == 0x1_0000_0000int) by {
                reveal_with_fuel(pow, 33);
            }
        }
        let ghost prev = v@;
        v.push((2u32, 32usize));
        proof {
            assert(v@.drop_last() =~= prev);
            assert(factors_product(prev) == 1);
            assert(factors_product(v@) == factors_product(prev) * pow(2, 32));
            assert(pow(2, 32) == 4294967296int);
            assert(factors_product(v@) == 4294967296int);
        }
        let ghost prev = v@;
        v.push((3u32, 1usize));
        proof {
            assert(v@.drop_last() =~= prev);
            assert(factors_product(v@) == factors_product(prev) * pow(3, 1));
            assert(pow(3, 1) == 3int);
            assert(factors_product(v@) == 12884901888int);
        }
        let ghost prev = v@;
        v.push((11u32, 1usize));
        proof {
            assert(v@.drop_last() =~= prev);
            assert(factors_product(v@) == factors_product(prev) * pow(11, 1));
            assert(pow(11, 1) == 11int);
            assert(factors_product(v@) == 141733920768int);
        }
        let ghost prev = v@;
        v.push((19u32, 1usize));
        proof {
            assert(v@.drop_last() =~= prev);
            assert(factors_product(v@) == factors_product(prev) * pow(19, 1));
            assert(pow(19, 1) == 19int);
            assert(factors_product(v@) == 2692944494592int);
        }
        let ghost prev = v@;
        v.push((10177u32, 1usize));
        proof {
            assert(v@.drop_last() =~= prev);
            assert(factors_product(v@) == factors_product(prev) * pow(10177, 1));
            assert(pow(10177, 1) == 10177int);
            assert(factors_product(v@) == 27406096121462784int);
        }
        let ghost prev = v@;
        v.push((125527u32, 1usize));
        proof {
            assert(v@.drop_last() =~= prev);
            assert(factors_product(v@) == factors_product(prev) * pow(125527, 1));
            assert(pow(125527, 1) == 125527int);
            assert(factors_product(v@) == 3440205027838858887168int);
        }
        let ghost prev = v@;
        v.push((859267u32, 1usize));
        proof {
            assert(v@.drop_last() =~= prev);
            assert(factors_product(v@) == factors_product(prev) * pow(859267, 1));
            assert(pow(859267, 1) == 859267int);
            assert(factors_product(v@) == 2956054653656012759400185856int);
        }
        let ghost prev = v@;
        v.push((906349u32, 2usize));
        proof {
            assert(v@.drop_last() =~= prev);
            assert(factors_product(v@) == factors_product(prev) * pow(906349, 2));
            assert(pow(906349, 2) == 821468509801int);
            assert(factors_product(v@) == 2428305811229115977927912629730757574656int);
        }
        let ghost prev = v@;
        v.push((2508409u32, 1usize));
        proof {
            assert(v@.drop_last() =~= prev);
            assert(factors_product(v@) == factors_product(prev) * pow(2508409, 1));
            assert(pow(2508409, 1) == 2508409int);
            assert(factors_product(v@) == 6091184151639415581078177391630299877085282304int);
        }
        let ghost prev = v@;
        v.push((2529403u32, 1usize));
        proof {
            assert(v@.drop_last() =~= prev);
            assert(factors_product(v@) == factors_product(prev) * pow(2529403, 1));
            assert(pow(2529403, 1) == 2529403int);
            assert(factors_product(v@) == 15407059466709192689025885128921855399999144315584512int);
        }
        let ghost prev = v@;
        v.push((52437899u32, 1usize));
        proof {
            assert(v@.drop_last() =~= prev);
            assert(factors_product(v@) == factors_product(prev) * pow(52437899, 1));
            assert(pow(52437899, 1) == 52437899int);
            assert(factors_product(v@) == 807913828202290508598677772776006232357759729707044766220288int);
        }
        let ghost prev = v@;
        v.push((254760293u32, 2usize));
        proof {
            assert(v@.drop_last() =~= prev);
            assert(factors_product(v@) == factors_product(prev) * pow(254760293, 2));
            assert(pow(254760293, 2) == 64902806889445849int);
            assert(factors_product(v@) == 52435875175126190479447740508185965837690552500527637822603658699938581184512int);
        }
        assert(v@ =~= seq![
            (2u32, 32usize),
            (3u32, 1usize),
            (11u32, 1usize),
            (19u32, 1usize),
            (10177u32, 1usize),
            (125527u32, 1usize),
            (859267u32, 1usize),
            (906349u32, 2usize),
            (2508409u32, 1usize),
            (2529403u32, 1usize),
            (52437899u32, 1usize),
            (254760293u32, 2usize),
        ]);
        proof {
            lemma_2_is_prime();
            lemma_3_is_prime();
            lemma_11_is_prime();
            lemma_19_is_prime();
            lemma_10177_is_prime();
            lemma_125527_is_prime();
            lemma_859267_is_prime();
            lemma_906349_is_prime();
            lemma_2508409_is_prime();
            lemma_2529403_is_prime();
            lemma_52437899_is_prime();
            lemma_254760293_is_prime();
            assert forall|i: int| 0 <= i < v@.len() implies is_prime(#[trigger] v@[i].0 as int) by {
                if i < 6 {
                    assert(i == 0 || i == 1 || i == 2 || i == 3 || i == 4 || i == 5);
                } else {
                    assert(i == 6 || i == 7 || i == 8 || i == 9 || i == 10 || i == 11);
                }
            }
        }
        v
    }
}

impl Default for Bls12381Fr {
    fn default() -> (res: Self)
        ensures
            res@ == 0,
    {
        Self::zero()
    }
}

} // verus!