//! Spec-level arithmetic modulo the BLS12-381 scalar field prime.

use vstd::arithmetic::power::pow;
use vstd::prelude::*;

verus! {

/// The prime `r` of the BLS12-381 scalar field.
pub open spec fn modulus() -> nat {
    52435875175126190479447740508185965837690552500527637822603658699938581184513nat
}

/// Little-endian value of a byte string.
pub open spec fn le_nat(s: Seq<u8>) -> nat
    decreases s.len(),
{
    if s.len() == 0 {
        0
    } else {
        s[0] as nat + 256 * le_nat(s.drop_first())
    }
}

/// Little-endian value of a sequence of 64-bit limbs.
pub open spec fn limbs_nat(s: Seq<u64>) -> nat
    decreases s.len(),
{
    if s.len() == 0 {
        0
    } else {
        s[0] as nat + 0x1_0000_0000_0000_0000nat * limbs_nat(s.drop_first())
    }
}

/// `2^256`, the Montgomery radix of the four-limb representation.
pub open spec fn montgomery_radix() -> nat {
    0x1_0000_0000_0000_0000_0000_0000_0000_0000_0000_0000_0000_0000_0000_0000_0000_0000nat
}

/// Field addition.
pub open spec fn fadd(a: nat, b: nat) -> nat {
    (a + b) % modulus()
}

/// Field subtraction.
pub open spec fn fsub(a: nat, b: nat) -> nat {
    ((a - b) % (modulus() as int)) as nat
}

/// Field multiplication.
pub open spec fn fmul(a: nat, b: nat) -> nat {
    (a * b) % modulus()
}

/// Field negation.
pub open spec fn fneg(a: nat) -> nat {
    ((0 - a) % (modulus() as int)) as nat
}

/// Left-to-right field sum of a sequence of values.
pub open spec fn fsum(s: Seq<nat>) -> nat
    decreases s.len(),
{
    if s.len() == 0 {
        0
    } else {
        fadd(fsum(s.drop_last()), s.last())
    }
}

/// Left-to-right field product of a sequence of values.
pub open spec fn fproduct(s: Seq<nat>) -> nat
    decreases s.len(),
{
    if s.len() == 0 {
        1
    } else {
        fmul(fproduct(s.drop_last()), s.last())
    }
}

/// `a^k` in the field.
pub open spec fn fpow(a: nat, k: nat) -> nat
    decreases k,
{
    if k == 0 {
        1
    } else {
        fmul(fpow(a, (k - 1) as nat), a)
    }
}

/// `x` squared `k` times in the field, that is `x^(2^k) mod r`.
pub open spec fn square_iter(x: nat, k: nat) -> nat
    decreases k,
{
    if k == 0 {
        x
    } else {
        let y = square_iter(x, (k - 1) as nat);
        fmul(y, y)
    }
}

/// The primitive `2^32`-th root of unity `7^((r - 1) / 2^32) mod r`.
pub open spec fn root_of_unity() -> nat {
    10238227357739495823651030575849232062558860180284477541189508159991286009131nat
}

/// Little-endian value of a sequence of 32-bit digits.
pub open spec fn u32_digits_nat(s: Seq<u32>) -> nat
    decreases s.len(),
{
    if s.len() == 0 {
        0
    } else {
        s[0] as nat + 0x1_0000_0000nat * u32_digits_nat(s.drop_first())
    }
}

/// `p` is a prime number.
pub open spec fn is_prime(p: int) -> bool {
    p > 1 && forall|d: int| 1 < d < p ==> #[trigger] (p % d) != 0
}

/// The integer whose prime factorisation is given as `(prime, exponent)` pairs.
pub open spec fn factors_product(s: Seq<(u32, usize)>) -> int
    decreases s.len(),
{
    if s.len() == 0 {
        1
    } else {
        factors_product(s.drop_last()) * pow(s.last().0 as int, s.last().1 as nat)
    }
}

} // verus!
