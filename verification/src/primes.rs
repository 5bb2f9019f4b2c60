//! Primality of the prime factors of `r - 1`.
//!
//! Each factor is below `2^32`, so it is prime as soon as every way of
//! writing it as a product of two 32-bit numbers is trivial; the bit-vector
//! solver checks that exhaustively for each factor.

use vstd::arithmetic::div_mod::lemma_fundamental_div_mod;
use vstd::prelude::*;

use crate::arith::is_prime;

verus! {

/// `a * b == p` only with `a == 1` or `b == 1`.
spec fn trivial_factorisation(p: int, a: u32, b: u32) -> bool {
    a * b == p ==> a == 1 || b == 1
}

/// A number below `2^32` whose every factorisation into two 32-bit numbers is
/// trivial is prime.
proof fn lemma_prime_from_factorisations(p: int)
    requires
        1 < p < 0x1_0000_0000,
        forall|a: u32, b: u32| #[trigger] trivial_factorisation(p, a, b),
    ensures
        is_prime(p),
{
    assert forall|d: int| 1 < d < p implies #[trigger] (p % d) != 0 by {
        if p % d == 0 {
            lemma_fundamental_div_mod(p, d);
            let q = p / d;
            assert(0 < q < p) by (nonlinear_arith)
                requires
                    p == d * q,
                    1 < d < p,
            ;
            let (a, b) = (d as u32, q as u32);
            assert(a == d && b == q);
            assert(trivial_factorisation(p, a, b));
            assert(a * b == p);
        }
    }
}

#[verifier::rlimit(100)]
proof fn lemma_factorisations_of_2(a: u32, b: u32)
    by (bit_vector)
    requires
        a * b == 2u64,
    ensures
        a == 1 || b == 1,
{
}

/// 2 is prime.
pub proof fn lemma_2_is_prime()
    ensures
        is_prime(2),
{
    assert forall|a: u32, b: u32| #[trigger] trivial_factorisation(2, a, b) by {
        if a * b == 2 {
            lemma_factorisations_of_2(a, b);
        }
    }
    lemma_prime_from_factorisations(2);
}

#[verifier::rlimit(100)]
proof fn lemma_factorisations_of_3(a: u32, b: u32)
    by (bit_vector)
    requires
        a * b == 3u64,
    ensures
        a == 1 || b == 1,
{
}

/// 3 is prime.
pub proof fn lemma_3_is_prime()
    ensures
        is_prime(3),
{
    assert forall|a: u32, b: u32| #[trigger] trivial_factorisation(3, a, b) by {
        if a * b == 3 {
            lemma_factorisations_of_3(a, b);
        }
    }
    lemma_prime_from_factorisations(3);
}

#[verifier::rlimit(100)]
proof fn lemma_factorisations_of_11(a: u32, b: u32)
    by (bit_vector)
    requires
        a * b == 11u64,
    ensures
        a == 1 || b == 1,
{
}

/// 11 is prime.
pub proof fn lemma_11_is_prime()
    ensures
        is_prime(11),
{
    assert forall|a: u32, b: u32| #[trigger] trivial_factorisation(11, a, b) by {
        if a * b == 11 {
            lemma_factorisations_of_11(a, b);
        }
    }
    lemma_prime_from_factorisations(11);
}

#[verifier::rlimit(100)]
proof fn lemma_factorisations_of_19(a: u32, b: u32)
    by (bit_vector)
    requires
        a * b == 19u64,
    ensures
        a == 1 || b == 1,
{
}

/// 19 is prime.
pub proof fn lemma_19_is_prime()
    ensures
        is_prime(19),
{
    assert forall|a: u32, b: u32| #[trigger] trivial_factorisation(19, a, b) by {
        if a * b == 19 {
            lemma_factorisations_of_19(a, b);
        }
    }
    lemma_prime_from_factorisations(19);
}

#[verifier::rlimit(100)]
proof fn lemma_factorisations_of_10177(a: u32, b: u32)
    by (bit_vector)
    requires
        a * b == 10177u64,
    ensures
        a == 1 || b == 1,
{
}

/// 10177 is prime.
pub proof fn lemma_10177_is_prime()
    ensures
        is_prime(10177),
{
    assert forall|a: u32, b: u32| #[trigger] trivial_factorisation(10177, a, b) by {
        if a * b == 10177 {
            lemma_factorisations_of_10177(a, b);
        }
    }
    lemma_prime_from_factorisations(10177);
}

#[verifier::rlimit(100)]
proof fn lemma_factorisations_of_125527(a: u32, b: u32)
    by (bit_vector)
    requires
        a * b == 125527u64,
    ensures
        a == 1 || b == 1,
{
}

/// 125527 is prime.
pub proof fn lemma_125527_is_prime()
    ensures
        is_prime(125527),
{
    assert forall|a: u32, b: u32| #[trigger] trivial_factorisation(125527, a, b) by {
        if a * b == 125527 {
            lemma_factorisations_of_125527(a, b);
        }
    }
    lemma_prime_from_factorisations(125527);
}

#[verifier::rlimit(100)]
proof fn lemma_factorisations_of_859267(a: u32, b: u32)
    by (bit_vector)
    requires
        a * b == 859267u64,
    ensures
        a == 1 || b == 1,
{
}

/// 859267 is prime.
pub proof fn lemma_859267_is_prime()
    ensures
        is_prime(859267),
{
    assert forall|a: u32, b: u32| #[trigger] trivial_factorisation(859267, a, b) by {
        if a * b == 859267 {
            lemma_factorisations_of_859267(a, b);
        }
    }
    lemma_prime_from_factorisations(859267);
}

#[verifier::rlimit(100)]
proof fn lemma_factorisations_of_906349(a: u32, b: u32)
    by (bit_vector)
    requires
        a * b == 906349u64,
    ensures
        a == 1 || b == 1,
{
}

/// 906349 is prime.
pub proof fn lemma_906349_is_prime()
    ensures
        is_prime(906349),
{
    assert forall|a: u32, b: u32| #[trigger] trivial_factorisation(906349, a, b) by {
        if a * b == 906349 {
            lemma_factorisations_of_906349(a, b);
        }
    }
    lemma_prime_from_factorisations(906349);
}

#[verifier::rlimit(100)]
proof fn lemma_factorisations_of_2508409(a: u32, b: u32)
    by (bit_vector)
    requires
        a * b == 2508409u64,
    ensures
        a == 1 || b == 1,
{
}

/// 2508409 is prime.
pub proof fn lemma_2508409_is_prime()
    ensures
        is_prime(2508409),
{
    assert forall|a: u32, b: u32| #[trigger] trivial_factorisation(2508409, a, b) by {
        if a * b == 2508409 {
            lemma_factorisations_of_2508409(a, b);
        }
    }
    lemma_prime_from_factorisations(2508409);
}

#[verifier::rlimit(100)]
proof fn lemma_factorisations_of_2529403(a: u32, b: u32)
    by (bit_vector)
    requires
        a * b == 2529403u64,
    ensures
        a == 1 || b == 1,
{
}

/// 2529403 is prime.
pub proof fn lemma_2529403_is_prime()
    ensures
        is_prime(2529403),
{
    assert forall|a: u32, b: u32| #[trigger] trivial_factorisation(2529403, a, b) by {
        if a * b == 2529403 {
            lemma_factorisations_of_2529403(a, b);
        }
    }
    lemma_prime_from_factorisations(2529403);
}

#[verifier::rlimit(100)]
proof fn lemma_factorisations_of_52437899(a: u32, b: u32)
    by (bit_vector)
    requires
        a * b == 52437899u64,
    ensures
        a == 1 || b == 1,
{
}

/// 52437899 is prime.
pub proof fn lemma_52437899_is_prime()
    ensures
        is_prime(52437899),
{
    assert forall|a: u32, b: u32| #[trigger] trivial_factorisation(52437899, a, b) by {
        if a * b == 52437899 {
            lemma_factorisations_of_52437899(a, b);
        }
    }
    lemma_prime_from_factorisations(52437899);
}

#[verifier::rlimit(100)]
proof fn lemma_factorisations_of_254760293(a: u32, b: u32)
    by (bit_vector)
    requires
        a * b == 254760293u64,
    ensures
        a == 1 || b == 1,
{
}

/// 254760293 is prime.
pub proof fn lemma_254760293_is_prime()
    ensures
        is_prime(254760293),
{
    assert forall|a: u32, b: u32| #[trigger] trivial_factorisation(254760293, a, b) by {
        if a * b == 254760293 {
            lemma_factorisations_of_254760293(a, b);
        }
    }
    lemma_prime_from_factorisations(254760293);
}

} // verus!
