//! The scalar field of the BLS12-381 curve, its Poseidon2 layers, and the
//! column-batching logic of the WHIR multilinear commitment adapter.

pub mod arith;
pub mod batching;
pub mod batching_laws;
mod backend;
pub mod field;
pub mod field_laws;
pub mod poseidon2;
pub mod primes;

