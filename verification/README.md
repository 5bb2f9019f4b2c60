# bls12381-fr

The scalar field of the BLS12-381 curve, verified with Verus, together with
the Poseidon2 layers over it and the column-batching logic of a WHIR
multilinear polynomial commitment adapter.

- `src/arith.rs`: arithmetic modulo `r` as spec functions.
- `src/backend.rs`: the calls into `halo2curves`, with their contracts.
- `src/field.rs`, `src/field_laws.rs`: `Bls12381Fr` and the field laws.
- `src/primes.rs`: primality of the prime factors of `r - 1`.
- `src/poseidon2.rs`: the internal and external Poseidon2 layers (width 3, S-box `x^5`).
- `src/batching.rs`, `src/batching_laws.rs`: batching of columns, multilinear
  evaluation, the per-column openings, the combined claims and the transcript values.
- `app/`: serde, rand, std operator traits, the grind hook, thread pools, the
  PCS trait and the WHIR plumbing.
