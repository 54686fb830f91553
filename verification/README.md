# ternary_seed

Seeded-model programming over balanced ternary values {-1, 0, +1}, verified with Verus.

- `src/trit.rs` – the `Trit` value, its integer conversions, the mutation cycle and the majority rule.
- `src/seed.rs` – `Seed`, a table of `(input_hash, trit)` entries searched front to back; lookup and insert.
- `src/codec.rs` – `SeedEncoder` (observations to seed) and `SeedDecoder` (seed to map, lookups, integer pairs).
- `src/mutator.rs` – `SeedMutator`, deterministic flips driven by an integral cutoff on `threshold % 100`.
- `src/combiner.rs` – `SeedCombiner`, merging two seeds by ternary majority.
- `src/bank.rs` – `SeedBank`, a named store of seeds keyed by id.
- `app/lib.rs` – turns a floating-point flip probability into the mutator's cutoff.
