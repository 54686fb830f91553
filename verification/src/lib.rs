//! Seeded-model programming over balanced ternary values.
//!
//! A seed is a compact table from input hashes to ternary outputs. Seeds are
//! encoded from observations, decoded back into behaviour, mutated, combined
//! by a ternary majority rule, and kept in a named bank.

pub mod bank;
pub mod codec;
pub mod combiner;
pub mod mutator;
pub mod seed;
pub mod trit;

pub use bank::SeedBank;
pub use codec::{SeedDecoder, SeedEncoder};
pub use combiner::SeedCombiner;
pub use mutator::SeedMutator;
pub use seed::Seed;
pub use trit::Trit;
