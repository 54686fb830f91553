use ternary_seed::{Seed, SeedBank, SeedCombiner, SeedDecoder, SeedEncoder, SeedMutator, Trit};

#[test]
fn trit_roundtrip() {
    assert_eq!(Trit::from_i8(Trit::Neg.value()).unwrap(), Trit::Neg);
    assert_eq!(Trit::from_i8(Trit::Zero.value()).unwrap(), Trit::Zero);
    assert_eq!(Trit::from_i8(Trit::Pos.value()).unwrap(), Trit::Pos);
}

#[test]
fn seed_new_empty() {
    let seed = Seed::new(42);
    assert_eq!(seed.id, 42);
    assert!(seed.is_empty());
    assert_eq!(seed.generation, 0);
}

#[test]
fn seed_insert_and_lookup() {
    let mut seed = Seed::new(1);
    seed.insert(100, Trit::Pos);
    seed.insert(200, Trit::Neg);
    assert_eq!(seed.lookup(100), Some(Trit::Pos));
    assert_eq!(seed.lookup(200), Some(Trit::Neg));
    assert_eq!(seed.lookup(999), None);
    assert_eq!(seed.len(), 2);
}

#[test]
fn seed_insert_overwrite() {
    let mut seed = Seed::new(1);
    seed.insert(100, Trit::Pos);
    seed.insert(100, Trit::Neg);
    assert_eq!(seed.lookup(100), Some(Trit::Neg));
    assert_eq!(seed.len(), 1);
}

#[test]
fn seed_encoder_basic() {
    let encoder = SeedEncoder::new();
    let seed = encoder.encode(1, &[(10, Trit::Pos), (20, Trit::Neg)]);
    assert_eq!(seed.lookup(10), Some(Trit::Pos));
    assert_eq!(seed.lookup(20), Some(Trit::Neg));
}

#[test]
fn seed_encoder_from_i8() {
    let encoder = SeedEncoder::new();
    let seed = encoder.encode_from_i8(1, &[(10, -1), (20, 0), (30, 1), (40, 5)]);
    assert_eq!(seed.len(), 3); // (40, 5) is invalid, filtered out
    assert_eq!(seed.lookup(10), Some(Trit::Neg));
    assert_eq!(seed.lookup(20), Some(Trit::Zero));
    assert_eq!(seed.lookup(30), Some(Trit::Pos));
}

#[test]
fn seed_decoder_to_map() {
    let decoder = SeedDecoder::new();
    let seed = Seed::with_entries(1, vec![(1, Trit::Pos), (2, Trit::Neg)]);
    let map = decoder.decode(&seed);
    assert_eq!(map.len(), 2);
    assert_eq!(map[&1], Trit::Pos);
    assert_eq!(map[&2], Trit::Neg);
}

#[test]
fn seed_decoder_single() {
    let decoder = SeedDecoder::new();
    let seed = Seed::with_entries(1, vec![(42, Trit::Zero)]);
    assert_eq!(decoder.decode_one(&seed, 42), Some(Trit::Zero));
    assert_eq!(decoder.decode_one(&seed, 99), None);
}

#[test]
fn seed_decoder_as_i8() {
    let decoder = SeedDecoder::new();
    let seed = Seed::with_entries(1, vec![(1, Trit::Neg), (2, Trit::Zero), (3, Trit::Pos)]);
    let pairs = decoder.decode_as_i8(&seed);
    assert!(pairs.contains(&(1, -1)));
    assert!(pairs.contains(&(2, 0)));
    assert!(pairs.contains(&(3, 1)));
}

// A flip probability of 1.0 is the cutoff 100: every residue flips.
#[test]
fn seed_mutator_flip() {
    let mutator = SeedMutator::new(100);
    let mut seed = Seed::with_entries(1, vec![(10, Trit::Pos)]);
    let flipped = mutator.mutate_entry(&mut seed, 0, 50);
    assert!(flipped);
    assert_eq!(seed.lookup(10), Some(Trit::Neg));
    assert_eq!(seed.generation, 1);
}

// A flip probability of 0.0 is the cutoff 0: no residue flips.
#[test]
fn seed_mutator_no_flip() {
    let mutator = SeedMutator::new(0);
    let mut seed = Seed::with_entries(1, vec![(10, Trit::Pos)]);
    let flipped = mutator.mutate_entry(&mut seed, 0, 50);
    assert!(!flipped);
    assert_eq!(seed.lookup(10), Some(Trit::Pos));
}

#[test]
fn seed_mutator_out_of_bounds() {
    let mutator = SeedMutator::new(100);
    let mut seed = Seed::new(1);
    let flipped = mutator.mutate_entry(&mut seed, 0, 50);
    assert!(!flipped);
}

#[test]
fn seed_mutator_mutate_all() {
    let mutator = SeedMutator::new(100);
    let mut seed = Seed::with_entries(1, vec![(10, Trit::Pos), (20, Trit::Neg), (30, Trit::Zero)]);
    let flipped = mutator.mutate_all(&mut seed, 0);
    assert_eq!(flipped, 3);
    assert_eq!(seed.lookup(10), Some(Trit::Neg));
    assert_eq!(seed.lookup(20), Some(Trit::Zero));
    assert_eq!(seed.lookup(30), Some(Trit::Pos));
}

#[test]
fn seed_combiner_no_overlap() {
    let combiner = SeedCombiner::new();
    let a = Seed::with_entries(1, vec![(10, Trit::Pos)]);
    let b = Seed::with_entries(2, vec![(20, Trit::Neg)]);
    let combined = combiner.combine(&a, &b, 3);
    assert_eq!(combined.len(), 2);
    assert_eq!(combined.lookup(10), Some(Trit::Pos));
    assert_eq!(combined.lookup(20), Some(Trit::Neg));
}

#[test]
fn seed_combiner_overlap_agree() {
    let combiner = SeedCombiner::new();
    let a = Seed::with_entries(1, vec![(10, Trit::Pos)]);
    let b = Seed::with_entries(2, vec![(10, Trit::Pos)]);
    let combined = combiner.combine(&a, &b, 3);
    assert_eq!(combined.lookup(10), Some(Trit::Pos));
}

#[test]
fn seed_combiner_overlap_disagree() {
    let combiner = SeedCombiner::new();
    let a = Seed::with_entries(1, vec![(10, Trit::Pos)]);
    let b = Seed::with_entries(2, vec![(10, Trit::Neg)]);
    let combined = combiner.combine(&a, &b, 3);
    assert_eq!(combined.lookup(10), Some(Trit::Zero)); // tiebreak
}

#[test]
fn seed_combiner_generation() {
    let combiner = SeedCombiner::new();
    let mut a = Seed::new(1);
    a.generation = 5;
    let mut b = Seed::new(2);
    b.generation = 3;
    let combined = combiner.combine(&a, &b, 3);
    assert_eq!(combined.generation, 6);
}

#[test]
fn seed_bank_store_retrieve() {
    let mut bank = SeedBank::new("test");
    bank.store(Seed::with_entries(1, vec![(10, Trit::Pos)]));
    assert_eq!(bank.len(), 1);
    assert_eq!(bank.retrieve(1).unwrap().lookup(10), Some(Trit::Pos));
}

#[test]
fn seed_bank_remove() {
    let mut bank = SeedBank::new("test");
    bank.store(Seed::new(1));
    let removed = bank.remove(1);
    assert!(removed.is_some());
    assert!(bank.is_empty());
}

#[test]
fn seed_bank_find_by_input() {
    let mut bank = SeedBank::new("test");
    bank.store(Seed::with_entries(1, vec![(42, Trit::Pos)]));
    bank.store(Seed::with_entries(2, vec![(42, Trit::Neg)]));
    bank.store(Seed::with_entries(3, vec![(99, Trit::Zero)]));
    let found = bank.find_by_input(42);
    assert_eq!(found.len(), 2);
}

#[test]
fn seed_bank_all_ids() {
    let mut bank = SeedBank::new("test");
    bank.store(Seed::new(10));
    bank.store(Seed::new(20));
    let mut ids = bank.all_ids();
    ids.sort();
    assert_eq!(ids, vec![10, 20]);
}
