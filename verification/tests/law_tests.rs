use ternary_seed::{Seed, SeedBank, SeedCombiner, SeedDecoder, SeedEncoder, SeedMutator, Trit};

#[test]
fn readme_quick_start() {
    let encoder = SeedEncoder::new();
    let seed = encoder.encode(1, &[(100, Trit::Pos), (200, Trit::Neg), (300, Trit::Zero)]);
    let decoder = SeedDecoder::new();
    assert_eq!(decoder.decode_one(&seed, 100), Some(Trit::Pos));
    let mut bank = SeedBank::new("models");
    bank.store(seed);
    assert_eq!(bank.len(), 1);
}

#[test]
fn trit_values_and_invalid_integers() {
    assert_eq!(Trit::Neg.value(), -1);
    assert_eq!(Trit::Zero.value(), 0);
    assert_eq!(Trit::Pos.value(), 1);
    assert_eq!(Trit::from_i8(2), None);
    assert_eq!(Trit::from_i8(-2), None);
    assert_eq!(Trit::from_i8(i8::MIN), None);
    assert_eq!(Trit::from_i8(i8::MAX), None);
}

#[test]
fn insert_other_key_keeps_lookup() {
    let mut seed = Seed::with_entries(7, vec![(1, Trit::Neg), (2, Trit::Pos)]);
    seed.insert(3, Trit::Zero);
    assert_eq!(seed.lookup(1), Some(Trit::Neg));
    assert_eq!(seed.lookup(2), Some(Trit::Pos));
    assert_eq!(seed.lookup(3), Some(Trit::Zero));
    assert_eq!(seed.entries, vec![(1, Trit::Neg), (2, Trit::Pos), (3, Trit::Zero)]);
    assert_eq!(seed.id, 7);
}

#[test]
fn insert_overwrites_first_of_repeated_keys() {
    let mut seed = Seed::with_entries(1, vec![(5, Trit::Pos), (6, Trit::Zero), (5, Trit::Neg)]);
    assert_eq!(seed.lookup(5), Some(Trit::Pos));
    seed.insert(5, Trit::Zero);
    assert_eq!(seed.entries, vec![(5, Trit::Zero), (6, Trit::Zero), (5, Trit::Neg)]);
    assert_eq!(seed.lookup(5), Some(Trit::Zero));
}

#[test]
fn encode_keeps_last_observation() {
    let encoder = SeedEncoder::default();
    let seed = encoder.encode(9, &[(1, Trit::Pos), (2, Trit::Neg), (1, Trit::Zero), (1, Trit::Neg)]);
    assert_eq!(seed.entries, vec![(1, Trit::Neg), (2, Trit::Neg)]);
    assert_eq!(seed.id, 9);
    assert_eq!(seed.generation, 0);
    let empty = encoder.encode(3, &[]);
    assert!(empty.is_empty());
}

#[test]
fn encode_from_i8_drops_invalid_pairs() {
    let encoder = SeedEncoder::new();
    let seed = encoder.encode_from_i8(2, &[(1, 3), (2, -1), (1, 1), (3, -7)]);
    assert_eq!(seed.entries, vec![(2, Trit::Neg), (1, Trit::Pos)]);
}

#[test]
fn decode_keeps_last_entry_lookup_keeps_first() {
    let decoder = SeedDecoder::default();
    let seed = Seed::with_entries(1, vec![(4, Trit::Pos), (4, Trit::Neg)]);
    let map = decoder.decode(&seed);
    assert_eq!(map.len(), 1);
    assert_eq!(map[&4], Trit::Neg);
    assert_eq!(decoder.decode_one(&seed, 4), Some(Trit::Pos));
}

#[test]
fn decode_after_encode_recovers_observations() {
    let encoder = SeedEncoder::new();
    let decoder = SeedDecoder::new();
    let seed = encoder.encode(1, &[(10, Trit::Pos), (20, Trit::Zero), (10, Trit::Neg)]);
    let map = decoder.decode(&seed);
    assert_eq!(map.len(), 2);
    assert_eq!(map[&10], Trit::Neg);
    assert_eq!(map[&20], Trit::Zero);
}

#[test]
fn decode_as_i8_in_order() {
    let decoder = SeedDecoder::new();
    let seed = Seed::with_entries(1, vec![(3, Trit::Pos), (1, Trit::Neg), (3, Trit::Zero)]);
    assert_eq!(decoder.decode_as_i8(&seed), vec![(3, 1), (1, -1), (3, 0)]);
}

#[test]
fn mutate_entry_threshold_residue() {
    let mutator = SeedMutator::new(50);
    assert_eq!(mutator.generation_budget, 100);
    let mut seed = Seed::with_entries(1, vec![(1, Trit::Neg), (2, Trit::Zero)]);
    assert!(mutator.mutate_entry(&mut seed, 1, 149));
    assert_eq!(seed.entries, vec![(1, Trit::Neg), (2, Trit::Pos)]);
    assert!(!mutator.mutate_entry(&mut seed, 0, 150));
    assert_eq!(seed.entries, vec![(1, Trit::Neg), (2, Trit::Pos)]);
    assert_eq!(seed.generation, 1);
}

#[test]
fn mutate_all_wrapping_thresholds() {
    // thresholds: u64::MAX (residue 15), then wrapping to 36 and 73
    let mutator = SeedMutator::new(40);
    let mut seed = Seed::with_entries(1, vec![(1, Trit::Pos), (2, Trit::Neg), (3, Trit::Zero)]);
    let flipped = mutator.mutate_all(&mut seed, u64::MAX);
    assert_eq!(flipped, 2);
    assert_eq!(seed.entries, vec![(1, Trit::Neg), (2, Trit::Zero), (3, Trit::Zero)]);
    assert_eq!(seed.generation, 2);
}

#[test]
fn mutate_three_times_restores() {
    let mutator = SeedMutator::new(100);
    let mut seed = Seed::with_entries(1, vec![(1, Trit::Pos), (2, Trit::Zero)]);
    for round in 0..3 {
        assert_eq!(mutator.mutate_all(&mut seed, round), 2);
    }
    assert_eq!(seed.entries, vec![(1, Trit::Pos), (2, Trit::Zero)]);
    assert_eq!(seed.generation, 6);
}

#[test]
fn combine_majority_and_symmetry() {
    let combiner = SeedCombiner::default();
    let a = Seed::with_entries(1, vec![(1, Trit::Pos), (2, Trit::Zero), (3, Trit::Neg), (4, Trit::Pos)]);
    let b = Seed::with_entries(2, vec![(1, Trit::Neg), (2, Trit::Pos), (3, Trit::Neg), (5, Trit::Zero)]);
    let ab = combiner.combine(&a, &b, 10);
    let ba = combiner.combine(&b, &a, 11);
    for k in 1..=6 {
        assert_eq!(ab.lookup(k), ba.lookup(k));
    }
    assert_eq!(ab.lookup(1), Some(Trit::Zero));
    assert_eq!(ab.lookup(2), Some(Trit::Zero));
    assert_eq!(ab.lookup(3), Some(Trit::Neg));
    assert_eq!(ab.lookup(4), Some(Trit::Pos));
    assert_eq!(ab.lookup(5), Some(Trit::Zero));
    assert_eq!(ab.lookup(6), None);
    assert_eq!(ab.entries, vec![(1, Trit::Zero), (2, Trit::Zero), (3, Trit::Neg), (4, Trit::Pos), (5, Trit::Zero)]);
    assert_eq!(ab.id, 10);
    assert_eq!(ab.generation, 1);
}

#[test]
fn combine_dedups_first_seed() {
    let combiner = SeedCombiner::new();
    let a = Seed::with_entries(1, vec![(1, Trit::Pos), (1, Trit::Neg)]);
    let b = Seed::new(2);
    let c = combiner.combine(&a, &b, 3);
    assert_eq!(c.entries, vec![(1, Trit::Neg)]);
}

#[test]
fn bank_store_replaces_and_remove_missing() {
    let mut bank = SeedBank::new("lab");
    assert_eq!(bank.name(), "lab");
    assert!(bank.is_empty());
    bank.store(Seed::with_entries(1, vec![(1, Trit::Pos)]));
    bank.store(Seed::with_entries(1, vec![(1, Trit::Neg)]));
    assert_eq!(bank.len(), 1);
    assert_eq!(bank.retrieve(1).unwrap().lookup(1), Some(Trit::Neg));
    assert!(bank.retrieve(2).is_none());
    assert!(bank.remove(2).is_none());
    let removed = bank.remove(1).unwrap();
    assert_eq!(removed.entries, vec![(1, Trit::Neg)]);
    assert!(bank.retrieve(1).is_none());
    assert_eq!(bank.len(), 0);
}

#[test]
fn bank_find_by_input_gives_matching_seeds() {
    let mut bank = SeedBank::new("lab");
    bank.store(Seed::with_entries(1, vec![(42, Trit::Pos)]));
    bank.store(Seed::with_entries(2, vec![(7, Trit::Neg)]));
    bank.store(Seed::with_entries(3, vec![(7, Trit::Zero), (42, Trit::Zero)]));
    let mut ids: Vec<u64> = bank.find_by_input(42).iter().map(|s| s.id).collect();
    ids.sort();
    assert_eq!(ids, vec![1, 3]);
    assert!(bank.find_by_input(1000).is_empty());
}

#[test]
fn bank_clone_and_ids_of_found_seeds() {
    let mut bank = SeedBank::new("lab");
    bank.store(Seed::with_entries(4, vec![(8, Trit::Pos)]));
    bank.store(Seed::with_entries(5, vec![(9, Trit::Neg)]));
    let copy = bank.clone();
    assert_eq!(copy.name(), "lab");
    assert_eq!(copy.len(), 2);
    assert_eq!(copy.retrieve(4).unwrap().id, 4);
    let found = copy.find_by_input(9);
    assert_eq!(found.len(), 1);
    assert_eq!(found[0].id, 5);
    bank.remove(4);
    assert_eq!(bank.len(), 1);
    assert_eq!(copy.len(), 2);
}
