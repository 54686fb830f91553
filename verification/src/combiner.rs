//! Merging two seeds by the ternary majority rule.

use vstd::prelude::*;

use crate::codec::{encode_entries, last_observed, law_decode_agrees_with_lookup, law_encode_lookup};
use crate::seed::{
    Seed, entries_insert, entries_lookup, first_index, has_key, keys_unique, lemma_first_index_props,
    lemma_lookup_push, law_insert_len_and_unique, law_lookup_after_insert,
};
use crate::trit::Trit;

verus! {

/// The value kept for a key after merging `vb` into entries that may already hold it.
pub open spec fn merged_value(current: Option<Trit>, vb: Trit) -> Trit {
    match current {
        Some(va) => Trit::majority(va, vb),
        None => vb,
    }
}

/// Merge one entry `(k, vb)` into `s`.
pub open spec fn merge_entry(s: Seq<(u64, Trit)>, k: u64, vb: Trit) -> Seq<(u64, Trit)> {
    entries_insert(s, k, merged_value(entries_lookup(s, k), vb))
}

/// Merge every entry of `b`, in order, into `s`.
pub open spec fn merge_all(s: Seq<(u64, Trit)>, b: Seq<(u64, Trit)>) -> Seq<(u64, Trit)>
    decreases b.len(),
{
    if b.len() == 0 {
        s
    } else {
        merge_entry(merge_all(s, b.drop_last()), b.last().0, b.last().1)
    }
}

/// The entries of the combination of two seeds: all of `a` written in order,
/// then all of `b` merged in.
pub open spec fn combine_entries(a: Seq<(u64, Trit)>, b: Seq<(u64, Trit)>) -> Seq<(u64, Trit)> {
    merge_all(encode_entries(a), b)
}

/// What a combined seed holds for a key, given what each side holds.
pub open spec fn merge_options(x: Option<Trit>, y: Option<Trit>) -> Option<Trit> {
    match (x, y) {
        (Some(a), Some(b)) => Some(Trit::majority(a, b)),
        (Some(a), None) => Some(a),
        (None, Some(b)) => Some(b),
        (None, None) => None,
    }
}

/// The generation of a combination: one past the larger parent generation.
pub open spec fn combined_generation(a: u32, b: u32) -> int {
    (if a >= b { a } else { b }) + 1
}

/// A combination's generation is one past the larger parent generation: it is
/// above both parents, one past one of them, and the same whichever parent comes first.
pub proof fn law_combined_generation(a: u32, b: u32)
    ensures
        combined_generation(a, b) > a,
        combined_generation(a, b) > b,
        combined_generation(a, b) == a + 1 || combined_generation(a, b) == b + 1,
        combined_generation(a, b) == combined_generation(b, a),
{
}

/// Merging keeps keys distinct.
pub proof fn lemma_merge_all_unique(s: Seq<(u64, Trit)>, b: Seq<(u64, Trit)>)
    requires
        keys_unique(s),
    ensures
        keys_unique(merge_all(s, b)),
    decreases b.len(),
{
    if b.len() > 0 {
        lemma_merge_all_unique(s, b.drop_last());
        let r = merge_all(s, b.drop_last());
        law_insert_len_and_unique(r, b.last().0, merged_value(entries_lookup(r, b.last().0), b.last().1));
    }
}

/// Merging `b` (without repeated keys) into `s`: each key holds the majority of both
/// sides where both have it, and the one side's value otherwise.
pub proof fn lemma_merge_all_lookup(s: Seq<(u64, Trit)>, b: Seq<(u64, Trit)>, k: u64)
    requires
        keys_unique(b),
    ensures
        entries_lookup(merge_all(s, b), k) == merge_options(entries_lookup(s, k), entries_lookup(b, k)),
    decreases b.len(),
{
    if b.len() > 0 {
        let bp = b.drop_last();
        let kb = b.last().0;
        let vb = b.last().1;
        assert(keys_unique(bp));
        lemma_merge_all_lookup(s, bp, k);
        lemma_merge_all_lookup(s, bp, kb);
        let r = merge_all(s, bp);
        law_lookup_after_insert(r, kb, merged_value(entries_lookup(r, kb), vb), k);
        assert(bp.push(b.last()) == b);
        lemma_lookup_push(bp, b.last(), k);
        lemma_first_index_props(bp, kb);
        if has_key(bp, kb) {
            let f = first_index(bp, kb);
            assert(b[f].0 != b[b.len() - 1].0);
        }
        lemma_lookup_push(bp, b.last(), kb);
    } else {
        lemma_first_index_props(b, k);
    }
}

/// Combining gives each key the majority of both seeds where both hold it (`a`
/// answering with its last entry for the key), and the one seed's value where only
/// one does; keys held by neither stay absent. The result never repeats a key.
pub proof fn law_combine_lookup(a: Seq<(u64, Trit)>, b: Seq<(u64, Trit)>, k: u64)
    requires
        keys_unique(b),
    ensures
        entries_lookup(combine_entries(a, b), k) == merge_options(
            last_observed(a, k),
            entries_lookup(b, k),
        ),
        last_observed(a, k) is None && entries_lookup(b, k) is None ==> entries_lookup(
            combine_entries(a, b),
            k,
        ) is None,
        last_observed(a, k) is Some && entries_lookup(b, k) is None ==> entries_lookup(
            combine_entries(a, b),
            k,
        ) == last_observed(a, k),
        last_observed(a, k) is None && entries_lookup(b, k) is Some ==> entries_lookup(
            combine_entries(a, b),
            k,
        ) == entries_lookup(b, k),
        last_observed(a, k) is Some && entries_lookup(b, k) is Some ==> entries_lookup(
            combine_entries(a, b),
            k,
        ) == Some(Trit::majority(last_observed(a, k)->0, entries_lookup(b, k)->0)),
        keys_unique(combine_entries(a, b)),
{
    law_encode_lookup(a, k);
    lemma_merge_all_lookup(encode_entries(a), b, k);
    lemma_merge_all_unique(encode_entries(a), b);
}

/// For seeds without repeated keys, the combination answers every key the same
/// way whichever seed comes first.
pub proof fn law_combine_symmetric(a: Seq<(u64, Trit)>, b: Seq<(u64, Trit)>, k: u64)
    requires
        keys_unique(a),
        keys_unique(b),
    ensures
        entries_lookup(combine_entries(a, b), k) == entries_lookup(combine_entries(b, a), k),
        entries_lookup(combine_entries(a, b), k) == merge_options(
            entries_lookup(a, k),
            entries_lookup(b, k),
        ),
{
    law_combine_lookup(a, b, k);
    law_combine_lookup(b, a, k);
    law_decode_agrees_with_lookup(a, k);
    law_decode_agrees_with_lookup(b, k);
}

/// Combines two seeds to produce a new seed with merged capabilities.
pub struct SeedCombiner;

impl SeedCombiner {
    pub fn new() -> (c: Self)
        ensures
            c == SeedCombiner,
    {
        SeedCombiner
    }

    /// Combine two seeds using a ternary majority rule for overlapping keys,
    /// and include all non-overlapping entries.
    pub fn combine(&self, seed_a: &Seed, seed_b: &Seed, new_id: u64) -> (combined: Seed)
        requires
            combined_generation(seed_a.generation, seed_b.generation) <= u32::MAX,
        ensures
            combined.id == new_id,
            combined.generation == combined_generation(seed_a.generation, seed_b.generation),
            combined.generation > seed_a.generation,
            combined.generation > seed_b.generation,
            combined.generation == seed_a.generation + 1 || combined.generation == seed_b.generation
                + 1,
            combined.entries@ == combine_entries(seed_a.entries@, seed_b.entries@),
    {
        let mut combined = Seed::new(new_id);
        let max_generation = if seed_a.generation >= seed_b.generation {
            seed_a.generation
        } else {
            seed_b.generation
        };
        combined.generation = max_generation + 1;

        // Add all from seed_a
        let mut i: usize = 0;
        while i < seed_a.entries.len()
            invariant
                0 <= i <= seed_a.entries@.len(),
                combined.id == new_id,
                combined.generation == combined_generation(seed_a.generation, seed_b.generation),
                combined.entries@ == encode_entries(seed_a.entries@.subrange(0, i as int)),
            decreases seed_a.entries@.len() - i,
        {
            let (k, v) = seed_a.entries[i];
            combined.insert(k, v);
            proof {
                let next = seed_a.entries@.subrange(0, i + 1);
                assert(next.drop_last() == seed_a.entries@.subrange(0, i as int));
                assert(next.last() == seed_a.entries@[i as int]);
            }
            i = i + 1;
        }
        proof {
            assert(seed_a.entries@.subrange(0, i as int) == seed_a.entries@);
        }

        // Merge from seed_b: for overlaps, use majority with zero as tiebreak
        let mut j: usize = 0;
        while j < seed_b.entries.len()
            invariant
                0 <= j <= seed_b.entries@.len(),
                combined.id == new_id,
                combined.generation == combined_generation(seed_a.generation, seed_b.generation),
                combined.entries@ == merge_all(
                    encode_entries(seed_a.entries@),
                    seed_b.entries@.subrange(0, j as int),
                ),
            decreases seed_b.entries@.len() - j,
        {
            let (k, v_b) = seed_b.entries[j];
            if let Some(v_a) = combined.lookup(k) {
                let combined_val = match (v_a, v_b) {
                    (Trit::Pos, Trit::Pos) => Trit::Pos,
                    (Trit::Neg, Trit::Neg) => Trit::Neg,
                    (Trit::Zero, _) | (_, Trit::Zero) => Trit::Zero,
                    (Trit::Pos, Trit::Neg) | (Trit::Neg, Trit::Pos) => Trit::Zero,
                };
                combined.insert(k, combined_val);
            } else {
                combined.insert(k, v_b);
            }
            proof {
                let next = seed_b.entries@.subrange(0, j + 1);
                assert(next.drop_last() == seed_b.entries@.subrange(0, j as int));
                assert(next.last() == seed_b.entries@[j as int]);
            }
            j = j + 1;
        }
        proof {
            assert(seed_b.entries@.subrange(0, j as int) == seed_b.entries@);
        }
        combined
    }
}

impl Default for SeedCombiner {
    fn default() -> (c: Self)
        ensures
            c == SeedCombiner,
    {
        Self::new()
    }
}

} // verus!
