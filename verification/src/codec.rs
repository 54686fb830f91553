//! Encoding observations into seeds and decoding seeds back into behaviour.

use std::collections::HashMap;

use vstd::prelude::*;

use crate::seed::{
    Seed, entries_insert, entries_lookup, has_key, keys_unique, first_index,
    lemma_first_index_props, lemma_lookup_push, law_insert_len_and_unique,
    law_lookup_after_insert,
};
use crate::trit::Trit;

verus! {

broadcast use vstd::std_specs::hash::group_hash_axioms;

/// The entries of a seed built by writing each observation in order.
pub open spec fn encode_entries(obs: Seq<(u64, Trit)>) -> Seq<(u64, Trit)>
    decreases obs.len(),
{
    if obs.len() == 0 {
        Seq::empty()
    } else {
        entries_insert(encode_entries(obs.drop_last()), obs.last().0, obs.last().1)
    }
}

/// The trit of the last observation with key `k`.
pub open spec fn last_observed(obs: Seq<(u64, Trit)>, k: u64) -> Option<Trit>
    decreases obs.len(),
{
    if obs.len() == 0 {
        None
    } else if obs.last().0 == k {
        Some(obs.last().1)
    } else {
        last_observed(obs.drop_last(), k)
    }
}

/// The observations among raw pairs whose value is a valid trit, in order.
pub open spec fn valid_observations(pairs: Seq<(u64, i8)>) -> Seq<(u64, Trit)>
    decreases pairs.len(),
{
    if pairs.len() == 0 {
        Seq::empty()
    } else {
        let rest = valid_observations(pairs.drop_last());
        match Trit::spec_from_i8(pairs.last().1) {
            Some(t) => rest.push((pairs.last().0, t)),
            None => rest,
        }
    }
}

/// The map built by inserting every entry in order: for each key, its last entry.
pub open spec fn decode_map(s: Seq<(u64, Trit)>) -> Map<u64, Trit>
    decreases s.len(),
{
    if s.len() == 0 {
        Map::empty()
    } else {
        decode_map(s.drop_last()).insert(s.last().0, s.last().1)
    }
}

/// The `(input_hash, integer)` pairs of a seed's entries, in order.
pub open spec fn entries_as_i8(s: Seq<(u64, Trit)>) -> Seq<(u64, i8)> {
    s.map_values(|p: (u64, Trit)| (p.0, p.1.spec_value()))
}

/// A seed encoded from observations answers each key with the last observation of
/// that key, and never holds one key twice.
pub proof fn law_encode_lookup(obs: Seq<(u64, Trit)>, k: u64)
    ensures
        entries_lookup(encode_entries(obs), k) == last_observed(obs, k),
        keys_unique(encode_entries(obs)),
    decreases obs.len(),
{
    if obs.len() > 0 {
        law_encode_lookup(obs.drop_last(), k);
        law_lookup_after_insert(encode_entries(obs.drop_last()), obs.last().0, obs.last().1, k);
        law_insert_len_and_unique(encode_entries(obs.drop_last()), obs.last().0, obs.last().1);
    }
}

/// Decoding gives, for each key, its last entry.
pub proof fn law_decode_last(s: Seq<(u64, Trit)>, k: u64)
    ensures
        decode_map(s).contains_key(k) == has_key(s, k),
        decode_map(s).contains_key(k) ==> Some(decode_map(s)[k]) == last_observed(s, k),
        !decode_map(s).contains_key(k) ==> last_observed(s, k) is None,
    decreases s.len(),
{
    if s.len() > 0 {
        law_decode_last(s.drop_last(), k);
        assert(s.drop_last().push(s.last()) == s);
        lemma_lookup_push(s.drop_last(), s.last(), k);
    } else {
        lemma_first_index_props(s, k);
    }
}

/// In a seed without repeated keys, the last entry of a key is also its first:
/// the full decode agrees with single lookups.
pub proof fn law_decode_agrees_with_lookup(s: Seq<(u64, Trit)>, k: u64)
    requires
        keys_unique(s),
    ensures
        last_observed(s, k) == entries_lookup(s, k),
        decode_map(s).contains_key(k) == (entries_lookup(s, k) is Some),
        decode_map(s).contains_key(k) ==> Some(decode_map(s)[k]) == entries_lookup(s, k),
    decreases s.len(),
{
    law_decode_last(s, k);
    if s.len() > 0 {
        let r = s.drop_last();
        assert(keys_unique(r));
        law_decode_agrees_with_lookup(r, k);
        assert(r.push(s.last()) == s);
        lemma_lookup_push(r, s.last(), k);
        if s.last().0 == k {
            lemma_first_index_props(r, k);
            if has_key(r, k) {
                let f = first_index(r, k);
                assert(s[f].0 != s[s.len() - 1].0);
            }
        }
    }
}

/// Decoding a seed encoded from observations recovers, for each key, the last
/// observation of that key.
pub proof fn law_decode_after_encode(obs: Seq<(u64, Trit)>, k: u64)
    ensures
        decode_map(encode_entries(obs)).contains_key(k) == (last_observed(obs, k) is Some),
        decode_map(encode_entries(obs)).contains_key(k) ==> Some(
            decode_map(encode_entries(obs))[k],
        ) == last_observed(obs, k),
{
    law_encode_lookup(obs, k);
    law_decode_agrees_with_lookup(encode_entries(obs), k);
}

/// The observations kept from raw pairs are exactly the pairs whose value lies in
/// -1..=1, in their order, each with its value turned into the trit it stands for.
pub proof fn law_valid_observations(pairs: Seq<(u64, i8)>)
    ensures
        valid_observations(pairs) == pairs.filter(|p: (u64, i8)| -1 <= p.1 <= 1).map_values(
            |p: (u64, i8)|
                (p.0, if p.1 == -1 { Trit::Neg } else if p.1 == 0 { Trit::Zero } else { Trit::Pos }),
        ),
    decreases pairs.len(),
{
    let keep = |p: (u64, i8)| -1 <= p.1 <= 1;
    let conv = |p: (u64, i8)|
        (p.0, if p.1 == -1 { Trit::Neg } else if p.1 == 0 { Trit::Zero } else { Trit::Pos });
    reveal_with_fuel(Seq::filter, 1);
    if pairs.len() > 0 {
        law_valid_observations(pairs.drop_last());
        assert(pairs.filter(keep) == if keep(pairs.last()) {
            pairs.drop_last().filter(keep).push(pairs.last())
        } else {
            pairs.drop_last().filter(keep)
        });
        if keep(pairs.last()) {
            assert(pairs.drop_last().filter(keep).push(pairs.last()).map_values(conv)
                =~= pairs.drop_last().filter(keep).map_values(conv).push(conv(pairs.last())));
        }
    } else {
        assert(pairs.filter(keep).map_values(conv) =~= Seq::<(u64, Trit)>::empty());
    }
}

/// The last observation of a key is the one at the latest position holding that key;
/// there is none exactly when no position holds the key.
pub proof fn law_last_observed(obs: Seq<(u64, Trit)>, k: u64)
    ensures
        last_observed(obs, k) is None <==> forall|i: int| 0 <= i < obs.len() ==> #[trigger] obs[i].0
            != k,
        last_observed(obs, k) is Some ==> exists|i: int|
            0 <= i < obs.len() && #[trigger] obs[i].0 == k && obs[i].1 == last_observed(obs, k)->0
                && forall|j: int| i < j < obs.len() ==> #[trigger] obs[j].0 != k,
    decreases obs.len(),
{
    if obs.len() > 0 {
        let r = obs.drop_last();
        law_last_observed(r, k);
        let n = obs.len() - 1;
        if obs.last().0 == k {
            assert(obs[n].0 == k);
        } else {
            assert forall|i: int| 0 <= i < r.len() implies obs[i] == r[i] by {}
            if last_observed(r, k) is Some {
                let i = choose|i: int|
                    0 <= i < r.len() && #[trigger] r[i].0 == k && r[i].1 == last_observed(r, k)->0
                        && forall|j: int| i < j < r.len() ==> #[trigger] r[j].0 != k;
                assert(obs[i] == r[i]);
                assert forall|j: int| i < j < obs.len() implies #[trigger] obs[j].0 != k by {
                    if j < n {
                        assert(obs[j] == r[j]);
                    }
                }
            } else {
                assert forall|i: int| 0 <= i < obs.len() implies #[trigger] obs[i].0 != k by {
                    if i < n {
                        assert(obs[i] == r[i]);
                    }
                }
            }
        }
    }
}

/// Decoding to integers keeps the seed's length and order; each pair has the entry's key
/// unchanged and the integer -1, 0 or 1 that the entry's trit stands for.
pub proof fn law_entries_as_i8(s: Seq<(u64, Trit)>)
    ensures
        entries_as_i8(s).len() == s.len(),
        forall|i: int|
            0 <= i < s.len() ==> (#[trigger] entries_as_i8(s)[i]).0 == s[i].0 && entries_as_i8(s)[i].1
                == match s[i].1 {
                Trit::Neg => -1i8,
                Trit::Zero => 0i8,
                Trit::Pos => 1i8,
            },
{
}

/// Encodes observed behavior into a Seed.
pub struct SeedEncoder;

impl SeedEncoder {
    pub fn new() -> (e: Self)
        ensures
            e == SeedEncoder,
    {
        SeedEncoder
    }

    /// Create a seed from a slice of (input_hash, output_trit) observations.
    pub fn encode(&self, id: u64, observations: &[(u64, Trit)]) -> (seed: Seed)
        ensures
            seed.id == id,
            seed.generation == 0,
            seed.entries@ == encode_entries(observations@),
    {
        let mut seed = Seed::new(id);
        let mut i: usize = 0;
        while i < observations.len()
            invariant
                0 <= i <= observations@.len(),
                seed.id == id,
                seed.generation == 0,
                seed.entries@ == encode_entries(observations@.subrange(0, i as int)),
            decreases observations@.len() - i,
        {
            let (input_hash, trit) = observations[i];
            seed.insert(input_hash, trit);
            proof {
                let next = observations@.subrange(0, i + 1);
                assert(next.drop_last() == observations@.subrange(0, i as int));
                assert(next.last() == observations@[i as int]);
            }
            i = i + 1;
        }
        proof {
            assert(observations@.subrange(0, i as int) == observations@);
        }
        seed
    }

    /// Encode from raw i8 pairs, filtering out invalid trits.
    pub fn encode_from_i8(&self, id: u64, pairs: &[(u64, i8)]) -> (seed: Seed)
        ensures
            seed.id == id,
            seed.generation == 0,
            seed.entries@ == encode_entries(valid_observations(pairs@)),
            seed.entries@ == encode_entries(
                pairs@.filter(|p: (u64, i8)| -1 <= p.1 <= 1).map_values(
                    |p: (u64, i8)|
                        (
                            p.0,
                            if p.1 == -1 {
                                Trit::Neg
                            } else if p.1 == 0 {
                                Trit::Zero
                            } else {
                                Trit::Pos
                            },
                        ),
                ),
            ),
            forall|k: u64|
                #[trigger] seed.spec_lookup(k) == last_observed(valid_observations(pairs@), k),
    {
        let mut observations: Vec<(u64, Trit)> = Vec::new();
        let mut i: usize = 0;
        while i < pairs.len()
            invariant
                0 <= i <= pairs@.len(),
                observations@ == valid_observations(pairs@.subrange(0, i as int)),
            decreases pairs@.len() - i,
        {
            let (h, v) = pairs[i];
            let t = Trit::from_i8(v);
            if let Some(t) = t {
                observations.push((h, t));
            }
            proof {
                let next = pairs@.subrange(0, i + 1);
                assert(next.drop_last() == pairs@.subrange(0, i as int));
                assert(next.last() == pairs@[i as int]);
            }
            i = i + 1;
        }
        proof {
            assert(pairs@.subrange(0, i as int) == pairs@);
            law_valid_observations(pairs@);
            assert forall|k: u64|
                entries_lookup(encode_entries(valid_observations(pairs@)), k) == last_observed(
                    valid_observations(pairs@),
                    k,
                ) by {
                law_encode_lookup(valid_observations(pairs@), k);
            }
        }
        self.encode(id, observations.as_slice())
    }
}

impl Default for SeedEncoder {
    fn default() -> (e: Self)
        ensures
            e == SeedEncoder,
    {
        Self::new()
    }
}

/// Decodes a Seed back into a behavioral mapping.
pub struct SeedDecoder;

impl SeedDecoder {
    pub fn new() -> (d: Self)
        ensures
            d == SeedDecoder,
    {
        SeedDecoder
    }

    /// Decode seed into a hashmap of input_hash -> trit.
    pub fn decode(&self, seed: &Seed) -> (m: HashMap<u64, Trit>)
        ensures
            m@ == decode_map(seed.entries@),
    {
        let mut m: HashMap<u64, Trit> = HashMap::new();
        let mut i: usize = 0;
        while i < seed.entries.len()
            invariant
                0 <= i <= seed.entries@.len(),
                m@ == decode_map(seed.entries@.subrange(0, i as int)),
            decreases seed.entries@.len() - i,
        {
            let (k, v) = seed.entries[i];
            m.insert(k, v);
            proof {
                let next = seed.entries@.subrange(0, i + 1);
                assert(next.drop_last() == seed.entries@.subrange(0, i as int));
                assert(next.last() == seed.entries@[i as int]);
            }
            i = i + 1;
        }
        proof {
            assert(seed.entries@.subrange(0, i as int) == seed.entries@);
        }
        m
    }

    /// Decode a single lookup from the seed.
    pub fn decode_one(&self, seed: &Seed, input_hash: u64) -> (r: Option<Trit>)
        ensures
            r == seed.spec_lookup(input_hash),
    {
        seed.lookup(input_hash)
    }

    /// Decode all outputs as i8 values.
    pub fn decode_as_i8(&self, seed: &Seed) -> (pairs: Vec<(u64, i8)>)
        ensures
            pairs@ == entries_as_i8(seed.entries@),
            pairs@.len() == seed.entries@.len(),
            forall|i: int|
                0 <= i < seed.entries@.len() ==> (#[trigger] pairs@[i]).0 == seed.entries@[i].0
                    && pairs@[i].1 == match seed.entries@[i].1 {
                    Trit::Neg => -1i8,
                    Trit::Zero => 0i8,
                    Trit::Pos => 1i8,
                },
    {
        let mut pairs: Vec<(u64, i8)> = Vec::new();
        let mut i: usize = 0;
        while i < seed.entries.len()
            invariant
                0 <= i <= seed.entries@.len(),
                pairs@ == entries_as_i8(seed.entries@.subrange(0, i as int)),
            decreases seed.entries@.len() - i,
        {
            let (k, v) = seed.entries[i];
            pairs.push((k, v.value()));
            proof {
                assert(entries_as_i8(seed.entries@.subrange(0, i + 1)) == entries_as_i8(
                    seed.entries@.subrange(0, i as int),
                ).push((k, v.spec_value())));
            }
            i = i + 1;
        }
        proof {
            assert(seed.entries@.subrange(0, i as int) == seed.entries@);
            law_entries_as_i8(seed.entries@);
        }
        pairs
    }
}

impl Default for SeedDecoder {
    fn default() -> (d: Self)
        ensures
            d == SeedDecoder,
    {
        Self::new()
    }
}

} // verus!
