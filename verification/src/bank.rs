//! A named store of seeds, keyed by seed id.

use std::collections::HashMap;

use vstd::prelude::*;
use vstd::std_specs::iter::IteratorSpec;

use crate::seed::Seed;

verus! {

broadcast use {vstd::std_specs::hash::group_hash_axioms, vstd::string::group_string_axioms};

/// A storage and retrieval system for seeds.
#[derive(Debug)]
pub struct SeedBank {
    seeds: HashMap<u64, Seed>,
    name: String,
}

impl View for SeedBank {
    type V = Map<u64, Seed>;

    /// The stored seeds, by id.
    closed spec fn view(&self) -> Map<u64, Seed> {
        self.seeds@
    }
}

impl Clone for SeedBank {
    /// A copy holding the same seeds under the same ids, with the same name.
    fn clone(&self) -> (copy: Self)
        ensures
            copy@ == self@,
            copy.spec_name() == self.spec_name(),
    {
        proof {
            use_type_invariant(self);
        }
        SeedBank { seeds: self.seeds.clone(), name: self.name.clone() }
    }
}

/// The ids of the stored seeds that hold an entry for `input_hash`.
pub open spec fn ids_with_input(bank: Map<u64, Seed>, input_hash: u64) -> Set<u64> {
    bank.dom().filter(|id: u64| bank[id].spec_lookup(input_hash) is Some)
}

/// After a seed is stored, retrieving its id gives that seed, and every other id
/// gives what it gave before.
pub proof fn law_retrieve_after_store(bank: Map<u64, Seed>, seed: Seed, id: u64)
    ensures
        bank.insert(seed.id, seed).contains_key(id) == (id == seed.id || bank.contains_key(id)),
        id == seed.id ==> bank.insert(seed.id, seed)[id] == seed,
        id != seed.id && bank.contains_key(id) ==> bank.insert(seed.id, seed)[id] == bank[id],
{
}

/// Removing a seed right after storing it hands that seed back and leaves the
/// bank as if no seed with that id had ever been stored.
pub proof fn law_remove_after_store(bank: Map<u64, Seed>, seed: Seed)
    ensures
        bank.insert(seed.id, seed).contains_key(seed.id),
        bank.insert(seed.id, seed)[seed.id] == seed,
        bank.insert(seed.id, seed).remove(seed.id) == bank.remove(seed.id),
{
    assert(bank.insert(seed.id, seed).remove(seed.id) =~= bank.remove(seed.id));
}

/// Storing a seed whose id is already present replaces it; otherwise the bank grows by one.
pub proof fn law_store_len(bank: Map<u64, Seed>, seed: Seed)
    requires
        bank.dom().finite(),
    ensures
        bank.insert(seed.id, seed).len() == bank.len() + if bank.contains_key(seed.id) {
            0int
        } else {
            1int
        },
{
    if bank.contains_key(seed.id) {
        assert(bank.insert(seed.id, seed).dom() =~= bank.dom());
    }
}

impl SeedBank {
    /// Every stored seed sits under its own id.
    #[verifier::type_invariant]
    spec fn seeds_under_own_id(self) -> bool {
        forall|id: u64| #[trigger] self.seeds@.contains_key(id) ==> self.seeds@[id].id == id
    }

    /// Every stored seed sits under its own id.
    pub open spec fn keys_match_ids(&self) -> bool {
        forall|id: u64| #[trigger] self@.contains_key(id) ==> self@[id].id == id
    }

    /// The bank's name.
    pub closed spec fn spec_name(&self) -> Seq<char> {
        self.name@
    }

    pub fn new(name: &str) -> (bank: Self)
        ensures
            bank@ == Map::<u64, Seed>::empty(),
            bank.spec_name() == name@,
            bank.keys_match_ids(),
            bank@.dom().finite(),
    {
        SeedBank { seeds: HashMap::new(), name: name.to_string() }
    }

    pub fn store(&mut self, seed: Seed)
        ensures
            final(self)@ == old(self)@.insert(seed.id, seed),
            final(self).spec_name() == old(self).spec_name(),
            final(self)@.len() == old(self)@.len() + if old(self)@.contains_key(seed.id) {
                0int
            } else {
                1int
            },
            final(self).keys_match_ids(),
            final(self)@.dom().finite(),
    {
        proof {
            use_type_invariant(&*self);
            law_store_len(self@, seed);
        }
        let mut seeds = HashMap::new();
        std::mem::swap(&mut seeds, &mut self.seeds);
        seeds.insert(seed.id, seed);
        self.seeds = seeds;
    }

    pub fn retrieve(&self, id: u64) -> (r: Option<&Seed>)
        ensures
            r is Some <==> self@.contains_key(id),
            r matches Some(s) ==> *s == self@[id] && s.id == id,
            self.keys_match_ids(),
            self@.dom().finite(),
    {
        proof {
            use_type_invariant(self);
        }
        self.seeds.get(&id)
    }

    pub fn remove(&mut self, id: u64) -> (r: Option<Seed>)
        ensures
            final(self)@ == old(self)@.remove(id),
            final(self).spec_name() == old(self).spec_name(),
            r is Some <==> old(self)@.contains_key(id),
            r matches Some(s) ==> s == old(self)@[id] && s.id == id,
            final(self)@.len() == old(self)@.len() - if r is Some {
                1int
            } else {
                0int
            },
            final(self).keys_match_ids(),
            final(self)@.dom().finite(),
    {
        proof {
            use_type_invariant(&*self);
        }
        let mut seeds = HashMap::new();
        std::mem::swap(&mut seeds, &mut self.seeds);
        let r = seeds.remove(&id);
        self.seeds = seeds;
        r
    }

    pub fn len(&self) -> (n: usize)
        ensures
            n == self@.len(),
    {
        self.seeds.len()
    }

    pub fn is_empty(&self) -> (b: bool)
        ensures
            b == (self@.len() == 0),
    {
        proof {
            if self@.len() == 0 {
                self@.dom().lemma_len0_is_empty();
            }
        }
        self.seeds.is_empty()
    }

    pub fn name(&self) -> (r: &str)
        ensures
            r@ == self.spec_name(),
    {
        self.name.as_str()
    }

    pub fn all_ids(&self) -> (ids: Vec<u64>)
        ensures
            ids@.no_duplicates(),
            ids@.to_set() == self@.dom(),
            ids@.len() == self@.len(),
    {
        let mut ids: Vec<u64> = Vec::new();
        let keys = self.seeds.keys();
        let ghost key_seq = keys.remaining().unref();
        for k in it: keys
            invariant
                it.seq().unref() == key_seq,
                ids@ == key_seq.take(it.index()),
        {
            ids.push(*k);
            proof {
                assert(key_seq.take(it.index() + 1) == key_seq.take(it.index()).push(*k));
            }
        }
        proof {
            assert(ids@ == key_seq);
        }
        ids
    }

    /// Find seeds that contain a given input_hash mapping.
    pub fn find_by_input(&self, input_hash: u64) -> (found: Vec<&Seed>)
        ensures
            exists|ids: Seq<u64>|
                {
                    &&& ids.len() == found@.len()
                    &&& ids.no_duplicates()
                    &&& ids.to_set() == ids_with_input(self@, input_hash)
                    &&& forall|i: int|
                        0 <= i < ids.len() ==> self@.contains_key(#[trigger] ids[i]) && *found@[i]
                            == self@[ids[i]] && found@[i].id == ids[i]
                },
            self.keys_match_ids(),
    {
        proof {
            use_type_invariant(self);
        }
        let mut found: Vec<&Seed> = Vec::new();
        let ghost mut ids: Seq<u64> = Seq::empty();
        let keys = self.seeds.keys();
        let ghost key_seq = keys.remaining().unref();
        let ghost wanted = ids_with_input(self@, input_hash);
        proof {
            assert(key_seq.to_set() == self@.dom());
        }
        for k in it: keys
            invariant
                it.seq().unref() == key_seq,
                key_seq.to_set() == self@.dom(),
                key_seq.no_duplicates(),
                self.keys_match_ids(),
                wanted == ids_with_input(self@, input_hash),
                ids.len() == found@.len(),
                ids.no_duplicates(),
                forall|i: int|
                    0 <= i < ids.len() ==> self@.contains_key(#[trigger] ids[i]) && *found@[i]
                        == self@[ids[i]] && found@[i].id == ids[i] && wanted.contains(ids[i]),
                forall|i: int|
                    0 <= i < ids.len() ==> key_seq.take(it.index()).contains(#[trigger] ids[i]),
                forall|j: int|
                    0 <= j < it.index() && wanted.contains(#[trigger] key_seq[j]) ==> ids.contains(
                        key_seq[j],
                    ),
        {
            let ghost idx = it.index();
            let ghost old_ids = ids;
            proof {
                assert(key_seq[idx] == *k);
                assert(key_seq.contains(*k));
                assert(key_seq.to_set().contains(*k));
            }
            let s = self.seeds.get(k).unwrap();
            if s.lookup(input_hash).is_some() {
                found.push(s);
                proof {
                    assert forall|i: int| 0 <= i < ids.len() implies #[trigger] ids[i] != *k by {
                        let w = choose|w: int| 0 <= w < idx && key_seq.take(idx)[w] == ids[i];
                        assert(key_seq[w] == ids[i]);
                    }
                    ids = ids.push(*k);
                }
            }
            proof {
                assert forall|i: int| 0 <= i < ids.len() implies key_seq.take(idx + 1).contains(
                    #[trigger] ids[i],
                ) by {
                    if i < ids.len() - 1 || !wanted.contains(*k) || ids[i] != *k {
                        if key_seq.take(idx).contains(ids[i]) {
                            let w = choose|w: int| 0 <= w < idx && key_seq.take(idx)[w] == ids[i];
                            assert(key_seq.take(idx + 1)[w] == ids[i]);
                        }
                    }
                    if ids[i] == *k {
                        assert(key_seq.take(idx + 1)[idx] == *k);
                    }
                }
                assert forall|j: int|
                    0 <= j < idx + 1 && wanted.contains(#[trigger] key_seq[j]) implies ids.contains(
                    key_seq[j],
                ) by {
                    if j == idx {
                        assert(self@[*k].spec_lookup(input_hash) is Some);
                        assert(ids[ids.len() - 1] == *k);
                    } else {
                        assert(old_ids.contains(key_seq[j]));
                        let w = choose|w: int| 0 <= w < old_ids.len() && old_ids[w] == key_seq[j];
                        assert(ids[w] == key_seq[j]);
                    }
                }
            }
        }
        proof {
            assert forall|x: u64| ids.to_set().contains(x) <==> wanted.contains(x) by {
                if wanted.contains(x) {
                    assert(self@.dom().contains(x));
                    assert(key_seq.to_set().contains(x));
                    let j = choose|j: int| 0 <= j < key_seq.len() && key_seq[j] == x;
                    assert(ids.contains(key_seq[j]));
                }
                if ids.to_set().contains(x) {
                    let i = choose|i: int| 0 <= i < ids.len() && ids[i] == x;
                    assert(wanted.contains(ids[i]));
                }
            }
            assert(ids.to_set() == wanted);
        }
        found
    }
}

} // verus!
