//! Controlled, deterministic variation of seeds.

use vstd::prelude::*;

use crate::seed::{
    Seed, entries_lookup, first_index, keys_unique, lemma_first_index_props,
    lemma_first_index_same_keys,
};
use crate::trit::Trit;

verus! {

/// The threshold used for entry `i` when mutating from `base`: `base + 37 * i`, wrapping.
pub open spec fn mutation_threshold(base: u64, i: int) -> u64 {
    base.wrapping_add((37 * i) as u64)
}

/// Entry `p` with its trit moved one step along the mutation cycle.
pub open spec fn cycled_entry(p: (u64, Trit)) -> (u64, Trit) {
    (p.0, p.1.cycled())
}

/// Mutates a seed with controlled variation.
///
/// The flip decision is integral: an entry flips when `threshold % 100 < flip_cutoff`.
/// A flip probability `p` corresponds to the cutoff that counts the residues
/// `r` in `0..100` with `r < 100 * p`, so 1.0 gives 100 and 0.0 gives 0.
pub struct SeedMutator {
    pub flip_cutoff: u64,
    pub generation_budget: u32,
}

impl SeedMutator {
    /// Whether a threshold makes an entry flip.
    pub open spec fn spec_should_flip(&self, threshold: u64) -> bool {
        threshold % 100 < self.flip_cutoff
    }

    /// How many of the first `n` entries flip when mutating from `base`.
    pub open spec fn flip_count(&self, n: nat, base: u64) -> nat
        decreases n,
    {
        if n == 0 {
            0
        } else {
            self.flip_count((n - 1) as nat, base) + if self.spec_should_flip(
                mutation_threshold(base, n - 1),
            ) {
                1nat
            } else {
                0nat
            }
        }
    }

    /// The entries after mutating all of `s` from `base`.
    pub open spec fn mutated_entries(&self, s: Seq<(u64, Trit)>, base: u64) -> Seq<(u64, Trit)> {
        Seq::new(
            s.len(),
            |i: int|
                if self.spec_should_flip(mutation_threshold(base, i)) {
                    cycled_entry(s[i])
                } else {
                    s[i]
                },
        )
    }

    pub fn new(flip_cutoff: u64) -> (m: Self)
        ensures
            m.flip_cutoff == flip_cutoff,
            m.generation_budget == 100,
    {
        SeedMutator { flip_cutoff, generation_budget: 100 }
    }

    /// Deterministic single-step mutation: flip entry at given index if threshold met.
    pub fn mutate_entry(&self, seed: &mut Seed, index: usize, threshold: u64) -> (flipped: bool)
        requires
            index < old(seed).entries@.len() && self.spec_should_flip(threshold) ==> old(
                seed,
            ).generation < u32::MAX,
        ensures
            flipped == (index < old(seed).entries@.len() && self.spec_should_flip(threshold)),
            final(seed).id == old(seed).id,
            final(seed).generation == old(seed).generation + if flipped { 1int } else { 0int },
            final(seed).entries@ == if flipped {
                old(seed).entries@.update(index as int, cycled_entry(old(seed).entries@[index as int]))
            } else {
                old(seed).entries@
            },
            flipped == (index < old(seed).entries@.len() && threshold % 100 < self.flip_cutoff),
            flipped ==> final(seed).entries@[index as int] == (
                old(seed).entries@[index as int].0,
                match old(seed).entries@[index as int].1 {
                    Trit::Neg => Trit::Zero,
                    Trit::Zero => Trit::Pos,
                    Trit::Pos => Trit::Neg,
                },
            ),
    {
        if index >= seed.entries.len() {
            return false;
        }
        let should_flip = threshold % 100 < self.flip_cutoff;
        if should_flip {
            let (k, t) = seed.entries[index];
            let next = match t {
                Trit::Neg => Trit::Zero,
                Trit::Zero => Trit::Pos,
                Trit::Pos => Trit::Neg,
            };
            seed.entries.set(index, (k, next));
            seed.generation = seed.generation + 1;
        }
        should_flip
    }

    /// Mutate all entries with deterministic "randomness" derived from a base counter.
    pub fn mutate_all(&self, seed: &mut Seed, base_counter: u64) -> (flipped: usize)
        requires
            37 * (old(seed).entries@.len() - 1) <= u64::MAX,
            old(seed).generation + self.flip_count(old(seed).entries@.len(), base_counter)
                <= u32::MAX,
        ensures
            flipped == self.flip_count(old(seed).entries@.len(), base_counter),
            final(seed).id == old(seed).id,
            final(seed).generation == old(seed).generation + flipped,
            final(seed).entries@ == self.mutated_entries(old(seed).entries@, base_counter),
            final(seed).entries@.len() == old(seed).entries@.len(),
            forall|i: int|
                0 <= i < old(seed).entries@.len() ==> #[trigger] final(seed).entries@[i] == if ((
                base_counter + 37 * i) % 0x1_0000_0000_0000_0000int) % 100 < self.flip_cutoff {
                    (
                        old(seed).entries@[i].0,
                        match old(seed).entries@[i].1 {
                            Trit::Neg => Trit::Zero,
                            Trit::Zero => Trit::Pos,
                            Trit::Pos => Trit::Neg,
                        },
                    )
                } else {
                    old(seed).entries@[i]
                },
            flipped == Seq::new(old(seed).entries@.len(), |i: int| i).filter(
                |i: int|
                    ((base_counter + 37 * i) % 0x1_0000_0000_0000_0000int) % 100
                        < self.flip_cutoff,
            ).len(),
    {
        let len = seed.entries.len();
        let mut flipped: usize = 0;
        let mut i: usize = 0;
        while i < len
            invariant
                0 <= i <= len,
                len == seed.entries@.len(),
                len == old(seed).entries@.len(),
                37 * (len - 1) <= u64::MAX,
                seed.id == old(seed).id,
                flipped == self.flip_count(i as nat, base_counter),
                seed.generation == old(seed).generation + flipped,
                old(seed).generation + self.flip_count(len as nat, base_counter) <= u32::MAX,
                forall|j: int|
                    0 <= j < i ==> #[trigger] seed.entries@[j] == self.mutated_entries(
                        old(seed).entries@,
                        base_counter,
                    )[j],
                forall|j: int| i <= j < len ==> #[trigger] seed.entries@[j] == old(seed).entries@[j],
            decreases len - i,
        {
            let threshold = base_counter.wrapping_add(i as u64 * 37);
            proof {
                self.lemma_flip_count_monotone((i + 1) as nat, len as nat, base_counter);
                self.lemma_flip_count_bounded(i as nat, base_counter);
            }
            let ghost before = seed.entries@;
            if self.mutate_entry(seed, i, threshold) {
                flipped = flipped + 1;
            }
            proof {
                assert forall|j: int| 0 <= j < i + 1 implies #[trigger] seed.entries@[j]
                    == self.mutated_entries(old(seed).entries@, base_counter)[j] by {
                    if j < i {
                        assert(seed.entries@[j] == before[j]);
                    }
                }
            }
            i = i + 1;
        }
        proof {
            assert(seed.entries@ == self.mutated_entries(old(seed).entries@, base_counter));
            assert forall|j: int| 0 <= j < len implies #[trigger] seed.entries@[j] == if ((
            base_counter + 37 * j) % 0x1_0000_0000_0000_0000int) % 100 < self.flip_cutoff {
                (
                    old(seed).entries@[j].0,
                    match old(seed).entries@[j].1 {
                        Trit::Neg => Trit::Zero,
                        Trit::Zero => Trit::Pos,
                        Trit::Pos => Trit::Neg,
                    },
                )
            } else {
                old(seed).entries@[j]
            } by {
                law_mutated_entry(*self, old(seed).entries@, base_counter, j);
            }
            law_flip_count(*self, len as nat, base_counter);
        }
        flipped
    }

    /// The flip count grows with the number of entries considered.
    pub proof fn lemma_flip_count_monotone(&self, m: nat, n: nat, base: u64)
        requires
            m <= n,
        ensures
            self.flip_count(m, base) <= self.flip_count(n, base),
        decreases n - m,
    {
        if m < n {
            self.lemma_flip_count_monotone(m, (n - 1) as nat, base);
        }
    }

    /// At most `n` of the first `n` entries flip.
    pub proof fn lemma_flip_count_bounded(&self, n: nat, base: u64)
        ensures
            self.flip_count(n, base) <= n,
        decreases n,
    {
        if n > 0 {
            self.lemma_flip_count_bounded((n - 1) as nat, base);
        }
    }
}

/// The threshold for entry `i` is `base + 37 * i` taken modulo 2^64, for every entry
/// whose offset `37 * i` fits in 64 bits.
pub proof fn law_mutation_threshold(base: u64, i: int)
    requires
        0 <= i,
        37 * i <= u64::MAX,
    ensures
        mutation_threshold(base, i) as int == (base + 37 * i) % 0x1_0000_0000_0000_0000int,
{
    let x = base + 37 * i;
    if x > u64::MAX {
        assert(x - 0x1_0000_0000_0000_0000int == x % 0x1_0000_0000_0000_0000int);
    } else {
        assert(x == x % 0x1_0000_0000_0000_0000int);
    }
}

/// A threshold makes an entry flip exactly when its residue modulo 100 is below
/// the cutoff, so exactly `min(cutoff, 100)` of the 100 residues flip.
pub proof fn law_should_flip(m: SeedMutator, t: u64)
    ensures
        m.spec_should_flip(t) <==> t % 100 < m.flip_cutoff,
        m.spec_should_flip(t) ==> t % 100 < 100,
{
}

/// After mutating all entries from `base`, entry `i` keeps its key, and its trit
/// moves one step along Neg -> Zero -> Pos -> Neg exactly when
/// `(base + 37 * i) mod 2^64` has a residue modulo 100 below the cutoff.
pub proof fn law_mutated_entry(m: SeedMutator, s: Seq<(u64, Trit)>, base: u64, i: int)
    requires
        0 <= i < s.len(),
        37 * i <= u64::MAX,
    ensures
        m.mutated_entries(s, base)[i] == if ((base + 37 * i) % 0x1_0000_0000_0000_0000int) % 100
            < m.flip_cutoff {
            (
                s[i].0,
                match s[i].1 {
                    Trit::Neg => Trit::Zero,
                    Trit::Zero => Trit::Pos,
                    Trit::Pos => Trit::Neg,
                },
            )
        } else {
            s[i]
        },
{
    law_mutation_threshold(base, i);
}

/// The flip count over the first `n` entries is the number of positions `i < n`
/// whose threshold `(base + 37 * i) mod 2^64` has a residue modulo 100 below the cutoff.
pub proof fn law_flip_count(m: SeedMutator, n: nat, base: u64)
    requires
        37 * (n - 1) <= u64::MAX,
    ensures
        m.flip_count(n, base) == Seq::new(n, |i: int| i).filter(
            |i: int| ((base + 37 * i) % 0x1_0000_0000_0000_0000int) % 100 < m.flip_cutoff,
        ).len(),
    decreases n,
{
    let pred = |i: int| ((base + 37 * i) % 0x1_0000_0000_0000_0000int) % 100 < m.flip_cutoff;
    let idx = |i: int| i;
    if n == 0 {
        reveal(Seq::filter);
        assert(Seq::new(0, idx).filter(pred).len() == 0);
    } else {
        law_flip_count(m, (n - 1) as nat, base);
        law_mutation_threshold(base, n - 1);
        assert(Seq::new(n, idx) =~= Seq::new((n - 1) as nat, idx).push(n - 1));
        Seq::new((n - 1) as nat, idx).lemma_filter_push(n - 1, pred);
    }
}

/// Mutation never moves or renames entries: every key is found at the same place
/// as before, and a flipped key reads back its old trit moved one step along the cycle.
pub proof fn law_mutation_keeps_keys(m: SeedMutator, s: Seq<(u64, Trit)>, base: u64, k: u64)
    ensures
        m.mutated_entries(s, base).len() == s.len(),
        first_index(m.mutated_entries(s, base), k) == first_index(s, k),
        keys_unique(s) ==> keys_unique(m.mutated_entries(s, base)),
        entries_lookup(s, k) is Some <==> entries_lookup(m.mutated_entries(s, base), k) is Some,
        entries_lookup(s, k) matches Some(t) ==> entries_lookup(m.mutated_entries(s, base), k) == Some(
            if m.spec_should_flip(mutation_threshold(base, first_index(s, k))) {
                t.cycled()
            } else {
                t
            },
        ),
{
    let r = m.mutated_entries(s, base);
    assert forall|i: int| 0 <= i < s.len() implies #[trigger] s[i].0 == r[i].0 by {}
    lemma_first_index_same_keys(s, r, k);
    lemma_first_index_props(s, k);
    let f = first_index(s, k);
    if f < s.len() {
        assert(r[f] == if m.spec_should_flip(mutation_threshold(base, f)) {
            cycled_entry(s[f])
        } else {
            s[f]
        });
    }
    if keys_unique(s) {
        assert forall|i: int, j: int| 0 <= i < j < r.len() implies #[trigger] r[i].0
            != #[trigger] r[j].0 by {
            assert(s[i].0 != s[j].0);
        }
    }
}

/// A cutoff of 0 (probability 0.0) never flips, and a cutoff of 100 or more
/// (probability 1.0) flips every entry.
pub proof fn law_mutation_extremes(m: SeedMutator, s: Seq<(u64, Trit)>, base: u64, n: nat)
    ensures
        m.flip_cutoff == 0 ==> m.flip_count(n, base) == 0 && m.mutated_entries(s, base) == s,
        m.flip_cutoff >= 100 ==> m.flip_count(n, base) == n && m.mutated_entries(s, base)
            == s.map_values(|p: (u64, Trit)| cycled_entry(p)),
    decreases n,
{
    if n > 0 {
        law_mutation_extremes(m, s, base, (n - 1) as nat);
    }
    if m.flip_cutoff == 0 {
        assert(m.mutated_entries(s, base) =~= s);
    }
    if m.flip_cutoff >= 100 {
        assert(m.mutated_entries(s, base) =~= s.map_values(|p: (u64, Trit)| cycled_entry(p)));
    }
}

} // verus!
