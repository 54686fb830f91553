//! The seed: a table of `(input_hash, trit)` entries searched front to back.

use vstd::prelude::*;

use crate::trit::Trit;

verus! {

/// Index of the first entry whose key is `k`, or `s.len()` if there is none.
pub open spec fn first_index(s: Seq<(u64, Trit)>, k: u64) -> int
    decreases s.len(),
{
    if s.len() == 0 {
        0
    } else if s[0].0 == k {
        0
    } else {
        1 + first_index(s.drop_first(), k)
    }
}

/// Some entry has key `k`.
pub open spec fn has_key(s: Seq<(u64, Trit)>, k: u64) -> bool {
    first_index(s, k) < s.len()
}

/// The trit of the first entry with key `k`.
pub open spec fn entries_lookup(s: Seq<(u64, Trit)>, k: u64) -> Option<Trit> {
    if has_key(s, k) {
        Some(s[first_index(s, k)].1)
    } else {
        None
    }
}

/// Entries after writing `t` under `k`: the first entry with that key is
/// overwritten in place, or a new entry is appended at the end.
pub open spec fn entries_insert(s: Seq<(u64, Trit)>, k: u64, t: Trit) -> Seq<(u64, Trit)> {
    if has_key(s, k) {
        s.update(first_index(s, k), (k, t))
    } else {
        s.push((k, t))
    }
}

/// No two entries share a key.
pub open spec fn keys_unique(s: Seq<(u64, Trit)>) -> bool {
    forall|i: int, j: int| 0 <= i < j < s.len() ==> #[trigger] s[i].0 != #[trigger] s[j].0
}

/// `first_index` lies in `0..=len`, no earlier entry has the key, and the entry
/// it names (if any) has the key.
pub proof fn lemma_first_index_props(s: Seq<(u64, Trit)>, k: u64)
    ensures
        0 <= first_index(s, k) <= s.len(),
        forall|j: int| 0 <= j < first_index(s, k) ==> #[trigger] s[j].0 != k,
        first_index(s, k) < s.len() ==> s[first_index(s, k)].0 == k,
    decreases s.len(),
{
    if s.len() > 0 && s[0].0 != k {
        let t = s.drop_first();
        lemma_first_index_props(t, k);
        assert forall|j: int| 0 <= j < first_index(s, k) implies #[trigger] s[j].0 != k by {
            if j > 0 {
                assert(s[j] == t[j - 1]);
            }
        }
    }
}

/// An index `i` with no key `k` before it, and key `k` at it (or `i == len`),
/// is the first index of `k`.
pub proof fn lemma_first_index_at(s: Seq<(u64, Trit)>, k: u64, i: int)
    requires
        0 <= i <= s.len(),
        forall|j: int| 0 <= j < i ==> #[trigger] s[j].0 != k,
        i < s.len() ==> s[i].0 == k,
    ensures
        first_index(s, k) == i,
{
    lemma_first_index_props(s, k);
    let f = first_index(s, k);
    if f < i {
        assert(s[f].0 != k);
    } else if i < f {
        assert(s[i].0 != k);
    }
}

/// Two entry sequences with the same keys at the same places find every key at the same place.
pub proof fn lemma_first_index_same_keys(s: Seq<(u64, Trit)>, r: Seq<(u64, Trit)>, k: u64)
    requires
        s.len() == r.len(),
        forall|i: int| 0 <= i < s.len() ==> #[trigger] s[i].0 == r[i].0,
    ensures
        first_index(s, k) == first_index(r, k),
{
    lemma_first_index_props(s, k);
    let f = first_index(s, k);
    assert forall|j: int| 0 <= j < f implies #[trigger] r[j].0 != k by {
        assert(s[j].0 != k);
    }
    lemma_first_index_at(r, k, f);
}

/// Appending an entry changes no lookup of a key that was already present,
/// and makes an absent key find the new entry.
pub proof fn lemma_lookup_push(s: Seq<(u64, Trit)>, p: (u64, Trit), k: u64)
    ensures
        entries_lookup(s.push(p), k) == if has_key(s, k) {
            entries_lookup(s, k)
        } else if p.0 == k {
            Some(p.1)
        } else {
            None
        },
        has_key(s.push(p), k) == (has_key(s, k) || p.0 == k),
{
    let r = s.push(p);
    lemma_first_index_props(s, k);
    let f = first_index(s, k);
    assert forall|j: int| 0 <= j < f implies #[trigger] r[j].0 != k by {
        assert(r[j] == s[j]);
    }
    if f < s.len() {
        assert(r[f] == s[f]);
        lemma_first_index_at(r, k, f);
    } else if p.0 == k {
        lemma_first_index_at(r, k, f);
    } else {
        assert forall|j: int| 0 <= j < r.len() implies #[trigger] r[j].0 != k by {
            if j < s.len() {
                assert(r[j] == s[j]);
            }
        }
        lemma_first_index_at(r, k, r.len() as int);
    }
}

/// Reading a key back after writing it gives what was written; reading any other
/// key gives what it gave before.
pub proof fn law_lookup_after_insert(s: Seq<(u64, Trit)>, k: u64, t: Trit, k2: u64)
    ensures
        entries_lookup(entries_insert(s, k, t), k2) == if k2 == k {
            Some(t)
        } else {
            entries_lookup(s, k2)
        },
        has_key(entries_insert(s, k, t), k2) == (has_key(s, k2) || k2 == k),
{
    lemma_first_index_props(s, k);
    if has_key(s, k) {
        let f = first_index(s, k);
        let r = s.update(f, (k, t));
        assert forall|i: int| 0 <= i < s.len() implies #[trigger] s[i].0 == r[i].0 by {}
        lemma_first_index_same_keys(s, r, k2);
        lemma_first_index_props(s, k2);
        if k2 != k && has_key(s, k2) {
            assert(first_index(s, k2) != f);
        }
    } else {
        lemma_lookup_push(s, (k, t), k2);
    }
}

/// Writing a key adds an entry exactly when the key was absent, and keeps the keys distinct.
pub proof fn law_insert_len_and_unique(s: Seq<(u64, Trit)>, k: u64, t: Trit)
    ensures
        entries_insert(s, k, t).len() == s.len() + if has_key(s, k) { 0int } else { 1int },
        keys_unique(s) ==> keys_unique(entries_insert(s, k, t)),
{
    lemma_first_index_props(s, k);
    let r = entries_insert(s, k, t);
    if keys_unique(s) {
        if has_key(s, k) {
            let f = first_index(s, k);
            assert forall|i: int, j: int| 0 <= i < j < r.len() implies #[trigger] r[i].0
                != #[trigger] r[j].0 by {
                assert(s[i].0 != s[j].0);
            }
        } else {
            assert forall|i: int, j: int| 0 <= i < j < r.len() implies #[trigger] r[i].0
                != #[trigger] r[j].0 by {
                if j < s.len() {
                    assert(s[i].0 != s[j].0);
                } else {
                    assert(r[i] == s[i]);
                }
            }
        }
    }
}

/// A compact inference determiner: a table from input hashes to ternary
/// outputs, the behavioural signature of a model role.
#[derive(Clone, Debug, PartialEq)]
pub struct Seed {
    pub id: u64,
    pub entries: Vec<(u64, Trit)>,
    pub generation: u32,
}

impl Seed {
    /// The trit this seed gives for `input_hash`.
    pub open spec fn spec_lookup(&self, input_hash: u64) -> Option<Trit> {
        entries_lookup(self.entries@, input_hash)
    }

    pub fn new(id: u64) -> (s: Self)
        ensures
            s.id == id,
            s.entries@ == Seq::<(u64, Trit)>::empty(),
            s.generation == 0,
    {
        Seed { id, entries: Vec::new(), generation: 0 }
    }

    pub fn with_entries(id: u64, entries: Vec<(u64, Trit)>) -> (s: Self)
        ensures
            s.id == id,
            s.entries@ == entries@,
            s.generation == 0,
    {
        Seed { id, entries, generation: 0 }
    }

    pub fn lookup(&self, input_hash: u64) -> (r: Option<Trit>)
        ensures
            r == self.spec_lookup(input_hash),
    {
        let mut i: usize = 0;
        while i < self.entries.len()
            invariant
                0 <= i <= self.entries.len(),
                forall|j: int| 0 <= j < i ==> #[trigger] self.entries@[j].0 != input_hash,
            decreases self.entries.len() - i,
        {
            let (k, v) = self.entries[i];
            if k == input_hash {
                proof {
                    lemma_first_index_at(self.entries@, input_hash, i as int);
                }
                return Some(v);
            }
            i = i + 1;
        }
        proof {
            lemma_first_index_at(self.entries@, input_hash, i as int);
        }
        None
    }

    pub fn insert(&mut self, input_hash: u64, trit: Trit)
        ensures
            final(self).id == old(self).id,
            final(self).generation == old(self).generation,
            final(self).entries@ == entries_insert(old(self).entries@, input_hash, trit),
    {
        let mut i: usize = 0;
        while i < self.entries.len()
            invariant
                0 <= i <= self.entries.len(),
                self.id == old(self).id,
                self.generation == old(self).generation,
                self.entries@ == old(self).entries@,
                forall|j: int| 0 <= j < i ==> #[trigger] self.entries@[j].0 != input_hash,
            decreases self.entries.len() - i,
        {
            if self.entries[i].0 == input_hash {
                proof {
                    lemma_first_index_at(self.entries@, input_hash, i as int);
                }
                self.entries.set(i, (input_hash, trit));
                return;
            }
            i = i + 1;
        }
        proof {
            lemma_first_index_at(self.entries@, input_hash, i as int);
        }
        self.entries.push((input_hash, trit));
    }

    pub fn len(&self) -> (n: usize)
        ensures
            n == self.entries@.len(),
    {
        self.entries.len()
    }

    pub fn is_empty(&self) -> (b: bool)
        ensures
            b == (self.entries@.len() == 0),
    {
        self.entries.is_empty()
    }
}

} // verus!
