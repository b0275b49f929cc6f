//! The snapshot manager: captures exactly the item- and bucket-level
//! state one trial swap can touch, plus the scalar aggregates and the
//! usage vector, and writes it all back verbatim on rollback.
//!
//! Duplicate bucket entries are harmless: every entry records the
//! pre-move value, so last-write-wins restoration is exact.

use vstd::prelude::*;

use crate::state::{OptimizerState, StateModel};

verus! {

/// Applies the first `m` recorded `(index, value)` pairs to `s` in
/// order; later entries win. Entries out of range are ignored.
pub open spec fn write_entries<T>(s: Seq<T>, es: Seq<(usize, T)>, m: int) -> Seq<T>
    decreases m,
{
    if m <= 0 {
        s
    } else {
        let prev = write_entries(s, es, m - 1);
        if (es[m - 1].0 as int) < s.len() {
            prev.update(es[m - 1].0 as int, es[m - 1].1)
        } else {
            prev
        }
    }
}

/// Writing entries never changes the length.
pub proof fn lemma_write_entries_len<T>(s: Seq<T>, es: Seq<(usize, T)>, m: int)
    ensures
        write_entries(s, es, m).len() == s.len(),
    decreases m,
{
    if m > 0 {
        lemma_write_entries_len(s, es, m - 1);
    }
}

/// Some entry among the first `m` names index `i`.
pub open spec fn entry_covers<T>(es: Seq<(usize, T)>, m: int, i: int) -> bool {
    exists|j: int| #![trigger es[j]] 0 <= j < m && es[j].0 as int == i
}

/// Writing entries that all record `pre`'s values yields `pre` at every
/// covered index and leaves the rest of `post` alone.
pub proof fn lemma_write_entries_restores<T>(pre: Seq<T>, post: Seq<T>, es: Seq<(usize, T)>, m: int)
    requires
        pre.len() == post.len(),
        0 <= m <= es.len(),
        forall|j: int|
            0 <= j < es.len() ==> (#[trigger] es[j]).0 < pre.len() && es[j].1 == pre[es[j].0
                as int],
    ensures
        write_entries(post, es, m).len() == post.len(),
        forall|i: int|
            0 <= i < post.len() ==> #[trigger] write_entries(post, es, m)[i] == if entry_covers(
                es,
                m,
                i,
            ) {
                pre[i]
            } else {
                post[i]
            },
    decreases m,
{
    if m > 0 {
        lemma_write_entries_restores(pre, post, es, m - 1);
        let e = es[m - 1];
        assert forall|i: int| 0 <= i < post.len() implies #[trigger] write_entries(post, es, m)[i]
            == if entry_covers(es, m, i) {
            pre[i]
        } else {
            post[i]
        } by {
            if i == e.0 as int {
                assert(entry_covers(es, m, i));
            } else {
                if entry_covers(es, m - 1, i) {
                    let w = choose|j: int| #![trigger es[j]] 0 <= j < m - 1 && es[j].0 as int == i;
                    assert(0 <= w < m && es[w].0 as int == i);
                    assert(entry_covers(es, m, i));
                } else if entry_covers(es, m, i) {
                    let w = choose|j: int| #![trigger es[j]] 0 <= j < m && es[j].0 as int == i;
                    assert(0 <= w < m - 1 && es[w].0 as int == i);
                    assert(entry_covers(es, m - 1, i));
                    assert(false);
                }
            }
        }
    }
}

/// If the entries record `pre`'s values and cover every index where
/// `post` differs from `pre`, writing them onto `post` restores `pre`
/// exactly.
pub proof fn lemma_restore_exact<T>(pre: Seq<T>, post: Seq<T>, es: Seq<(usize, T)>)
    requires
        pre.len() == post.len(),
        forall|j: int|
            0 <= j < es.len() ==> (#[trigger] es[j]).0 < pre.len() && es[j].1 == pre[es[j].0
                as int],
        forall|i: int|
            0 <= i < pre.len() && post[i] != (#[trigger] pre[i]) ==> entry_covers(
                es,
                es.len() as int,
                i,
            ),
    ensures
        write_entries(post, es, es.len() as int) == pre,
{
    lemma_write_entries_restores(pre, post, es, es.len() as int);
    assert(write_entries(post, es, es.len() as int) =~= pre);
}

/// Transient capture of the state one trial swap can touch.
pub struct SwapSnapshot {
    /// `(item, code)` for each affected item.
    pub codes: Vec<(usize, usize)>,
    /// `(item, key list)` for each affected item.
    pub keys: Vec<(usize, Vec<u8>)>,
    /// `(item, equivalence contribution)` for each affected item.
    pub equiv_contribs: Vec<(usize, u128)>,
    /// `(item, squared contribution)` for each affected item.
    pub equiv_sq_contribs: Vec<(usize, u128)>,
    /// `(code, occupancy)` for each bucket the move can touch.
    pub buckets: Vec<(usize, usize)>,
    /// `(code, frequency sum)` for each bucket the move can touch.
    pub bucket_freqs: Vec<(usize, u64)>,
    /// The four scalar aggregates, captured wholesale.
    pub collision_count: usize,
    pub collision_frequency: u64,
    pub total_equiv_weighted: u128,
    pub total_equiv_sq_weighted: u128,
    /// Full copy of the per-key usage vector.
    pub key_weighted_usage: Vec<u128>,
    /// The captured state, in full, as a ghost value: what a rollback
    /// promises to reproduce.
    pub pre: Ghost<StateModel>,
}

/// The key entries with their lists viewed as sequences.
pub open spec fn keys_entries(snap: SwapSnapshot) -> Seq<(usize, Seq<u8>)> {
    Seq::new(snap.keys@.len(), |j: int| (snap.keys@[j].0, snap.keys@[j].1@))
}

/// The state that restoring `snap` on top of `cur` produces.
pub open spec fn restored(cur: StateModel, snap: SwapSnapshot) -> StateModel {
    StateModel {
        codes: write_entries(cur.codes, snap.codes@, snap.codes@.len() as int),
        keys: write_entries(cur.keys, keys_entries(snap), snap.keys@.len() as int),
        equiv_contrib: write_entries(
            cur.equiv_contrib,
            snap.equiv_contribs@,
            snap.equiv_contribs@.len() as int,
        ),
        sq_contrib: write_entries(
            cur.sq_contrib,
            snap.equiv_sq_contribs@,
            snap.equiv_sq_contribs@.len() as int,
        ),
        buckets: write_entries(cur.buckets, snap.buckets@, snap.buckets@.len() as int),
        bucket_freqs: write_entries(
            cur.bucket_freqs,
            snap.bucket_freqs@,
            snap.bucket_freqs@.len() as int,
        ),
        total_collisions: snap.collision_count,
        collision_frequency: snap.collision_frequency,
        total_equiv_weighted: snap.total_equiv_weighted,
        total_equiv_sq_weighted: snap.total_equiv_sq_weighted,
        usage: snap.key_weighted_usage@,
    }
}

/// Restoring `snap` from `cur` reproduces the captured state.
pub open spec fn undoes(snap: SwapSnapshot, cur: StateModel) -> bool {
    restored(cur, snap) == snap.pre@
}

impl OptimizerState {
    /// Records, for each affected item, its cached code, key list and
    /// contributions together with its current bucket; records the
    /// buckets of the listed target codes as well, the four scalar
    /// aggregates, and a full copy of the usage vector.
    #[verifier::loop_isolation(false)]
    pub fn create_swap_snapshot(
        &self,
        affected_items: &Vec<usize>,
        entered_codes: &Vec<usize>,
    ) -> (snap: SwapSnapshot)
        requires
            forall|j: int|
                0 <= j < affected_items@.len() ==> (#[trigger] affected_items@[j])
                    < self.current_codes@.len(),
            self.current_keys@.len() == self.current_codes@.len(),
            self.current_equiv_contrib@.len() == self.current_codes@.len(),
            self.current_equiv_sq_contrib@.len() == self.current_codes@.len(),
            self.bucket_freqs@.len() == self.buckets@.len(),
            forall|j: int|
                0 <= j < affected_items@.len() ==> (#[trigger] self.current_codes@[affected_items@[
                    j
                ] as int]) < self.buckets@.len(),
            forall|j: int|
                0 <= j < entered_codes@.len() ==> (#[trigger] entered_codes@[j])
                    < self.buckets@.len(),
        ensures
            snap.pre@ == self@,
            snap.codes@.len() == affected_items@.len(),
            forall|j: int|
                0 <= j < affected_items@.len() ==> (#[trigger] snap.codes@[j]) == (
                affected_items@[j],
                self@.codes[affected_items@[j] as int],
                ),
            snap.keys@.len() == affected_items@.len(),
            forall|j: int|
                0 <= j < affected_items@.len() ==> (#[trigger] snap.keys@[j]).0
                    == affected_items@[j] && snap.keys@[j].1@ == self@.keys[affected_items@[j]
                    as int],
            snap.equiv_contribs@.len() == affected_items@.len(),
            forall|j: int|
                0 <= j < affected_items@.len() ==> (#[trigger] snap.equiv_contribs@[j]) == (
                affected_items@[j],
                self@.equiv_contrib[affected_items@[j] as int],
                ),
            snap.equiv_sq_contribs@.len() == affected_items@.len(),
            forall|j: int|
                0 <= j < affected_items@.len() ==> (#[trigger] snap.equiv_sq_contribs@[j]) == (
                affected_items@[j],
                self@.sq_contrib[affected_items@[j] as int],
                ),
            snap.buckets@.len() == affected_items@.len() + entered_codes@.len(),
            snap.bucket_freqs@.len() == affected_items@.len() + entered_codes@.len(),
            forall|j: int|
                0 <= j < affected_items@.len() ==> (#[trigger] snap.buckets@[j]) == (
                self@.codes[affected_items@[j] as int],
                self@.buckets[self@.codes[affected_items@[j] as int] as int],
                ),
            forall|j: int|
                0 <= j < affected_items@.len() ==> (#[trigger] snap.bucket_freqs@[j]) == (
                self@.codes[affected_items@[j] as int],
                self@.bucket_freqs[self@.codes[affected_items@[j] as int] as int],
                ),
            forall|j: int|
                0 <= j < entered_codes@.len() ==> (#[trigger] snap.buckets@[affected_items@.len()
                    + j]) == (entered_codes@[j], self@.buckets[entered_codes@[j] as int]),
            forall|j: int|
                0 <= j < entered_codes@.len() ==> (#[trigger] snap.bucket_freqs@[
                affected_items@.len() + j]) == (
                entered_codes@[j],
                self@.bucket_freqs[entered_codes@[j] as int],
                ),
            snap.collision_count == self.total_collisions,
            snap.collision_frequency == self.collision_frequency,
            snap.total_equiv_weighted == self.total_equiv_weighted,
            snap.total_equiv_sq_weighted == self.total_equiv_sq_weighted,
            snap.key_weighted_usage@ == self@.usage,
    {
        let n_aff: usize = affected_items.len();
        let mut s_codes: Vec<(usize, usize)> = Vec::new();
        let mut s_keys: Vec<(usize, Vec<u8>)> = Vec::new();
        let mut s_ec: Vec<(usize, u128)> = Vec::new();
        let mut s_sq: Vec<(usize, u128)> = Vec::new();
        let mut s_buckets: Vec<(usize, usize)> = Vec::new();
        let mut s_bfreqs: Vec<(usize, u64)> = Vec::new();
        for j in 0..n_aff
            invariant
                s_codes@.len() == j,
                s_keys@.len() == j,
                s_ec@.len() == j,
                s_sq@.len() == j,
                s_buckets@.len() == j,
                s_bfreqs@.len() == j,
                forall|jj: int|
                    0 <= jj < j ==> (#[trigger] s_codes@[jj]) == (
                    affected_items@[jj],
                    self@.codes[affected_items@[jj] as int],
                    ),
                forall|jj: int|
                    0 <= jj < j ==> (#[trigger] s_keys@[jj]).0 == affected_items@[jj]
                        && s_keys@[jj].1@ == self@.keys[affected_items@[jj] as int],
                forall|jj: int|
                    0 <= jj < j ==> (#[trigger] s_ec@[jj]) == (
                    affected_items@[jj],
                    self@.equiv_contrib[affected_items@[jj] as int],
                    ),
                forall|jj: int|
                    0 <= jj < j ==> (#[trigger] s_sq@[jj]) == (
                    affected_items@[jj],
                    self@.sq_contrib[affected_items@[jj] as int],
                    ),
                forall|jj: int|
                    0 <= jj < j ==> (#[trigger] s_buckets@[jj]) == (
                    self@.codes[affected_items@[jj] as int],
                    self@.buckets[self@.codes[affected_items@[jj] as int] as int],
                    ),
                forall|jj: int|
                    0 <= jj < j ==> (#[trigger] s_bfreqs@[jj]) == (
                    self@.codes[affected_items@[jj] as int],
                    self@.bucket_freqs[self@.codes[affected_items@[jj] as int] as int],
                    ),
        {
            let i: usize = affected_items[j];
            s_codes.push((i, self.current_codes[i]));
            let kl: Vec<u8> = self.current_keys[i].clone();
            proof {
                assert(kl@ =~= self.current_keys@[i as int]@);
            }
            s_keys.push((i, kl));
            s_ec.push((i, self.current_equiv_contrib[i]));
            s_sq.push((i, self.current_equiv_sq_contrib[i]));
            let code: usize = self.current_codes[i];
            s_buckets.push((code, self.buckets[code]));
            s_bfreqs.push((code, self.bucket_freqs[code]));
        }
        let n_ent: usize = entered_codes.len();
        for j in 0..n_ent
            invariant
                s_buckets@.len() == n_aff + j,
                s_bfreqs@.len() == n_aff + j,
                forall|jj: int|
                    0 <= jj < n_aff as int ==> (#[trigger] s_buckets@[jj]) == (
                    self@.codes[affected_items@[jj] as int],
                    self@.buckets[self@.codes[affected_items@[jj] as int] as int],
                    ),
                forall|jj: int|
                    0 <= jj < n_aff as int ==> (#[trigger] s_bfreqs@[jj]) == (
                    self@.codes[affected_items@[jj] as int],
                    self@.bucket_freqs[self@.codes[affected_items@[jj] as int] as int],
                    ),
                forall|jj: int|
                    0 <= jj < j ==> (#[trigger] s_buckets@[n_aff + jj]) == (
                    entered_codes@[jj],
                    self@.buckets[entered_codes@[jj] as int],
                    ),
                forall|jj: int|
                    0 <= jj < j ==> (#[trigger] s_bfreqs@[n_aff + jj]) == (
                    entered_codes@[jj],
                    self@.bucket_freqs[entered_codes@[jj] as int],
                    ),
        {
            let code: usize = entered_codes[j];
            s_buckets.push((code, self.buckets[code]));
            s_bfreqs.push((code, self.bucket_freqs[code]));
        }
        let usage_copy: Vec<u128> = self.key_weighted_usage.clone();
        proof {
            assert(usage_copy@ =~= self.key_weighted_usage@);
        }
        SwapSnapshot {
            codes: s_codes,
            keys: s_keys,
            equiv_contribs: s_ec,
            equiv_sq_contribs: s_sq,
            buckets: s_buckets,
            bucket_freqs: s_bfreqs,
            collision_count: self.total_collisions,
            collision_frequency: self.collision_frequency,
            total_equiv_weighted: self.total_equiv_weighted,
            total_equiv_sq_weighted: self.total_equiv_sq_weighted,
            key_weighted_usage: usage_copy,
            pre: Ghost(self@),
        }
    }

    /// Writes every recorded entry back in order (later entries win on
    /// duplicates) and overwrites the scalar aggregates and the usage
    /// vector wholesale.
    #[verifier::loop_isolation(false)]
    pub fn restore_swap_snapshot(&mut self, snap: SwapSnapshot)
        ensures
            final(self)@ == restored(old(self)@, snap),
    {
        let ghost pre0 = old(self)@;
        let n1: usize = snap.codes.len();
        for j in 0..n1
            invariant
                self.current_codes@ == write_entries(pre0.codes, snap.codes@, j as int),
                self.current_keys == old(self).current_keys,
                self.current_equiv_contrib == old(self).current_equiv_contrib,
                self.current_equiv_sq_contrib == old(self).current_equiv_sq_contrib,
                self.buckets == old(self).buckets,
                self.bucket_freqs == old(self).bucket_freqs,
                self.total_collisions == old(self).total_collisions,
                self.collision_frequency == old(self).collision_frequency,
                self.total_equiv_weighted == old(self).total_equiv_weighted,
                self.total_equiv_sq_weighted == old(self).total_equiv_sq_weighted,
                self.key_weighted_usage == old(self).key_weighted_usage,
        {
            let e: (usize, usize) = snap.codes[j];
            proof {
                lemma_write_entries_len(pre0.codes, snap.codes@, j as int);
            }
            if e.0 < self.current_codes.len() {
                self.current_codes.set(e.0, e.1);
            }
        }
        let ghost codes1 = self.current_codes@;
        let n2: usize = snap.keys.len();
        for j in 0..n2
            invariant
                self.current_codes@ == codes1,
                self@.keys == write_entries(pre0.keys, keys_entries(snap), j as int),
                self.current_keys@.len() == old(self).current_keys@.len(),
                self.current_equiv_contrib == old(self).current_equiv_contrib,
                self.current_equiv_sq_contrib == old(self).current_equiv_sq_contrib,
                self.buckets == old(self).buckets,
                self.bucket_freqs == old(self).bucket_freqs,
                self.total_collisions == old(self).total_collisions,
                self.collision_frequency == old(self).collision_frequency,
                self.total_equiv_weighted == old(self).total_equiv_weighted,
                self.total_equiv_sq_weighted == old(self).total_equiv_sq_weighted,
                self.key_weighted_usage == old(self).key_weighted_usage,
        {
            let idx: usize = snap.keys[j].0;
            let v: Vec<u8> = snap.keys[j].1.clone();
            proof {
                assert(v@ =~= snap.keys@[j as int].1@);
            }
            proof {
                lemma_write_entries_len(pre0.keys, keys_entries(snap), j as int);
            }
            if idx < self.current_keys.len() {
                self.current_keys.set(idx, v);
                proof {
                    assert(self@.keys =~= write_entries(pre0.keys, keys_entries(snap), j + 1));
                }
            } else {
                proof {
                    assert(self@.keys =~= write_entries(pre0.keys, keys_entries(snap), j + 1));
                }
            }
        }
        let ghost keys2 = self@.keys;
        let n3: usize = snap.equiv_contribs.len();
        for j in 0..n3
            invariant
                self.current_codes@ == codes1,
                self@.keys == keys2,
                self.current_equiv_contrib@ == write_entries(
                    pre0.equiv_contrib,
                    snap.equiv_contribs@,
                    j as int,
                ),
                self.current_equiv_sq_contrib == old(self).current_equiv_sq_contrib,
                self.buckets == old(self).buckets,
                self.bucket_freqs == old(self).bucket_freqs,
                self.total_collisions == old(self).total_collisions,
                self.collision_frequency == old(self).collision_frequency,
                self.total_equiv_weighted == old(self).total_equiv_weighted,
                self.total_equiv_sq_weighted == old(self).total_equiv_sq_weighted,
                self.key_weighted_usage == old(self).key_weighted_usage,
        {
            let e: (usize, u128) = snap.equiv_contribs[j];
            proof {
                lemma_write_entries_len(pre0.equiv_contrib, snap.equiv_contribs@, j as int);
            }
            if e.0 < self.current_equiv_contrib.len() {
                self.current_equiv_contrib.set(e.0, e.1);
            }
        }
        let ghost ec3 = self.current_equiv_contrib@;
        let n4: usize = snap.equiv_sq_contribs.len();
        for j in 0..n4
            invariant
                self.current_codes@ == codes1,
                self@.keys == keys2,
                self.current_equiv_contrib@ == ec3,
                self.current_equiv_sq_contrib@ == write_entries(
                    pre0.sq_contrib,
                    snap.equiv_sq_contribs@,
                    j as int,
                ),
                self.buckets == old(self).buckets,
                self.bucket_freqs == old(self).bucket_freqs,
                self.total_collisions == old(self).total_collisions,
                self.collision_frequency == old(self).collision_frequency,
                self.total_equiv_weighted == old(self).total_equiv_weighted,
                self.total_equiv_sq_weighted == old(self).total_equiv_sq_weighted,
                self.key_weighted_usage == old(self).key_weighted_usage,
        {
            let e: (usize, u128) = snap.equiv_sq_contribs[j];
            proof {
                lemma_write_entries_len(pre0.sq_contrib, snap.equiv_sq_contribs@, j as int);
            }
            if e.0 < self.current_equiv_sq_contrib.len() {
                self.current_equiv_sq_contrib.set(e.0, e.1);
            }
        }
        let ghost sq4 = self.current_equiv_sq_contrib@;
        let n5: usize = snap.buckets.len();
        for j in 0..n5
            invariant
                self.current_codes@ == codes1,
                self@.keys == keys2,
                self.current_equiv_contrib@ == ec3,
                self.current_equiv_sq_contrib@ == sq4,
                self.buckets@ == write_entries(pre0.buckets, snap.buckets@, j as int),
                self.bucket_freqs == old(self).bucket_freqs,
                self.total_collisions == old(self).total_collisions,
                self.collision_frequency == old(self).collision_frequency,
                self.total_equiv_weighted == old(self).total_equiv_weighted,
                self.total_equiv_sq_weighted == old(self).total_equiv_sq_weighted,
                self.key_weighted_usage == old(self).key_weighted_usage,
        {
            let e: (usize, usize) = snap.buckets[j];
            proof {
                lemma_write_entries_len(pre0.buckets, snap.buckets@, j as int);
            }
            if e.0 < self.buckets.len() {
                self.buckets.set(e.0, e.1);
            }
        }
        let ghost b5 = self.buckets@;
        let n6: usize = snap.bucket_freqs.len();
        for j in 0..n6
            invariant
                self.current_codes@ == codes1,
                self@.keys == keys2,
                self.current_equiv_contrib@ == ec3,
                self.current_equiv_sq_contrib@ == sq4,
                self.buckets@ == b5,
                self.bucket_freqs@ == write_entries(pre0.bucket_freqs, snap.bucket_freqs@, j as int),
                self.total_collisions == old(self).total_collisions,
                self.collision_frequency == old(self).collision_frequency,
                self.total_equiv_weighted == old(self).total_equiv_weighted,
                self.total_equiv_sq_weighted == old(self).total_equiv_sq_weighted,
                self.key_weighted_usage == old(self).key_weighted_usage,
        {
            let e: (usize, u64) = snap.bucket_freqs[j];
            proof {
                lemma_write_entries_len(pre0.bucket_freqs, snap.bucket_freqs@, j as int);
            }
            if e.0 < self.bucket_freqs.len() {
                self.bucket_freqs.set(e.0, e.1);
            }
        }
        self.total_collisions = snap.collision_count;
        self.collision_frequency = snap.collision_frequency;
        self.total_equiv_weighted = snap.total_equiv_weighted;
        self.total_equiv_sq_weighted = snap.total_equiv_sq_weighted;
        self.key_weighted_usage = snap.key_weighted_usage;
    }
}

} // verus!
