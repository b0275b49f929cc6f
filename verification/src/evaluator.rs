//! The move evaluator: proposes exchanging the keys of two roles,
//! applies the incremental diff, and either keeps the move or restores
//! the captured snapshot exactly.
//!
//! Scoring the two states and drawing the Metropolis acceptance are the
//! caller's business: `propose_swap` performs the trial mutation and
//! hands back the snapshot, and `resolve_swap` commits or rolls back
//! once the caller has decided.

use vstd::prelude::*;

use crate::context::OptContext;
use crate::diff::bucket_touched;
use crate::snapshot::{entry_covers, keys_entries, lemma_restore_exact, restored, undoes,
    SwapSnapshot};
use crate::state::{OptimizerState, StateModel};
use crate::sums::{
    cnt, coll_freq, excess_sum, lemma_cnt_update, lemma_coll_freq_update, lemma_excess_sum_update,
    lemma_fsum_ge_elem, lemma_fsum_update, nodup, sum_u128, usage_at,
};

verus! {

/// `asg` with the entries of roles `r1` and `r2` exchanged.
pub open spec fn swapped(asg: Seq<u8>, r1: int, r2: int) -> Seq<u8> {
    asg.update(r1, asg[r2]).update(r2, asg[r1])
}

/// The fast-rejection test: the two roles are the same, or either role
/// may not hold the other's key. Two distinct roles holding the same
/// permitted key pass: their swap is a legal identity trial.
pub open spec fn fast_reject(ctx: &OptContext, asg: Seq<u8>, r1: int, r2: int) -> bool {
    ||| r1 == r2
    ||| !ctx.allowed@[r1]@[asg[r2] as int]
    ||| !ctx.allowed@[r2]@[asg[r1] as int]
}

/// Exchanging the same two entries twice restores the assignment.
pub proof fn lemma_swapped_involution(asg: Seq<u8>, r1: int, r2: int)
    requires
        0 <= r1 < asg.len(),
        0 <= r2 < asg.len(),
    ensures
        swapped(swapped(asg, r1, r2), r1, r2) == asg,
{
    assert(swapped(swapped(asg, r1, r2), r1, r2) =~= asg);
}

#[verifier::loop_isolation(false)]
fn vec_contains(v: &Vec<usize>, x: usize) -> (r: bool)
    ensures
        r == v@.contains(x),
{
    let n: usize = v.len();
    for j in 0..n
        invariant
            forall|jj: int| 0 <= jj < j ==> v@[jj] != x,
    {
        if v[j] == x {
            proof {
                assert(v@[j as int] == x);
            }
            return true;
        }
    }
    false
}

proof fn lemma_contains_push(s: Seq<usize>, x: usize, y: usize)
    requires
        s.contains(y),
    ensures
        s.push(x).contains(y),
{
    let w = choose|j: int| 0 <= j < s.len() && s[j] == y;
    assert(s.push(x)[w] == y);
}

impl OptimizerState {
    /// Proposes swapping the keys of `r1` and `r2`: after the fast
    /// rejection tests, captures a snapshot of everything the move can
    /// touch, swaps the two assignment entries, and runs the incremental
    /// diff over the union of the two roles' affected items.
    ///
    /// `None` means the move was rejected outright and nothing changed.
    /// `Some(snap)` means the trial state is in place; the caller scores
    /// it and then calls [`Self::resolve_swap`] with its decision, and
    /// restoring `snap` is proven to reproduce the captured state.
    #[verifier::loop_isolation(false)]
    #[verifier::rlimit(100)]
    pub fn propose_swap(
        &mut self,
        ctx: &OptContext,
        assignment: &mut Vec<u8>,
        r1: usize,
        r2: usize,
    ) -> (snap: Option<SwapSnapshot>)
        requires
            ctx.wf(),
            old(self)@.inv(ctx, old(assignment)@),
            ctx.asg_wf(old(assignment)@),
            r1 < ctx.n_roles(),
            r2 < ctx.n_roles(),
        ensures
            (snap is None) == fast_reject(ctx, old(assignment)@, r1 as int, r2 as int),
            r1 == r2 ==> snap is None,
            snap is None ==> *final(self) == *old(self) && final(self)@ == old(self)@
                && final(assignment)@ == old(assignment)@,
            snap matches Some(s) ==> final(assignment)@ == swapped(
                old(assignment)@,
                r1 as int,
                r2 as int,
            ) && ctx.asg_wf(final(assignment)@) && final(self)@.inv(ctx, final(assignment)@)
                && s.pre@ == old(self)@ && undoes(s, final(self)@),
    {
        let k1: u8 = assignment[r1];
        let k2: u8 = assignment[r2];
        if r1 == r2 || !ctx.allowed[r1][k2 as usize] || !ctx.allowed[r2][k1 as usize] {
            return None;
        }

        let ghost pre = self@;
        let ghost old_asg = assignment@;
        let ghost n = ctx.n_items();
        let n_items_exec: usize = self.current_codes.len();
        proof {
            assert(n_items_exec as int == n);
        }

        // Deduplicated union of the items the two roles affect.
        let a1: &Vec<usize> = &ctx.affected[r1];
        let a2: &Vec<usize> = &ctx.affected[r2];
        let mut union_items: Vec<usize> = Vec::new();
        let n1: usize = a1.len();
        for j in 0..n1
            invariant
                union_items@ == a1@.take(j as int),
        {
            union_items.push(a1[j]);
        }
        proof {
            assert(union_items@ =~= a1@);
            assert forall|jj: int| 0 <= jj < a1@.len() implies union_items@.contains(#[trigger]
            a1@[jj]) by {
                assert(union_items@[jj] == a1@[jj]);
            }
        }
        let n2: usize = a2.len();
        for j in 0..n2
            invariant
                nodup(union_items@),
                forall|jj: int|
                    0 <= jj < union_items@.len() ==> (#[trigger] union_items@[jj]) < n,
                forall|jj: int|
                    0 <= jj < a1@.len() ==> union_items@.contains(#[trigger] a1@[jj]),
                forall|jj: int| 0 <= jj < j ==> union_items@.contains(#[trigger] a2@[jj]),
        {
            let it: usize = a2[j];
            if !vec_contains(&union_items, it) {
                proof {
                    assert forall|jj: int|
                        0 <= jj < a1@.len() implies union_items@.push(it).contains(#[trigger]
                    a1@[jj]) by {
                        lemma_contains_push(union_items@, it, a1@[jj]);
                    }
                    assert forall|jj: int| 0 <= jj < j implies union_items@.push(it).contains(
                        #[trigger] a2@[jj],
                    ) by {
                        lemma_contains_push(union_items@, it, a2@[jj]);
                    }
                    assert(union_items@.push(it)[union_items@.len() as int] == it);
                }
                union_items.push(it);
            } else {
                proof {
                    assert forall|jj: int| 0 <= jj < j + 1 implies union_items@.contains(
                        #[trigger] a2@[jj],
                    ) by {}
                }
            }
        }
        let ghost aff = union_items@;

        // Swap the two assignment entries.
        assignment.set(r1, k2);
        assignment.set(r2, k1);
        let ghost sw = assignment@;
        proof {
            assert(sw == swapped(old_asg, r1 as int, r2 as int));
            assert(ctx.asg_wf(sw));
        }

        // Target codes of the affected items under the swapped
        // assignment: the buckets the move can enter.
        let mut entered: Vec<usize> = Vec::new();
        let nu: usize = union_items.len();
        for j in 0..nu
            invariant
                entered@.len() == j,
                forall|jj: int|
                    0 <= jj < j ==> (#[trigger] entered@[jj]) as int == ctx.derive_code(
                        sw,
                        aff[jj] as int,
                    ) && entered@[jj] < ctx.num_codes,
        {
            let r: (usize, Vec<u8>) = ctx.calc_code_and_keys(union_items[j], assignment);
            entered.push(r.0);
        }

        let snap = self.create_swap_snapshot(&union_items, &entered);
        self.update_swap_diff_fast(ctx, assignment, &union_items);

        proof {
            // Unaffected items derive the same keys under the swapped
            // assignment, so the caches match it everywhere.
            assert forall|i: int|
                0 <= i < n && !aff.contains(i as usize) implies ctx.derive_keys(sw, i)
                == ctx.derive_keys(old_asg, i) by {
                assert forall|j: int| 0 <= j < ctx.roles_of(i).len() implies sw[(#[trigger]
                ctx.roles_of(i)[j]) as int] == old_asg[ctx.roles_of(i)[j] as int] by {
                    if ctx.roles_of(i)[j] == r1 {
                        let w = choose|jj: int|
                            0 <= jj < a1@.len() && a1@[jj] == i as usize;
                        assert(union_items@.contains(a1@[w]));
                        assert(false);
                    }
                    if ctx.roles_of(i)[j] == r2 {
                        let w = choose|jj: int|
                            0 <= jj < a2@.len() && a2@[jj] == i as usize;
                        assert(union_items@.contains(a2@[w]));
                        assert(false);
                    }
                }
                assert(ctx.derive_keys(sw, i) =~= ctx.derive_keys(old_asg, i));
            }
            assert forall|i: int| 0 <= i < n implies (#[trigger] self@.keys[i])
                == ctx.derive_keys(sw, i) by {
                if aff.contains(i as usize) {
                    let w = choose|j: int| 0 <= j < aff.len() && aff[j] == i as usize;
                    assert(0 <= w < aff.len() && aff[w] == i as usize);
                    assert(self@.keys[aff[w] as int] == ctx.derive_keys(sw, aff[w] as int));
                } else {
                    assert(self@.keys[i] == pre.keys[i]);
                    assert(pre.keys[i] == ctx.derive_keys(old_asg, i));
                }
            }
            assert(self@.matches_asg(ctx, sw));

            // Rolling the snapshot back reproduces the captured state.
            let post = self@;
            assert forall|i: int|
                0 <= i < pre.codes.len() && post.codes[i] != (#[trigger] pre.codes[i])
                implies entry_covers(snap.codes@, snap.codes@.len() as int, i) by {
                assert(aff.contains(i as usize));
                let w = choose|j: int| 0 <= j < aff.len() && aff[j] == i as usize;
                assert(0 <= w < aff.len() && aff[w] == i as usize);
                assert(snap.codes@[w] == (aff[w], pre.codes[aff[w] as int]));
                assert(snap.codes@[w].0 as int == i);
            }
            lemma_restore_exact(pre.codes, post.codes, snap.codes@);
            assert forall|i: int|
                0 <= i < pre.keys.len() && post.keys[i] != (#[trigger] pre.keys[i])
                implies entry_covers(keys_entries(snap), keys_entries(snap).len() as int, i) by {
                assert(aff.contains(i as usize));
                let w = choose|j: int| 0 <= j < aff.len() && aff[j] == i as usize;
                assert(keys_entries(snap)[w].0 as int == i);
            }
            assert forall|j: int| 0 <= j < keys_entries(snap).len() implies (#[trigger]
            keys_entries(snap)[j]).0 < pre.keys.len() && keys_entries(snap)[j].1 == pre.keys[
                keys_entries(snap)[j].0 as int] by {}
            lemma_restore_exact(pre.keys, post.keys, keys_entries(snap));
            assert forall|i: int|
                0 <= i < pre.equiv_contrib.len() && post.equiv_contrib[i] != (#[trigger]
            pre.equiv_contrib[i]) implies entry_covers(
                snap.equiv_contribs@,
                snap.equiv_contribs@.len() as int,
                i,
            ) by {
                assert(aff.contains(i as usize));
                let w = choose|j: int| 0 <= j < aff.len() && aff[j] == i as usize;
                assert(snap.equiv_contribs@[w].0 as int == i);
            }
            lemma_restore_exact(pre.equiv_contrib, post.equiv_contrib, snap.equiv_contribs@);
            assert forall|i: int|
                0 <= i < pre.sq_contrib.len() && post.sq_contrib[i] != (#[trigger]
            pre.sq_contrib[i]) implies entry_covers(
                snap.equiv_sq_contribs@,
                snap.equiv_sq_contribs@.len() as int,
                i,
            ) by {
                assert(aff.contains(i as usize));
                let w = choose|j: int| 0 <= j < aff.len() && aff[j] == i as usize;
                assert(snap.equiv_sq_contribs@[w].0 as int == i);
            }
            lemma_restore_exact(pre.sq_contrib, post.sq_contrib, snap.equiv_sq_contribs@);
            assert forall|c: int|
                0 <= c < pre.buckets.len() && post.buckets[c] != (#[trigger] pre.buckets[c])
                implies entry_covers(snap.buckets@, snap.buckets@.len() as int, c) by {
                assert(bucket_touched(ctx, pre, sw, aff, c));
                let w = choose|j: int|
                    #![trigger aff[j]]
                    0 <= j < aff.len() && (pre.codes[aff[j] as int] as int == c
                        || ctx.derive_code(sw, aff[j] as int) == c);
                if pre.codes[aff[w] as int] as int == c {
                    assert(snap.buckets@[w].0 as int == c);
                } else {
                    assert(snap.buckets@[aff.len() as int + w].0 as int == c);
                }
            }
            assert forall|j: int| 0 <= j < snap.buckets@.len() implies (#[trigger]
            snap.buckets@[j]).0 < pre.buckets.len() && snap.buckets@[j].1 == pre.buckets[
                snap.buckets@[j].0 as int] by {
                if j >= aff.len() {
                    assert(snap.buckets@[aff.len() as int + (j - aff.len())] == snap.buckets@[j]);
                }
            }
            lemma_restore_exact(pre.buckets, post.buckets, snap.buckets@);
            assert forall|c: int|
                0 <= c < pre.bucket_freqs.len() && post.bucket_freqs[c] != (#[trigger]
            pre.bucket_freqs[c]) implies entry_covers(
                snap.bucket_freqs@,
                snap.bucket_freqs@.len() as int,
                c,
            ) by {
                let bcv = post.buckets[c];
                let bpv = pre.buckets[c];
                assert(c < ctx.num_codes);
                assert(bcv != bpv || post.bucket_freqs[c] != pre.bucket_freqs[c]);
                assert(bucket_touched(ctx, pre, sw, aff, c));
                let w = choose|j: int|
                    #![trigger aff[j]]
                    0 <= j < aff.len() && (pre.codes[aff[j] as int] as int == c
                        || ctx.derive_code(sw, aff[j] as int) == c);
                if pre.codes[aff[w] as int] as int == c {
                    assert(snap.bucket_freqs@[w].0 as int == c);
                } else {
                    assert(snap.bucket_freqs@[aff.len() as int + w].0 as int == c);
                }
            }
            assert forall|j: int| 0 <= j < snap.bucket_freqs@.len() implies (#[trigger]
            snap.bucket_freqs@[j]).0 < pre.bucket_freqs.len() && snap.bucket_freqs@[j].1
                == pre.bucket_freqs[snap.bucket_freqs@[j].0 as int] by {
                if j >= aff.len() {
                    assert(snap.bucket_freqs@[aff.len() as int + (j - aff.len())]
                        == snap.bucket_freqs@[j]);
                }
            }
            lemma_restore_exact(pre.bucket_freqs, post.bucket_freqs, snap.bucket_freqs@);
            assert(restored(post, snap) =~= pre);
        }
        Some(snap)
    }

    /// Commits or rolls back a proposed swap. On rejection the two
    /// assignment entries are exchanged back and the snapshot is
    /// restored, which reproduces the captured pre-move state exactly.
    pub fn resolve_swap(
        &mut self,
        assignment: &mut Vec<u8>,
        r1: usize,
        r2: usize,
        snap: SwapSnapshot,
        accept: bool,
    ) -> (kept: bool)
        requires
            r1 < old(assignment)@.len(),
            r2 < old(assignment)@.len(),
            undoes(snap, old(self)@),
        ensures
            kept == accept,
            accept ==> *final(self) == *old(self) && final(assignment)@ == old(assignment)@,
            !accept ==> final(self)@ == snap.pre@ && final(assignment)@ == swapped(
                old(assignment)@,
                r1 as int,
                r2 as int,
            ),
    {
        if accept {
            true
        } else {
            let ka: u8 = assignment[r1];
            let kb: u8 = assignment[r2];
            assignment.set(r1, kb);
            assignment.set(r2, ka);
            self.restore_swap_snapshot(snap);
            false
        }
    }
}

/// Two consistent states whose caches both match one assignment are
/// equal in every field: the assignment determines the whole Optimizer
/// State. With the involution of swapping, this is the round trip: a
/// swap followed by the inverse swap leaves a state equal to the
/// original.
pub proof fn lemma_state_determined(
    ctx: &OptContext,
    asg: Seq<u8>,
    m1: StateModel,
    m2: StateModel,
)
    requires
        ctx.wf(),
        m1.inv(ctx, asg),
        m2.inv(ctx, asg),
    ensures
        m1 == m2,
{
    assert(m1.keys =~= m2.keys);
    assert(m1.codes =~= m2.codes);
    assert forall|i: int| 0 <= i < ctx.n_items() implies (#[trigger] m1.equiv_contrib[i])
        == m2.equiv_contrib[i] && (#[trigger] m1.sq_contrib[i]) == m2.sq_contrib[i] by {}
    assert(m1.equiv_contrib =~= m2.equiv_contrib);
    assert(m1.sq_contrib =~= m2.sq_contrib);
    assert(m1.buckets =~= m2.buckets);
    assert(m1.bucket_freqs =~= m2.bucket_freqs);
    assert(m1.usage =~= m2.usage);
    assert(m1 =~= m2);
}

/// Performing a swap and then the inverse swap of the same two roles
/// brings the assignment, and with it every field of a consistent
/// state, back to its original value.
pub proof fn lemma_round_trip(
    ctx: &OptContext,
    asg: Seq<u8>,
    r1: int,
    r2: int,
    m0: StateModel,
    m1: StateModel,
)
    requires
        ctx.wf(),
        0 <= r1 < asg.len(),
        0 <= r2 < asg.len(),
        m0.inv(ctx, asg),
        m1.inv(ctx, swapped(swapped(asg, r1, r2), r1, r2)),
    ensures
        m1 == m0,
{
    lemma_swapped_involution(asg, r1, r2);
    lemma_state_determined(ctx, asg, m0, m1);
}

/// Bucket consistency: in any consistent state the incrementally
/// maintained collision totals equal a from-scratch recomputation over
/// the cached codes.
pub proof fn lemma_bucket_consistency(ctx: &OptContext, m: StateModel)
    requires
        m.consistent(ctx),
    ensures
        forall|c: int|
            0 <= c < ctx.num_codes ==> (#[trigger] m.buckets[c]) as int == cnt(
                m.codes,
                c,
                ctx.n_items(),
            ),
        m.total_collisions as int == excess_sum(m.buckets, ctx.num_codes as int),
        m.collision_frequency as int == coll_freq(m.buckets, m.bucket_freqs, ctx.num_codes as int),
{
}

/// Usage consistency: in any consistent state each key's maintained
/// weighted usage equals a from-scratch recomputation over the cached
/// key lists.
pub proof fn lemma_usage_consistency(ctx: &OptContext, m: StateModel)
    requires
        m.consistent(ctx),
    ensures
        forall|k: int|
            0 <= k < ctx.num_keys ==> (#[trigger] m.usage[k]) as int == usage_at(
                m.keys,
                ctx.freqs@,
                k,
                ctx.n_items(),
            ),
        m.total_equiv_weighted as int == sum_u128(m.equiv_contrib, ctx.n_items()),
        m.total_equiv_sq_weighted as int == sum_u128(m.sq_contrib, ctx.n_items()),
{
}

/// The forced-collision move, in general: when a completed move changed
/// exactly one item's code, and both the bucket it left and the bucket
/// it entered held exactly one item beforehand, the collision count
/// rises by exactly one and the collision frequency by the moved item's
/// frequency plus the frequency already in the entered bucket.
pub proof fn lemma_single_move_collision(
    ctx: &OptContext,
    m0: StateModel,
    m1: StateModel,
    i: int,
    new_c: usize,
)
    requires
        ctx.wf(),
        m0.consistent(ctx),
        m1.consistent(ctx),
        0 <= i < ctx.n_items(),
        new_c < ctx.num_codes,
        m0.codes[i] != new_c,
        m1.codes == m0.codes.update(i, new_c),
        m0.buckets[m0.codes[i] as int] == 1,
        m0.buckets[new_c as int] == 1,
    ensures
        m1.total_collisions as int == m0.total_collisions as int + 1,
        m1.collision_frequency as int == m0.collision_frequency as int + ctx.freqs@[i]
            + m0.bucket_freqs[new_c as int],
{
    let n = ctx.n_items();
    let nc = ctx.num_codes as int;
    let old_c = m0.codes[i];
    let f_i = ctx.freqs@[i];
    let bf_old = m0.bucket_freqs[old_c as int];
    let bf_new = m0.bucket_freqs[new_c as int];
    lemma_fsum_ge_elem(m0.codes, ctx.freqs@, old_c as int, i, n);
    assert(bf_old >= f_i);
    assert forall|c: int| 0 <= c < nc implies (#[trigger] m1.buckets[c]) as int == m0.buckets[c]
        + (if c == new_c as int {
        1int
    } else {
        0int
    }) - (if c == old_c as int {
        1int
    } else {
        0int
    }) by {
        lemma_cnt_update(m0.codes, c, i, new_c, n);
    }
    assert forall|c: int| 0 <= c < nc implies (#[trigger] m1.bucket_freqs[c]) as int
        == m0.bucket_freqs[c] + (if c == new_c as int {
        f_i as int
    } else {
        0int
    }) - (if c == old_c as int {
        f_i as int
    } else {
        0int
    }) by {
        lemma_fsum_update(m0.codes, ctx.freqs@, c, i, new_c, n);
    }
    let b1 = m0.buckets.update(old_c as int, 0usize).update(new_c as int, 2usize);
    let f1 = m0.bucket_freqs.update(old_c as int, (bf_old - f_i) as u64).update(
        new_c as int,
        (bf_new + f_i) as u64,
    );
    assert(m1.bucket_freqs[new_c as int] as int == bf_new + f_i);
    assert(m1.buckets =~= b1);
    assert(m1.bucket_freqs =~= f1);
    lemma_excess_sum_update(m0.buckets, old_c as int, 0usize, nc);
    lemma_excess_sum_update(m0.buckets.update(old_c as int, 0usize), new_c as int, 2usize, nc);
    lemma_coll_freq_update(
        m0.buckets,
        m0.bucket_freqs,
        old_c as int,
        0usize,
        (bf_old - f_i) as u64,
        nc,
    );
    lemma_coll_freq_update(
        m0.buckets.update(old_c as int, 0usize),
        m0.bucket_freqs.update(old_c as int, (bf_old - f_i) as u64),
        new_c as int,
        2usize,
        (bf_new + f_i) as u64,
        nc,
    );
}

} // verus!
