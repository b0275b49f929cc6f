//! The bucket delta engine and the incremental diff updater: the two
//! routines that translate a batch of item code changes into updated
//! buckets and aggregates in one pass.

use vstd::prelude::*;

use crate::context::OptContext;
use crate::sums::{
    cnt, coll_freq, excess_sum, fsum, lemma_cnt_update, lemma_coll_freq_le_sum,
    lemma_coll_freq_nonneg, lemma_coll_freq_update, lemma_cnt_ge_one, lemma_code_upto_injective,
    lemma_excess_sum_le_sum, lemma_excess_sum_nonneg, lemma_excess_sum_update, lemma_fsum_ge_elem,
    lemma_fsum_update, lemma_occ_mono, lemma_sum_u128_ge_elem, lemma_sum_u128_update,
    lemma_sum_u128_weighted, lemma_sum_u64_two_elems, lemma_sum_u64_update,
    lemma_sum_usize_two_elems, lemma_sum_usize_update, lemma_usage_at_bound,
    lemma_usage_at_ge_elem, lemma_usage_at_update, nodup, occ, sum_u64, usage_at,
};
use crate::state::{OptimizerState, StateModel};
use crate::{EQUIV_LIMIT, FREQ_TOTAL_LIMIT, MAX_PARTS};

verus! {

/// `m` with the four scalar aggregates replaced.
pub open spec fn with_scalars(m: StateModel, tc: usize, cf: u64, te: u128, ts: u128) -> StateModel {
    StateModel {
        total_collisions: tc,
        collision_frequency: cf,
        total_equiv_weighted: te,
        total_equiv_sq_weighted: ts,
        ..m
    }
}

/// Bucket `c` is one that moving the listed items can have touched: the
/// old or the new code of some affected item.
pub open spec fn bucket_touched(
    ctx: &OptContext,
    pre: StateModel,
    asg: Seq<u8>,
    aff: Seq<usize>,
    c: int,
) -> bool {
    exists|j: int|
        #![trigger aff[j]]
        0 <= j < aff.len() && (pre.codes[aff[j] as int] as int == c || ctx.derive_code(
            asg,
            aff[j] as int,
        ) == c)
}


/// Item `i2` is not among the first `m` entries of `aff`.
pub open spec fn not_in_prefix(aff: Seq<usize>, m: int, i2: int) -> bool {
    forall|j2: int| #![trigger aff[j2]] 0 <= j2 < m ==> aff[j2] != i2 as usize
}

/// Items outside the first `m` listed ones keep their cached state.
pub open spec fn frame_ok(pre: StateModel, cur: StateModel, aff: Seq<usize>, m: int, n: int) -> bool {
    forall|i2: int|
        #![trigger not_in_prefix(aff, m, i2)]
        0 <= i2 < n && not_in_prefix(aff, m, i2) ==> cur.keys[i2] == pre.keys[i2]
            && cur.codes[i2] == pre.codes[i2] && cur.equiv_contrib[i2] == pre.equiv_contrib[i2]
            && cur.sq_contrib[i2] == pre.sq_contrib[i2]
}

/// Every bucket that changed is one the first `m` listed items touched.
pub open spec fn coverage_ok(
    ctx: &OptContext,
    pre: StateModel,
    cur: StateModel,
    asg: Seq<u8>,
    aff: Seq<usize>,
    m: int,
    ncodes: int,
) -> bool {
    forall|c: int|
        0 <= c < ncodes && (cur.buckets[c] != (#[trigger] pre.buckets[c])
            || cur.bucket_freqs[c] != pre.bucket_freqs[c]) ==> bucket_touched(
            ctx,
            pre,
            asg,
            aff.take(m),
            c,
        )
}

/// Reads one touched bucket out of a coverage fact.
proof fn lemma_coverage_obtain(
    ctx: &OptContext,
    pre: StateModel,
    cur: StateModel,
    asg: Seq<u8>,
    aff: Seq<usize>,
    m: int,
    ncodes: int,
    c: int,
)
    requires
        coverage_ok(ctx, pre, cur, asg, aff, m, ncodes),
        0 <= c < ncodes,
        cur.buckets[c] != pre.buckets[c] || cur.bucket_freqs[c] != pre.bucket_freqs[c],
    ensures
        bucket_touched(ctx, pre, asg, aff.take(m), c),
{
    assert(pre.buckets[c] == pre.buckets[c]);
}

/// Bucket coverage is kept when the item list grows and the state is
/// unchanged.
proof fn lemma_coverage_mono(
    ctx: &OptContext,
    pre: StateModel,
    cur: StateModel,
    asg: Seq<u8>,
    aff: Seq<usize>,
    m1: int,
    m2: int,
    ncodes: int,
)
    requires
        0 <= m1 <= m2 <= aff.len(),
        coverage_ok(ctx, pre, cur, asg, aff, m1, ncodes),
    ensures
        coverage_ok(ctx, pre, cur, asg, aff, m2, ncodes),
{
    assert forall|c: int|
        0 <= c < ncodes && (cur.buckets[c] != (#[trigger] pre.buckets[c]) || cur.bucket_freqs[c]
            != pre.bucket_freqs[c]) implies bucket_touched(ctx, pre, asg, aff.take(m2), c) by {
        lemma_coverage_obtain(ctx, pre, cur, asg, aff, m1, ncodes, c);
        lemma_touched_mono(ctx, pre, asg, aff, m1, m2, c);
    }
}

/// A touched bucket stays touched when the item list grows.
proof fn lemma_touched_mono(
    ctx: &OptContext,
    pre: StateModel,
    asg: Seq<u8>,
    aff: Seq<usize>,
    m1: int,
    m2: int,
    c: int,
)
    requires
        0 <= m1 <= m2 <= aff.len(),
        bucket_touched(ctx, pre, asg, aff.take(m1), c),
    ensures
        bucket_touched(ctx, pre, asg, aff.take(m2), c),
{
    let s1 = aff.take(m1);
    let s2 = aff.take(m2);
    let w = choose|j: int|
        #![trigger s1[j]]
        0 <= j < s1.len() && (pre.codes[s1[j] as int] as int == c || ctx.derive_code(
            asg,
            s1[j] as int,
        ) == c);
    assert(s2[w] == s1[w]);
}

/// Item `j` of the list names bucket `c`, so `c` is touched.
proof fn lemma_touched_at(
    ctx: &OptContext,
    pre: StateModel,
    asg: Seq<u8>,
    aff: Seq<usize>,
    m: int,
    j: int,
    c: int,
)
    requires
        0 <= j < m <= aff.len(),
        pre.codes[aff[j] as int] as int == c || ctx.derive_code(asg, aff[j] as int) == c,
    ensures
        bucket_touched(ctx, pre, asg, aff.take(m), c),
{
    let s = aff.take(m);
    assert(s[j] == aff[j]);
}

/// Every cached contribution is bounded by the equivalence limit times
/// the item's frequency.
proof fn lemma_model_contrib_bounds(m: StateModel, ctx: &OptContext)
    requires
        ctx.wf(),
        m.cache_wf(ctx),
    ensures
        forall|i: int|
            0 <= i < ctx.n_items() ==> (#[trigger] m.equiv_contrib[i]) as int <= (EQUIV_LIMIT
                as int) * ctx.freqs@[i],
        forall|i: int|
            0 <= i < ctx.n_items() ==> (#[trigger] m.sq_contrib[i]) as int <= 68719476736
                * ctx.freqs@[i],
{
    assert forall|i: int| 0 <= i < ctx.n_items() implies ((#[trigger] m.equiv_contrib[i]) as int
        <= (EQUIV_LIMIT as int) * ctx.freqs@[i]) && ((m.sq_contrib[i]) as int
        <= 68719476736 * ctx.freqs@[i]) by {
        assert(ctx.roles_of(i).len() <= MAX_PARTS);
        assert(m.keys[i].len() <= MAX_PARTS);
        crate::sums::lemma_equiv_upto_bounds(
            ctx.key_cost@,
            m.keys[i],
            crate::COST_LIMIT as int,
            m.keys[i].len() as int,
        );
        let ei = ctx.equiv_of(m.keys[i]);
        let fi = ctx.freqs@[i] as int;
        assert(m.keys[i].len() as int * (crate::COST_LIMIT as int) <= 262144) by (nonlinear_arith)
            requires
                0 <= m.keys[i].len() as int <= 4,
        ;
        assert(ei * fi <= 262144 * fi) by (nonlinear_arith)
            requires
                0 <= ei <= 262144,
                fi >= 0,
        ;
        assert(ei * ei * fi <= 68719476736 * fi) by (nonlinear_arith)
            requires
                0 <= ei <= 262144,
                fi >= 0,
        ;
    }
    assert forall|i: int| 0 <= i < ctx.n_items() implies (#[trigger] m.sq_contrib[i]) as int
        <= 68719476736 * ctx.freqs@[i] by {
        assert(m.equiv_contrib[i] as int <= (EQUIV_LIMIT as int) * ctx.freqs@[i]);
    }
}

impl OptimizerState {
    /// Moves one item of frequency `freq` from `old_code`'s bucket to
    /// `new_code`'s, and returns the signed changes this makes to the
    /// collision count and to the collision frequency.
    pub fn update_buckets_for_char(&mut self, old_code: usize, new_code: usize, freq: u64) -> (r: (
        isize,
        i64,
    ))
        requires
            old_code != new_code,
            old_code < old(self).buckets@.len(),
            new_code < old(self).buckets@.len(),
            old(self).bucket_freqs@.len() == old(self).buckets@.len(),
            old(self).buckets@[old_code as int] >= 1,
            old(self).buckets@[new_code as int] < usize::MAX,
            old(self).bucket_freqs@[old_code as int] >= freq,
            old(self).bucket_freqs@[old_code as int] <= FREQ_TOTAL_LIMIT,
            old(self).bucket_freqs@[new_code as int] + freq <= FREQ_TOTAL_LIMIT,
        ensures
            final(self).buckets@ == old(self).buckets@.update(
                old_code as int,
                (old(self).buckets@[old_code as int] - 1) as usize,
            ).update(new_code as int, (old(self).buckets@[new_code as int] + 1) as usize),
            final(self).bucket_freqs@ == old(self).bucket_freqs@.update(
                old_code as int,
                (old(self).bucket_freqs@[old_code as int] - freq) as u64,
            ).update(new_code as int, (old(self).bucket_freqs@[new_code as int] + freq) as u64),
            final(self).current_codes == old(self).current_codes,
            final(self).current_keys == old(self).current_keys,
            final(self).current_equiv_contrib == old(self).current_equiv_contrib,
            final(self).current_equiv_sq_contrib == old(self).current_equiv_sq_contrib,
            final(self).total_collisions == old(self).total_collisions,
            final(self).collision_frequency == old(self).collision_frequency,
            final(self).total_equiv_weighted == old(self).total_equiv_weighted,
            final(self).total_equiv_sq_weighted == old(self).total_equiv_sq_weighted,
            final(self).key_weighted_usage == old(self).key_weighted_usage,
            -1 <= r.0 <= 1,
            r.0 as int == excess_sum(final(self).buckets@, old(self).buckets@.len() as int)
                - excess_sum(old(self).buckets@, old(self).buckets@.len() as int),
            r.1 as int == coll_freq(
                final(self).buckets@,
                final(self).bucket_freqs@,
                old(self).buckets@.len() as int,
            ) - coll_freq(
                old(self).buckets@,
                old(self).bucket_freqs@,
                old(self).buckets@.len() as int,
            ),
    {
        let mut collision_delta: isize = 0;
        let mut freq_delta: i64 = 0;

        let old_count: usize = self.buckets[old_code];
        let old_fs: u64 = self.bucket_freqs[old_code];
        if old_count > 1 {
            collision_delta = -1;
            freq_delta = -(freq as i64);
            if old_count == 2 {
                freq_delta = freq_delta - ((old_fs - freq) as i64);
            }
        }
        self.buckets.set(old_code, old_count - 1);
        self.bucket_freqs.set(old_code, old_fs - freq);

        let new_count: usize = self.buckets[new_code];
        let new_fs: u64 = self.bucket_freqs[new_code];
        if new_count >= 1 {
            collision_delta = collision_delta + 1;
            freq_delta = freq_delta + (freq as i64);
            if new_count == 1 {
                freq_delta = freq_delta + (new_fs as i64);
            }
        }
        self.buckets.set(new_code, new_count + 1);
        self.bucket_freqs.set(new_code, new_fs + freq);

        proof {
            let b0 = old(self).buckets@;
            let f0 = old(self).bucket_freqs@;
            let oc = old_code as int;
            let nc = new_code as int;
            let m = b0.len() as int;
            let b1 = b0.update(oc, (old_count - 1) as usize);
            let f1 = f0.update(oc, (old_fs - freq) as u64);
            lemma_excess_sum_update(b0, oc, (old_count - 1) as usize, m);
            lemma_excess_sum_update(b1, nc, (new_count + 1) as usize, m);
            lemma_coll_freq_update(b0, f0, oc, (old_count - 1) as usize, (old_fs - freq) as u64, m);
            lemma_coll_freq_update(
                b1,
                f1,
                nc,
                (new_count + 1) as usize,
                (new_fs + freq) as u64,
                m,
            );
        }
        (collision_delta, freq_delta)
    }

    /// Applies the pending code and key changes of the listed items to
    /// the caches, buckets and aggregates, accumulating the scalar
    /// aggregates locally and writing them back once at the end.
    ///
    /// Items whose derived code is unchanged are skipped entirely: the
    /// radix code determines the key list, so nothing of theirs moved.
    #[verifier::loop_isolation(false)]
    #[verifier::rlimit(100)]
    pub fn update_swap_diff_fast(
        &mut self,
        ctx: &OptContext,
        assignment: &Vec<u8>,
        affected_items: &Vec<usize>,
    )
        requires
            ctx.wf(),
            old(self)@.consistent(ctx),
            assignment@.len() == ctx.n_roles(),
            forall|r: int|
                0 <= r < ctx.n_roles() ==> (#[trigger] assignment@[r]) < ctx.num_keys,
            nodup(affected_items@),
            forall|j: int|
                0 <= j < affected_items@.len() ==> (#[trigger] affected_items@[j])
                    < ctx.n_items(),
        ensures
            final(self)@.consistent(ctx),
            forall|j: int|
                0 <= j < affected_items@.len() ==> final(self)@.keys[(#[trigger]
                affected_items@[j]) as int] == ctx.derive_keys(
                    assignment@,
                    affected_items@[j] as int,
                ),
            forall|i: int|
                0 <= i < ctx.n_items() && !affected_items@.contains(i as usize) ==> (#[trigger]
                final(self)@.keys[i]) == old(self)@.keys[i] && final(self)@.codes[i] == old(
                    self,
                )@.codes[i] && final(self)@.equiv_contrib[i] == old(self)@.equiv_contrib[i]
                    && final(self)@.sq_contrib[i] == old(self)@.sq_contrib[i],
            forall|c: int|
                0 <= c < ctx.num_codes && ((#[trigger] final(self)@.buckets[c]) != old(
                    self,
                )@.buckets[c] || final(self)@.bucket_freqs[c] != old(self)@.bucket_freqs[c])
                    ==> bucket_touched(ctx, old(self)@, assignment@, affected_items@, c),
    {
        let ghost pre = old(self)@;
        let ghost n = ctx.n_items();
        let ghost ncodes = ctx.num_codes as int;
        let ghost aff = affected_items@;
        let n_aff: usize = affected_items.len();
        let n_items_exec: usize = self.current_codes.len();
        proof {
            assert(n_items_exec as int == n);
        }

        let mut local_collisions: usize = self.total_collisions;
        let mut local_collision_freq: u64 = self.collision_frequency;
        let mut local_equiv: u128 = self.total_equiv_weighted;
        let mut local_sq: u128 = self.total_equiv_sq_weighted;

        for jj in 0..n_aff
            invariant
                with_scalars(
                    self@,
                    local_collisions,
                    local_collision_freq,
                    local_equiv,
                    local_sq,
                ).consistent(ctx),
                self.total_collisions == pre.total_collisions,
                self.collision_frequency == pre.collision_frequency,
                self.total_equiv_weighted == pre.total_equiv_weighted,
                self.total_equiv_sq_weighted == pre.total_equiv_sq_weighted,
                forall|j: int|
                    0 <= j < jj ==> self@.keys[(#[trigger] aff[j]) as int] == ctx.derive_keys(
                        assignment@,
                        aff[j] as int,
                    ),
                frame_ok(pre, self@, aff, jj as int, n),
                coverage_ok(ctx, pre, self@, assignment@, aff, jj as int, ncodes),
        {
            let i: usize = affected_items[jj];
            let old_code: usize = self.current_codes[i];
            let (new_code, new_keys) = ctx.calc_code_and_keys(i, assignment);
            let ghost km = with_scalars(
                self@,
                local_collisions,
                local_collision_freq,
                local_equiv,
                local_sq,
            );
            let ghost nl = new_keys@;
            proof {
                assert(forall|j2: int| 0 <= j2 < jj ==> aff[j2] != aff[jj as int]);
            }
            if old_code != new_code {
                let freq: u64 = ctx.freqs[i];
                proof {
                    lemma_cnt_ge_one(km.codes, old_code as int, i as int, n);
                    lemma_fsum_ge_elem(km.codes, ctx.freqs@, old_code as int, i as int, n);
                    lemma_sum_usize_two_elems(km.buckets, old_code as int, new_code as int, ncodes);
                    lemma_sum_u64_two_elems(
                        km.bucket_freqs,
                        old_code as int,
                        new_code as int,
                        ncodes,
                    );
                    crate::sums::lemma_fsum_nonneg(km.codes, ctx.freqs@, new_code as int, n);
                    crate::sums::lemma_sum_u64_nonneg(km.bucket_freqs, ncodes);
                }
                let (cd, fd) = self.update_buckets_for_char(old_code, new_code, freq);
                let ghost b2 = self@.buckets;
                let ghost f2 = self@.bucket_freqs;
                proof {
                    lemma_sum_usize_update(
                        km.buckets,
                        old_code as int,
                        (km.buckets[old_code as int] - 1) as usize,
                        ncodes,
                    );
                    lemma_sum_usize_update(
                        km.buckets.update(
                            old_code as int,
                            (km.buckets[old_code as int] - 1) as usize,
                        ),
                        new_code as int,
                        (km.buckets[new_code as int] + 1) as usize,
                        ncodes,
                    );
                    lemma_sum_u64_update(
                        km.bucket_freqs,
                        old_code as int,
                        (km.bucket_freqs[old_code as int] - freq) as u64,
                        ncodes,
                    );
                    lemma_sum_u64_update(
                        km.bucket_freqs.update(
                            old_code as int,
                            (km.bucket_freqs[old_code as int] - freq) as u64,
                        ),
                        new_code as int,
                        (km.bucket_freqs[new_code as int] + freq) as u64,
                        ncodes,
                    );
                    lemma_excess_sum_nonneg(b2, ncodes);
                    lemma_excess_sum_le_sum(b2, ncodes);
                    lemma_coll_freq_nonneg(b2, f2, ncodes);
                    lemma_coll_freq_le_sum(b2, f2, ncodes);
                    lemma_coll_freq_nonneg(km.buckets, km.bucket_freqs, ncodes);
                    lemma_coll_freq_le_sum(km.buckets, km.bucket_freqs, ncodes);
                    crate::sums::lemma_sum_u64_nonneg(f2, ncodes);
                }
                if cd == 1 {
                    local_collisions = local_collisions + 1;
                } else if cd == -1 {
                    local_collisions = local_collisions - 1;
                }
                if fd >= 0 {
                    local_collision_freq = local_collision_freq + (fd as u64);
                } else {
                    local_collision_freq = local_collision_freq - ((-fd) as u64);
                }

                let e: u64 = ctx.calc_key_equiv(&new_keys);
                let old_ec: u128 = self.current_equiv_contrib[i];
                let old_sqc: u128 = self.current_equiv_sq_contrib[i];
                proof {
                    let ei = e as int;
                    let fi = freq as int;
                    assert(ei * fi <= 262144 * 0xffff_ffff_ffff_ffff) by (nonlinear_arith)
                        requires
                            0 <= ei <= 262144,
                            0 <= fi <= 0xffff_ffff_ffff_ffff,
                    ;
                    assert(ei * ei <= 68719476736) by (nonlinear_arith)
                        requires
                            0 <= ei <= 262144,
                    ;
                    assert(ei * ei * fi <= 68719476736 * 0xffff_ffff_ffff_ffff) by (nonlinear_arith)
                        requires
                            0 <= ei <= 262144,
                            0 <= fi <= 0xffff_ffff_ffff_ffff,
                    ;
                }
                let new_ec: u128 = (e as u128) * (freq as u128);
                let new_sqc: u128 = (e as u128) * (e as u128) * (freq as u128);
                proof {
                    lemma_model_contrib_bounds(km, ctx);
                    lemma_sum_u128_ge_elem(km.equiv_contrib, i as int, n);
                    lemma_sum_u128_ge_elem(km.sq_contrib, i as int, n);
                    lemma_sum_u128_update(km.equiv_contrib, i as int, new_ec, n);
                    lemma_sum_u128_update(km.sq_contrib, i as int, new_sqc, n);
                    let ec2 = km.equiv_contrib.update(i as int, new_ec);
                    let sq2 = km.sq_contrib.update(i as int, new_sqc);
                    assert forall|ii: int| 0 <= ii < n implies (#[trigger] ec2[ii]) as int
                        <= (EQUIV_LIMIT as int) * ctx.freqs@[ii] by {
                        if ii == i as int {
                            let ei = e as int;
                            let fi = freq as int;
                            assert(ei * fi <= 262144 * fi) by (nonlinear_arith)
                                requires
                                    0 <= ei <= 262144,
                                    fi >= 0,
                            ;
                        }
                    }
                    assert forall|ii: int| 0 <= ii < n implies (#[trigger] sq2[ii]) as int
                        <= 68719476736 * ctx.freqs@[ii] by {
                        if ii == i as int {
                            let ei = e as int;
                            let fi = freq as int;
                            assert(ei * ei * fi <= 68719476736 * fi) by (nonlinear_arith)
                                requires
                                    0 <= ei <= 262144,
                                    fi >= 0,
                            ;
                        }
                    }
                    lemma_sum_u128_weighted(ec2, ctx.freqs@, EQUIV_LIMIT as int, n);
                    lemma_sum_u128_weighted(sq2, ctx.freqs@, 68719476736, n);
                }
                local_equiv = local_equiv - old_ec + new_ec;
                local_sq = local_sq - old_sqc + new_sqc;
                self.current_equiv_contrib.set(i, new_ec);
                self.current_equiv_sq_contrib.set(i, new_sqc);

                // Subtract the item's frequency from every key of the old
                // list, then add it for every key of the new list.
                let ghost km_keys = km.keys;
                let ghost old_list = km.keys[i as int];
                let ghost km_mid = km.keys.update(i as int, Seq::<u8>::empty());
                let li: usize = self.current_keys[i].len();
                for j in 0..li
                    invariant
                        self.key_weighted_usage@.len() == ctx.num_keys,
                        forall|k: int|
                            0 <= k < ctx.num_keys ==> (#[trigger] self.key_weighted_usage@[k]) as int
                                == usage_at(km_keys, ctx.freqs@, k, n) - (freq as int) * occ(
                                old_list,
                                k,
                                j as int,
                            ),
                        self@.codes == km.codes,
                        self@.keys == km_keys,
                        self@.equiv_contrib == km.equiv_contrib.update(i as int, new_ec),
                        self@.sq_contrib == km.sq_contrib.update(i as int, new_sqc),
                        self@.buckets == b2,
                        self@.bucket_freqs == f2,
                        self.total_collisions == pre.total_collisions,
                        self.collision_frequency == pre.collision_frequency,
                        self.total_equiv_weighted == pre.total_equiv_weighted,
                        self.total_equiv_sq_weighted == pre.total_equiv_sq_weighted,
                {
                    let kk: u8 = self.current_keys[i][j];
                    let u: u128 = self.key_weighted_usage[kk as usize];
                    proof {
                        let ki = kk as int;
                        lemma_usage_at_ge_elem(km_keys, ctx.freqs@, ki, i as int, n);
                        lemma_occ_mono(old_list, ki, j + 1, old_list.len() as int);
                        assert((freq as int) * occ(old_list, ki, j + 1) == (freq as int) * occ(
                            old_list,
                            ki,
                            j as int,
                        ) + freq) by (nonlinear_arith)
                            requires
                                occ(old_list, ki, j + 1) == occ(old_list, ki, j as int) + 1,
                        ;
                        assert((freq as int) * occ(old_list, ki, j + 1) <= (freq as int) * occ(
                            old_list,
                            ki,
                            old_list.len() as int,
                        )) by (nonlinear_arith)
                            requires
                                occ(old_list, ki, j + 1) <= occ(old_list, ki, old_list.len() as int),
                                freq as int >= 0,
                        ;
                    }
                    self.key_weighted_usage.set(kk as usize, u - (freq as u128));
                }
                proof {
                    assert forall|k: int| 0 <= k < ctx.num_keys implies (#[trigger]
                        self.key_weighted_usage@[k]) as int == usage_at(km_mid, ctx.freqs@, k, n) by {
                        lemma_usage_at_update(km_keys, ctx.freqs@, k, i as int, Seq::<u8>::empty(), n);
                    }
                }
                let ln: usize = new_keys.len();
                for j in 0..ln
                    invariant
                        self.key_weighted_usage@.len() == ctx.num_keys,
                        forall|k: int|
                            0 <= k < ctx.num_keys ==> (#[trigger] self.key_weighted_usage@[k]) as int
                                == usage_at(km_mid, ctx.freqs@, k, n) + (freq as int) * occ(
                                nl,
                                k,
                                j as int,
                            ),
                        self@.codes == km.codes,
                        self@.keys == km_keys,
                        self@.equiv_contrib == km.equiv_contrib.update(i as int, new_ec),
                        self@.sq_contrib == km.sq_contrib.update(i as int, new_sqc),
                        self@.buckets == b2,
                        self@.bucket_freqs == f2,
                        self.total_collisions == pre.total_collisions,
                        self.collision_frequency == pre.collision_frequency,
                        self.total_equiv_weighted == pre.total_equiv_weighted,
                        self.total_equiv_sq_weighted == pre.total_equiv_sq_weighted,
                {
                    let kk: u8 = new_keys[j];
                    let u: u128 = self.key_weighted_usage[kk as usize];
                    proof {
                        let ki = kk as int;
                        let km_next = km_mid.update(i as int, nl);
                        lemma_usage_at_update(km_mid, ctx.freqs@, ki, i as int, nl, n);
                        crate::sums::lemma_usage_at_nonneg(km_mid, ctx.freqs@, ki, n);
                        lemma_occ_mono(nl, ki, j + 1, nl.len() as int);
                        assert((freq as int) * occ(nl, ki, j + 1) == (freq as int) * occ(nl, ki, j as int)
                            + freq) by (nonlinear_arith)
                            requires
                                occ(nl, ki, j + 1) == occ(nl, ki, j as int) + 1,
                        ;
                        assert((freq as int) * occ(nl, ki, j + 1) <= (freq as int) * occ(
                            nl,
                            ki,
                            nl.len() as int,
                        )) by (nonlinear_arith)
                            requires
                                occ(nl, ki, j + 1) <= occ(nl, ki, nl.len() as int),
                                freq as int >= 0,
                        ;
                        assert forall|ii: int| 0 <= ii < n implies (#[trigger] km_next[ii]).len()
                            <= MAX_PARTS as int by {
                            ctx.lemma_derive_keys_wf(assignment@, i as int);
                        }
                        lemma_usage_at_bound(km_next, ctx.freqs@, ki, MAX_PARTS as int, n);
                    }
                    self.key_weighted_usage.set(kk as usize, u + (freq as u128));
                }

                self.current_codes.set(i, new_code);
                self.current_keys.set(i, new_keys);

                proof {
                    let km2 = with_scalars(
                        self@,
                        local_collisions,
                        local_collision_freq,
                        local_equiv,
                        local_sq,
                    );
                    assert(km2.keys =~= km_keys.update(i as int, nl));
                    assert(km2.codes == km.codes.update(i as int, new_code));
                    // buckets agree with the updated codes
                    assert forall|c: int| 0 <= c < ncodes implies (#[trigger] km2.buckets[c]) as int
                        == cnt(km2.codes, c, n) by {
                        lemma_cnt_update(km.codes, c, i as int, new_code, n);
                    }
                    assert forall|c: int| 0 <= c < ncodes implies (#[trigger] km2.bucket_freqs[c])
                        as int == fsum(km2.codes, ctx.freqs@, c, n) by {
                        lemma_fsum_update(km.codes, ctx.freqs@, c, i as int, new_code, n);
                    }
                    // usage agrees with the updated key lists
                    assert forall|k: int| 0 <= k < ctx.num_keys implies (#[trigger] km2.usage[k]) as int
                        == usage_at(km2.keys, ctx.freqs@, k, n) by {
                        lemma_usage_at_update(km_mid, ctx.freqs@, k, i as int, nl, n);
                        assert(km_mid.update(i as int, nl) =~= km2.keys);
                    }
                    assert(km2.cache_wf(ctx));
                    assert(km2.buckets_wf(ctx));
                    assert(km2.aggregates_wf(ctx));
                    assert forall|i2: int|
                        #![trigger not_in_prefix(aff, jj as int + 1, i2)]
                        0 <= i2 < n && not_in_prefix(aff, jj as int + 1, i2)
                        implies self@.keys[i2] == pre.keys[i2] && self@.codes[i2]
                        == pre.codes[i2] && self@.equiv_contrib[i2] == pre.equiv_contrib[i2]
                        && self@.sq_contrib[i2] == pre.sq_contrib[i2] by {
                        assert(aff[jj as int] != i2 as usize);
                        assert(not_in_prefix(aff, jj as int, i2));
                        assert(i2 != i as int);
                        assert(km2.keys[i2] == km.keys[i2]);
                        assert(km.codes[i2] == pre.codes[i2]);
                        assert(km.keys[i2] == pre.keys[i2]);
                        assert(km.equiv_contrib[i2] == pre.equiv_contrib[i2]);
                        assert(km.sq_contrib[i2] == pre.sq_contrib[i2]);
                    }
                    assert(frame_ok(pre, self@, aff, jj as int + 1, n));
                    // touched buckets
                    assert(not_in_prefix(aff, jj as int, i as int));
                    assert(km.codes[i as int] == pre.codes[i as int]);
                    assert forall|c: int|
                        0 <= c < ncodes && (km2.buckets[c] != (#[trigger] pre.buckets[c])
                            || km2.bucket_freqs[c] != pre.bucket_freqs[c]) implies bucket_touched(
                        ctx,
                        pre,
                        assignment@,
                        aff.take(jj as int + 1),
                        c,
                    ) by {
                        if km.buckets[c] != pre.buckets[c] || km.bucket_freqs[c] != pre.bucket_freqs[c] {
                            lemma_touched_mono(
                                ctx,
                                pre,
                                assignment@,
                                aff,
                                jj as int,
                                jj as int + 1,
                                c,
                            );
                        } else {
                            assert(c == old_code as int || c == new_code as int);
                            lemma_touched_at(
                                ctx,
                                pre,
                                assignment@,
                                aff,
                                jj as int + 1,
                                jj as int,
                                c,
                            );
                        }
                    }
                    assert(coverage_ok(ctx, pre, self@, assignment@, aff, jj as int + 1, ncodes));
                }
            } else {
                    proof {
                        // The radix code is injective on lists of one length,
                        // so the cached list already equals the derived one.
                        lemma_code_upto_injective(
                            km.keys[i as int],
                            nl,
                            ctx.num_keys as int,
                            nl.len() as int,
                        );
                        assert(km.keys[i as int] =~= nl);
                        assert forall|i2: int|
                            #![trigger not_in_prefix(aff, jj as int + 1, i2)]
                            0 <= i2 < n && not_in_prefix(aff, jj as int + 1, i2)
                            implies self@.keys[i2] == pre.keys[i2]
                            && self@.codes[i2] == pre.codes[i2] && self@.equiv_contrib[i2]
                            == pre.equiv_contrib[i2] && self@.sq_contrib[i2]
                            == pre.sq_contrib[i2] by {
                            assert(aff[jj as int] != i2 as usize);
                            assert(not_in_prefix(aff, jj as int, i2));
                            assert(km.codes[i2] == pre.codes[i2]);
                            assert(km.keys[i2] == pre.keys[i2]);
                        }
                        assert(frame_ok(pre, self@, aff, jj as int + 1, n));
                        lemma_coverage_mono(
                            ctx,
                            pre,
                            self@,
                            assignment@,
                            aff,
                            jj as int,
                            jj as int + 1,
                            ncodes,
                        );
                    }
            }
        }

        let ghost done_model = self@;
        self.total_collisions = local_collisions;
        self.collision_frequency = local_collision_freq;
        self.total_equiv_weighted = local_equiv;
        self.total_equiv_sq_weighted = local_sq;
        proof {
            assert(aff.take(aff.len() as int) =~= aff);
            assert forall|i: int|
                0 <= i < ctx.n_items() && !affected_items@.contains(i as usize) implies (#[trigger]
            self@.keys[i]) == pre.keys[i] && self@.codes[i] == pre.codes[i]
                && self@.equiv_contrib[i] == pre.equiv_contrib[i] && self@.sq_contrib[i]
                == pre.sq_contrib[i] by {
                assert(forall|j2: int|
                    #![trigger aff[j2]]
                    0 <= j2 < aff.len() ==> aff[j2] != i as usize);
                assert(not_in_prefix(aff, n_aff as int, i));
                assert(pre.codes[i] == pre.codes[i]);
            }
            assert forall|c: int|
                0 <= c < ctx.num_codes && ((#[trigger] self@.buckets[c]) != pre.buckets[c]
                    || self@.bucket_freqs[c] != pre.bucket_freqs[c]) implies bucket_touched(
                ctx,
                pre,
                assignment@,
                aff,
                c,
            ) by {
                lemma_coverage_obtain(
                    ctx,
                    pre,
                    done_model,
                    assignment@,
                    aff,
                    n_aff as int,
                    ncodes,
                    c,
                );
            }
            assert(forall|c: int|
                0 <= c < ctx.num_codes && ((#[trigger] self@.buckets[c]) != old(self)@.buckets[c]
                    || self@.bucket_freqs[c] != old(self)@.bucket_freqs[c]) ==> bucket_touched(
                    ctx,
                    old(self)@,
                    assignment@,
                    affected_items@,
                    c,
                ));
        }
    }
}

} // verus!
