//! The mutable optimizer state: per-item cached code, key list and
//! equivalence contributions, per-code bucket occupancy and frequency,
//! and the global aggregates the external objective reads.

use vstd::prelude::*;

use crate::context::OptContext;
use crate::sums::{
    cnt, coll_freq, excess_sum, fsum, lemma_cnt_bounds, lemma_coll_freq_le_sum,
    lemma_excess_sum_le_sum, lemma_fsum_le_sum, lemma_occ_mono,
    lemma_sum_u128_weighted, lemma_sum_u64_mono, lemma_sum_usize_mono, lemma_usage_at_bound, occ,
    sum_u128, sum_u64, sum_usize, usage_at,
};
use crate::{EQUIV_LIMIT, MAX_PARTS};

verus! {

/// Mathematical shadow of [`OptimizerState`].
#[verifier::ext_equal]
pub ghost struct StateModel {
    pub codes: Seq<usize>,
    pub keys: Seq<Seq<u8>>,
    pub equiv_contrib: Seq<u128>,
    pub sq_contrib: Seq<u128>,
    pub buckets: Seq<usize>,
    pub bucket_freqs: Seq<u64>,
    pub total_collisions: usize,
    pub collision_frequency: u64,
    pub total_equiv_weighted: u128,
    pub total_equiv_sq_weighted: u128,
    pub usage: Seq<u128>,
}

/// Owned, mutable optimizer state for one search chain.
#[derive(Clone, Debug, PartialEq, Eq)]
pub struct OptimizerState {
    /// Cached code of each item.
    pub current_codes: Vec<usize>,
    /// Cached derived key list of each item.
    pub current_keys: Vec<Vec<u8>>,
    /// Cached equivalence contribution of each item: list cost times
    /// frequency.
    pub current_equiv_contrib: Vec<u128>,
    /// Cached squared contribution: list cost squared times frequency.
    pub current_equiv_sq_contrib: Vec<u128>,
    /// Occupancy of each code's bucket.
    pub buckets: Vec<usize>,
    /// Summed frequency of each code's bucket.
    pub bucket_freqs: Vec<u64>,
    /// Number of items beyond the first in their bucket.
    pub total_collisions: usize,
    /// Summed frequency of every item in a bucket of occupancy two or
    /// more.
    pub collision_frequency: u64,
    /// Sum of all cached equivalence contributions.
    pub total_equiv_weighted: u128,
    /// Sum of all cached squared contributions.
    pub total_equiv_sq_weighted: u128,
    /// Frequency-weighted usage of each key over all items' key lists.
    pub key_weighted_usage: Vec<u128>,
}

impl View for OptimizerState {
    type V = StateModel;

    open spec fn view(&self) -> StateModel {
        StateModel {
            codes: self.current_codes@,
            keys: Seq::new(self.current_keys@.len(), |i: int| self.current_keys@[i]@),
            equiv_contrib: self.current_equiv_contrib@,
            sq_contrib: self.current_equiv_sq_contrib@,
            buckets: self.buckets@,
            bucket_freqs: self.bucket_freqs@,
            total_collisions: self.total_collisions,
            collision_frequency: self.collision_frequency,
            total_equiv_weighted: self.total_equiv_weighted,
            total_equiv_sq_weighted: self.total_equiv_sq_weighted,
            usage: self.key_weighted_usage@,
        }
    }
}

impl StateModel {
    /// The per-item caches are internally coherent: each cached code is
    /// the radix encoding of the cached key list, and each cached
    /// contribution is derived from the cached list and the item's
    /// frequency.
    pub open spec fn cache_wf(self, ctx: &OptContext) -> bool {
        &&& self.codes.len() == ctx.n_items()
        &&& self.keys.len() == ctx.n_items()
        &&& self.equiv_contrib.len() == ctx.n_items()
        &&& self.sq_contrib.len() == ctx.n_items()
        &&& forall|i: int|
            0 <= i < ctx.n_items() ==> (#[trigger] self.keys[i]).len() == ctx.roles_of(i).len()
        &&& forall|i: int, j: int|
            0 <= i < ctx.n_items() && 0 <= j < self.keys[i].len()
                ==> (#[trigger] self.keys[i][j]) < ctx.num_keys
        &&& forall|i: int|
            0 <= i < ctx.n_items() ==> (#[trigger] self.codes[i]) as int == crate::sums::code_upto(
                self.keys[i],
                ctx.num_keys as int,
                self.keys[i].len() as int,
            )
        &&& forall|i: int| 0 <= i < ctx.n_items() ==> (#[trigger] self.codes[i]) < ctx.num_codes
        &&& forall|i: int|
            0 <= i < ctx.n_items() ==> (#[trigger] self.equiv_contrib[i]) as int == ctx.equiv_of(
                self.keys[i],
            ) * ctx.freqs@[i]
        &&& forall|i: int|
            0 <= i < ctx.n_items() ==> (#[trigger] self.sq_contrib[i]) as int == ctx.equiv_of(
                self.keys[i],
            ) * ctx.equiv_of(self.keys[i]) * ctx.freqs@[i]
    }

    /// Every bucket holds exactly the occupancy and summed frequency of
    /// the items whose cached code names it.
    pub open spec fn buckets_wf(self, ctx: &OptContext) -> bool {
        &&& self.buckets.len() == ctx.num_codes
        &&& self.bucket_freqs.len() == ctx.num_codes
        &&& forall|c: int|
            0 <= c < ctx.num_codes ==> (#[trigger] self.buckets[c]) as int == cnt(
                self.codes,
                c,
                ctx.n_items(),
            )
        &&& forall|c: int|
            0 <= c < ctx.num_codes ==> (#[trigger] self.bucket_freqs[c]) as int == fsum(
                self.codes,
                ctx.freqs@,
                c,
                ctx.n_items(),
            )
        &&& sum_usize(self.buckets, ctx.num_codes as int) == ctx.n_items()
        &&& sum_u64(self.bucket_freqs, ctx.num_codes as int) == ctx.total_freq()
    }

    /// The scalar aggregates and the usage vector equal a from-scratch
    /// recomputation over the caches and buckets.
    pub open spec fn aggregates_wf(self, ctx: &OptContext) -> bool {
        &&& self.total_collisions as int == excess_sum(self.buckets, ctx.num_codes as int)
        &&& self.collision_frequency as int == coll_freq(
            self.buckets,
            self.bucket_freqs,
            ctx.num_codes as int,
        )
        &&& self.total_equiv_weighted as int == sum_u128(self.equiv_contrib, ctx.n_items())
        &&& self.total_equiv_sq_weighted as int == sum_u128(self.sq_contrib, ctx.n_items())
        &&& self.usage.len() == ctx.num_keys
        &&& forall|k: int|
            0 <= k < ctx.num_keys ==> (#[trigger] self.usage[k]) as int == usage_at(
                self.keys,
                ctx.freqs@,
                k,
                ctx.n_items(),
            )
    }

    /// All maintained structures agree with a from-scratch recomputation
    /// over the cached key lists and codes.
    pub open spec fn consistent(self, ctx: &OptContext) -> bool {
        self.cache_wf(ctx) && self.buckets_wf(ctx) && self.aggregates_wf(ctx)
    }

    /// The cached key lists are exactly what `asg` derives.
    pub open spec fn matches_asg(self, ctx: &OptContext, asg: Seq<u8>) -> bool {
        forall|i: int|
            0 <= i < ctx.n_items() ==> (#[trigger] self.keys[i]) == ctx.derive_keys(asg, i)
    }

    /// Full state invariant relative to an assignment.
    pub open spec fn inv(self, ctx: &OptContext, asg: Seq<u8>) -> bool {
        self.consistent(ctx) && self.matches_asg(ctx, asg)
    }
}

impl OptimizerState {
    /// Builds the state for `assignment` from scratch: derives every
    /// item's code, key list and contributions, then counts buckets and
    /// totals.
    #[verifier::loop_isolation(false)]
    #[verifier::rlimit(60)]
    pub fn init(ctx: &OptContext, assignment: &Vec<u8>) -> (s: OptimizerState)
        requires
            ctx.wf(),
            assignment@.len() == ctx.n_roles(),
            forall|r: int|
                0 <= r < ctx.n_roles() ==> (#[trigger] assignment@[r]) < ctx.num_keys,
        ensures
            s@.consistent(ctx),
            s@.matches_asg(ctx, assignment@),
    {
        let n: usize = ctx.item_roles.len();
        let nc: usize = ctx.num_codes;
        let nk: usize = ctx.num_keys;

        let mut current_codes: Vec<usize> = Vec::new();
        let mut current_keys: Vec<Vec<u8>> = Vec::new();
        let mut current_equiv_contrib: Vec<u128> = Vec::new();
        let mut current_equiv_sq_contrib: Vec<u128> = Vec::new();
        let ghost kview = |ckeys: Seq<Vec<u8>>| Seq::new(ckeys.len(), |i: int| ckeys[i]@);
        for i in 0..n
            invariant
                current_codes@.len() == i,
                current_keys@.len() == i,
                current_equiv_contrib@.len() == i,
                current_equiv_sq_contrib@.len() == i,
                forall|ii: int|
                    0 <= ii < i ==> (#[trigger] current_keys@[ii])@ == ctx.derive_keys(
                        assignment@,
                        ii,
                    ),
                forall|ii: int|
                    0 <= ii < i ==> (#[trigger] current_codes@[ii]) as int == ctx.derive_code(
                        assignment@,
                        ii,
                    ),
                forall|ii: int| 0 <= ii < i ==> (#[trigger] current_codes@[ii]) < nc,
                forall|ii: int|
                    0 <= ii < i ==> (#[trigger] current_equiv_contrib@[ii]) as int == ctx.equiv_of(
                        current_keys@[ii]@,
                    ) * ctx.freqs@[ii],
                forall|ii: int|
                    0 <= ii < i ==> (#[trigger] current_equiv_sq_contrib@[ii]) as int
                        == ctx.equiv_of(current_keys@[ii]@) * ctx.equiv_of(current_keys@[ii]@)
                        * ctx.freqs@[ii],
        {
            let (code, keys_i) = ctx.calc_code_and_keys(i, assignment);
            let e: u64 = ctx.calc_key_equiv(&keys_i);
            let f: u64 = ctx.freqs[i];
            proof {
                let ei = e as int;
                let fi = f as int;
                assert(ei * fi <= 262144 * 0xffff_ffff_ffff_ffff) by (nonlinear_arith)
                    requires
                        0 <= ei <= 262144,
                        0 <= fi <= 0xffff_ffff_ffff_ffff,
                ;
                assert(ei * ei <= 68719476736) by (nonlinear_arith)
                    requires
                        0 <= ei <= 262144,
                ;
                assert(ei * ei * fi <= 68719476736 * 0xffff_ffff_ffff_ffff) by (nonlinear_arith)
                    requires
                        0 <= ei <= 262144,
                        0 <= fi <= 0xffff_ffff_ffff_ffff,
                ;
            }
            let ec: u128 = (e as u128) * (f as u128);
            let sq: u128 = (e as u128) * (e as u128) * (f as u128);
            current_codes.push(code);
            current_keys.push(keys_i);
            current_equiv_contrib.push(ec);
            current_equiv_sq_contrib.push(sq);
        }

        let ghost keys_model = Seq::new(current_keys@.len(), |i: int| current_keys@[i]@);

        let mut buckets: Vec<usize> = Vec::new();
        let mut bucket_freqs: Vec<u64> = Vec::new();
        for c in 0..nc
            invariant
                buckets@.len() == c,
                bucket_freqs@.len() == c,
                forall|cc: int| 0 <= cc < c ==> (#[trigger] buckets@[cc]) == 0,
                forall|cc: int| 0 <= cc < c ==> (#[trigger] bucket_freqs@[cc]) == 0,
                sum_usize(buckets@, c as int) == 0,
                sum_u64(bucket_freqs@, c as int) == 0,
        {
            proof {
                crate::sums::lemma_sum_usize_prefix(buckets@, buckets@.push(0), c as int);
                crate::sums::lemma_sum_u64_prefix(bucket_freqs@, bucket_freqs@.push(0), c as int);
            }
            buckets.push(0);
            bucket_freqs.push(0);
        }

        for i in 0..n
            invariant
                buckets@.len() == nc,
                bucket_freqs@.len() == nc,
                forall|c: int|
                    0 <= c < nc ==> (#[trigger] buckets@[c]) as int == cnt(
                        current_codes@,
                        c,
                        i as int,
                    ),
                forall|c: int|
                    0 <= c < nc ==> (#[trigger] bucket_freqs@[c]) as int == fsum(
                        current_codes@,
                        ctx.freqs@,
                        c,
                        i as int,
                    ),
                sum_usize(buckets@, nc as int) == i,
                sum_u64(bucket_freqs@, nc as int) == sum_u64(ctx.freqs@, i as int),
        {
            let code: usize = current_codes[i];
            let f: u64 = ctx.freqs[i];
            let b: usize = buckets[code];
            let bf: u64 = bucket_freqs[code];
            proof {
                lemma_cnt_bounds(current_codes@, code as int, i as int);
                lemma_fsum_le_sum(current_codes@, ctx.freqs@, code as int, i as int);
                lemma_sum_u64_mono(ctx.freqs@, i + 1, n as int);
                crate::sums::lemma_sum_usize_update(buckets@, code as int, (b + 1) as usize, nc as int);
                crate::sums::lemma_sum_u64_update(bucket_freqs@, code as int, (bf + f) as u64, nc as int);
            }
            buckets.set(code, b + 1);
            bucket_freqs.set(code, bf + f);
        }

        let mut total_collisions: usize = 0;
        let mut collision_frequency: u64 = 0;
        for c in 0..nc
            invariant
                total_collisions as int == excess_sum(buckets@, c as int),
                collision_frequency as int == coll_freq(buckets@, bucket_freqs@, c as int),
        {
            let b: usize = buckets[c];
            proof {
                lemma_excess_sum_le_sum(buckets@, c + 1);
                lemma_sum_usize_mono(buckets@, c + 1, nc as int);
                lemma_coll_freq_le_sum(buckets@, bucket_freqs@, c + 1);
                lemma_sum_u64_mono(bucket_freqs@, c + 1, nc as int);
            }
            if b > 1 {
                total_collisions = total_collisions + (b - 1);
                collision_frequency = collision_frequency + bucket_freqs[c];
            }
        }

        let mut total_equiv_weighted: u128 = 0;
        let mut total_equiv_sq_weighted: u128 = 0;
        for i in 0..n
            invariant
                total_equiv_weighted as int == sum_u128(current_equiv_contrib@, i as int),
                total_equiv_sq_weighted as int == sum_u128(current_equiv_sq_contrib@, i as int),
        {
            proof {
                assert forall|ii: int| 0 <= ii < i + 1 implies (#[trigger] current_equiv_contrib@[ii])
                    as int <= (EQUIV_LIMIT as int) * ctx.freqs@[ii] by {
                    ctx.lemma_derive_keys_wf(assignment@, ii);
                    let ei = ctx.equiv_of(current_keys@[ii]@);
                    let fi = ctx.freqs@[ii] as int;
                    assert(ei * fi <= 262144 * fi) by (nonlinear_arith)
                        requires
                            0 <= ei <= 262144,
                            fi >= 0,
                    ;
                }
                assert forall|ii: int| 0 <= ii < i + 1 implies (#[trigger]
                    current_equiv_sq_contrib@[ii]) as int <= 68719476736 * ctx.freqs@[ii] by {
                    ctx.lemma_derive_keys_wf(assignment@, ii);
                    let ei = ctx.equiv_of(current_keys@[ii]@);
                    let fi = ctx.freqs@[ii] as int;
                    assert(ei * ei * fi <= 68719476736 * fi) by (nonlinear_arith)
                        requires
                            0 <= ei <= 262144,
                            fi >= 0,
                    ;
                }
                lemma_sum_u128_weighted(
                    current_equiv_contrib@,
                    ctx.freqs@,
                    EQUIV_LIMIT as int,
                    i + 1,
                );
                lemma_sum_u128_weighted(current_equiv_sq_contrib@, ctx.freqs@, 68719476736, i + 1);
                lemma_sum_u64_mono(ctx.freqs@, i + 1, n as int);
            }
            total_equiv_weighted = total_equiv_weighted + current_equiv_contrib[i];
            total_equiv_sq_weighted = total_equiv_sq_weighted + current_equiv_sq_contrib[i];
        }

        let mut key_weighted_usage: Vec<u128> = Vec::new();
        for k in 0..nk
            invariant
                key_weighted_usage@.len() == k,
                forall|kk: int| 0 <= kk < k ==> (#[trigger] key_weighted_usage@[kk]) == 0,
        {
            key_weighted_usage.push(0);
        }

        for i in 0..n
            invariant
                key_weighted_usage@.len() == nk,
                forall|k: int|
                    0 <= k < nk ==> (#[trigger] key_weighted_usage@[k]) as int == usage_at(
                        keys_model,
                        ctx.freqs@,
                        k,
                        i as int,
                    ),
        {
            let f: u64 = ctx.freqs[i];
            let li: usize = current_keys[i].len();
            for j in 0..li
                invariant
                    key_weighted_usage@.len() == nk,
                    forall|k: int|
                        0 <= k < nk ==> (#[trigger] key_weighted_usage@[k]) as int == usage_at(
                            keys_model,
                            ctx.freqs@,
                            k,
                            i as int,
                        ) + (f as int) * occ(keys_model[i as int], k, j as int),
            {
                let kk: u8 = current_keys[i][j];
                let u: u128 = key_weighted_usage[kk as usize];
                proof {
                    let ki = kk as int;
                    let l = keys_model[i as int];
                    lemma_occ_mono(l, ki, j + 1, l.len() as int);
                    assert((f as int) * occ(l, ki, j + 1) == (f as int) * occ(l, ki, j as int) + f)
                        by (nonlinear_arith)
                        requires
                            occ(l, ki, j + 1) == occ(l, ki, j as int) + 1,
                    ;
                    assert((f as int) * occ(l, ki, j + 1) <= (f as int) * occ(l, ki, l.len() as int))
                        by (nonlinear_arith)
                        requires
                            occ(l, ki, j + 1) <= occ(l, ki, l.len() as int),
                            f as int >= 0,
                    ;
                    assert(usage_at(keys_model, ctx.freqs@, ki, i as int) + (f as int) * occ(
                        l,
                        ki,
                        l.len() as int,
                    ) == usage_at(keys_model, ctx.freqs@, ki, i + 1));
                    assert forall|ii: int| 0 <= ii < i + 1 implies (#[trigger]
                        keys_model[ii]).len() <= MAX_PARTS as int by {}
                    lemma_usage_at_bound(keys_model, ctx.freqs@, ki, MAX_PARTS as int, i + 1);
                    lemma_sum_u64_mono(ctx.freqs@, i + 1, n as int);
                }
                key_weighted_usage.set(kk as usize, u + (f as u128));
            }
            proof {
                assert forall|k: int| 0 <= k < nk implies (#[trigger] key_weighted_usage@[k]) as int
                    == usage_at(keys_model, ctx.freqs@, k, i + 1) by {
                    let l = keys_model[i as int];
                    assert(usage_at(keys_model, ctx.freqs@, k, i + 1) == usage_at(
                        keys_model,
                        ctx.freqs@,
                        k,
                        i as int,
                    ) + ctx.freqs@[i as int] * occ(l, k, l.len() as int));
                }
            }
        }

        let s = OptimizerState {
            current_codes,
            current_keys,
            current_equiv_contrib,
            current_equiv_sq_contrib,
            buckets,
            bucket_freqs,
            total_collisions,
            collision_frequency,
            total_equiv_weighted,
            total_equiv_sq_weighted,
            key_weighted_usage,
        };
        proof {
            assert(s@.keys =~= keys_model);
        }
        s
    }
}

} // verus!
