//! Recursive counting and summation functions over sequences, with the
//! update and bound lemmas that the incremental aggregate proofs rest on.
//!
//! Every function sums over an explicit prefix length `m`, so that loop
//! invariants can speak of partial sums and so that updating one position
//! of a sequence changes the sum by exactly the difference at that
//! position.

use vstd::prelude::*;

verus! {

/// Number of positions `j < m` whose entry in `s` equals `c`.
pub open spec fn cnt(s: Seq<usize>, c: int, m: int) -> int
    decreases m,
{
    if m <= 0 {
        0
    } else {
        cnt(s, c, m - 1) + if s[m - 1] as int == c {
            1int
        } else {
            0int
        }
    }
}

/// Sum of `f[j]` over positions `j < m` whose entry in `s` equals `c`.
pub open spec fn fsum(s: Seq<usize>, f: Seq<u64>, c: int, m: int) -> int
    decreases m,
{
    if m <= 0 {
        0
    } else {
        fsum(s, f, c, m - 1) + if s[m - 1] as int == c {
            f[m - 1] as int
        } else {
            0int
        }
    }
}

/// Sum of the first `m` entries of `s`.
pub open spec fn sum_usize(s: Seq<usize>, m: int) -> int
    decreases m,
{
    if m <= 0 {
        0
    } else {
        sum_usize(s, m - 1) + s[m - 1] as int
    }
}

/// Sum of the first `m` entries of `s`.
pub open spec fn sum_u64(s: Seq<u64>, m: int) -> int
    decreases m,
{
    if m <= 0 {
        0
    } else {
        sum_u64(s, m - 1) + s[m - 1] as int
    }
}

/// Sum of the first `m` entries of `s`.
pub open spec fn sum_u128(s: Seq<u128>, m: int) -> int
    decreases m,
{
    if m <= 0 {
        0
    } else {
        sum_u128(s, m - 1) + s[m - 1] as int
    }
}

/// Number of items in a bucket beyond the first: each such item is one
/// collision.
pub open spec fn excess(b: int) -> int {
    if b > 1 {
        b - 1
    } else {
        0
    }
}

/// Total collision count over the first `m` buckets.
pub open spec fn excess_sum(s: Seq<usize>, m: int) -> int
    decreases m,
{
    if m <= 0 {
        0
    } else {
        excess_sum(s, m - 1) + excess(s[m - 1] as int)
    }
}

/// Summed frequency of the buckets among the first `m` that are in
/// collision (occupancy at least 2).
pub open spec fn coll_freq(s: Seq<usize>, f: Seq<u64>, m: int) -> int
    decreases m,
{
    if m <= 0 {
        0
    } else {
        coll_freq(s, f, m - 1) + if s[m - 1] >= 2 {
            f[m - 1] as int
        } else {
            0int
        }
    }
}

/// Number of occurrences of key `k` among the first `m` entries of `l`.
pub open spec fn occ(l: Seq<u8>, k: int, m: int) -> int
    decreases m,
{
    if m <= 0 {
        0
    } else {
        occ(l, k, m - 1) + if l[m - 1] as int == k {
            1int
        } else {
            0int
        }
    }
}

/// Frequency-weighted usage of key `k` over the first `m` items: each
/// occurrence of `k` in an item's key list contributes that item's
/// frequency.
pub open spec fn usage_at(ks: Seq<Seq<u8>>, f: Seq<u64>, k: int, m: int) -> int
    decreases m,
{
    if m <= 0 {
        0
    } else {
        usage_at(ks, f, k, m - 1) + f[m - 1] * occ(ks[m - 1], k, ks[m - 1].len() as int)
    }
}

/// Radix encoding of the first `m` keys of `l`, base `nk`.
pub open spec fn code_upto(l: Seq<u8>, nk: int, m: int) -> int
    decreases m,
{
    if m <= 0 {
        0
    } else {
        code_upto(l, nk, m - 1) * nk + l[m - 1] as int
    }
}

/// Summed equivalence cost of the first `m` keys of `l`.
pub open spec fn equiv_upto(cost: Seq<u64>, l: Seq<u8>, m: int) -> int
    decreases m,
{
    if m <= 0 {
        0
    } else {
        equiv_upto(cost, l, m - 1) + cost[l[m - 1] as int] as int
    }
}

/// `sum_usize` reads only the first `m` entries.
pub proof fn lemma_sum_usize_prefix(s1: Seq<usize>, s2: Seq<usize>, m: int)
    requires
        forall|j: int| 0 <= j < m ==> s1[j] == s2[j],
    ensures
        sum_usize(s1, m) == sum_usize(s2, m),
    decreases m,
{
    if m > 0 {
        lemma_sum_usize_prefix(s1, s2, m - 1);
    }
}

/// `sum_u64` reads only the first `m` entries.
pub proof fn lemma_sum_u64_prefix(s1: Seq<u64>, s2: Seq<u64>, m: int)
    requires
        forall|j: int| 0 <= j < m ==> s1[j] == s2[j],
    ensures
        sum_u64(s1, m) == sum_u64(s2, m),
    decreases m,
{
    if m > 0 {
        lemma_sum_u64_prefix(s1, s2, m - 1);
    }
}

/// `code_upto` reads only the first `m` entries.
pub proof fn lemma_code_prefix(l1: Seq<u8>, l2: Seq<u8>, nk: int, m: int)
    requires
        forall|j: int| 0 <= j < m ==> l1[j] == l2[j],
    ensures
        code_upto(l1, nk, m) == code_upto(l2, nk, m),
    decreases m,
{
    if m > 0 {
        lemma_code_prefix(l1, l2, nk, m - 1);
    }
}

/// No entry of `s` occurs twice.
pub open spec fn nodup(s: Seq<usize>) -> bool {
    forall|j1: int, j2: int| 0 <= j1 < j2 < s.len() ==> s[j1] != s[j2]
}

// ---------------------------------------------------------------------
// Update lemmas: changing one position changes a sum by the difference
// at that position.
// ---------------------------------------------------------------------

pub proof fn lemma_cnt_update(s: Seq<usize>, c: int, i: int, v: usize, m: int)
    requires
        0 <= i < s.len(),
        m <= s.len(),
    ensures
        cnt(s.update(i, v), c, m) == cnt(s, c, m) + if i < m {
            (if v as int == c {
                1int
            } else {
                0int
            }) - (if s[i] as int == c {
                1int
            } else {
                0int
            })
        } else {
            0int
        },
    decreases m,
{
    if m > 0 {
        lemma_cnt_update(s, c, i, v, m - 1);
    }
}

pub proof fn lemma_fsum_update(s: Seq<usize>, f: Seq<u64>, c: int, i: int, v: usize, m: int)
    requires
        0 <= i < s.len(),
        m <= s.len(),
    ensures
        fsum(s.update(i, v), f, c, m) == fsum(s, f, c, m) + if i < m {
            (if v as int == c {
                f[i] as int
            } else {
                0int
            }) - (if s[i] as int == c {
                f[i] as int
            } else {
                0int
            })
        } else {
            0int
        },
    decreases m,
{
    if m > 0 {
        lemma_fsum_update(s, f, c, i, v, m - 1);
    }
}

pub proof fn lemma_sum_usize_update(s: Seq<usize>, i: int, v: usize, m: int)
    requires
        0 <= i < s.len(),
        m <= s.len(),
    ensures
        sum_usize(s.update(i, v), m) == sum_usize(s, m) + if i < m {
            v as int - s[i] as int
        } else {
            0int
        },
    decreases m,
{
    if m > 0 {
        lemma_sum_usize_update(s, i, v, m - 1);
    }
}

pub proof fn lemma_sum_u64_update(s: Seq<u64>, i: int, v: u64, m: int)
    requires
        0 <= i < s.len(),
        m <= s.len(),
    ensures
        sum_u64(s.update(i, v), m) == sum_u64(s, m) + if i < m {
            v as int - s[i] as int
        } else {
            0int
        },
    decreases m,
{
    if m > 0 {
        lemma_sum_u64_update(s, i, v, m - 1);
    }
}

pub proof fn lemma_sum_u128_update(s: Seq<u128>, i: int, v: u128, m: int)
    requires
        0 <= i < s.len(),
        m <= s.len(),
    ensures
        sum_u128(s.update(i, v), m) == sum_u128(s, m) + if i < m {
            v as int - s[i] as int
        } else {
            0int
        },
    decreases m,
{
    if m > 0 {
        lemma_sum_u128_update(s, i, v, m - 1);
    }
}

pub proof fn lemma_excess_sum_update(s: Seq<usize>, i: int, v: usize, m: int)
    requires
        0 <= i < s.len(),
        m <= s.len(),
    ensures
        excess_sum(s.update(i, v), m) == excess_sum(s, m) + if i < m {
            excess(v as int) - excess(s[i] as int)
        } else {
            0int
        },
    decreases m,
{
    if m > 0 {
        lemma_excess_sum_update(s, i, v, m - 1);
    }
}

/// Updating bucket `i`'s occupancy and frequency together.
pub proof fn lemma_coll_freq_update(s: Seq<usize>, f: Seq<u64>, i: int, cv: usize, fv: u64, m: int)
    requires
        0 <= i < s.len(),
        0 <= i < f.len(),
        m <= s.len(),
        m <= f.len(),
    ensures
        coll_freq(s.update(i, cv), f.update(i, fv), m) == coll_freq(s, f, m) + if i < m {
            (if cv >= 2 {
                fv as int
            } else {
                0int
            }) - (if s[i] >= 2 {
                f[i] as int
            } else {
                0int
            })
        } else {
            0int
        },
    decreases m,
{
    if m > 0 {
        lemma_coll_freq_update(s, f, i, cv, fv, m - 1);
    }
}

pub proof fn lemma_usage_at_update(ks: Seq<Seq<u8>>, f: Seq<u64>, k: int, i: int, l2: Seq<u8>, m: int)
    requires
        0 <= i < ks.len(),
        m <= ks.len(),
    ensures
        usage_at(ks.update(i, l2), f, k, m) == usage_at(ks, f, k, m) + if i < m {
            f[i] * occ(l2, k, l2.len() as int) - f[i] * occ(ks[i], k, ks[i].len() as int)
        } else {
            0int
        },
    decreases m,
{
    if m > 0 {
        lemma_usage_at_update(ks, f, k, i, l2, m - 1);
    }
}

// ---------------------------------------------------------------------
// Bound lemmas.
// ---------------------------------------------------------------------

pub proof fn lemma_cnt_bounds(s: Seq<usize>, c: int, m: int)
    ensures
        0 <= cnt(s, c, m) <= if m >= 0 {
            m
        } else {
            0int
        },
    decreases m,
{
    if m > 0 {
        lemma_cnt_bounds(s, c, m - 1);
    }
}

pub proof fn lemma_cnt_ge_one(s: Seq<usize>, c: int, i: int, m: int)
    requires
        0 <= i < m,
        s[i] as int == c,
    ensures
        cnt(s, c, m) >= 1,
    decreases m,
{
    lemma_cnt_bounds(s, c, m - 1);
    if i < m - 1 {
        lemma_cnt_ge_one(s, c, i, m - 1);
    }
}

pub proof fn lemma_fsum_nonneg(s: Seq<usize>, f: Seq<u64>, c: int, m: int)
    ensures
        fsum(s, f, c, m) >= 0,
    decreases m,
{
    if m > 0 {
        lemma_fsum_nonneg(s, f, c, m - 1);
    }
}

pub proof fn lemma_fsum_ge_elem(s: Seq<usize>, f: Seq<u64>, c: int, i: int, m: int)
    requires
        0 <= i < m,
        s[i] as int == c,
    ensures
        fsum(s, f, c, m) >= f[i] as int,
    decreases m,
{
    lemma_fsum_nonneg(s, f, c, m - 1);
    if i < m - 1 {
        lemma_fsum_ge_elem(s, f, c, i, m - 1);
    }
}

pub proof fn lemma_fsum_le_sum(s: Seq<usize>, f: Seq<u64>, c: int, m: int)
    ensures
        fsum(s, f, c, m) <= sum_u64(f, m),
    decreases m,
{
    if m > 0 {
        lemma_fsum_le_sum(s, f, c, m - 1);
    }
}

pub proof fn lemma_sum_usize_nonneg(s: Seq<usize>, m: int)
    ensures
        sum_usize(s, m) >= 0,
    decreases m,
{
    if m > 0 {
        lemma_sum_usize_nonneg(s, m - 1);
    }
}

pub proof fn lemma_sum_u64_nonneg(s: Seq<u64>, m: int)
    ensures
        sum_u64(s, m) >= 0,
    decreases m,
{
    if m > 0 {
        lemma_sum_u64_nonneg(s, m - 1);
    }
}

pub proof fn lemma_sum_u128_nonneg(s: Seq<u128>, m: int)
    ensures
        sum_u128(s, m) >= 0,
    decreases m,
{
    if m > 0 {
        lemma_sum_u128_nonneg(s, m - 1);
    }
}

pub proof fn lemma_sum_usize_ge_elem(s: Seq<usize>, i: int, m: int)
    requires
        0 <= i < m,
    ensures
        sum_usize(s, m) >= s[i] as int,
    decreases m,
{
    lemma_sum_usize_nonneg(s, m - 1);
    if i < m - 1 {
        lemma_sum_usize_ge_elem(s, i, m - 1);
    }
}

pub proof fn lemma_sum_u64_ge_elem(s: Seq<u64>, i: int, m: int)
    requires
        0 <= i < m,
    ensures
        sum_u64(s, m) >= s[i] as int,
    decreases m,
{
    lemma_sum_u64_nonneg(s, m - 1);
    if i < m - 1 {
        lemma_sum_u64_ge_elem(s, i, m - 1);
    }
}

pub proof fn lemma_sum_u128_ge_elem(s: Seq<u128>, i: int, m: int)
    requires
        0 <= i < m,
    ensures
        sum_u128(s, m) >= s[i] as int,
    decreases m,
{
    lemma_sum_u128_nonneg(s, m - 1);
    if i < m - 1 {
        lemma_sum_u128_ge_elem(s, i, m - 1);
    }
}

/// Two distinct entries together never exceed the sum.
pub proof fn lemma_sum_usize_two_elems(s: Seq<usize>, i: int, j: int, m: int)
    requires
        0 <= i < m,
        0 <= j < m,
        i != j,
    ensures
        s[i] as int + s[j] as int <= sum_usize(s, m),
    decreases m,
{
    if i == m - 1 {
        lemma_sum_usize_ge_elem(s, j, m - 1);
    } else if j == m - 1 {
        lemma_sum_usize_ge_elem(s, i, m - 1);
    } else {
        lemma_sum_usize_two_elems(s, i, j, m - 1);
    }
}

pub proof fn lemma_sum_u64_two_elems(s: Seq<u64>, i: int, j: int, m: int)
    requires
        0 <= i < m,
        0 <= j < m,
        i != j,
    ensures
        s[i] as int + s[j] as int <= sum_u64(s, m),
    decreases m,
{
    if i == m - 1 {
        lemma_sum_u64_ge_elem(s, j, m - 1);
    } else if j == m - 1 {
        lemma_sum_u64_ge_elem(s, i, m - 1);
    } else {
        lemma_sum_u64_two_elems(s, i, j, m - 1);
    }
}

pub proof fn lemma_sum_u64_mono(s: Seq<u64>, m1: int, m2: int)
    requires
        m1 <= m2,
    ensures
        sum_u64(s, m1) <= sum_u64(s, m2),
    decreases m2,
{
    if m2 > 0 && m1 < m2 {
        lemma_sum_u64_mono(s, m1, m2 - 1);
    } else if m2 <= 0 {
        lemma_sum_u64_nonneg(s, m1);
    }
}

pub proof fn lemma_sum_usize_mono(s: Seq<usize>, m1: int, m2: int)
    requires
        m1 <= m2,
    ensures
        sum_usize(s, m1) <= sum_usize(s, m2),
    decreases m2,
{
    if m2 > 0 && m1 < m2 {
        lemma_sum_usize_mono(s, m1, m2 - 1);
    } else if m2 <= 0 {
        lemma_sum_usize_nonneg(s, m1);
    }
}

pub proof fn lemma_excess_sum_nonneg(s: Seq<usize>, m: int)
    ensures
        excess_sum(s, m) >= 0,
    decreases m,
{
    if m > 0 {
        lemma_excess_sum_nonneg(s, m - 1);
    }
}

pub proof fn lemma_excess_sum_le_sum(s: Seq<usize>, m: int)
    ensures
        excess_sum(s, m) <= sum_usize(s, m),
    decreases m,
{
    if m > 0 {
        lemma_excess_sum_le_sum(s, m - 1);
    }
}

pub proof fn lemma_coll_freq_nonneg(s: Seq<usize>, f: Seq<u64>, m: int)
    ensures
        coll_freq(s, f, m) >= 0,
    decreases m,
{
    if m > 0 {
        lemma_coll_freq_nonneg(s, f, m - 1);
    }
}

pub proof fn lemma_coll_freq_le_sum(s: Seq<usize>, f: Seq<u64>, m: int)
    ensures
        coll_freq(s, f, m) <= sum_u64(f, m),
    decreases m,
{
    if m > 0 {
        lemma_coll_freq_le_sum(s, f, m - 1);
    }
}

pub proof fn lemma_occ_bounds(l: Seq<u8>, k: int, m: int)
    ensures
        0 <= occ(l, k, m) <= if m >= 0 {
            m
        } else {
            0int
        },
    decreases m,
{
    if m > 0 {
        lemma_occ_bounds(l, k, m - 1);
    }
}

pub proof fn lemma_occ_mono(l: Seq<u8>, k: int, m1: int, m2: int)
    requires
        m1 <= m2,
    ensures
        occ(l, k, m1) <= occ(l, k, m2),
    decreases m2,
{
    if m2 > 0 && m1 < m2 {
        lemma_occ_mono(l, k, m1, m2 - 1);
    } else if m2 <= 0 {
        lemma_occ_bounds(l, k, m1);
    }
}

pub proof fn lemma_usage_at_nonneg(ks: Seq<Seq<u8>>, f: Seq<u64>, k: int, m: int)
    ensures
        usage_at(ks, f, k, m) >= 0,
    decreases m,
{
    if m > 0 {
        lemma_usage_at_nonneg(ks, f, k, m - 1);
        lemma_occ_bounds(ks[m - 1], k, ks[m - 1].len() as int);
        vstd::arithmetic::mul::lemma_mul_nonnegative(
            f[m - 1] as int,
            occ(ks[m - 1], k, ks[m - 1].len() as int),
        );
    }
}

pub proof fn lemma_usage_at_ge_elem(ks: Seq<Seq<u8>>, f: Seq<u64>, k: int, i: int, m: int)
    requires
        0 <= i < m,
    ensures
        usage_at(ks, f, k, m) >= f[i] * occ(ks[i], k, ks[i].len() as int),
    decreases m,
{
    if i < m - 1 {
        lemma_usage_at_ge_elem(ks, f, k, i, m - 1);
        lemma_occ_bounds(ks[m - 1], k, ks[m - 1].len() as int);
        vstd::arithmetic::mul::lemma_mul_nonnegative(
            f[m - 1] as int,
            occ(ks[m - 1], k, ks[m - 1].len() as int),
        );
    } else {
        lemma_usage_at_nonneg(ks, f, k, m - 1);
    }
}

/// Usage never exceeds the longest list length times the total frequency.
pub proof fn lemma_usage_at_bound(ks: Seq<Seq<u8>>, f: Seq<u64>, k: int, p: int, m: int)
    requires
        p >= 0,
        forall|i: int| 0 <= i < m ==> #[trigger] ks[i].len() <= p,
    ensures
        usage_at(ks, f, k, m) <= p * sum_u64(f, m),
    decreases m,
{
    if m > 0 {
        lemma_usage_at_bound(ks, f, k, p, m - 1);
        let o = occ(ks[m - 1], k, ks[m - 1].len() as int);
        lemma_occ_bounds(ks[m - 1], k, ks[m - 1].len() as int);
        assert(f[m - 1] * o <= p * f[m - 1] as int) by (nonlinear_arith)
            requires
                0 <= o <= p,
                f[m - 1] as int >= 0,
        ;
        assert(p * sum_u64(f, m) == p * sum_u64(f, m - 1) + p * f[m - 1] as int) by (nonlinear_arith)
            requires
                sum_u64(f, m) == sum_u64(f, m - 1) + f[m - 1] as int,
        ;
    } else {
        vstd::arithmetic::mul::lemma_mul_nonnegative(p, sum_u64(f, m));
        lemma_sum_u64_nonneg(f, m);
    }
}

/// A pointwise weight bound carries over to the sums.
pub proof fn lemma_sum_u128_weighted(s: Seq<u128>, f: Seq<u64>, w: int, m: int)
    requires
        w >= 0,
        forall|i: int| 0 <= i < m ==> #[trigger] s[i] as int <= w * f[i],
    ensures
        sum_u128(s, m) <= w * sum_u64(f, m),
    decreases m,
{
    if m > 0 {
        lemma_sum_u128_weighted(s, f, w, m - 1);
        assert(w * sum_u64(f, m) == w * sum_u64(f, m - 1) + w * f[m - 1] as int) by (nonlinear_arith)
            requires
                sum_u64(f, m) == sum_u64(f, m - 1) + f[m - 1] as int,
        ;
    } else {
        vstd::arithmetic::mul::lemma_mul_nonnegative(w, sum_u64(f, m));
        lemma_sum_u64_nonneg(f, m);
    }
}

// ---------------------------------------------------------------------
// Radix code lemmas.
// ---------------------------------------------------------------------

/// Two key lists of the same length with the same radix code are equal.
pub proof fn lemma_code_upto_injective(l1: Seq<u8>, l2: Seq<u8>, nk: int, m: int)
    requires
        nk >= 1,
        forall|j: int| 0 <= j < m ==> (l1[j] as int) < nk,
        forall|j: int| 0 <= j < m ==> (l2[j] as int) < nk,
        code_upto(l1, nk, m) == code_upto(l2, nk, m),
    ensures
        forall|j: int| 0 <= j < m ==> l1[j] == l2[j],
    decreases m,
{
    if m > 0 {
        let c1 = code_upto(l1, nk, m - 1);
        let c2 = code_upto(l2, nk, m - 1);
        let a1 = l1[m - 1] as int;
        let a2 = l2[m - 1] as int;
        assert(c1 == c2 && a1 == a2) by (nonlinear_arith)
            requires
                c1 * nk + a1 == c2 * nk + a2,
                0 <= a1 < nk,
                0 <= a2 < nk,
        ;
        lemma_code_upto_injective(l1, l2, nk, m - 1);
    }
}

pub proof fn lemma_equiv_upto_bounds(cost: Seq<u64>, l: Seq<u8>, lim: int, m: int)
    requires
        lim >= 0,
        forall|j: int| 0 <= j < m ==> (l[j] as int) < cost.len(),
        forall|k: int| 0 <= k < cost.len() ==> #[trigger] cost[k] as int <= lim,
    ensures
        0 <= equiv_upto(cost, l, m),
        equiv_upto(cost, l, m) <= if m >= 0 {
            m * lim
        } else {
            0int
        },
    decreases m,
{
    if m > 0 {
        lemma_equiv_upto_bounds(cost, l, lim, m - 1);
        assert(m * lim == (m - 1) * lim + lim) by (nonlinear_arith);
    } else if m >= 0 {
        vstd::arithmetic::mul::lemma_mul_nonnegative(m, lim);
    }
}

} // verus!
