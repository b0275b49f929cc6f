//! The read-only problem context: role permissions, role-to-item index,
//! item frequencies, and the pure derivation functions that turn an
//! assignment into an item's code and key list and a key list into its
//! equivalence cost.

use vstd::prelude::*;

use crate::sums::{code_upto, equiv_upto, nodup, sum_u64};
use crate::{COST_LIMIT, EQUIV_LIMIT, FREQ_TOTAL_LIMIT, MAX_PARTS};

verus! {

/// Immutable problem data shared by every move evaluation.
pub struct OptContext {
    /// `allowed[r][k]` holds when role `r` may be assigned key `k`.
    pub allowed: Vec<Vec<bool>>,
    /// `affected[r]` lists, without duplicates, every item whose code
    /// depends on role `r`'s key.
    pub affected: Vec<Vec<usize>>,
    /// `item_roles[i]` lists the roles whose keys compose item `i`'s
    /// code, in order.
    pub item_roles: Vec<Vec<usize>>,
    /// Non-negative weight of each item.
    pub freqs: Vec<u64>,
    /// Equivalence cost of each key.
    pub key_cost: Vec<u64>,
    /// Number of distinct keys; key values range over `0..num_keys`.
    pub num_keys: usize,
    /// Number of distinct codes; bucket arrays have this length.
    pub num_codes: usize,
}

impl OptContext {
    pub open spec fn n_items(&self) -> int {
        self.item_roles@.len() as int
    }

    pub open spec fn n_roles(&self) -> int {
        self.allowed@.len() as int
    }

    pub open spec fn roles_of(&self, i: int) -> Seq<usize> {
        self.item_roles@[i]@
    }

    /// The key list of item `i` under `asg`: the keys the item's roles
    /// hold, in role-list order.
    pub open spec fn derive_keys(&self, asg: Seq<u8>, i: int) -> Seq<u8> {
        Seq::new(self.roles_of(i).len(), |j: int| asg[self.roles_of(i)[j] as int])
    }

    /// The code of item `i` under `asg`: the radix encoding of its key
    /// list, base `num_keys`.
    pub open spec fn derive_code(&self, asg: Seq<u8>, i: int) -> int {
        code_upto(self.derive_keys(asg, i), self.num_keys as int, self.roles_of(i).len() as int)
    }

    /// Equivalence cost of a key list.
    pub open spec fn equiv_of(&self, l: Seq<u8>) -> int {
        equiv_upto(self.key_cost@, l, l.len() as int)
    }

    /// Sum of all item frequencies.
    pub open spec fn total_freq(&self) -> int {
        sum_u64(self.freqs@, self.n_items())
    }

    /// Well-formedness of the problem data.
    pub open spec fn wf(&self) -> bool {
        &&& 1 <= self.num_keys <= 256
        &&& vstd::arithmetic::power::pow(self.num_keys as int, MAX_PARTS as nat)
            <= self.num_codes as int
        &&& forall|r: int| 0 <= r < self.n_roles() ==> (#[trigger] self.allowed@[r])@.len()
            == self.num_keys
        &&& self.affected@.len() == self.n_roles()
        &&& forall|r: int| 0 <= r < self.n_roles() ==> nodup((#[trigger] self.affected@[r])@)
        &&& forall|r: int, j: int|
            0 <= r < self.n_roles() && 0 <= j < self.affected@[r]@.len()
                ==> (#[trigger] self.affected@[r]@[j]) < self.n_items()
        &&& self.freqs@.len() == self.n_items()
        &&& forall|i: int| 0 <= i < self.n_items() ==> (#[trigger] self.roles_of(i)).len()
            <= MAX_PARTS
        &&& forall|i: int, j: int|
            0 <= i < self.n_items() && 0 <= j < self.roles_of(i).len()
                ==> (#[trigger] self.roles_of(i)[j]) < self.n_roles()
        &&& forall|i: int, j: int|
            0 <= i < self.n_items() && 0 <= j < self.roles_of(i).len()
                ==> self.affected@[#[trigger] self.roles_of(i)[j] as int]@.contains(i as usize)
        &&& self.total_freq() <= FREQ_TOTAL_LIMIT
        &&& self.key_cost@.len() == self.num_keys
        &&& forall|k: int| 0 <= k < self.num_keys ==> (#[trigger] self.key_cost@[k])
            <= COST_LIMIT
    }

    /// An assignment vector fit for this context: one key per role, each
    /// in range and permitted for its role.
    pub open spec fn asg_wf(&self, asg: Seq<u8>) -> bool {
        &&& asg.len() == self.n_roles()
        &&& forall|r: int| 0 <= r < self.n_roles() ==> (#[trigger] asg[r]) < self.num_keys
        &&& forall|r: int| 0 <= r < self.n_roles() ==> self.allowed@[r]@[(#[trigger] asg[r])
            as int]
    }

    /// What a derived key list looks like under a well-formed context and
    /// an in-range assignment.
    pub proof fn lemma_derive_keys_wf(&self, asg: Seq<u8>, i: int)
        requires
            self.wf(),
            0 <= i < self.n_items(),
            asg.len() == self.n_roles(),
            forall|r: int| 0 <= r < self.n_roles() ==> (#[trigger] asg[r]) < self.num_keys,
        ensures
            self.derive_keys(asg, i).len() == self.roles_of(i).len(),
            self.derive_keys(asg, i).len() <= MAX_PARTS,
            forall|j: int|
                0 <= j < self.derive_keys(asg, i).len()
                    ==> (#[trigger] self.derive_keys(asg, i)[j]) < self.num_keys,
            0 <= self.equiv_of(self.derive_keys(asg, i)),
            self.equiv_of(self.derive_keys(asg, i)) <= EQUIV_LIMIT,
    {
        let dk = self.derive_keys(asg, i);
        assert forall|j: int| 0 <= j < dk.len() implies (#[trigger] dk[j]) < self.num_keys by {
            assert(self.roles_of(i)[j] < self.n_roles());
        }
        crate::sums::lemma_equiv_upto_bounds(self.key_cost@, dk, COST_LIMIT as int, dk.len() as int);
        assert(dk.len() as int * (COST_LIMIT as int) <= 4 * (COST_LIMIT as int)) by (nonlinear_arith)
            requires
                0 <= dk.len() as int <= 4,
        ;
    }

    /// Derives item `item`'s code and key list from the current
    /// assignment.
    #[verifier::loop_isolation(false)]
    pub fn calc_code_and_keys(&self, item: usize, assignment: &Vec<u8>) -> (r: (usize, Vec<u8>))
        requires
            self.wf(),
            item < self.n_items(),
            assignment@.len() == self.n_roles(),
            forall|r: int| 0 <= r < self.n_roles() ==> (#[trigger] assignment@[r]) < self.num_keys,
        ensures
            r.1@ == self.derive_keys(assignment@, item as int),
            r.0 as int == self.derive_code(assignment@, item as int),
            r.0 < self.num_codes,
    {
        let roles: &Vec<usize> = &self.item_roles[item];
        let n: usize = roles.len();
        let mut keys: Vec<u8> = Vec::new();
        let mut code: usize = 0;
        let ghost dk = self.derive_keys(assignment@, item as int);
        proof {
            vstd::arithmetic::power::lemma_pow0(self.num_keys as int);
        }
        for j in 0..n
            invariant
                keys@.len() == j,
                forall|jj: int| 0 <= jj < j ==> keys@[jj] == dk[jj],
                code as int == code_upto(keys@, self.num_keys as int, j as int),
                (code as int) < vstd::arithmetic::power::pow(self.num_keys as int, j as nat),
        {
            let r: usize = roles[j];
            let k: u8 = assignment[r];
            proof {
                let nk = self.num_keys as int;
                vstd::arithmetic::power::lemma_pow1(nk);
                vstd::arithmetic::power::lemma_pow_adds(nk, 1nat, j as nat);
                let p = vstd::arithmetic::power::pow(nk, j as nat);
                assert((code as int * nk + (k as int)) < nk * p) by (nonlinear_arith)
                    requires
                        0 <= (code as int) && (code as int) < p,
                        0 <= (k as int) < nk,
                        nk >= 1,
                ;
                vstd::arithmetic::mul::lemma_mul_nonnegative(code as int, nk);
                assert(self.roles_of(item as int).len() <= MAX_PARTS);
                vstd::arithmetic::power::lemma_pow_increases(
                    self.num_keys as nat,
                    (j + 1) as nat,
                    MAX_PARTS as nat,
                );
                crate::sums::lemma_code_prefix(keys@, keys@.push(k), nk, j as int);
            }
            code = code * self.num_keys + (k as usize);
            keys.push(k);
        }
        proof {
            vstd::arithmetic::power::lemma_pow_increases(
                self.num_keys as nat,
                n as nat,
                MAX_PARTS as nat,
            );
            assert(keys@ =~= dk);
        }
        (code, keys)
    }

    /// Summed equivalence cost of a key list.
    #[verifier::loop_isolation(false)]
    pub fn calc_key_equiv(&self, keys: &Vec<u8>) -> (r: u64)
        requires
            self.wf(),
            keys@.len() <= MAX_PARTS,
            forall|j: int| 0 <= j < keys@.len() ==> (#[trigger] keys@[j]) < self.num_keys,
        ensures
            r as int == self.equiv_of(keys@),
            r <= EQUIV_LIMIT,
    {
        let n: usize = keys.len();
        let mut total: u64 = 0;
        for j in 0..n
            invariant
                total as int == equiv_upto(self.key_cost@, keys@, j as int),
                total as int <= j * (COST_LIMIT as int),
        {
            let k: u8 = keys[j];
            total = total + self.key_cost[k as usize];
        }
        total
    }
}

} // verus!
