use swap_anneal::context::OptContext;
use swap_anneal::state::OptimizerState;

// Two roles that can trade their keys, plus a third fixed role. Item 0
// (frequency 10) depends on role 0; item 1 (frequency 5) depends on
// role 2, which always holds key 1. Swapping roles 0 and 1 moves item 0
// into item 1's bucket: one forced collision.
fn scenario_context() -> OptContext {
    OptContext {
        allowed: vec![
            vec![true, true, false],
            vec![true, true, false],
            vec![false, true, false],
        ],
        affected: vec![vec![0], vec![], vec![1]],
        item_roles: vec![vec![0], vec![2]],
        freqs: vec![10, 5],
        key_cost: vec![1, 2, 3],
        num_keys: 3,
        num_codes: 81,
    }
}

fn scenario_assignment() -> Vec<u8> {
    vec![0, 1, 1]
}

// One swappable role pair where both roles affect the same two items,
// which always share one bucket.
fn aliasing_context() -> OptContext {
    OptContext {
        allowed: vec![vec![true, true], vec![true, true]],
        affected: vec![vec![0, 1], vec![0, 1]],
        item_roles: vec![vec![0, 1], vec![0, 1]],
        freqs: vec![7, 3],
        key_cost: vec![2, 5],
        num_keys: 2,
        num_codes: 16,
    }
}

#[test]
fn test_init_from_scratch() {
    let ctx = scenario_context();
    let asg = scenario_assignment();
    let s = OptimizerState::init(&ctx, &asg);
    assert_eq!(s.current_codes, vec![0, 1]);
    assert_eq!(s.current_keys, vec![vec![0u8], vec![1u8]]);
    assert_eq!(s.buckets[0], 1);
    assert_eq!(s.buckets[1], 1);
    assert_eq!(s.total_collisions, 0);
    assert_eq!(s.collision_frequency, 0);
    // item 0: cost(key 0) = 1, weighted 10; item 1: cost(key 1) = 2, weighted 10.
    assert_eq!(s.current_equiv_contrib, vec![10, 10]);
    assert_eq!(s.total_equiv_weighted, 20);
    // squared: 1*1*10 = 10 and 2*2*5 = 20.
    assert_eq!(s.current_equiv_sq_contrib, vec![10, 20]);
    assert_eq!(s.total_equiv_sq_weighted, 30);
    assert_eq!(s.key_weighted_usage, vec![10, 5, 0]);
}

#[test]
fn test_calc_code_and_keys() {
    let ctx = OptContext {
        allowed: vec![vec![true, true, true], vec![true, true, true]],
        affected: vec![vec![0], vec![0]],
        item_roles: vec![vec![0, 1]],
        freqs: vec![4],
        key_cost: vec![1, 1, 1],
        num_keys: 3,
        num_codes: 81,
    };
    let asg: Vec<u8> = vec![2, 1];
    let (code, keys) = ctx.calc_code_and_keys(0, &asg);
    assert_eq!(keys, vec![2u8, 1u8]);
    assert_eq!(code, 2 * 3 + 1);
}

#[test]
fn test_calc_key_equiv() {
    let ctx = scenario_context();
    let keys: Vec<u8> = vec![0, 1, 2];
    assert_eq!(ctx.calc_key_equiv(&keys), 1 + 2 + 3);
    let empty: Vec<u8> = Vec::new();
    assert_eq!(ctx.calc_key_equiv(&empty), 0);
}

#[test]
fn test_self_swap_rejected() {
    let ctx = scenario_context();
    let mut asg = scenario_assignment();
    let mut s = OptimizerState::init(&ctx, &asg);
    let before = s.clone();
    let snap = s.propose_swap(&ctx, &mut asg, 0, 0);
    assert!(snap.is_none());
    assert_eq!(s, before);
    assert_eq!(asg, scenario_assignment());
}

#[test]
fn test_permission_rejected() {
    let ctx = scenario_context();
    let mut asg = scenario_assignment();
    let mut s = OptimizerState::init(&ctx, &asg);
    let before = s.clone();
    // Role 2 may not hold role 0's key 0.
    let snap = s.propose_swap(&ctx, &mut asg, 0, 2);
    assert!(snap.is_none());
    assert_eq!(s, before);
    assert_eq!(asg, scenario_assignment());
}

#[test]
fn test_equal_key_swap_is_noop_trial() {
    // Two distinct roles holding the same mutually permitted key: the
    // swap passes the fast checks and proceeds as an identity move that
    // changes nothing, so the caller's delta is zero and it is kept.
    let ctx = scenario_context();
    let mut asg: Vec<u8> = vec![1, 1, 1];
    let mut s = OptimizerState::init(&ctx, &asg);
    let before = s.clone();
    let snap = s.propose_swap(&ctx, &mut asg, 0, 1).expect("identity swap must proceed");
    assert_eq!(s, before);
    assert_eq!(asg, vec![1, 1, 1]);
    let kept = s.resolve_swap(&mut asg, 0, 1, snap, true);
    assert!(kept);
    assert_eq!(s, before);
    assert_eq!(asg, vec![1, 1, 1]);
}

#[test]
fn test_equal_key_swap_rejected_restores() {
    let ctx = scenario_context();
    let mut asg: Vec<u8> = vec![1, 1, 1];
    let mut s = OptimizerState::init(&ctx, &asg);
    let before = s.clone();
    let snap = s.propose_swap(&ctx, &mut asg, 0, 1).expect("identity swap must proceed");
    let kept = s.resolve_swap(&mut asg, 0, 1, snap, false);
    assert!(!kept);
    assert_eq!(s, before);
    assert_eq!(asg, vec![1, 1, 1]);
}

#[test]
fn test_swap_creates_collision_accepted() {
    let ctx = scenario_context();
    let mut asg = scenario_assignment();
    let mut s = OptimizerState::init(&ctx, &asg);
    let pre_collisions = s.total_collisions;
    let pre_freq = s.collision_frequency;
    let snap = s.propose_swap(&ctx, &mut asg, 0, 1).expect("swap must pass the fast checks");
    assert_eq!(asg, vec![1, 0, 1]);
    // One new collision; both occupants' frequencies now count.
    assert_eq!(s.total_collisions, pre_collisions + 1);
    assert_eq!(s.collision_frequency, pre_freq + 15);
    let kept = s.resolve_swap(&mut asg, 0, 1, snap, true);
    assert!(kept);
    assert_eq!(s.total_collisions, 1);
    assert_eq!(s.collision_frequency, 15);
    assert_eq!(asg, vec![1, 0, 1]);
}

#[test]
fn test_swap_rejected_restores() {
    let ctx = scenario_context();
    let mut asg = scenario_assignment();
    let mut s = OptimizerState::init(&ctx, &asg);
    let before = s.clone();
    let snap = s.propose_swap(&ctx, &mut asg, 0, 1).expect("swap must pass the fast checks");
    let kept = s.resolve_swap(&mut asg, 0, 1, snap, false);
    assert!(!kept);
    assert_eq!(s, before);
    assert_eq!(asg, scenario_assignment());
}

#[test]
fn test_consistency_after_accept() {
    let ctx = scenario_context();
    let mut asg = scenario_assignment();
    let mut s = OptimizerState::init(&ctx, &asg);
    let snap = s.propose_swap(&ctx, &mut asg, 0, 1).expect("swap must pass the fast checks");
    s.resolve_swap(&mut asg, 0, 1, snap, true);
    // Every maintained structure equals a from-scratch recomputation.
    let fresh = OptimizerState::init(&ctx, &asg);
    assert_eq!(s, fresh);
}

#[test]
fn test_double_round_trip() {
    let ctx = scenario_context();
    let mut asg = scenario_assignment();
    let mut s = OptimizerState::init(&ctx, &asg);
    let original = s.clone();
    let snap = s.propose_swap(&ctx, &mut asg, 0, 1).expect("first swap");
    s.resolve_swap(&mut asg, 0, 1, snap, true);
    let snap2 = s.propose_swap(&ctx, &mut asg, 0, 1).expect("inverse swap");
    s.resolve_swap(&mut asg, 0, 1, snap2, true);
    assert_eq!(asg, scenario_assignment());
    assert_eq!(s, original);
}

#[test]
fn test_double_rejection_round_trip() {
    let ctx = scenario_context();
    let mut asg = scenario_assignment();
    let mut s = OptimizerState::init(&ctx, &asg);
    let original = s.clone();
    let snap = s.propose_swap(&ctx, &mut asg, 0, 1).expect("first swap");
    s.resolve_swap(&mut asg, 0, 1, snap, false);
    let snap2 = s.propose_swap(&ctx, &mut asg, 0, 1).expect("second swap");
    s.resolve_swap(&mut asg, 0, 1, snap2, false);
    assert_eq!(asg, scenario_assignment());
    assert_eq!(s, original);
}

#[test]
fn test_update_buckets_for_char_deltas() {
    let ctx = scenario_context();
    let mut asg = scenario_assignment();
    let mut s = OptimizerState::init(&ctx, &asg);
    let snap = s.propose_swap(&ctx, &mut asg, 0, 1).expect("swap");
    s.resolve_swap(&mut asg, 0, 1, snap, true);
    // Bucket 1 now holds items 0 and 1 with frequencies 10 and 5. Moving
    // the 10-weight item out dissolves the collision entirely: both
    // occupants leave the collision count's frequency sum.
    let (cd, fd) = s.update_buckets_for_char(1, 0, 10);
    assert_eq!(cd, -1);
    assert_eq!(fd, -15);
    assert_eq!(s.buckets[1], 1);
    assert_eq!(s.buckets[0], 1);
    assert_eq!(s.bucket_freqs[1], 5);
    assert_eq!(s.bucket_freqs[0], 10);
}

#[test]
fn test_update_swap_diff_fast_applies_batch() {
    let ctx = scenario_context();
    let asg = scenario_assignment();
    let mut s = OptimizerState::init(&ctx, &asg);
    // Swap entries by hand, then run the diff updater over the touched item.
    let new_asg: Vec<u8> = vec![1, 0, 1];
    let affected: Vec<usize> = vec![0];
    s.update_swap_diff_fast(&ctx, &new_asg, &affected);
    assert_eq!(s, OptimizerState::init(&ctx, &new_asg));
    assert_eq!(s.total_collisions, 1);
    assert_eq!(s.collision_frequency, 15);
    // item 0 now holds key 1 with cost 2: contribution 20, squared 40.
    assert_eq!(s.total_equiv_weighted, 30);
    assert_eq!(s.total_equiv_sq_weighted, 60);
    assert_eq!(s.key_weighted_usage, vec![0, 15, 0]);
}

#[test]
fn test_shared_bucket_aliasing() {
    // Both affected items share one bucket before and after the move:
    // the second item's diff pass sees the bucket already half-updated.
    let ctx = aliasing_context();
    let mut asg: Vec<u8> = vec![0, 1];
    let mut s = OptimizerState::init(&ctx, &asg);
    // Both items have keys [0, 1], code 0*2+1 = 1.
    assert_eq!(s.buckets[1], 2);
    assert_eq!(s.total_collisions, 1);
    assert_eq!(s.collision_frequency, 10);
    let snap = s.propose_swap(&ctx, &mut asg, 0, 1).expect("swap");
    // Both items moved together to code 1*2+0 = 2; still one collision.
    assert_eq!(s.buckets[1], 0);
    assert_eq!(s.buckets[2], 2);
    assert_eq!(s.total_collisions, 1);
    assert_eq!(s.collision_frequency, 10);
    s.resolve_swap(&mut asg, 0, 1, snap, true);
    assert_eq!(s, OptimizerState::init(&ctx, &asg));
}

#[test]
fn test_swap_with_no_affected_items() {
    // A legal swap of two roles no item depends on changes the
    // assignment but no aggregate.
    let ctx = OptContext {
        allowed: vec![vec![true, true], vec![true, true], vec![true, false]],
        affected: vec![vec![], vec![], vec![0]],
        item_roles: vec![vec![2]],
        freqs: vec![9],
        key_cost: vec![4, 6],
        num_keys: 2,
        num_codes: 4,
    };
    let mut asg: Vec<u8> = vec![0, 1, 0];
    let mut s = OptimizerState::init(&ctx, &asg);
    let before = s.clone();
    let snap = s.propose_swap(&ctx, &mut asg, 0, 1).expect("swap");
    assert_eq!(asg, vec![1, 0, 0]);
    assert_eq!(s, before);
    s.resolve_swap(&mut asg, 0, 1, snap, true);
    assert_eq!(s, before);
}
