use entity_loader::loader::{load, TableEnv};

fn env2(refs: [u64; 2]) -> TableEnv {
    TableEnv { table_refs: vec![refs[0], refs[1]], nested_refs: vec![Vec::new(), Vec::new()] }
}

#[test]
fn fresh_loader_selects_nothing() {
    let env = env2([10, 20]);
    let l = load(&env);
    assert_eq!(l.with.flags, vec![false, false]);
    assert!(l.with.is_empty());
}

#[test]
fn with_selects_matching_relation() {
    let env = env2([10, 20]);
    let l = load(&env).with(&env, (20, None));
    assert_eq!(l.with.flags, vec![false, true]);
}

#[test]
fn with_unknown_identity_selects_nothing() {
    let env = env2([10, 20]);
    let l = load(&env).with(&env, (99, None));
    assert_eq!(l.with.flags, vec![false, false]);
}

#[test]
fn with_is_idempotent() {
    let env = env2([10, 20]);
    let once = load(&env).with(&env, (10, None));
    let twice = load(&env).with(&env, (10, None)).with(&env, (10, None));
    assert_eq!(once.with.flags, twice.with.flags);
    for (a, b) in once.nest.nests.iter().zip(twice.nest.nests.iter()) {
        assert_eq!(a.flags, b.flags);
    }
}

#[test]
fn nested_with_is_idempotent() {
    let env = TableEnv { table_refs: vec![10, 20], nested_refs: vec![vec![7, 8], vec![9]] };
    let once = load(&env).with(&env, (10, Some(8)));
    let twice = load(&env).with(&env, (10, Some(8))).with(&env, (10, Some(8)));
    assert_eq!(once.with.flags, twice.with.flags);
    for (a, b) in once.nest.nests.iter().zip(twice.nest.nests.iter()) {
        assert_eq!(a.flags, b.flags);
    }
    assert_eq!(once.nest.nests[0].flags, vec![false, true]);
}

#[test]
fn duplicate_targets_single_dispatch_sets_only_earliest() {
    // Two descriptors share one target identity: the earliest-declared one
    // wins and the later one's branch is unreachable dead code.
    let env = TableEnv { table_refs: vec![7, 7], nested_refs: vec![Vec::new(), Vec::new()] };
    let l = load(&env).with(&env, (7, None));
    assert_eq!(l.with.flags, vec![true, false]);
}

#[test]
fn duplicate_targets_nested_dispatch_first_match_wins() {
    let env = TableEnv { table_refs: vec![7, 7], nested_refs: vec![vec![1], vec![1]] };
    let l = load(&env).with(&env, (7, Some(1)));
    // First match wins: only the earliest descriptor's flag and nest move.
    assert_eq!(l.with.flags, vec![true, false]);
    assert_eq!(l.nest.nests[0].flags, vec![true]);
    assert_eq!(l.nest.nests[1].flags, vec![false]);
}

#[test]
fn nested_selection_requires_matching_target() {
    let env = TableEnv { table_refs: vec![10], nested_refs: vec![vec![5, 6]] };
    let l = load(&env).with(&env, (10, Some(6)));
    assert_eq!(l.with.flags, vec![true]);
    assert_eq!(l.nest.nests[0].flags, vec![false, true]);
    assert!(!l.nest.nests[0].is_empty());
    // A second identity matching none of the target's relations leaves the
    // nest empty, though the owning flag is set.
    let l2 = load(&env).with(&env, (10, Some(42)));
    assert_eq!(l2.with.flags, vec![true]);
    assert!(l2.nest.nests[0].is_empty());
}
