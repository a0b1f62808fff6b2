use aleo_core::testchain::{testchain_batch_plan, TESTCHAIN_BATCH_SIZE};

#[test]
fn testchain_plan_batches() {
    // 250 blocks, the first 120 empty, 260 transactions: two per block from height 120.
    let plan = testchain_batch_plan(250, 120, 260);
    assert_eq!(plan, vec![(100, 0), (100, 160), (50, 100)]);
    assert_eq!(plan.iter().map(|b| b.0).sum::<usize>(), 250);
    assert_eq!(plan.iter().map(|b| b.1).sum::<usize>(), 260);
    assert!(plan.iter().all(|b| b.0 <= TESTCHAIN_BATCH_SIZE));
}

#[test]
fn testchain_plan_edges() {
    // No transactions.
    assert_eq!(testchain_batch_plan(5, 0, 0), vec![(5, 0)]);
    // Exactly one full batch.
    assert_eq!(testchain_batch_plan(100, 99, 7), vec![(100, 7)]);
    // All blocks carry transactions.
    assert_eq!(testchain_batch_plan(201, 0, 201), vec![(100, 100), (100, 100), (1, 1)]);
}
