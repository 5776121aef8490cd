use offchain_election::guard::{
    set_check_offchain_execution_status, ElectionHeadCell, GuardError, OFFCHAIN_REPEAT,
};

#[test]
fn first_run_writes_head_and_proceeds() {
    let mut cell = ElectionHeadCell::empty();
    assert_eq!(set_check_offchain_execution_status(&mut cell, 42), Ok(()));
    assert_eq!(cell.read(), Some(42));
}

#[test]
fn guard_idempotence_scenario() {
    // First call at height 10 proceeds; a second call inside the repeat
    // window is rejected as recently executed.
    let mut cell = ElectionHeadCell::empty();
    assert_eq!(set_check_offchain_execution_status(&mut cell, 10), Ok(()));
    let second = set_check_offchain_execution_status(&mut cell, 10 + OFFCHAIN_REPEAT);
    assert_eq!(second, Err(GuardError::RecentlyExecuted));
    // The head is untouched by the rejected call.
    assert_eq!(cell.read(), Some(10));
}

#[test]
fn guard_rejects_same_height_twice() {
    let mut cell = ElectionHeadCell::empty();
    assert_eq!(set_check_offchain_execution_status(&mut cell, 10), Ok(()));
    assert_eq!(
        set_check_offchain_execution_status(&mut cell, 10),
        Err(GuardError::RecentlyExecuted)
    );
}

#[test]
fn guard_fork_rejection_scenario() {
    // A height below the committed head is a fork, whatever the threshold.
    let mut cell = ElectionHeadCell::with_head(100);
    assert_eq!(
        set_check_offchain_execution_status(&mut cell, 99),
        Err(GuardError::Fork)
    );
    assert_eq!(
        set_check_offchain_execution_status(&mut cell, 0),
        Err(GuardError::Fork)
    );
    assert_eq!(cell.read(), Some(100));
}

#[test]
fn guard_reopens_after_threshold() {
    let mut cell = ElectionHeadCell::with_head(10);
    // Exactly at the edge of the window: still rejected.
    assert_eq!(
        set_check_offchain_execution_status(&mut cell, 10 + OFFCHAIN_REPEAT),
        Err(GuardError::RecentlyExecuted)
    );
    // One past the window: proceeds and moves the head.
    assert_eq!(
        set_check_offchain_execution_status(&mut cell, 10 + OFFCHAIN_REPEAT + 1),
        Ok(())
    );
    assert_eq!(cell.read(), Some(10 + OFFCHAIN_REPEAT + 1));
}

#[test]
fn compare_and_set_detects_lost_race() {
    let mut cell = ElectionHeadCell::with_head(7);
    // A writer that observed a stale value must not win.
    assert!(!cell.compare_and_set(Some(3), 20));
    assert_eq!(cell.read(), Some(7));
    assert!(cell.compare_and_set(Some(7), 20));
    assert_eq!(cell.read(), Some(20));
}
