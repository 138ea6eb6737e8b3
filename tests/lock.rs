use neuromancer::lock::{AcquireState, LockAction, LockEvent, RetryPolicy};

#[test]
fn acquired_lock_proceeds() {
    let policy = RetryPolicy { max_attempts: 3 };
    let mut state = AcquireState::new();
    assert_eq!(state.next_action(&policy, LockEvent::Acquired), LockAction::Proceed);
    assert_eq!(state.failures, 0);
}

#[test]
fn poisoned_lock_backs_off_then_gives_up() {
    let policy = RetryPolicy { max_attempts: 3 };
    let mut state = AcquireState::new();
    assert_eq!(state.next_action(&policy, LockEvent::Poisoned), LockAction::Backoff);
    assert_eq!(state.next_action(&policy, LockEvent::Contended), LockAction::Retry);
    assert_eq!(state.next_action(&policy, LockEvent::Poisoned), LockAction::GiveUp);
    assert_eq!(state.failures, 3);
    assert_eq!(state.next_action(&policy, LockEvent::Contended), LockAction::GiveUp);
}

#[test]
fn zero_budget_gives_up_at_first_failure() {
    let policy = RetryPolicy { max_attempts: 0 };
    let mut state = AcquireState::new();
    assert_eq!(state.next_action(&policy, LockEvent::Contended), LockAction::GiveUp);
}

#[test]
fn largest_budget_does_not_overflow() {
    let policy = RetryPolicy { max_attempts: u32::MAX };
    let mut state = AcquireState { failures: u32::MAX - 1 };
    assert_eq!(state.next_action(&policy, LockEvent::Poisoned), LockAction::GiveUp);
    assert_eq!(state.failures, u32::MAX);
}
