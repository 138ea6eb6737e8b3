//! The decisions of lock acquisition with a bounded number of retries: a
//! poisoned lock is treated as contention, never as a permanent failure, and
//! sustained contention ends in giving up rather than in livelock.
use vstd::prelude::*;

verus! {

/// What an attempt to take a lock found.
#[derive(PartialEq, Eq, Structural, Clone, Copy, Debug)]
pub enum LockEvent {
    /// The lock reported itself poisoned; no acquisition was tried.
    Poisoned,
    /// The acquisition was tried and failed.
    Contended,
    /// The guard was obtained.
    Acquired,
}

/// What the caller does next.
#[derive(PartialEq, Eq, Structural, Clone, Copy, Debug)]
pub enum LockAction {
    /// Use the guard.
    Proceed,
    /// Try to acquire again at once.
    Retry,
    /// Spin with exponential backoff, then try again.
    Backoff,
    /// Stop trying: the retry budget is spent.
    GiveUp,
}

/// How many failed attempts an acquisition may make.
#[derive(PartialEq, Eq, Structural, Clone, Copy, Debug)]
pub struct RetryPolicy {
    pub max_attempts: u32,
}

/// The failed attempts of one acquisition so far.
#[derive(PartialEq, Eq, Structural, Clone, Copy, Debug)]
pub struct AcquireState {
    pub failures: u32,
}

/// The state after an event, and the action it calls for.
pub open spec fn acquire_step(policy: RetryPolicy, state: AcquireState, event: LockEvent) -> (
    AcquireState,
    LockAction,
) {
    match event {
        LockEvent::Acquired => (state, LockAction::Proceed),
        _ => if state.failures + 1 >= policy.max_attempts {
            (AcquireState { failures: policy.max_attempts }, LockAction::GiveUp)
        } else {
            (
                AcquireState { failures: (state.failures + 1) as u32 },
                if event == LockEvent::Poisoned {
                    LockAction::Backoff
                } else {
                    LockAction::Retry
                },
            )
        },
    }
}

impl AcquireState {
    pub fn new() -> (r: AcquireState)
        ensures
            r.failures == 0,
    {
        AcquireState { failures: 0 }
    }

    /// Records what an attempt found and says what to do next.
    pub fn next_action(&mut self, policy: &RetryPolicy, event: LockEvent) -> (r: LockAction)
        ensures
            (*final(self), r) == acquire_step(*policy, *old(self), event),
    {
        match event {
            LockEvent::Acquired => LockAction::Proceed,
            _ => {
                if self.failures >= policy.max_attempts || self.failures + 1 >= policy.max_attempts {
                    self.failures = policy.max_attempts;
                    LockAction::GiveUp
                } else {
                    self.failures = self.failures + 1;
                    if event == LockEvent::Poisoned {
                        LockAction::Backoff
                    } else {
                        LockAction::Retry
                    }
                }
            },
        }
    }
}

/// However the events fall, an acquisition gives up after at most
/// `max_attempts` failed attempts: from any state, each failure either brings
/// the count closer to the bound or gives up.
pub proof fn lemma_acquire_bounded(policy: RetryPolicy, state: AcquireState, event: LockEvent)
    requires
        state.failures < policy.max_attempts,
        event != LockEvent::Acquired,
    ensures
        acquire_step(policy, state, event).1 == LockAction::GiveUp || (
        acquire_step(policy, state, event).0.failures == state.failures + 1
            && acquire_step(policy, state, event).0.failures < policy.max_attempts),
{
}

} // verus!
