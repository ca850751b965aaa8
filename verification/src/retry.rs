//! How often a task is attempted before it is given up.

use vstd::prelude::*;

verus! {

/// The number of attempts that a task gets under the standard policy.
pub const MAX_ATTEMPTS: u32 = 5;

/// The pause between two attempts under the standard policy, in milliseconds.
pub const BACKOFF_MILLIS: u64 = 5000;

/// How often a task is attempted and how long it rests between attempts.
/// The pause is the same after every failure: it neither grows nor varies.
#[derive(Clone, Copy, Debug, PartialEq, Eq, Structural)]
pub struct RetryPolicy {
    pub max_attempts: u32,
    pub backoff_ms: u64,
}

impl RetryPolicy {
    /// A policy allows one attempt at least.
    pub open spec fn wf(&self) -> bool {
        self.max_attempts >= 1
    }

    /// The policy with the given number of attempts and pause, or `None`
    /// where it would allow no attempt.
    pub fn new(max_attempts: u32, backoff_ms: u64) -> (policy: Option<RetryPolicy>)
        ensures
            policy == if max_attempts >= 1 {
                Some(RetryPolicy { max_attempts, backoff_ms })
            } else {
                None
            },
            policy matches Some(p) ==> p.wf(),
    {
        if max_attempts >= 1 {
            Some(RetryPolicy { max_attempts, backoff_ms })
        } else {
            None
        }
    }

    /// The standard policy.
    pub fn standard() -> (policy: RetryPolicy)
        ensures
            policy == (RetryPolicy { max_attempts: MAX_ATTEMPTS, backoff_ms: BACKOFF_MILLIS }),
            policy.wf(),
    {
        RetryPolicy { max_attempts: MAX_ATTEMPTS, backoff_ms: BACKOFF_MILLIS }
    }
}

/// Where a task stands.
#[derive(Clone, Copy, Debug, PartialEq, Eq, Structural)]
pub enum TaskStatus {
    /// Another attempt is due.
    Pending,
    /// An attempt succeeded.
    Succeeded,
    /// Every attempt that the policy allows has failed.
    Exhausted,
}

/// What follows an attempt.
#[derive(Clone, Copy, Debug, PartialEq, Eq, Structural)]
pub enum RetryStep {
    /// The task has just ended and counts as completed, whether it succeeded
    /// or ran out of attempts.
    Complete { succeeded: bool },
    /// The attempt failed; rest for this many milliseconds, then try again.
    RetryAfter { millis: u64 },
    /// The task had ended before: there is nothing to do and nothing to count.
    Ignored,
}

/// The course of one task: the attempts made so far and where it stands.
#[derive(Clone, Copy, Debug, PartialEq, Eq, Structural)]
pub struct TaskRun {
    pub policy: RetryPolicy,
    pub attempts: u32,
    pub status: TaskStatus,
}

/// One more than `count`, unless the counter is at its limit already.
pub open spec fn next_count(count: u32) -> u32 {
    if count < u32::MAX {
        (count + 1) as u32
    } else {
        count
    }
}

/// A task that has not been attempted yet.
pub open spec fn fresh_run(policy: RetryPolicy) -> TaskRun {
    TaskRun { policy, attempts: 0, status: TaskStatus::Pending }
}

/// The course of a task after one more attempt, and what follows it.
pub open spec fn after_attempt(run: TaskRun, succeeded: bool) -> (TaskRun, RetryStep) {
    if run.status != TaskStatus::Pending {
        (run, RetryStep::Ignored)
    } else if succeeded {
        (
            TaskRun {
                policy: run.policy,
                attempts: next_count(run.attempts),
                status: TaskStatus::Succeeded,
            },
            RetryStep::Complete { succeeded: true },
        )
    } else if next_count(run.attempts) >= run.policy.max_attempts {
        (
            TaskRun {
                policy: run.policy,
                attempts: next_count(run.attempts),
                status: TaskStatus::Exhausted,
            },
            RetryStep::Complete { succeeded: false },
        )
    } else {
        (
            TaskRun {
                policy: run.policy,
                attempts: next_count(run.attempts),
                status: TaskStatus::Pending,
            },
            RetryStep::RetryAfter { millis: run.policy.backoff_ms },
        )
    }
}

/// The course of a task after the attempts whose results are `outcomes`, in
/// that order.
pub open spec fn after_attempts(run: TaskRun, outcomes: Seq<bool>) -> TaskRun
    decreases outcomes.len(),
{
    if outcomes.len() == 0 {
        run
    } else {
        after_attempt(after_attempts(run, outcomes.drop_last()), outcomes.last()).0
    }
}

/// How often the task was reported as completed in the course of the
/// attempts whose results are `outcomes`.
pub open spec fn completions(run: TaskRun, outcomes: Seq<bool>) -> nat
    decreases outcomes.len(),
{
    if outcomes.len() == 0 {
        0
    } else {
        let earlier = completions(run, outcomes.drop_last());
        match after_attempt(after_attempts(run, outcomes.drop_last()), outcomes.last()).1 {
            RetryStep::Complete { .. } => earlier + 1,
            _ => earlier,
        }
    }
}

impl TaskRun {
    /// The run's invariant: a pending task has attempts left, an exhausted
    /// one has used them all, and one that succeeded was attempted.
    pub open spec fn wf(&self) -> bool {
        &&& self.policy.wf()
        &&& self.attempts <= self.policy.max_attempts
        &&& self.status == TaskStatus::Pending ==> self.attempts < self.policy.max_attempts
        &&& self.status == TaskStatus::Exhausted ==> self.attempts == self.policy.max_attempts
        &&& self.status == TaskStatus::Succeeded ==> self.attempts >= 1
    }

    /// Starts a task under `policy`.
    pub fn start(policy: RetryPolicy) -> (run: TaskRun)
        ensures
            run == fresh_run(policy),
            policy.wf() ==> run.wf(),
    {
        TaskRun { policy, attempts: 0, status: TaskStatus::Pending }
    }

    /// Whether the task has ended.
    pub fn is_over(&self) -> (over: bool)
        ensures
            over == (self.status != TaskStatus::Pending),
    {
        match self.status {
            TaskStatus::Pending => false,
            _ => true,
        }
    }

    /// Takes note of the result of one attempt and says what follows: the
    /// task is complete after a success or after the last attempt that the
    /// policy allows, and is retried after a pause otherwise.
    pub fn record_attempt(&mut self, succeeded: bool) -> (step: RetryStep)
        ensures
            (*final(self), step) == after_attempt(*old(self), succeeded),
            old(self).wf() ==> final(self).wf(),
    {
        match self.status {
            TaskStatus::Pending => {
                if self.attempts < u32::MAX {
                    self.attempts = self.attempts + 1;
                }
                if succeeded {
                    self.status = TaskStatus::Succeeded;
                    RetryStep::Complete { succeeded: true }
                } else if self.attempts >= self.policy.max_attempts {
                    self.status = TaskStatus::Exhausted;
                    RetryStep::Complete { succeeded: false }
                } else {
                    RetryStep::RetryAfter { millis: self.policy.backoff_ms }
                }
            },
            _ => RetryStep::Ignored,
        }
    }
}

/// Failures only: the course of a task after `outcomes.len()` failed
/// attempts.
proof fn lemma_failures(policy: RetryPolicy, outcomes: Seq<bool>)
    requires
        policy.wf(),
        forall|i: int| 0 <= i < outcomes.len() ==> !outcomes[i],
    ensures
        after_attempts(fresh_run(policy), outcomes).policy == policy,
        outcomes.len() < policy.max_attempts ==> {
            &&& after_attempts(fresh_run(policy), outcomes).attempts == outcomes.len()
            &&& after_attempts(fresh_run(policy), outcomes).status == TaskStatus::Pending
            &&& completions(fresh_run(policy), outcomes) == 0
        },
        outcomes.len() >= policy.max_attempts ==> {
            &&& after_attempts(fresh_run(policy), outcomes).attempts == policy.max_attempts
            &&& after_attempts(fresh_run(policy), outcomes).status == TaskStatus::Exhausted
            &&& completions(fresh_run(policy), outcomes) == 1
        },
    decreases outcomes.len(),
{
    if outcomes.len() > 0 {
        lemma_failures(policy, outcomes.drop_last());
    }
}

/// A task that fails on every attempt is attempted exactly as often as the
/// policy allows, ends as exhausted, and is reported as completed exactly
/// once, however often its operation would have gone on failing.
pub proof fn law_exhausted_task_completes_once(policy: RetryPolicy, outcomes: Seq<bool>)
    requires
        policy.wf(),
        outcomes.len() >= policy.max_attempts,
        forall|i: int| 0 <= i < outcomes.len() ==> !outcomes[i],
    ensures
        after_attempts(fresh_run(policy), outcomes).attempts == policy.max_attempts,
        after_attempts(fresh_run(policy), outcomes).status == TaskStatus::Exhausted,
        completions(fresh_run(policy), outcomes) == 1,
{
    lemma_failures(policy, outcomes);
}

/// Whatever the results of its attempts, a task is never reported as
/// completed twice, and it is reported once as soon as it has ended.
pub proof fn law_task_completes_at_most_once(policy: RetryPolicy, outcomes: Seq<bool>)
    requires
        policy.wf(),
    ensures
        after_attempts(fresh_run(policy), outcomes).wf(),
        after_attempts(fresh_run(policy), outcomes).policy == policy,
        completions(fresh_run(policy), outcomes) == if after_attempts(
            fresh_run(policy),
            outcomes,
        ).status == TaskStatus::Pending {
            0nat
        } else {
            1nat
        },
    decreases outcomes.len(),
{
    if outcomes.len() > 0 {
        law_task_completes_at_most_once(policy, outcomes.drop_last());
    }
}

/// A task whose first success comes with attempt `k + 1`, within the
/// attempts that the policy allows, has made exactly that many attempts and
/// has succeeded.
pub proof fn law_task_stops_at_first_success(policy: RetryPolicy, outcomes: Seq<bool>, k: int)
    requires
        policy.wf(),
        0 <= k < outcomes.len(),
        k < policy.max_attempts,
        outcomes[k],
        forall|i: int| 0 <= i < k ==> !outcomes[i],
    ensures
        after_attempts(fresh_run(policy), outcomes).attempts == k + 1,
        after_attempts(fresh_run(policy), outcomes).status == TaskStatus::Succeeded,
    decreases outcomes.len(),
{
    let head = outcomes.drop_last();
    if outcomes.len() - 1 == k {
        lemma_failures(policy, head);
    } else {
        law_task_stops_at_first_success(policy, head, k);
    }
}

} // verus!
