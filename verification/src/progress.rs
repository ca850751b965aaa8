//! The counters by which a session knows how far it has come.

use crate::retry::{
    after_attempt, after_attempts, completions, fresh_run, law_exhausted_task_completes_once,
    law_task_completes_at_most_once, RetryPolicy, RetryStep, TaskRun, TaskStatus,
};
use vstd::prelude::*;

verus! {

/// The time between two looks at the counters while tasks run, in
/// milliseconds.
pub const REPORT_INTERVAL_MILLIS: u64 = 1000;

/// How far a session has come: the number of tasks planned, set once before
/// the tasks are handed out, and the number completed so far. Workers share
/// one value and change it under exclusive access.
#[derive(Clone, Copy, Debug, PartialEq, Eq, Structural)]
pub struct ProgressCounters {
    pub planned: usize,
    pub completed: usize,
}

/// What the reporting loop does next.
#[derive(Clone, Copy, Debug, PartialEq, Eq, Structural)]
pub enum ReportStep {
    /// Nothing was planned: there is nothing to show and nothing to wait for.
    Nothing,
    /// Show this status; the loop ends once `finished` is set.
    Status { completed: usize, planned: usize, percent: u8, finished: bool },
}

/// The share of the planned tasks that is completed, in percent, rounded
/// down; 100 where nothing is left to do.
pub open spec fn percent_done(completed: nat, planned: nat) -> nat {
    if completed >= planned {
        100
    } else {
        completed * 100 / planned
    }
}

/// What the reporting loop does at the given counts.
pub open spec fn report_of(counters: ProgressCounters) -> ReportStep {
    if counters.planned == 0 {
        ReportStep::Nothing
    } else {
        ReportStep::Status {
            completed: counters.completed,
            planned: counters.planned,
            percent: percent_done(counters.completed as nat, counters.planned as nat) as u8,
            finished: counters.completed == counters.planned,
        }
    }
}

/// The counters after a worker has taken the given step on a task: a task
/// counts when it completes, with or without success, and at no other time.
pub open spec fn after_step(counters: ProgressCounters, step: RetryStep) -> ProgressCounters {
    match step {
        RetryStep::Complete { .. } => after_completion(counters),
        _ => counters,
    }
}

/// The counters after one more task has completed.
pub open spec fn after_completion(counters: ProgressCounters) -> ProgressCounters {
    if counters.completed < counters.planned {
        ProgressCounters { planned: counters.planned, completed: (counters.completed + 1) as usize }
    } else {
        counters
    }
}

/// A share of the planned tasks is at most all of them.
pub proof fn lemma_percent_bound(completed: nat, planned: nat)
    ensures
        percent_done(completed, planned) <= 100,
{
    if completed < planned {
        assert(completed * 100 / planned < 100) by (nonlinear_arith)
            requires
                completed < planned,
        ;
    }
}

impl ProgressCounters {
    /// The counters' invariant: no more tasks are completed than planned.
    pub open spec fn wf(&self) -> bool {
        self.completed <= self.planned
    }

    /// The counters of a session with `planned` tasks, none of them
    /// completed.
    pub fn new(planned: usize) -> (counters: Self)
        ensures
            counters == (ProgressCounters { planned, completed: 0 }),
            counters.wf(),
    {
        ProgressCounters { planned, completed: 0 }
    }

    /// Counts one more task as completed. The count never passes the number
    /// of tasks planned.
    pub fn record_completion(&mut self)
        ensures
            *final(self) == after_completion(*old(self)),
            old(self).wf() ==> final(self).wf(),
    {
        if self.completed < self.planned {
            self.completed = self.completed + 1;
        }
    }

    /// Counts the task on which a worker has taken `step`, if that step
    /// completed it; says whether it counted.
    pub fn record_step(&mut self, step: RetryStep) -> (counted: bool)
        ensures
            *final(self) == after_step(*old(self), step),
            counted == (step is Complete),
            old(self).wf() ==> final(self).wf(),
    {
        match step {
            RetryStep::Complete { .. } => {
                self.record_completion();
                true
            },
            _ => false,
        }
    }

    /// Whether every planned task is completed.
    pub fn is_finished(&self) -> (finished: bool)
        ensures
            finished == (self.completed == self.planned),
    {
        self.completed == self.planned
    }

    /// The share of the planned tasks that is completed, in percent.
    pub fn percent(&self) -> (percent: u8)
        ensures
            percent == percent_done(self.completed as nat, self.planned as nat),
            percent <= 100,
    {
        if self.completed >= self.planned {
            100
        } else {
            let done: u128 = self.completed as u128 * 100;
            let share: u128 = done / (self.planned as u128);
            proof {
                lemma_percent_bound(self.completed as nat, self.planned as nat);
            }
            share as u8
        }
    }

    /// What the reporting loop does now: nothing at all where nothing was
    /// planned, else it shows the status and goes on until all is completed.
    pub fn report(&self) -> (step: ReportStep)
        ensures
            step == report_of(*self),
    {
        if self.planned == 0 {
            ReportStep::Nothing
        } else {
            ReportStep::Status {
                completed: self.completed,
                planned: self.planned,
                percent: self.percent(),
                finished: self.completed == self.planned,
            }
        }
    }
}

/// The counters after a worker has made the attempts whose results are
/// `outcomes` on the task whose course starts at `run`, and has reported each
/// step to the counters.
pub open spec fn counters_after(counters: ProgressCounters, run: TaskRun, outcomes: Seq<bool>)
    -> ProgressCounters
    decreases outcomes.len(),
{
    if outcomes.len() == 0 {
        counters
    } else {
        after_step(
            counters_after(counters, run, outcomes.drop_last()),
            after_attempt(after_attempts(run, outcomes.drop_last()), outcomes.last()).1,
        )
    }
}

/// A task moves the count of completed tasks by as much as it was reported
/// as completed, which is once at most.
proof fn lemma_counters_after(counters: ProgressCounters, policy: RetryPolicy, outcomes: Seq<bool>)
    requires
        policy.wf(),
        counters.completed < counters.planned,
    ensures
        counters_after(counters, fresh_run(policy), outcomes) == (ProgressCounters {
            planned: counters.planned,
            completed: (counters.completed + completions(fresh_run(policy), outcomes)) as usize,
        }),
    decreases outcomes.len(),
{
    law_task_completes_at_most_once(policy, outcomes);
    if outcomes.len() > 0 {
        lemma_counters_after(counters, policy, outcomes.drop_last());
        law_task_completes_at_most_once(policy, outcomes.drop_last());
    }
}

/// A task that fails on every attempt raises the count of completed tasks
/// by exactly one: it is neither counted twice nor left out.
pub proof fn law_failed_task_is_counted_once(
    counters: ProgressCounters,
    policy: RetryPolicy,
    outcomes: Seq<bool>,
)
    requires
        policy.wf(),
        counters.completed < counters.planned,
        outcomes.len() >= policy.max_attempts,
        forall|i: int| 0 <= i < outcomes.len() ==> !outcomes[i],
    ensures
        counters_after(counters, fresh_run(policy), outcomes) == (ProgressCounters {
            planned: counters.planned,
            completed: (counters.completed + 1) as usize,
        }),
{
    lemma_counters_after(counters, policy, outcomes);
    law_exhausted_task_completes_once(policy, outcomes);
}

/// Whatever the results of its attempts, a task that has ended has raised
/// the count of completed tasks by exactly one, and one that has not ended
/// has not raised it.
pub proof fn law_ended_task_is_counted_once(
    counters: ProgressCounters,
    policy: RetryPolicy,
    outcomes: Seq<bool>,
)
    requires
        policy.wf(),
        counters.completed < counters.planned,
    ensures
        counters_after(counters, fresh_run(policy), outcomes).planned == counters.planned,
        counters_after(counters, fresh_run(policy), outcomes).completed == if after_attempts(
            fresh_run(policy),
            outcomes,
        ).status == TaskStatus::Pending {
            counters.completed as int
        } else {
            counters.completed + 1
        },
{
    lemma_counters_after(counters, policy, outcomes);
    law_task_completes_at_most_once(policy, outcomes);
}

} // verus!
