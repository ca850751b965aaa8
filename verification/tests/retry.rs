use raze_cli::progress::{ProgressCounters, ReportStep, REPORT_INTERVAL_MILLIS};
use raze_cli::retry::{RetryPolicy, RetryStep, TaskRun, TaskStatus, BACKOFF_MILLIS, MAX_ATTEMPTS};

#[test]
fn task_that_always_fails_is_tried_five_times_and_counted_once() {
    let policy = RetryPolicy::standard();
    assert_eq!(policy, RetryPolicy { max_attempts: 5, backoff_ms: 5000 });
    let mut counters = ProgressCounters::new(1);
    let mut run = TaskRun::start(policy);
    let mut pauses: u32 = 0;
    let mut counted: u32 = 0;
    for attempt in 1..=20u32 {
        let step = run.record_attempt(false);
        if attempt < 5 {
            assert_eq!(step, RetryStep::RetryAfter { millis: 5000 });
            assert!(!run.is_over());
            pauses += 1;
        } else if attempt == 5 {
            assert_eq!(step, RetryStep::Complete { succeeded: false });
        } else {
            assert_eq!(step, RetryStep::Ignored);
        }
        if counters.record_step(step) {
            counted += 1;
        }
    }
    assert_eq!(run.attempts, 5);
    assert_eq!(run.status, TaskStatus::Exhausted);
    assert!(run.is_over());
    assert_eq!(pauses, 4);
    assert_eq!(counted, 1);
    assert_eq!(counters.completed, 1);
    assert!(counters.is_finished());
}

#[test]
fn task_stops_at_its_first_success() {
    let mut run = TaskRun::start(RetryPolicy::standard());
    assert_eq!(run.record_attempt(false), RetryStep::RetryAfter { millis: BACKOFF_MILLIS });
    assert_eq!(run.record_attempt(false), RetryStep::RetryAfter { millis: BACKOFF_MILLIS });
    assert_eq!(run.record_attempt(true), RetryStep::Complete { succeeded: true });
    assert_eq!(run.attempts, 3);
    assert_eq!(run.status, TaskStatus::Succeeded);
    assert_eq!(run.record_attempt(false), RetryStep::Ignored);
    assert_eq!(run.record_attempt(true), RetryStep::Ignored);
    assert_eq!(run.attempts, 3);
    assert_eq!(run.status, TaskStatus::Succeeded);
}

#[test]
fn success_at_the_last_attempt_still_counts_as_success() {
    let mut run = TaskRun::start(RetryPolicy::standard());
    for _ in 0..MAX_ATTEMPTS - 1 {
        run.record_attempt(false);
    }
    assert_eq!(run.record_attempt(true), RetryStep::Complete { succeeded: true });
    assert_eq!(run.attempts, MAX_ATTEMPTS);
    assert_eq!(run.status, TaskStatus::Succeeded);
}

#[test]
fn policy_needs_one_attempt_at_least() {
    assert_eq!(RetryPolicy::new(0, 100), None);
    assert_eq!(RetryPolicy::new(1, 0), Some(RetryPolicy { max_attempts: 1, backoff_ms: 0 }));
    let once = RetryPolicy::new(1, 7).unwrap();
    let mut run = TaskRun::start(once);
    assert_eq!(run, TaskRun { policy: once, attempts: 0, status: TaskStatus::Pending });
    assert_eq!(run.record_attempt(false), RetryStep::Complete { succeeded: false });
    assert_eq!(run.attempts, 1);
    let thrice = RetryPolicy::new(3, 250).unwrap();
    let mut run = TaskRun::start(thrice);
    assert_eq!(run.record_attempt(false), RetryStep::RetryAfter { millis: 250 });
    assert_eq!(run.record_attempt(false), RetryStep::RetryAfter { millis: 250 });
    assert_eq!(run.record_attempt(false), RetryStep::Complete { succeeded: false });
    assert_eq!(run.status, TaskStatus::Exhausted);
}

#[test]
fn counters_count_each_completion_once_and_stop_at_the_plan() {
    let mut counters = ProgressCounters::new(2);
    assert_eq!(counters, ProgressCounters { planned: 2, completed: 0 });
    assert!(!counters.is_finished());
    assert!(!counters.record_step(RetryStep::RetryAfter { millis: 1 }));
    assert!(!counters.record_step(RetryStep::Ignored));
    assert_eq!(counters.completed, 0);
    assert!(counters.record_step(RetryStep::Complete { succeeded: true }));
    assert_eq!(counters.completed, 1);
    counters.record_completion();
    assert_eq!(counters.completed, 2);
    assert!(counters.is_finished());
    counters.record_completion();
    assert_eq!(counters.completed, 2);
}

#[test]
fn report_shows_the_share_completed() {
    assert_eq!(REPORT_INTERVAL_MILLIS, 1000);
    assert_eq!(ProgressCounters::new(0).report(), ReportStep::Nothing);
    let mut counters = ProgressCounters::new(3);
    assert_eq!(
        counters.report(),
        ReportStep::Status { completed: 0, planned: 3, percent: 0, finished: false }
    );
    counters.record_completion();
    assert_eq!(counters.percent(), 33);
    counters.record_completion();
    assert_eq!(
        counters.report(),
        ReportStep::Status { completed: 2, planned: 3, percent: 66, finished: false }
    );
    counters.record_completion();
    assert_eq!(
        counters.report(),
        ReportStep::Status { completed: 3, planned: 3, percent: 100, finished: true }
    );
    let many = ProgressCounters { planned: usize::MAX, completed: usize::MAX - 1 };
    assert_eq!(many.percent(), 99);
    let odd = ProgressCounters { planned: 100, completed: 29 };
    assert_eq!(odd.percent(), 29);
    assert_eq!(ProgressCounters { planned: 0, completed: 0 }.percent(), 100);
}
