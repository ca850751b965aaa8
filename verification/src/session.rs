//! The phases of a session and the steps between them.

use crate::progress::ProgressCounters;
use vstd::prelude::*;

verus! {

/// The number of records asked for with each page of the remote listing.
pub const INDEX_PAGE_SIZE: u32 = 1000;

/// What a session is for.
#[derive(Clone, Copy, Debug, PartialEq, Eq, Structural)]
pub enum SessionMode {
    /// Upload what is new or changed.
    Backup,
    /// Delete remotely what is gone locally.
    Purge,
}

/// The phases of a session, in the order in which it passes through them.
#[derive(Clone, Copy, Debug, PartialEq, Eq, Structural)]
pub enum SessionPhase {
    Idle,
    BucketCheck,
    IndexFetch,
    Diff,
    Dispatch,
    Await,
    Persist,
}

/// What a session did: the tasks planned and completed, and the bytes that
/// the planned tasks stand for.
#[derive(Clone, Copy, Debug, PartialEq, Eq, Structural)]
pub struct SessionSummary {
    pub planned: usize,
    pub completed: usize,
    pub bytes: u128,
}

/// How a session ended.
#[derive(Clone, Copy, Debug, PartialEq, Eq, Structural)]
pub enum SessionEnd {
    /// No bucket is selected. Nothing was read or sent.
    NoActiveBucket,
    /// The local scan found no file. Nothing was sent.
    EmptyFileList,
    /// The remote listing could not be had, so nothing could be compared
    /// and no task was handed out.
    IndexUnavailable,
    /// The diff left no task.
    NothingToDo,
    /// Every task reached its end. `persisted` tells whether the outcome
    /// could be written down; what was done remotely stays done either way.
    Completed { summary: SessionSummary, persisted: bool },
}

/// What the surroundings report back to a session.
#[derive(Clone, Copy, Debug, PartialEq, Eq, Structural)]
pub enum SessionEvent {
    /// The local files were listed; `files` is their number.
    LocalScanned { files: usize },
    /// The remote listing was asked for; `ok` tells whether it came.
    IndexFetched { ok: bool },
    /// The diff was made: it plans `operations` tasks that stand for `bytes`
    /// bytes.
    Planned { operations: usize, bytes: u128 },
    /// The tasks were handed to the workers.
    Dispatched,
    /// The counters as the reporting loop last saw them.
    Progress { counters: ProgressCounters },
    /// The outcome was written down, or could not be.
    Persisted { ok: bool },
}

/// What a session asks its surroundings to do next.
#[derive(Clone, Copy, Debug, PartialEq, Eq, Structural)]
pub enum SessionAction {
    /// List the local files.
    ScanLocalFiles,
    /// Fetch the whole remote listing, page by page, and index it.
    FetchRemoteIndex { page_size: u32 },
    /// Compare the local files with the index.
    ComputePlan,
    /// Hand the planned tasks to the workers.
    DispatchTasks,
    /// Wait until the counters show that every task is completed.
    AwaitCompletion,
    /// Write the outcome down; `record_backup_time` tells whether the time
    /// of the last backup is set to now.
    PersistOutcome { record_backup_time: bool },
    /// The session is over.
    Finish { end: SessionEnd },
    /// The event does not belong to the phase; nothing has changed.
    Reject,
}

/// One run of a backup or a purge, from the check of the bucket to the
/// writing down of the outcome.
#[derive(Clone, Copy, Debug, PartialEq, Eq, Structural)]
pub struct Session {
    pub mode: SessionMode,
    pub phase: SessionPhase,
    pub planned: usize,
    pub completed: usize,
    pub bytes: u128,
}

/// The session of the given mode at rest.
pub open spec fn idle_session(mode: SessionMode) -> Session {
    Session { mode, phase: SessionPhase::Idle, planned: 0, completed: 0, bytes: 0 }
}

/// The session of the given mode in the given phase, with nothing planned
/// yet.
pub open spec fn unplanned_session(mode: SessionMode, phase: SessionPhase) -> Session {
    Session { mode, phase, planned: 0, completed: 0, bytes: 0 }
}

/// The start of a session: without a selected bucket it is over at once,
/// else the local files are listed first.
pub open spec fn session_start(mode: SessionMode, bucket_selected: bool) -> (
    Session,
    SessionAction,
) {
    if bucket_selected {
        (unplanned_session(mode, SessionPhase::BucketCheck), SessionAction::ScanLocalFiles)
    } else {
        (
            idle_session(mode),
            SessionAction::Finish { end: SessionEnd::NoActiveBucket },
        )
    }
}

/// The session after an event, and what it asks for next.
pub open spec fn session_step(session: Session, event: SessionEvent) -> (Session, SessionAction) {
    match (session.phase, event) {
        (SessionPhase::BucketCheck, SessionEvent::LocalScanned { files }) => {
            if files == 0 {
                (
                    idle_session(session.mode),
                    SessionAction::Finish { end: SessionEnd::EmptyFileList },
                )
            } else {
                (
                    unplanned_session(session.mode, SessionPhase::IndexFetch),
                    SessionAction::FetchRemoteIndex { page_size: INDEX_PAGE_SIZE },
                )
            }
        },
        (SessionPhase::IndexFetch, SessionEvent::IndexFetched { ok }) => {
            if ok {
                (unplanned_session(session.mode, SessionPhase::Diff), SessionAction::ComputePlan)
            } else {
                (
                    idle_session(session.mode),
                    SessionAction::Finish { end: SessionEnd::IndexUnavailable },
                )
            }
        },
        (SessionPhase::Diff, SessionEvent::Planned { operations, bytes }) => {
            if operations == 0 {
                (
                    idle_session(session.mode),
                    SessionAction::Finish { end: SessionEnd::NothingToDo },
                )
            } else {
                (
                    Session {
                        mode: session.mode,
                        phase: SessionPhase::Dispatch,
                        planned: operations,
                        completed: 0,
                        bytes,
                    },
                    SessionAction::DispatchTasks,
                )
            }
        },
        (SessionPhase::Dispatch, SessionEvent::Dispatched) => (
            Session { phase: SessionPhase::Await, ..session },
            SessionAction::AwaitCompletion,
        ),
        (SessionPhase::Await, SessionEvent::Progress { counters }) => {
            if counters.planned == session.planned && counters.completed == counters.planned {
                (
                    Session {
                        phase: SessionPhase::Persist,
                        completed: counters.completed,
                        ..session
                    },
                    SessionAction::PersistOutcome {
                        record_backup_time: session.mode == SessionMode::Backup,
                    },
                )
            } else {
                (session, SessionAction::AwaitCompletion)
            }
        },
        (SessionPhase::Persist, SessionEvent::Persisted { ok }) => (
            idle_session(session.mode),
            SessionAction::Finish {
                end: SessionEnd::Completed {
                    summary: SessionSummary {
                        planned: session.planned,
                        completed: session.completed,
                        bytes: session.bytes,
                    },
                    persisted: ok,
                },
            },
        ),
        _ => (session, SessionAction::Reject),
    }
}

impl Session {
    /// The session's invariant: tasks are planned from the dispatch on and
    /// not before, and all of them are completed once the outcome is written
    /// down.
    pub open spec fn wf(&self) -> bool {
        match self.phase {
            SessionPhase::Dispatch | SessionPhase::Await => self.planned > 0 && self.completed
                == 0,
            SessionPhase::Persist => self.planned > 0 && self.completed == self.planned,
            _ => self.planned == 0 && self.completed == 0 && self.bytes == 0,
        }
    }

    /// Starts a session against the bucket named by `active_bucket`, where
    /// the empty name stands for no bucket.
    pub fn begin(mode: SessionMode, active_bucket: &str) -> (started: (Session, SessionAction))
        ensures
            started == session_start(mode, active_bucket@.len() > 0),
            started.0.wf(),
    {
        if active_bucket.is_empty() {
            (
                Session { mode, phase: SessionPhase::Idle, planned: 0, completed: 0, bytes: 0 },
                SessionAction::Finish { end: SessionEnd::NoActiveBucket },
            )
        } else {
            (
                Session {
                    mode,
                    phase: SessionPhase::BucketCheck,
                    planned: 0,
                    completed: 0,
                    bytes: 0,
                },
                SessionAction::ScanLocalFiles,
            )
        }
    }

    /// Takes the session one step on: from the event that the surroundings
    /// report to the next phase and the next thing to do.
    pub fn advance(&mut self, event: SessionEvent) -> (action: SessionAction)
        ensures
            (*final(self), action) == session_step(*old(self), event),
            old(self).wf() ==> final(self).wf(),
    {
        let mode = self.mode;
        match (self.phase, event) {
            (SessionPhase::BucketCheck, SessionEvent::LocalScanned { files }) => {
                if files == 0 {
                    *self = Session {
                        mode,
                        phase: SessionPhase::Idle,
                        planned: 0,
                        completed: 0,
                        bytes: 0,
                    };
                    SessionAction::Finish { end: SessionEnd::EmptyFileList }
                } else {
                    *self = Session {
                        mode,
                        phase: SessionPhase::IndexFetch,
                        planned: 0,
                        completed: 0,
                        bytes: 0,
                    };
                    SessionAction::FetchRemoteIndex { page_size: INDEX_PAGE_SIZE }
                }
            },
            (SessionPhase::IndexFetch, SessionEvent::IndexFetched { ok }) => {
                if ok {
                    *self = Session {
                        mode,
                        phase: SessionPhase::Diff,
                        planned: 0,
                        completed: 0,
                        bytes: 0,
                    };
                    SessionAction::ComputePlan
                } else {
                    *self = Session {
                        mode,
                        phase: SessionPhase::Idle,
                        planned: 0,
                        completed: 0,
                        bytes: 0,
                    };
                    SessionAction::Finish { end: SessionEnd::IndexUnavailable }
                }
            },
            (SessionPhase::Diff, SessionEvent::Planned { operations, bytes }) => {
                if operations == 0 {
                    *self = Session {
                        mode,
                        phase: SessionPhase::Idle,
                        planned: 0,
                        completed: 0,
                        bytes: 0,
                    };
                    SessionAction::Finish { end: SessionEnd::NothingToDo }
                } else {
                    *self = Session {
                        mode,
                        phase: SessionPhase::Dispatch,
                        planned: operations,
                        completed: 0,
                        bytes,
                    };
                    SessionAction::DispatchTasks
                }
            },
            (SessionPhase::Dispatch, SessionEvent::Dispatched) => {
                self.phase = SessionPhase::Await;
                SessionAction::AwaitCompletion
            },
            (SessionPhase::Await, SessionEvent::Progress { counters }) => {
                if counters.planned == self.planned && counters.completed == counters.planned {
                    self.phase = SessionPhase::Persist;
                    self.completed = counters.completed;
                    SessionAction::PersistOutcome {
                        record_backup_time: match mode {
                            SessionMode::Backup => true,
                            SessionMode::Purge => false,
                        },
                    }
                } else {
                    SessionAction::AwaitCompletion
                }
            },
            (SessionPhase::Persist, SessionEvent::Persisted { ok }) => {
                let summary = SessionSummary {
                    planned: self.planned,
                    completed: self.completed,
                    bytes: self.bytes,
                };
                *self = Session {
                    mode,
                    phase: SessionPhase::Idle,
                    planned: 0,
                    completed: 0,
                    bytes: 0,
                };
                SessionAction::Finish {
                    end: SessionEnd::Completed { summary, persisted: ok },
                }
            },
            _ => SessionAction::Reject,
        }
    }
}

/// Without a selected bucket a session ends where it starts: nothing is
/// listed, fetched or sent.
pub proof fn law_no_bucket_no_session(mode: SessionMode)
    ensures
        session_start(mode, false) == (
            idle_session(mode),
            SessionAction::Finish { end: SessionEnd::NoActiveBucket },
        ),
{
}

/// Tasks are handed out only after the diff, the diff is made only after
/// the remote listing has come, and the listing is asked for only after the
/// local scan has found files.
pub proof fn law_tasks_need_an_index(session: Session, event: SessionEvent)
    ensures
        session_step(session, event).1 == SessionAction::DispatchTasks ==> {
            &&& session.phase == SessionPhase::Diff
            &&& event matches SessionEvent::Planned { operations, .. }
            &&& operations > 0
        },
        session_step(session, event).1 == SessionAction::ComputePlan ==> {
            &&& session.phase == SessionPhase::IndexFetch
            &&& event == (SessionEvent::IndexFetched { ok: true })
        },
        session_step(session, event).1 is FetchRemoteIndex ==> {
            &&& session.phase == SessionPhase::BucketCheck
            &&& event matches SessionEvent::LocalScanned { files }
            &&& files > 0
        },
        session.phase == SessionPhase::IndexFetch && event == (SessionEvent::IndexFetched {
            ok: false,
        }) ==> session_step(session, event) == (
            idle_session(session.mode),
            SessionAction::Finish { end: SessionEnd::IndexUnavailable },
        ),
{
}

/// The outcome is written down only when every planned task is completed,
/// and only a backup sets the time of the last backup.
pub proof fn law_persist_after_completion(session: Session, event: SessionEvent)
    requires
        session.wf(),
    ensures
        session_step(session, event).1 matches SessionAction::PersistOutcome { record_backup_time }
            ==> {
            &&& session.phase == SessionPhase::Await
            &&& session_step(session, event).0.completed == session.planned
            &&& record_backup_time == (session.mode == SessionMode::Backup)
        },
        session_step(session, event).0.wf(),
        session_step(session, event).0.mode == session.mode,
{
}

} // verus!
