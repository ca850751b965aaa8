//! The units of work that a session hands to its workers.

use crate::differ::{distinct_entry_keys, BackupPlan, PurgePlan};
use crate::index::{lemma_record_keys_distinct, records_ascending};
use crate::records::{
    entry_views, record_views, LocalEntryView, LocalFileEntry, RemoteFileRecord, RemoteRecordView,
};
use vstd::prelude::*;

verus! {

/// One unit of work for a worker: a file to upload or a record to delete.
#[derive(Debug, PartialEq, Eq)]
pub enum SyncTask {
    Upload(LocalFileEntry),
    Delete(RemoteFileRecord),
}

/// The mathematical value of a [`SyncTask`].
pub enum SyncTaskView {
    Upload(LocalEntryView),
    Delete(RemoteRecordView),
}

impl View for SyncTask {
    type V = SyncTaskView;

    open spec fn view(&self) -> SyncTaskView {
        match self {
            SyncTask::Upload(entry) => SyncTaskView::Upload(entry@),
            SyncTask::Delete(record) => SyncTaskView::Delete(record@),
        }
    }
}

/// The one remote key that a task works on.
pub open spec fn target_key(task: SyncTaskView) -> Seq<char> {
    match task {
        SyncTaskView::Upload(entry) => entry.key,
        SyncTaskView::Delete(record) => record.key,
    }
}

/// The views of a sequence of tasks, in the same order.
pub open spec fn task_views(tasks: Seq<SyncTask>) -> Seq<SyncTaskView> {
    tasks.map_values(|t: SyncTask| t@)
}

/// No two of the tasks work on the same key.
pub open spec fn distinct_targets(tasks: Seq<SyncTaskView>) -> bool {
    forall|i: int, j: int|
        #![trigger tasks[i], tasks[j]]
        0 <= i < j < tasks.len() ==> target_key(tasks[i]) != target_key(tasks[j])
}

impl SyncTask {
    /// The remote key that the task works on.
    pub fn target(&self) -> (key: &str)
        ensures
            key@ == target_key(self@),
    {
        match self {
            SyncTask::Upload(entry) => entry.key.as_str(),
            SyncTask::Delete(record) => record.key.as_str(),
        }
    }
}

impl BackupPlan {
    /// The plan's uploads as tasks, in the same order. Where the uploads have
    /// keys of their own, as those of a planned backup have, no two tasks
    /// work on the same key.
    pub fn into_tasks(self) -> (tasks: Vec<SyncTask>)
        ensures
            task_views(tasks@) == entry_views(self.uploads@).map_values(
                |e: LocalEntryView| SyncTaskView::Upload(e),
            ),
            distinct_entry_keys(entry_views(self.uploads@)) ==> distinct_targets(
                task_views(tasks@),
            ),
    {
        let ghost all = self.uploads@;
        let ghost wanted = entry_views(all).map_values(|e: LocalEntryView| SyncTaskView::Upload(e));
        let mut tasks: Vec<SyncTask> = Vec::new();
        assert(task_views(tasks@) =~= wanted.take(0));
        for entry in it: self.uploads
            invariant
                it.seq() == all,
                wanted == entry_views(all).map_values(|e: LocalEntryView| SyncTaskView::Upload(e)),
                task_views(tasks@) == wanted.take(it.index()),
        {
            let ghost i = it.index();
            let ghost before = task_views(tasks@);
            assert(all[i] == entry);
            tasks.push(SyncTask::Upload(entry));
            assert(task_views(tasks@) =~= before.push(SyncTaskView::Upload(entry@)));
            assert(wanted.take(i + 1) =~= wanted.take(i).push(wanted[i]));
        }
        proof {
            assert(wanted.take(wanted.len() as int) =~= wanted);
            let views = entry_views(all);
            if distinct_entry_keys(views) {
                assert forall|i: int, j: int|
                    #![trigger wanted[i], wanted[j]]
                    0 <= i < j < wanted.len() implies target_key(wanted[i]) != target_key(
                    wanted[j],
                ) by {
                    assert(views[i].key != views[j].key);
                }
            }
        }
        tasks
    }
}

impl PurgePlan {
    /// The plan's deletions as tasks, in the same order. Where the records
    /// are in ascending key order, as those of a planned purge are, no two
    /// tasks work on the same key.
    pub fn into_tasks(self) -> (tasks: Vec<SyncTask>)
        ensures
            task_views(tasks@) == record_views(self.deletes@).map_values(
                |r: RemoteRecordView| SyncTaskView::Delete(r),
            ),
            records_ascending(record_views(self.deletes@)) ==> distinct_targets(
                task_views(tasks@),
            ),
    {
        let ghost all = self.deletes@;
        let ghost wanted = record_views(all).map_values(
            |r: RemoteRecordView| SyncTaskView::Delete(r),
        );
        let mut tasks: Vec<SyncTask> = Vec::new();
        assert(task_views(tasks@) =~= wanted.take(0));
        for record in it: self.deletes
            invariant
                it.seq() == all,
                wanted == record_views(all).map_values(
                    |r: RemoteRecordView| SyncTaskView::Delete(r),
                ),
                task_views(tasks@) == wanted.take(it.index()),
        {
            let ghost i = it.index();
            let ghost before = task_views(tasks@);
            assert(all[i] == record);
            tasks.push(SyncTask::Delete(record));
            assert(task_views(tasks@) =~= before.push(SyncTaskView::Delete(record@)));
            assert(wanted.take(i + 1) =~= wanted.take(i).push(wanted[i]));
        }
        proof {
            assert(wanted.take(wanted.len() as int) =~= wanted);
            let views = record_views(all);
            if records_ascending(views) {
                assert forall|i: int, j: int|
                    #![trigger wanted[i], wanted[j]]
                    0 <= i < j < wanted.len() implies target_key(wanted[i]) != target_key(
                    wanted[j],
                ) by {
                    if views[i].key == views[j].key {
                        lemma_record_keys_distinct(views, i, j);
                    }
                }
            }
        }
        tasks
    }
}

} // verus!
