//! The comparison of the local files with the remote records: which files a
//! backup uploads and which records a purge deletes.

use crate::index::{
    has_record, lemma_record_keys_distinct, records_ascending, KeySet, RemoteIndex,
};
use crate::keys::{canonical_key, derive_key};
use crate::records::{
    entry_views, record_views, LocalEntryView, LocalFileEntry, RemoteFileRecord, RemoteRecordView,
};
use crate::text::key_before;
use vstd::prelude::*;

verus! {

/// What the differ decides for a local file.
#[derive(Clone, Copy, Debug, PartialEq, Eq, Structural)]
pub enum LocalVerdict {
    /// The file is new or was modified after it was last uploaded.
    Upload,
    /// The remote store already holds the file as it is.
    Skip,
}

/// The remote store holds `entry` as it is: a record under its key was
/// uploaded at or after the time the file was last modified.
pub open spec fn is_current(entry: LocalEntryView, index: Seq<RemoteRecordView>) -> bool {
    exists|i: int|
        0 <= i < index.len() && (#[trigger] index[i]).key == entry.key && entry.modified_ms
            <= index[i].upload_timestamp
}

/// The verdict for `entry` against the remote records `index`.
pub open spec fn local_verdict(entry: LocalEntryView, index: Seq<RemoteRecordView>) -> LocalVerdict {
    if is_current(entry, index) {
        LocalVerdict::Skip
    } else {
        LocalVerdict::Upload
    }
}

/// The predicate "has to be uploaded" against the remote records `index`.
pub open spec fn needs_upload(index: Seq<RemoteRecordView>) -> spec_fn(LocalEntryView) -> bool {
    |entry: LocalEntryView| !is_current(entry, index)
}

/// The predicate "is held remotely as it is" against the remote records `index`.
pub open spec fn already_current(index: Seq<RemoteRecordView>) -> spec_fn(LocalEntryView) -> bool {
    |entry: LocalEntryView| is_current(entry, index)
}

/// No entry before position `i` has the key of the entry at `i`.
pub open spec fn first_entry_with_its_key(entries: Seq<LocalEntryView>, i: int) -> bool {
    forall|j: int| 0 <= j < i ==> (#[trigger] entries[j]).key != entries[i].key
}

/// `entries` without the entries whose key an earlier entry already has, in
/// the same order.
pub open spec fn distinct_entries(entries: Seq<LocalEntryView>) -> Seq<LocalEntryView>
    decreases entries.len(),
{
    if entries.len() == 0 {
        entries
    } else {
        let head = distinct_entries(entries.drop_last());
        if first_entry_with_its_key(entries, entries.len() - 1) {
            head.push(entries.last())
        } else {
            head
        }
    }
}

/// The sum of the sizes of `entries`, in bytes.
pub open spec fn total_size(entries: Seq<LocalEntryView>) -> nat
    decreases entries.len(),
{
    if entries.len() == 0 {
        0
    } else {
        total_size(entries.drop_last()) + entries.last().size as nat
    }
}

/// No two of the entries have the same key.
pub open spec fn distinct_entry_keys(entries: Seq<LocalEntryView>) -> bool {
    forall|i: int, j: int|
        #![trigger entries[i], entries[j]]
        0 <= i < j < entries.len() ==> entries[i].key != entries[j].key
}

/// A sum of sizes is bounded by the number of entries.
pub proof fn lemma_total_size_bound(entries: Seq<LocalEntryView>)
    ensures
        total_size(entries) <= entries.len() * 0xffff_ffff_ffff_ffff,
    decreases entries.len(),
{
    if entries.len() > 0 {
        lemma_total_size_bound(entries.drop_last());
    }
}

/// The sizes of the entries that meet a predicate and of those that do not
/// add up to the sizes of all.
pub proof fn lemma_total_size_split(entries: Seq<LocalEntryView>, index: Seq<RemoteRecordView>)
    ensures
        total_size(entries) == total_size(entries.filter(needs_upload(index))) + total_size(
            entries.filter(already_current(index)),
        ),
    decreases entries.len(),
{
    reveal(Seq::filter);
    if entries.len() > 0 {
        let head = entries.drop_last();
        lemma_total_size_split(head, index);
        let up = head.filter(needs_upload(index));
        let cur = head.filter(already_current(index));
        if is_current(entries.last(), index) {
            assert(cur.push(entries.last()).drop_last() =~= cur);
        } else {
            assert(up.push(entries.last()).drop_last() =~= up);
        }
    }
}

/// Every entry of `distinct_entries` is an entry of the input, and each key
/// of the input is the key of exactly one of them.
pub proof fn lemma_distinct_entries(entries: Seq<LocalEntryView>)
    ensures
        distinct_entry_keys(distinct_entries(entries)),
        distinct_entries(entries).len() <= entries.len(),
        forall|e: LocalEntryView|
            distinct_entries(entries).contains(e) <==> exists|i: int|
                0 <= i < entries.len() && #[trigger] entries[i] == e && first_entry_with_its_key(
                    entries,
                    i,
                ),
    decreases entries.len(),
{
    let out = distinct_entries(entries);
    if entries.len() > 0 {
        let head = entries.drop_last();
        let n = entries.len() - 1;
        lemma_distinct_entries(head);
        let kept = distinct_entries(head);
        assert forall|i: int| 0 <= i < n implies (first_entry_with_its_key(head, i)
            <==> first_entry_with_its_key(entries, i)) by {
            if first_entry_with_its_key(head, i) {
                assert forall|j: int| 0 <= j < i implies (#[trigger] entries[j]).key
                    != entries[i].key by {
                    assert(head[j].key != head[i].key);
                }
            }
            if first_entry_with_its_key(entries, i) {
                assert forall|j: int| 0 <= j < i implies (#[trigger] head[j]).key
                    != head[i].key by {
                    assert(entries[j].key != entries[i].key);
                }
            }
        }
        assert forall|e: LocalEntryView| out.contains(e) <==> exists|i: int|
            0 <= i < entries.len() && #[trigger] entries[i] == e && first_entry_with_its_key(
                entries,
                i,
            ) by {
            if out.contains(e) {
                let k = choose|k: int| 0 <= k < out.len() && out[k] == e;
                if k < kept.len() {
                    assert(kept.contains(kept[k]));
                    let i = choose|i: int|
                        0 <= i < head.len() && #[trigger] head[i] == e
                            && first_entry_with_its_key(head, i);
                    assert(entries[i] == e);
                } else {
                    assert(entries[n] == e);
                }
            }
            if exists|i: int|
                0 <= i < entries.len() && #[trigger] entries[i] == e
                    && first_entry_with_its_key(entries, i) {
                let i = choose|i: int|
                    0 <= i < entries.len() && #[trigger] entries[i] == e
                        && first_entry_with_its_key(entries, i);
                if i < n {
                    assert(head[i] == e);
                    assert(kept.contains(e));
                    let k = choose|k: int| 0 <= k < kept.len() && kept[k] == e;
                    assert(out[k] == e);
                } else {
                    assert(out[out.len() - 1] == e);
                }
            }
        }
        assert forall|i: int, j: int|
            #![trigger out[i], out[j]]
            0 <= i < j < out.len() implies out[i].key != out[j].key by {
            if j < kept.len() {
                assert(kept[i].key != kept[j].key);
            } else {
                assert(kept.contains(kept[i]));
                let m = choose|m: int|
                    0 <= m < head.len() && #[trigger] head[m] == kept[i]
                        && first_entry_with_its_key(head, m);
                assert(entries[m].key != entries[n].key);
            }
        }
    }
}

/// Decides whether `entry` has to be uploaded: it has to unless the index
/// holds a record under its key that is at least as new as the file.
pub fn classify_local(entry: &LocalFileEntry, index: &RemoteIndex) -> (verdict: LocalVerdict)
    ensures
        verdict == local_verdict(entry@, index@),
        !has_record(index@, entry@.key) ==> verdict == LocalVerdict::Upload,
{
    match index.lookup(entry.key.as_str()) {
        None => {
            LocalVerdict::Upload
        },
        Some(record) => {
            proof {
                use_type_invariant(index);
                let k = choose|k: int| 0 <= k < index@.len() && index@[k] == record@;
                assert forall|i: int|
                    0 <= i < index@.len() && (#[trigger] index@[i]).key
                        == entry@.key implies i == k by {
                    lemma_record_keys_distinct(index@, i, k);
                }
            }
            if entry.modified_ms > record.upload_timestamp {
                LocalVerdict::Upload
            } else {
                LocalVerdict::Skip
            }
        },
    }
}

/// Drops each entry whose key an earlier entry already has, so that every
/// key is the target of one entry at most.
pub fn collapse_duplicates(entries: Vec<LocalFileEntry>) -> (kept: Vec<LocalFileEntry>)
    ensures
        entry_views(kept@) == distinct_entries(entry_views(entries@)),
        distinct_entry_keys(entry_views(kept@)),
{
    let ghost all = entries@;
    let ghost views = entry_views(entries@);
    let mut kept: Vec<LocalFileEntry> = Vec::new();
    let mut seen = KeySet::new();
    assert(views.take(0) =~= Seq::<LocalEntryView>::empty());
    assert(entry_views(kept@) =~= Seq::<LocalEntryView>::empty());
    for entry in it: entries
        invariant
            it.seq() == all,
            views == entry_views(all),
            entry_views(kept@) == distinct_entries(views.take(it.index())),
            forall|key: Seq<char>|
                seen@.contains(key) <==> exists|j: int|
                    0 <= j < it.index() && (#[trigger] views[j]).key == key,
    {
        let ghost i = it.index();
        let ghost before = entry_views(kept@);
        let ghost seen_before = seen@;
        assert(all[i] == entry);
        assert(views[i] == entry@);
        let added = seen.insert(entry.key.clone());
        proof {
            let prefix = views.take(i + 1);
            assert(prefix.drop_last() =~= views.take(i));
            assert(prefix.last() == views[i]);
            assert(first_entry_with_its_key(prefix, i) <==> added) by {
                if !added {
                    let j = choose|j: int| 0 <= j < i && (#[trigger] views[j]).key == entry@.key;
                    assert(prefix[j].key == prefix[i].key);
                } else {
                    assert forall|j: int| 0 <= j < i implies (#[trigger] prefix[j]).key
                        != prefix[i].key by {
                        assert(prefix[j] == views[j]);
                    }
                }
            }
            assert forall|key: Seq<char>| seen@.contains(key) <==> exists|j: int|
                0 <= j < i + 1 && (#[trigger] views[j]).key == key by {
                if key == entry@.key {
                    assert(views[i].key == key);
                }
            }
        }
        if added {
            kept.push(entry);
            assert(entry_views(kept@) =~= before.push(entry@));
        }
    }
    proof {
        assert(views.take(views.len() as int) =~= views);
        lemma_distinct_entries(views);
    }
    kept
}

/// Filtering keeps keys distinct.
pub proof fn lemma_filter_keeps_entry_keys_distinct(
    entries: Seq<LocalEntryView>,
    pred: spec_fn(LocalEntryView) -> bool,
)
    requires
        distinct_entry_keys(entries),
    ensures
        distinct_entry_keys(entries.filter(pred)),
    decreases entries.len(),
{
    reveal(Seq::filter);
    if entries.len() > 0 {
        let head = entries.drop_last();
        let n = entries.len() - 1;
        assert forall|i: int, j: int|
            #![trigger head[i], head[j]]
            0 <= i < j < head.len() implies head[i].key != head[j].key by {
            assert(entries[i].key != entries[j].key);
        }
        lemma_filter_keeps_entry_keys_distinct(head, pred);
        let kept = head.filter(pred);
        let out = entries.filter(pred);
        assert forall|i: int, j: int|
            #![trigger out[i], out[j]]
            0 <= i < j < out.len() implies out[i].key != out[j].key by {
            if j < kept.len() {
                assert(kept[i].key != kept[j].key);
            } else {
                assert(kept.contains(kept[i]));
                head.lemma_filter_contains_rev(pred, kept[i]);
                let m = choose|m: int| 0 <= m < head.len() && head[m] == kept[i];
                assert(entries[m].key != entries[n].key);
            }
        }
    }
}

/// What a backup session has to do: the files to upload, each under a key
/// of its own, and what the diff left out.
#[derive(Debug)]
pub struct BackupPlan {
    /// The files to upload, in the order in which they were found.
    pub uploads: Vec<LocalFileEntry>,
    /// How many files the remote store already holds as they are.
    pub skipped: usize,
    /// The sum of the sizes of all files that were compared.
    pub bytes_scanned: u128,
    /// The sum of the sizes of the files to upload.
    pub bytes_to_transfer: u128,
    /// The sum of the sizes of the files left out.
    pub bytes_skipped: u128,
}

impl BackupPlan {
    /// The number of uploads planned.
    pub fn planned(&self) -> (n: usize)
        ensures
            n == self.uploads@.len(),
    {
        self.uploads.len()
    }
}

/// Plans a backup: of the entries that share a key the first stands for all,
/// and each of those is uploaded unless the index holds it as it is.
pub fn plan_backup(entries: Vec<LocalFileEntry>, index: &RemoteIndex) -> (plan: BackupPlan)
    ensures
        entry_views(plan.uploads@) == distinct_entries(entry_views(entries@)).filter(
            needs_upload(index@),
        ),
        distinct_entry_keys(entry_views(plan.uploads@)),
        plan.skipped == distinct_entries(entry_views(entries@)).filter(
            already_current(index@),
        ).len(),
        plan.uploads@.len() + plan.skipped == distinct_entries(entry_views(entries@)).len(),
        plan.bytes_scanned == total_size(distinct_entries(entry_views(entries@))),
        plan.bytes_to_transfer == total_size(entry_views(plan.uploads@)),
        plan.bytes_skipped == total_size(
            distinct_entries(entry_views(entries@)).filter(already_current(index@)),
        ),
        plan.bytes_to_transfer == plan.bytes_scanned - plan.bytes_skipped,
{
    let ghost candidates = distinct_entries(entry_views(entries@));
    let kept = collapse_duplicates(entries);
    let ghost all = kept@;
    assert(all.len() == kept.len());
    let mut uploads: Vec<LocalFileEntry> = Vec::new();
    let mut skipped: usize = 0;
    let mut bytes_to_transfer: u128 = 0;
    let mut bytes_skipped: u128 = 0;
    proof {
        reveal(Seq::filter);
        assert(candidates.take(0) =~= Seq::<LocalEntryView>::empty());
        assert(entry_views(uploads@) =~= Seq::<LocalEntryView>::empty());
    }
    for entry in it: kept
        invariant
            it.seq() == all,
            all.len() <= usize::MAX,
            candidates == entry_views(all),
            entry_views(uploads@) == candidates.take(it.index()).filter(needs_upload(index@)),
            skipped == candidates.take(it.index()).filter(already_current(index@)).len(),
            bytes_to_transfer == total_size(entry_views(uploads@)),
            bytes_skipped == total_size(
                candidates.take(it.index()).filter(already_current(index@)),
            ),
    {
        let ghost i = it.index();
        let ghost before = entry_views(uploads@);
        let ghost skipped_before = candidates.take(i).filter(already_current(index@));
        proof {
            reveal(Seq::filter);
            assert(all[i] == entry);
            assert(candidates[i] == entry@);
            assert(candidates.take(i).len() == i);
            assert(candidates.take(i + 1).drop_last() =~= candidates.take(i));
            assert(candidates.take(i + 1).last() == entry@);
            candidates.take(i).lemma_filter_len(needs_upload(index@));
            candidates.take(i).lemma_filter_len(already_current(index@));
            lemma_total_size_bound(before);
            lemma_total_size_bound(skipped_before);
        }
        match classify_local(&entry, index) {
            LocalVerdict::Upload => {
                bytes_to_transfer = bytes_to_transfer + entry.size as u128;
                uploads.push(entry);
                proof {
                    assert(entry_views(uploads@) =~= before.push(entry@));
                    assert(before.push(entry@).drop_last() =~= before);
                }
            },
            LocalVerdict::Skip => {
                skipped = skipped + 1;
                bytes_skipped = bytes_skipped + entry.size as u128;
                proof {
                    assert(skipped_before.push(entry@).drop_last() =~= skipped_before);
                }
            },
        }
    }
    proof {
        assert(candidates.take(candidates.len() as int) =~= candidates);
        lemma_total_size_split(candidates, index@);
        lemma_filter_keeps_entry_keys_distinct(candidates, needs_upload(index@));
        lemma_count_split(candidates, index@);
        lemma_total_size_bound(candidates);
    }
    BackupPlan {
        uploads,
        skipped,
        bytes_scanned: bytes_to_transfer + bytes_skipped,
        bytes_to_transfer,
        bytes_skipped,
    }
}

/// The entries that meet a predicate and those that do not are all the
/// entries.
pub proof fn lemma_count_split(entries: Seq<LocalEntryView>, index: Seq<RemoteRecordView>)
    ensures
        entries.len() == entries.filter(needs_upload(index)).len() + entries.filter(
            already_current(index),
        ).len(),
    decreases entries.len(),
{
    reveal(Seq::filter);
    if entries.len() > 0 {
        lemma_count_split(entries.drop_last(), index);
    }
}

/// What the differ decides for a remote record in purge mode.
#[derive(Clone, Copy, Debug, PartialEq, Eq, Structural)]
pub enum RemoteVerdict {
    /// No local file has the record's key any more.
    Delete,
    /// A local file has the record's key.
    Keep,
}

/// The verdict for a record against the keys of the local files.
pub open spec fn remote_verdict(record: RemoteRecordView, local_keys: Set<Seq<char>>)
    -> RemoteVerdict {
    if local_keys.contains(record.key) {
        RemoteVerdict::Keep
    } else {
        RemoteVerdict::Delete
    }
}

/// The predicate "no local file has this record's key".
pub open spec fn is_orphan(local_keys: Set<Seq<char>>) -> spec_fn(RemoteRecordView) -> bool {
    |record: RemoteRecordView| !local_keys.contains(record.key)
}

/// The sum of the content lengths of `records`, in bytes.
pub open spec fn total_length(records: Seq<RemoteRecordView>) -> nat
    decreases records.len(),
{
    if records.len() == 0 {
        0
    } else {
        total_length(records.drop_last()) + records.last().content_length as nat
    }
}

/// A sum of content lengths is bounded by the number of records.
pub proof fn lemma_total_length_bound(records: Seq<RemoteRecordView>)
    ensures
        total_length(records) <= records.len() * 0xffff_ffff_ffff_ffff,
    decreases records.len(),
{
    if records.len() > 0 {
        lemma_total_length_bound(records.drop_last());
    }
}

/// Filtering keeps records in ascending key order.
pub proof fn lemma_filter_keeps_records_ascending(
    records: Seq<RemoteRecordView>,
    pred: spec_fn(RemoteRecordView) -> bool,
)
    requires
        records_ascending(records),
    ensures
        records_ascending(records.filter(pred)),
    decreases records.len(),
{
    reveal(Seq::filter);
    if records.len() > 0 {
        let head = records.drop_last();
        let n = records.len() - 1;
        assert forall|i: int, j: int|
            #![trigger head[i], head[j]]
            0 <= i < j < head.len() implies key_before(head[i].key, head[j].key) by {
            assert(key_before(records[i].key, records[j].key));
        }
        lemma_filter_keeps_records_ascending(head, pred);
        let kept = head.filter(pred);
        let out = records.filter(pred);
        assert forall|i: int, j: int|
            #![trigger out[i], out[j]]
            0 <= i < j < out.len() implies key_before(out[i].key, out[j].key) by {
            if j < kept.len() {
                assert(key_before(kept[i].key, kept[j].key));
            } else {
                assert(kept.contains(kept[i]));
                head.lemma_filter_contains_rev(pred, kept[i]);
                let m = choose|m: int| 0 <= m < head.len() && head[m] == kept[i];
                assert(key_before(records[m].key, records[n].key));
            }
        }
    }
}

/// The keys of the given local files.
pub fn local_key_set(entries: &Vec<LocalFileEntry>) -> (keys: KeySet)
    ensures
        forall|key: Seq<char>|
            keys@.contains(key) <==> exists|i: int|
                0 <= i < entries@.len() && (#[trigger] entries@[i])@.key == key,
{
    let mut keys = KeySet::new();
    let mut i: usize = 0;
    while i < entries.len()
        invariant
            i <= entries.len(),
            forall|key: Seq<char>|
                keys@.contains(key) <==> exists|j: int|
                    0 <= j < i && (#[trigger] entries@[j])@.key == key,
        decreases entries.len() - i,
    {
        keys.insert(entries[i].key.clone());
        proof {
            assert forall|key: Seq<char>| keys@.contains(key) <==> exists|j: int|
                0 <= j < i + 1 && (#[trigger] entries@[j])@.key == key by {
                if key == entries@[i as int]@.key {
                    assert(entries@[i as int]@.key == key);
                }
            }
        }
        i += 1;
    }
    keys
}

/// The keys of the files at the given paths.
pub fn key_set_of_paths(paths: &Vec<String>) -> (keys: KeySet)
    ensures
        forall|key: Seq<char>|
            keys@.contains(key) <==> exists|i: int|
                0 <= i < paths@.len() && canonical_key((#[trigger] paths@[i])@) == key,
{
    let mut keys = KeySet::new();
    let mut i: usize = 0;
    while i < paths.len()
        invariant
            i <= paths.len(),
            forall|key: Seq<char>|
                keys@.contains(key) <==> exists|j: int|
                    0 <= j < i && canonical_key((#[trigger] paths@[j])@) == key,
        decreases paths.len() - i,
    {
        keys.insert(derive_key(paths[i].as_str()));
        proof {
            assert forall|key: Seq<char>| keys@.contains(key) <==> exists|j: int|
                0 <= j < i + 1 && canonical_key((#[trigger] paths@[j])@) == key by {
                if key == canonical_key(paths@[i as int]@) {
                    assert(canonical_key(paths@[i as int]@) == key);
                }
            }
        }
        i += 1;
    }
    keys
}

/// Decides whether a remote record is to be deleted: it is when no local
/// file has its key.
pub fn classify_remote(record: &RemoteFileRecord, local_keys: &KeySet) -> (verdict: RemoteVerdict)
    ensures
        verdict == remote_verdict(record@, local_keys@),
        !local_keys@.contains(record@.key) ==> verdict == RemoteVerdict::Delete,
{
    if local_keys.contains(record.key.as_str()) {
        RemoteVerdict::Keep
    } else {
        RemoteVerdict::Delete
    }
}

/// What a purge session has to do: the records to delete, each under a key
/// of its own, and the space that deleting them frees.
#[derive(Debug)]
pub struct PurgePlan {
    /// The records to delete, in key order.
    pub deletes: Vec<RemoteFileRecord>,
    /// How many records stay.
    pub kept: usize,
    /// The sum of the content lengths of the records to delete.
    pub reclaimable: u128,
}

impl PurgePlan {
    /// The number of deletions planned.
    pub fn planned(&self) -> (n: usize)
        ensures
            n == self.deletes@.len(),
    {
        self.deletes.len()
    }
}

/// Plans a purge: every record of the index whose key no local file has is
/// deleted.
pub fn plan_purge(index: &RemoteIndex, local_keys: &KeySet) -> (plan: PurgePlan)
    ensures
        record_views(plan.deletes@) == index@.filter(is_orphan(local_keys@)),
        records_ascending(record_views(plan.deletes@)),
        plan.deletes@.len() + plan.kept == index@.len(),
        plan.reclaimable == total_length(record_views(plan.deletes@)),
{
    let mut deletes: Vec<RemoteFileRecord> = Vec::new();
    let mut kept: usize = 0;
    let mut reclaimable: u128 = 0;
    let n = index.len();
    let mut i: usize = 0;
    proof {
        reveal(Seq::filter);
        assert(index@.take(0) =~= Seq::<RemoteRecordView>::empty());
        assert(record_views(deletes@) =~= Seq::<RemoteRecordView>::empty());
    }
    while i < n
        invariant
            i <= n,
            n == index@.len(),
            record_views(deletes@) == index@.take(i as int).filter(is_orphan(local_keys@)),
            deletes@.len() + kept == i,
            reclaimable == total_length(record_views(deletes@)),
        decreases n - i,
    {
        let record = index.record_at(i);
        let ghost before = record_views(deletes@);
        proof {
            reveal(Seq::filter);
            assert(index@.take(i + 1).drop_last() =~= index@.take(i as int));
            assert(index@.take(i + 1).last() == record@);
            lemma_total_length_bound(before);
        }
        match classify_remote(record, local_keys) {
            RemoteVerdict::Delete => {
                reclaimable = reclaimable + record.content_length as u128;
                deletes.push(record.clone());
                proof {
                    assert(record_views(deletes@) =~= before.push(record@));
                    assert(before.push(record@).drop_last() =~= before);
                }
            },
            RemoteVerdict::Keep => {
                kept = kept + 1;
            },
        }
        i += 1;
    }
    proof {
        use_type_invariant(index);
        assert(index@.take(n as int) =~= index@);
        lemma_filter_keeps_records_ascending(index@, is_orphan(local_keys@));
    }
    PurgePlan { deletes, kept, reclaimable }
}

/// The uploads that a backup of `entries` against the remote records `index`
/// plans.
pub open spec fn planned_uploads(entries: Seq<LocalEntryView>, index: Seq<RemoteRecordView>)
    -> Seq<LocalEntryView> {
    distinct_entries(entries).filter(needs_upload(index))
}

/// A local file whose key is found in the index with an upload time at or
/// after the file's modification time is skipped.
pub proof fn law_current_entry_is_skipped(
    entry: LocalEntryView,
    index: Seq<RemoteRecordView>,
    i: int,
)
    requires
        0 <= i < index.len(),
        index[i].key == entry.key,
        entry.modified_ms <= index[i].upload_timestamp,
    ensures
        local_verdict(entry, index) == LocalVerdict::Skip,
{
}

/// The bytes to transfer are the bytes of all files that stand for a key
/// less the bytes of those that are skipped.
pub proof fn law_bytes_to_transfer(entries: Seq<LocalEntryView>, index: Seq<RemoteRecordView>)
    ensures
        total_size(planned_uploads(entries, index)) == total_size(distinct_entries(entries))
            - total_size(distinct_entries(entries).filter(already_current(index))),
{
    lemma_total_size_split(distinct_entries(entries), index);
}

/// A local file whose key no remote record has is uploaded, whatever its
/// size and modification time.
pub proof fn law_unmatched_entry_is_uploaded(entry: LocalEntryView, index: Seq<RemoteRecordView>)
    requires
        !has_record(index, entry.key),
    ensures
        local_verdict(entry, index) == LocalVerdict::Upload,
{
}

/// A remote record whose key no local file has is deleted.
pub proof fn law_orphan_is_deleted(record: RemoteRecordView, local_keys: Set<Seq<char>>)
    requires
        !local_keys.contains(record.key),
    ensures
        remote_verdict(record, local_keys) == RemoteVerdict::Delete,
{
}

/// The records that a purge deletes are the records whose key no local file
/// has: each of them, and no other.
pub proof fn law_purge_deletes_the_orphans(index: Seq<RemoteRecordView>, local_keys: Set<Seq<char>>)
    ensures
        forall|i: int|
            0 <= i < index.filter(is_orphan(local_keys)).len() ==> remote_verdict(
                #[trigger] index.filter(is_orphan(local_keys))[i],
                local_keys,
            ) == RemoteVerdict::Delete,
        forall|i: int|
            0 <= i < index.len() && remote_verdict(index[i], local_keys) == RemoteVerdict::Delete
                ==> index.filter(is_orphan(local_keys)).contains(#[trigger] index[i]),
{
    let orphans = index.filter(is_orphan(local_keys));
    assert forall|i: int| 0 <= i < orphans.len() implies remote_verdict(
        #[trigger] orphans[i],
        local_keys,
    ) == RemoteVerdict::Delete by {
        index.lemma_filter_pred(is_orphan(local_keys), i);
    }
    assert forall|i: int|
        0 <= i < index.len() && remote_verdict(index[i], local_keys)
            == RemoteVerdict::Delete implies orphans.contains(#[trigger] index[i]) by {
        index.lemma_filter_contains(is_orphan(local_keys), i);
    }
}

/// A second backup right after a first one uploads nothing, where the files
/// are as they were, the first backup's uploads all arrived and were stamped
/// no earlier than the files were modified, and the store still holds what
/// it held as current. `first` and `second` are the remote records that the
/// two runs see.
pub proof fn law_second_backup_uploads_nothing(
    entries: Seq<LocalEntryView>,
    first: Seq<RemoteRecordView>,
    second: Seq<RemoteRecordView>,
)
    requires
        forall|i: int|
            0 <= i < planned_uploads(entries, first).len() ==> is_current(
                #[trigger] planned_uploads(entries, first)[i],
                second,
            ),
        forall|i: int|
            0 <= i < distinct_entries(entries).len() && is_current(
                #[trigger] distinct_entries(entries)[i],
                first,
            ) ==> is_current(distinct_entries(entries)[i], second),
    ensures
        planned_uploads(entries, second).len() == 0,
        total_size(planned_uploads(entries, second)) == 0,
{
    let candidates = distinct_entries(entries);
    let uploaded = planned_uploads(entries, first);
    assert forall|i: int| 0 <= i < candidates.len() implies is_current(
        #[trigger] candidates[i],
        second,
    ) by {
        if !is_current(candidates[i], first) {
            candidates.lemma_filter_contains(needs_upload(first), i);
            let k = choose|k: int| 0 <= k < uploaded.len() && uploaded[k] == candidates[i];
            assert(is_current(uploaded[k], second));
        }
    }
    let pred = needs_upload(second);
    assert(candidates.all(|e: LocalEntryView| !pred(e)));
    candidates.lemma_all_neg_filter_empty(pred);
}

} // verus!
