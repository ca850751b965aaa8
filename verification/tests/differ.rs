use raze_cli::differ::{
    classify_local, classify_remote, collapse_duplicates, key_set_of_paths, local_key_set,
    plan_backup, plan_purge, LocalVerdict, RemoteVerdict,
};
use raze_cli::index::{KeySet, RemoteIndex};
use raze_cli::records::{millis_from_seconds, LocalFileEntry, RemoteFileRecord};
use raze_cli::tasks::SyncTask;

fn local(path: &str, key: &str, size: u64, modified_ms: u64) -> LocalFileEntry {
    LocalFileEntry { path: path.to_string(), key: key.to_string(), size, modified_ms }
}

fn remote(key: &str, content_length: u64, upload_timestamp: u64) -> RemoteFileRecord {
    RemoteFileRecord {
        key: key.to_string(),
        id: format!("id-of-{}", key),
        content_length,
        content_sha1: String::new(),
        upload_timestamp,
    }
}

#[test]
fn new_file_against_empty_index_is_one_upload() {
    let index = RemoteIndex::build(vec![]);
    let plan = plan_backup(vec![local("/root/a.txt", "a.txt", 500, 100_000)], &index);
    assert_eq!(plan.planned(), 1);
    assert_eq!(plan.uploads, vec![local("/root/a.txt", "a.txt", 500, 100_000)]);
    assert_eq!(plan.skipped, 0);
    assert_eq!(plan.bytes_to_transfer, 500);
    assert_eq!(plan.bytes_skipped, 0);
}

#[test]
fn file_older_than_its_record_is_skipped() {
    let index = RemoteIndex::build(vec![remote("a.txt", 500, 200_000)]);
    let entries = vec![local("/root/a.txt", "a.txt", 500, 100_000)];
    assert_eq!(entries.len(), 1);
    assert_eq!(classify_local(&entries[0], &index), LocalVerdict::Skip);
    let plan = plan_backup(entries, &index);
    assert_eq!(plan.planned(), 0);
    assert_eq!(plan.skipped, 1);
    assert_eq!(plan.bytes_scanned, 500);
    assert_eq!(plan.bytes_to_transfer, 0);
    assert_eq!(plan.bytes_skipped, 500);
}

#[test]
fn purge_deletes_exactly_the_record_without_a_local_file() {
    let index = RemoteIndex::build(vec![remote("a.txt", 10, 1), remote("b.txt", 20, 2)]);
    let keys = local_key_set(&vec![local("/root/a.txt", "a.txt", 10, 1)]);
    let plan = plan_purge(&index, &keys);
    assert_eq!(plan.deletes, vec![remote("b.txt", 20, 2)]);
    assert_eq!(plan.planned(), 1);
    assert_eq!(plan.kept, 1);
    assert_eq!(plan.reclaimable, 20);
}

#[test]
fn file_as_old_as_its_record_is_skipped_and_newer_is_uploaded() {
    let index = RemoteIndex::build(vec![remote("docs/a.txt", 1, 5_000)]);
    assert_eq!(classify_local(&local("/x/docs/a.txt", "docs/a.txt", 1, 5_000), &index), LocalVerdict::Skip);
    assert_eq!(classify_local(&local("/x/docs/a.txt", "docs/a.txt", 1, 4_999), &index), LocalVerdict::Skip);
    assert_eq!(classify_local(&local("/x/docs/a.txt", "docs/a.txt", 1, 5_001), &index), LocalVerdict::Upload);
}

#[test]
fn file_without_a_record_is_uploaded_whatever_its_size() {
    let index = RemoteIndex::build(vec![remote("a", 1, u64::MAX), remote("c", 1, u64::MAX)]);
    for size in [0u64, 1, 4_999_999, 5_000_000, 5_000_001, u64::MAX] {
        assert_eq!(classify_local(&local("/r/b", "b", size, 0), &index), LocalVerdict::Upload);
    }
}

#[test]
fn bytes_to_transfer_is_scanned_less_skipped() {
    let index = RemoteIndex::build(vec![
        remote("k/one", 10, 1_000),
        remote("k/two", 20, 1_000),
        remote("k/three", 30, 1_000),
    ]);
    let entries = vec![
        local("/k/one", "k/one", 10, 999),
        local("/k/two", "k/two", 25, 1_001),
        local("/k/three", "k/three", 30, 1_000),
        local("/k/four", "k/four", 7, 1),
    ];
    let scanned: u128 = entries.iter().map(|e| e.size as u128).sum();
    let plan = plan_backup(entries, &index);
    assert_eq!(plan.uploads, vec![local("/k/two", "k/two", 25, 1_001), local("/k/four", "k/four", 7, 1)]);
    assert_eq!(plan.skipped, 2);
    assert_eq!(plan.bytes_scanned, 72);
    assert_eq!(plan.bytes_scanned, scanned);
    assert_eq!(plan.bytes_skipped, 40);
    assert_eq!(plan.bytes_to_transfer, 32);
    assert_eq!(plan.bytes_to_transfer, scanned - plan.bytes_skipped);
}

#[test]
fn totals_do_not_overflow_with_sizes_at_the_limit() {
    let index = RemoteIndex::build(vec![remote("s", u64::MAX, 10)]);
    let entries = vec![
        local("/a", "a", u64::MAX, 1),
        local("/b", "b", u64::MAX, 1),
        local("/s", "s", u64::MAX, 1),
    ];
    let plan = plan_backup(entries, &index);
    assert_eq!(plan.bytes_to_transfer, 2 * (u64::MAX as u128));
    assert_eq!(plan.bytes_skipped, u64::MAX as u128);
}

#[test]
fn entries_with_one_key_collapse_to_the_first() {
    let entries = vec![
        local("C:\\Users\\k\\a.txt", "Users/k/a.txt", 1, 10),
        local("/b.txt", "/b.txt", 2, 10),
        local("D:\\Users\\k\\a.txt", "Users/k/a.txt", 3, 20),
        local("/b.txt", "/b.txt", 2, 10),
    ];
    let kept = collapse_duplicates(entries);
    assert_eq!(kept, vec![local("C:\\Users\\k\\a.txt", "Users/k/a.txt", 1, 10), local("/b.txt", "/b.txt", 2, 10)]);
}

#[test]
fn no_two_tasks_of_a_backup_share_a_key() {
    let index = RemoteIndex::build(vec![]);
    let entries = vec![
        local("/one/f", "one/f", 1, 1),
        local("/two/f", "one/f", 2, 2),
        local("/one/g", "one/g", 4, 3),
    ];
    let plan = plan_backup(entries, &index);
    assert_eq!(plan.bytes_to_transfer, 5);
    let tasks = plan.into_tasks();
    assert_eq!(
        tasks,
        vec![SyncTask::Upload(local("/one/f", "one/f", 1, 1)), SyncTask::Upload(local("/one/g", "one/g", 4, 3))]
    );
    assert_eq!(tasks[0].target(), "one/f");
    assert_eq!(tasks[1].target(), "one/g");
}

#[test]
fn second_backup_after_a_full_first_one_uploads_nothing() {
    let entries = vec![
        local("/d/a", "d/a", 100, 1_000),
        local("/d/b", "d/b", 200, 2_000),
        local("/d/c", "d/c", 300, 3_000),
    ];
    let first = RemoteIndex::build(vec![remote("d/a", 100, 1_500), remote("d/b", 150, 1_500)]);
    let plan = plan_backup(entries.clone(), &first);
    assert_eq!(plan.planned(), 2);
    assert_eq!(plan.bytes_to_transfer, 500);
    // The store after the uploads: each uploaded file is stamped with the time of its arrival.
    let mut records = vec![remote("d/a", 100, 1_500)];
    for entry in &plan.uploads {
        records.push(remote(&entry.key, entry.size, 10_000));
    }
    let second = RemoteIndex::build(records);
    let again = plan_backup(entries, &second);
    assert_eq!(again.planned(), 0);
    assert_eq!(again.skipped, 3);
    assert_eq!(again.bytes_to_transfer, 0);
}

#[test]
fn purge_reclaims_the_lengths_of_all_orphans() {
    let index = RemoteIndex::build(vec![
        remote("z", 5, 1),
        remote("a", 7, 1),
        remote("m", 11, 1),
        remote("q", 13, 1),
    ]);
    let keys = KeySet::from_keys(vec!["m".to_string()]);
    let plan = plan_purge(&index, &keys);
    assert_eq!(plan.deletes, vec![remote("a", 7, 1), remote("q", 13, 1), remote("z", 5, 1)]);
    assert_eq!(plan.kept, 1);
    assert_eq!(plan.reclaimable, 25);
    let tasks = plan.into_tasks();
    assert_eq!(tasks.len(), 3);
    assert_eq!(tasks[2], SyncTask::Delete(remote("z", 5, 1)));
    assert_eq!(tasks[2].target(), "z");
}

#[test]
fn purge_of_a_fully_mirrored_store_deletes_nothing() {
    let index = RemoteIndex::build(vec![remote("a", 7, 1), remote("b", 9, 1)]);
    let keys = local_key_set(&vec![local("/a", "a", 1, 1), local("/b", "b", 1, 1), local("/c", "c", 1, 1)]);
    let plan = plan_purge(&index, &keys);
    assert_eq!(plan.planned(), 0);
    assert_eq!(plan.kept, 2);
    assert_eq!(plan.reclaimable, 0);
}

#[test]
fn remote_record_is_kept_exactly_when_a_local_file_has_its_key() {
    let keys = local_key_set(&vec![local("/a", "a", 1, 1)]);
    assert_eq!(classify_remote(&remote("a", 1, 1), &keys), RemoteVerdict::Keep);
    assert_eq!(classify_remote(&remote("A", 1, 1), &keys), RemoteVerdict::Delete);
    assert_eq!(classify_remote(&remote("", 1, 1), &keys), RemoteVerdict::Delete);
}

#[test]
fn scanned_file_gets_its_key_and_its_time_in_milliseconds() {
    assert_eq!(
        LocalFileEntry::from_scan("/root/a.txt".to_string(), 500, Some(100)),
        local("/root/a.txt", "root/a.txt", 500, 100_000)
    );
    assert_eq!(
        LocalFileEntry::from_scan("C:\\docs\\b".to_string(), 0, None),
        local("C:\\docs\\b", "docs/b", 0, 0)
    );
    assert_eq!(millis_from_seconds(0), 0);
    assert_eq!(millis_from_seconds(1), 1_000);
    assert_eq!(millis_from_seconds(u64::MAX / 1000), u64::MAX / 1000 * 1000);
    assert_eq!(millis_from_seconds(u64::MAX / 1000 + 1), u64::MAX);
    assert_eq!(millis_from_seconds(u64::MAX), u64::MAX);
}

#[test]
fn scanned_file_is_skipped_against_the_record_of_its_key() {
    let entry = LocalFileEntry::from_scan("/root/a.txt".to_string(), 500, Some(100));
    let index = RemoteIndex::build(vec![remote("root/a.txt", 500, 200_000)]);
    assert_eq!(classify_local(&entry, &index), LocalVerdict::Skip);
    let stale = RemoteIndex::build(vec![remote("root/a.txt", 500, 99_999)]);
    assert_eq!(classify_local(&entry, &stale), LocalVerdict::Upload);
}

#[test]
fn purge_keeps_what_the_listed_paths_account_for() {
    let keys = key_set_of_paths(&vec!["/data/a.txt".to_string(), "D:\\data\\b.txt".to_string()]);
    assert!(keys.contains("data/a.txt"));
    assert!(keys.contains("data/b.txt"));
    assert!(!keys.contains("/data/a.txt"));
    let index = RemoteIndex::build(vec![
        remote("data/a.txt", 1, 1),
        remote("data/b.txt", 2, 1),
        remote("data/c.txt", 4, 1),
    ]);
    let plan = plan_purge(&index, &keys);
    assert_eq!(plan.deletes, vec![remote("data/c.txt", 4, 1)]);
    assert_eq!(plan.reclaimable, 4);
}
