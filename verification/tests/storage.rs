use raze_cli::records::LocalFileEntry;
use std::io::BufRead;
use raze_cli::storage::{
    create_file_list, get_total_size, read_lines_to_vec, Bucket, FsNode, PersistentData,
};
use raze_cli::transfer::LimitRuling;

fn file(path: &str) -> FsNode {
    FsNode::File { path: path.to_string() }
}

fn dir(children: Vec<FsNode>) -> FsNode {
    FsNode::Directory { children }
}

fn entry(path: &str, size: u64) -> LocalFileEntry {
    LocalFileEntry { path: path.to_string(), key: path.to_string(), size, modified_ms: 0 }
}

#[test]
fn test_whatever() {
    let n = read_lines_to_vec("backuplist");
    assert_eq!(n, vec!["backuplist".to_string()]);
    let h = create_file_list(n.iter().map(|line| file(line)).collect());
    assert_eq!(h, vec!["backuplist".to_string()]);
    let sized: Vec<LocalFileEntry> = h.iter().map(|path| entry(path, 17)).collect();
    let o = get_total_size(&sized);
    println!("{}", o);
    assert_eq!(o, 17);
}

#[test]
fn lines_are_split_and_empty_ones_left_out() {
    assert_eq!(read_lines_to_vec(""), Vec::<String>::new());
    assert_eq!(read_lines_to_vec("\n\n\n"), Vec::<String>::new());
    assert_eq!(read_lines_to_vec("/a\n/b"), vec!["/a", "/b"]);
    assert_eq!(read_lines_to_vec("/a\n/b\n"), vec!["/a", "/b"]);
    assert_eq!(read_lines_to_vec("\n/a\n\n\n/b\n\n"), vec!["/a", "/b"]);
    assert_eq!(read_lines_to_vec("C:\\x\r\nD:\\y\r\n"), vec!["C:\\x", "D:\\y"]);
    assert_eq!(read_lines_to_vec("\r\n/a\r\n\r\n"), vec!["/a"]);
    assert_eq!(read_lines_to_vec("a\r\r\nb\r"), vec!["a\r", "b\r"]);
    assert_eq!(read_lines_to_vec(" \n\t\n"), vec![" ", "\t"]);
    assert_eq!(read_lines_to_vec("/ä/ö\nü"), vec!["/ä/ö", "ü"]);
}

#[test]
fn lines_agree_with_the_lines_of_a_reader() {
    for text in ["", "a", "a\n", "\na", "a\r\nb\n\nc", "\r", "\r\n", "x\r\r\n\ny\r", "one\ntwo\r\nthree"] {
        let expected: Vec<String> = std::io::Cursor::new(text)
            .lines()
            .map(|line| line.unwrap())
            .filter(|line| !line.is_empty())
            .collect();
        assert_eq!(read_lines_to_vec(text), expected);
    }
}

#[test]
fn files_are_listed_depth_first_in_listing_order() {
    let entries = vec![
        file("/top.txt"),
        dir(vec![
            file("/d/a"),
            dir(vec![file("/d/sub/x"), FsNode::Other, file("/d/sub/y")]),
            file("/d/b"),
            dir(vec![]),
        ]),
        FsNode::Other,
        file("/last"),
    ];
    assert_eq!(
        create_file_list(entries),
        vec!["/top.txt", "/d/a", "/d/sub/x", "/d/sub/y", "/d/b", "/last"]
    );
    assert_eq!(create_file_list(vec![]), Vec::<String>::new());
    assert_eq!(create_file_list(vec![FsNode::Other, dir(vec![dir(vec![])])]), Vec::<String>::new());
}

#[test]
fn total_size_is_the_sum_of_all_sizes() {
    assert_eq!(get_total_size(&vec![]), 0);
    assert_eq!(get_total_size(&vec![entry("/a", 500)]), 500);
    assert_eq!(get_total_size(&vec![entry("/a", 1), entry("/b", 20), entry("/c", 300)]), 321);
    assert_eq!(
        get_total_size(&vec![entry("/a", u64::MAX), entry("/b", u64::MAX), entry("/c", 2)]),
        2 * (u64::MAX as u128) + 2
    );
}

#[test]
fn first_run_has_no_bucket_and_no_cap() {
    let data = PersistentData::first_run(1_500_000_000);
    assert_eq!(
        data,
        PersistentData { last_backup: 1_500_000_000, active_bucket: String::new(), bandwidth_limit: 0 }
    );
    assert!(!data.has_active_bucket());
}

#[test]
fn bucket_is_selected_by_name() {
    let buckets = vec![
        Bucket { name: "photos".to_string(), id: "id-1".to_string() },
        Bucket { name: "backups".to_string(), id: "id-2".to_string() },
        Bucket { name: "photos".to_string(), id: "id-3".to_string() },
    ];
    let mut data = PersistentData::first_run(7);
    assert!(!data.select_bucket(&buckets, "music"));
    assert_eq!(data, PersistentData::first_run(7));
    assert!(data.select_bucket(&buckets, "backups"));
    assert_eq!(data.active_bucket, "id-2");
    assert!(data.has_active_bucket());
    assert!(data.select_bucket(&buckets, "photos"));
    assert_eq!(data.active_bucket, "id-3");
    assert!(!data.select_bucket(&buckets, "Photos"));
    assert_eq!(data.active_bucket, "id-3");
    assert!(!data.select_bucket(&vec![], "photos"));
    assert_eq!(data.last_backup, 7);
    assert_eq!(data.bandwidth_limit, 0);
}

#[test]
fn cap_and_backup_time_are_stored() {
    let mut data = PersistentData::first_run(1);
    assert_eq!(data.set_bandwidth_limit(Some(4_000_000)), LimitRuling::Accepted);
    assert_eq!(data.bandwidth_limit, 4_000_000);
    assert_eq!(data.set_bandwidth_limit(Some(3)), LimitRuling::RaisedToMinimum);
    assert_eq!(data.bandwidth_limit, 4);
    assert_eq!(data.set_bandwidth_limit(Some(4)), LimitRuling::RaisedToMinimum);
    assert_eq!(data.bandwidth_limit, 4);
    assert_eq!(data.set_bandwidth_limit(Some(0)), LimitRuling::Accepted);
    assert_eq!(data.bandwidth_limit, 0);
    assert_eq!(data.set_bandwidth_limit(Some(9)), LimitRuling::Accepted);
    assert_eq!(data.set_bandwidth_limit(None), LimitRuling::Invalid);
    assert_eq!(data.bandwidth_limit, 0);
    data.record_backup(-5);
    assert_eq!(data.last_backup, -5);
    data.record_backup(i64::MAX);
    assert_eq!(data, PersistentData { last_backup: i64::MAX, active_bucket: String::new(), bandwidth_limit: 0 });
    assert_eq!(data.clone(), data);
}

#[test]
fn clock_sets_the_time_of_a_backup_and_of_a_first_run() {
    let now = std::time::SystemTime::now()
        .duration_since(std::time::UNIX_EPOCH)
        .unwrap()
        .as_secs() as i64;
    let fresh = PersistentData::first_run_now();
    assert!(now <= fresh.last_backup && fresh.last_backup <= now + 30);
    assert_eq!(fresh.active_bucket, "");
    assert_eq!(fresh.bandwidth_limit, 0);
    let mut data = PersistentData {
        last_backup: 5,
        active_bucket: "bucket".to_string(),
        bandwidth_limit: 77,
    };
    data.record_backup_now();
    assert!(now <= data.last_backup && data.last_backup <= now + 30);
    assert_eq!(data.active_bucket, "bucket");
    assert_eq!(data.bandwidth_limit, 77);
}
