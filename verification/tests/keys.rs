use raze_cli::keys::derive_key;
use raze_cli::text::{chars_of, find_char};

#[test]
fn key_is_what_follows_the_first_separator() {
    assert_eq!(derive_key("/root/a.txt"), "root/a.txt");
    assert_eq!(derive_key("/home/user/docs/report.pdf"), "home/user/docs/report.pdf");
}

#[test]
fn key_has_forward_slashes_only() {
    assert_eq!(derive_key("C:\\Users\\Kongou\\a.txt"), "Users/Kongou/a.txt");
    assert_eq!(derive_key("C:\\Users\\Kongou/sub\\a.txt"), "sub/a.txt");
}

#[test]
fn same_structure_under_another_drive_gives_the_same_key() {
    assert_eq!(derive_key("C:\\data\\x\\y.bin"), derive_key("D:\\data\\x\\y.bin"));
    assert_eq!(derive_key("C:\\data\\x\\y.bin"), derive_key("/data/x/y.bin"));
}

#[test]
fn file_without_a_directory_gets_a_leading_slash() {
    assert_eq!(derive_key("file.txt"), "/file.txt");
    assert_eq!(derive_key("/file.txt"), "/file.txt");
    assert_eq!(derive_key("C:\\file.txt"), "/file.txt");
    assert_eq!(derive_key("dir/file.txt"), "/file.txt");
}

#[test]
fn key_of_odd_paths() {
    assert_eq!(derive_key(""), "/");
    assert_eq!(derive_key("/"), "/");
    assert_eq!(derive_key("/a/b/"), "a/b/");
    assert_eq!(derive_key("/ä/ö.txt"), "ä/ö.txt");
}

#[test]
fn characters_are_found_in_order() {
    let chars = chars_of("a/b/ç");
    assert_eq!(chars, vec!['a', '/', 'b', '/', 'ç']);
    assert_eq!(find_char(&chars, '/', 0), Some(1));
    assert_eq!(find_char(&chars, '/', 2), Some(3));
    assert_eq!(find_char(&chars, '/', 4), None);
    assert_eq!(find_char(&chars, 'ç', 0), Some(4));
    assert_eq!(find_char(&chars, 'a', 9), None);
}
