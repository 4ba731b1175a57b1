use ncs::entry::Entry;
use ncs::stash::stash_file_name;
use ncs::paths::{
    add_head_slash, add_last_slash, drop_slash, fix_host, fix_root, path2name, path2str,
    prepare_path_vec, split_slash_vec, SlashSide,
};

#[test]
fn path_vec_test1() {
    let path = "/hoge/fuga/bar/test.md";

    let v = Entry::prepare_path_vec(path);
    assert_eq!(&v, &["test.md", "bar", "fuga", "hoge", ""]);

    let path = "/hoge/fuga/bar/test/";

    let v = Entry::prepare_path_vec(path);
    assert_eq!(&v, &["test", "bar", "fuga", "hoge", ""]);

    let path = "/";

    let v = Entry::prepare_path_vec(path);
    assert_eq!(&v, &[""]);
}

#[test]
fn prepare_path_vec_root_and_file() {
    assert_eq!(prepare_path_vec("/"), vec![""]);
    assert_eq!(prepare_path_vec("/a/b/c.md"), vec!["c.md", "b", "a", ""]);
}

#[test]
fn head_slash_added_once() {
    assert_eq!(add_head_slash("a/b"), "/a/b");
    assert_eq!(add_head_slash("/a/b"), "/a/b");
    assert_eq!(add_head_slash(""), "/");
    let once = add_head_slash("x");
    assert_eq!(add_head_slash(&once), once);
}

#[test]
fn last_slash_added_once() {
    assert_eq!(add_last_slash("a/b"), "a/b/");
    assert_eq!(add_last_slash("a/b/"), "a/b/");
    let once = add_last_slash("x");
    assert_eq!(add_last_slash(&once), once);
}

#[test]
fn drop_slash_each_end() {
    assert_eq!(drop_slash("/a/", SlashSide::Head), "a/");
    assert_eq!(drop_slash("/a/", SlashSide::Last), "/a");
    assert_eq!(drop_slash("a", SlashSide::Last), "a");
    assert_eq!(drop_slash("a//", SlashSide::Last), "a/");
}

#[test]
fn fix_host_and_root() {
    assert_eq!(fix_host("https://cloud.example.com/"), "https://cloud.example.com");
    assert_eq!(fix_host("https://cloud.example.com"), "https://cloud.example.com");
    assert_eq!(fix_root("a/b/"), "/a/b");
    assert_eq!(fix_root("/"), "/");
    assert_eq!(fix_root(""), "/");
    let once = fix_root("docs/");
    assert_eq!(fix_root(&once), once);
}

#[test]
fn fix_root_twice_differs_after_double_slash() {
    assert_eq!(fix_root("a//"), "/a/");
    assert_eq!(fix_root(&fix_root("a//")), "/a");
}

#[test]
fn names_of_paths() {
    assert_eq!(path2name("/a/b.md"), "b.md");
    assert_eq!(path2name("/a/b/"), "b/");
    assert_eq!(path2name("b"), "b");
    assert_eq!(path2name("/"), "/");
}

#[test]
fn canonical_paths() {
    assert_eq!(path2str("a\\b\\c"), "/a/b/c");
    assert_eq!(path2str("a/b/"), "/a/b");
    assert_eq!(path2str("/a"), "/a");
    assert_eq!(path2str(""), "");
}

#[test]
fn split_keeps_empty_segments() {
    assert_eq!(split_slash_vec("/a//b"), vec!["", "a", "", "b"]);
    assert_eq!(split_slash_vec(""), vec![""]);
}

#[test]
fn stash_names_keep_extension() {
    let stamp = "20240102030405678";
    assert_eq!(stash_file_name("old.md", stamp), Some("old_20240102030405678.md".to_string()));
    assert_eq!(stash_file_name("a.tar.gz", stamp), Some("a.tar_20240102030405678.gz".to_string()));
    assert_eq!(stash_file_name(".bashrc", stamp), Some(".bashrc_20240102030405678".to_string()));
    assert_eq!(stash_file_name("dir", stamp), Some("dir_20240102030405678".to_string()));
    assert_eq!(stash_file_name("x.", stamp), Some("x_20240102030405678.".to_string()));
    assert_eq!(stash_file_name("..", stamp), None);
}

#[test]
fn dated_stash_directories_expire() {
    assert!(ncs::stash::stash_day_expired("20240101", Some(100), 108, 7));
    assert!(!ncs::stash::stash_day_expired("20240101", Some(100), 107, 7));
    assert!(!ncs::stash::stash_day_expired("2024010", Some(100), 200, 7));
    assert!(!ncs::stash::stash_day_expired("2024a101", Some(100), 200, 7));
    assert!(!ncs::stash::stash_day_expired("20241399", None, 200, 7));
}

#[test]
fn replace_all_left_to_right() {
    assert_eq!(ncs::paths::replace_all("aaa", "aa", "b"), "ba");
    assert_eq!(ncs::paths::replace_all("x\\y\\z", "\\", "/"), "x/y/z");
    assert_eq!(ncs::paths::replace_all("abc", "", "z"), "abc");
    assert_eq!(ncs::paths::replace_all("ab", "abc", "z"), "ab");
}
