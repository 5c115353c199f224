use shio::file::File;
use shio::path::{join_under, normalize_path};

#[test]
fn normalize_drops_parent_escapes() {
    assert_eq!(File::normalize("../../etc/passwd"), "etc/passwd");
}

#[test]
fn normalize_parent_removes_previous_segment() {
    assert_eq!(File::normalize("a/../b"), "b");
}

#[test]
fn normalize_drops_current_dir_segments() {
    assert_eq!(File::normalize("./a/./b"), "a/b");
}

#[test]
fn normalize_empty_is_empty() {
    assert_eq!(File::normalize(""), "");
}

#[test]
fn normalize_drops_empty_segments() {
    assert_eq!(normalize_path("//a///b/"), "a/b");
    assert_eq!(normalize_path("/etc/passwd"), "etc/passwd");
}

#[test]
fn normalize_only_parents_is_empty() {
    assert_eq!(normalize_path("../.."), "");
    assert_eq!(normalize_path("a/b/../../.."), "");
}

#[test]
fn normalize_keeps_dotted_names() {
    assert_eq!(normalize_path("...//.hidden/a..b"), ".../.hidden/a..b");
}

#[test]
fn normalize_keeps_non_ascii() {
    assert_eq!(normalize_path("ü/../ßx/ç"), "ßx/ç");
}

#[test]
fn join_stays_under_root() {
    assert_eq!(join_under("static/", "../../etc/passwd"), "static/etc/passwd");
    assert_eq!(join_under("static", "a/../../b"), "static/b");
    assert_eq!(join_under("", "../x"), "x");
    assert_eq!(join_under("static/", ".."), "static/");
}

#[test]
fn file_open_and_head_join_normalized() {
    let f = File::open("static/", "../a.txt");
    assert_eq!(f.filename, "static/a.txt");
    assert!(!f.head);
    let h = File::head("static", "./sub/../a.txt");
    assert_eq!(h.filename, "static/a.txt");
    assert!(h.head);
}
