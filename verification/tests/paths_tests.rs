use video_library::paths::{
    contains_str, ends_with_str, ensure_trailing_slash, find_first, find_last, remove_extension,
    starts_with_str, str_eq, striped,
};

#[test]
fn trailing_slash_appended() {
    assert_eq!(ensure_trailing_slash("a/b".to_string()), "a/b/");
}

#[test]
fn trailing_slash_kept() {
    assert_eq!(ensure_trailing_slash("a/b/".to_string()), "a/b/");
}

#[test]
fn trailing_slash_on_empty() {
    assert_eq!(ensure_trailing_slash(String::new()), "/");
}

#[test]
fn remove_extension_plain() {
    assert_eq!(remove_extension("MovieA/MovieA.mp4"), "MovieA/MovieA");
}

#[test]
fn remove_extension_without_dot() {
    assert_eq!(remove_extension("MovieA/MovieA"), "MovieA/MovieA");
}

#[test]
fn remove_extension_hidden_file() {
    assert_eq!(remove_extension("a/.hidden"), "a/.hidden");
}

#[test]
fn remove_extension_without_directory() {
    assert_eq!(remove_extension("clip.webm"), "clip");
}

#[test]
fn remove_extension_two_dots() {
    assert_eq!(remove_extension("a/b.tar.gz"), "a/b.tar");
}

#[test]
fn striped_under_root_with_slash() {
    assert_eq!(striped("root/", "root/x/y.mp4"), Some("x/y.mp4".to_string()));
}

#[test]
fn striped_under_root_without_slash() {
    assert_eq!(striped("root", "root/x.mp4"), Some("x.mp4".to_string()));
}

#[test]
fn striped_sibling_rejected() {
    assert_eq!(striped("root", "rootx/x.mp4"), None);
}

#[test]
fn striped_equal_paths() {
    assert_eq!(striped("root", "root"), Some(String::new()));
}

#[test]
fn prefix_and_suffix_checks() {
    assert!(starts_with_str("abc/d", "abc"));
    assert!(!starts_with_str("ab", "abc"));
    assert!(ends_with_str("a.mp4", ".mp4"));
    assert!(!ends_with_str("a.mp4", ".webm"));
}

#[test]
fn substring_search() {
    assert!(contains_str("x-trailer.mp4", "-trailer"));
    assert!(!contains_str("x-poster.mp4", "-trailer"));
    assert!(contains_str("anything", ""));
}

#[test]
fn character_search() {
    assert!(str_eq("a/b", "a/b"));
    assert!(!str_eq("a/b", "a/c"));
    assert_eq!(find_last("a/b/c", '/'), Some(3));
    assert_eq!(find_last("abc", '/'), None);
    assert_eq!(find_first("a/b/c", '/'), Some(1));
    assert_eq!(find_first("abc", '/'), None);
}
