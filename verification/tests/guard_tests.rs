use video_library::guard::{contained_after_canonicalization, is_contained};
use video_library::paths::ensure_trailing_slash;

#[test]
fn containment_requires_both_canonical_forms() {
    assert!(!contained_after_canonicalization(None, None));
    assert!(!contained_after_canonicalization(Some("/a".to_string()), None));
    assert!(!contained_after_canonicalization(None, Some("/a/b".to_string())));
}

#[test]
fn containment_honours_component_boundaries() {
    let root = Some("/srv/media".to_string());
    assert!(contained_after_canonicalization(
        root.clone(),
        Some("/srv/media/x.mp4".to_string())
    ));
    assert!(contained_after_canonicalization(
        root.clone(),
        Some("/srv/media".to_string())
    ));
    assert!(!contained_after_canonicalization(
        root.clone(),
        Some("/srv/media-evil/x.mp4".to_string())
    ));
    assert!(!contained_after_canonicalization(
        root,
        Some("/etc/passwd".to_string())
    ));
    assert!(contained_after_canonicalization(
        Some("/".to_string()),
        Some("/etc/passwd".to_string())
    ));
}

#[test]
fn parent_escape_rejected() {
    let root = tempfile::tempdir().expect("tempdir");
    let root_str = ensure_trailing_slash(root.path().to_str().expect("utf-8").to_string());
    assert!(!is_contained(&root_str, "../etc/passwd"));
    assert!(!is_contained("/nonexistent-root-zzz/", "../etc/passwd"));
}

#[test]
fn existing_file_under_root_accepted() {
    let root = tempfile::tempdir().expect("tempdir");
    let sub = tempfile::Builder::new()
        .prefix("Sub")
        .tempdir_in(root.path())
        .expect("subdir");
    let dir = tempfile::Builder::new()
        .prefix("Dir")
        .tempdir_in(sub.path())
        .expect("nested dir");
    let file = tempfile::Builder::new()
        .suffix(".mp4")
        .tempfile_in(dir.path())
        .expect("file");
    let rel = file
        .path()
        .strip_prefix(root.path())
        .expect("under root")
        .to_str()
        .expect("utf-8")
        .to_string();
    let root_str = ensure_trailing_slash(root.path().to_str().expect("utf-8").to_string());
    assert!(is_contained(&root_str, &rel));
}

#[test]
fn missing_file_rejected() {
    let root = tempfile::tempdir().expect("tempdir");
    let root_str = ensure_trailing_slash(root.path().to_str().expect("utf-8").to_string());
    assert!(!is_contained(&root_str, "nope/nothing.mp4"));
}
