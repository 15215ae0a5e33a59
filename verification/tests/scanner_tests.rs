use video_library::scanner::{scan_listing, top_level_dirs};

fn listing(paths: &[&str]) -> Vec<String> {
    paths.iter().map(|p| p.to_string()).collect()
}

#[test]
fn scan_one_title_with_sidecars() {
    let files = listing(&[
        "MovieA/MovieA.mp4",
        "MovieA/MovieA-poster.jpg",
        "MovieA/MovieA-trailer.mp4",
    ]);
    let movies = scan_listing(&files);
    assert_eq!(movies.len(), 1);
    let m = &movies[0];
    assert_eq!(m.video_path, "MovieA/MovieA.mp4");
    assert_eq!(m.posters, vec!["MovieA/MovieA-poster.jpg".to_string()]);
    assert_eq!(m.trailers, vec!["MovieA/MovieA-trailer.mp4".to_string()]);
    assert!(m.thumbs.is_empty());
    assert!(m.fanarts.is_empty());
}

#[test]
fn lone_trailer_yields_no_movie() {
    let files = listing(&["MovieA/MovieA-trailer.mp4"]);
    assert_eq!(scan_listing(&files).len(), 0);
}

#[test]
fn nested_trailer_yields_no_movie() {
    let files = listing(&["MovieA/Extras/MovieA-trailer.mp4"]);
    assert_eq!(scan_listing(&files).len(), 0);
}

#[test]
fn nested_primary_found() {
    let files = listing(&["MovieA/Discs/MovieA-part1.mp4"]);
    let movies = scan_listing(&files);
    assert_eq!(movies.len(), 1);
    assert_eq!(movies[0].video_path, "MovieA/Discs/MovieA-part1.mp4");
}

#[test]
fn top_level_file_ignored() {
    let files = listing(&["loose.mp4"]);
    assert_eq!(scan_listing(&files).len(), 0);
}

#[test]
fn mismatching_name_ignored() {
    let files = listing(&["MovieA/Other.mp4"]);
    assert_eq!(scan_listing(&files).len(), 0);
}

#[test]
fn nested_matches_are_not_deduplicated() {
    let files = listing(&["MovieA/a/MovieA-1.mp4", "MovieA/b/MovieA-2.mp4"]);
    let movies = scan_listing(&files);
    assert_eq!(movies.len(), 2);
    assert_eq!(movies[0].video_path, "MovieA/a/MovieA-1.mp4");
    assert_eq!(movies[1].video_path, "MovieA/b/MovieA-2.mp4");
}

#[test]
fn exact_primary_precedes_nested() {
    let files = listing(&["MovieA/Sub/MovieA-x.mp4", "MovieA/MovieA.mp4"]);
    let movies = scan_listing(&files);
    assert_eq!(movies.len(), 2);
    assert_eq!(movies[0].video_path, "MovieA/MovieA.mp4");
    assert_eq!(movies[1].video_path, "MovieA/Sub/MovieA-x.mp4");
}

#[test]
fn webm_primary_found() {
    let files = listing(&["Clip/Clip.webm", "Clip/Clip-thumb.png"]);
    let movies = scan_listing(&files);
    assert_eq!(movies.len(), 1);
    assert_eq!(movies[0].video_path, "Clip/Clip.webm");
    assert_eq!(movies[0].thumbs, vec!["Clip/Clip-thumb.png".to_string()]);
}

#[test]
fn sidecar_in_subdirectory_not_matched() {
    let files = listing(&["MovieA/MovieA.mp4", "MovieA/Sub/MovieA-poster.jpg"]);
    let movies = scan_listing(&files);
    assert_eq!(movies.len(), 1);
    assert!(movies[0].posters.is_empty());
}

#[test]
fn sidecar_wildcard_and_extension_order() {
    let files = listing(&[
        "MovieA/MovieA.mp4",
        "MovieA/MovieA-poster2.png",
        "MovieA/MovieA-poster.jpg",
        "MovieA/MovieA-fanart-blue.png",
    ]);
    let movies = scan_listing(&files);
    assert_eq!(movies.len(), 1);
    let m = &movies[0];
    assert_eq!(
        m.posters,
        vec![
            "MovieA/MovieA-poster.jpg".to_string(),
            "MovieA/MovieA-poster2.png".to_string(),
        ]
    );
    assert_eq!(m.fanarts, vec!["MovieA/MovieA-fanart-blue.png".to_string()]);
}

#[test]
fn title_directories_in_first_appearance_order() {
    let files = listing(&["B/B.mp4", "A/A.mp4", "B/B-poster.jpg"]);
    let dirs = top_level_dirs(&files);
    assert_eq!(dirs, vec!["B".to_string(), "A".to_string()]);
    let movies = scan_listing(&files);
    assert_eq!(movies.len(), 2);
    assert_eq!(movies[0].video_path, "B/B.mp4");
    assert_eq!(movies[1].video_path, "A/A.mp4");
}
