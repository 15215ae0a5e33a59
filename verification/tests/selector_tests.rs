use video_library::movie::{AssetCategory, Movie};
use video_library::selector::{select_asset, selection_pool, SelectionWeights};

fn movie_with(
    video: &str,
    trailers: &[&str],
    posters: &[&str],
    thumbs: &[&str],
    fanarts: &[&str],
) -> Movie {
    Movie {
        video_path: video.to_string(),
        trailers: trailers.iter().map(|p| p.to_string()).collect(),
        posters: posters.iter().map(|p| p.to_string()).collect(),
        thumbs: thumbs.iter().map(|p| p.to_string()).collect(),
        fanarts: fanarts.iter().map(|p| p.to_string()).collect(),
    }
}

#[test]
fn zero_weights_select_none() {
    let m = movie_with(
        "A/A.mp4",
        &["A/A-trailer.mp4"],
        &["A/A-poster.jpg"],
        &["A/A-thumb.png"],
        &["A/A-fanart.jpg"],
    );
    let w = SelectionWeights { trailer: 0, poster: 0, thumb: 0, fanart: 0, video: 0 };
    for _ in 0..50 {
        assert!(select_asset(&m, &w).is_none());
    }
}

#[test]
fn single_poster_always_selected() {
    let m = movie_with("A/A.mp4", &[], &["A/A-poster.jpg"], &[], &[]);
    let w = SelectionWeights { trailer: 1, poster: 3, thumb: 1, fanart: 1, video: 0 };
    for _ in 0..200 {
        let (path, category) = select_asset(&m, &w).expect("pool must not be empty");
        assert_eq!(path, "A/A-poster.jpg");
        assert_eq!(category, AssetCategory::Poster);
    }
}

#[test]
fn pool_size_two_trailers_one_poster() {
    let m = movie_with(
        "A/A.mp4",
        &["A/A-trailer.mp4", "A/A-trailer2.mp4"],
        &["A/A-poster.jpg"],
        &[],
        &[],
    );
    let w = SelectionWeights { trailer: 3, poster: 1, thumb: 0, fanart: 0, video: 0 };
    assert_eq!(selection_pool(&m, &w).len(), 7);
}

#[test]
fn trailer_frequency_follows_weights() {
    let m = movie_with(
        "A/A.mp4",
        &["A/A-trailer.mp4", "A/A-trailer2.mp4"],
        &["A/A-poster.jpg"],
        &[],
        &[],
    );
    let w = SelectionWeights { trailer: 3, poster: 1, thumb: 0, fanart: 0, video: 0 };
    let trials: u32 = 70000;
    let mut trailer_draws: u32 = 0;
    for _ in 0..trials {
        let (_, category) = select_asset(&m, &w).expect("pool must not be empty");
        if category == AssetCategory::Trailer {
            trailer_draws += 1;
        }
    }
    let frequency = f64::from(trailer_draws) / f64::from(trials);
    let expected = 6.0 / 7.0;
    assert!(
        (frequency - expected).abs() < 0.015,
        "trailer frequency {} strays from {}",
        frequency,
        expected
    );
}

#[test]
fn pool_lists_categories_in_order() {
    let m = movie_with(
        "A/A.mp4",
        &["A/A-trailer.mp4"],
        &["A/A-poster.jpg"],
        &["A/A-thumb.png"],
        &["A/A-fanart.jpg"],
    );
    let w = SelectionWeights { trailer: 1, poster: 1, thumb: 1, fanart: 1, video: 2 };
    let pool = selection_pool(&m, &w);
    let expected = vec![
        ("A/A-trailer.mp4".to_string(), AssetCategory::Trailer),
        ("A/A-poster.jpg".to_string(), AssetCategory::Poster),
        ("A/A-thumb.png".to_string(), AssetCategory::Thumb),
        ("A/A-fanart.jpg".to_string(), AssetCategory::Fanart),
        ("A/A.mp4".to_string(), AssetCategory::Video),
        ("A/A.mp4".to_string(), AssetCategory::Video),
    ];
    assert_eq!(pool, expected);
}

#[test]
fn weight_replicates_whole_list() {
    let m = movie_with("A/A.mp4", &["A/t1.mp4", "A/t2.mp4"], &[], &[], &[]);
    let w = SelectionWeights { trailer: 2, poster: 0, thumb: 0, fanart: 0, video: 0 };
    let pool = selection_pool(&m, &w);
    let expected = vec![
        ("A/t1.mp4".to_string(), AssetCategory::Trailer),
        ("A/t2.mp4".to_string(), AssetCategory::Trailer),
        ("A/t1.mp4".to_string(), AssetCategory::Trailer),
        ("A/t2.mp4".to_string(), AssetCategory::Trailer),
    ];
    assert_eq!(pool, expected);
}

#[test]
fn video_weight_selects_primary() {
    let m = movie_with("A/A.mp4", &[], &[], &[], &[]);
    let w = SelectionWeights { trailer: 5, poster: 5, thumb: 5, fanart: 5, video: 1 };
    for _ in 0..50 {
        let (path, category) = select_asset(&m, &w).expect("pool must not be empty");
        assert_eq!(path, "A/A.mp4");
        assert_eq!(category, AssetCategory::Video);
    }
}

#[test]
fn default_weights_values() {
    let w = SelectionWeights::default();
    assert_eq!(w.trailer, 1);
    assert_eq!(w.poster, 1);
    assert_eq!(w.thumb, 1);
    assert_eq!(w.fanart, 1);
    assert_eq!(w.video, 0);
}
