//! The data model: one discovered title and the category of a served path.

use vstd::prelude::*;

verus! {

/// The category of a path picked for a movie: its primary video or one of the
/// four kinds of sidecar asset.
#[derive(Clone, Copy, PartialEq, Eq, Structural, Debug)]
pub enum AssetCategory {
    Video,
    Trailer,
    Poster,
    Thumb,
    Fanart,
}

impl View for AssetCategory {
    type V = AssetCategory;

    open spec fn view(&self) -> AssetCategory {
        *self
    }
}

impl DeepView for AssetCategory {
    type V = AssetCategory;

    open spec fn deep_view(&self) -> AssetCategory {
        *self
    }
}

/// One discovered title: the primary video and its sidecar assets, every path
/// relative to the library root.
#[derive(Clone, Debug)]
pub struct Movie {
    pub video_path: String,
    pub trailers: Vec<String>,
    pub posters: Vec<String>,
    pub thumbs: Vec<String>,
    pub fanarts: Vec<String>,
}

/// The mathematical content of a `Movie`: each path as a sequence of
/// characters.
pub struct MovieView {
    pub video_path: Seq<char>,
    pub trailers: Seq<Seq<char>>,
    pub posters: Seq<Seq<char>>,
    pub thumbs: Seq<Seq<char>>,
    pub fanarts: Seq<Seq<char>>,
}

impl View for Movie {
    type V = MovieView;

    open spec fn view(&self) -> MovieView {
        MovieView {
            video_path: self.video_path@,
            trailers: self.trailers.deep_view(),
            posters: self.posters.deep_view(),
            thumbs: self.thumbs.deep_view(),
            fanarts: self.fanarts.deep_view(),
        }
    }
}

impl DeepView for Movie {
    type V = MovieView;

    open spec fn deep_view(&self) -> MovieView {
        self.view()
    }
}

} // verus!
