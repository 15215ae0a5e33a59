//! Weighted random selection of one asset of a movie.
//!
//! The pool is a flat list of `(path, category)` pairs: each sidecar category
//! contributes all of its paths, the whole list repeated as many times as its
//! weight, and the primary video contributes itself, repeated its own weight.
//! One entry of the pool is then drawn uniformly at random, so a concrete
//! asset is picked with likelihood `weight / pool size`.

use vstd::prelude::*;

use crate::movie::{AssetCategory, Movie, MovieView};

verus! {

/// Per-category replication factors for asset selection: how many times each
/// category's paths enter the pool.
#[derive(Clone, Copy, PartialEq, Eq, Structural, Debug)]
pub struct SelectionWeights {
    pub trailer: u32,
    pub poster: u32,
    pub thumb: u32,
    pub fanart: u32,
    pub video: u32,
}

impl Default for SelectionWeights {
    /// The default weights: every sidecar category once, the primary video
    /// never.
    fn default() -> (r: SelectionWeights)
        ensures
            r == (SelectionWeights { trailer: 1, poster: 1, thumb: 1, fanart: 1, video: 0 }),
    {
        SelectionWeights { trailer: 1, poster: 1, thumb: 1, fanart: 1, video: 0 }
    }
}

/// `items` tagged with `cat`, the whole list repeated `n` times.
pub open spec fn repeat_tagged(items: Seq<Seq<char>>, cat: AssetCategory, n: nat) -> Seq<
    (Seq<char>, AssetCategory),
>
    decreases n,
{
    if n == 0 {
        Seq::empty()
    } else {
        repeat_tagged(items, cat, (n - 1) as nat) + items.map_values(|p: Seq<char>| (p, cat))
    }
}

/// The selection pool of `m` under `w`: trailers, posters, thumbs and fan-art
/// paths, each list repeated its category's weight, then the primary video
/// repeated the video weight.
pub open spec fn pool_of(m: MovieView, w: SelectionWeights) -> Seq<(Seq<char>, AssetCategory)> {
    repeat_tagged(m.trailers, AssetCategory::Trailer, w.trailer as nat) + repeat_tagged(
        m.posters,
        AssetCategory::Poster,
        w.poster as nat,
    ) + repeat_tagged(m.thumbs, AssetCategory::Thumb, w.thumb as nat) + repeat_tagged(
        m.fanarts,
        AssetCategory::Fanart,
        w.fanart as nat,
    ) + repeat_tagged(seq![m.video_path], AssetCategory::Video, w.video as nat)
}

/// Repeating a list `n` times yields `n` times its length.
pub proof fn lemma_repeat_tagged_len(items: Seq<Seq<char>>, cat: AssetCategory, n: nat)
    ensures
        repeat_tagged(items, cat, n).len() == n * items.len(),
    decreases n,
{
    if n == 0 {
    } else {
        lemma_repeat_tagged_len(items, cat, (n - 1) as nat);
        assert((n - 1) * items.len() + items.len() == n * items.len()) by (nonlinear_arith);
    }
}

/// Repeating a one-element list yields that element, tagged, at every
/// position.
pub proof fn lemma_repeat_tagged_single(items: Seq<Seq<char>>, cat: AssetCategory, n: nat)
    requires
        items.len() == 1,
    ensures
        forall|i: int|
            0 <= i < repeat_tagged(items, cat, n).len() ==> #[trigger] repeat_tagged(
                items,
                cat,
                n,
            )[i] == (items[0], cat),
    decreases n,
{
    if n == 0 {
    } else {
        lemma_repeat_tagged_single(items, cat, (n - 1) as nat);
        let prev = repeat_tagged(items, cat, (n - 1) as nat);
        let tagged = items.map_values(|p: Seq<char>| (p, cat));
        assert forall|i: int| 0 <= i < repeat_tagged(items, cat, n).len() implies #[trigger] repeat_tagged(
            items,
            cat,
            n,
        )[i] == (items[0], cat) by {
            if i < prev.len() {
                assert(repeat_tagged(items, cat, n)[i] == prev[i]);
            } else {
                assert(repeat_tagged(items, cat, n)[i] == tagged[i - prev.len()]);
                assert(tagged[i - prev.len()] == (items[i - prev.len()], cat));
            }
        }
    }
}

/// The pool's size is exactly the weighted count of the movie's assets: each
/// sidecar category contributes its weight times its number of paths, and the
/// primary video its weight once.
pub proof fn lemma_pool_size(m: MovieView, w: SelectionWeights)
    ensures
        pool_of(m, w).len() == w.trailer * m.trailers.len() + w.poster * m.posters.len()
            + w.thumb * m.thumbs.len() + w.fanart * m.fanarts.len() + w.video,
{
    lemma_repeat_tagged_len(m.trailers, AssetCategory::Trailer, w.trailer as nat);
    lemma_repeat_tagged_len(m.posters, AssetCategory::Poster, w.poster as nat);
    lemma_repeat_tagged_len(m.thumbs, AssetCategory::Thumb, w.thumb as nat);
    lemma_repeat_tagged_len(m.fanarts, AssetCategory::Fanart, w.fanart as nat);
    lemma_repeat_tagged_len(seq![m.video_path], AssetCategory::Video, w.video as nat);
    assert(seq![m.video_path].len() == 1);
    assert((w.video as nat) * 1 == w.video as nat);
}

/// Under all-zero weights the pool of any movie is empty, so selection
/// returns nothing.
pub proof fn lemma_zero_weights_empty_pool(m: MovieView, w: SelectionWeights)
    requires
        w.trailer == 0,
        w.poster == 0,
        w.thumb == 0,
        w.fanart == 0,
        w.video == 0,
    ensures
        pool_of(m, w).len() == 0,
{
    lemma_pool_size(m, w);
}

/// A movie whose only asset is a single poster, under a positive poster
/// weight and a zero video weight, has a non-empty pool holding nothing but
/// that poster: selection can only ever return it.
pub proof fn lemma_single_poster_always_selected(m: MovieView, w: SelectionWeights)
    requires
        m.trailers.len() == 0,
        m.thumbs.len() == 0,
        m.fanarts.len() == 0,
        m.posters.len() == 1,
        w.poster >= 1,
        w.video == 0,
    ensures
        pool_of(m, w).len() > 0,
        forall|i: int|
            0 <= i < pool_of(m, w).len() ==> #[trigger] pool_of(m, w)[i] == (
                m.posters[0],
                AssetCategory::Poster,
            ),
{
    lemma_pool_size(m, w);
    lemma_repeat_tagged_len(m.trailers, AssetCategory::Trailer, w.trailer as nat);
    lemma_repeat_tagged_len(m.posters, AssetCategory::Poster, w.poster as nat);
    lemma_repeat_tagged_single(m.posters, AssetCategory::Poster, w.poster as nat);
    let posters = repeat_tagged(m.posters, AssetCategory::Poster, w.poster as nat);
    assert forall|i: int| 0 <= i < pool_of(m, w).len() implies #[trigger] pool_of(m, w)[i] == (
        m.posters[0],
        AssetCategory::Poster,
    ) by {
        let lead = repeat_tagged(m.trailers, AssetCategory::Trailer, w.trailer as nat);
        assert(lead.len() == 0);
        assert(pool_of(m, w)[i] == posters[i]);
    }
}

/// Relies on rand's `thread_rng` and `Rng::gen_range`: a random index below
/// `n`, drawn fresh on every call.
#[verifier::external_body]
fn random_index(n: usize) -> (r: usize)
    requires
        n > 0,
    ensures
        r < n,
{
    rand::Rng::gen_range(&mut rand::thread_rng(), 0..n)
}

/// The selection pool of `movie` under `weights`, in category order: every
/// entry pairs a path with the category it will be served as.
pub fn selection_pool(movie: &Movie, weights: &SelectionWeights) -> (r: Vec<
    (String, AssetCategory),
>)
    ensures
        r.deep_view() == pool_of(movie@, *weights),
{
    let mut pool: Vec<(String, AssetCategory)> = Vec::new();
    assert(pool.deep_view() =~= Seq::<(Seq<char>, AssetCategory)>::empty());
    push_tagged(&mut pool, &movie.trailers, AssetCategory::Trailer, weights.trailer);
    push_tagged(&mut pool, &movie.posters, AssetCategory::Poster, weights.poster);
    push_tagged(&mut pool, &movie.thumbs, AssetCategory::Thumb, weights.thumb);
    push_tagged(&mut pool, &movie.fanarts, AssetCategory::Fanart, weights.fanart);
    let mut primary_list: Vec<String> = Vec::new();
    primary_list.push(movie.video_path.clone());
    assert(primary_list.deep_view() =~= seq![movie.video_path@]);
    push_tagged(&mut pool, &primary_list, AssetCategory::Video, weights.video);
    assert(pool.deep_view() =~= pool_of(movie@, *weights));
    pool
}

/// Appends `items`, tagged with `cat`, to the pool `n` times over.
fn push_tagged(
    pool: &mut Vec<(String, AssetCategory)>,
    items: &Vec<String>,
    cat: AssetCategory,
    n: u32,
)
    ensures
        final(pool).deep_view() == old(pool).deep_view() + repeat_tagged(
            items.deep_view(),
            cat,
            n as nat,
        ),
{
    let ghost base = pool.deep_view();
    let ghost iv = items.deep_view();
    assert(pool.deep_view() =~= base + repeat_tagged(iv, cat, 0));
    let mut k: u32 = 0;
    while k < n
        invariant
            k <= n,
            iv == items.deep_view(),
            pool.deep_view() == base + repeat_tagged(iv, cat, k as nat),
        decreases n - k,
    {
        let ghost round_base = pool.deep_view();
        let mut i: usize = 0;
        while i < items.len()
            invariant
                i <= items@.len(),
                iv == items.deep_view(),
                iv.len() == items@.len(),
                pool.deep_view() == round_base + iv.take(i as int).map_values(
                    |p: Seq<char>| (p, cat),
                ),
            decreases items@.len() - i,
        {
            let ghost old_pool = pool.deep_view();
            let item = &items[i];
            pool.push((item.clone(), cat));
            proof {
                assert(pool.deep_view() =~= old_pool.push((item@, cat)));
                assert(iv.take(i + 1).map_values(|p: Seq<char>| (p, cat)) =~= iv.take(
                    i as int,
                ).map_values(|p: Seq<char>| (p, cat)).push((iv[i as int], cat)));
            }
            i = i + 1;
        }
        proof {
            assert(iv.take(items@.len() as int) =~= iv);
            assert(pool.deep_view() =~= base + repeat_tagged(iv, cat, (k + 1) as nat));
        }
        k = k + 1;
    }
}

/// Picks one entry of the selection pool uniformly at random: `None` exactly
/// when the pool is empty under these weights, otherwise some entry of the
/// pool. The draw is fresh on every call; no determinism is promised.
pub fn select_asset(movie: &Movie, weights: &SelectionWeights) -> (r: Option<
    (String, AssetCategory),
>)
    ensures
        r is None <==> pool_of(movie@, *weights).len() == 0,
        r matches Some(e) ==> pool_of(movie@, *weights).contains((e.0@, e.1)),
{
    let pool = selection_pool(movie, weights);
    if pool.len() == 0 {
        None
    } else {
        let i = random_index(pool.len());
        let entry = &pool[i];
        let picked = (entry.0.clone(), entry.1);
        assert(pool.deep_view()[i as int] == (picked.0@, picked.1));
        Some(picked)
    }
}

} // verus!
