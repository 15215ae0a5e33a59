//! Library discovery over a listing of the files under the root.
//!
//! The caller walks the root directory once and hands over every file path it
//! found, relative to the root. Discovery itself is pure: each immediate
//! subdirectory `D` is a candidate title, a primary video is `D/D.<ext>` or a
//! nested `D/<dirs>/D*.<ext>` for `ext` in `{mp4, webm}` (paths holding
//! `-trailer` are trailer sidecars, never primaries), and each primary's
//! sidecars share its stem plus a marker such as `-poster`.

use vstd::prelude::*;

use crate::movie::{Movie, MovieView};
use crate::paths::{
    contains_seq, file_name_of, find_first, find_last, first_index_of, is_prefix, is_suffix,
    last_index_of, lemma_last_index_of, remove_extension, starts_with_str, str_eq,
    without_extension, contains_str, ends_with_str,
};

verus! {

/// The suffix `.mp4`.
pub open spec fn dot_mp4() -> Seq<char> {
    seq!['.', 'm', 'p', '4']
}

/// The suffix `.webm`.
pub open spec fn dot_webm() -> Seq<char> {
    seq!['.', 'w', 'e', 'b', 'm']
}

/// The suffix `.jpg`.
pub open spec fn dot_jpg() -> Seq<char> {
    seq!['.', 'j', 'p', 'g']
}

/// The suffix `.png`.
pub open spec fn dot_png() -> Seq<char> {
    seq!['.', 'p', 'n', 'g']
}

/// The marker `-trailer`, which also excludes a path from being a primary.
pub open spec fn trailer_marker() -> Seq<char> {
    seq!['-', 't', 'r', 'a', 'i', 'l', 'e', 'r']
}

/// The marker `-poster`.
pub open spec fn poster_marker() -> Seq<char> {
    seq!['-', 'p', 'o', 's', 't', 'e', 'r']
}

/// The marker `-thumb`.
pub open spec fn thumb_marker() -> Seq<char> {
    seq!['-', 't', 'h', 'u', 'm', 'b']
}

/// The marker `-fanart`.
pub open spec fn fanart_marker() -> Seq<char> {
    seq!['-', 'f', 'a', 'n', 'a', 'r', 't']
}

/// `p` lies at least one directory below `d`, and its file name starts with
/// `d` and ends with `dot_ext`, the two parts not overlapping.
pub open spec fn nested_primary(d: Seq<char>, dot_ext: Seq<char>, p: Seq<char>) -> bool {
    &&& is_prefix(d + seq!['/'], p)
    &&& last_index_of(p, '/') > d.len()
    &&& is_prefix(d, file_name_of(p))
    &&& is_suffix(dot_ext, file_name_of(p))
    &&& file_name_of(p).len() >= d.len() + dot_ext.len()
}

/// `p` matches `pre*suf` within a single directory: it starts with `pre`, ends
/// with `suf`, the two do not overlap, and the wildcard part crosses no `/`.
pub open spec fn wildcard_match(pre: Seq<char>, suf: Seq<char>, p: Seq<char>) -> bool {
    &&& is_prefix(pre, p)
    &&& is_suffix(suf, p)
    &&& p.len() >= pre.len() + suf.len()
    &&& last_index_of(p, '/') < pre.len()
}

/// One path query the scanner runs over the listing.
pub enum PathQuery {
    /// The conventional primary right at the top of its title directory:
    /// exactly `D/D.<ext>`, skipping trailer sidecars.
    Primary { expected: String },
    /// A primary at least one directory further down: `D/<dirs>/D*.<ext>`,
    /// skipping trailer sidecars.
    NestedPrimary { dir: String, dot_ext: String },
    /// A sidecar `prefix*<dot_ext>` in the primary's own directory.
    Sidecar { prefix: String, dot_ext: String },
}

/// The mathematical content of a `PathQuery`.
pub enum QueryView {
    Primary { expected: Seq<char> },
    NestedPrimary { dir: Seq<char>, dot_ext: Seq<char> },
    Sidecar { prefix: Seq<char>, dot_ext: Seq<char> },
}

impl View for PathQuery {
    type V = QueryView;

    open spec fn view(&self) -> QueryView {
        match self {
            PathQuery::Primary { expected } => QueryView::Primary { expected: expected@ },
            PathQuery::NestedPrimary { dir, dot_ext } => QueryView::NestedPrimary {
                dir: dir@,
                dot_ext: dot_ext@,
            },
            PathQuery::Sidecar { prefix, dot_ext } => QueryView::Sidecar {
                prefix: prefix@,
                dot_ext: dot_ext@,
            },
        }
    }
}

/// Whether the path `p` answers the query `q`.
pub open spec fn query_holds(q: QueryView, p: Seq<char>) -> bool {
    match q {
        QueryView::Primary { expected } => p == expected && !contains_seq(p, trailer_marker()),
        QueryView::NestedPrimary { dir, dot_ext } => nested_primary(dir, dot_ext, p)
            && !contains_seq(p, trailer_marker()),
        QueryView::Sidecar { prefix, dot_ext } => wildcard_match(prefix, dot_ext, p),
    }
}

/// The paths of `files` that answer `q`, in listing order.
pub open spec fn kept(files: Seq<Seq<char>>, q: QueryView) -> Seq<Seq<char>>
    decreases files.len(),
{
    if files.len() == 0 {
        Seq::empty()
    } else {
        let rest = kept(files.drop_last(), q);
        if query_holds(q, files.last()) {
            rest.push(files.last())
        } else {
            rest
        }
    }
}

/// The first path component of `p`, when `p` has one.
pub open spec fn top_dir_of(p: Seq<char>) -> Seq<char> {
    p.subrange(0, first_index_of(p, '/'))
}

/// The distinct, non-empty first components of the listed paths, in order of
/// first appearance: the title directories the scan visits.
pub open spec fn top_dirs(files: Seq<Seq<char>>) -> Seq<Seq<char>>
    decreases files.len(),
{
    if files.len() == 0 {
        Seq::empty()
    } else {
        let rest = top_dirs(files.drop_last());
        let p = files.last();
        if first_index_of(p, '/') >= 1 && !rest.contains(top_dir_of(p)) {
            rest.push(top_dir_of(p))
        } else {
            rest
        }
    }
}

/// The primary-video paths accepted in title directory `d`: for each extension,
/// the exact `d/d.<ext>` first, then the nested matches, in listing order.
pub open spec fn primaries_for(files: Seq<Seq<char>>, d: Seq<char>) -> Seq<Seq<char>> {
    kept(files, QueryView::Primary { expected: d + seq!['/'] + d + dot_mp4() })
        + kept(files, QueryView::NestedPrimary { dir: d, dot_ext: dot_mp4() })
        + kept(files, QueryView::Primary { expected: d + seq!['/'] + d + dot_webm() })
        + kept(files, QueryView::NestedPrimary { dir: d, dot_ext: dot_webm() })
}

/// The sidecars of stem `stem` with marker `marker`: those with the first
/// extension, then those with the second, each in listing order.
pub open spec fn sidecars_for(
    files: Seq<Seq<char>>,
    stem: Seq<char>,
    marker: Seq<char>,
    e1: Seq<char>,
    e2: Seq<char>,
) -> Seq<Seq<char>> {
    kept(files, QueryView::Sidecar { prefix: stem + marker, dot_ext: e1 })
        + kept(files, QueryView::Sidecar { prefix: stem + marker, dot_ext: e2 })
}

/// The Movie built for the accepted primary `p`: the primary itself plus every
/// sidecar sharing its stem.
pub open spec fn movie_record(files: Seq<Seq<char>>, p: Seq<char>) -> MovieView {
    let stem = without_extension(p);
    MovieView {
        video_path: p,
        trailers: sidecars_for(files, stem, trailer_marker(), dot_mp4(), dot_webm()),
        posters: sidecars_for(files, stem, poster_marker(), dot_jpg(), dot_png()),
        thumbs: sidecars_for(files, stem, thumb_marker(), dot_jpg(), dot_png()),
        fanarts: sidecars_for(files, stem, fanart_marker(), dot_jpg(), dot_png()),
    }
}

/// One Movie per accepted primary, in the order the primaries were accepted.
pub open spec fn movies_for_primaries(files: Seq<Seq<char>>, ps: Seq<Seq<char>>) -> Seq<MovieView>
    decreases ps.len(),
{
    if ps.len() == 0 {
        Seq::empty()
    } else {
        movies_for_primaries(files, ps.drop_last()).push(movie_record(files, ps.last()))
    }
}

/// The Movies of the title directories `ds`, in directory order.
pub open spec fn scan_folders(files: Seq<Seq<char>>, ds: Seq<Seq<char>>) -> Seq<MovieView>
    decreases ds.len(),
{
    if ds.len() == 0 {
        Seq::empty()
    } else {
        scan_folders(files, ds.drop_last()) + movies_for_primaries(
            files,
            primaries_for(files, ds.last()),
        )
    }
}

/// Every Movie a listing yields: one per accepted primary video, visiting the
/// title directories in order of first appearance.
pub open spec fn scan_spec(files: Seq<Seq<char>>) -> Seq<MovieView> {
    scan_folders(files, top_dirs(files))
}

/// Every path stored on `m` — the primary and every sidecar — is one of the
/// listed files.
pub open spec fn movie_from_listing(files: Seq<Seq<char>>, m: MovieView) -> bool {
    &&& files.contains(m.video_path)
    &&& forall|i: int| 0 <= i < m.trailers.len() ==> files.contains(#[trigger] m.trailers[i])
    &&& forall|i: int| 0 <= i < m.posters.len() ==> files.contains(#[trigger] m.posters[i])
    &&& forall|i: int| 0 <= i < m.thumbs.len() ==> files.contains(#[trigger] m.thumbs[i])
    &&& forall|i: int| 0 <= i < m.fanarts.len() ==> files.contains(#[trigger] m.fanarts[i])
}

/// Every path `kept` returns is a listed file and answers the query.
proof fn lemma_kept_entries(files: Seq<Seq<char>>, q: QueryView)
    ensures
        forall|i: int|
            0 <= i < kept(files, q).len() ==> files.contains(#[trigger] kept(files, q)[i])
                && query_holds(q, kept(files, q)[i]),
    decreases files.len(),
{
    if files.len() == 0 {
    } else {
        lemma_kept_entries(files.drop_last(), q);
        let rest = kept(files.drop_last(), q);
        assert forall|i: int| 0 <= i < kept(files, q).len() implies files.contains(
            #[trigger] kept(files, q)[i],
        ) && query_holds(q, kept(files, q)[i]) by {
            if i < rest.len() {
                assert(kept(files, q)[i] == rest[i]);
                let j = choose|j: int|
                    0 <= j < files.drop_last().len() && files.drop_last()[j] == rest[i];
                assert(files[j] == rest[i]);
            } else {
                assert(kept(files, q)[i] == files.last());
                assert(files[files.len() - 1] == files.last());
            }
        }
    }
}

/// Every accepted primary is a listed file and is free of the `-trailer`
/// marker.
proof fn lemma_primaries_entries(files: Seq<Seq<char>>, d: Seq<char>)
    ensures
        forall|i: int|
            0 <= i < primaries_for(files, d).len() ==> files.contains(
                #[trigger] primaries_for(files, d)[i],
            ) && !contains_seq(primaries_for(files, d)[i], trailer_marker()),
{
    let q1 = QueryView::Primary { expected: d + seq!['/'] + d + dot_mp4() };
    let q2 = QueryView::NestedPrimary { dir: d, dot_ext: dot_mp4() };
    let q3 = QueryView::Primary { expected: d + seq!['/'] + d + dot_webm() };
    let q4 = QueryView::NestedPrimary { dir: d, dot_ext: dot_webm() };
    lemma_kept_entries(files, q1);
    lemma_kept_entries(files, q2);
    lemma_kept_entries(files, q3);
    lemma_kept_entries(files, q4);
    let k1 = kept(files, q1);
    let k2 = kept(files, q2);
    let k3 = kept(files, q3);
    let k4 = kept(files, q4);
    assert forall|i: int| 0 <= i < primaries_for(files, d).len() implies files.contains(
        #[trigger] primaries_for(files, d)[i],
    ) && !contains_seq(primaries_for(files, d)[i], trailer_marker()) by {
        if i < k1.len() {
            assert(primaries_for(files, d)[i] == k1[i]);
        } else if i < k1.len() + k2.len() {
            assert(primaries_for(files, d)[i] == k2[i - k1.len()]);
        } else if i < k1.len() + k2.len() + k3.len() {
            assert(primaries_for(files, d)[i] == k3[i - k1.len() - k2.len()]);
        } else {
            assert(primaries_for(files, d)[i] == k4[i - k1.len() - k2.len() - k3.len()]);
        }
    }
}

/// Every sidecar collected for a stem is a listed file.
proof fn lemma_sidecars_entries(
    files: Seq<Seq<char>>,
    stem: Seq<char>,
    marker: Seq<char>,
    e1: Seq<char>,
    e2: Seq<char>,
)
    ensures
        forall|i: int|
            0 <= i < sidecars_for(files, stem, marker, e1, e2).len() ==> files.contains(
                #[trigger] sidecars_for(files, stem, marker, e1, e2)[i],
            ),
{
    let q1 = QueryView::Sidecar { prefix: stem + marker, dot_ext: e1 };
    let q2 = QueryView::Sidecar { prefix: stem + marker, dot_ext: e2 };
    lemma_kept_entries(files, q1);
    lemma_kept_entries(files, q2);
    let k1 = kept(files, q1);
    let k2 = kept(files, q2);
    assert forall|i: int| 0 <= i < sidecars_for(files, stem, marker, e1, e2).len() implies files
        .contains(#[trigger] sidecars_for(files, stem, marker, e1, e2)[i]) by {
        if i < k1.len() {
            assert(sidecars_for(files, stem, marker, e1, e2)[i] == k1[i]);
        } else {
            assert(sidecars_for(files, stem, marker, e1, e2)[i] == k2[i - k1.len()]);
        }
    }
}

/// The Movie built for a listed primary stores listed paths only.
proof fn lemma_movie_record_from_listing(files: Seq<Seq<char>>, p: Seq<char>)
    requires
        files.contains(p),
    ensures
        movie_from_listing(files, movie_record(files, p)),
{
    let stem = without_extension(p);
    lemma_sidecars_entries(files, stem, trailer_marker(), dot_mp4(), dot_webm());
    lemma_sidecars_entries(files, stem, poster_marker(), dot_jpg(), dot_png());
    lemma_sidecars_entries(files, stem, thumb_marker(), dot_jpg(), dot_png());
    lemma_sidecars_entries(files, stem, fanart_marker(), dot_jpg(), dot_png());
}

/// The Movies built for primaries that are listed and trailer-free store
/// listed paths only, and none has a trailer path as its primary.
proof fn lemma_movies_for_primaries_props(files: Seq<Seq<char>>, ps: Seq<Seq<char>>)
    requires
        forall|i: int|
            0 <= i < ps.len() ==> files.contains(#[trigger] ps[i]) && !contains_seq(
                ps[i],
                trailer_marker(),
            ),
    ensures
        forall|k: int|
            0 <= k < movies_for_primaries(files, ps).len() ==> movie_from_listing(
                files,
                #[trigger] movies_for_primaries(files, ps)[k],
            ) && !contains_seq(movies_for_primaries(files, ps)[k].video_path, trailer_marker()),
    decreases ps.len(),
{
    if ps.len() == 0 {
    } else {
        lemma_movies_for_primaries_props(files, ps.drop_last());
        let rest = movies_for_primaries(files, ps.drop_last());
        assert(ps[ps.len() - 1] == ps.last());
        lemma_movie_record_from_listing(files, ps.last());
        assert forall|k: int| 0 <= k < movies_for_primaries(files, ps).len() implies
            movie_from_listing(files, #[trigger] movies_for_primaries(files, ps)[k])
            && !contains_seq(movies_for_primaries(files, ps)[k].video_path, trailer_marker()) by {
            if k < rest.len() {
                assert(movies_for_primaries(files, ps)[k] == rest[k]);
            } else {
                assert(movies_for_primaries(files, ps)[k] == movie_record(files, ps.last()));
            }
        }
    }
}

/// The Movies of a run of title directories store listed paths only, and
/// none has a trailer path as its primary.
proof fn lemma_scan_folders_props(files: Seq<Seq<char>>, ds: Seq<Seq<char>>)
    ensures
        forall|k: int|
            0 <= k < scan_folders(files, ds).len() ==> movie_from_listing(
                files,
                #[trigger] scan_folders(files, ds)[k],
            ) && !contains_seq(scan_folders(files, ds)[k].video_path, trailer_marker()),
    decreases ds.len(),
{
    if ds.len() == 0 {
    } else {
        lemma_scan_folders_props(files, ds.drop_last());
        let rest = scan_folders(files, ds.drop_last());
        let prims = primaries_for(files, ds.last());
        lemma_primaries_entries(files, ds.last());
        lemma_movies_for_primaries_props(files, prims);
        let tail = movies_for_primaries(files, prims);
        assert forall|k: int| 0 <= k < scan_folders(files, ds).len() implies movie_from_listing(
            files,
            #[trigger] scan_folders(files, ds)[k],
        ) && !contains_seq(scan_folders(files, ds)[k].video_path, trailer_marker()) by {
            if k < rest.len() {
                assert(scan_folders(files, ds)[k] == rest[k]);
            } else {
                assert(scan_folders(files, ds)[k] == tail[k - rest.len()]);
            }
        }
    }
}

/// Every path a scan stores — each primary and each sidecar — is one of the
/// listed files: a Movie never points outside the snapshot it was built from.
pub proof fn lemma_scan_paths_from_listing(files: Seq<Seq<char>>)
    ensures
        forall|k: int|
            0 <= k < scan_spec(files).len() ==> movie_from_listing(
                files,
                #[trigger] scan_spec(files)[k],
            ),
{
    lemma_scan_folders_props(files, top_dirs(files));
}

/// No Movie's primary video path holds the `-trailer` marker: a trailer
/// sidecar is never picked as a primary video.
pub proof fn lemma_no_trailer_primary(files: Seq<Seq<char>>)
    ensures
        forall|k: int|
            0 <= k < scan_spec(files).len() ==> !contains_seq(
                #[trigger] scan_spec(files)[k].video_path,
                trailer_marker(),
            ),
{
    lemma_scan_folders_props(files, top_dirs(files));
}

/// Whether `p` answers the nested-primary query for `dir` and `dot_ext`.
fn nested_matches(dir: &String, dot_ext: &String, p: &str) -> (r: bool)
    ensures
        r == nested_primary(dir@, dot_ext@, p@),
{
    proof {
        reveal_strlit("/");
    }
    let mut base = dir.clone();
    base.append("/");
    assert(base@ =~= dir@ + seq!['/']);
    if !starts_with_str(p, base.as_str()) {
        return false;
    }
    proof {
        lemma_last_index_of(p@, '/');
    }
    let last_slash: usize = match find_last(p, '/') {
        Some(i) => i,
        None => {
            proof {
                assert(p@.subrange(0, base@.len() as int)[dir@.len() as int] == p@[dir@.len() as int]);
            }
            return false;
        },
    };
    let dl = dir.as_str().unicode_len();
    if last_slash <= dl {
        return false;
    }
    let m = p.unicode_len();
    let fname = p.substring_char(last_slash + 1, m);
    assert(fname@ == file_name_of(p@));
    if !starts_with_str(fname, dir.as_str()) {
        return false;
    }
    if !ends_with_str(fname, dot_ext.as_str()) {
        return false;
    }
    let fl = fname.unicode_len();
    fl - dl >= dot_ext.as_str().unicode_len()
}

/// Whether `p` answers the sidecar query `prefix*<dot_ext>`.
fn sidecar_matches(prefix: &String, dot_ext: &String, p: &str) -> (r: bool)
    ensures
        r == wildcard_match(prefix@, dot_ext@, p@),
{
    if !starts_with_str(p, prefix.as_str()) {
        return false;
    }
    if !ends_with_str(p, dot_ext.as_str()) {
        return false;
    }
    let pl = prefix.as_str().unicode_len();
    let m = p.unicode_len();
    if m - pl < dot_ext.as_str().unicode_len() {
        return false;
    }
    proof {
        lemma_last_index_of(p@, '/');
    }
    match find_last(p, '/') {
        Some(i) => i < pl,
        None => true,
    }
}

/// Whether the path `p` answers the query `q`.
fn query_matches(q: &PathQuery, p: &str) -> (r: bool)
    ensures
        r == query_holds(q@, p@),
{
    proof {
        reveal_strlit("-trailer");
        assert(("-trailer")@ =~= trailer_marker());
    }
    match q {
        PathQuery::Primary { expected } => str_eq(p, expected.as_str()) && !contains_str(
            p,
            "-trailer",
        ),
        PathQuery::NestedPrimary { dir, dot_ext } => nested_matches(dir, dot_ext, p)
            && !contains_str(p, "-trailer"),
        PathQuery::Sidecar { prefix, dot_ext } => sidecar_matches(prefix, dot_ext, p),
    }
}

/// The paths of `files` that answer `q`, in listing order.
fn collect_matching(files: &Vec<String>, q: &PathQuery) -> (r: Vec<String>)
    ensures
        r.deep_view() == kept(files.deep_view(), q@),
{
    let ghost fv = files.deep_view();
    let mut r: Vec<String> = Vec::new();
    assert(r.deep_view() =~= kept(fv.take(0), q@));
    let mut i: usize = 0;
    while i < files.len()
        invariant
            i <= files@.len(),
            fv == files.deep_view(),
            fv.len() == files@.len(),
            r.deep_view() == kept(fv.take(i as int), q@),
        decreases files@.len() - i,
    {
        let ghost old_r = r.deep_view();
        let p = &files[i];
        if query_matches(q, p.as_str()) {
            r.push(p.clone());
            assert(r.deep_view() =~= old_r.push(p@));
        }
        proof {
            assert(fv.take(i + 1).drop_last() =~= fv.take(i as int));
            assert(fv.take(i + 1).last() == p@);
        }
        i = i + 1;
    }
    proof {
        assert(fv.take(files@.len() as int) =~= fv);
    }
    r
}

/// The distinct first components of the listed paths, in order of first
/// appearance: the title directories.
pub fn top_level_dirs(files: &Vec<String>) -> (r: Vec<String>)
    ensures
        r.deep_view() == top_dirs(files.deep_view()),
{
    let ghost fv = files.deep_view();
    let mut r: Vec<String> = Vec::new();
    assert(r.deep_view() =~= top_dirs(fv.take(0)));
    let mut i: usize = 0;
    while i < files.len()
        invariant
            i <= files@.len(),
            fv == files.deep_view(),
            fv.len() == files@.len(),
            r.deep_view() == top_dirs(fv.take(i as int)),
        decreases files@.len() - i,
    {
        let ghost old_r = r.deep_view();
        let p = &files[i];
        match find_first(p.as_str(), '/') {
            Some(k) => {
                if k >= 1 {
                    proof {
                        crate::paths::lemma_first_index_of(p@, '/');
                    }
                    let dname = p.as_str().substring_char(0, k);
                    assert(dname@ == top_dir_of(p@));
                    if !contains_string(&r, dname) {
                        r.push(String::from_str(dname));
                        assert(r.deep_view() =~= old_r.push(dname@));
                    }
                }
            },
            None => {},
        }
        proof {
            assert(fv.take(i + 1).drop_last() =~= fv.take(i as int));
            assert(fv.take(i + 1).last() == p@);
        }
        i = i + 1;
    }
    proof {
        assert(fv.take(files@.len() as int) =~= fv);
    }
    r
}

/// Whether some element of `v` holds the characters of `s`.
fn contains_string(v: &Vec<String>, s: &str) -> (r: bool)
    ensures
        r == v.deep_view().contains(s@),
{
    let mut i: usize = 0;
    while i < v.len()
        invariant
            i <= v@.len(),
            forall|j: int| 0 <= j < i ==> v.deep_view()[j] != s@,
        decreases v@.len() - i,
    {
        if str_eq(v[i].as_str(), s) {
            assert(v.deep_view()[i as int] == s@);
            return true;
        }
        i = i + 1;
    }
    false
}

/// A sidecar query for `stem` with the given marker and extension.
fn sidecar_query(stem: &String, marker: &str, dot_ext: &str) -> (q: PathQuery)
    ensures
        q@ == (QueryView::Sidecar { prefix: stem@ + marker@, dot_ext: dot_ext@ }),
{
    let prefix = stem.clone().concat(marker);
    PathQuery::Sidecar { prefix, dot_ext: String::from_str(dot_ext) }
}

/// The sidecars of `stem` with `marker` and either extension, in listing order.
fn collect_sidecars(files: &Vec<String>, stem: &String, marker: &str, e1: &str, e2: &str) -> (r:
    Vec<String>)
    ensures
        r.deep_view() == sidecars_for(files.deep_view(), stem@, marker@, e1@, e2@),
{
    let q1 = sidecar_query(stem, marker, e1);
    let q2 = sidecar_query(stem, marker, e2);
    let mut a = collect_matching(files, &q1);
    let ghost av = a.deep_view();
    let mut b = collect_matching(files, &q2);
    a.append(&mut b);
    assert(a.deep_view() =~= av + kept(files.deep_view(), q2@));
    a
}

/// The Movie built for the accepted primary `p`: the primary itself plus every
/// sidecar sharing its stem.
pub fn build_movie(files: &Vec<String>, p: &String) -> (m: Movie)
    ensures
        m@ == movie_record(files.deep_view(), p@),
{
    proof {
        reveal_strlit("-trailer");
        reveal_strlit("-poster");
        reveal_strlit("-thumb");
        reveal_strlit("-fanart");
        reveal_strlit(".mp4");
        reveal_strlit(".webm");
        reveal_strlit(".jpg");
        reveal_strlit(".png");
        assert(("-trailer")@ =~= trailer_marker());
        assert(("-poster")@ =~= poster_marker());
        assert(("-thumb")@ =~= thumb_marker());
        assert(("-fanart")@ =~= fanart_marker());
        assert((".mp4")@ =~= dot_mp4());
        assert((".webm")@ =~= dot_webm());
        assert((".jpg")@ =~= dot_jpg());
        assert((".png")@ =~= dot_png());
    }
    let stem = remove_extension(p.as_str());
    let trailers = collect_sidecars(files, &stem, "-trailer", ".mp4", ".webm");
    let posters = collect_sidecars(files, &stem, "-poster", ".jpg", ".png");
    let thumbs = collect_sidecars(files, &stem, "-thumb", ".jpg", ".png");
    let fanarts = collect_sidecars(files, &stem, "-fanart", ".jpg", ".png");
    Movie { video_path: p.clone(), trailers, posters, thumbs, fanarts }
}

/// The primary-video paths accepted in title directory `d`.
pub fn primaries_in_folder(files: &Vec<String>, d: &String) -> (r: Vec<String>)
    ensures
        r.deep_view() == primaries_for(files.deep_view(), d@),
{
    proof {
        reveal_strlit("/");
        reveal_strlit(".mp4");
        reveal_strlit(".webm");
        assert((".mp4")@ =~= dot_mp4());
        assert((".webm")@ =~= dot_webm());
    }
    let e_mp4 = d.clone().concat("/").concat(d.as_str()).concat(".mp4");
    assert(e_mp4@ =~= d@ + seq!['/'] + d@ + dot_mp4());
    let e_webm = d.clone().concat("/").concat(d.as_str()).concat(".webm");
    assert(e_webm@ =~= d@ + seq!['/'] + d@ + dot_webm());
    let mut r = collect_matching(files, &PathQuery::Primary { expected: e_mp4 });
    let ghost v1 = r.deep_view();
    let mut r2 = collect_matching(
        files,
        &PathQuery::NestedPrimary { dir: d.clone(), dot_ext: String::from_str(".mp4") },
    );
    let ghost v2 = r2.deep_view();
    r.append(&mut r2);
    assert(r.deep_view() =~= v1 + v2);
    let ghost v12 = r.deep_view();
    let mut r3 = collect_matching(files, &PathQuery::Primary { expected: e_webm });
    let ghost v3 = r3.deep_view();
    r.append(&mut r3);
    assert(r.deep_view() =~= v12 + v3);
    let ghost v123 = r.deep_view();
    let mut r4 = collect_matching(
        files,
        &PathQuery::NestedPrimary { dir: d.clone(), dot_ext: String::from_str(".webm") },
    );
    let ghost v4 = r4.deep_view();
    r.append(&mut r4);
    assert(r.deep_view() =~= v123 + v4);
    r
}

/// Every Movie the listing yields: one per accepted primary video, visiting
/// the title directories in order of first appearance.
#[verifier::loop_isolation(false)]
pub fn scan_listing(files: &Vec<String>) -> (r: Vec<Movie>)
    ensures
        r.deep_view() == scan_spec(files.deep_view()),
{
    let ghost fv = files.deep_view();
    let dirs = top_level_dirs(files);
    let ghost dv = dirs.deep_view();
    let mut movies: Vec<Movie> = Vec::new();
    assert(movies.deep_view() =~= scan_folders(fv, dv.take(0)));
    let mut i: usize = 0;
    while i < dirs.len()
        invariant
            i <= dirs@.len(),
            movies.deep_view() == scan_folders(fv, dv.take(i as int)),
        decreases dirs@.len() - i,
    {
        let prim = primaries_in_folder(files, &dirs[i]);
        let ghost pv = prim.deep_view();
        let ghost before = movies.deep_view();
        let mut j: usize = 0;
        while j < prim.len()
            invariant
                j <= prim@.len(),
                i < dirs@.len(),
                pv == prim.deep_view(),
                before == scan_folders(fv, dv.take(i as int)),
                movies.deep_view() == before + movies_for_primaries(fv, pv.take(j as int)),
            decreases prim@.len() - j,
        {
            let ghost old_m = movies.deep_view();
            let m = build_movie(files, &prim[j]);
            movies.push(m);
            proof {
                assert(movies.deep_view() =~= old_m.push(m@));
                assert(pv.take(j + 1).drop_last() =~= pv.take(j as int));
                assert(pv.take(j + 1).last() == pv[j as int]);
                assert(movies.deep_view() =~= before + movies_for_primaries(fv, pv.take(j + 1)));
            }
            j = j + 1;
        }
        proof {
            assert(pv.take(prim@.len() as int) =~= pv);
            assert(dv.take(i + 1).drop_last() =~= dv.take(i as int));
            assert(dv.take(i + 1).last() == dv[i as int]);
        }
        i = i + 1;
    }
    proof {
        assert(dv.take(dirs@.len() as int) =~= dv);
    }
    movies
}

} // verus!
