//! The path-containment guard for file serving.
//!
//! A relative path supplied over the network may try to escape the library
//! root with `..` components or symlinks. Before any file is opened, the root
//! and the candidate are both resolved to their canonical filesystem form and
//! the candidate must lie at or below the root, compared at a component
//! boundary so that a sibling directory never passes for the root itself.

use vstd::prelude::*;

use crate::paths::{ensure_trailing_slash, is_prefix, starts_with_str, str_eq, with_trailing_slash};

verus! {

/// `cand` lies at or below `root`, both in canonical form: either the same
/// path, or `cand` continues `root` right after a `/` — a component boundary,
/// so a sibling such as `/srv/media-evil` never passes for `/srv/media`.
pub open spec fn path_within(root: Seq<char>, cand: Seq<char>) -> bool {
    cand == root || is_prefix(with_trailing_slash(root), cand)
}

/// Relies on std's `Path::canonicalize`: it resolves `.`, `..` and symlinks
/// against the live filesystem and fails when the path does not exist. The
/// result depends on the state of the disk, so nothing is assumed about it.
#[verifier::external_body]
fn canonicalize_path(p: &str) -> (r: Option<String>) {
    match std::path::Path::new(p).canonicalize() {
        Ok(c) => c.to_str().map(|s| s.to_string()),
        Err(_) => None,
    }
}

/// The verdict once both canonicalizations are in hand: containment holds
/// exactly when both succeeded and the candidate lies within the root.
pub fn contained_after_canonicalization(
    canon_root: Option<String>,
    canon_cand: Option<String>,
) -> (r: bool)
    ensures
        r == match (canon_root, canon_cand) {
            (Some(cr), Some(cc)) => path_within(cr@, cc@),
            _ => false,
        },
{
    match (canon_root, canon_cand) {
        (Some(cr), Some(cc)) => {
            if str_eq(cc.as_str(), cr.as_str()) {
                true
            } else {
                let base = ensure_trailing_slash(cr);
                starts_with_str(cc.as_str(), base.as_str())
            }
        },
        _ => false,
    }
}

/// The containment guard: concatenates `root` and the untrusted `relative`
/// path, canonicalizes both the root and the candidate, and accepts only when
/// the fully resolved candidate lies at or below the resolved root. A path
/// that fails to canonicalize — one that does not exist — is rejected, never
/// reported in detail. The canonical forms come from the live filesystem, so
/// the verdict is not pinned here; `contained_after_canonicalization` holds
/// the exact rule they are judged by.
pub fn is_contained(root: &str, relative: &str) -> (r: bool) {
    let joined = String::from_str(root).concat(relative);
    let canon_root = canonicalize_path(root);
    let canon_cand = canonicalize_path(joined.as_str());
    contained_after_canonicalization(canon_root, canon_cand)
}

} // verus!
