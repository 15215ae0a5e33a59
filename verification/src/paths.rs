//! Character-level path utilities.
//!
//! Library paths are plain strings whose components are separated by `/`.
//! Everything here is stated over the `Seq<char>` view of a string.

use vstd::prelude::*;

verus! {

/// `pre` is a prefix of `s`.
pub open spec fn is_prefix(pre: Seq<char>, s: Seq<char>) -> bool {
    pre.len() <= s.len() && s.subrange(0, pre.len() as int) == pre
}

/// `suf` is a suffix of `s`.
pub open spec fn is_suffix(suf: Seq<char>, s: Seq<char>) -> bool {
    suf.len() <= s.len() && s.subrange(s.len() - suf.len(), s.len() as int) == suf
}

/// `sub` occurs somewhere in `s`.
pub open spec fn contains_seq(s: Seq<char>, sub: Seq<char>) -> bool {
    exists|i: int| 0 <= i <= s.len() - sub.len() && #[trigger] s.subrange(i, i + sub.len()) == sub
}

/// Index of the last occurrence of `c` in `s`, or `-1` when `c` does not occur.
pub open spec fn last_index_of(s: Seq<char>, c: char) -> int
    decreases s.len(),
{
    if s.len() == 0 {
        -1
    } else if s[s.len() - 1] == c {
        s.len() - 1
    } else {
        last_index_of(s.drop_last(), c)
    }
}

/// `last_index_of` points at the last occurrence: it is in range, holds `c`,
/// and no later position holds `c`; `-1` means `c` does not occur at all.
pub proof fn lemma_last_index_of(s: Seq<char>, c: char)
    ensures
        -1 <= last_index_of(s, c) < s.len(),
        last_index_of(s, c) >= 0 ==> s[last_index_of(s, c)] == c,
        forall|j: int| last_index_of(s, c) < j < s.len() ==> s[j] != c,
    decreases s.len(),
{
    if s.len() == 0 {
    } else if s[s.len() - 1] == c {
    } else {
        lemma_last_index_of(s.drop_last(), c);
        assert(forall|j: int| 0 <= j < s.len() - 1 ==> s[j] == s.drop_last()[j]);
    }
}

/// Index of the first occurrence of `c` in `s`, or `-1` when `c` does not occur.
pub open spec fn first_index_of(s: Seq<char>, c: char) -> int
    decreases s.len(),
{
    if s.len() == 0 {
        -1
    } else if s[0] == c {
        0
    } else if first_index_of(s.drop_first(), c) == -1 {
        -1
    } else {
        1 + first_index_of(s.drop_first(), c)
    }
}

/// `first_index_of` points at the first occurrence: it is in range, holds `c`,
/// and no earlier position holds `c`; `-1` means `c` does not occur at all.
pub proof fn lemma_first_index_of(s: Seq<char>, c: char)
    ensures
        -1 <= first_index_of(s, c) < s.len(),
        first_index_of(s, c) >= 0 ==> s[first_index_of(s, c)] == c,
        forall|j: int| 0 <= j < first_index_of(s, c) ==> s[j] != c,
        first_index_of(s, c) == -1 ==> forall|j: int| 0 <= j < s.len() ==> s[j] != c,
    decreases s.len(),
{
    if s.len() == 0 {
    } else if s[0] == c {
    } else {
        lemma_first_index_of(s.drop_first(), c);
        assert forall|j: int| 0 <= j < first_index_of(s, c) implies s[j] != c by {
            if j >= 1 {
                assert(s.drop_first()[j - 1] == s[j]);
            }
        }
        if first_index_of(s, c) == -1 {
            assert forall|j: int| 0 <= j < s.len() implies s[j] != c by {
                if j >= 1 {
                    assert(s.drop_first()[j - 1] == s[j]);
                }
            }
        }
    }
}

/// Index of the first occurrence of `c` in `s`, or `None` when `c` does not occur.
pub fn find_first(s: &str, c: char) -> (r: Option<usize>)
    ensures
        match r {
            Some(i) => i as int == first_index_of(s@, c),
            None => first_index_of(s@, c) == -1,
        },
{
    proof {
        lemma_first_index_of(s@, c);
    }
    let m = s.unicode_len();
    let mut i: usize = 0;
    while i < m
        invariant
            i <= m,
            m == s@.len(),
            forall|j: int| 0 <= j < i ==> s@[j] != c,
        decreases m - i,
    {
        if s.get_char(i) == c {
            proof {
                lemma_first_index_of(s@, c);
            }
            return Some(i);
        }
        i = i + 1;
    }
    proof {
        lemma_first_index_of(s@, c);
    }
    None
}

/// `s` with a single `/` appended unless it already ends in one.
pub open spec fn with_trailing_slash(s: Seq<char>) -> Seq<char> {
    if s.len() > 0 && s[s.len() - 1] == '/' {
        s
    } else {
        s + seq!['/']
    }
}

/// The part of `p` after its last `/`; the whole of `p` when it has no `/`.
pub open spec fn file_name_of(p: Seq<char>) -> Seq<char> {
    p.subrange(last_index_of(p, '/') + 1, p.len() as int)
}

/// A file name with its extension removed: everything before the last `.`,
/// except that a leading `.` (a hidden file) and a dot-less name are kept whole.
pub open spec fn stem_of_file_name(f: Seq<char>) -> Seq<char> {
    if last_index_of(f, '.') > 0 {
        f.subrange(0, last_index_of(f, '.'))
    } else {
        f
    }
}

/// `p` with the extension of its file name removed; directories are kept.
pub open spec fn without_extension(p: Seq<char>) -> Seq<char> {
    p.subrange(0, last_index_of(p, '/') + 1) + stem_of_file_name(file_name_of(p))
}

/// Stripping `root` from the front of `p`, component-aware: the boundary after
/// `root` must be a `/` (or `root` must already end in one), and that separator
/// is dropped from the remainder.
pub open spec fn strip_prefix_spec(root: Seq<char>, p: Seq<char>) -> Option<Seq<char>> {
    if p == root {
        Some(Seq::empty())
    } else if root.len() == 0 {
        Some(p)
    } else if is_prefix(with_trailing_slash(root), p) {
        Some(p.subrange(with_trailing_slash(root).len() as int, p.len() as int))
    } else {
        None
    }
}

/// Whether `s` and `t` hold the same characters.
pub fn str_eq(s: &str, t: &str) -> (r: bool)
    ensures
        r == (s@ == t@),
{
    let n = s.unicode_len();
    let m = t.unicode_len();
    if n != m {
        return false;
    }
    let mut i: usize = 0;
    while i < n
        invariant
            i <= n,
            n == s@.len(),
            n == t@.len(),
            forall|j: int| 0 <= j < i ==> s@[j] == t@[j],
        decreases n - i,
    {
        if s.get_char(i) != t.get_char(i) {
            return false;
        }
        i = i + 1;
    }
    assert(s@ =~= t@);
    true
}

/// Whether `s` starts with the string `pre`, character for character.
pub fn starts_with_str(s: &str, pre: &str) -> (r: bool)
    ensures
        r == is_prefix(pre@, s@),
{
    let n = pre.unicode_len();
    let m = s.unicode_len();
    if n > m {
        return false;
    }
    let mut i: usize = 0;
    while i < n
        invariant
            i <= n,
            n <= m,
            n == pre@.len(),
            m == s@.len(),
            forall|j: int| 0 <= j < i ==> s@[j] == pre@[j],
        decreases n - i,
    {
        if s.get_char(i) != pre.get_char(i) {
            assert(s@.subrange(0, pre@.len() as int)[i as int] == s@[i as int]);
            return false;
        }
        i = i + 1;
    }
    assert(s@.subrange(0, pre@.len() as int) =~= pre@);
    true
}

/// Whether `s` ends with the string `suf`, character for character.
pub fn ends_with_str(s: &str, suf: &str) -> (r: bool)
    ensures
        r == is_suffix(suf@, s@),
{
    let n = suf.unicode_len();
    let m = s.unicode_len();
    if n > m {
        return false;
    }
    let off: usize = m - n;
    let mut i: usize = 0;
    while i < n
        invariant
            i <= n,
            n <= m,
            off == m - n,
            n == suf@.len(),
            m == s@.len(),
            forall|j: int| 0 <= j < i ==> s@[off + j] == suf@[j],
        decreases n - i,
    {
        if s.get_char(off + i) != suf.get_char(i) {
            assert(s@.subrange(s@.len() - suf@.len(), s@.len() as int)[i as int] == s@[off + i]);
            return false;
        }
        i = i + 1;
    }
    assert(s@.subrange(s@.len() - suf@.len(), s@.len() as int) =~= suf@);
    true
}

/// Whether `sub` occurs anywhere in `s`.
pub fn contains_str(s: &str, sub: &str) -> (r: bool)
    ensures
        r == contains_seq(s@, sub@),
{
    let n = sub.unicode_len();
    let m = s.unicode_len();
    if n > m {
        return false;
    }
    if n == 0 {
        assert(s@.subrange(0, 0 + sub@.len() as int) == sub@);
        return true;
    }
    let mut i: usize = 0;
    while i <= m - n
        invariant
            0 <= i <= m - n + 1,
            0 < n <= m,
            n == sub@.len(),
            m == s@.len(),
            forall|j: int| 0 <= j < i ==> #[trigger] s@.subrange(j, j + sub@.len()) != sub@,
        decreases m - i,
    {
        let w = s.substring_char(i, i + n);
        if str_eq(w, sub) {
            assert(s@.subrange(i as int, i + sub@.len()) == sub@);
            return true;
        }
        i = i + 1;
    }
    false
}

/// Index of the last occurrence of `c` in `s`, or `None` when `c` does not occur.
pub fn find_last(s: &str, c: char) -> (r: Option<usize>)
    ensures
        match r {
            Some(i) => i as int == last_index_of(s@, c),
            None => last_index_of(s@, c) == -1,
        },
{
    let m = s.unicode_len();
    let mut i: usize = m;
    while i > 0
        invariant
            i <= m,
            m == s@.len(),
            forall|j: int| i <= j < m ==> s@[j] != c,
        decreases i,
    {
        let k = i - 1;
        if s.get_char(k) == c {
            proof {
                lemma_last_index_of(s@, c);
            }
            return Some(k);
        }
        i = k;
    }
    proof {
        lemma_last_index_of(s@, c);
    }
    None
}

/// The supplied path, with a `/` appended unless it already ends in one.
pub fn ensure_trailing_slash(path_str: String) -> (r: String)
    ensures
        r@ == with_trailing_slash(path_str@),
{
    proof {
        reveal_strlit("/");
    }
    let n = path_str.as_str().unicode_len();
    if n > 0 && path_str.as_str().get_char(n - 1) == '/' {
        path_str
    } else {
        assert(("/")@ =~= seq!['/']);
        path_str.concat("/")
    }
}

/// The path with the extension of its file name removed: `a/b.mp4` becomes
/// `a/b`, while names without a dot and hidden files are kept whole.
pub fn remove_extension(path: &str) -> (r: String)
    ensures
        r@ == without_extension(path@),
{
    proof {
        lemma_last_index_of(path@, '/');
    }
    let m = path.unicode_len();
    let dir_end: usize = match find_last(path, '/') {
        Some(i) => i + 1,
        None => 0,
    };
    let fname = path.substring_char(dir_end, m);
    assert(fname@ == file_name_of(path@));
    proof {
        lemma_last_index_of(fname@, '.');
    }
    let flen = fname.unicode_len();
    let stem_end: usize = match find_last(fname, '.') {
        Some(j) => if j > 0 {
            j
        } else {
            flen
        },
        None => flen,
    };
    assert(fname@.subrange(0, stem_end as int) == stem_of_file_name(fname@));
    let prefix = path.substring_char(0, dir_end);
    let stem = fname.substring_char(0, stem_end);
    String::from_str(prefix).concat(stem)
}

/// Strips `root_dir` from the front of `p`, component-aware: `None` when `p`
/// does not lie under `root_dir`.
pub fn striped(root_dir: &str, p: &str) -> (r: Option<String>)
    ensures
        match r {
            Some(s) => strip_prefix_spec(root_dir@, p@) == Some(s@),
            None => strip_prefix_spec(root_dir@, p@) is None,
        },
{
    if str_eq(p, root_dir) {
        let empty = String::new();
        assert(empty@ =~= Seq::<char>::empty());
        return Some(empty);
    }
    let rl = root_dir.unicode_len();
    if rl == 0 {
        return Some(String::from_str(p));
    }
    let base = ensure_trailing_slash(String::from_str(root_dir));
    if starts_with_str(p, base.as_str()) {
        let bl = base.as_str().unicode_len();
        let rest = p.substring_char(bl, p.unicode_len());
        Some(String::from_str(rest))
    } else {
        None
    }
}

} // verus!
