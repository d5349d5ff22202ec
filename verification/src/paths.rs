//! A plain-text model of POSIX-style paths.
//!
//! The library never handles `std::path` values directly: a path is a
//! `String` with `/` as separator, and the few path operations the logic
//! needs (final segment, extension, joining, prefix tests, the hidden-entry
//! test) are defined here over character sequences and proved against their
//! specifications.

use vstd::prelude::*;

verus! {

/// Index of the last occurrence of `c` in `s`, or `-1` if there is none.
pub open spec fn last_idx(s: Seq<char>, c: char) -> int
    decreases s.len(),
{
    if s.len() == 0 {
        -1
    } else if s[s.len() - 1] == c {
        s.len() - 1
    } else {
        last_idx(s.drop_last(), c)
    }
}

/// Characterization of [`last_idx`]: it is the last position holding `c`.
pub proof fn lemma_last_idx(s: Seq<char>, c: char)
    ensures
        last_idx(s, c) >= 0 ==> {
            &&& last_idx(s, c) < s.len()
            &&& s[last_idx(s, c)] == c
            &&& forall|m: int| last_idx(s, c) < m < s.len() ==> s[m] != c
        },
        last_idx(s, c) == -1 ==> forall|m: int| 0 <= m < s.len() ==> s[m] != c,
        -1 <= last_idx(s, c) < s.len(),
    decreases s.len(),
{
    if s.len() > 0 && s[s.len() - 1] != c {
        lemma_last_idx(s.drop_last(), c);
        assert(forall|m: int| 0 <= m < s.len() - 1 ==> s[m] == s.drop_last()[m]);
    }
}

/// A position holding `c` with nothing but other characters after it is the
/// last occurrence.
pub proof fn lemma_last_idx_unique(s: Seq<char>, c: char, k: int)
    requires
        0 <= k < s.len(),
        s[k] == c,
        forall|m: int| k < m < s.len() ==> s[m] != c,
    ensures
        last_idx(s, c) == k,
    decreases s.len(),
{
    if k == s.len() - 1 {
    } else {
        assert(s[s.len() - 1] != c);
        assert(forall|m: int| 0 <= m < s.len() - 1 ==> s.drop_last()[m] == s[m]);
        lemma_last_idx_unique(s.drop_last(), c, k);
    }
}

/// Finds the last occurrence of `c` in `s`.
pub fn last_index_of(s: &str, c: char) -> (r: Option<usize>)
    ensures
        r matches Some(i) ==> last_idx(s@, c) == i as int,
        r is None ==> last_idx(s@, c) == -1,
{
    proof {
        lemma_last_idx(s@, c);
    }
    let len = s.unicode_len();
    let mut j: usize = len;
    while j > 0
        invariant
            j <= len,
            len == s@.len(),
            forall|m: int| j <= m < len ==> s@[m] != c,
        decreases j,
    {
        j = j - 1;
        if s.get_char(j) == c {
            proof {
                lemma_last_idx_unique(s@, c, j as int);
            }
            return Some(j);
        }
    }
    proof {
        if last_idx(s@, c) >= 0 {
            assert(s@[last_idx(s@, c)] != c);
        }
    }
    None
}

/// The final segment of a path: everything after the last `/` (the whole
/// string when it has no separator).
pub open spec fn file_name_of(s: Seq<char>) -> Seq<char> {
    s.subrange(last_idx(s, '/') + 1, s.len() as int)
}

/// Returns the final segment of `path`.
pub fn file_name_str<'a>(path: &'a str) -> (r: &'a str)
    ensures
        r@ == file_name_of(path@),
{
    proof {
        lemma_last_idx(path@, '/');
    }
    let len = path.unicode_len();
    match last_index_of(path, '/') {
        None => {
            proof {
                assert(path@.subrange(0, path@.len() as int) =~= path@);
            }
            path.substring_char(0, len)
        },
        Some(i) => path.substring_char(i + 1, len),
    }
}

/// The extension of a file name: everything after the last `.`, provided
/// that dot is not the leading character (so `.clang-format` has no
/// extension, while `style.clang-format` has extension `clang-format`).
pub open spec fn extension_of(s: Seq<char>) -> Option<Seq<char>> {
    let n = file_name_of(s);
    let k = last_idx(n, '.');
    if k >= 1 {
        Some(n.subrange(k + 1, n.len() as int))
    } else {
        None
    }
}

/// Returns the extension of the final segment of `path`, if any.
pub fn extension_str<'a>(path: &'a str) -> (r: Option<&'a str>)
    ensures
        r matches Some(e) ==> extension_of(path@) == Some(e@),
        r is None ==> extension_of(path@) is None,
{
    let name = file_name_str(path);
    proof {
        lemma_last_idx(name@, '.');
    }
    let len = name.unicode_len();
    match last_index_of(name, '.') {
        None => None,
        Some(k) => {
            if k >= 1 {
                Some(name.substring_char(k + 1, len))
            } else {
                None
            }
        },
    }
}

/// Whether a path is absolute.
pub open spec fn is_abs(p: Seq<char>) -> bool {
    p.len() > 0 && p[0] == '/'
}

/// Joining a relative path to a root directory. An absolute path replaces
/// the root; otherwise a single separator is put between the two unless the
/// root already ends in one.
pub open spec fn join_of(root: Seq<char>, p: Seq<char>) -> Seq<char> {
    if is_abs(p) {
        p
    } else if root.len() > 0 && root[root.len() - 1] == '/' {
        root + p
    } else {
        root + seq!['/'] + p
    }
}

/// Joins `p` to `root` as [`join_of`] describes.
pub fn join_path(root: &str, p: &str) -> (r: String)
    ensures
        r@ == join_of(root@, p@),
{
    let plen = p.unicode_len();
    let rlen = root.unicode_len();
    if plen > 0 && p.get_char(0) == '/' {
        return p.to_owned();
    }
    let mut out = root.to_owned();
    if !(rlen > 0 && root.get_char(rlen - 1) == '/') {
        out.append("/");
        proof {
            reveal_strlit("/");
            assert(out@ =~= root@ + seq!['/']);
        }
    }
    out.append(p);
    proof {
        if rlen > 0 && root@[rlen - 1] == '/' {
            assert(out@ =~= root@ + p@);
        } else {
            assert(out@ =~= root@ + seq!['/'] + p@);
        }
    }
    out
}

/// The hidden-entry test: the final segment begins with a dot. The two
/// pseudo-segments `.` and `..` (which can only end the root of a walk, the
/// way roots are built from patterns) are judged by the first character of
/// the whole path instead, as the traversal library does.
pub open spec fn hidden_of(s: Seq<char>) -> bool {
    let n = file_name_of(s);
    if n =~= seq!['.'] || n =~= seq!['.', '.'] {
        s.len() > 0 && s[0] == '.'
    } else {
        n.len() > 0 && n[0] == '.'
    }
}

/// Decides [`hidden_of`].
pub fn is_hidden_entry(path: &str) -> (r: bool)
    ensures
        r == hidden_of(path@),
{
    let name = file_name_str(path);
    let nlen = name.unicode_len();
    let dot_only = nlen == 1 && name.get_char(0) == '.';
    let dot_dot = nlen == 2 && name.get_char(0) == '.' && name.get_char(1) == '.';
    proof {
        if dot_only {
            assert(name@ =~= seq!['.']);
        }
        if dot_dot {
            assert(name@ =~= seq!['.', '.']);
        }
        if !dot_only && name@ =~= seq!['.'] {
            assert(false);
        }
        if !dot_dot && name@ =~= seq!['.', '.'] {
            assert(false);
        }
    }
    if dot_only || dot_dot {
        let plen = path.unicode_len();
        plen > 0 && path.get_char(0) == '.'
    } else {
        nlen > 0 && name.get_char(0) == '.'
    }
}

/// Whether `prefix` is a prefix of `s`.
pub fn str_starts_with(s: &str, prefix: &str) -> (r: bool)
    ensures
        r == prefix@.is_prefix_of(s@),
{
    let plen = prefix.unicode_len();
    let slen = s.unicode_len();
    if plen > slen {
        assert(!prefix@.is_prefix_of(s@));
        return false;
    }
    let mut i: usize = 0;
    while i < plen
        invariant
            i <= plen,
            plen <= slen,
            plen == prefix@.len(),
            slen == s@.len(),
            forall|j: int| 0 <= j < i ==> s@[j] == prefix@[j],
        decreases plen - i,
    {
        if s.get_char(i) != prefix.get_char(i) {
            assert(!prefix@.is_prefix_of(s@));
            return false;
        }
        i = i + 1;
    }
    assert(prefix@ =~= s@.subrange(0, plen as int));
    true
}

/// Whether `p` lies at or beneath the directory `root`: it is `root`
/// itself or continues `root` right after a separator.
pub open spec fn under_of(p: Seq<char>, root: Seq<char>) -> bool {
    p == root || join_of(root, Seq::<char>::empty()).is_prefix_of(p)
}

/// Decides [`under_of`].
pub fn is_under(p: &str, root: &str) -> (r: bool)
    ensures
        r == under_of(p@, root@),
{
    let pref = join_path(root, "");
    proof {
        reveal_strlit("");
        assert(""@ =~= Seq::<char>::empty());
    }
    if str_starts_with(p, pref.as_str()) {
        return true;
    }
    // fall back to plain equality
    let plen = p.unicode_len();
    let rlen = root.unicode_len();
    if plen != rlen {
        return false;
    }
    let mut i: usize = 0;
    while i < plen
        invariant
            i <= plen,
            plen == p@.len(),
            plen == root@.len(),
            forall|j: int| 0 <= j < i ==> p@[j] == root@[j],
            !join_of(root@, Seq::<char>::empty()).is_prefix_of(p@),
        decreases plen - i,
    {
        if p.get_char(i) != root.get_char(i) {
            assert(p@ != root@) by {
                assert(p@[i as int] != root@[i as int]);
            }
            return false;
        }
        i = i + 1;
    }
    assert(p@ =~= root@);
    true
}

/// Whether the string holds a path separator anywhere: a command value
/// without one is a bare executable name to be found in the search path.
pub open spec fn has_sep(s: Seq<char>) -> bool {
    exists|i: int| 0 <= i < s.len() && s[i] == '/'
}

/// Decides [`has_sep`].
pub fn has_separator(s: &str) -> (r: bool)
    ensures
        r == has_sep(s@),
{
    proof {
        lemma_last_idx(s@, '/');
    }
    match last_index_of(s, '/') {
        Some(i) => {
            assert(s@[i as int] == '/');
            true
        },
        None => {
            assert(!has_sep(s@));
            false
        },
    }
}

} // verus!
