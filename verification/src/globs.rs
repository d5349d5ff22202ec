//! Glob compilation, the filesystem walk, and the verified selection of
//! the matched-file set.
//!
//! Pattern compilation and glob matching are the `globmatch` crate's work
//! and stay behind trusted wrappers whose results carry opaque names
//! ([`glob_ok`], [`glob_match`], [`set_ok`], [`set_match`]); what a glob
//! means is the crate's business. Everything else - pruning during the
//! walk, retaining only files, the post-filter split, deduplication and
//! ordering - is plain logic over the observed entries and is specified
//! and proved here.

use vstd::prelude::*;

use crate::config::JsonModel;
use crate::error::Error;
use crate::paths::{hidden_of, is_hidden_entry, join_of, join_path};
use crate::strs::{dedup_sorted, sort_strings, strictly_sorted, views};
use crate::utils::fs_is_file;

verus! {

/// Whether the glob compiles: success of the globset compilation that
/// `globmatch::Builder::build` runs on the pattern remainder, a function of
/// the pattern and the case policy alone. `globmatch::Builder::build_glob`
/// runs the same compilation but additionally refuses the empty pattern,
/// which is why [`glob_is_match`] asks for a non-empty one.
pub uninterp spec fn glob_ok(pattern: Seq<char>, case_sensitive: bool) -> bool;

/// What the compiled glob matches: the result of
/// `globmatch::Glob::is_match` on the given path, a function of pattern,
/// case policy and path alone.
pub uninterp spec fn glob_match(pattern: Seq<char>, case_sensitive: bool, path: Seq<char>) -> bool;

/// Whether the glob compiles as a filter set: success of
/// `globmatch::Builder::build_glob_set`, which also refuses empty and
/// absolute patterns.
pub uninterp spec fn set_ok(pattern: Seq<char>, case_sensitive: bool) -> bool;

/// What the compiled filter set matches: the result of
/// `globmatch::GlobSet::is_match`, which tests the pattern itself and the
/// pattern prefixed by any directory levels.
pub uninterp spec fn set_match(pattern: Seq<char>, case_sensitive: bool, path: Seq<char>) -> bool;

/// Relies on `globmatch::Builder::build_glob_set`: compiles the filter
/// pattern, keeping only success or the compile diagnostic.
#[verifier::external_body]
fn glob_set_compile(pattern: &str, case_sensitive: bool) -> (r: Result<(), String>)
    ensures
        r is Ok <==> set_ok(pattern@, case_sensitive),
{
    match globmatch::Builder::new(pattern).case_sensitive(case_sensitive).build_glob_set() {
        Ok(_) => Ok(()),
        Err(e) => Err(e),
    }
}

/// Relies on `globmatch::Builder::build_glob_set` and
/// `globmatch::GlobSet::is_match`: whether the filter pattern matches the
/// path. Matching is a pure function of the arguments, named by
/// [`set_match`].
#[verifier::external_body]
fn glob_set_is_match(pattern: &str, case_sensitive: bool, path: &str) -> (r: bool)
    requires
        set_ok(pattern@, case_sensitive),
    ensures
        r == set_match(pattern@, case_sensitive, path@),
{
    match globmatch::Builder::new(pattern).case_sensitive(case_sensitive).build_glob_set() {
        Ok(g) => g.is_match(std::path::Path::new(path)),
        Err(_) => false,
    }
}

/// A pattern whose text is nothing but dots and separators (`.`, `./`,
/// `/`, and the empty string). Root resolution dissolves every component
/// of such a pattern and its remainder arithmetic is not defined for them,
/// so they are rejected up front as compile failures.
pub open spec fn dots_and_seps_only(p: Seq<char>) -> bool {
    forall|i: int| 0 <= i < p.len() ==> p[i] == '.' || p[i] == '/'
}

/// A pattern in component-normal text form: it has a real component to
/// match (not dots and separators only), no empty component (`//`), no
/// dot component after the start (`/./` or a trailing `/.`), and no
/// trailing separator. On such a pattern every component's text stands
/// verbatim in the pattern, one separator apart, which is what the root
/// resolver's remainder arithmetic assumes.
pub open spec fn resolvable_pattern(p: Seq<char>) -> bool {
    &&& !dots_and_seps_only(p)
    &&& forall|i: int|
        #![trigger p[i]]
        0 <= i < p.len() - 1 ==> !(p[i] == '/' && p[i + 1] == '/')
    &&& forall|i: int|
        #![trigger p[i]]
        0 <= i < p.len() - 2 ==> !(p[i] == '/' && p[i + 1] == '.' && p[i + 2] == '/')
    &&& p[p.len() - 1] != '/'
    &&& !(p.len() >= 2 && p[p.len() - 2] == '/' && p[p.len() - 1] == '.')
}

/// Decides [`resolvable_pattern`]; used to screen every configured pattern
/// before it reaches the resolver.
fn is_resolvable_pattern(p: &str) -> (r: bool)
    ensures
        r == resolvable_pattern(p@),
{
    let len = p.unicode_len();
    let mut plain = false;
    let mut i: usize = 0;
    while i < len
        invariant
            i <= len,
            len == p@.len(),
            plain == !(forall|j: int| 0 <= j < i ==> p@[j] == '.' || p@[j] == '/'),
            forall|j: int|
                #![trigger p@[j]]
                0 <= j < i - 1 ==> !(p@[j] == '/' && p@[j + 1] == '/'),
            forall|j: int|
                #![trigger p@[j]]
                0 <= j < i - 2 ==> !(p@[j] == '/' && p@[j + 1] == '.' && p@[j + 2] == '/'),
        decreases len - i,
    {
        let c = p.get_char(i);
        if c != '.' && c != '/' {
            plain = true;
        }
        if c == '/' {
            if i >= 1 && p.get_char(i - 1) == '/' {
                return false;
            }
            if i >= 2 && p.get_char(i - 1) == '.' && p.get_char(i - 2) == '/' {
                return false;
            }
        }
        i = i + 1;
    }
    if !plain {
        return false;
    }
    if p.get_char(len - 1) == '/' {
        return false;
    }
    if len >= 2 && p.get_char(len - 2) == '/' && p.get_char(len - 1) == '.' {
        return false;
    }
    true
}

/// Relies on `globmatch::Builder::build` and the accessors
/// `globmatch::Matcher::root` / `globmatch::Matcher::rest`: moves the
/// relative prefix of the pattern into the root directory (which must
/// exist) and compiles the remainder. The split depends on what is on
/// disk, so only the compiledness of the remainder is promised.
///
/// Only patterns in component-normal text form are admitted. The root
/// resolver recovers the pattern remainder by byte arithmetic over the
/// pattern text, assuming the remainder's components stand verbatim in it:
/// a pattern of dots and separators alone makes that arithmetic go out of
/// bounds (the recovered remainder comes from the root directory's own
/// name), and doubled separators, interior dot components or a trailing
/// separator shorten the rebuilt remainder so the arithmetic can land
/// inside a multi-byte character.
#[verifier::external_body]
fn matcher_resolve(pattern: &str, root: &str, case_sensitive: bool) -> (r: Result<
    (String, String),
    String,
>)
    requires
        resolvable_pattern(pattern@),
    ensures
        r matches Ok(m) ==> glob_ok(m.1@, case_sensitive),
{
    match globmatch::Builder::new(pattern).case_sensitive(case_sensitive).build(root) {
        Ok(m) => {
            let walk_root = m.root();
            let rest = m.rest().to_owned();
            Ok((walk_root, rest))
        },
        Err(e) => Err(e),
    }
}

/// Relies on `globmatch::Builder::build_glob` and
/// `globmatch::Glob::is_match`: whether the compiled pattern remainder
/// matches the path relative to the walk root. Matching is a pure function
/// of the arguments, named by [`glob_match`].
#[verifier::external_body]
fn glob_is_match(pattern: &str, case_sensitive: bool, rel_path: &str) -> (r: bool)
    requires
        glob_ok(pattern@, case_sensitive),
        pattern@.len() > 0,
    ensures
        r == glob_match(pattern@, case_sensitive, rel_path@),
{
    match globmatch::Builder::new(pattern).case_sensitive(case_sensitive).build_glob() {
        Ok(g) => g.is_match(std::path::Path::new(rel_path)),
        Err(_) => false,
    }
}

/// Relies on `globmatch::Builder::build` with the match-everything pattern
/// and the `globmatch::Matcher` iterator: yields the path of every entry
/// beneath `root`, relative to `root`, in whatever order the filesystem
/// delivers. What is on disk cannot be specified, so nothing is promised;
/// the selection logic is verified for every possible outcome.
#[verifier::external_body]
fn walk_relative(root: &str) -> (r: Vec<String>)
{
    match globmatch::Builder::new("**").build(root) {
        Err(_) => Vec::new(),
        Ok(m) => m.into_iter().flatten().map(
            |p: std::path::PathBuf| match p.strip_prefix(root) {
                Ok(rel) => rel.to_string_lossy().into_owned(),
                Err(_) => p.to_string_lossy().into_owned(),
            },
        ).collect(),
    }
}

/// One observed entry of a walk: its path relative to the walk root and
/// whether it is a regular file.
pub struct PathEntry {
    /// Path relative to the walk root.
    pub path: String,
    /// Whether a regular file is there.
    pub is_file: bool,
}

/// One pattern's walk: the resolved root and pattern remainder, and the
/// entries observed beneath the root.
pub struct PatternWalk {
    /// The resolved walk root.
    pub root: String,
    /// The resolved pattern remainder, matched against paths relative to
    /// the root.
    pub rest: String,
    /// The observed entries.
    pub entries: Vec<PathEntry>,
}

/// The views of an optional filter list.
pub open spec fn opt_views(o: Option<Vec<String>>) -> Option<Seq<Seq<char>>> {
    match o {
        None => None,
        Some(v) => Some(views(v@)),
    }
}

/// Whether one traversal entry (or one of its ancestors) survives the
/// pre-filter: with a configured filter list - even an empty one - an
/// entry is pruned exactly when some filter pattern matches it; without
/// one, hidden entries are pruned.
pub open spec fn keep_pred(pre: Option<Seq<Seq<char>>>, case_sensitive: bool, path: Seq<char>) -> bool {
    match pre {
        Some(ps) => !(exists|k: int|
            0 <= k < ps.len() && set_match(#[trigger] ps[k], case_sensitive, path)),
        None => !hidden_of(path),
    }
}

/// Whether the whole ancestor chain of an entry survives the pre-filter:
/// the walk root itself, every directory between the root and the entry,
/// and the entry. Pruning any of them prunes the subtree that holds the
/// entry.
pub open spec fn kept_chain(
    root: Seq<char>,
    rel: Seq<char>,
    pre: Option<Seq<Seq<char>>>,
    case_sensitive: bool,
) -> bool {
    &&& keep_pred(pre, case_sensitive, root)
    &&& forall|i: int|
        0 <= i < rel.len() && rel[i] == '/' ==> keep_pred(
            pre,
            case_sensitive,
            join_of(root, #[trigger] rel.subrange(0, i)),
        )
    &&& keep_pred(pre, case_sensitive, join_of(root, rel))
}

/// Whether the observed entry makes `full` a candidate: it is a regular
/// file, the pattern remainder matches its relative path, nothing on its
/// ancestor chain is pruned, and `full` is its root-joined path.
pub open spec fn entry_candidate(
    root: Seq<char>,
    rest: Seq<char>,
    e: PathEntry,
    pre: Option<Seq<Seq<char>>>,
    case_sensitive: bool,
    full: Seq<char>,
) -> bool {
    &&& e.is_file
    &&& rest.len() > 0
    &&& glob_match(rest, case_sensitive, e.path@)
    &&& kept_chain(root, e.path@, pre, case_sensitive)
    &&& full == join_of(root, e.path@)
}

/// Whether some entry of the walk makes `full` a candidate.
pub open spec fn walk_candidate(
    w: PatternWalk,
    pre: Option<Seq<Seq<char>>>,
    case_sensitive: bool,
    full: Seq<char>,
) -> bool {
    exists|j: int|
        0 <= j < w.entries@.len() && entry_candidate(
            w.root@,
            w.rest@,
            #[trigger] w.entries@[j],
            pre,
            case_sensitive,
            full,
        )
}

/// [`walk_candidate`] restricted to the first `n` entries.
spec fn walk_candidate_upto(
    w: PatternWalk,
    pre: Option<Seq<Seq<char>>>,
    case_sensitive: bool,
    full: Seq<char>,
    n: int,
) -> bool {
    exists|j: int|
        0 <= j < n && j < w.entries@.len() && entry_candidate(
            w.root@,
            w.rest@,
            #[trigger] w.entries@[j],
            pre,
            case_sensitive,
            full,
        )
}

/// Whether some walk makes `full` a candidate.
pub open spec fn any_candidate(
    walks: Seq<PatternWalk>,
    pre: Option<Seq<Seq<char>>>,
    case_sensitive: bool,
    full: Seq<char>,
) -> bool {
    exists|i: int|
        0 <= i < walks.len() && walk_candidate(#[trigger] walks[i], pre, case_sensitive, full)
}

/// [`any_candidate`] restricted to the walks before `wi` plus the first
/// `n` entries of walk `wi`.
spec fn any_candidate_upto(
    walks: Seq<PatternWalk>,
    pre: Option<Seq<Seq<char>>>,
    case_sensitive: bool,
    full: Seq<char>,
    wi: int,
    n: int,
) -> bool {
    ||| exists|i: int|
        0 <= i < wi && i < walks.len() && walk_candidate(
            #[trigger] walks[i],
            pre,
            case_sensitive,
            full,
        )
    ||| (0 <= wi < walks.len() && walk_candidate_upto(walks[wi], pre, case_sensitive, full, n))
}

/// Whether the post-filter excludes the file.
pub open spec fn post_hit(
    post: Option<Seq<Seq<char>>>,
    case_sensitive: bool,
    full: Seq<char>,
) -> bool {
    post matches Some(ps) && exists|k: int|
        0 <= k < ps.len() && set_match(#[trigger] ps[k], case_sensitive, full)
}

/// Decides [`keep_pred`] for one path.
#[verifier::loop_isolation(false)]
fn keep_entry(path: &str, pre: &Option<Vec<String>>, case_sensitive: bool) -> (r: bool)
    requires
        pre matches Some(ps) ==> forall|k: int|
            0 <= k < ps@.len() ==> set_ok(#[trigger] ps@[k]@, case_sensitive),
    ensures
        r == keep_pred(opt_views(*pre), case_sensitive, path@),
{
    match pre {
        None => !is_hidden_entry(path),
        Some(ps) => {
            let mut k: usize = 0;
            while k < ps.len()
                invariant
                    k <= ps@.len(),
                    forall|m: int|
                        0 <= m < ps@.len() ==> set_ok(#[trigger] ps@[m]@, case_sensitive),
                    forall|m: int|
                        0 <= m < k ==> !set_match(#[trigger] views(ps@)[m], case_sensitive, path@),
                decreases ps@.len() - k,
            {
                if glob_set_is_match(ps[k].as_str(), case_sensitive, path) {
                    proof {
                        assert(views(ps@)[k as int] == ps@[k as int]@);
                        assert(opt_views(*pre) == Some(views(ps@)));
                        assert(set_match(views(ps@)[k as int], case_sensitive, path@));
                        match opt_views(*pre) {
                            Some(psv) => {
                                assert(psv == views(ps@));
                                assert(0 <= k < psv.len());
                                assert(set_match(psv[k as int], case_sensitive, path@));
                                assert(!keep_pred(opt_views(*pre), case_sensitive, path@));
                            },
                            None => {
                                assert(false);
                            },
                        }
                    }
                    return false;
                }
                proof {
                    assert(views(ps@)[k as int] == ps@[k as int]@);
                }
                k = k + 1;
            }
            true
        },
    }
}

/// Decides [`post_hit`] for one path.
#[verifier::loop_isolation(false)]
fn post_matches(path: &str, post: &Option<Vec<String>>, case_sensitive: bool) -> (r: bool)
    requires
        post matches Some(ps) ==> forall|k: int|
            0 <= k < ps@.len() ==> set_ok(#[trigger] ps@[k]@, case_sensitive),
    ensures
        r == post_hit(opt_views(*post), case_sensitive, path@),
{
    match post {
        None => false,
        Some(ps) => {
            let mut k: usize = 0;
            while k < ps.len()
                invariant
                    k <= ps@.len(),
                    forall|m: int|
                        0 <= m < k ==> !set_match(#[trigger] views(ps@)[m], case_sensitive, path@),
                decreases ps@.len() - k,
            {
                if glob_set_is_match(ps[k].as_str(), case_sensitive, path) {
                    proof {
                        assert(views(ps@)[k as int] == ps@[k as int]@);
                        match opt_views(*post) {
                            Some(psv) => {
                                assert(psv == views(ps@));
                                assert(set_match(psv[k as int], case_sensitive, path@));
                                assert(post_hit(opt_views(*post), case_sensitive, path@));
                            },
                            None => {
                                assert(false);
                            },
                        }
                    }
                    return true;
                }
                proof {
                    assert(views(ps@)[k as int] == ps@[k as int]@);
                }
                k = k + 1;
            }
            proof {
                match opt_views(*post) {
                    Some(psv) => {
                        assert(psv == views(ps@));
                        assert(!post_hit(opt_views(*post), case_sensitive, path@));
                    },
                    None => {
                        assert(false);
                    },
                }
            }
            false
        },
    }
}

/// Decides [`kept_chain`] for one entry.
#[verifier::loop_isolation(false)]
fn chain_kept(root: &str, rel: &str, pre: &Option<Vec<String>>, case_sensitive: bool) -> (r: bool)
    requires
        pre matches Some(ps) ==> forall|k: int|
            0 <= k < ps@.len() ==> set_ok(#[trigger] ps@[k]@, case_sensitive),
    ensures
        r == kept_chain(root@, rel@, opt_views(*pre), case_sensitive),
{
    if !keep_entry(root, pre, case_sensitive) {
        return false;
    }
    let len = rel.unicode_len();
    let mut i: usize = 0;
    while i < len
        invariant
            i <= len,
            len == rel@.len(),
            keep_pred(opt_views(*pre), case_sensitive, root@),
            pre matches Some(ps) ==> forall|k: int|
                0 <= k < ps@.len() ==> set_ok(#[trigger] ps@[k]@, case_sensitive),
            forall|m: int|
                0 <= m < i && rel@[m] == '/' ==> keep_pred(
                    opt_views(*pre),
                    case_sensitive,
                    join_of(root@, #[trigger] rel@.subrange(0, m)),
                ),
        decreases len - i,
    {
        if rel.get_char(i) == '/' {
            let prefix = rel.substring_char(0, i);
            let full_prefix = join_path(root, prefix);
            if !keep_entry(full_prefix.as_str(), pre, case_sensitive) {
                assert(!keep_pred(
                    opt_views(*pre),
                    case_sensitive,
                    join_of(root@, rel@.subrange(0, i as int)),
                ));
                return false;
            }
        }
        i = i + 1;
    }
    let full = join_path(root, rel);
    keep_entry(full.as_str(), pre, case_sensitive)
}

/// Selects the matched and the filtered files from the observed walks.
///
/// The matched set holds exactly the root-joined paths of observed regular
/// files whose relative path the pattern remainder matches, whose whole
/// ancestor chain survives the pre-filter, and which the post-filter does
/// not exclude; the filtered set holds those excluded by the post-filter.
/// Both are strictly sorted and so free of duplicates and independent of
/// the order the walks delivered the entries in.
#[verifier::loop_isolation(false)]
pub fn select_paths(
    walks: &Vec<PatternWalk>,
    pre: &Option<Vec<String>>,
    post: &Option<Vec<String>>,
    case_sensitive: bool,
) -> (r: (Vec<String>, Vec<String>))
    requires
        forall|i: int|
            0 <= i < walks@.len() ==> glob_ok(#[trigger] walks@[i].rest@, case_sensitive),
        pre matches Some(ps) ==> forall|k: int|
            0 <= k < ps@.len() ==> set_ok(#[trigger] ps@[k]@, case_sensitive),
        post matches Some(ps) ==> forall|k: int|
            0 <= k < ps@.len() ==> set_ok(#[trigger] ps@[k]@, case_sensitive),
    ensures
        strictly_sorted(views(r.0@)),
        strictly_sorted(views(r.1@)),
        forall|x: Seq<char>|
            #![trigger views(r.0@).contains(x)]
            #![trigger any_candidate(walks@, opt_views(*pre), case_sensitive, x)]
            views(r.0@).contains(x) == (any_candidate(walks@, opt_views(*pre), case_sensitive, x)
                && !post_hit(opt_views(*post), case_sensitive, x)),
        forall|x: Seq<char>|
            #![trigger views(r.1@).contains(x)]
            #![trigger post_hit(opt_views(*post), case_sensitive, x)]
            views(r.1@).contains(x) == (any_candidate(walks@, opt_views(*pre), case_sensitive, x)
                && post_hit(opt_views(*post), case_sensitive, x)),
{
    let ghost prev = opt_views(*pre);
    let ghost postv = opt_views(*post);
    // phase one: gather every candidate, duplicates and all
    let mut cands: Vec<String> = Vec::new();
    let mut wi: usize = 0;
    while wi < walks.len()
        invariant
            wi <= walks@.len(),
            forall|i: int|
                0 <= i < walks@.len() ==> glob_ok(#[trigger] walks@[i].rest@, case_sensitive),
            pre matches Some(ps) ==> forall|k: int|
                0 <= k < ps@.len() ==> set_ok(#[trigger] ps@[k]@, case_sensitive),
            forall|x: Seq<char>|
                #![trigger views(cands@).contains(x)]
                #![trigger any_candidate_upto(walks@, prev, case_sensitive, x, wi as int, 0)]
                views(cands@).contains(x) == any_candidate_upto(
                    walks@,
                    prev,
                    case_sensitive,
                    x,
                    wi as int,
                    0,
                ),
        decreases walks@.len() - wi,
    {
        let w = &walks[wi];
        let rest_len = w.rest.unicode_len();
        if rest_len == 0 {
            proof {
                assert forall|x: Seq<char>|
                    any_candidate_upto(walks@, prev, case_sensitive, x, wi as int + 1, 0)
                        == any_candidate_upto(walks@, prev, case_sensitive, x, wi as int, 0) by {
                    assert(!walk_candidate(walks@[wi as int], prev, case_sensitive, x));
                }
            }
        } else {
            let mut j: usize = 0;
            while j < w.entries.len()
                invariant
                    j <= w.entries@.len(),
                    wi < walks@.len(),
                    w == walks@[wi as int],
                    w.rest@.len() > 0,
                    glob_ok(w.rest@, case_sensitive),
                    pre matches Some(ps) ==> forall|k: int|
                        0 <= k < ps@.len() ==> set_ok(#[trigger] ps@[k]@, case_sensitive),
                    forall|x: Seq<char>|
                        #![trigger views(cands@).contains(x)]
                        #![trigger any_candidate_upto(walks@, prev, case_sensitive, x, wi as int, j as int)]
                        views(cands@).contains(x) == any_candidate_upto(
                            walks@,
                            prev,
                            case_sensitive,
                            x,
                            wi as int,
                            j as int,
                        ),
                decreases w.entries@.len() - j,
            {
                let ghost old_cands = cands@;
                let e = &w.entries[j];
                let mut is_cand = e.is_file;
                if is_cand {
                    is_cand = glob_is_match(w.rest.as_str(), case_sensitive, e.path.as_str());
                }
                if is_cand {
                    is_cand = chain_kept(w.root.as_str(), e.path.as_str(), pre, case_sensitive);
                }
                let ghost ent = w.entries@[j as int];
                if is_cand {
                    let full = join_path(w.root.as_str(), e.path.as_str());
                    proof {
                        assert(entry_candidate(
                            w.root@,
                            w.rest@,
                            ent,
                            prev,
                            case_sensitive,
                            full@,
                        ));
                    }
                    cands.push(full);
                    proof {
                        assert forall|x: Seq<char>|
                            views(cands@).contains(x) == any_candidate_upto(
                                walks@,
                                prev,
                                case_sensitive,
                                x,
                                wi as int,
                                j as int + 1,
                            ) by {
                            assert(views(cands@) =~= views(old_cands).push(
                                cands@.last()@,
                            ));
                            if views(cands@).contains(x) {
                                let ci = choose|ci: int|
                                    0 <= ci < views(cands@).len() && views(cands@)[ci] == x;
                                if ci < views(old_cands).len() {
                                    assert(views(old_cands).contains(x));
                                } else {
                                    assert(entry_candidate(
                                        w.root@,
                                        w.rest@,
                                        ent,
                                        prev,
                                        case_sensitive,
                                        x,
                                    ));
                                }
                            }
                            if any_candidate_upto(
                                walks@,
                                prev,
                                case_sensitive,
                                x,
                                wi as int,
                                j as int + 1,
                            ) {
                                if !any_candidate_upto(
                                    walks@,
                                    prev,
                                    case_sensitive,
                                    x,
                                    wi as int,
                                    j as int,
                                ) {
                                    // the new entry is the only witness
                                    assert(x == join_of(w.root@, ent.path@));
                                    assert(views(cands@)[views(cands@).len() - 1] == x);
                                } else {
                                    assert(views(old_cands).contains(x));
                                    let ci = choose|ci: int|
                                        0 <= ci < views(old_cands).len() && views(old_cands)[ci]
                                            == x;
                                    assert(views(cands@)[ci] == x);
                                }
                            }
                        }
                    }
                } else {
                    proof {
                        assert forall|x: Seq<char>|
                            any_candidate_upto(
                                walks@,
                                prev,
                                case_sensitive,
                                x,
                                wi as int,
                                j as int + 1,
                            ) == any_candidate_upto(
                                walks@,
                                prev,
                                case_sensitive,
                                x,
                                wi as int,
                                j as int,
                            ) by {
                            assert(!entry_candidate(
                                w.root@,
                                w.rest@,
                                ent,
                                prev,
                                case_sensitive,
                                x,
                            ));
                        }
                    }
                }
                j = j + 1;
            }
            proof {
                assert forall|x: Seq<char>|
                    any_candidate_upto(walks@, prev, case_sensitive, x, wi as int + 1, 0)
                        == any_candidate_upto(
                        walks@,
                        prev,
                        case_sensitive,
                        x,
                        wi as int,
                        j as int,
                    ) by {
                    if any_candidate_upto(walks@, prev, case_sensitive, x, wi as int + 1, 0) {
                        let i = choose|i: int|
                            0 <= i < wi as int + 1 && i < walks@.len() && walk_candidate(
                                walks@[i],
                                prev,
                                case_sensitive,
                                x,
                            );
                        if i < wi as int {
                        } else {
                            assert(walk_candidate(walks@[wi as int], prev, case_sensitive, x));
                        }
                    }
                    if any_candidate_upto(walks@, prev, case_sensitive, x, wi as int, j as int) {
                    }
                }
            }
        }
        wi = wi + 1;
    }
    proof {
        assert forall|x: Seq<char>|
            views(cands@).contains(x) == any_candidate(walks@, prev, case_sensitive, x) by {
            assert(any_candidate_upto(walks@, prev, case_sensitive, x, walks@.len() as int, 0)
                == any_candidate(walks@, prev, case_sensitive, x));
        }
    }
    // phase two: split by the post-filter
    let mut matched_raw: Vec<String> = Vec::new();
    let mut filtered_raw: Vec<String> = Vec::new();
    let mut c: usize = 0;
    while c < cands.len()
        invariant
            c <= cands@.len(),
            post matches Some(ps) ==> forall|k: int|
                0 <= k < ps@.len() ==> set_ok(#[trigger] ps@[k]@, case_sensitive),
            forall|x: Seq<char>|
                #![trigger views(matched_raw@).contains(x)]
                views(matched_raw@).contains(x) == (views(cands@.take(c as int)).contains(x)
                    && !post_hit(postv, case_sensitive, x)),
            forall|x: Seq<char>|
                #![trigger views(filtered_raw@).contains(x)]
                views(filtered_raw@).contains(x) == (views(cands@.take(c as int)).contains(x)
                    && post_hit(postv, case_sensitive, x)),
        decreases cands@.len() - c,
    {
        let ghost old_m = matched_raw@;
        let ghost old_f = filtered_raw@;
        proof {
            assert forall|x: Seq<char>|
                views(old_m).contains(x) == (views(cands@.take(c as int)).contains(x) && !post_hit(
                    postv,
                    case_sensitive,
                    x,
                )) by {}
            assert forall|x: Seq<char>|
                views(old_f).contains(x) == (views(cands@.take(c as int)).contains(x) && post_hit(
                    postv,
                    case_sensitive,
                    x,
                )) by {}
        }
        let hit = post_matches(cands[c].as_str(), post, case_sensitive);
        proof {
            assert(hit == post_hit(postv, case_sensitive, cands@[c as int]@));
        }
        if hit {
            filtered_raw.push(cands[c].clone());
        } else {
            matched_raw.push(cands[c].clone());
        }
        proof {
            let cv = cands@[c as int]@;
            assert(views(cands@.take(c as int + 1)) =~= views(cands@.take(c as int)).push(cv));
            if hit {
                assert(views(filtered_raw@) =~= views(old_f).push(cv));
            } else {
                assert(views(matched_raw@) =~= views(old_m).push(cv));
            }
            assert forall|x: Seq<char>|
                #![trigger views(matched_raw@).contains(x)]
                views(matched_raw@).contains(x) == (views(cands@.take(c as int + 1)).contains(x)
                    && !post_hit(postv, case_sensitive, x)) by {
                let tk1 = views(cands@.take(c as int + 1));
                let tk0 = views(cands@.take(c as int));
                lemma_push_contains(tk0, cv, x);
                assert(tk1.contains(x) == (tk0.contains(x) || x == cv));
                assert(views(old_m).contains(x) == (tk0.contains(x) && !post_hit(
                    postv,
                    case_sensitive,
                    x,
                )));
                if hit {
                    assert(views(matched_raw@) == views(old_m));
                } else {
                    assert(views(matched_raw@) =~= views(old_m).push(cv));
                    lemma_push_contains(views(old_m), cv, x);
                }
            }
            assert forall|x: Seq<char>|
                #![trigger views(filtered_raw@).contains(x)]
                views(filtered_raw@).contains(x) == (views(cands@.take(c as int + 1)).contains(x)
                    && post_hit(postv, case_sensitive, x)) by {
                let tk1 = views(cands@.take(c as int + 1));
                let tk0 = views(cands@.take(c as int));
                lemma_push_contains(tk0, cv, x);
                assert(tk1.contains(x) == (tk0.contains(x) || x == cv));
                assert(views(old_f).contains(x) == (tk0.contains(x) && post_hit(
                    postv,
                    case_sensitive,
                    x,
                )));
                if hit {
                    assert(views(filtered_raw@) =~= views(old_f).push(cv));
                    lemma_push_contains(views(old_f), cv, x);
                } else {
                    assert(views(filtered_raw@) == views(old_f));
                }
            }
        }
        c = c + 1;
    }
    proof {
        assert(cands@.take(cands@.len() as int) =~= cands@);
    }
    // phase three: canonical order, no duplicates
    let matched = dedup_sorted(sort_strings(matched_raw));
    let filtered = dedup_sorted(sort_strings(filtered_raw));
    (matched, filtered)
}

/// Membership in a pushed sequence.
proof fn lemma_push_contains(s: Seq<Seq<char>>, v: Seq<char>, x: Seq<char>)
    ensures
        s.push(v).contains(x) == (s.contains(x) || x == v),
{
    if s.push(v).contains(x) {
        let i = choose|i: int| 0 <= i < s.push(v).len() && s.push(v)[i] == x;
        if i < s.len() {
            assert(s.contains(x));
        }
    }
    if s.contains(x) {
        let i = choose|i: int| 0 <= i < s.len() && s[i] == x;
        assert(s.push(v)[i] == x);
    }
    if x == v {
        assert(s.push(v)[s.len() as int] == x);
    }
}

} // verus!

verus! {

/// The filter patterns that do not compile, in order.
pub open spec fn failing_patterns(ps: Seq<String>, case_sensitive: bool) -> Seq<String> {
    ps.filter(|p: String| !set_ok(p@, case_sensitive))
}

/// Compiles every filter pattern, collecting all failures: the user sees
/// every broken pattern of a field at once - one diagnostic per failing
/// pattern. `None` stays `None`: an absent filter keeps its default
/// meaning.
pub fn build_glob_set_from(
    filter: &Option<Vec<String>>,
    case_sensitive: bool,
    field: &str,
    file: &str,
) -> (r: Result<Option<Vec<String>>, Error>)
    ensures
        filter is None ==> r matches Ok(None),
        r matches Ok(o) ==> (o is Some <==> filter is Some),
        r matches Ok(o) ==> (o matches Some(v) ==> (filter matches Some(f) && views(v@) == views(
            f@,
        ) && forall|k: int| 0 <= k < v@.len() ==> set_ok(#[trigger] v@[k]@, case_sensitive))),
        r is Err <==> (filter matches Some(f) && exists|k: int|
            0 <= k < f@.len() && !set_ok(#[trigger] f@[k]@, case_sensitive)),
        r matches Err(e) ==> (e matches Error::PatternCompile { field: fl, file: fi, messages }
            && fl@ == field@ && fi@ == file@ && messages@.len() > 0),
        filter matches Some(f) ==> (r matches Err(e) ==> (
        e matches Error::PatternCompile { messages, .. } && messages@.len() == failing_patterns(
            f@,
            case_sensitive,
        ).len())),
{
    match filter {
        None => Ok(None),
        Some(ps) => {
            let mut out: Vec<String> = Vec::new();
            let mut errs: Vec<String> = Vec::new();
            let mut k: usize = 0;
            proof {
                reveal(Seq::filter);
                assert(views(out@) =~= views(ps@.take(0)));
                assert(failing_patterns(ps@.take(0), case_sensitive) =~= Seq::<String>::empty());
            }
            while k < ps.len()
                invariant
                    k <= ps@.len(),
                    views(out@) == views(ps@.take(k as int)),
                    errs@.len() == failing_patterns(ps@.take(k as int), case_sensitive).len(),
                    (errs@.len() == 0) == (forall|m: int|
                        0 <= m < k ==> set_ok(#[trigger] ps@[m]@, case_sensitive)),
                decreases ps@.len() - k,
            {
                let ghost old_out = out@;
                match glob_set_compile(ps[k].as_str(), case_sensitive) {
                    Ok(_) => (),
                    Err(m) => {
                        errs.push(m);
                    },
                }
                out.push(ps[k].clone());
                proof {
                    reveal(Seq::filter);
                    assert(views(out@) =~= views(ps@.take(k as int + 1))) by {
                        assert(ps@.take(k as int + 1) =~= ps@.take(k as int).push(ps@[k as int]));
                        assert(views(out@) =~= views(old_out).push(ps@[k as int]@));
                        assert(views(ps@.take(k as int).push(ps@[k as int])) =~= views(
                            ps@.take(k as int),
                        ).push(ps@[k as int]@));
                    }
                    let pre = ps@.take(k as int);
                    let post = ps@.take(k as int + 1);
                    assert(post.drop_last() =~= pre);
                    assert(post.last() == ps@[k as int]);
                    assert(failing_patterns(post, case_sensitive)
                        == if !set_ok(ps@[k as int]@, case_sensitive) {
                        failing_patterns(pre, case_sensitive).push(ps@[k as int])
                    } else {
                        failing_patterns(pre, case_sensitive)
                    });
                }
                k = k + 1;
            }
            proof {
                assert(ps@.take(ps@.len() as int) =~= ps@);
            }
            if errs.len() == 0 {
                proof {
                    assert(views(out@) == views(ps@));
                    assert forall|m: int| 0 <= m < out@.len() implies set_ok(
                        #[trigger] out@[m]@,
                        case_sensitive,
                    ) by {
                        assert(views(out@)[m] == out@[m]@);
                        assert(views(ps@)[m] == ps@[m]@);
                        assert(out@[m]@ == ps@[m]@);
                    }
                }
                Ok(Some(out))
            } else {
                Err(
                    Error::PatternCompile {
                        field: field.to_owned(),
                        file: file.to_owned(),
                        messages: errs,
                    },
                )
            }
        },
    }
}

/// The error payloads of the failed candidates, in order.
pub open spec fn err_views(cs: Seq<Result<(String, String), String>>) -> Seq<Seq<char>>
    decreases cs.len(),
{
    if cs.len() == 0 {
        Seq::empty()
    } else {
        err_views(cs.drop_last()) + (match cs.last() {
            Result::Err(m) => seq![m@],
            Result::Ok(_) => Seq::empty(),
        })
    }
}

/// Splits the per-pattern outcomes: all of them succeeded, or every failure
/// is reported together - one diagnostic per failing pattern, in order,
/// under the originating field and file.
pub fn extract_patterns(
    candidates: Vec<Result<(String, String), String>>,
    field: &str,
    file: &str,
) -> (r: Result<Vec<(String, String)>, Error>)
    ensures
        r is Ok <==> (forall|i: int|
            0 <= i < candidates@.len() ==> #[trigger] candidates@[i] is Ok),
        r matches Ok(v) ==> v@.len() == candidates@.len() && forall|i: int|
            0 <= i < v@.len() ==> (#[trigger] candidates@[i] matches Ok(m) && v@[i].0@ == m.0@
                && v@[i].1@ == m.1@),
        r matches Err(e) ==> (e matches Error::PatternCompile { field: fl, file: fi, messages }
            && fl@ == field@ && fi@ == file@ && views(messages@) == err_views(candidates@)
            && messages@.len() > 0),
{
    let mut oks: Vec<(String, String)> = Vec::new();
    let mut errs: Vec<String> = Vec::new();
    let mut k: usize = 0;
    proof {
        assert(err_views(candidates@.take(0)) =~= Seq::<Seq<char>>::empty());
        assert(views(errs@) =~= Seq::<Seq<char>>::empty());
    }
    while k < candidates.len()
        invariant
            k <= candidates@.len(),
            views(errs@) == err_views(candidates@.take(k as int)),
            (errs@.len() == 0) == (forall|i: int|
                0 <= i < k ==> #[trigger] candidates@[i] is Ok),
            errs@.len() == 0 ==> oks@.len() == k,
            errs@.len() == 0 ==> forall|i: int|
                0 <= i < oks@.len() ==> (#[trigger] candidates@[i] matches Ok(m) && oks@[i].0@
                    == m.0@ && oks@[i].1@ == m.1@),
        decreases candidates@.len() - k,
    {
        let ghost old_errs = errs@;
        match &candidates[k] {
            Ok(m) => {
                oks.push((m.0.clone(), m.1.clone()));
            },
            Err(m) => {
                errs.push(m.clone());
            },
        }
        proof {
            let pre = candidates@.take(k as int);
            let post = candidates@.take(k as int + 1);
            assert(post.drop_last() =~= pre);
            assert(post.last() == candidates@[k as int]);
            assert(err_views(post) == err_views(pre) + (match candidates@[k as int] {
                Result::Err(m) => seq![m@],
                Result::Ok(_) => Seq::<Seq<char>>::empty(),
            }));
            match candidates@[k as int] {
                Result::Err(_m) => {
                    assert(views(errs@) =~= views(old_errs).push(errs@.last()@));
                    assert(views(errs@) =~= err_views(post));
                },
                Result::Ok(_m) => {
                    assert(err_views(pre) + Seq::<Seq<char>>::empty() =~= err_views(pre));
                },
            }
        }
        k = k + 1;
    }
    proof {
        assert(candidates@.take(candidates@.len() as int) =~= candidates@);
    }
    if errs.len() == 0 {
        Ok(oks)
    } else {
        Err(
            Error::PatternCompile {
                field: field.to_owned(),
                file: file.to_owned(),
                messages: errs,
            },
        )
    }
}

/// Resolves every path pattern against the root directory: all failures -
/// including patterns whose text is not in component-normal form - are
/// collected and reported together; on success there is one resolved
/// matcher per pattern, in order, each with a compiled remainder.
pub fn build_matchers_from(
    patterns: &Vec<String>,
    root: &str,
    case_sensitive: bool,
    field: &str,
    file: &str,
) -> (r: Result<Vec<(String, String)>, Error>)
    ensures
        patterns@.len() == 0 ==> r is Ok,
        (exists|k: int|
            0 <= k < patterns@.len() && !resolvable_pattern(#[trigger] patterns@[k]@)) ==> r
            is Err,
        r matches Ok(ms) ==> ms@.len() == patterns@.len() && forall|i: int|
            0 <= i < ms@.len() ==> glob_ok((#[trigger] ms@[i]).1@, case_sensitive),
        r matches Err(e) ==> (e matches Error::PatternCompile { field: fl, file: fi, messages }
            && fl@ == field@ && fi@ == file@ && messages@.len() > 0),
{
    let mut candidates: Vec<Result<(String, String), String>> = Vec::new();
    let mut k: usize = 0;
    while k < patterns.len()
        invariant
            candidates@.len() == k,
            k <= patterns@.len(),
            forall|i: int|
                0 <= i < k ==> (#[trigger] candidates@[i] matches Ok(m) ==> glob_ok(
                    m.1@,
                    case_sensitive,
                )),
            forall|i: int|
                0 <= i < k ==> (!resolvable_pattern(#[trigger] patterns@[i]@)
                    ==> candidates@[i] is Err),
        decreases patterns@.len() - k,
    {
        let outcome = if !is_resolvable_pattern(patterns[k].as_str()) {
            Err(
                "The pattern needs a component to match, without empty or dot components or a trailing separator".to_owned(),
            )
        } else {
            matcher_resolve(patterns[k].as_str(), root, case_sensitive)
        };
        candidates.push(outcome);
        k = k + 1;
    }
    let ghost cands = candidates@;
    let r = extract_patterns(candidates, field, file);
    proof {
        if r is Ok {
            lemma_matchers_glob_ok(cands, r->Ok_0@, case_sensitive);
            assert forall|i: int|
                0 <= i < patterns@.len() implies resolvable_pattern(
                #[trigger] patterns@[i]@,
            ) by {
                assert(cands[i] is Ok);
            }
        }
    }
    r
}

/// The compiled-remainder guarantee carries from the per-pattern outcomes
/// to the extracted matcher list.
proof fn lemma_matchers_glob_ok(
    cands: Seq<Result<(String, String), String>>,
    v: Seq<(String, String)>,
    case_sensitive: bool,
)
    requires
        forall|i: int|
            0 <= i < cands.len() ==> (#[trigger] cands[i] matches Ok(m) ==> glob_ok(
                m.1@,
                case_sensitive,
            )),
        v.len() == cands.len(),
        forall|i: int|
            0 <= i < v.len() ==> (#[trigger] cands[i] matches Ok(m) && v[i].0@ == m.0@ && v[i].1@
                == m.1@),
    ensures
        forall|i: int| 0 <= i < v.len() ==> glob_ok((#[trigger] v[i]).1@, case_sensitive),
{
    assert forall|i: int| 0 <= i < v.len() implies glob_ok(
        (#[trigger] v[i]).1@,
        case_sensitive,
    ) by {
        assert(cands[i] is Ok);
    }
}

/// Walks each resolved matcher's root, observes every entry, and selects
/// the matched and filtered files.
///
/// The walks themselves observe whatever is on disk; the selection over
/// them is exact (see [`select_paths`]). Whatever the walks observed, both
/// results are strictly sorted - deterministic however the filesystem
/// ordered the entries - the matched set holds no post-filtered file, and
/// the filtered set only post-filtered ones.
pub fn match_paths(
    matchers: &Vec<(String, String)>,
    filter_pre: &Option<Vec<String>>,
    filter_post: &Option<Vec<String>>,
    case_sensitive: bool,
) -> (r: (Vec<String>, Vec<String>))
    requires
        forall|i: int|
            0 <= i < matchers@.len() ==> glob_ok((#[trigger] matchers@[i]).1@, case_sensitive),
        filter_pre matches Some(ps) ==> forall|k: int|
            0 <= k < ps@.len() ==> set_ok(#[trigger] ps@[k]@, case_sensitive),
        filter_post matches Some(ps) ==> forall|k: int|
            0 <= k < ps@.len() ==> set_ok(#[trigger] ps@[k]@, case_sensitive),
    ensures
        strictly_sorted(views(r.0@)),
        strictly_sorted(views(r.1@)),
        matchers@.len() == 0 ==> r.0@.len() == 0 && r.1@.len() == 0,
        forall|x: Seq<char>|
            #[trigger] views(r.0@).contains(x) ==> !post_hit(
                opt_views(*filter_post),
                case_sensitive,
                x,
            ),
        forall|x: Seq<char>|
            #[trigger] views(r.1@).contains(x) ==> post_hit(
                opt_views(*filter_post),
                case_sensitive,
                x,
            ),
{
    let mut walks: Vec<PatternWalk> = Vec::new();
    let mut i: usize = 0;
    while i < matchers.len()
        invariant
            i <= matchers@.len(),
            walks@.len() == i,
            forall|m: int|
                0 <= m < matchers@.len() ==> glob_ok(
                    (#[trigger] matchers@[m]).1@,
                    case_sensitive,
                ),
            forall|w: int|
                0 <= w < walks@.len() ==> glob_ok((#[trigger] walks@[w]).rest@, case_sensitive),
        decreases matchers@.len() - i,
    {
        let m = &matchers[i];
        let rels = walk_relative(m.0.as_str());
        let mut entries: Vec<PathEntry> = Vec::new();
        let mut j: usize = 0;
        while j < rels.len()
            invariant
                j <= rels@.len(),
            decreases rels@.len() - j,
        {
            let full = join_path(m.0.as_str(), rels[j].as_str());
            let is_file = fs_is_file(full.as_str());
            entries.push(PathEntry { path: rels[j].clone(), is_file });
            j = j + 1;
        }
        walks.push(PatternWalk { root: m.0.clone(), rest: m.1.clone(), entries });
        i = i + 1;
    }
    let selected = select_paths(&walks, filter_pre, filter_post, case_sensitive);
    proof {
        // without matchers there are no walks, so nothing is a candidate and
        // both outputs are empty
        if matchers@.len() == 0 {
            assert forall|x: Seq<char>| !(#[trigger] views(selected.0@).contains(x)) by {
                assert(!any_candidate(walks@, opt_views(*filter_pre), case_sensitive, x));
            }
            assert forall|x: Seq<char>| !(#[trigger] views(selected.1@).contains(x)) by {
                assert(!any_candidate(walks@, opt_views(*filter_pre), case_sensitive, x));
            }
            if views(selected.0@).len() > 0 {
                assert(views(selected.0@).contains(views(selected.0@)[0]));
            }
            if views(selected.1@).len() > 0 {
                assert(views(selected.1@).contains(views(selected.1@)[0]));
            }
        }
    }
    selected
}

/// Whether every pattern of an optional filter compiles; an absent filter
/// compiles trivially.
pub open spec fn filter_ok(f: Option<Vec<String>>, case_sensitive: bool) -> bool {
    match f {
        None => true,
        Some(v) => forall|k: int| 0 <= k < v@.len() ==> set_ok(#[trigger] v@[k]@, case_sensitive),
    }
}

/// Resolves the matched-file set for a configuration: compiles the path
/// patterns and both filters - reporting every broken pattern of a field
/// together - then walks and selects. A filter with a broken pattern, or a
/// path pattern not in component-normal form, is a configuration error; a
/// configuration that asks for nothing and compiles owes success.
pub fn resolve_paths(json: &JsonModel, case_sensitive: bool) -> (r: Result<
    (Vec<String>, Vec<String>),
    Error,
>)
    ensures
        !filter_ok(json.filter_pre, case_sensitive) ==> r is Err,
        !filter_ok(json.filter_post, case_sensitive) ==> r is Err,
        (exists|k: int|
            0 <= k < json.paths@.len() && !resolvable_pattern(#[trigger] json.paths@[k]@)) ==> r
            is Err,
        (json.paths@.len() == 0 && filter_ok(json.filter_pre, case_sensitive) && filter_ok(
            json.filter_post,
            case_sensitive,
        )) ==> (r matches Ok(t) && t.0@.len() == 0 && t.1@.len() == 0),
        r matches Ok(t) ==> strictly_sorted(views(t.0@)) && strictly_sorted(views(t.1@)),
        r matches Ok(t) ==> forall|x: Seq<char>|
            #[trigger] views(t.0@).contains(x) ==> !post_hit(
                opt_views(json.filter_post),
                case_sensitive,
                x,
            ),
        r matches Ok(t) ==> forall|x: Seq<char>|
            #[trigger] views(t.1@).contains(x) ==> post_hit(
                opt_views(json.filter_post),
                case_sensitive,
                x,
            ),
        r matches Err(e) ==> e is PatternCompile,
{
    let matchers = build_matchers_from(
        &json.paths,
        json.root.as_str(),
        case_sensitive,
        "paths",
        json.name.as_str(),
    )?;
    let pre = build_glob_set_from(
        &json.filter_pre,
        case_sensitive,
        "filterPre",
        json.name.as_str(),
    )?;
    let post = build_glob_set_from(
        &json.filter_post,
        case_sensitive,
        "filterPost",
        json.name.as_str(),
    )?;
    let selected = match_paths(&matchers, &pre, &post, case_sensitive);
    proof {
        // the validated post-filter is view-equal to the configured one, so
        // the exclusion guarantee carries over to the configuration's terms
        match post {
            None => {
                assert(opt_views(json.filter_post) is None);
            },
            Some(v) => {
                match &json.filter_post {
                    None => {
                        assert(false);
                    },
                    Some(f) => {
                        assert(opt_views(Some(v)) == Some(views(v@)));
                        assert(views(v@) == views(f@));
                        assert(opt_views(json.filter_post) == opt_views(Some(v)));
                    },
                }
            },
        }
    }
    Ok(selected)
}

/// An explicitly supplied pre-filter replaces the default hidden-entry
/// pruning even when it is empty: with an empty filter list nothing at all
/// is pruned, so files beneath hidden directories are candidates.
pub proof fn lemma_empty_prefilter_disables_pruning(
    root: Seq<char>,
    rel: Seq<char>,
    case_sensitive: bool,
)
    ensures
        kept_chain(root, rel, Some(Seq::empty()), case_sensitive),
{
}

/// Omitting the pre-filter keeps the default: an entry whose own path is
/// hidden is pruned.
pub proof fn lemma_default_prunes_hidden(root: Seq<char>, rel: Seq<char>, case_sensitive: bool)
    requires
        hidden_of(join_of(root, rel)),
    ensures
        !kept_chain(root, rel, None, case_sensitive),
{
}

/// The view of the observed entries: what they say, free of the `String`
/// values carrying it.
pub open spec fn entry_views(es: Seq<PathEntry>) -> Seq<(Seq<char>, bool)> {
    es.map_values(|e: PathEntry| (e.path@, e.is_file))
}

/// Two walks observed the same tree: same root, same pattern remainder,
/// and the same set of entries - possibly in a different order, as
/// directory iteration order is not deterministic.
pub open spec fn same_walk_observation(w0: PatternWalk, w1: PatternWalk) -> bool {
    &&& w0.root@ == w1.root@
    &&& w0.rest@ == w1.rest@
    &&& forall|p: (Seq<char>, bool)|
        #![trigger entry_views(w0.entries@).contains(p)]
        #![trigger entry_views(w1.entries@).contains(p)]
        entry_views(w0.entries@).contains(p) == entry_views(w1.entries@).contains(p)
}

/// Candidates agree across walks that observed the same tree.
proof fn lemma_walk_candidate_same(
    w0: PatternWalk,
    w1: PatternWalk,
    pre: Option<Seq<Seq<char>>>,
    case_sensitive: bool,
    full: Seq<char>,
)
    requires
        same_walk_observation(w0, w1),
    ensures
        walk_candidate(w0, pre, case_sensitive, full) == walk_candidate(w1, pre, case_sensitive, full),
{
    if walk_candidate(w0, pre, case_sensitive, full) {
        let j = choose|j: int|
            0 <= j < w0.entries@.len() && entry_candidate(
                w0.root@,
                w0.rest@,
                #[trigger] w0.entries@[j],
                pre,
                case_sensitive,
                full,
            );
        let e = w0.entries@[j];
        assert(entry_views(w0.entries@)[j] == (e.path@, e.is_file));
        assert(entry_views(w0.entries@).contains((e.path@, e.is_file)));
        assert(entry_views(w1.entries@).contains((e.path@, e.is_file)));
        let j1 = choose|j1: int|
            0 <= j1 < entry_views(w1.entries@).len() && entry_views(w1.entries@)[j1] == (
                e.path@,
                e.is_file,
            );
        let e1 = w1.entries@[j1];
        assert(e1.path@ == e.path@ && e1.is_file == e.is_file);
        assert(entry_candidate(w1.root@, w1.rest@, e1, pre, case_sensitive, full));
    }
    if walk_candidate(w1, pre, case_sensitive, full) {
        let j = choose|j: int|
            0 <= j < w1.entries@.len() && entry_candidate(
                w1.root@,
                w1.rest@,
                #[trigger] w1.entries@[j],
                pre,
                case_sensitive,
                full,
            );
        let e = w1.entries@[j];
        assert(entry_views(w1.entries@)[j] == (e.path@, e.is_file));
        assert(entry_views(w1.entries@).contains((e.path@, e.is_file)));
        assert(entry_views(w0.entries@).contains((e.path@, e.is_file)));
        let j0 = choose|j0: int|
            0 <= j0 < entry_views(w0.entries@).len() && entry_views(w0.entries@)[j0] == (
                e.path@,
                e.is_file,
            );
        let e0 = w0.entries@[j0];
        assert(e0.path@ == e.path@ && e0.is_file == e.is_file);
        assert(entry_candidate(w0.root@, w0.rest@, e0, pre, case_sensitive, full));
    }
}

/// The matched-file set is stable: two resolver runs over an unchanged
/// tree - same roots, same patterns, same observed entries, in whatever
/// order each walk delivered them - produce identical output. The two
/// output lists are the ones [`select_paths`] characterizes: strictly
/// sorted and membership-determined; this pins them to be equal.
pub proof fn lemma_resolver_stable(
    out0: Seq<Seq<char>>,
    out1: Seq<Seq<char>>,
    walks0: Seq<PatternWalk>,
    walks1: Seq<PatternWalk>,
    pre: Option<Seq<Seq<char>>>,
    post: Option<Seq<Seq<char>>>,
    case_sensitive: bool,
    keep_post_hits: bool,
)
    requires
        crate::strs::strictly_sorted(out0),
        crate::strs::strictly_sorted(out1),
        walks0.len() == walks1.len(),
        forall|i: int|
            0 <= i < walks0.len() ==> same_walk_observation(
                #[trigger] walks0[i],
                #[trigger] walks1[i],
            ),
        forall|x: Seq<char>|
            #[trigger] out0.contains(x) == (any_candidate(walks0, pre, case_sensitive, x)
                && post_hit(post, case_sensitive, x) == keep_post_hits),
        forall|x: Seq<char>|
            #[trigger] out1.contains(x) == (any_candidate(walks1, pre, case_sensitive, x)
                && post_hit(post, case_sensitive, x) == keep_post_hits),
    ensures
        out0 == out1,
{
    assert forall|x: Seq<char>|
        #![trigger out0.contains(x)]
        #![trigger out1.contains(x)]
        out0.contains(x) == out1.contains(x) by {
        assert forall|i: int|
            0 <= i < walks0.len() implies walk_candidate(
            #[trigger] walks0[i],
            pre,
            case_sensitive,
            x,
        ) == walk_candidate(walks1[i], pre, case_sensitive, x) by {
            lemma_walk_candidate_same(walks0[i], walks1[i], pre, case_sensitive, x);
        }
        if any_candidate(walks0, pre, case_sensitive, x) {
            let i = choose|i: int|
                0 <= i < walks0.len() && walk_candidate(
                    #[trigger] walks0[i],
                    pre,
                    case_sensitive,
                    x,
                );
            assert(walk_candidate(walks1[i], pre, case_sensitive, x));
            assert(any_candidate(walks1, pre, case_sensitive, x));
        }
        if any_candidate(walks1, pre, case_sensitive, x) {
            let i = choose|i: int|
                0 <= i < walks1.len() && walk_candidate(
                    #[trigger] walks1[i],
                    pre,
                    case_sensitive,
                    x,
                );
            assert(walk_candidate(walks0[i], pre, case_sensitive, x));
            assert(any_candidate(walks0, pre, case_sensitive, x));
        }
    }
    crate::strs::lemma_strictly_sorted_unique(out0, out1);
}

} // verus!
