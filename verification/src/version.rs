//! Parsing a semantic version triple out of the formatter's free-form
//! version-probe output.
//!
//! The accepted shape is the first occurrence of the marker `version `
//! followed directly by `<digits>.<digits>.<digits>`; surrounding text and
//! punctuation are ignored. Components must fit in a byte, as released
//! formatter major versions do; a triple with a larger component counts as
//! unparsable.

use vstd::prelude::*;

verus! {

/// A parsed `major.minor.patch` formatter version.
#[derive(Clone, Copy, PartialEq, Eq, Structural, Debug)]
pub struct Version {
    /// Major component.
    pub major: u8,
    /// Minor component.
    pub minor: u8,
    /// Patch component.
    pub patch: u8,
}

/// Decimal digit test.
pub open spec fn is_digit(c: char) -> bool {
    '0' <= c && c <= '9'
}

/// Value of a decimal digit.
pub open spec fn digit_val(c: char) -> int {
    c as int - 48
}

/// First position at or after `i` that does not hold a digit.
pub open spec fn run_end(s: Seq<char>, i: int) -> int
    decreases s.len() - i when 0 <= i <= s.len()
{
    if i >= s.len() {
        i
    } else if !is_digit(s[i]) {
        i
    } else {
        run_end(s, i + 1)
    }
}

/// Value of the decimal digits `s[i..j]`.
pub open spec fn run_val(s: Seq<char>, i: int, j: int) -> int
    decreases j - i,
{
    if j <= i {
        0
    } else {
        run_val(s, i, j - 1) * 10 + digit_val(s[j - 1])
    }
}

/// The marker that announces a version triple.
pub open spec fn version_marker() -> Seq<char> {
    seq!['v', 'e', 'r', 's', 'i', 'o', 'n', ' ']
}

/// The triple `<digits>.<digits>.<digits>` starting at `j`, if it is there.
pub open spec fn triple_at(s: Seq<char>, j: int) -> Option<(int, int, int)> {
    let e1 = run_end(s, j);
    if e1 == j || e1 >= s.len() || s[e1] != '.' {
        None
    } else {
        let e2 = run_end(s, e1 + 1);
        if e2 == e1 + 1 || e2 >= s.len() || s[e2] != '.' {
            None
        } else {
            let e3 = run_end(s, e2 + 1);
            if e3 == e2 + 1 {
                None
            } else {
                Some((run_val(s, j, e1), run_val(s, e1 + 1, e2), run_val(s, e2 + 1, e3)))
            }
        }
    }
}

/// Whether the marker sits at position `i`.
pub open spec fn marker_at(s: Seq<char>, i: int) -> bool {
    i + 8 <= s.len() && s.subrange(i, i + 8) == version_marker()
}

/// The first triple announced by a marker at or after position `i`.
pub open spec fn version_from(s: Seq<char>, i: int) -> Option<(int, int, int)>
    decreases s.len() - i when 0 <= i <= s.len()
{
    if i + 8 > s.len() {
        None
    } else if marker_at(s, i) && triple_at(s, i + 8) is Some {
        triple_at(s, i + 8)
    } else {
        version_from(s, i + 1)
    }
}

/// The version triple announced by the whole text, with every component
/// small enough for a byte.
pub open spec fn parsed_version(s: Seq<char>) -> Option<Version> {
    match version_from(s, 0) {
        None => None,
        Some((a, b, c)) => if 0 <= a <= 255 && 0 <= b <= 255 && 0 <= c <= 255 {
            Some(Version { major: a as u8, minor: b as u8, patch: c as u8 })
        } else {
            None
        },
    }
}

/// Whether position `e` of `s` holds a decimal digit.
fn digit_at(s: &str, e: usize) -> (r: bool)
    ensures
        r == (e < s@.len() && is_digit(s@[e as int])),
{
    let len = s.unicode_len();
    if e >= len {
        return false;
    }
    let c = s.get_char(e);
    '0' <= c && c <= '9'
}

/// Scans the digit run starting at `j`; reports its end and its value,
/// which is exact whenever it fits in a byte.
fn scan_run(s: &str, j: usize) -> (r: (usize, u32))
    requires
        j <= s@.len(),
    ensures
        r.0 == run_end(s@, j as int),
        j <= r.0 <= s@.len(),
        run_val(s@, j as int, r.0 as int) <= 255 ==> r.1 == run_val(s@, j as int, r.0 as int),
        run_val(s@, j as int, r.0 as int) > 255 ==> r.1 > 255,
        run_val(s@, j as int, r.0 as int) >= 0,
{
    let len = s.unicode_len();
    let mut e: usize = j;
    let mut val: u32 = 0;
    while digit_at(s, e)
        invariant
            j <= e <= len,
            len == s@.len(),
            run_end(s@, j as int) == run_end(s@, e as int),
            run_val(s@, j as int, e as int) <= 255 ==> val == run_val(s@, j as int, e as int),
            run_val(s@, j as int, e as int) > 255 ==> val > 255,
            run_val(s@, j as int, e as int) >= 0,
            val <= 10009,
        decreases len - e,
    {
        let c = s.get_char(e);
        let d: u32 = c as u32 - 48;
        proof {
            assert(is_digit(s@[e as int]));
            assert(run_end(s@, e as int) == run_end(s@, e as int + 1));
            assert(run_val(s@, j as int, e as int + 1) == run_val(s@, j as int, e as int) * 10
                + digit_val(s@[e as int]));
            assert(0 <= digit_val(s@[e as int]) <= 9);
        }
        let ghost rv = run_val(s@, j as int, e as int);
        if val <= 1000 {
            val = val * 10 + d;
        }
        proof {
            let rv2 = run_val(s@, j as int, e as int + 1);
            if rv <= 255 {
                assert(rv2 == rv * 10 + digit_val(s@[e as int]));
                if rv2 > 255 {
                    assert(val > 255);
                }
            } else {
                assert(rv2 >= rv * 10);
                assert(rv2 > 255);
                assert(val > 255);
            }
        }
        e = e + 1;
    }
    proof {
        if e < len {
            assert(!is_digit(s@[e as int]));
        }
        assert(run_end(s@, e as int) == e as int);
    }
    (e, val)
}

/// Whether the marker sits at position `i` of `s`.
fn marker_check(s: &str, i: usize) -> (r: bool)
    requires
        i + 8 <= s@.len(),
    ensures
        r == marker_at(s@, i as int),
{
    let len = s.unicode_len();
    assert(i + 8 <= len);
    let r = s.get_char(i) == 'v' && s.get_char(i + 1) == 'e' && s.get_char(i + 2) == 'r'
        && s.get_char(i + 3) == 's' && s.get_char(i + 4) == 'i' && s.get_char(i + 5) == 'o'
        && s.get_char(i + 6) == 'n' && s.get_char(i + 7) == ' ';
    proof {
        let sub = s@.subrange(i as int, i as int + 8);
        assert(sub.len() == 8);
        assert(forall|k: int| 0 <= k < 8 ==> sub[k] == s@[i + k]);
        if r {
            assert(sub =~= version_marker());
        } else {
            assert(sub != version_marker()) by {
                if sub == version_marker() {
                    assert(sub[0] == 'v' && sub[1] == 'e' && sub[2] == 'r' && sub[3] == 's'
                        && sub[4] == 'i' && sub[5] == 'o' && sub[6] == 'n' && sub[7] == ' ');
                }
            }
        }
    }
    r
}

/// Parses the version triple out of free-form probe output.
pub fn parse_version(s: &str) -> (r: Option<Version>)
    ensures
        r == parsed_version(s@),
{
    let len = s.unicode_len();
    let mut i: usize = 0;
    loop
        invariant
            i <= len,
            len == s@.len(),
            version_from(s@, 0) == version_from(s@, i as int),
        decreases len - i,
    {
        if len < 8 || i > len - 8 {
            assert(version_from(s@, i as int) is None);
            return None;
        }
        if marker_check(s, i) {
            let j = i + 8;
            let (e1, v1) = scan_run(s, j);
            let mut ok = e1 > j && e1 < len && s.get_char(e1) == '.';
            if ok {
                let (e2, v2) = scan_run(s, e1 + 1);
                ok = e2 > e1 + 1 && e2 < len && s.get_char(e2) == '.';
                if ok {
                    let (e3, v3) = scan_run(s, e2 + 1);
                    ok = e3 > e2 + 1;
                    if ok {
                        // the triple is here; this is the parse result
                        assert(triple_at(s@, j as int) matches Some(t) && t == (
                            run_val(s@, j as int, e1 as int),
                            run_val(s@, e1 as int + 1, e2 as int),
                            run_val(s@, e2 as int + 1, e3 as int),
                        ));
                        assert(version_from(s@, i as int) == triple_at(s@, j as int));
                        if v1 <= 255 && v2 <= 255 && v3 <= 255 {
                            return Some(
                                Version { major: v1 as u8, minor: v2 as u8, patch: v3 as u8 },
                            );
                        }
                        return None;
                    }
                }
            }
            assert(triple_at(s@, i as int + 8) is None);
            assert(version_from(s@, i as int) == version_from(s@, i as int + 1));
        } else {
            assert(version_from(s@, i as int) == version_from(s@, i as int + 1));
        }
        i = i + 1;
    }
}

} // verus!
