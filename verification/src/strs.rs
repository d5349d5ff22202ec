//! String helpers: ASCII case folding, lexicographic order on character
//! sequences, sorting and deduplication of path lists.
//!
//! The path resolver promises a stable, sorted, duplicate-free result; the
//! order used throughout is the code-point order defined here, and the
//! uniqueness lemma at the end is what makes "stable" provable: a strictly
//! sorted sequence is determined by its membership alone.

use vstd::prelude::*;
use vstd::relations::sorted_by;

verus! {

/// Case-folded code point: upper-case ASCII letters map to their lower-case
/// counterparts, every other character to its own code point.
pub open spec fn lower_code(c: char) -> u32 {
    if 65 <= c as u32 && c as u32 <= 90 {
        (c as u32 + 32) as u32
    } else {
        c as u32
    }
}

/// Whether two strings are equal under ASCII case folding.
pub open spec fn eq_fold_spec(a: Seq<char>, b: Seq<char>) -> bool {
    a.len() == b.len() && forall|i: int| 0 <= i < a.len() ==> lower_code(a[i]) == lower_code(b[i])
}

/// Compares two strings ignoring ASCII case.
pub fn eq_ignore_ascii_case(a: &str, b: &str) -> (r: bool)
    ensures
        r == eq_fold_spec(a@, b@),
{
    let alen = a.unicode_len();
    let blen = b.unicode_len();
    if alen != blen {
        return false;
    }
    let mut i: usize = 0;
    while i < alen
        invariant
            i <= alen,
            alen == a@.len(),
            alen == b@.len(),
            forall|j: int| 0 <= j < i ==> lower_code(a@[j]) == lower_code(b@[j]),
        decreases alen - i,
    {
        let ca = a.get_char(i);
        let cb = b.get_char(i);
        let fa = if 65 <= ca as u32 && ca as u32 <= 90 {
            ca as u32 + 32
        } else {
            ca as u32
        };
        let fb = if 65 <= cb as u32 && cb as u32 <= 90 {
            cb as u32 + 32
        } else {
            cb as u32
        };
        if fa != fb {
            return false;
        }
        i = i + 1;
    }
    true
}

/// Lexicographic order on character sequences by code point.
pub open spec fn lex_le(a: Seq<char>, b: Seq<char>) -> bool
    decreases a.len(),
{
    if a.len() == 0 {
        true
    } else if b.len() == 0 {
        false
    } else if a[0] == b[0] {
        lex_le(a.skip(1), b.skip(1))
    } else {
        a[0] < b[0]
    }
}

/// Strict variant of [`lex_le`].
pub open spec fn lex_lt(a: Seq<char>, b: Seq<char>) -> bool {
    lex_le(a, b) && a != b
}

/// The order as a relation value, for use with `sorted_by`.
pub open spec fn str_leq() -> spec_fn(Seq<char>, Seq<char>) -> bool {
    |a: Seq<char>, b: Seq<char>| lex_le(a, b)
}

/// The order is reflexive.
pub proof fn lemma_lex_refl(a: Seq<char>)
    ensures
        lex_le(a, a),
    decreases a.len(),
{
    if a.len() != 0 {
        lemma_lex_refl(a.skip(1));
    }
}

/// Any two strings are comparable.
pub proof fn lemma_lex_total(a: Seq<char>, b: Seq<char>)
    ensures
        lex_le(a, b) || lex_le(b, a),
    decreases a.len(),
{
    if a.len() != 0 && b.len() != 0 && a[0] == b[0] {
        lemma_lex_total(a.skip(1), b.skip(1));
    }
}

/// Two strings below each other are equal.
pub proof fn lemma_lex_antisym(a: Seq<char>, b: Seq<char>)
    requires
        lex_le(a, b),
        lex_le(b, a),
    ensures
        a == b,
    decreases a.len(),
{
    if a.len() == 0 {
        assert(b.len() == 0);
        assert(a =~= b);
    } else {
        assert(b.len() != 0);
        assert(a[0] == b[0]);
        lemma_lex_antisym(a.skip(1), b.skip(1));
        assert(a =~= b) by {
            assert(forall|i: int|
                1 <= i < a.len() ==> a[i] == a.skip(1)[i - 1] && b[i] == b.skip(1)[i - 1]);
        }
    }
}

/// The order is transitive.
pub proof fn lemma_lex_trans(a: Seq<char>, b: Seq<char>, c: Seq<char>)
    requires
        lex_le(a, b),
        lex_le(b, c),
    ensures
        lex_le(a, c),
    decreases a.len(),
{
    if a.len() != 0 && b.len() != 0 && c.len() != 0 {
        if a[0] == b[0] && b[0] == c[0] {
            lemma_lex_trans(a.skip(1), b.skip(1), c.skip(1));
        }
    }
}

/// Skipping a common prefix keeps the order.
proof fn lemma_lex_skip(a: Seq<char>, b: Seq<char>, i: int)
    requires
        0 <= i <= a.len(),
        i <= b.len(),
        forall|j: int| 0 <= j < i ==> a[j] == b[j],
    ensures
        lex_le(a, b) == lex_le(a.skip(i), b.skip(i)),
    decreases i,
{
    if i > 0 {
        assert(a.len() > 0 && b.len() > 0);
        assert(a[0] == b[0]);
        assert forall|j: int| 0 <= j < i - 1 implies a.skip(1)[j] == b.skip(1)[j] by {
            assert(a.skip(1)[j] == a[j + 1]);
            assert(b.skip(1)[j] == b[j + 1]);
        }
        lemma_lex_skip(a.skip(1), b.skip(1), i - 1);
        assert(lex_le(a, b) == lex_le(a.skip(1), b.skip(1)));
        assert(a.skip(1).skip(i - 1) =~= a.skip(i));
        assert(b.skip(1).skip(i - 1) =~= b.skip(i));
        assert(lex_le(a.skip(1), b.skip(1)) == lex_le(a.skip(i), b.skip(i)));
    } else {
        assert(a.skip(0) =~= a);
        assert(b.skip(0) =~= b);
    }
}

/// Decides [`lex_le`] on string slices.
pub fn str_le(a: &str, b: &str) -> (r: bool)
    ensures
        r == lex_le(a@, b@),
{
    let alen = a.unicode_len();
    let blen = b.unicode_len();
    let mut i: usize = 0;
    loop
        invariant
            i <= alen,
            i <= blen,
            alen == a@.len(),
            blen == b@.len(),
            forall|j: int| 0 <= j < i ==> a@[j] == b@[j],
        decreases alen - i,
    {
        proof {
            lemma_lex_skip(a@, b@, i as int);
        }
        if i >= alen {
            return true;
        }
        if i >= blen {
            return false;
        }
        let ca = a.get_char(i);
        let cb = b.get_char(i);
        if ca != cb {
            assert(a@.skip(i as int)[0] == a@[i as int]);
            assert(b@.skip(i as int)[0] == b@[i as int]);
            return ca < cb;
        }
        i = i + 1;
    }
}

/// The views of a sequence of strings.
pub open spec fn views(s: Seq<String>) -> Seq<Seq<char>> {
    s.map_values(|x: String| x@)
}

/// Sorted with strictly increasing entries: no duplicates anywhere.
pub open spec fn strictly_sorted(s: Seq<Seq<char>>) -> bool {
    &&& sorted_by(s, str_leq())
    &&& forall|i: int| 0 <= i < s.len() - 1 ==> #[trigger] s[i] != s[i + 1]
}

/// Sorts a list of strings by [`lex_le`]; the result holds exactly the
/// elements of the input (as a set).
pub fn sort_strings(v: Vec<String>) -> (r: Vec<String>)
    ensures
        sorted_by(views(r@), str_leq()),
        forall|x: Seq<char>|
            #![trigger views(r@).contains(x)]
            #![trigger views(v@).contains(x)]
            views(r@).contains(x) == views(v@).contains(x),
{
    let mut r: Vec<String> = Vec::new();
    let mut idx: usize = 0;
    proof {
        assert(views(r@) =~= Seq::<Seq<char>>::empty());
    }
    while idx < v.len()
        invariant
            idx <= v.len(),
            sorted_by(views(r@), str_leq()),
            forall|x: Seq<char>|
                views(r@).contains(x) == views(v@.take(idx as int)).contains(x),
        decreases v.len() - idx,
    {
        let ghost old_r = r@;
        let s = v[idx].clone();
        // find the insertion point: the first entry that is strictly above s
        let mut j: usize = 0;
        while j < r.len() && str_le(&r[j], s.as_str())
            invariant
                j <= r.len(),
                s@ == v@[idx as int]@,
                forall|k: int| 0 <= k < j ==> lex_le(views(r@)[k], s@),
            decreases r.len() - j,
        {
            j = j + 1;
        }
        proof {
            if j < r.len() {
                lemma_lex_total(views(r@)[j as int], s@);
                assert(lex_le(s@, views(r@)[j as int]));
            }
        }
        r.insert(j, s);
        proof {
            let vr = views(r@);
            let vo = views(old_r);
            assert(r@ == old_r.insert(j as int, v@[idx as int]));
            assert(vr.len() == vo.len() + 1);
            assert(forall|k: int| 0 <= k < j ==> vr[k] == vo[k]);
            assert(vr[j as int] == v@[idx as int]@);
            assert(forall|k: int| j < k < vr.len() ==> vr[k] == vo[k - 1]);
            // sortedness across the insertion point
            assert forall|m: int, n: int| 0 <= m < n < vr.len() implies str_leq()(
                vr[m],
                vr[n],
            ) by {
                let x = vr[m];
                let y = vr[n];
                if m < j && n == j {
                    assert(lex_le(x, y));
                } else if m == j && n > j {
                    if n - 1 < j {
                    } else {
                        // y == vo[n-1], and s is below every entry from j on
                        if j < vo.len() {
                            if n - 1 == j {
                                assert(lex_le(x, y));
                            } else {
                                assert(sorted_by(vo, str_leq()));
                                assert(str_leq()(vo[j as int], vo[n - 1]));
                                lemma_lex_trans(x, vo[j as int], vo[n - 1]);
                            }
                        }
                    }
                } else if m < j && n > j {
                    if j < vo.len() {
                        assert(str_leq()(vo[m], vo[n - 1]));
                    } else {
                        assert(false);
                    }
                } else if m > j && n > j {
                    assert(str_leq()(vo[m - 1], vo[n - 1]));
                } else {
                    assert(m < j && n < j);
                    assert(str_leq()(vo[m], vo[n]));
                }
            }
            // membership
            assert forall|x: Seq<char>| vr.contains(x) == views(v@.take(idx as int + 1)).contains(
                x,
            ) by {
                let tk = views(v@.take(idx as int + 1));
                let tk0 = views(v@.take(idx as int));
                assert(v@.take(idx as int + 1) == v@.take(idx as int).push(v@[idx as int]));
                assert(tk =~= tk0.push(v@[idx as int]@));
                if vr.contains(x) {
                    let w = choose|w: int| 0 <= w < vr.len() && vr[w] == x;
                    if w == j {
                        assert(tk[tk.len() - 1] == x);
                        assert(tk.contains(x));
                    } else if w < j {
                        assert(vo[w] == x);
                        assert(vo.contains(x));
                        assert(tk0.contains(x));
                        let u = choose|u: int| 0 <= u < tk0.len() && tk0[u] == x;
                        assert(tk[u] == x);
                        assert(tk.contains(x));
                    } else {
                        assert(vo[w - 1] == x);
                        assert(vo.contains(x));
                        assert(tk0.contains(x));
                        let u = choose|u: int| 0 <= u < tk0.len() && tk0[u] == x;
                        assert(tk[u] == x);
                        assert(tk.contains(x));
                    }
                }
                if tk.contains(x) {
                    let w = choose|w: int| 0 <= w < tk.len() && tk[w] == x;
                    if w == tk.len() - 1 {
                        assert(vr[j as int] == x);
                        assert(vr.contains(x));
                    } else {
                        assert(tk0[w] == x);
                        assert(tk0.contains(x));
                        assert(vo.contains(x));
                        let u = choose|u: int| 0 <= u < vo.len() && vo[u] == x;
                        if u < j {
                            assert(vr[u] == x);
                        } else {
                            assert(vr[u + 1] == x);
                        }
                        assert(vr.contains(x));
                    }
                }
            }
        }
        idx = idx + 1;
    }
    proof {
        assert(v@.take(v@.len() as int) =~= v@);
    }
    r
}

/// Removes duplicates from a sorted list; the result is strictly sorted and
/// holds exactly the elements of the input.
pub fn dedup_sorted(v: Vec<String>) -> (r: Vec<String>)
    requires
        sorted_by(views(v@), str_leq()),
    ensures
        strictly_sorted(views(r@)),
        forall|x: Seq<char>|
            #![trigger views(r@).contains(x)]
            #![trigger views(v@).contains(x)]
            views(r@).contains(x) == views(v@).contains(x),
{
    let mut r: Vec<String> = Vec::new();
    let mut i: usize = 0;
    proof {
        assert(views(r@) =~= Seq::<Seq<char>>::empty());
    }
    while i < v.len()
        invariant
            i <= v.len(),
            sorted_by(views(v@), str_leq()),
            strictly_sorted(views(r@)),
            forall|x: Seq<char>| views(r@).contains(x) == views(v@.take(i as int)).contains(x),
            r.len() > 0 ==> i > 0 && views(r@)[views(r@).len() - 1] == views(v@)[i - 1],
            i > 0 ==> r.len() > 0,
        decreases v.len() - i,
    {
        let ghost old_r = r@;
        let keep = if r.len() == 0 {
            true
        } else {
            let last = r.len() - 1;
            !(r[last] == v[i])
        };
        if keep {
            r.push(v[i].clone());
            proof {
                let vr = views(r@);
                let vo = views(old_r);
                assert(vr =~= vo.push(v@[i as int]@));
                // strict sortedness: the new last is above the old last
                assert forall|m: int, n: int| 0 <= m < n < vr.len() implies str_leq()(
                    vr[m],
                    vr[n],
                ) by {
                    if n < vr.len() - 1 {
                        assert(str_leq()(vo[m], vo[n]));
                    } else if m < vr.len() - 1 {
                        // every old entry is at or below the old last entry,
                        // which in turn is at or below the new one
                        if old_r.len() > 0 {
                            let lastv = vo[vo.len() - 1];
                            if m == vo.len() - 1 {
                                lemma_lex_refl(vo[m]);
                            }
                            assert(str_leq()(vo[m], lastv));
                            assert(lastv == views(v@)[i - 1]);
                            assert(str_leq()(views(v@)[i - 1], views(v@)[i as int]));
                            lemma_lex_trans(vo[m], lastv, vr[n]);
                        }
                    }
                }
                assert forall|x: Seq<char>|
                    vr.contains(x) == views(v@.take(i as int + 1)).contains(x) by {
                    let tk = views(v@.take(i as int + 1));
                    let tk0 = views(v@.take(i as int));
                    assert(tk =~= tk0.push(v@[i as int]@));
                    if vr.contains(x) {
                        let w = choose|w: int| 0 <= w < vr.len() && vr[w] == x;
                        if w == vr.len() - 1 {
                            assert(tk[tk.len() - 1] == x);
                        } else {
                            assert(vo.contains(x));
                            assert(tk0.contains(x));
                            let u = choose|u: int| 0 <= u < tk0.len() && tk0[u] == x;
                            assert(tk[u] == x);
                        }
                        assert(tk.contains(x));
                    }
                    if tk.contains(x) {
                        let w = choose|w: int| 0 <= w < tk.len() && tk[w] == x;
                        if w == tk.len() - 1 {
                            assert(vr[vr.len() - 1] == x);
                        } else {
                            assert(tk0.contains(x));
                            assert(vo.contains(x));
                            let u = choose|u: int| 0 <= u < vo.len() && vo[u] == x;
                            assert(vr[u] == x);
                        }
                        assert(vr.contains(x));
                    }
                }
            }
        } else {
            proof {
                let tk = views(v@.take(i as int + 1));
                let tk0 = views(v@.take(i as int));
                assert(tk =~= tk0.push(v@[i as int]@));
                assert(views(r@)[views(r@).len() - 1] == v@[i as int]@);
                assert(views(r@).contains(v@[i as int]@));
                assert forall|x: Seq<char>|
                    views(r@).contains(x) == tk.contains(x) by {
                    if tk.contains(x) {
                        let w = choose|w: int| 0 <= w < tk.len() && tk[w] == x;
                        if w == tk.len() - 1 {
                            assert(views(r@).contains(x));
                        } else {
                            assert(tk0.contains(x));
                        }
                    }
                    if views(r@).contains(x) {
                        assert(tk0.contains(x));
                        let u = choose|u: int| 0 <= u < tk0.len() && tk0[u] == x;
                        assert(tk[u] == x);
                        assert(tk.contains(x));
                    }
                }
            }
        }
        i = i + 1;
    }
    proof {
        assert(v@.take(v@.len() as int) =~= v@);
    }
    r
}

/// In a strictly sorted sequence the head is strictly below every later
/// entry.
proof fn lemma_strict_head(s: Seq<Seq<char>>, j: int)
    requires
        strictly_sorted(s),
        1 <= j < s.len(),
    ensures
        lex_lt(s[0], s[j]),
    decreases j,
{
    if j == 1 {
        assert(str_leq()(s[0], s[1]));
    } else {
        lemma_strict_head(s, j - 1);
        assert(str_leq()(s[j - 1], s[j]));
        lemma_lex_trans(s[0], s[j - 1], s[j]);
        if s[0] == s[j] {
            lemma_lex_antisym(s[j - 1], s[j]);
        }
    }
}

/// The tail of a strictly sorted sequence is strictly sorted.
proof fn lemma_strict_tail(s: Seq<Seq<char>>)
    requires
        strictly_sorted(s),
        s.len() > 0,
    ensures
        strictly_sorted(s.skip(1)),
{
    let t = s.skip(1);
    assert(forall|i: int| 0 <= i < t.len() ==> t[i] == s[i + 1]);
    assert forall|m: int, n: int| 0 <= m < n < t.len() implies str_leq()(t[m], t[n]) by {
        assert(str_leq()(s[m + 1], s[n + 1]));
    }
}

/// A strictly sorted sequence is determined by its membership: this is the
/// formal content of "the matched-file set is stable". Two resolver runs
/// that select the same set of paths produce identical output, whatever
/// order the filesystem walk delivered the entries in.
pub proof fn lemma_strictly_sorted_unique(a: Seq<Seq<char>>, b: Seq<Seq<char>>)
    requires
        strictly_sorted(a),
        strictly_sorted(b),
        forall|x: Seq<char>| #![trigger a.contains(x)] #![trigger b.contains(x)]
            a.contains(x) == b.contains(x),
    ensures
        a == b,
    decreases a.len(),
{
    if a.len() == 0 {
        if b.len() > 0 {
            assert(b.contains(b[0]));
            assert(a.contains(b[0]));
        }
        assert(a =~= b);
    } else {
        assert(a.contains(a[0]));
        assert(b.contains(a[0]));
        if b.len() == 0 {
            assert(false);
        }
        // heads are equal by antisymmetry
        let ia = choose|i: int| 0 <= i < b.len() && b[i] == a[0];
        if ia > 0 {
            lemma_strict_head(b, ia);
        } else {
            lemma_lex_refl(b[0]);
        }
        assert(lex_le(b[0], a[0]));
        assert(b.contains(b[0]));
        assert(a.contains(b[0]));
        let ib = choose|i: int| 0 <= i < a.len() && a[i] == b[0];
        if ib > 0 {
            lemma_strict_head(a, ib);
        } else {
            lemma_lex_refl(a[0]);
        }
        assert(lex_le(a[0], b[0]));
        lemma_lex_antisym(a[0], b[0]);
        // tails have the same membership
        let ta = a.skip(1);
        let tb = b.skip(1);
        lemma_strict_tail(a);
        lemma_strict_tail(b);
        assert forall|x: Seq<char>| ta.contains(x) == tb.contains(x) by {
            if ta.contains(x) {
                let i = choose|i: int| 0 <= i < ta.len() && ta[i] == x;
                assert(a[i + 1] == x);
                lemma_strict_head(a, i + 1);
                assert(x != a[0]);
                assert(a.contains(x));
                assert(b.contains(x));
                let j = choose|j: int| 0 <= j < b.len() && b[j] == x;
                assert(j != 0);
                assert(tb[j - 1] == x);
                assert(tb.contains(x));
            }
            if tb.contains(x) {
                let i = choose|i: int| 0 <= i < tb.len() && tb[i] == x;
                assert(b[i + 1] == x);
                lemma_strict_head(b, i + 1);
                assert(x != b[0]);
                assert(b.contains(x));
                assert(a.contains(x));
                let j = choose|j: int| 0 <= j < a.len() && a[j] == x;
                assert(j != 0);
                assert(ta[j - 1] == x);
                assert(ta.contains(x));
            }
        }
        lemma_strictly_sorted_unique(ta, tb);
        assert(a =~= b) by {
            assert(forall|i: int| 1 <= i < a.len() ==> a[i] == ta[i - 1] && b[i] == tb[i - 1]);
        }
    }
}

} // verus!
