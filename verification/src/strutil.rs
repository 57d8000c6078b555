//! Small bridges between `String`/`&str` and the character sequences the
//! rest of the crate reasons about.

use vstd::prelude::*;

verus! {

/// Collects the characters of a string slice into a vector, so that callers
/// can index characters directly.
pub fn chars_vec(s: &str) -> (r: Vec<char>)
    ensures
        r@ == s@,
{
    let n = s.unicode_len();
    let mut v: Vec<char> = Vec::new();
    let mut i: usize = 0;
    while i < n
        invariant
            n == s@.len(),
            i <= n,
            v@ == s@.subrange(0, i as int),
        decreases n - i,
    {
        v.push(s.get_char(i));
        assert(v@ =~= s@.subrange(0, i + 1 as int));
        i = i + 1;
    }
    assert(v@ =~= s@);
    v
}

/// `p` is a prefix of `s`.
pub open spec fn starts_with(s: Seq<char>, p: Seq<char>) -> bool {
    p.len() <= s.len() && s.subrange(0, p.len() as int) == p
}

/// Character-for-character equality of two vectors.
pub fn chars_eq(a: &Vec<char>, b: &Vec<char>) -> (r: bool)
    ensures
        r == (a@ == b@),
{
    if a.len() != b.len() {
        assert(a@ != b@);
        return false;
    }
    let n = a.len();
    let mut i: usize = 0;
    while i < n
        invariant
            n == a@.len(),
            n == b@.len(),
            i <= n,
            forall|j: int| 0 <= j < i ==> a@[j] == b@[j],
        decreases n - i,
    {
        if a[i] != b[i] {
            assert(a@ != b@);
            return false;
        }
        i = i + 1;
    }
    assert(a@ =~= b@);
    true
}

/// Whether `a` starts with the prefix `p`.
pub fn chars_starts_with(a: &Vec<char>, p: &Vec<char>) -> (r: bool)
    ensures
        r == starts_with(a@, p@),
{
    if p.len() > a.len() {
        return false;
    }
    let n = p.len();
    let mut i: usize = 0;
    while i < n
        invariant
            n == p@.len(),
            n <= a@.len(),
            i <= n,
            forall|j: int| 0 <= j < i ==> a@[j] == p@[j],
        decreases n - i,
    {
        if a[i] != p[i] {
            assert(a@.subrange(0, n as int)[i as int] != p@[i as int]);
            return false;
        }
        i = i + 1;
    }
    assert(a@.subrange(0, n as int) =~= p@);
    true
}

/// Appends every character of `xs`.
pub fn push_all(out: &mut Vec<char>, xs: &Vec<char>)
    ensures
        final(out)@ == old(out)@ + xs@,
{
    let n = xs.len();
    let mut i: usize = 0;
    proof {
        assert(old(out)@ + xs@.subrange(0, 0) =~= old(out)@);
    }
    while i < n
        invariant
            n == xs@.len(),
            i <= n,
            out@ == old(out)@ + xs@.subrange(0, i as int),
        decreases n - i,
    {
        out.push(xs[i]);
        assert(out@ =~= old(out)@ + xs@.subrange(0, i + 1));
        i = i + 1;
    }
    assert(out@ =~= old(out)@ + xs@);
}

/// Leftmost, non-overlapping replacement of every occurrence of `pat` by
/// `sub`, the way `str::replace` rewrites a string.
pub open spec fn spec_replace(s: Seq<char>, pat: Seq<char>, sub: Seq<char>) -> Seq<char>
    decreases s.len(),
    when pat.len() > 0
{
    if s.len() < pat.len() {
        s
    } else if s.take(pat.len() as int) == pat {
        sub + spec_replace(s.skip(pat.len() as int), pat, sub)
    } else {
        seq![s[0]] + spec_replace(s.drop_first(), pat, sub)
    }
}

/// Whether `pat` occurs in `a` starting at position `at`.
pub fn matches_at(a: &Vec<char>, at: usize, pat: &Vec<char>) -> (r: bool)
    requires
        at <= a@.len(),
    ensures
        r == (at + pat@.len() <= a@.len() && a@.subrange(at as int, at + pat@.len()) == pat@),
{
    let m = pat.len();
    let alen = a.len();
    if alen - at < m {
        return false;
    }
    let mut i: usize = 0;
    while i < m
        invariant
            m == pat@.len(),
            alen == a@.len(),
            at + m <= alen,
            i <= m,
            forall|j: int| 0 <= j < i ==> a@[at + j] == pat@[j],
        decreases m - i,
    {
        if a[at + i] != pat[i] {
            assert(a@.subrange(at as int, at + pat@.len())[i as int] != pat@[i as int]);
            return false;
        }
        i = i + 1;
    }
    assert(a@.subrange(at as int, at + pat@.len()) =~= pat@);
    true
}

/// Replaces every occurrence of `pat` by `sub`, leftmost first, never
/// rescanning replaced text.
pub fn chars_replace(v: &Vec<char>, pat: &Vec<char>, sub: &Vec<char>) -> (r: Vec<char>)
    requires
        pat@.len() > 0,
    ensures
        r@ == spec_replace(v@, pat@, sub@),
{
    let n = v.len();
    let mut out: Vec<char> = Vec::new();
    let mut i: usize = 0;
    proof {
        assert(v@.skip(0) =~= v@);
        assert(out@ + spec_replace(v@.skip(0), pat@, sub@) =~= spec_replace(v@, pat@, sub@));
    }
    while i < n
        invariant
            n == v@.len(),
            pat@.len() > 0,
            i <= n,
            spec_replace(v@, pat@, sub@) == out@ + spec_replace(v@.skip(i as int), pat@, sub@),
        decreases n - i,
    {
        let ghost rem = v@.skip(i as int);
        if matches_at(v, i, pat) {
            push_all(&mut out, sub);
            proof {
                assert(rem.take(pat@.len() as int) =~= v@.subrange(i as int, i + pat@.len()));
                assert(rem.skip(pat@.len() as int) =~= v@.skip(i + pat@.len()));
                assert(spec_replace(rem, pat@, sub@) == sub@ + spec_replace(
                    v@.skip(i + pat@.len()),
                    pat@,
                    sub@,
                ));
                assert(out@ + spec_replace(v@.skip(i + pat@.len()), pat@, sub@)
                    =~= spec_replace(v@, pat@, sub@));
            }
            i = i + pat.len();
        } else {
            out.push(v[i]);
            proof {
                if rem.len() >= pat@.len() {
                    assert(rem.take(pat@.len() as int) =~= v@.subrange(i as int, i + pat@.len()));
                }
                assert(rem[0] == v@[i as int]);
                assert(rem.drop_first() =~= v@.skip(i + 1));
                assert(spec_replace(rem, pat@, sub@) == seq![v@[i as int]] + spec_replace(
                    v@.skip(i + 1),
                    pat@,
                    sub@,
                ));
                assert(out@ + spec_replace(v@.skip(i + 1), pat@, sub@) =~= spec_replace(
                    v@,
                    pat@,
                    sub@,
                ));
            }
            i = i + 1;
        }
    }
    proof {
        assert(v@.skip(n as int) =~= Seq::<char>::empty());
        assert(out@ + spec_replace(v@.skip(n as int), pat@, sub@) =~= out@);
    }
    out
}

/// Relies on `core::iter::Iterator::collect`: collecting characters yields
/// the string holding exactly those characters in order.
#[verifier::external_body]
pub(crate) fn chars_to_string(v: &Vec<char>) -> (r: String)
    ensures
        r@ == v@,
{
    v.iter().collect()
}


/// The first position where `pat` occurs, `Some(0)` for the empty pattern.
pub open spec fn find_sub(s: Seq<char>, pat: Seq<char>) -> Option<int>
    decreases s.len(),
{
    if s.len() < pat.len() {
        None
    } else if s.take(pat.len() as int) == pat {
        Some(0)
    } else if s.len() == 0 {
        None
    } else {
        match find_sub(s.drop_first(), pat) {
            Some(i) => Some(i + 1),
            None => None,
        }
    }
}

/// Characterization of `find_sub`: the first occurrence.
pub proof fn lemma_find_sub(s: Seq<char>, pat: Seq<char>)
    ensures
        match find_sub(s, pat) {
            Some(i) => 0 <= i && i + pat.len() <= s.len() && s.subrange(i, i + pat.len()) == pat
                && forall|j: int|
                0 <= j < i ==> #[trigger] s.subrange(j, j + pat.len()) != pat,
            None => forall|j: int|
                0 <= j && j + pat.len() <= s.len() ==> #[trigger] s.subrange(j, j + pat.len())
                    != pat,
        },
    decreases s.len(),
{
    if s.len() < pat.len() {
    } else if s.take(pat.len() as int) == pat {
        assert(s.subrange(0, pat.len() as int) == s.take(pat.len() as int));
    } else if s.len() == 0 {
    } else {
        let rest = s.drop_first();
        lemma_find_sub(rest, pat);
        assert(s.take(pat.len() as int) =~= s.subrange(0, pat.len() as int));
        match find_sub(rest, pat) {
            Some(i2) => {
                assert(rest.subrange(i2, i2 + pat.len()) =~= s.subrange(
                    i2 + 1,
                    i2 + 1 + pat.len(),
                ));
                assert forall|j: int|
                    0 <= j < i2 + 1 implies #[trigger] s.subrange(j, j + pat.len()) != pat by {
                    if j > 0 {
                        assert(rest.subrange(j - 1, j - 1 + pat.len()) =~= s.subrange(
                            j,
                            j + pat.len(),
                        ));
                    }
                }
            },
            None => {
                assert forall|j: int|
                    0 <= j && j + pat.len() <= s.len() implies #[trigger] s.subrange(
                    j,
                    j + pat.len(),
                ) != pat by {
                    if j > 0 {
                        assert(rest.subrange(j - 1, j - 1 + pat.len()) =~= s.subrange(
                            j,
                            j + pat.len(),
                        ));
                    }
                }
            },
        }
    }
}

/// The first position where `pat` occurs in the vector.
pub fn find_sub_exec(v: &Vec<char>, pat: &Vec<char>) -> (r: Option<usize>)
    ensures
        match r {
            Some(p) => find_sub(v@, pat@) == Some(p as int),
            None => find_sub(v@, pat@) is None,
        },
{
    proof {
        lemma_find_sub(v@, pat@);
    }
    let n = v.len();
    let m = pat.len();
    if m == 0 {
        proof {
            assert(v@.take(0) =~= pat@);
        }
        return Some(0);
    }
    if m > n {
        proof {
            if find_sub(v@, pat@) is Some {
                let i = find_sub(v@, pat@)->0;
                assert(i + pat@.len() <= v@.len());
            }
        }
        return None;
    }
    let mut i: usize = 0;
    while i <= n - m
        invariant
            n == v@.len(),
            m == pat@.len(),
            m <= n,
            m > 0,
            i <= n - m + 1,
            forall|j: int| 0 <= j < i ==> #[trigger] v@.subrange(j, j + pat@.len()) != pat@,
        decreases n - i,
    {
        if matches_at(v, i, pat) {
            proof {
                lemma_find_sub(v@, pat@);
                match find_sub(v@, pat@) {
                    Some(q) => {
                        if q < i {
                            assert(v@.subrange(q, q + pat@.len()) != pat@);
                        } else if q > i {
                            assert(v@.subrange(i as int, i + pat@.len()) != pat@);
                        }
                        assert(q == i);
                    },
                    None => {
                        assert(v@.subrange(i as int, i + pat@.len()) != pat@);
                    },
                }
            }
            return Some(i);
        }
        i = i + 1;
    }
    proof {
        lemma_find_sub(v@, pat@);
        match find_sub(v@, pat@) {
            Some(q) => {
                assert(v@.subrange(q, q + pat@.len()) != pat@);
            },
            None => {},
        }
    }
    None
}

} // verus!
