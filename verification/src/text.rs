//! Text measures and slugs: the transformations applied to titles and
//! bodies when pages are generated.

use vstd::prelude::*;
use crate::strutil::{chars_vec, chars_to_string};
use crate::xml::find_char;

verus! {

/// The Unicode lowercase form of a character sequence, as the standard
/// library computes it. It depends on the characters alone.
pub uninterp spec fn lower_of(s: Seq<char>) -> Seq<char>;

/// Relies on `str::to_lowercase`: the Unicode lowercase of the string,
/// a function of its characters alone.
#[verifier::external_body]
fn to_lowercase(s: &str) -> (r: String)
    ensures
        r@ == lower_of(s@),
{
    s.to_lowercase()
}

/// Whether a character is Unicode-alphanumeric, as the standard library
/// classifies it.
pub uninterp spec fn is_alnum(c: char) -> bool;

/// Relies on `char::is_alphanumeric`: the Unicode alphanumeric class of
/// the character.
#[verifier::external_body]
pub(crate) fn char_is_alphanumeric(c: char) -> (b: bool)
    ensures
        b == is_alnum(c),
{
    c.is_alphanumeric()
}

/// Whether a character is Unicode whitespace, as the standard library
/// classifies it.
pub uninterp spec fn is_unicode_ws(c: char) -> bool;

/// Relies on `char::is_whitespace`: the Unicode whitespace class of the
/// character.
#[verifier::external_body]
pub(crate) fn char_is_whitespace_pub(c: char) -> (b: bool)
    ensures
        b == is_unicode_ws(c),
{
    c.is_whitespace()
}

/// Every character kept if alphanumeric, turned into a dash otherwise.
pub open spec fn dashify(t: Seq<char>) -> Seq<char> {
    t.map_values(
        |c: char|
            if is_alnum(c) {
                c
            } else {
                '-'
            },
    )
}

/// The dash-separated segments of a character sequence.
pub open spec fn split_dash(t: Seq<char>) -> Seq<Seq<char>>
    decreases t.len(),
{
    match find_char(t, '-') {
        None => seq![t],
        Some(p) => if 0 <= p < t.len() {
            seq![t.take(p)] + split_dash(t.skip(p + 1))
        } else {
            seq![t]
        },
    }
}

/// The segments joined back with single dashes.
pub open spec fn join_dash(parts: Seq<Seq<char>>) -> Seq<char>
    decreases parts.len(),
{
    if parts.len() == 0 {
        Seq::empty()
    } else if parts.len() == 1 {
        parts[0]
    } else {
        join_dash(parts.drop_last()) + seq!['-'] + parts.last()
    }
}

/// The segments that survive: the non-empty ones.
pub open spec fn keep_nonempty(parts: Seq<Seq<char>>) -> Seq<Seq<char>> {
    parts.filter(|p: Seq<char>| p.len() > 0)
}

/// The slug of a text: its Unicode lowercase with every non-alphanumeric
/// character dashed, empty segments dropped, and the rest dash-joined.
pub open spec fn slug_of(s: Seq<char>) -> Seq<char> {
    join_dash(keep_nonempty(split_dash(dashify(lower_of(s)))))
}

/// Builds the URL slug of a title: lowercase, alphanumeric runs kept,
/// everything between collapsed to single dashes.
pub fn slugify(text: &str) -> (r: String)
    ensures
        r@ == slug_of(text@),
{
    broadcast use vstd::seq_lib::group_filter_ensures;

    let lowered = to_lowercase(text);
    let lv = chars_vec(lowered.as_str());
    // dashify
    let n = lv.len();
    let mut mapped: Vec<char> = Vec::new();
    let mut i: usize = 0;
    while i < n
        invariant
            n == lv@.len(),
            i <= n,
            mapped@ == dashify(lv@.subrange(0, i as int)),
        decreases n - i,
    {
        if char_is_alphanumeric(lv[i]) {
            mapped.push(lv[i]);
        } else {
            mapped.push('-');
        }
        proof {
            assert(mapped@ =~= dashify(lv@.subrange(0, i + 1)));
        }
        i = i + 1;
    }
    proof {
        assert(lv@.subrange(0, n as int) =~= lv@);
    }
    // split on dashes
    let mut parts: Vec<Vec<char>> = Vec::new();
    let mut rest: Vec<char> = mapped;
    let ghost whole = dashify(lv@);
    proof {
        assert(parts@.map_values(|p: Vec<char>| p@) + split_dash(rest@) =~= split_dash(whole));
    }
    loop
        invariant_except_break
            split_dash(whole) == parts@.map_values(|p: Vec<char>| p@) + split_dash(rest@),
        ensures
            split_dash(whole) == parts@.map_values(|p: Vec<char>| p@),
        decreases rest@.len() + 1,
    {
        let ghost rv = rest@;
        proof {
            crate::xml::lemma_find_char_pub(rv, '-');
        }
        match crate::xml::find_char_exec(&rest, '-') {
            Some(p) => {
                let seg = crate::dates::head_chars(&rest, p);
                let new_rest = crate::dates::tail_chars(&rest, p + 1);
                parts.push(seg);
                proof {
                    assert(split_dash(rv) == seq![rv.take(p as int)] + split_dash(
                        rv.skip(p + 1),
                    ));
                    assert(parts@.map_values(|q: Vec<char>| q@) =~= parts@.map_values(
                        |q: Vec<char>| q@,
                    ).drop_last().push(rv.take(p as int)));
                    assert(parts@.map_values(|q: Vec<char>| q@) + split_dash(new_rest@)
                        =~= split_dash(whole));
                }
                rest = new_rest;
            },
            None => {
                parts.push(rest);
                proof {
                    assert(split_dash(rv) == seq![rv]);
                    assert(parts@.map_values(|q: Vec<char>| q@) =~= split_dash(whole));
                }
                break ;
            },
        }
    }
    // drop empty segments
    let pn = parts.len();
    let mut kept: Vec<Vec<char>> = Vec::new();
    let mut k: usize = 0;
    let ghost allparts = parts@.map_values(|p: Vec<char>| p@);
    proof {
        reveal(Seq::filter);
        assert(allparts.subrange(0, 0) =~= Seq::<Seq<char>>::empty());
        assert(kept@.map_values(|p: Vec<char>| p@) =~= keep_nonempty(allparts.subrange(0, 0)));
    }
    while k < pn
        invariant
            pn == parts@.len(),
            allparts == parts@.map_values(|p: Vec<char>| p@),
            k <= pn,
            kept@.map_values(|p: Vec<char>| p@) == keep_nonempty(allparts.subrange(0, k as int)),
        decreases pn - k,
    {
        let ghost prefix = allparts.subrange(0, k as int);
        let ghost next = allparts.subrange(0, k + 1);
        proof {
            reveal(Seq::filter);
            assert(next.drop_last() =~= prefix);
            assert(next.last() == allparts[k as int]);
        }
        if parts[k].len() > 0 {
            let ghost before = kept@;
            let item = crate::dates::tail_chars(&parts[k], 0);
            proof {
                assert(item@ =~= parts@[k as int]@);
            }
            kept.push(item);
            proof {
                reveal(Seq::filter);
                assert(allparts[k as int].len() > 0);
                assert(kept@.map_values(|p: Vec<char>| p@) =~= before.map_values(
                    |p: Vec<char>| p@,
                ).push(allparts[k as int]));
                assert(kept@.map_values(|p: Vec<char>| p@) =~= keep_nonempty(next));
            }
        } else {
            proof {
                reveal(Seq::filter);
                assert(!(allparts[k as int].len() > 0));
                assert(kept@.map_values(|p: Vec<char>| p@) =~= keep_nonempty(next));
            }
        }
        k = k + 1;
    }
    proof {
        assert(allparts.subrange(0, pn as int) =~= allparts);
    }
    // join with dashes
    let ghost keptv = keep_nonempty(allparts);
    let jn = kept.len();
    let mut out: Vec<char> = Vec::new();
    let mut j: usize = 0;
    proof {
        assert(kept@.map_values(|p: Vec<char>| p@) == keptv);
        assert(out@ =~= join_dash(keptv.subrange(0, 0)));
    }
    while j < jn
        invariant
            jn == kept@.len(),
            keptv == kept@.map_values(|p: Vec<char>| p@),
            j <= jn,
            out@ == join_dash(keptv.subrange(0, j as int)),
        decreases jn - j,
    {
        if j > 0 {
            out.push('-');
        }
        crate::strutil::push_all(&mut out, &kept[j]);
        proof {
            let next = keptv.subrange(0, j + 1);
            assert(next.drop_last() =~= keptv.subrange(0, j as int));
            assert(next.last() == keptv[j as int]);
            assert(keptv[j as int] == kept@[j as int]@);
            if j == 0 {
                assert(next.len() == 1);
                assert(out@ =~= next[0]);
                assert(out@ =~= join_dash(next));
            } else {
                assert(out@ =~= join_dash(next.drop_last()) + seq!['-'] + next.last());
            }
        }
        j = j + 1;
    }
    proof {
        assert(keptv.subrange(0, jn as int) =~= keptv);
    }
    chars_to_string(&out)
}

/// The number of maximal non-whitespace runs, carrying whether a run is
/// open.
pub open spec fn wc_from(s: Seq<char>, in_word: bool) -> int
    decreases s.len(),
{
    if s.len() == 0 {
        0
    } else if is_unicode_ws(s[0]) {
        wc_from(s.drop_first(), false)
    } else {
        (if in_word {
            0int
        } else {
            1int
        }) + wc_from(s.drop_first(), true)
    }
}

/// The number of whitespace-separated words.
pub open spec fn word_count_of(s: Seq<char>) -> int {
    wc_from(s, false)
}

/// Counts whitespace-separated words.
pub fn word_count(text: &str) -> (r: usize)
    ensures
        r == word_count_of(text@),
{
    let v = chars_vec(text);
    let n = v.len();
    let mut count: usize = 0;
    let mut in_word = false;
    let mut i: usize = 0;
    proof {
        assert(v@.skip(0) =~= v@);
    }
    while i < n
        invariant
            n == v@.len(),
            i <= n,
            count <= i,
            word_count_of(v@) == count + wc_from(v@.skip(i as int), in_word),
        decreases n - i,
    {
        let ghost rem = v@.skip(i as int);
        proof {
            assert(rem[0] == v@[i as int]);
            assert(rem.drop_first() =~= v@.skip(i + 1));
        }
        if char_is_whitespace_pub(v[i]) {
            in_word = false;
        } else {
            if !in_word {
                count = count + 1;
            }
            in_word = true;
        }
        i = i + 1;
    }
    proof {
        assert(v@.skip(n as int) =~= Seq::<char>::empty());
    }
    count
}

/// The reading time for a word count: one minute per two hundred words,
/// rounded down, but never zero for a non-empty text.
pub open spec fn reading_time_of(words: int) -> int {
    if words / 200 == 0 && words > 0 {
        1
    } else {
        words / 200
    }
}

/// Estimates reading time in minutes from a word count.
pub fn reading_time(word_count: usize) -> (r: usize)
    ensures
        r == reading_time_of(word_count as int),
{
    let minutes = word_count / 200;
    if minutes == 0 && word_count > 0 {
        1
    } else {
        minutes
    }
}

} // verus!
