//! Front-matter framing: locating the closing delimiter line of a
//! document's metadata block.

use vstd::prelude::*;
use crate::strutil::{chars_vec, chars_eq};
use crate::excerpt::ws_suffix_len;
use crate::text::char_is_whitespace_pub;
use crate::xml::{find_char, find_char_exec, lemma_find_char_pub};

verus! {

/// The line with its trailing Unicode whitespace removed.
pub open spec fn trim_end_of(s: Seq<char>) -> Seq<char> {
    s.take(s.len() - ws_suffix_len(s))
}

/// The trailing whitespace fits in the line.
proof fn lemma_ws_suffix(s: Seq<char>)
    ensures
        ws_suffix_len(s) <= s.len(),
    decreases s.len(),
{
    if s.len() > 0 && crate::text::is_unicode_ws(s.last()) {
        lemma_ws_suffix(s.drop_last());
    }
}

/// The position of the first line that reads as the delimiter once its
/// trailing whitespace is dropped; the final, newline-less line counts
/// too.
pub open spec fn spec_closing_delimiter(s: Seq<char>, delim: Seq<char>) -> Option<int>
    decreases s.len(),
{
    match find_char(s, '\n') {
        Some(nl) => if 0 <= nl < s.len() {
            if trim_end_of(s.take(nl)) == delim {
                Some(0)
            } else {
                match spec_closing_delimiter(s.skip(nl + 1), delim) {
                    Some(i) => Some(nl + 1 + i),
                    None => None,
                }
            }
        } else {
            if trim_end_of(s) == delim {
                Some(0)
            } else {
                None
            }
        },
        None => if trim_end_of(s) == delim {
            Some(0)
        } else {
            None
        },
    }
}

/// Trims trailing Unicode whitespace from a vector.
fn trim_end_chars(v: &Vec<char>) -> (r: Vec<char>)
    ensures
        r@ == trim_end_of(v@),
{
    proof {
        lemma_ws_suffix(v@);
        assert(v@.take(v@.len() as int) =~= v@);
    }
    let n = v.len();
    let mut e = n;
    while e > 0 && char_is_whitespace_pub(v[e - 1])
        invariant
            n == v@.len(),
            e <= n,
            ws_suffix_len(v@) == (n - e) + ws_suffix_len(v@.take(e as int)),
        decreases e,
    {
        proof {
            let cur = v@.take(e as int);
            assert(cur.last() == v@[e - 1]);
            assert(cur.drop_last() =~= v@.take(e - 1));
        }
        e = e - 1;
    }
    proof {
        if e > 0 {
            let cur = v@.take(e as int);
            assert(cur.last() == v@[e - 1]);
            assert(ws_suffix_len(cur) == 0);
        } else {
            assert(v@.take(0) =~= Seq::<char>::empty());
        }
        assert(n - e == ws_suffix_len(v@));
    }
    crate::dates::head_chars(v, e)
}

/// Finds the line holding exactly the delimiter (modulo trailing
/// whitespace), returning the position where that line starts.
pub fn find_closing_delimiter(content: &str, delimiter: &str) -> (r: Option<usize>)
    ensures
        match r {
            Some(p) => spec_closing_delimiter(content@, delimiter@) == Some(p as int),
            None => spec_closing_delimiter(content@, delimiter@) is None,
        },
{
    let delim = chars_vec(delimiter);
    let v = chars_vec(content);
    let n0 = v.len();
    proof {
        assert(content@.len() == n0);
    }
    let mut rest = v;
    let mut off: usize = 0;
    loop
        invariant
            delim@ == delimiter@,
            content@.len() <= usize::MAX,
            off + rest@.len() == content@.len(),
            match spec_closing_delimiter(rest@, delimiter@) {
                Some(i) => spec_closing_delimiter(content@, delimiter@) == Some(off + i),
                None => spec_closing_delimiter(content@, delimiter@) is None,
            },
        decreases rest@.len(),
    {
        let ghost rv = rest@;
        proof {
            lemma_find_char_pub(rv, '\n');
        }
        let rn = rest.len();
        match find_char_exec(&rest, '\n') {
            Some(nl) => {
                proof {
                    assert(nl < rn);
                }
                let line = crate::dates::head_chars(&rest, nl);
                let trimmed = trim_end_chars(&line);
                if chars_eq(&trimmed, &delim) {
                    return Some(off);
                }
                let new_rest = crate::dates::tail_chars(&rest, nl + 1);
                proof {
                    assert(new_rest@ =~= rv.skip(nl + 1));
                }
                off = off + nl + 1;
                rest = new_rest;
            },
            None => {
                let whole = crate::dates::tail_chars(&rest, 0);
                proof {
                    assert(whole@ =~= rv);
                }
                let trimmed = trim_end_chars(&whole);
                if chars_eq(&trimmed, &delim) {
                    return Some(off);
                }
                return None;
            },
        }
    }
}

} // verus!
