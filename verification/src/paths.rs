//! Path-derived keys: the nested key under which a data file's contents
//! are exposed to templates.

use vstd::prelude::*;
use crate::strutil::{chars_vec, chars_to_string};
use crate::xml::{find_char, find_char_exec, lemma_find_char_pub};

verus! {

/// One past the position of the last `.`, or zero when there is none.
pub open spec fn last_dot_end(s: Seq<char>) -> int
    decreases s.len(),
{
    if s.len() == 0 {
        0
    } else if s.last() == '.' {
        s.len() as int
    } else {
        last_dot_end(s.drop_last())
    }
}

/// A file name's stem: what precedes its last dot, except that a name
/// whose only dot leads (a dotfile) keeps the whole name.
pub open spec fn stem_of(name: Seq<char>) -> Seq<char> {
    if last_dot_end(name) >= 2 {
        name.take(last_dot_end(name) - 1)
    } else {
        name
    }
}

/// The data key of a slash-separated relative path: every parent segment,
/// then the final segment's stem.
pub open spec fn spec_data_key(p: Seq<char>) -> Seq<Seq<char>>
    decreases p.len(),
{
    if p.len() == 0 {
        Seq::empty()
    } else {
        match find_char(p, '/') {
            None => seq![stem_of(p)],
            Some(i) => if 0 <= i < p.len() {
                seq![p.take(i)] + spec_data_key(p.skip(i + 1))
            } else {
                seq![stem_of(p)]
            },
        }
    }
}

/// Bounds and characterization of `last_dot_end`.
proof fn lemma_last_dot_end(s: Seq<char>)
    ensures
        0 <= last_dot_end(s) <= s.len(),
        forall|j: int| last_dot_end(s) <= j < s.len() ==> s[j] != '.',
        last_dot_end(s) > 0 ==> s[last_dot_end(s) - 1] == '.',
    decreases s.len(),
{
    if s.len() == 0 {
    } else if s.last() == '.' {
    } else {
        lemma_last_dot_end(s.drop_last());
        assert(forall|j: int| 0 <= j < s.len() - 1 ==> s.drop_last()[j] == s[j]);
    }
}

/// The stem of one segment, as a vector.
fn stem_chars(v: &Vec<char>) -> (r: Vec<char>)
    ensures
        r@ == stem_of(v@),
{
    proof {
        lemma_last_dot_end(v@);
    }
    let n = v.len();
    let mut k: usize = n;
    while k > 0
        invariant
            n == v@.len(),
            k <= n,
            forall|j: int| k <= j < n ==> v@[j] != '.',
        decreases k,
    {
        if v[k - 1] == '.' {
            proof {
                lemma_last_dot_end(v@);
                assert(last_dot_end(v@) >= k) by {
                    if last_dot_end(v@) < k {
                        assert(v@[k - 1] != '.');
                    }
                }
                assert(last_dot_end(v@) <= k) by {
                    if last_dot_end(v@) > k {
                        assert(v@[last_dot_end(v@) - 1] == '.');
                    }
                }
            }
            if k >= 2 {
                return crate::dates::head_chars(v, k - 1);
            }
            let whole = crate::dates::tail_chars(v, 0);
            proof {
                assert(whole@ =~= v@);
            }
            return whole;
        }
        k = k - 1;
    }
    proof {
        lemma_last_dot_end(v@);
        assert(last_dot_end(v@) == 0) by {
            if last_dot_end(v@) > 0 {
                assert(v@[last_dot_end(v@) - 1] == '.');
            }
        }
    }
    let whole = crate::dates::tail_chars(v, 0);
    proof {
        assert(whole@ =~= v@);
    }
    whole
}

/// The views of the produced key parts.
pub open spec fn key_view(parts: Seq<String>) -> Seq<Seq<char>> {
    parts.map_values(|x: String| x@)
}

/// Builds the nested key a data file is exposed under: its parent
/// directories in order, then its file name without the extension.
pub fn build_data_key(path: &str) -> (r: Vec<String>)
    ensures
        key_view(r@) == spec_data_key(path@),
{
    let v = chars_vec(path);
    let ghost whole = path@;
    let mut parts: Vec<String> = Vec::new();
    let mut rest = v;
    proof {
        assert(key_view(parts@) + spec_data_key(rest@) =~= spec_data_key(whole));
    }
    loop
        invariant
            whole == path@,
            spec_data_key(whole) == key_view(parts@) + spec_data_key(rest@),
        decreases rest@.len(),
    {
        let ghost rv = rest@;
        if rest.len() == 0 {
            proof {
                assert(key_view(parts@) =~= spec_data_key(whole));
            }
            return parts;
        }
        proof {
            lemma_find_char_pub(rv, '/');
        }
        let rn = rest.len();
        match find_char_exec(&rest, '/') {
            Some(i) => {
                proof {
                    assert(i < rn);
                }
                let seg = crate::dates::head_chars(&rest, i);
                let ghost before = parts@;
                parts.push(chars_to_string(&seg));
                let new_rest = crate::dates::tail_chars(&rest, i + 1);
                proof {
                    assert(spec_data_key(rv) == seq![rv.take(i as int)] + spec_data_key(
                        rv.skip(i + 1),
                    ));
                    assert(key_view(parts@) =~= key_view(before).push(rv.take(i as int)));
                    assert(key_view(parts@) + spec_data_key(new_rest@) =~= spec_data_key(whole));
                }
                rest = new_rest;
            },
            None => {
                let stem = stem_chars(&rest);
                let ghost before = parts@;
                parts.push(chars_to_string(&stem));
                proof {
                    assert(spec_data_key(rv) == seq![stem_of(rv)]);
                    assert(key_view(parts@) =~= key_view(before).push(stem_of(rv)));
                    assert(key_view(parts@) =~= spec_data_key(whole));
                }
                return parts;
            },
        }
    }
}

} // verus!
