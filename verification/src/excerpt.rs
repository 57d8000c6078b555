//! Excerpt extraction: the first paragraph of a document with Markdown
//! syntax stripped and an optional length cap.

use vstd::prelude::*;
use crate::strutil::{chars_vec, chars_to_string, push_all};
use crate::text::is_unicode_ws;
use crate::xml::{find_char, find_char_exec, lemma_find_char_pub};

verus! {

/// Characters consumed by a parenthesized group already `depth` deep:
/// consumption stops right after the parenthesis that balances it.
pub open spec fn paren_len(s: Seq<char>, depth: int) -> nat
    decreases s.len(),
{
    if s.len() == 0 || depth <= 0 {
        0
    } else {
        (1 + paren_len(
            s.drop_first(),
            depth + (if s[0] == '(' {
                1int
            } else if s[0] == ')' {
                -1int
            } else {
                0int
            }),
        )) as nat
    }
}

/// The group consumes no more than the text.
proof fn lemma_paren_len(s: Seq<char>, depth: int)
    ensures
        paren_len(s, depth) <= s.len(),
    decreases s.len(),
{
    if s.len() == 0 || depth <= 0 {
    } else {
        lemma_paren_len(
            s.drop_first(),
            depth + (if s[0] == '(' {
                1int
            } else if s[0] == ')' {
                -1int
            } else {
                0int
            }),
        );
    }
}

/// What a bracketed construct (after its opening bracket) consumes: up to
/// and including the `]`, plus a following parenthesized target if one
/// opens immediately.
pub open spec fn bracket_jump(t: Seq<char>) -> nat {
    match find_char(t, ']') {
        None => t.len(),
        Some(p) => if 0 <= p < t.len() {
            if p + 1 < t.len() && t[p + 1] == '(' {
                ((p + 2) as nat + paren_len(t.skip(p + 2), 1)) as nat
            } else {
                (p + 1) as nat
            }
        } else {
            t.len()
        },
    }
}

/// The bracketed construct consumes no more than the text.
proof fn lemma_bracket_jump(t: Seq<char>)
    ensures
        bracket_jump(t) <= t.len(),
{
    lemma_find_char_pub(t, ']');
    match find_char(t, ']') {
        None => {},
        Some(p) => {
            if p + 1 < t.len() && t[p + 1] == '(' {
                lemma_paren_len(t.skip(p + 2), 1);
            }
        },
    }
}

/// The text kept from a bracketed construct: what stands before the `]`.
pub open spec fn bracket_text(t: Seq<char>) -> Seq<char> {
    match find_char(t, ']') {
        None => t,
        Some(p) => if 0 <= p < t.len() {
            t.take(p)
        } else {
            t
        },
    }
}

/// The character that precedes the rest of the text after a bracketed
/// construct: the balancing parenthesis or the bracket itself.
pub open spec fn bracket_prev(t: Seq<char>) -> char {
    match find_char(t, ']') {
        None => ']',
        Some(p) => if 0 <= p < t.len() && p + 1 < t.len() && t[p + 1] == '(' {
            ')'
        } else {
            ']'
        },
    }
}

/// Leading `#` characters.
pub open spec fn hash_run(s: Seq<char>) -> nat
    decreases s.len(),
{
    if s.len() == 0 {
        0
    } else if s[0] == '#' {
        (1 + hash_run(s.drop_first())) as nat
    } else {
        0
    }
}

/// The hash run consumes no more than the text.
proof fn lemma_hash_run(s: Seq<char>)
    ensures
        hash_run(s) <= s.len(),
    decreases s.len(),
{
    if s.len() > 0 && s[0] == '#' {
        lemma_hash_run(s.drop_first());
    }
}

/// The Markdown stripper: walks the text with the previously consumed
/// character in hand; link and image syntax keeps only its bracket text,
/// a heading marker at line start disappears with one following space,
/// unpaired emphasis marks and backticks disappear, and everything else is
/// kept.
pub open spec fn strip_md_from(s: Seq<char>, prev: Option<char>) -> Seq<char>
    decreases s.len(),
    via strip_md_from_decreases
{
    if s.len() == 0 {
        Seq::empty()
    } else if s.len() >= 2 && s[0] == '!' && s[1] == '[' {
        let t = s.skip(2);
        bracket_text(t) + strip_md_from(t.skip(bracket_jump(t) as int), Some(bracket_prev(t)))
    } else if s[0] == '[' {
        let t = s.skip(1);
        bracket_text(t) + strip_md_from(t.skip(bracket_jump(t) as int), Some(bracket_prev(t)))
    } else if s[0] == '#' && (prev is None || prev == Some('\n')) {
        let h = hash_run(s) as int;
        let after = s.skip(h);
        if after.len() > 0 && after[0] == ' ' {
            strip_md_from(after.drop_first(), Some(' '))
        } else {
            strip_md_from(after, Some('#'))
        }
    } else if s[0] == '*' || s[0] == '_' {
        let keep = prev matches Some(pc) && is_alnum_spec(pc) && s.len() >= 2 && is_alnum_spec(
            s[1],
        );
        if keep {
            seq![s[0]] + strip_md_from(s.drop_first(), Some(s[0]))
        } else {
            strip_md_from(s.drop_first(), Some(s[0]))
        }
    } else if s[0] == '`' {
        strip_md_from(s.drop_first(), Some('`'))
    } else {
        seq![s[0]] + strip_md_from(s.drop_first(), Some(s[0]))
    }
}

#[via_fn]
proof fn strip_md_from_decreases(s: Seq<char>, prev: Option<char>) {
    if s.len() >= 2 && s[0] == '!' && s[1] == '[' {
        lemma_bracket_jump(s.skip(2));
    } else if s.len() > 0 && s[0] == '[' {
        lemma_bracket_jump(s.skip(1));
    } else if s.len() > 0 && s[0] == '#' && (prev is None || prev == Some('\n')) {
        lemma_hash_run(s);
        assert(hash_run(s) >= 1);
    }
}

/// The Unicode alphanumeric class, shared with the slug machinery.
pub open spec fn is_alnum_spec(c: char) -> bool {
    crate::text::is_alnum(c)
}

/// Consumes a parenthesized group of `t` starting at `start` with depth
/// one, returning the position after its balancing parenthesis.
fn paren_scan(t: &Vec<char>, start: usize) -> (k: usize)
    requires
        start <= t@.len(),
    ensures
        start <= k <= t@.len(),
        k - start == paren_len(t@.skip(start as int), 1),
{
    let n = t.len();
    let mut k = start;
    let mut depth: u128 = 1;
    proof {
        lemma_paren_len(t@.skip(start as int), 1);
    }
    while k < n && depth > 0
        invariant
            n == t@.len(),
            start <= k <= n,
            paren_len(t@.skip(start as int), 1) == (k - start) + paren_len(
                t@.skip(k as int),
                depth as int,
            ),
            depth <= 1 + (k - start),
        decreases n - k,
    {
        let ghost rem = t@.skip(k as int);
        proof {
            assert(rem[0] == t@[k as int]);
            assert(rem.drop_first() =~= t@.skip(k + 1));
        }
        let c = t[k];
        if c == '(' {
            depth = depth + 1;
        } else if c == ')' {
            depth = depth - 1;
        }
        k = k + 1;
        proof {
            lemma_paren_len(t@.skip(k as int), depth as int);
        }
    }
    proof {
        if k == n {
            assert(t@.skip(n as int) =~= Seq::<char>::empty());
        }
        assert(paren_len(t@.skip(k as int), depth as int) == 0);
        lemma_paren_len(t@.skip(start as int), 1);
    }
    k
}

/// Handles one bracketed construct: pushes its text and returns how many
/// characters of `t` it consumed.
fn bracket_exec(t: &Vec<char>, out: &mut Vec<char>) -> (jump: usize)
    ensures
        jump == bracket_jump(t@),
        jump <= t@.len(),
        final(out)@ == old(out)@ + bracket_text(t@),
{
    proof {
        lemma_find_char_pub(t@, ']');
        lemma_bracket_jump(t@);
    }
    let tn = t.len();
    match find_char_exec(t, ']') {
        None => {
            let all = crate::dates::tail_chars(t, 0);
            proof {
                assert(all@ =~= t@);
            }
            push_all(out, &all);
            tn
        },
        Some(p) => {
            proof {
                assert(p < tn);
            }
            let text = crate::dates::head_chars(t, p);
            push_all(out, &text);
            if p + 1 < tn && t[p + 1] == '(' {
                let k = paren_scan(t, p + 2);
                k
            } else {
                p + 1
            }
        },
    }
}

/// Strips link, image, heading, emphasis and backtick syntax from a text,
/// keeping what a reader sees.
#[verifier::rlimit(60)]
pub fn strip_markdown_syntax(text: &str) -> (r: String)
    ensures
        r@ == strip_md_from(text@, None),
{
    let v = chars_vec(text);
    let n = v.len();
    let mut out: Vec<char> = Vec::new();
    let mut prev: Option<char> = None;
    let mut i: usize = 0;
    proof {
        assert(v@.skip(0) =~= v@);
    }
    while i < n
        invariant
            n == v@.len(),
            v@ == text@,
            i <= n,
            strip_md_from(v@, None) == out@ + strip_md_from(v@.skip(i as int), prev),
        decreases n - i,
    {
        let ghost rem = v@.skip(i as int);
        proof {
            assert(rem[0] == v@[i as int]);
            if rem.len() >= 2 {
                assert(rem[1] == v@[i + 1]);
            }
            assert(rem.drop_first() =~= v@.skip(i + 1));
        }
        let c = v[i];
        if i + 1 < n && c == '!' && v[i + 1] == '[' {
            let t = crate::dates::tail_chars(&v, i + 2);
            proof {
                assert(t@ =~= rem.skip(2));
            }
            let jump = bracket_exec(&t, &mut out);
            proof {
                assert(t@.skip(jump as int) =~= v@.skip(i + 2 + jump));
                assert(strip_md_from(rem, prev) == bracket_text(t@) + strip_md_from(
                    t@.skip(bracket_jump(t@) as int),
                    Some(bracket_prev(t@)),
                ));
                assert(out@ + strip_md_from(v@.skip(i + 2 + jump), Some(bracket_prev(t@)))
                    =~= strip_md_from(v@, None));
            }
            let bp = bracket_prev_exec(&t);
            prev = Some(bp);
            i = i + 2 + jump;
        } else if c == '[' {
            let t = crate::dates::tail_chars(&v, i + 1);
            proof {
                assert(t@ =~= rem.skip(1));
                assert(rem.skip(1) =~= rem.drop_first());
            }
            let jump = bracket_exec(&t, &mut out);
            proof {
                assert(t@.skip(jump as int) =~= v@.skip(i + 1 + jump));
                assert(strip_md_from(rem, prev) == bracket_text(t@) + strip_md_from(
                    t@.skip(bracket_jump(t@) as int),
                    Some(bracket_prev(t@)),
                ));
                assert(out@ + strip_md_from(v@.skip(i + 1 + jump), Some(bracket_prev(t@)))
                    =~= strip_md_from(v@, None));
            }
            let bp = bracket_prev_exec(&t);
            prev = Some(bp);
            i = i + 1 + jump;
        } else if c == '#' && (match prev {
            None => true,
            Some(pc) => pc == '\n',
        }) {
            let ghost h = hash_run(rem);
            proof {
                lemma_hash_run(rem);
            }
            let mut k = i;
            while k < n && v[k] == '#'
                invariant
                    n == v@.len(),
                    i <= k <= n,
                    hash_run(v@.skip(i as int)) == (k - i) + hash_run(v@.skip(k as int)),
                decreases n - k,
            {
                proof {
                    assert(v@.skip(k as int)[0] == v@[k as int]);
                    assert(v@.skip(k as int).drop_first() =~= v@.skip(k + 1));
                }
                k = k + 1;
            }
            proof {
                if k < n {
                    assert(v@.skip(k as int)[0] == v@[k as int]);
                    assert(hash_run(v@.skip(k as int)) == 0);
                } else {
                    assert(v@.skip(n as int) =~= Seq::<char>::empty());
                }
                assert(k - i == h);
                assert(rem.skip(h as int) =~= v@.skip(k as int));
            }
            if k < n && v[k] == ' ' {
                proof {
                    assert(v@.skip(k as int)[0] == ' ');
                    assert(v@.skip(k as int).drop_first() =~= v@.skip(k + 1));
                    assert(out@ + strip_md_from(v@.skip(k + 1), Some(' ')) =~= strip_md_from(
                        v@,
                        None,
                    ));
                }
                prev = Some(' ');
                i = k + 1;
            } else {
                proof {
                    if k < n {
                        assert(v@.skip(k as int)[0] != ' ');
                    }
                    assert(out@ + strip_md_from(v@.skip(k as int), Some('#')) =~= strip_md_from(
                        v@,
                        None,
                    ));
                }
                prev = Some('#');
                i = k;
            }
        } else if c == '*' || c == '_' {
            let prev_alnum = match prev {
                Some(pc) => crate::text::char_is_alphanumeric(pc),
                None => false,
            };
            let next_alnum = if i + 1 < n {
                crate::text::char_is_alphanumeric(v[i + 1])
            } else {
                false
            };
            if prev_alnum && next_alnum {
                out.push(c);
            }
            proof {
                assert(out@ + strip_md_from(v@.skip(i + 1), Some(v@[i as int])) =~= strip_md_from(
                    v@,
                    None,
                ));
            }
            prev = Some(c);
            i = i + 1;
        } else if c == '`' {
            proof {
                assert(out@ + strip_md_from(v@.skip(i + 1), Some('`')) =~= strip_md_from(
                    v@,
                    None,
                ));
            }
            prev = Some('`');
            i = i + 1;
        } else {
            out.push(c);
            proof {
                assert(out@ + strip_md_from(v@.skip(i + 1), Some(v@[i as int])) =~= strip_md_from(
                    v@,
                    None,
                ));
            }
            prev = Some(c);
            i = i + 1;
        }
    }
    proof {
        assert(v@.skip(n as int) =~= Seq::<char>::empty());
    }
    chars_to_string(&out)
}

/// The character standing before what follows a bracketed construct.
fn bracket_prev_exec(t: &Vec<char>) -> (c: char)
    ensures
        c == bracket_prev(t@),
{
    proof {
        lemma_find_char_pub(t@, ']');
    }
    let tn = t.len();
    match find_char_exec(t, ']') {
        None => ']',
        Some(p) => {
            if p + 1 < tn && t[p + 1] == '(' {
                ')'
            } else {
                ']'
            }
        },
    }
}

/// Leading Unicode whitespace.
pub open spec fn ws_prefix_len(s: Seq<char>) -> nat
    decreases s.len(),
{
    if s.len() == 0 {
        0
    } else if is_unicode_ws(s[0]) {
        (1 + ws_prefix_len(s.drop_first())) as nat
    } else {
        0
    }
}

/// Trailing Unicode whitespace.
pub open spec fn ws_suffix_len(s: Seq<char>) -> nat
    decreases s.len(),
{
    if s.len() == 0 {
        0
    } else if is_unicode_ws(s.last()) {
        (1 + ws_suffix_len(s.drop_last())) as nat
    } else {
        0
    }
}

/// The whitespace prefix fits in the text.
proof fn lemma_ws_prefix_len(s: Seq<char>)
    ensures
        ws_prefix_len(s) <= s.len(),
    decreases s.len(),
{
    if s.len() > 0 && is_unicode_ws(s[0]) {
        lemma_ws_prefix_len(s.drop_first());
    }
}

/// The whitespace suffix fits in the text.
proof fn lemma_ws_suffix_len(s: Seq<char>)
    ensures
        ws_suffix_len(s) <= s.len(),
    decreases s.len(),
{
    if s.len() > 0 && is_unicode_ws(s.last()) {
        lemma_ws_suffix_len(s.drop_last());
    }
}

/// The text with Unicode whitespace removed from both ends.
pub open spec fn trim_ws(s: Seq<char>) -> Seq<char> {
    let a = s.skip(ws_prefix_len(s) as int);
    a.take(a.len() - ws_suffix_len(a))
}

/// The first double newline, if any.
pub open spec fn find_dnl(s: Seq<char>) -> Option<int>
    decreases s.len(),
{
    if s.len() < 2 {
        None
    } else if s[0] == '\n' && s[1] == '\n' {
        Some(0)
    } else {
        match find_dnl(s.drop_first()) {
            Some(i) => Some(i + 1),
            None => None,
        }
    }
}

/// Characterization of `find_dnl`.
proof fn lemma_find_dnl(s: Seq<char>)
    ensures
        match find_dnl(s) {
            Some(i) => 0 <= i && i + 1 < s.len() && s[i] == '\n' && s[i + 1] == '\n'
                && forall|j: int| 0 <= j < i ==> !(s[j] == '\n' && #[trigger] s[j + 1] == '\n'),
            None => forall|j: int| 0 <= j && j + 1 < s.len() ==> !(s[j] == '\n' && #[trigger] s[
                j + 1
            ] == '\n'),
        },
    decreases s.len(),
{
    if s.len() < 2 {
    } else if s[0] == '\n' && s[1] == '\n' {
    } else {
        let rest = s.drop_first();
        lemma_find_dnl(rest);
        match find_dnl(rest) {
            Some(i2) => {
                assert(rest[i2] == s[i2 + 1] && rest[i2 + 1] == s[i2 + 2]);
                assert forall|j: int| 0 <= j < i2 + 1 implies !(s[j] == '\n' && #[trigger] s[j
                    + 1] == '\n') by {
                    if j > 0 {
                        assert(rest[j - 1] == s[j] && rest[j] == s[j + 1]);
                    }
                }
            },
            None => {
                assert forall|j: int| 0 <= j && j + 1 < s.len() implies !(s[j] == '\n'
                    && #[trigger] s[j + 1] == '\n') by {
                    if j > 0 {
                        assert(rest[j - 1] == s[j] && rest[j] == s[j + 1]);
                    }
                }
            },
        }
    }
}

/// The first paragraph: what stands before the first blank line.
pub open spec fn first_paragraph(s: Seq<char>) -> Seq<char> {
    match find_dnl(s) {
        Some(i) => if 0 <= i <= s.len() {
            s.take(i)
        } else {
            s
        },
        None => s,
    }
}

/// The position of the last space, if any.
pub open spec fn rfind_space(s: Seq<char>) -> Option<int>
    decreases s.len(),
{
    if s.len() == 0 {
        None
    } else if s.last() == ' ' {
        Some(s.len() - 1)
    } else {
        rfind_space(s.drop_last())
    }
}

/// Characterization of `rfind_space`.
proof fn lemma_rfind_space(s: Seq<char>)
    ensures
        match rfind_space(s) {
            Some(i) => 0 <= i < s.len() && s[i] == ' ' && forall|j: int|
                i < j < s.len() ==> s[j] != ' ',
            None => forall|j: int| 0 <= j < s.len() ==> s[j] != ' ',
        },
    decreases s.len(),
{
    if s.len() == 0 {
    } else if s.last() == ' ' {
    } else {
        lemma_rfind_space(s.drop_last());
        assert(forall|j: int| 0 <= j < s.len() - 1 ==> s.drop_last()[j] == s[j]);
    }
}

/// The excerpt of a document: the first paragraph, trimmed and stripped of
/// Markdown syntax, whole if it fits in `max_chars`, else cut at the last
/// space inside the cap with an ellipsis; `None` when nothing but
/// whitespace comes first.
pub open spec fn spec_excerpt(content: Seq<char>, max_chars: int) -> Option<Seq<char>> {
    if trim_ws(content).len() == 0 {
        None
    } else {
        let fp = trim_ws(first_paragraph(content));
        if fp.len() == 0 {
            None
        } else {
            let text = trim_ws(strip_md_from(fp, None));
            if text.len() <= max_chars {
                Some(text)
            } else {
                let tr = text.take(max_chars);
                let cut = match rfind_space(tr) {
                    Some(i) => if 0 <= i <= tr.len() {
                        i
                    } else {
                        tr.len() as int
                    },
                    None => tr.len() as int,
                };
                Some(tr.take(cut) + seq!['.', '.', '.'])
            }
        }
    }
}

/// Trims Unicode whitespace from both ends of a vector.
pub fn trim_ws_chars_pub(v: &Vec<char>) -> (r: Vec<char>)
    ensures
        r@ == trim_ws(v@),
{
    proof {
        lemma_ws_prefix_len(v@);
        assert(v@.skip(0) =~= v@);
    }
    let n = v.len();
    let mut start: usize = 0;
    while start < n && crate::text::char_is_whitespace_pub(v[start])
        invariant
            n == v@.len(),
            start <= n,
            ws_prefix_len(v@) == start + ws_prefix_len(v@.skip(start as int)),
        decreases n - start,
    {
        proof {
            assert(v@.skip(start as int)[0] == v@[start as int]);
            assert(v@.skip(start as int).drop_first() =~= v@.skip(start + 1));
        }
        start = start + 1;
    }
    proof {
        if start < n {
            assert(v@.skip(start as int)[0] == v@[start as int]);
            assert(ws_prefix_len(v@.skip(start as int)) == 0);
        } else {
            assert(v@.skip(n as int) =~= Seq::<char>::empty());
        }
        assert(start == ws_prefix_len(v@));
    }
    let ghost a = v@.skip(start as int);
    proof {
        lemma_ws_suffix_len(a);
    }
    let mut end: usize = n;
    while end > start && crate::text::char_is_whitespace_pub(v[end - 1])
        invariant
            n == v@.len(),
            a == v@.skip(start as int),
            start <= end <= n,
            ws_suffix_len(a) == (n - end) + ws_suffix_len(v@.subrange(start as int, end as int)),
        decreases end,
    {
        proof {
            let cur = v@.subrange(start as int, end as int);
            assert(cur.last() == v@[end - 1]);
            assert(cur.drop_last() =~= v@.subrange(start as int, end - 1));
        }
        end = end - 1;
    }
    proof {
        let cur = v@.subrange(start as int, end as int);
        if end > start {
            assert(cur.last() == v@[end - 1]);
            assert(ws_suffix_len(cur) == 0);
        } else {
            assert(cur =~= Seq::<char>::empty());
        }
        assert(n - end == ws_suffix_len(a));
    }
    let mut out: Vec<char> = Vec::new();
    let mut i = start;
    proof {
        assert(v@.subrange(start as int, start as int) =~= Seq::<char>::empty());
    }
    while i < end
        invariant
            end <= v@.len(),
            start <= i <= end,
            out@ == v@.subrange(start as int, i as int),
        decreases end - i,
    {
        out.push(v[i]);
        assert(out@ =~= v@.subrange(start as int, i + 1));
        i = i + 1;
    }
    proof {
        assert(a.take(a.len() - ws_suffix_len(a)) =~= v@.subrange(start as int, end as int));
    }
    out
}

/// The first blank line of the vector, matching `find_dnl`.
fn find_dnl_exec(v: &Vec<char>) -> (r: Option<usize>)
    ensures
        match r {
            Some(p) => find_dnl(v@) == Some(p as int),
            None => find_dnl(v@) is None,
        },
{
    let n = v.len();
    if n < 2 {
        proof {
            lemma_find_dnl(v@);
            match find_dnl(v@) {
                Some(q) => {
                    assert(q + 1 < v@.len());
                },
                None => {},
            }
        }
        return None;
    }
    let mut p: usize = 0;
    while p < n - 1
        invariant
            n == v@.len(),
            n >= 2,
            p <= n - 1,
            forall|j: int| 0 <= j < p ==> !(v@[j] == '\n' && #[trigger] v@[j + 1] == '\n'),
        decreases n - p,
    {
        if v[p] == '\n' && v[p + 1] == '\n' {
            proof {
                lemma_find_dnl(v@);
                match find_dnl(v@) {
                    Some(q) => {
                        if q < p {
                            assert(!(v@[q] == '\n' && v@[q + 1] == '\n'));
                        } else if q > p {
                            assert(!(v@[p as int] == '\n' && v@[p + 1] == '\n'));
                        }
                        assert(q == p);
                    },
                    None => {
                        assert(!(v@[p as int] == '\n' && v@[p + 1] == '\n'));
                    },
                }
            }
            return Some(p);
        }
        p = p + 1;
    }
    proof {
        lemma_find_dnl(v@);
        match find_dnl(v@) {
            Some(q) => {
                assert(!(v@[q] == '\n' && v@[q + 1] == '\n'));
            },
            None => {},
        }
    }
    None
}

/// The last space of the vector, matching `rfind_space`.
fn rfind_space_exec(v: &Vec<char>) -> (r: Option<usize>)
    ensures
        match r {
            Some(p) => rfind_space(v@) == Some(p as int),
            None => rfind_space(v@) is None,
        },
{
    let n = v.len();
    let mut k = n;
    while k > 0
        invariant
            n == v@.len(),
            k <= n,
            forall|j: int| k <= j < n ==> v@[j] != ' ',
        decreases k,
    {
        if v[k - 1] == ' ' {
            proof {
                lemma_rfind_space(v@);
                match rfind_space(v@) {
                    Some(q) => {
                        if q < k - 1 {
                            assert(v@[k - 1] != ' ');
                        } else if q > k - 1 {
                            assert(v@[q] != ' ');
                        }
                        assert(q == k - 1);
                    },
                    None => {
                        assert(v@[k - 1] != ' ');
                    },
                }
            }
            return Some(k - 1);
        }
        k = k - 1;
    }
    proof {
        lemma_rfind_space(v@);
        match rfind_space(v@) {
            Some(q) => {
                assert(v@[q] != ' ');
            },
            None => {},
        }
    }
    None
}

/// Extracts the excerpt: the first paragraph, Markdown-stripped and capped
/// at `max_chars` characters with an ellipsis on the cut.
pub fn extract_excerpt(content: &str, max_chars: usize) -> (r: Option<String>)
    ensures
        match r {
            Some(e) => spec_excerpt(content@, max_chars as int) == Some(e@),
            None => spec_excerpt(content@, max_chars as int) is None,
        },
{
    let v = chars_vec(content);
    let trimmed_all = trim_ws_chars_pub(&v);
    if trimmed_all.len() == 0 {
        return None;
    }
    let n = v.len();
    let fp = match find_dnl_exec(&v) {
        Some(p) => {
            proof {
                lemma_find_dnl(v@);
            }
            crate::dates::head_chars(&v, p)
        },
        None => {
            let whole = crate::dates::tail_chars(&v, 0);
            proof {
                assert(whole@ =~= v@);
            }
            whole
        },
    };
    proof {
        assert(fp@ == first_paragraph(v@));
    }
    let fp_trimmed = trim_ws_chars_pub(&fp);
    if fp_trimmed.len() == 0 {
        return None;
    }
    let fp_str = chars_to_string(&fp_trimmed);
    let stripped = strip_markdown_syntax(fp_str.as_str());
    let sv = chars_vec(stripped.as_str());
    let text = trim_ws_chars_pub(&sv);
    if text.len() <= max_chars {
        return Some(chars_to_string(&text));
    }
    let tr = crate::dates::head_chars(&text, max_chars);
    let cut = match rfind_space_exec(&tr) {
        Some(q) => {
            proof {
                lemma_rfind_space(tr@);
            }
            q
        },
        None => tr.len(),
    };
    let mut out = crate::dates::head_chars(&tr, cut);
    out.push('.');
    out.push('.');
    out.push('.');
    proof {
        assert(out@ =~= tr@.take(cut as int) + seq!['.', '.', '.']);
    }
    Some(chars_to_string(&out))
}

} // verus!
