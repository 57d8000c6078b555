//! Shortcode tag syntax: the argument grammar of `{{< name key="value" >}}`
//! tags.

use vstd::prelude::*;
use crate::strutil::{chars_vec, find_sub, lemma_find_sub, find_sub_exec};
use crate::text::{is_alnum, is_unicode_ws, char_is_alphanumeric, char_is_whitespace_pub};
use crate::digest_map::{DigestPair, spec_put, keys_distinct};

verus! {

/// Why shortcode arguments failed to parse.
#[derive(Debug, Clone, Copy, PartialEq, Eq, Structural)]
pub enum ShortcodeArgError {
    EmptyName,
    UnclosedPositional,
    ExpectedKey,
    ExpectedEquals,
    ExpectedQuote,
    UnclosedValue,
}

/// A character allowed in shortcode names and argument keys.
pub open spec fn is_name_char(c: char) -> bool {
    is_alnum(c) || c == '_' || c == '-'
}

/// Leading name characters.
pub open spec fn name_len(s: Seq<char>) -> nat
    decreases s.len(),
{
    if s.len() == 0 {
        0
    } else if is_name_char(s[0]) {
        (1 + name_len(s.drop_first())) as nat
    } else {
        0
    }
}

/// Leading whitespace.
pub open spec fn ws_len(s: Seq<char>) -> nat
    decreases s.len(),
{
    if s.len() == 0 {
        0
    } else if is_unicode_ws(s[0]) {
        (1 + ws_len(s.drop_first())) as nat
    } else {
        0
    }
}

/// The name run fits in the text.
proof fn lemma_name_len(s: Seq<char>)
    ensures
        name_len(s) <= s.len(),
    decreases s.len(),
{
    if s.len() > 0 && is_name_char(s[0]) {
        lemma_name_len(s.drop_first());
    }
}

/// The whitespace run fits in the text.
proof fn lemma_ws_len(s: Seq<char>)
    ensures
        ws_len(s) <= s.len(),
    decreases s.len(),
{
    if s.len() > 0 && is_unicode_ws(s[0]) {
        lemma_ws_len(s.drop_first());
    }
}

/// Reads a double-quoted value body after its opening quote: backslash
/// escapes the next character literally, the closing quote ends the value.
/// Yields the value and the count of characters consumed (closing quote
/// included), or nothing when the quote never closes.
pub open spec fn scan_quoted(s: Seq<char>) -> Option<(Seq<char>, nat)>
    decreases s.len(),
{
    if s.len() == 0 {
        None
    } else if s[0] == '\\' && s.len() >= 2 {
        match scan_quoted(s.skip(2)) {
            Some(p) => Some((seq![s[1]] + p.0, (p.1 + 2) as nat)),
            None => None,
        }
    } else if s[0] == '"' {
        Some((Seq::empty(), 1))
    } else {
        match scan_quoted(s.drop_first()) {
            Some(p) => Some((seq![s[0]] + p.0, (p.1 + 1) as nat)),
            None => None,
        }
    }
}

/// What a quoted scan consumes is at least one and at most all characters.
proof fn lemma_scan_quoted(s: Seq<char>)
    ensures
        match scan_quoted(s) {
            Some(p) => 1 <= p.1 <= s.len(),
            None => true,
        },
    decreases s.len(),
{
    if s.len() == 0 {
    } else if s[0] == '\\' && s.len() >= 2 {
        lemma_scan_quoted(s.skip(2));
    } else if s[0] == '"' {
    } else {
        lemma_scan_quoted(s.drop_first());
    }
}

/// The argument loop after the name: repeatedly skip whitespace, then read
/// either a quoted positional value (stored under `_positional`) or a
/// `key="value"` pair, until the input ends.
pub open spec fn args_from(s: Seq<char>, acc: Seq<DigestPair>) -> Result<
    Seq<DigestPair>,
    ShortcodeArgError,
>
    decreases s.len(),
    via args_from_decreases
{
    let t = s.skip(ws_len(s) as int);
    if t.len() == 0 {
        Ok(acc)
    } else if t[0] == '"' {
        match scan_quoted(t.skip(1)) {
            None => Err(ShortcodeArgError::UnclosedPositional),
            Some(p) => args_from(t.skip(1 + p.1 as int), spec_put(acc, "_positional"@, p.0)),
        }
    } else {
        let k = name_len(t);
        if k == 0 {
            Err(ShortcodeArgError::ExpectedKey)
        } else {
            let key = t.take(k as int);
            let u = t.skip(k as int);
            let u2 = u.skip(ws_len(u) as int);
            if u2.len() == 0 || u2[0] != '=' {
                Err(ShortcodeArgError::ExpectedEquals)
            } else {
                let w = u2.skip(1);
                let w2 = w.skip(ws_len(w) as int);
                if w2.len() == 0 || w2[0] != '"' {
                    Err(ShortcodeArgError::ExpectedQuote)
                } else {
                    match scan_quoted(w2.skip(1)) {
                        None => Err(ShortcodeArgError::UnclosedValue),
                        Some(p) => args_from(w2.skip(1 + p.1 as int), spec_put(acc, key, p.0)),
                    }
                }
            }
        }
    }
}

#[via_fn]
proof fn args_from_decreases(s: Seq<char>, acc: Seq<DigestPair>) {
    lemma_ws_len(s);
    let t = s.skip(ws_len(s) as int);
    if t.len() == 0 {
    } else if t[0] == '"' {
        lemma_scan_quoted(t.skip(1));
    } else {
        let k = name_len(t);
        lemma_name_len(t);
        if k > 0 {
            let u = t.skip(k as int);
            lemma_ws_len(u);
            let u2 = u.skip(ws_len(u) as int);
            if !(u2.len() == 0 || u2[0] != '=') {
                let w = u2.skip(1);
                lemma_ws_len(w);
                let w2 = w.skip(ws_len(w) as int);
                if !(w2.len() == 0 || w2[0] != '"') {
                    lemma_scan_quoted(w2.skip(1));
                }
            }
        }
    }
}

/// The whole grammar: optional whitespace, a non-empty name, then the
/// argument list.
pub open spec fn spec_parse_shortcode(s: Seq<char>) -> Result<
    (Seq<char>, Seq<DigestPair>),
    ShortcodeArgError,
> {
    let t = s.skip(ws_len(s) as int);
    let k = name_len(t);
    if k == 0 {
        Err(ShortcodeArgError::EmptyName)
    } else {
        match args_from(t.skip(k as int), Seq::empty()) {
            Ok(args) => Ok((t.take(k as int), args)),
            Err(e) => Err(e),
        }
    }
}

/// Skips whitespace from `i`, returning the first non-whitespace position.
fn skip_ws_exec(v: &Vec<char>, i: usize) -> (r: usize)
    requires
        i <= v@.len(),
    ensures
        i <= r <= v@.len(),
        r - i == ws_len(v@.skip(i as int)),
{
    proof {
        lemma_ws_len(v@.skip(i as int));
    }
    let n = v.len();
    let mut k = i;
    while k < n && char_is_whitespace_pub(v[k])
        invariant
            n == v@.len(),
            i <= k <= n,
            ws_len(v@.skip(i as int)) == (k - i) + ws_len(v@.skip(k as int)),
        decreases n - k,
    {
        proof {
            assert(v@.skip(k as int)[0] == v@[k as int]);
            assert(v@.skip(k as int).drop_first() =~= v@.skip(k + 1));
        }
        k = k + 1;
    }
    proof {
        if k < n {
            assert(v@.skip(k as int)[0] == v@[k as int]);
            assert(ws_len(v@.skip(k as int)) == 0);
        } else {
            assert(v@.skip(n as int) =~= Seq::<char>::empty());
        }
    }
    k
}

/// Scans name characters from `i`, returning the position after the run.
fn scan_name_exec(v: &Vec<char>, i: usize) -> (r: usize)
    requires
        i <= v@.len(),
    ensures
        i <= r <= v@.len(),
        r - i == name_len(v@.skip(i as int)),
{
    proof {
        lemma_name_len(v@.skip(i as int));
    }
    let n = v.len();
    let mut k = i;
    while k < n && (char_is_alphanumeric(v[k]) || v[k] == '_' || v[k] == '-')
        invariant
            n == v@.len(),
            i <= k <= n,
            name_len(v@.skip(i as int)) == (k - i) + name_len(v@.skip(k as int)),
        decreases n - k,
    {
        proof {
            assert(v@.skip(k as int)[0] == v@[k as int]);
            assert(v@.skip(k as int).drop_first() =~= v@.skip(k + 1));
        }
        k = k + 1;
    }
    proof {
        if k < n {
            assert(v@.skip(k as int)[0] == v@[k as int]);
            assert(name_len(v@.skip(k as int)) == 0);
        } else {
            assert(v@.skip(n as int) =~= Seq::<char>::empty());
        }
    }
    k
}

/// Reads a quoted value whose opening quote stood just before `i`.
fn scan_quoted_exec(v: &Vec<char>, i: usize) -> (r: Option<(Vec<char>, usize)>)
    requires
        i <= v@.len(),
    ensures
        match r {
            Some(p) => {
                &&& i <= p.1 <= v@.len()
                &&& scan_quoted(v@.skip(i as int)) == Some((p.0@, (p.1 - i) as nat))
            },
            None => scan_quoted(v@.skip(i as int)) is None,
        },
{
    let n = v.len();
    let mut k = i;
    let mut value: Vec<char> = Vec::new();
    loop
        invariant
            n == v@.len(),
            i <= k <= n,
            match scan_quoted(v@.skip(k as int)) {
                Some(p) => scan_quoted(v@.skip(i as int)) == Some(
                    (value@ + p.0, (p.1 + (k - i)) as nat),
                ),
                None => scan_quoted(v@.skip(i as int)) is None,
            },
        decreases n - k,
    {
        if k >= n {
            proof {
                assert(v@.skip(n as int) =~= Seq::<char>::empty());
                assert(scan_quoted(v@.skip(k as int)) is None);
            }
            return None;
        }
        let ghost rem = v@.skip(k as int);
        proof {
            assert(rem[0] == v@[k as int]);
            if rem.len() >= 2 {
                assert(rem[1] == v@[k + 1]);
                assert(rem.skip(2) =~= v@.skip(k + 2));
            }
            assert(rem.drop_first() =~= v@.skip(k + 1));
        }
        let c = v[k];
        if c == '\\' && k + 1 < n {
            value.push(v[k + 1]);
            k = k + 2;
        } else if c == '"' {
            proof {
                assert(scan_quoted(rem) == Some((Seq::<char>::empty(), 1nat)));
                assert(value@ + Seq::<char>::empty() =~= value@);
            }
            return Some((value, k + 1));
        } else {
            value.push(c);
            k = k + 1;
        }
    }
}

/// Overwrites or appends one argument pair.
fn put_arg(args: &mut Vec<(String, String)>, key: String, value: String)
    requires
        keys_distinct(old(args)@.map_values(|p: (String, String)| (p.0@, p.1@))),
    ensures
        final(args)@.map_values(|p: (String, String)| (p.0@, p.1@)) == spec_put(
            old(args)@.map_values(|p: (String, String)| (p.0@, p.1@)),
            key@,
            value@,
        ),
        keys_distinct(final(args)@.map_values(|p: (String, String)| (p.0@, p.1@))),
{
    let ghost orig = args@.map_values(|p: (String, String)| (p.0@, p.1@));
    let n = args.len();
    let mut i: usize = 0;
    while i < n
        invariant
            n == args@.len(),
            i <= n,
            orig == args@.map_values(|p: (String, String)| (p.0@, p.1@)),
            orig == old(args)@.map_values(|p: (String, String)| (p.0@, p.1@)),
            keys_distinct(orig),
            forall|j: int| 0 <= j < i ==> orig[j].0 != key@,
        decreases n - i,
    {
        if args[i].0.eq(&key) {
            proof {
                crate::digest_map::lemma_put_at_pub(orig, key@, value@, i as int);
            }
            args.set(i, (key, value));
            proof {
                let newv = args@.map_values(|p: (String, String)| (p.0@, p.1@));
                assert(newv =~= orig.update(i as int, (key@, value@)));
                assert forall|a: int, b: int| 0 <= a < b < newv.len() implies newv[a].0
                    != newv[b].0 by {
                    assert(newv[a].0 == orig[a].0);
                    assert(newv[b].0 == orig[b].0);
                }
                assert(keys_distinct(newv));
            }
            return ;
        }
        i = i + 1;
    }
    proof {
        crate::digest_map::lemma_put_missing_pub(orig, key@, value@);
    }
    args.push((key, value));
    proof {
        assert(args@.map_values(|p: (String, String)| (p.0@, p.1@)) =~= orig.push(
            (key@, value@),
        ));
        assert(forall|j: int|
            0 <= j < orig.len() ==> args@.map_values(|p: (String, String)| (p.0@, p.1@))[j]
                == orig[j]);
        assert(keys_distinct(args@.map_values(|p: (String, String)| (p.0@, p.1@))));
    }
}

/// The argument pairs as the specifications see them.
pub open spec fn args_view(args: Seq<(String, String)>) -> Seq<DigestPair> {
    args.map_values(|p: (String, String)| (p.0@, p.1@))
}

/// Parses a shortcode tag's interior into its name and arguments: a
/// quoted value with no key lands under `_positional`, later bindings of a
/// key overwrite earlier ones.
#[verifier::rlimit(80)]
pub fn parse_shortcode_args(input: &str) -> (r: Result<
    (String, Vec<(String, String)>),
    ShortcodeArgError,
>)
    ensures
        match r {
            Ok(p) => spec_parse_shortcode(input@) == Ok::<_, ShortcodeArgError>(
                (p.0@, args_view(p.1@)),
            ),
            Err(e) => spec_parse_shortcode(input@) == Err::<(Seq<char>, Seq<DigestPair>), _>(e),
        },
{
    let v = chars_vec(input);
    let n = v.len();
    let start = skip_ws_exec(&v, 0);
    let name_end = scan_name_exec(&v, start);
    proof {
        assert(v@.skip(0) =~= v@);
        assert(v@.skip(start as int).take((name_end - start) as int) =~= v@.subrange(
            start as int,
            name_end as int,
        ));
        assert(v@.skip(start as int).skip((name_end - start) as int) =~= v@.skip(
            name_end as int,
        ));
    }
    if name_end == start {
        return Err(ShortcodeArgError::EmptyName);
    }
    let name_chars = crate::dates::head_chars(&crate::dates::tail_chars(&v, start), name_end
        - start);
    proof {
        assert(name_chars@ =~= v@.subrange(start as int, name_end as int));
    }
    let name = crate::strutil::chars_to_string(&name_chars);
    let mut args: Vec<(String, String)> = Vec::new();
    let mut i = name_end;
    proof {
        assert(args_view(args@) =~= Seq::<DigestPair>::empty());
        assert(keys_distinct(args_view(args@)));
        assert(spec_parse_shortcode(input@) == (match args_from(
            v@.skip(name_end as int),
            Seq::<DigestPair>::empty(),
        ) {
            Ok(a) => Ok::<_, ShortcodeArgError>((name@, a)),
            Err(e) => Err::<(Seq<char>, Seq<DigestPair>), _>(e),
        }));
    }
    loop
        invariant
            n == v@.len(),
            i <= n,
            keys_distinct(args_view(args@)),
            args_from(v@.skip(name_end as int), Seq::empty()) == args_from(
                v@.skip(i as int),
                args_view(args@),
            ),
            name_end <= n,
            spec_parse_shortcode(input@) == (match args_from(
                v@.skip(name_end as int),
                Seq::<DigestPair>::empty(),
            ) {
                Ok(a) => Ok::<_, ShortcodeArgError>((name@, a)),
                Err(e) => Err::<(Seq<char>, Seq<DigestPair>), _>(e),
            }),
        decreases n - i,
    {
        let t_start = skip_ws_exec(&v, i);
        let ghost s0 = v@.skip(i as int);
        let ghost t = s0.skip(ws_len(s0) as int);
        proof {
            assert(t =~= v@.skip(t_start as int));
        }
        if t_start >= n {
            proof {
                assert(t.len() == 0);
                assert(args_from(s0, args_view(args@)) == Ok::<_, ShortcodeArgError>(
                    args_view(args@),
                ));
            }
            return Ok((name, args));
        }
        proof {
            assert(t[0] == v@[t_start as int]);
        }
        if v[t_start] == '"' {
            proof {
                assert(t.skip(1) =~= v@.skip(t_start + 1));
            }
            match scan_quoted_exec(&v, t_start + 1) {
                None => {
                    return Err(ShortcodeArgError::UnclosedPositional);
                },
                Some(p) => {
                    let (val, after) = p;
                    proof {
                        lemma_scan_quoted(t.skip(1));
                        assert(t.skip(1 + ((after - (t_start + 1)) as int)) =~= v@.skip(
                            after as int,
                        ));
                    }
                    put_arg(
                        &mut args,
                        String::from_str("_positional"),
                        crate::strutil::chars_to_string(&val),
                    );
                    i = after;
                },
            }
        } else {
            let key_end = scan_name_exec(&v, t_start);
            if key_end == t_start {
                proof {
                    assert(name_len(t) == 0);
                }
                return Err(ShortcodeArgError::ExpectedKey);
            }
            proof {
                assert(t.take((key_end - t_start) as int) =~= v@.subrange(
                    t_start as int,
                    key_end as int,
                ));
                assert(t.skip((key_end - t_start) as int) =~= v@.skip(key_end as int));
            }
            let key_chars = crate::dates::head_chars(
                &crate::dates::tail_chars(&v, t_start),
                key_end - t_start,
            );
            proof {
                assert(key_chars@ =~= v@.subrange(t_start as int, key_end as int));
            }
            let eq_pos = skip_ws_exec(&v, key_end);
            let ghost u = t.skip((key_end - t_start) as int);
            let ghost u2 = u.skip(ws_len(u) as int);
            proof {
                assert(u2 =~= v@.skip(eq_pos as int));
            }
            if eq_pos >= n || v[eq_pos] != '=' {
                proof {
                    if eq_pos < n {
                        assert(u2[0] == v@[eq_pos as int]);
                    }
                }
                return Err(ShortcodeArgError::ExpectedEquals);
            }
            proof {
                assert(u2[0] == '=');
                assert(u2.skip(1) =~= v@.skip(eq_pos + 1));
            }
            let q_pos = skip_ws_exec(&v, eq_pos + 1);
            let ghost w = u2.skip(1);
            let ghost w2 = w.skip(ws_len(w) as int);
            proof {
                assert(w2 =~= v@.skip(q_pos as int));
            }
            if q_pos >= n || v[q_pos] != '"' {
                proof {
                    if q_pos < n {
                        assert(w2[0] == v@[q_pos as int]);
                    }
                }
                return Err(ShortcodeArgError::ExpectedQuote);
            }
            proof {
                assert(w2[0] == '"');
                assert(w2.skip(1) =~= v@.skip(q_pos + 1));
            }
            match scan_quoted_exec(&v, q_pos + 1) {
                None => {
                    return Err(ShortcodeArgError::UnclosedValue);
                },
                Some(p) => {
                    let (val, after) = p;
                    proof {
                        lemma_scan_quoted(w2.skip(1));
                        assert(w2.skip(1 + ((after - (q_pos + 1)) as int)) =~= v@.skip(
                            after as int,
                        ));
                    }
                    put_arg(
                        &mut args,
                        crate::strutil::chars_to_string(&key_chars),
                        crate::strutil::chars_to_string(&val),
                    );
                    i = after;
                },
            }
        }
    }
}

/// The earlier of two optional positions.
pub open spec fn min_opt(a: Option<int>, b: Option<int>) -> Option<int> {
    match (a, b) {
        (Some(x), Some(y)) => Some(
            if x <= y {
                x
            } else {
                y
            },
        ),
        (Some(x), None) => Some(x),
        (None, Some(y)) => Some(y),
        (None, None) => None,
    }
}

/// The next code fence at a line start: the earlier of the next backtick
/// or tilde fence whose preceding character is a newline (or that opens
/// the text). `prev` is the character just before `s`.
pub open spec fn fence_from(s: Seq<char>, prev: Option<char>) -> Option<int>
    decreases s.len(),
{
    match min_opt(find_sub(s, "```"@), find_sub(s, "~~~"@)) {
        None => None,
        Some(p) => if !(0 <= p && p + 3 <= s.len()) {
            None
        } else if (p == 0 && (prev is None || prev == Some('\n'))) || (p > 0 && s[p - 1]
            == '\n') {
            Some(p)
        } else {
            match fence_from(s.skip(p + 3), Some(s[p + 2])) {
                Some(i) => Some(p + 3 + i),
                None => None,
            }
        },
    }
}

/// Finds the next code fence standing at a line start.
pub fn find_next_code_fence(content: &str) -> (r: Option<usize>)
    ensures
        match r {
            Some(p) => fence_from(content@, None) == Some(p as int),
            None => fence_from(content@, None) is None,
        },
{
    let backticks = chars_vec("```");
    let tildes = chars_vec("~~~");
    proof {
        reveal_strlit("```");
        reveal_strlit("~~~");
    }
    let v = chars_vec(content);
    let n0 = v.len();
    proof {
        assert(content@.len() == n0);
    }
    let mut rest = v;
    let mut off: usize = 0;
    let mut prev: Option<char> = None;
    loop
        invariant
            backticks@ == "```"@,
            tildes@ == "~~~"@,
            "```"@.len() == 3,
            "~~~"@.len() == 3,
            content@.len() <= usize::MAX,
            off + rest@.len() == content@.len(),
            match fence_from(rest@, prev) {
                Some(i) => fence_from(content@, None) == Some(off + i),
                None => fence_from(content@, None) is None,
            },
        decreases rest@.len(),
    {
        let ghost rv = rest@;
        proof {
            lemma_find_sub(rv, "```"@);
            lemma_find_sub(rv, "~~~"@);
        }
        let b = find_sub_exec(&rest, &backticks);
        let t = find_sub_exec(&rest, &tildes);
        let pos = match (b, t) {
            (Some(x), Some(y)) => Some(
                if x <= y {
                    x
                } else {
                    y
                },
            ),
            (Some(x), None) => Some(x),
            (None, Some(y)) => Some(y),
            (None, None) => None,
        };
        match pos {
            None => {
                return None;
            },
            Some(p) => {
                let accepted = if p == 0 {
                    match prev {
                        None => true,
                        Some(pc) => pc == '\n',
                    }
                } else {
                    rest[p - 1] == '\n'
                };
                let rn = rest.len();
                proof {
                    assert(p + 3 <= rn);
                }
                if accepted {
                    return Some(off + p);
                }
                let new_prev = rest[p + 2];
                let new_rest = crate::dates::tail_chars(&rest, p + 3);
                proof {
                    assert(new_rest@ =~= rv.skip(p + 3));
                }
                prev = Some(new_prev);
                off = off + p + 3;
                rest = new_rest;
            },
        }
    }
}

/// Every character is Unicode whitespace.
pub open spec fn all_unicode_ws(s: Seq<char>) -> bool {
    forall|j: int| 0 <= j < s.len() ==> is_unicode_ws(#[trigger] s[j])
}

/// The closing fence of marker `m`: the next occurrence of `m` at a line
/// start with nothing but whitespace following it on its line.
pub open spec fn closing_fence_from(s: Seq<char>, m: Seq<char>, prev: Option<char>) -> Option<
    int,
>
    decreases s.len(),
    when m.len() > 0
{
    match find_sub(s, m) {
        None => None,
        Some(p) => if !(0 <= p && p + m.len() <= s.len()) {
            None
        } else {
            let line_start = (p == 0 && (prev is None || prev == Some('\n'))) || (p > 0 && s[p
                - 1] == '\n');
            let after = s.skip(p + m.len() as int);
            let line_end = match crate::xml::find_char(after, '\n') {
                Some(q) => if 0 <= q <= after.len() {
                    q
                } else {
                    after.len() as int
                },
                None => after.len() as int,
            };
            if line_start && all_unicode_ws(after.take(line_end)) {
                Some(p)
            } else {
                match closing_fence_from(s.skip(p + m.len() as int), m, Some(s[p + m.len() - 1])) {
                    Some(i) => Some(p + m.len() + i),
                    None => None,
                }
            }
        },
    }
}

/// Finds the closing fence of `fence_marker` at a line start followed only
/// by whitespace.
pub fn find_closing_code_fence(content: &str, fence_marker: &str) -> (r: Option<usize>)
    requires
        fence_marker@.len() > 0,
    ensures
        match r {
            Some(p) => closing_fence_from(content@, fence_marker@, None) == Some(p as int),
            None => closing_fence_from(content@, fence_marker@, None) is None,
        },
{
    let marker = chars_vec(fence_marker);
    let mlen = marker.len();
    let v = chars_vec(content);
    let n0 = v.len();
    proof {
        assert(content@.len() == n0);
    }
    let mut rest = v;
    let mut off: usize = 0;
    let mut prev: Option<char> = None;
    loop
        invariant
            marker@ == fence_marker@,
            mlen == fence_marker@.len(),
            mlen > 0,
            content@.len() <= usize::MAX,
            off + rest@.len() == content@.len(),
            match closing_fence_from(rest@, fence_marker@, prev) {
                Some(i) => closing_fence_from(content@, fence_marker@, None) == Some(off + i),
                None => closing_fence_from(content@, fence_marker@, None) is None,
            },
        decreases rest@.len(),
    {
        let ghost rv = rest@;
        proof {
            lemma_find_sub(rv, fence_marker@);
        }
        match find_sub_exec(&rest, &marker) {
            None => {
                return None;
            },
            Some(p) => {
                let rn = rest.len();
                proof {
                    assert(p + mlen <= rn);
                }
                let line_start = if p == 0 {
                    match prev {
                        None => true,
                        Some(pc) => pc == '\n',
                    }
                } else {
                    rest[p - 1] == '\n'
                };
                let after = crate::dates::tail_chars(&rest, p + mlen);
                proof {
                    assert(after@ =~= rv.skip(p + mlen));
                    crate::xml::lemma_find_char_pub(after@, '\n');
                }
                let line_end = match crate::xml::find_char_exec(&after, '\n') {
                    Some(q) => q,
                    None => after.len(),
                };
                let mut blank = true;
                let mut j: usize = 0;
                while j < line_end
                    invariant
                        line_end <= after@.len(),
                        j <= line_end,
                        blank == all_unicode_ws(after@.take(line_end as int).take(j as int)),
                    decreases line_end - j,
                {
                    let ghost pref = after@.take(line_end as int).take(j as int);
                    let ghost pref2 = after@.take(line_end as int).take(j + 1);
                    proof {
                        assert(pref2[j as int] == after@[j as int]);
                        assert(forall|q: int| 0 <= q < j ==> pref2[q] == pref[q]);
                        assert(pref2.drop_last() =~= pref);
                    }
                    if !char_is_whitespace_pub(after[j]) {
                        blank = false;
                        proof {
                            assert(!all_unicode_ws(pref2));
                        }
                    } else {
                        proof {
                            if blank {
                                assert forall|q: int| 0 <= q < pref2.len() implies is_unicode_ws(
                                    #[trigger] pref2[q],
                                ) by {
                                    if q < j {
                                        assert(pref2[q] == pref[q]);
                                    }
                                }
                                assert(all_unicode_ws(pref2));
                            } else {
                                let q = choose|q: int|
                                    0 <= q < pref.len() && !is_unicode_ws(#[trigger] pref[q]);
                                assert(pref2[q] == pref[q]);
                                assert(!all_unicode_ws(pref2));
                            }
                        }
                    }
                    j = j + 1;
                }
                proof {
                    assert(after@.take(line_end as int).take(line_end as int) =~= after@.take(
                        line_end as int,
                    ));
                }
                if line_start && blank {
                    return Some(off + p);
                }
                let new_prev = rest[p + mlen - 1];
                let new_rest = crate::dates::tail_chars(&rest, p + mlen);
                proof {
                    assert(new_rest@ =~= rv.skip(p + mlen));
                }
                prev = Some(new_prev);
                off = off + p + mlen;
                rest = new_rest;
            },
        }
    }
}

/// The matching closing tag of a block shortcode: openings met along the
/// way (in either spelling) deepen the nesting, and the closing tag that
/// balances depth zero wins.
pub open spec fn matching_close_from(
    s: Seq<char>,
    ow: Seq<char>,
    owo: Seq<char>,
    ct: Seq<char>,
    depth: int,
) -> Option<int>
    decreases s.len(),
    when ow.len() > 0 && owo.len() > 0 && ct.len() > 0
{
    let no_w = find_sub(s, ow);
    let no_wo = find_sub(s, owo);
    let no = min_opt(no_w, no_wo);
    let nc = find_sub(s, ct);
    match (no, nc) {
        (Some(op), Some(cl)) => if op < cl {
            let adv = if no_w == Some(op) {
                ow.len() as int
            } else {
                owo.len() as int
            };
            if 0 <= op && op + adv <= s.len() {
                match matching_close_from(s.skip(op + adv), ow, owo, ct, depth + 1) {
                    Some(i) => Some(op + adv + i),
                    None => None,
                }
            } else {
                None
            }
        } else {
            if depth == 0 {
                Some(cl)
            } else if 0 <= cl && cl + ct.len() <= s.len() {
                match matching_close_from(s.skip(cl + ct.len() as int), ow, owo, ct, depth - 1) {
                    Some(i) => Some(cl + ct.len() + i),
                    None => None,
                }
            } else {
                None
            }
        },
        (None, Some(cl)) => if depth == 0 {
            Some(cl)
        } else if 0 <= cl && cl + ct.len() <= s.len() {
            match matching_close_from(s.skip(cl + ct.len() as int), ow, owo, ct, depth - 1) {
                Some(i) => Some(cl + ct.len() + i),
                None => None,
            }
        } else {
            None
        },
        (_, None) => None,
    }
}

/// Finds the closing tag matching an already-open block shortcode,
/// balancing any nested openings of the same shortcode.
pub fn find_matching_closing_tag(
    content: &str,
    opening_with_args: &str,
    opening_without_args: &str,
    closing_tag: &str,
) -> (r: Option<usize>)
    requires
        opening_with_args@.len() > 0,
        opening_without_args@.len() > 0,
        closing_tag@.len() > 0,
    ensures
        match r {
            Some(p) => matching_close_from(
                content@,
                opening_with_args@,
                opening_without_args@,
                closing_tag@,
                0,
            ) == Some(p as int),
            None => matching_close_from(
                content@,
                opening_with_args@,
                opening_without_args@,
                closing_tag@,
                0,
            ) is None,
        },
{
    let ow = chars_vec(opening_with_args);
    let owo = chars_vec(opening_without_args);
    let ct = chars_vec(closing_tag);
    let v = chars_vec(content);
    let n0 = v.len();
    proof {
        assert(content@.len() == n0);
    }
    let mut rest = v;
    let mut off: usize = 0;
    let mut depth: u64 = 0;
    loop
        invariant
            ow@ == opening_with_args@,
            owo@ == opening_without_args@,
            ct@ == closing_tag@,
            ow@.len() > 0,
            owo@.len() > 0,
            ct@.len() > 0,
            content@.len() <= usize::MAX,
            off + rest@.len() == content@.len(),
            match matching_close_from(
                rest@,
                opening_with_args@,
                opening_without_args@,
                closing_tag@,
                depth as int,
            ) {
                Some(i) => matching_close_from(
                    content@,
                    opening_with_args@,
                    opening_without_args@,
                    closing_tag@,
                    0,
                ) == Some(off + i),
                None => matching_close_from(
                    content@,
                    opening_with_args@,
                    opening_without_args@,
                    closing_tag@,
                    0,
                ) is None,
            },
            depth <= off,
        decreases rest@.len(),
    {
        let ghost rv = rest@;
        proof {
            lemma_find_sub(rv, ow@);
            lemma_find_sub(rv, owo@);
            lemma_find_sub(rv, ct@);
        }
        let no_w = find_sub_exec(&rest, &ow);
        let no_wo = find_sub_exec(&rest, &owo);
        let no = match (no_w, no_wo) {
            (Some(x), Some(y)) => Some(
                if x <= y {
                    x
                } else {
                    y
                },
            ),
            (Some(x), None) => Some(x),
            (None, Some(y)) => Some(y),
            (None, None) => None,
        };
        let nc = find_sub_exec(&rest, &ct);
        match (no, nc) {
            (Some(op), Some(cl)) if op < cl => {
                let rn = rest.len();
                let adv = if no_w == Some(op) {
                    proof {
                        assert(op + ow@.len() <= rn);
                    }
                    ow.len()
                } else {
                    proof {
                        assert(op + owo@.len() <= rn);
                    }
                    owo.len()
                };
                let new_rest = crate::dates::tail_chars(&rest, op + adv);
                proof {
                    assert(new_rest@ =~= rv.skip(op + adv));
                }
                depth = depth + 1;
                off = off + op + adv;
                rest = new_rest;
            },
            (_, Some(cl)) => {
                let rn = rest.len();
                proof {
                    assert(cl + ct@.len() <= rn);
                }
                if depth == 0 {
                    return Some(off + cl);
                }
                let new_rest = crate::dates::tail_chars(&rest, cl + ct.len());
                proof {
                    assert(new_rest@ =~= rv.skip(cl + ct@.len()));
                }
                depth = depth - 1;
                off = off + cl + ct.len();
                rest = new_rest;
            },
            (_, None) => {
                return None;
            },
        }
    }
}

} // verus!
