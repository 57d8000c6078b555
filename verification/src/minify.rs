//! Asset minification: the whitespace-and-comment strippers applied to
//! stylesheet and script files before they are written out.

use vstd::prelude::*;
use crate::strutil::{chars_vec, chars_to_string};
use crate::excerpt::{trim_ws, trim_ws_chars_pub};

verus! {

/// ASCII whitespace: space, tab, newline, form feed, carriage return.
pub open spec fn is_ascii_ws(c: char) -> bool {
    c == ' ' || c == '\t' || c == '\n' || c == '\r' || (c as u32) == 12
}

/// Executable ASCII whitespace test.
fn ascii_ws_exec(c: char) -> (b: bool)
    ensures
        b == is_ascii_ws(c),
{
    c == ' ' || c == '\t' || c == '\n' || c == '\r' || (c as u32) == 12
}

/// What a block comment consumes after its opening `/*`: up to and
/// including the first `*/`, or everything when it never closes.
pub open spec fn comment_close(s: Seq<char>) -> nat
    decreases s.len(),
{
    if s.len() < 2 {
        s.len()
    } else if s[0] == '*' && s[1] == '/' {
        2
    } else {
        (1 + comment_close(s.drop_first())) as nat
    }
}

/// The comment consumes no more than the text.
proof fn lemma_comment_close(s: Seq<char>)
    ensures
        comment_close(s) <= s.len(),
    decreases s.len(),
{
    if s.len() >= 2 && !(s[0] == '*' && s[1] == '/') {
        lemma_comment_close(s.drop_first());
    }
}

/// What a quoted run consumes after its opening quote: escapes take their
/// follower verbatim, the matching quote closes, an unterminated run takes
/// the rest.
pub open spec fn quote_span(s: Seq<char>, q: char) -> nat
    decreases s.len(),
{
    if s.len() == 0 {
        0
    } else if s[0] == '\\' && s.len() >= 2 {
        (2 + quote_span(s.skip(2), q)) as nat
    } else if s[0] == q {
        1
    } else {
        (1 + quote_span(s.drop_first(), q)) as nat
    }
}

/// The quoted run consumes no more than the text.
proof fn lemma_quote_span(s: Seq<char>, q: char)
    ensures
        quote_span(s, q) <= s.len(),
    decreases s.len(),
{
    if s.len() == 0 {
    } else if s[0] == '\\' && s.len() >= 2 {
        lemma_quote_span(s.skip(2), q);
    } else if s[0] == q {
    } else {
        lemma_quote_span(s.drop_first(), q);
    }
}

/// Leading ASCII whitespace.
pub open spec fn ws_run(s: Seq<char>) -> nat
    decreases s.len(),
{
    if s.len() == 0 {
        0
    } else if is_ascii_ws(s[0]) {
        (1 + ws_run(s.drop_first())) as nat
    } else {
        0
    }
}

/// The whitespace run fits in the text.
proof fn lemma_ws_run(s: Seq<char>)
    ensures
        ws_run(s) <= s.len(),
    decreases s.len(),
{
    if s.len() > 0 && is_ascii_ws(s[0]) {
        lemma_ws_run(s.drop_first());
    }
}

/// A character after which a stylesheet needs no separating space.
pub open spec fn css_structural(c: char) -> bool {
    c == '{' || c == '}' || c == ':' || c == ';' || c == ','
}

/// A character before which a stylesheet needs no separating space.
pub open spec fn css_next_structural(c: char) -> bool {
    c == '{' || c == '}' || c == ';' || c == ','
}

/// The stylesheet minifier: comments go, quoted strings are kept verbatim,
/// whitespace runs collapse to one space unless a structural character
/// stands on either side, and a semicolon right before a closing brace is
/// dropped.
pub open spec fn css_from(s: Seq<char>, acc: Seq<char>) -> Seq<char>
    decreases s.len(),
    via css_from_decreases
{
    if s.len() == 0 {
        acc
    } else if s.len() >= 2 && s[0] == '/' && s[1] == '*' {
        css_from(s.skip(2 + comment_close(s.skip(2)) as int), acc)
    } else if s[0] == '"' || s[0] == '\'' {
        let w = 1 + quote_span(s.skip(1), s[0]) as int;
        css_from(s.skip(w), acc + s.take(w))
    } else if is_ascii_ws(s[0]) {
        let w = ws_run(s) as int;
        let nxt = if w < s.len() {
            s[w]
        } else {
            ' '
        };
        let acc2 = if acc.len() > 0 && !css_structural(acc.last()) && !css_next_structural(nxt) {
            acc.push(' ')
        } else {
            acc
        };
        css_from(s.skip(w), acc2)
    } else if s[0] == ';' && s.len() >= 2 && 1 + ws_run(s.skip(1)) < s.len() && s[1 + ws_run(
        s.skip(1),
    ) as int] == '}' {
        css_from(s.drop_first(), acc)
    } else {
        css_from(s.drop_first(), acc.push(s[0]))
    }
}

#[via_fn]
proof fn css_from_decreases(s: Seq<char>, acc: Seq<char>) {
    if s.len() == 0 {
    } else if s.len() >= 2 && s[0] == '/' && s[1] == '*' {
        lemma_comment_close(s.skip(2));
    } else if s[0] == '"' || s[0] == '\'' {
        lemma_quote_span(s.skip(1), s[0]);
    } else if is_ascii_ws(s[0]) {
        lemma_ws_run(s);
        assert(ws_run(s) >= 1);
    }
}

/// The whole minified stylesheet: the machine's output, trimmed.
pub open spec fn spec_minify_css(s: Seq<char>) -> Seq<char> {
    trim_ws(css_from(s, Seq::empty()))
}

/// Scans past a block comment body starting at `from`, returning the
/// position after its close.
fn comment_close_exec(v: &Vec<char>, from: usize) -> (r: usize)
    requires
        from <= v@.len(),
    ensures
        from <= r <= v@.len(),
        r - from == comment_close(v@.skip(from as int)),
{
    proof {
        lemma_comment_close(v@.skip(from as int));
    }
    let n = v.len();
    let mut k = from;
    while k < n && k < n - 1
        invariant
            n == v@.len(),
            from <= k <= n,
            comment_close(v@.skip(from as int)) == (k - from) + comment_close(v@.skip(k as int)),
        decreases n - k,
    {
        let ghost rem = v@.skip(k as int);
        proof {
            assert(rem[0] == v@[k as int]);
            assert(rem[1] == v@[k + 1]);
            assert(rem.drop_first() =~= v@.skip(k + 1));
        }
        if v[k] == '*' && v[k + 1] == '/' {
            return k + 2;
        }
        k = k + 1;
    }
    proof {
        let rem = v@.skip(k as int);
        assert(rem.len() == n - k);
        assert(rem.len() < 2);
        assert(comment_close(rem) == rem.len());
    }
    n
}

/// Scans past a quoted run starting at `from` (just after the opening
/// quote), returning the position after its close.
fn quote_span_exec(v: &Vec<char>, from: usize, q: char) -> (r: usize)
    requires
        from <= v@.len(),
    ensures
        from <= r <= v@.len(),
        r - from == quote_span(v@.skip(from as int), q),
{
    proof {
        lemma_quote_span(v@.skip(from as int), q);
    }
    let n = v.len();
    let mut k = from;
    while k < n
        invariant
            n == v@.len(),
            from <= k <= n,
            quote_span(v@.skip(from as int), q) == (k - from) + quote_span(v@.skip(k as int), q),
        decreases n - k,
    {
        let ghost rem = v@.skip(k as int);
        proof {
            assert(rem[0] == v@[k as int]);
            if rem.len() >= 2 {
                assert(rem[1] == v@[k + 1]);
                assert(rem.skip(2) =~= v@.skip(k + 2));
            }
            assert(rem.drop_first() =~= v@.skip(k + 1));
        }
        let c = v[k];
        if c == '\\' && k + 1 < n {
            k = k + 2;
        } else if c == q {
            return k + 1;
        } else {
            k = k + 1;
        }
    }
    proof {
        assert(v@.skip(n as int) =~= Seq::<char>::empty());
    }
    n
}

/// Scans past ASCII whitespace starting at `from`.
fn ws_run_exec(v: &Vec<char>, from: usize) -> (r: usize)
    requires
        from <= v@.len(),
    ensures
        from <= r <= v@.len(),
        r - from == ws_run(v@.skip(from as int)),
{
    proof {
        lemma_ws_run(v@.skip(from as int));
    }
    let n = v.len();
    let mut k = from;
    while k < n && ascii_ws_exec(v[k])
        invariant
            n == v@.len(),
            from <= k <= n,
            ws_run(v@.skip(from as int)) == (k - from) + ws_run(v@.skip(k as int)),
        decreases n - k,
    {
        proof {
            assert(v@.skip(k as int)[0] == v@[k as int]);
            assert(v@.skip(k as int).drop_first() =~= v@.skip(k + 1));
        }
        k = k + 1;
    }
    proof {
        if k < n {
            assert(v@.skip(k as int)[0] == v@[k as int]);
            assert(ws_run(v@.skip(k as int)) == 0);
        } else {
            assert(v@.skip(n as int) =~= Seq::<char>::empty());
        }
    }
    k
}

/// Copies `v[from..to]` onto `out`.
fn copy_range(v: &Vec<char>, from: usize, to: usize, out: &mut Vec<char>)
    requires
        from <= to <= v@.len(),
    ensures
        final(out)@ == old(out)@ + v@.subrange(from as int, to as int),
{
    let mut k = from;
    proof {
        assert(old(out)@ + v@.subrange(from as int, from as int) =~= old(out)@);
    }
    while k < to
        invariant
            from <= k <= to,
            to <= v@.len(),
            out@ == old(out)@ + v@.subrange(from as int, k as int),
        decreases to - k,
    {
        out.push(v[k]);
        assert(out@ =~= old(out)@ + v@.subrange(from as int, k + 1));
        k = k + 1;
    }
}

/// Minifies a stylesheet: strips comments, collapses whitespace around
/// structural characters, keeps string contents verbatim, and drops a
/// semicolon that directly precedes a closing brace.
#[verifier::rlimit(60)]
pub fn minify_css(source: &str) -> (r: String)
    ensures
        r@ == spec_minify_css(source@),
{
    let v = chars_vec(source);
    let n = v.len();
    let mut out: Vec<char> = Vec::new();
    let mut i: usize = 0;
    proof {
        assert(v@.skip(0) =~= v@);
    }
    while i < n
        invariant
            n == v@.len(),
            v@ == source@,
            i <= n,
            css_from(v@, Seq::empty()) == css_from(v@.skip(i as int), out@),
        decreases n - i,
    {
        let ghost rem = v@.skip(i as int);
        proof {
            assert(rem[0] == v@[i as int]);
            if rem.len() >= 2 {
                assert(rem[1] == v@[i + 1]);
            }
            assert(rem.drop_first() =~= v@.skip(i + 1));
        }
        let c = v[i];
        if i + 1 < n && c == '/' && v[i + 1] == '*' {
            proof {
                assert(rem.skip(2) =~= v@.skip(i + 2));
            }
            let close = comment_close_exec(&v, i + 2);
            proof {
                assert(rem.skip(2 + comment_close(rem.skip(2)) as int) =~= v@.skip(close as int));
            }
            i = close;
        } else if c == '"' || c == '\'' {
            proof {
                assert(rem.skip(1) =~= v@.skip(i + 1));
            }
            let close = quote_span_exec(&v, i + 1, c);
            proof {
                assert(rem.skip(1 + quote_span(rem.skip(1), rem[0]) as int) =~= v@.skip(
                    close as int,
                ));
                assert(rem.take(1 + quote_span(rem.skip(1), rem[0]) as int) =~= v@.subrange(
                    i as int,
                    close as int,
                ));
            }
            copy_range(&v, i, close, &mut out);
            i = close;
        } else if ascii_ws_exec(c) {
            let after = ws_run_exec(&v, i);
            proof {
                assert(rem.skip(ws_run(rem) as int) =~= v@.skip(after as int));
                if after < n {
                    assert(rem[ws_run(rem) as int] == v@[after as int]);
                }
            }
            let nxt = if after < n {
                v[after]
            } else {
                ' '
            };
            if out.len() > 0 {
                let last = out[out.len() - 1];
                let structural = last == '{' || last == '}' || last == ':' || last == ';' || last
                    == ',';
                let next_structural = nxt == '{' || nxt == '}' || nxt == ';' || nxt == ',';
                if !structural && !next_structural {
                    out.push(' ');
                }
            }
            i = after;
        } else if c == ';' && i + 1 < n {
            proof {
                assert(rem.skip(1) =~= v@.skip(i + 1));
            }
            let la = ws_run_exec(&v, i + 1);
            proof {
                if la < n {
                    assert(rem[1 + ws_run(rem.skip(1)) as int] == v@[la as int]);
                }
            }
            if la < n && v[la] == '}' {
                i = i + 1;
            } else {
                out.push(c);
                i = i + 1;
            }
        } else {
            out.push(c);
            i = i + 1;
        }
    }
    proof {
        assert(v@.skip(n as int) =~= Seq::<char>::empty());
    }
    let trimmed = trim_ws_chars_pub(&out);
    chars_to_string(&trimmed)
}

/// What a template literal consumes after its opening backtick: escapes,
/// `${`-interpolations (with their own strings and nested braces), and the
/// closing backtick; an unterminated literal takes the rest.
pub open spec fn template_span(s: Seq<char>) -> nat
    decreases s.len(),
    via template_span_decreases
{
    if s.len() == 0 {
        0
    } else if s[0] == '\\' && s.len() >= 2 {
        (2 + template_span(s.skip(2))) as nat
    } else if s[0] == '$' && s.len() >= 2 && s[1] == '{' {
        let d = dollar_span(s.skip(2), 1) as int;
        (2 + d + template_span(s.skip(2 + d))) as nat
    } else if s[0] == '`' {
        1
    } else {
        (1 + template_span(s.drop_first())) as nat
    }
}

/// What a `${...}` interpolation consumes at `depth` open braces: quoted
/// strings are skipped whole, braces nest, and the balancing brace closes.
pub open spec fn dollar_span(s: Seq<char>, depth: int) -> nat
    decreases s.len(),
    via dollar_span_decreases
{
    if s.len() == 0 || depth <= 0 {
        0
    } else if s[0] == '\\' && s.len() >= 2 {
        (2 + dollar_span(s.skip(2), depth)) as nat
    } else if s[0] == '\'' || s[0] == '"' {
        let q = 1 + quote_span(s.skip(1), s[0]) as int;
        (q + dollar_span(s.skip(q), depth)) as nat
    } else if s[0] == '{' {
        (1 + dollar_span(s.drop_first(), depth + 1)) as nat
    } else if s[0] == '}' {
        if depth == 1 {
            1
        } else {
            (1 + dollar_span(s.drop_first(), depth - 1)) as nat
        }
    } else {
        (1 + dollar_span(s.drop_first(), depth)) as nat
    }
}

#[via_fn]
proof fn dollar_span_decreases(s: Seq<char>, depth: int) {
    if s.len() > 0 && depth > 0 && !(s[0] == '\\' && s.len() >= 2) && (s[0] == '\'' || s[0]
        == '"') {
        lemma_quote_span(s.skip(1), s[0]);
    }
}

/// The interpolation consumes no more than the text.
proof fn lemma_dollar_span(s: Seq<char>, depth: int)
    ensures
        dollar_span(s, depth) <= s.len(),
    decreases s.len(),
{
    if s.len() == 0 || depth <= 0 {
    } else if s[0] == '\\' && s.len() >= 2 {
        lemma_dollar_span(s.skip(2), depth);
    } else if s[0] == '\'' || s[0] == '"' {
        lemma_quote_span(s.skip(1), s[0]);
        let q = 1 + quote_span(s.skip(1), s[0]) as int;
        lemma_dollar_span(s.skip(q), depth);
    } else if s[0] == '{' {
        lemma_dollar_span(s.drop_first(), depth + 1);
    } else if s[0] == '}' {
        if depth != 1 {
            lemma_dollar_span(s.drop_first(), depth - 1);
        }
    } else {
        lemma_dollar_span(s.drop_first(), depth);
    }
}

#[via_fn]
proof fn template_span_decreases(s: Seq<char>) {
    if s.len() > 0 && !(s[0] == '\\' && s.len() >= 2) && s[0] == '$' && s.len() >= 2 && s[1]
        == '{' {
        lemma_dollar_span(s.skip(2), 1);
    }
}

/// The template literal consumes no more than the text.
proof fn lemma_template_span(s: Seq<char>)
    ensures
        template_span(s) <= s.len(),
    decreases s.len(),
{
    if s.len() == 0 {
    } else if s[0] == '\\' && s.len() >= 2 {
        lemma_template_span(s.skip(2));
    } else if s[0] == '$' && s.len() >= 2 && s[1] == '{' {
        lemma_dollar_span(s.skip(2), 1);
        let d = dollar_span(s.skip(2), 1) as int;
        lemma_template_span(s.skip(2 + d));
    } else if s[0] == '`' {
    } else {
        lemma_template_span(s.drop_first());
    }
}

/// What a character class consumes after its opening bracket: escapes, the
/// closing bracket, or the rest when unterminated.
pub open spec fn class_span(s: Seq<char>) -> nat
    decreases s.len(),
{
    if s.len() == 0 {
        0
    } else if s[0] == '\\' && s.len() >= 2 {
        (2 + class_span(s.skip(2))) as nat
    } else if s[0] == ']' {
        1
    } else {
        (1 + class_span(s.drop_first())) as nat
    }
}

/// The class consumes no more than the text.
proof fn lemma_class_span(s: Seq<char>)
    ensures
        class_span(s) <= s.len(),
    decreases s.len(),
{
    if s.len() == 0 {
    } else if s[0] == '\\' && s.len() >= 2 {
        lemma_class_span(s.skip(2));
    } else if s[0] == ']' {
    } else {
        lemma_class_span(s.drop_first());
    }
}

/// An ASCII alphanumeric character.
pub open spec fn is_ascii_alnum(c: char) -> bool {
    (48 <= (c as u32) <= 57) || (97 <= (c as u32) <= 122) || (65 <= (c as u32) <= 90)
}

/// Trailing regex flags: the ASCII alphanumerics after the closing slash.
pub open spec fn flags_len(s: Seq<char>) -> nat
    decreases s.len(),
{
    if s.len() == 0 {
        0
    } else if is_ascii_alnum(s[0]) {
        (1 + flags_len(s.drop_first())) as nat
    } else {
        0
    }
}

/// The flags fit in the text.
proof fn lemma_flags_len(s: Seq<char>)
    ensures
        flags_len(s) <= s.len(),
    decreases s.len(),
{
    if s.len() > 0 && is_ascii_alnum(s[0]) {
        lemma_flags_len(s.drop_first());
    }
}

/// What a regular expression literal consumes after its opening slash:
/// escapes, bracketed classes, the closing slash with its flags, or the
/// rest when unterminated.
pub open spec fn regex_span(s: Seq<char>) -> nat
    decreases s.len(),
    via regex_span_decreases
{
    if s.len() == 0 {
        0
    } else if s[0] == '\\' && s.len() >= 2 {
        (2 + regex_span(s.skip(2))) as nat
    } else if s[0] == '/' {
        (1 + flags_len(s.skip(1))) as nat
    } else if s[0] == '[' {
        let cs = class_span(s.skip(1)) as int;
        (1 + cs + regex_span(s.skip(1 + cs))) as nat
    } else {
        (1 + regex_span(s.drop_first())) as nat
    }
}

#[via_fn]
proof fn regex_span_decreases(s: Seq<char>) {
    if s.len() > 0 && !(s[0] == '\\' && s.len() >= 2) && s[0] != '/' && s[0] == '[' {
        lemma_class_span(s.skip(1));
    }
}

/// The regex consumes no more than the text.
proof fn lemma_regex_span(s: Seq<char>)
    ensures
        regex_span(s) <= s.len(),
    decreases s.len(),
{
    if s.len() == 0 {
    } else if s[0] == '\\' && s.len() >= 2 {
        lemma_regex_span(s.skip(2));
    } else if s[0] == '/' {
        lemma_flags_len(s.skip(1));
    } else if s[0] == '[' {
        lemma_class_span(s.skip(1));
        let cs = class_span(s.skip(1)) as int;
        lemma_regex_span(s.skip(1 + cs));
    } else {
        lemma_regex_span(s.drop_first());
    }
}

/// A character after which a slash opens a regular expression rather than
/// a division.
pub open spec fn is_regex_predecessor(c: char) -> bool {
    c == '=' || c == '(' || c == '[' || c == '!' || c == '&' || c == '|' || c == '?' || c == '{'
        || c == '}' || c == ';' || c == ',' || c == '~' || c == '^' || c == ':' || c == '<' || c
        == '>' || c == '+' || c == '-' || c == '*' || c == '%' || c == '\n' || c == '\r'
}

/// The last character of the output that is not ASCII whitespace.
pub open spec fn last_sig(acc: Seq<char>) -> Option<char>
    decreases acc.len(),
{
    if acc.len() == 0 {
        None
    } else if is_ascii_ws(acc.last()) {
        last_sig(acc.drop_last())
    } else {
        Some(acc.last())
    }
}

/// Trailing ASCII whitespace of the output.
pub open spec fn end_ws_run(s: Seq<char>) -> nat
    decreases s.len(),
{
    if s.len() == 0 {
        0
    } else if is_ascii_ws(s.last()) {
        (1 + end_ws_run(s.drop_last())) as nat
    } else {
        0
    }
}

/// The trailing run fits in the text.
proof fn lemma_end_ws_run(s: Seq<char>)
    ensures
        end_ws_run(s) <= s.len(),
    decreases s.len(),
{
    if s.len() > 0 && is_ascii_ws(s.last()) {
        lemma_end_ws_run(s.drop_last());
    }
}

/// The output with trailing ASCII whitespace removed.
pub open spec fn trim_end_ascii(s: Seq<char>) -> Seq<char> {
    s.take(s.len() - end_ws_run(s))
}

/// An identifier character, which must not precede a keyword for it to
/// count as one.
pub open spec fn is_ident_char(c: char) -> bool {
    is_ascii_alnum(c) || c == '_' || c == '$'
}

/// The trimmed output ends in `kw` standing on its own.
pub open spec fn kw_ok(t: Seq<char>, kw: Seq<char>) -> bool {
    t.len() >= kw.len() && t.subrange(t.len() - kw.len(), t.len() as int) == kw && (t.len()
        == kw.len() || !is_ident_char(t[t.len() - kw.len() - 1]))
}

/// The output ends in a keyword after which a slash opens a regular
/// expression.
pub open spec fn ends_with_regex_keyword(acc: Seq<char>) -> bool {
    let t = trim_end_ascii(acc);
    kw_ok(t, "return"@) || kw_ok(t, "typeof"@) || kw_ok(t, "instanceof"@) || kw_ok(t, "in"@)
        || kw_ok(t, "delete"@) || kw_ok(t, "void"@) || kw_ok(t, "throw"@) || kw_ok(t, "new"@)
        || kw_ok(t, "case"@) || kw_ok(t, "yield"@) || kw_ok(t, "await"@)
}

/// Whether a slash here opens a regular expression, judged from the output
/// so far.
pub open spec fn regex_allowed(acc: Seq<char>) -> bool {
    (match last_sig(acc) {
        None => true,
        Some(c) => is_regex_predecessor(c),
    }) || ends_with_regex_keyword(acc)
}

/// Whether the run holds a newline.
pub open spec fn has_newline(s: Seq<char>) -> bool {
    exists|j: int| 0 <= j < s.len() && (s[j] == '\n' || #[trigger] s[j] == '\r')
}

/// Characters of a line comment body before its newline.
pub open spec fn line_len(s: Seq<char>) -> nat
    decreases s.len(),
{
    if s.len() == 0 {
        0
    } else if s[0] == '\n' {
        0
    } else {
        (1 + line_len(s.drop_first())) as nat
    }
}

/// The line fits in the text.
proof fn lemma_line_len(s: Seq<char>)
    ensures
        line_len(s) <= s.len(),
        line_len(s) < s.len() ==> s[line_len(s) as int] == '\n',
    decreases s.len(),
{
    if s.len() > 0 && s[0] != '\n' {
        lemma_line_len(s.drop_first());
    }
}

/// The script minifier: strings, template literals and regular expression
/// literals are kept verbatim, comments go (a line comment keeps its
/// newline), and whitespace runs collapse to one space, or one newline
/// when the run held one.
pub open spec fn js_from(s: Seq<char>, acc: Seq<char>) -> Seq<char>
    decreases s.len(),
    via js_from_decreases
{
    if s.len() == 0 {
        acc
    } else if s[0] == '\'' || s[0] == '"' {
        let w = 1 + quote_span(s.skip(1), s[0]) as int;
        js_from(s.skip(w), acc + s.take(w))
    } else if s[0] == '`' {
        let w = 1 + template_span(s.skip(1)) as int;
        js_from(s.skip(w), acc + s.take(w))
    } else if s[0] == '/' && s.len() >= 2 && s[1] != '/' && s[1] != '*' && regex_allowed(acc) {
        let w = 1 + regex_span(s.skip(1)) as int;
        js_from(s.skip(w), acc + s.take(w))
    } else if s.len() >= 2 && s[0] == '/' && s[1] == '/' {
        let c = line_len(s.skip(2)) as int;
        if 2 + c < s.len() {
            js_from(s.skip(2 + c + 1), acc.push('\n'))
        } else {
            js_from(s.skip(2 + c), acc)
        }
    } else if s.len() >= 2 && s[0] == '/' && s[1] == '*' {
        js_from(s.skip(2 + comment_close(s.skip(2)) as int), acc)
    } else if is_ascii_ws(s[0]) {
        let w = ws_run(s) as int;
        let acc2 = if acc.len() > 0 && acc.last() != ' ' && acc.last() != '\n' {
            acc.push(
                if has_newline(s.take(w)) {
                    '\n'
                } else {
                    ' '
                },
            )
        } else {
            acc
        };
        js_from(s.skip(w), acc2)
    } else {
        js_from(s.drop_first(), acc.push(s[0]))
    }
}

#[via_fn]
proof fn js_from_decreases(s: Seq<char>, acc: Seq<char>) {
    if s.len() == 0 {
    } else if s[0] == '\'' || s[0] == '"' {
        lemma_quote_span(s.skip(1), s[0]);
    } else if s[0] == '`' {
        lemma_template_span(s.skip(1));
    } else if s[0] == '/' && s.len() >= 2 && s[1] != '/' && s[1] != '*' && regex_allowed(acc) {
        lemma_regex_span(s.skip(1));
    } else if s.len() >= 2 && s[0] == '/' && s[1] == '/' {
        lemma_line_len(s.skip(2));
    } else if s.len() >= 2 && s[0] == '/' && s[1] == '*' {
        lemma_comment_close(s.skip(2));
    } else if is_ascii_ws(s[0]) {
        lemma_ws_run(s);
        assert(ws_run(s) >= 1);
    }
}

/// The whole minified script: the machine's output, trimmed.
pub open spec fn spec_minify_js(s: Seq<char>) -> Seq<char> {
    trim_ws(js_from(s, Seq::empty()))
}

/// Scans past a template literal starting at `from` (after the backtick).
fn template_span_exec(v: &Vec<char>, from: usize) -> (r: usize)
    requires
        from <= v@.len(),
    ensures
        from <= r <= v@.len(),
        r - from == template_span(v@.skip(from as int)),
{
    proof {
        lemma_template_span(v@.skip(from as int));
    }
    let n = v.len();
    let mut k = from;
    while k < n
        invariant
            n == v@.len(),
            from <= k <= n,
            template_span(v@.skip(from as int)) == (k - from) + template_span(v@.skip(k as int)),
        decreases n - k,
    {
        let ghost rem = v@.skip(k as int);
        proof {
            lemma_template_span(rem);
            assert(rem[0] == v@[k as int]);
            if rem.len() >= 2 {
                assert(rem[1] == v@[k + 1]);
                assert(rem.skip(2) =~= v@.skip(k + 2));
            }
            assert(rem.drop_first() =~= v@.skip(k + 1));
        }
        let c = v[k];
        if c == '\\' && k + 1 < n {
            k = k + 2;
        } else if c == '$' && k + 1 < n && v[k + 1] == '{' {
            let d = dollar_span_exec(v, k + 2);
            proof {
                assert(rem.skip(2).skip((d - (k + 2)) as int) =~= v@.skip(d as int));
                assert(rem.skip(2 + dollar_span(rem.skip(2), 1) as int) =~= v@.skip(d as int));
            }
            k = d;
        } else if c == '`' {
            return k + 1;
        } else {
            k = k + 1;
        }
    }
    proof {
        assert(v@.skip(n as int) =~= Seq::<char>::empty());
    }
    n
}

/// Scans past a `${...}` interpolation starting at `from` (after the
/// opening `${`), returning the position after its balancing brace.
fn dollar_span_exec(v: &Vec<char>, from: usize) -> (r: usize)
    requires
        from <= v@.len(),
    ensures
        from <= r <= v@.len(),
        r - from == dollar_span(v@.skip(from as int), 1),
{
    proof {
        lemma_dollar_span(v@.skip(from as int), 1);
    }
    let n = v.len();
    let mut k = from;
    let mut depth: u128 = 1;
    while k < n && depth > 0
        invariant
            n == v@.len(),
            from <= k <= n,
            dollar_span(v@.skip(from as int), 1) == (k - from) + dollar_span(
                v@.skip(k as int),
                depth as int,
            ),
            depth <= 1 + (k - from),
        decreases n - k,
    {
        let ghost rem = v@.skip(k as int);
        proof {
            lemma_dollar_span(rem, depth as int);
            assert(rem[0] == v@[k as int]);
            if rem.len() >= 2 {
                assert(rem[1] == v@[k + 1]);
                assert(rem.skip(2) =~= v@.skip(k + 2));
            }
            assert(rem.drop_first() =~= v@.skip(k + 1));
        }
        let c = v[k];
        if c == '\\' && k + 1 < n {
            k = k + 2;
        } else if c == '\'' || c == '"' {
            let close = quote_span_exec(v, k + 1, c);
            proof {
                assert(rem.skip(1) =~= v@.skip(k + 1));
                assert(rem.skip(1 + quote_span(rem.skip(1), rem[0]) as int) =~= v@.skip(
                    close as int,
                ));
            }
            k = close;
        } else if c == '{' {
            depth = depth + 1;
            k = k + 1;
        } else if c == '}' {
            if depth == 1 {
                return k + 1;
            }
            depth = depth - 1;
            k = k + 1;
        } else {
            k = k + 1;
        }
        proof {
            lemma_dollar_span(v@.skip(k as int), depth as int);
        }
    }
    proof {
        if k == n {
            assert(v@.skip(n as int) =~= Seq::<char>::empty());
        }
        assert(dollar_span(v@.skip(k as int), depth as int) == 0);
    }
    k
}

/// Scans past a character class starting at `from` (after the bracket).
fn class_span_exec(v: &Vec<char>, from: usize) -> (r: usize)
    requires
        from <= v@.len(),
    ensures
        from <= r <= v@.len(),
        r - from == class_span(v@.skip(from as int)),
{
    proof {
        lemma_class_span(v@.skip(from as int));
    }
    let n = v.len();
    let mut k = from;
    while k < n
        invariant
            n == v@.len(),
            from <= k <= n,
            class_span(v@.skip(from as int)) == (k - from) + class_span(v@.skip(k as int)),
        decreases n - k,
    {
        let ghost rem = v@.skip(k as int);
        proof {
            assert(rem[0] == v@[k as int]);
            if rem.len() >= 2 {
                assert(rem[1] == v@[k + 1]);
                assert(rem.skip(2) =~= v@.skip(k + 2));
            }
            assert(rem.drop_first() =~= v@.skip(k + 1));
        }
        let c = v[k];
        if c == '\\' && k + 1 < n {
            k = k + 2;
        } else if c == ']' {
            return k + 1;
        } else {
            k = k + 1;
        }
    }
    proof {
        assert(v@.skip(n as int) =~= Seq::<char>::empty());
    }
    n
}

/// Whether `c` is ASCII alphanumeric.
fn ascii_alnum_exec(c: char) -> (b: bool)
    ensures
        b == is_ascii_alnum(c),
{
    let u = c as u32;
    (48 <= u && u <= 57) || (97 <= u && u <= 122) || (65 <= u && u <= 90)
}

/// Scans past a regular expression literal starting at `from` (after the
/// opening slash).
fn regex_span_exec(v: &Vec<char>, from: usize) -> (r: usize)
    requires
        from <= v@.len(),
    ensures
        from <= r <= v@.len(),
        r - from == regex_span(v@.skip(from as int)),
{
    proof {
        lemma_regex_span(v@.skip(from as int));
    }
    let n = v.len();
    let mut k = from;
    while k < n
        invariant
            n == v@.len(),
            from <= k <= n,
            regex_span(v@.skip(from as int)) == (k - from) + regex_span(v@.skip(k as int)),
        decreases n - k,
    {
        let ghost rem = v@.skip(k as int);
        proof {
            lemma_regex_span(rem);
            assert(rem[0] == v@[k as int]);
            if rem.len() >= 2 {
                assert(rem[1] == v@[k + 1]);
                assert(rem.skip(2) =~= v@.skip(k + 2));
            }
            assert(rem.drop_first() =~= v@.skip(k + 1));
        }
        let c = v[k];
        if c == '\\' && k + 1 < n {
            k = k + 2;
        } else if c == '/' {
            // flags
            let mut f = k + 1;
            proof {
                assert(rem.skip(1) =~= v@.skip(k + 1));
                lemma_flags_len(v@.skip(k + 1));
            }
            while f < n && ascii_alnum_exec(v[f])
                invariant
                    n == v@.len(),
                    k + 1 <= f <= n,
                    flags_len(v@.skip(k + 1)) == (f - (k + 1)) + flags_len(v@.skip(f as int)),
                decreases n - f,
            {
                proof {
                    assert(v@.skip(f as int)[0] == v@[f as int]);
                    assert(v@.skip(f as int).drop_first() =~= v@.skip(f + 1));
                }
                f = f + 1;
            }
            proof {
                if f < n {
                    assert(v@.skip(f as int)[0] == v@[f as int]);
                    assert(flags_len(v@.skip(f as int)) == 0);
                } else {
                    assert(v@.skip(n as int) =~= Seq::<char>::empty());
                }
            }
            return f;
        } else if c == '[' {
            let close = class_span_exec(v, k + 1);
            proof {
                assert(rem.skip(1) =~= v@.skip(k + 1));
                assert(rem.skip(1 + class_span(rem.skip(1)) as int) =~= v@.skip(close as int));
            }
            k = close;
        } else {
            k = k + 1;
        }
    }
    proof {
        assert(v@.skip(n as int) =~= Seq::<char>::empty());
    }
    n
}

/// Scans the whitespace run from `from`, reporting whether it held a
/// newline.
fn ws_run_nl_exec(v: &Vec<char>, from: usize) -> (r: (usize, bool))
    requires
        from <= v@.len(),
    ensures
        from <= r.0 <= v@.len(),
        r.0 - from == ws_run(v@.skip(from as int)),
        r.1 == has_newline(v@.skip(from as int).take((r.0 - from) as int)),
{
    proof {
        lemma_ws_run(v@.skip(from as int));
    }
    let n = v.len();
    let mut k = from;
    let mut saw_nl = false;
    while k < n && ascii_ws_exec(v[k])
        invariant
            n == v@.len(),
            from <= k <= n,
            ws_run(v@.skip(from as int)) == (k - from) + ws_run(v@.skip(k as int)),
            saw_nl == has_newline(v@.subrange(from as int, k as int)),
        decreases n - k,
    {
        proof {
            assert(v@.skip(k as int)[0] == v@[k as int]);
            assert(v@.skip(k as int).drop_first() =~= v@.skip(k + 1));
        }
        if v[k] == '\n' || v[k] == '\r' {
            saw_nl = true;
        }
        proof {
            let cur = v@.subrange(from as int, k + 1);
            assert(cur[k - from] == v@[k as int]);
            assert(forall|j: int| 0 <= j < k - from ==> cur[j] == v@.subrange(
                from as int,
                k as int,
            )[j]);
            if v@[k as int] == '\n' || v@[k as int] == '\r' {
                assert(has_newline(cur));
            } else {
                if has_newline(cur) {
                    let j = choose|j: int|
                        0 <= j < cur.len() && (cur[j] == '\n' || #[trigger] cur[j] == '\r');
                    if j < k - from {
                        assert(v@.subrange(from as int, k as int)[j] == cur[j]);
                        assert(has_newline(v@.subrange(from as int, k as int)));
                    }
                }
            }
        }
        k = k + 1;
    }
    proof {
        if k < n {
            assert(v@.skip(k as int)[0] == v@[k as int]);
            assert(ws_run(v@.skip(k as int)) == 0);
        } else {
            assert(v@.skip(n as int) =~= Seq::<char>::empty());
        }
        assert(v@.skip(from as int).take((k - from) as int) =~= v@.subrange(
            from as int,
            k as int,
        ));
    }
    (k, saw_nl)
}

/// Whether `t` ends in `kw` standing on its own.
fn kw_ok_exec(t: &Vec<char>, kw: &Vec<char>) -> (b: bool)
    ensures
        b == kw_ok(t@, kw@),
{
    let tn = t.len();
    let m = kw.len();
    if tn < m {
        return false;
    }
    if !crate::strutil::matches_at(t, tn - m, kw) {
        return false;
    }
    proof {
        assert(t@.subrange((tn - m) as int, tn as int) == kw@);
    }
    if tn == m {
        return true;
    }
    let before = t[tn - m - 1];
    let u = before as u32;
    let ident = (48 <= u && u <= 57) || (97 <= u && u <= 122) || (65 <= u && u <= 90) || before
        == '_' || before == '$';
    !ident
}

/// Whether a slash in the source would open a regular expression, judged
/// from the output built so far.
fn regex_allowed_exec(out: &Vec<char>) -> (b: bool)
    ensures
        b == regex_allowed(out@),
{
    // last significant character
    let n = out.len();
    let mut k = n;
    proof {
        assert(out@.take(n as int) =~= out@);
    }
    while k > 0 && ascii_ws_exec(out[k - 1])
        invariant
            n == out@.len(),
            k <= n,
            last_sig(out@) == last_sig(out@.take(k as int)),
        decreases k,
    {
        proof {
            let cur = out@.take(k as int);
            assert(cur.last() == out@[k - 1]);
            assert(cur.drop_last() =~= out@.take(k - 1));
        }
        k = k - 1;
    }
    let pred_ok = if k == 0 {
        proof {
            assert(out@.take(0) =~= Seq::<char>::empty());
            assert(last_sig(out@) is None);
        }
        true
    } else {
        proof {
            let cur = out@.take(k as int);
            assert(cur.last() == out@[k - 1]);
            assert(!is_ascii_ws(cur.last()));
            assert(last_sig(out@) == Some(out@[k - 1]));
        }
        let c = out[k - 1];
        c == '=' || c == '(' || c == '[' || c == '!' || c == '&' || c == '|' || c == '?' || c
            == '{' || c == '}' || c == ';' || c == ',' || c == '~' || c == '^' || c == ':' || c
            == '<' || c == '>' || c == '+' || c == '-' || c == '*' || c == '%' || c == '\n' || c
            == '\r'
    };
    if pred_ok {
        return true;
    }
    // trailing keyword
    proof {
        lemma_end_ws_run(out@);
    }
    let mut e = n;
    proof {
        assert(out@.take(n as int) =~= out@);
    }
    while e > 0 && ascii_ws_exec(out[e - 1])
        invariant
            n == out@.len(),
            e <= n,
            end_ws_run(out@) == (n - e) + end_ws_run(out@.take(e as int)),
        decreases e,
    {
        proof {
            let cur = out@.take(e as int);
            assert(cur.last() == out@[e - 1]);
            assert(cur.drop_last() =~= out@.take(e - 1));
        }
        e = e - 1;
    }
    proof {
        if e > 0 {
            let cur = out@.take(e as int);
            assert(cur.last() == out@[e - 1]);
            assert(end_ws_run(cur) == 0);
        } else {
            assert(out@.take(0) =~= Seq::<char>::empty());
        }
        assert(n - e == end_ws_run(out@));
        assert(out@.take(e as int) =~= trim_end_ascii(out@));
    }
    let t = crate::dates::head_chars(out, e);
    kw_ok_exec(&t, &chars_vec("return")) || kw_ok_exec(&t, &chars_vec("typeof")) || kw_ok_exec(
        &t,
        &chars_vec("instanceof"),
    ) || kw_ok_exec(&t, &chars_vec("in")) || kw_ok_exec(&t, &chars_vec("delete")) || kw_ok_exec(
        &t,
        &chars_vec("void"),
    ) || kw_ok_exec(&t, &chars_vec("throw")) || kw_ok_exec(&t, &chars_vec("new")) || kw_ok_exec(
        &t,
        &chars_vec("case"),
    ) || kw_ok_exec(&t, &chars_vec("yield")) || kw_ok_exec(&t, &chars_vec("await"))
}

/// Minifies a script: comments go, whitespace collapses (a run with a
/// newline keeps one), and string, template and regular expression
/// literals are kept verbatim.
#[verifier::rlimit(60)]
pub fn minify_js(source: &str) -> (r: String)
    ensures
        r@ == spec_minify_js(source@),
{
    let v = chars_vec(source);
    let n = v.len();
    let mut out: Vec<char> = Vec::new();
    let mut i: usize = 0;
    proof {
        assert(v@.skip(0) =~= v@);
    }
    while i < n
        invariant
            n == v@.len(),
            v@ == source@,
            i <= n,
            js_from(v@, Seq::empty()) == js_from(v@.skip(i as int), out@),
        decreases n - i,
    {
        let ghost rem = v@.skip(i as int);
        proof {
            assert(rem[0] == v@[i as int]);
            if rem.len() >= 2 {
                assert(rem[1] == v@[i + 1]);
            }
            assert(rem.drop_first() =~= v@.skip(i + 1));
        }
        let c = v[i];
        if c == '\'' || c == '"' {
            proof {
                assert(rem.skip(1) =~= v@.skip(i + 1));
            }
            let close = quote_span_exec(&v, i + 1, c);
            proof {
                assert(rem.skip(1 + quote_span(rem.skip(1), rem[0]) as int) =~= v@.skip(
                    close as int,
                ));
                assert(rem.take(1 + quote_span(rem.skip(1), rem[0]) as int) =~= v@.subrange(
                    i as int,
                    close as int,
                ));
            }
            copy_range(&v, i, close, &mut out);
            i = close;
        } else if c == '`' {
            proof {
                assert(rem.skip(1) =~= v@.skip(i + 1));
            }
            let close = template_span_exec(&v, i + 1);
            proof {
                assert(rem.skip(1 + template_span(rem.skip(1)) as int) =~= v@.skip(close as int));
                assert(rem.take(1 + template_span(rem.skip(1)) as int) =~= v@.subrange(
                    i as int,
                    close as int,
                ));
            }
            copy_range(&v, i, close, &mut out);
            i = close;
        } else if c == '/' && i + 1 < n && v[i + 1] != '/' && v[i + 1] != '*' && regex_allowed_exec(
            &out,
        ) {
            proof {
                assert(rem.skip(1) =~= v@.skip(i + 1));
            }
            let close = regex_span_exec(&v, i + 1);
            proof {
                assert(rem.skip(1 + regex_span(rem.skip(1)) as int) =~= v@.skip(close as int));
                assert(rem.take(1 + regex_span(rem.skip(1)) as int) =~= v@.subrange(
                    i as int,
                    close as int,
                ));
            }
            copy_range(&v, i, close, &mut out);
            i = close;
        } else if i + 1 < n && c == '/' && v[i + 1] == '/' {
            proof {
                assert(rem.skip(2) =~= v@.skip(i + 2));
                lemma_line_len(v@.skip(i + 2));
            }
            let mut k = i + 2;
            while k < n && v[k] != '\n'
                invariant
                    n == v@.len(),
                    i + 2 <= k <= n,
                    line_len(v@.skip(i + 2)) == (k - (i + 2)) + line_len(v@.skip(k as int)),
                decreases n - k,
            {
                proof {
                    assert(v@.skip(k as int)[0] == v@[k as int]);
                    assert(v@.skip(k as int).drop_first() =~= v@.skip(k + 1));
                }
                k = k + 1;
            }
            proof {
                if k < n {
                    assert(v@.skip(k as int)[0] == v@[k as int]);
                    assert(line_len(v@.skip(k as int)) == 0);
                } else {
                    assert(v@.skip(n as int) =~= Seq::<char>::empty());
                }
                assert(k - (i + 2) == line_len(rem.skip(2)));
            }
            if k < n {
                out.push('\n');
                proof {
                    assert(rem.skip(2 + line_len(rem.skip(2)) as int + 1) =~= v@.skip(k + 1));
                }
                i = k + 1;
            } else {
                proof {
                    assert(rem.skip(2 + line_len(rem.skip(2)) as int) =~= v@.skip(k as int));
                }
                i = k;
            }
        } else if i + 1 < n && c == '/' && v[i + 1] == '*' {
            proof {
                assert(rem.skip(2) =~= v@.skip(i + 2));
            }
            let close = comment_close_exec(&v, i + 2);
            proof {
                assert(rem.skip(2 + comment_close(rem.skip(2)) as int) =~= v@.skip(close as int));
            }
            i = close;
        } else if ascii_ws_exec(c) {
            let (after, saw_nl) = ws_run_nl_exec(&v, i);
            proof {
                assert(rem.skip(ws_run(rem) as int) =~= v@.skip(after as int));
                assert(rem.take(ws_run(rem) as int) =~= v@.skip(i as int).take(
                    (after - i) as int,
                ));
            }
            if out.len() > 0 {
                let last = out[out.len() - 1];
                if last != ' ' && last != '\n' {
                    if saw_nl {
                        out.push('\n');
                    } else {
                        out.push(' ');
                    }
                }
            }
            i = after;
        } else {
            out.push(c);
            i = i + 1;
        }
    }
    proof {
        assert(v@.skip(n as int) =~= Seq::<char>::empty());
    }
    let trimmed = trim_ws_chars_pub(&out);
    chars_to_string(&trimmed)
}

} // verus!
