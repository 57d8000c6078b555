//! Escaping for generated text: TOML string literals, glob patterns,
//! URL attribute text, and the build-error overlay page.

use vstd::prelude::*;
use crate::strutil::{chars_vec, chars_to_string, push_all};

verus! {

/// The upper-case hex character of a value below sixteen.
pub open spec fn hex_char_upper(d: int) -> char {
    if d == 0 {
        '0'
    } else if d == 1 {
        '1'
    } else if d == 2 {
        '2'
    } else if d == 3 {
        '3'
    } else if d == 4 {
        '4'
    } else if d == 5 {
        '5'
    } else if d == 6 {
        '6'
    } else if d == 7 {
        '7'
    } else if d == 8 {
        '8'
    } else if d == 9 {
        '9'
    } else if d == 10 {
        'A'
    } else if d == 11 {
        'B'
    } else if d == 12 {
        'C'
    } else if d == 13 {
        'D'
    } else if d == 14 {
        'E'
    } else {
        'F'
    }
}

/// Four upper-case hex digits of a code below `0x10000`.
pub open spec fn hex4_upper(v: int) -> Seq<char> {
    seq![
        hex_char_upper((v / 4096) % 16),
        hex_char_upper((v / 256) % 16),
        hex_char_upper((v / 16) % 16),
        hex_char_upper(v % 16),
    ]
}

/// How one character is written inside a double-quoted TOML string.
pub open spec fn toml_escape_char(c: char) -> Seq<char> {
    if c == '\\' {
        seq!['\\', '\\']
    } else if c == '"' {
        seq!['\\', '"']
    } else if c == '\n' {
        seq!['\\', 'n']
    } else if c == '\r' {
        seq!['\\', 'r']
    } else if c == '\t' {
        seq!['\\', 't']
    } else if (c as u32) == 8 {
        seq!['\\', 'b']
    } else if (c as u32) == 12 {
        seq!['\\', 'f']
    } else if (c as u32) < 32 {
        seq!['\\', 'u'] + hex4_upper(c as u32 as int)
    } else {
        seq![c]
    }
}

/// The TOML-escaped form of a whole string.
pub open spec fn spec_toml_escape(s: Seq<char>) -> Seq<char>
    decreases s.len(),
{
    if s.len() == 0 {
        Seq::empty()
    } else {
        spec_toml_escape(s.drop_last()) + toml_escape_char(s.last())
    }
}

/// The exec upper-case hex digit.
fn hex_upper_exec(d: u32) -> (c: char)
    requires
        d < 16,
    ensures
        c == hex_char_upper(d as int),
{
    if d == 0 {
        '0'
    } else if d == 1 {
        '1'
    } else if d == 2 {
        '2'
    } else if d == 3 {
        '3'
    } else if d == 4 {
        '4'
    } else if d == 5 {
        '5'
    } else if d == 6 {
        '6'
    } else if d == 7 {
        '7'
    } else if d == 8 {
        '8'
    } else if d == 9 {
        '9'
    } else if d == 10 {
        'A'
    } else if d == 11 {
        'B'
    } else if d == 12 {
        'C'
    } else if d == 13 {
        'D'
    } else if d == 14 {
        'E'
    } else {
        'F'
    }
}

/// Escapes a string for inclusion in a double-quoted TOML literal:
/// backslash, quote, the named control escapes, and `\uXXXX` for the other
/// control characters.
pub fn escape_toml_string(input: &str) -> (r: String)
    ensures
        r@ == spec_toml_escape(input@),
{
    let v = chars_vec(input);
    let n = v.len();
    let mut out: Vec<char> = Vec::new();
    let mut i: usize = 0;
    proof {
        assert(v@.subrange(0, 0) =~= Seq::<char>::empty());
    }
    while i < n
        invariant
            n == v@.len(),
            v@ == input@,
            i <= n,
            out@ == spec_toml_escape(v@.subrange(0, i as int)),
        decreases n - i,
    {
        let c = v[i];
        let u = c as u32;
        if c == '\\' {
            out.push('\\');
            out.push('\\');
        } else if c == '"' {
            out.push('\\');
            out.push('"');
        } else if c == '\n' {
            out.push('\\');
            out.push('n');
        } else if c == '\r' {
            out.push('\\');
            out.push('r');
        } else if c == '\t' {
            out.push('\\');
            out.push('t');
        } else if u == 8 {
            out.push('\\');
            out.push('b');
        } else if u == 12 {
            out.push('\\');
            out.push('f');
        } else if u < 32 {
            out.push('\\');
            out.push('u');
            out.push(hex_upper_exec((u / 4096) % 16));
            out.push(hex_upper_exec((u / 256) % 16));
            out.push(hex_upper_exec((u / 16) % 16));
            out.push(hex_upper_exec(u % 16));
        } else {
            out.push(c);
        }
        proof {
            let next = v@.subrange(0, i + 1);
            assert(next.drop_last() =~= v@.subrange(0, i as int));
            assert(next.last() == v@[i as int]);
            assert(out@ =~= spec_toml_escape(next));
        }
        i = i + 1;
    }
    proof {
        assert(v@.subrange(0, n as int) =~= v@);
    }
    chars_to_string(&out)
}

/// How one character is written so a path never opens a glob pattern: the
/// six glob metacharacters are bracketed, everything else stays.
pub open spec fn glob_escape_char(c: char) -> Seq<char> {
    if c == '[' || c == ']' || c == '{' || c == '}' || c == '*' || c == '?' {
        seq!['[', c, ']']
    } else {
        seq![c]
    }
}

/// The glob-escaped form of a whole path.
pub open spec fn spec_glob_escape(s: Seq<char>) -> Seq<char>
    decreases s.len(),
{
    if s.len() == 0 {
        Seq::empty()
    } else {
        spec_glob_escape(s.drop_last()) + glob_escape_char(s.last())
    }
}

/// Escapes glob metacharacters in a path by bracketing them.
pub fn escape_glob_path(path: &str) -> (r: String)
    ensures
        r@ == spec_glob_escape(path@),
{
    let v = chars_vec(path);
    let n = v.len();
    let mut out: Vec<char> = Vec::new();
    let mut i: usize = 0;
    proof {
        assert(v@.subrange(0, 0) =~= Seq::<char>::empty());
    }
    while i < n
        invariant
            n == v@.len(),
            v@ == path@,
            i <= n,
            out@ == spec_glob_escape(v@.subrange(0, i as int)),
        decreases n - i,
    {
        let c = v[i];
        if c == '[' || c == ']' || c == '{' || c == '}' || c == '*' || c == '?' {
            out.push('[');
            out.push(c);
            out.push(']');
        } else {
            out.push(c);
        }
        proof {
            let next = v@.subrange(0, i + 1);
            assert(next.drop_last() =~= v@.subrange(0, i as int));
            assert(next.last() == v@[i as int]);
            assert(out@ =~= spec_glob_escape(next));
        }
        i = i + 1;
    }
    proof {
        assert(v@.subrange(0, n as int) =~= v@);
    }
    chars_to_string(&out)
}

/// Every `/` written as its hex character reference.
pub open spec fn url_escape_char(c: char) -> Seq<char> {
    if c == '/' {
        seq!['&', '#', 'x', '2', 'F', ';']
    } else {
        seq![c]
    }
}

/// The attribute-safe form of a URL: slashes as `&#x2F;`.
pub open spec fn spec_url_escape(s: Seq<char>) -> Seq<char>
    decreases s.len(),
{
    if s.len() == 0 {
        Seq::empty()
    } else {
        spec_url_escape(s.drop_last()) + url_escape_char(s.last())
    }
}

/// Writes a URL's slashes as `&#x2F;` for embedding in HTML attributes.
pub fn html_escape_url(url: &str) -> (r: String)
    ensures
        r@ == spec_url_escape(url@),
{
    let v = chars_vec(url);
    let n = v.len();
    let mut out: Vec<char> = Vec::new();
    let mut i: usize = 0;
    proof {
        assert(v@.subrange(0, 0) =~= Seq::<char>::empty());
    }
    while i < n
        invariant
            n == v@.len(),
            v@ == url@,
            i <= n,
            out@ == spec_url_escape(v@.subrange(0, i as int)),
        decreases n - i,
    {
        let c = v[i];
        if c == '/' {
            out.push('&');
            out.push('#');
            out.push('x');
            out.push('2');
            out.push('F');
            out.push(';');
        } else {
            out.push(c);
        }
        proof {
            let next = v@.subrange(0, i + 1);
            assert(next.drop_last() =~= v@.subrange(0, i as int));
            assert(next.last() == v@[i as int]);
            assert(out@ =~= spec_url_escape(next));
        }
        i = i + 1;
    }
    proof {
        assert(v@.subrange(0, n as int) =~= v@);
    }
    chars_to_string(&out)
}

/// How one character of an error message is written into the overlay page.
pub open spec fn overlay_escape_char(c: char) -> Seq<char> {
    if c == '&' {
        seq!['&', 'a', 'm', 'p', ';']
    } else if c == '<' {
        seq!['&', 'l', 't', ';']
    } else if c == '>' {
        seq!['&', 'g', 't', ';']
    } else if c == '"' {
        seq!['&', 'q', 'u', 'o', 't', ';']
    } else {
        seq![c]
    }
}

/// The overlay-escaped form of a whole message.
pub open spec fn spec_overlay_escape(s: Seq<char>) -> Seq<char>
    decreases s.len(),
{
    if s.len() == 0 {
        Seq::empty()
    } else {
        spec_overlay_escape(s.drop_last()) + overlay_escape_char(s.last())
    }
}

/// The overlay page up to the error message.
pub const OVERLAY_HEAD: &'static str = r#"<!DOCTYPE html>
<html>
<head>
<meta charset="UTF-8">
<title>Build Error</title>
<style>
body {
    margin: 0;
    padding: 0;
    background: #1a1a2e;
    color: #e0e0e0;
    font-family: -apple-system, BlinkMacSystemFont, 'Segoe UI', Roboto, sans-serif;
    display: flex;
    align-items: center;
    justify-content: center;
    min-height: 100vh;
}
.overlay {
    max-width: 800px;
    width: 90%;
    padding: 2rem;
}
.header {
    display: flex;
    align-items: center;
    gap: 0.75rem;
    margin-bottom: 1.5rem;
}
.indicator {
    width: 12px;
    height: 12px;
    background: #e74c3c;
    border-radius: 50%;
    animation: pulse 2s infinite;
}
@keyframes pulse {
    0%, 100% { opacity: 1; }
    50% { opacity: 0.5; }
}
h1 {
    margin: 0;
    font-size: 1.5rem;
    color: #e74c3c;
    font-weight: 600;
}
.error-box {
    background: #16213e;
    border: 1px solid #e74c3c33;
    border-left: 4px solid #e74c3c;
    border-radius: 6px;
    padding: 1.5rem;
    overflow-x: auto;
}
.error-box pre {
    margin: 0;
    font-family: 'JetBrains Mono', 'Fira Code', 'Cascadia Code', monospace;
    font-size: 0.875rem;
    line-height: 1.6;
    white-space: pre-wrap;
    word-break: break-word;
}
.hint {
    margin-top: 1.5rem;
    color: #888;
    font-size: 0.875rem;
}
</style>
</head>
<body>
<div class="overlay">
    <div class="header">
        <div class="indicator"></div>
        <h1>Build Error</h1>
    </div>
    <div class="error-box">
        <pre>"#;

/// The overlay page after the error message.
pub const OVERLAY_TAIL: &'static str = r#"</pre>
    </div>
    <p class="hint">This page will automatically refresh when the error is fixed.</p>
</div>
</body>
</html>
"#;

/// The whole overlay page for a message.
pub open spec fn spec_overlay(msg: Seq<char>) -> Seq<char> {
    OVERLAY_HEAD@ + spec_overlay_escape(msg) + OVERLAY_TAIL@
}

/// Builds the HTML error page the development server substitutes for
/// output while the last rebuild has failed.
pub fn build_error_overlay(error_message: &str) -> (r: String)
    ensures
        r@ == spec_overlay(error_message@),
{
    let head = chars_vec(OVERLAY_HEAD);
    let tail = chars_vec(OVERLAY_TAIL);
    let v = chars_vec(error_message);
    let n = v.len();
    let mut out: Vec<char> = Vec::new();
    push_all(&mut out, &head);
    let mut i: usize = 0;
    proof {
        assert(v@.subrange(0, 0) =~= Seq::<char>::empty());
        assert(out@ =~= OVERLAY_HEAD@ + spec_overlay_escape(v@.subrange(0, 0)));
    }
    while i < n
        invariant
            n == v@.len(),
            v@ == error_message@,
            i <= n,
            out@ == OVERLAY_HEAD@ + spec_overlay_escape(v@.subrange(0, i as int)),
        decreases n - i,
    {
        let c = v[i];
        if c == '&' {
            out.push('&');
            out.push('a');
            out.push('m');
            out.push('p');
            out.push(';');
        } else if c == '<' {
            out.push('&');
            out.push('l');
            out.push('t');
            out.push(';');
        } else if c == '>' {
            out.push('&');
            out.push('g');
            out.push('t');
            out.push(';');
        } else if c == '"' {
            out.push('&');
            out.push('q');
            out.push('u');
            out.push('o');
            out.push('t');
            out.push(';');
        } else {
            out.push(c);
        }
        proof {
            let next = v@.subrange(0, i + 1);
            assert(next.drop_last() =~= v@.subrange(0, i as int));
            assert(next.last() == v@[i as int]);
            assert(out@ =~= OVERLAY_HEAD@ + spec_overlay_escape(next));
        }
        i = i + 1;
    }
    proof {
        assert(v@.subrange(0, n as int) =~= v@);
    }
    push_all(&mut out, &tail);
    chars_to_string(&out)
}

} // verus!
