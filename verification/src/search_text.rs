//! Search index text extraction: stripping HTML down to plain prose and
//! truncating it to the indexed size.

use vstd::prelude::*;
use crate::strutil::{chars_vec, chars_to_string, chars_replace, spec_replace, chars_eq};
use crate::text::is_unicode_ws;
use crate::xml::{spec_decode_numeric, decode_numeric_chars};

verus! {

/// One entry of the search index.
#[derive(Debug, Clone)]
pub struct SearchEntry {
    pub title: String,
    pub url: String,
    pub tags: Vec<String>,
    pub date: String,
    pub excerpt: String,
    pub content: String,
}

/// ASCII lowercase of one character.
pub open spec fn ascii_lower_char(c: char) -> char {
    if 65 <= (c as u32) <= 90 {
        (((c as u32) + 32) as char)
    } else {
        c
    }
}

/// ASCII lowercase of a sequence.
pub open spec fn ascii_lower(s: Seq<char>) -> Seq<char> {
    s.map_values(|c: char| ascii_lower_char(c))
}

/// The tag scanner's state while walking HTML.
pub struct TagState {
    pub inside: bool,
    pub skip: bool,
    pub name: Seq<char>,
    pub collecting: bool,
    pub closing: bool,
}

/// A tag whose content is dropped wholesale. The two names are ASCII, so
/// ASCII case folding decides them exactly.
pub open spec fn is_skipped_tag(name: Seq<char>) -> bool {
    ascii_lower(name) == "script"@ || ascii_lower(name) == "style"@
}

/// One scanner step: `<` opens a tag and starts collecting its name, `>`
/// closes it (entering or leaving skip mode for `script`/`style`), `/`
/// before any name marks a closing tag, whitespace ends name collection,
/// and text outside tags is emitted unless skipped.
pub open spec fn tag_step(st: TagState, c: char) -> (TagState, Seq<char>) {
    if c == '<' {
        (
            TagState {
                inside: true,
                collecting: true,
                closing: false,
                name: Seq::empty(),
                skip: st.skip,
            },
            Seq::empty(),
        )
    } else if c == '>' {
        let skip2 = if !st.closing && is_skipped_tag(st.name) {
            true
        } else if st.closing && is_skipped_tag(st.name) {
            false
        } else {
            st.skip
        };
        (
            TagState { inside: false, collecting: false, skip: skip2, name: st.name, closing: st.closing },
            Seq::empty(),
        )
    } else if c == '/' && st.inside && st.name.len() == 0 {
        (TagState { closing: true, ..st }, Seq::empty())
    } else if (c == ' ' || c == '\t' || c == '\n' || c == '\r') && st.inside {
        (TagState { collecting: false, ..st }, Seq::empty())
    } else if st.inside && st.collecting {
        (TagState { name: st.name.push(c), ..st }, Seq::empty())
    } else if !st.inside && !st.skip {
        (st, seq![c])
    } else {
        (st, Seq::empty())
    }
}

/// The characters the scanner emits for the rest of the input.
pub open spec fn strip_tags_from(s: Seq<char>, st: TagState) -> Seq<char>
    decreases s.len(),
{
    if s.len() == 0 {
        Seq::empty()
    } else {
        tag_step(st, s[0]).1 + strip_tags_from(s.drop_first(), tag_step(st, s[0]).0)
    }
}

/// The scanner's initial state.
pub open spec fn initial_tag_state() -> TagState {
    TagState { inside: false, skip: false, name: Seq::empty(), collecting: false, closing: false }
}

/// Whitespace runs collapsed to single spaces.
pub open spec fn collapse_ws_from(s: Seq<char>, prev_ws: bool) -> Seq<char>
    decreases s.len(),
{
    if s.len() == 0 {
        Seq::empty()
    } else if is_unicode_ws(s[0]) {
        if prev_ws {
            collapse_ws_from(s.drop_first(), true)
        } else {
            seq![' '] + collapse_ws_from(s.drop_first(), true)
        }
    } else {
        seq![s[0]] + collapse_ws_from(s.drop_first(), false)
    }
}

/// At most one leading and one trailing space removed; after collapsing,
/// that is a full trim.
pub open spec fn trim_spaces(s: Seq<char>) -> Seq<char> {
    let a = if s.len() > 0 && s[0] == ' ' {
        s.drop_first()
    } else {
        s
    };
    if a.len() > 0 && a.last() == ' ' {
        a.drop_last()
    } else {
        a
    }
}

/// The five named entities decoded, ampersand last.
pub open spec fn decode_named_entities(s: Seq<char>) -> Seq<char> {
    let lt = spec_replace(s, seq!['&', 'l', 't', ';'], seq!['<']);
    let gt = spec_replace(lt, seq!['&', 'g', 't', ';'], seq!['>']);
    let quot = spec_replace(gt, seq!['&', 'q', 'u', 'o', 't', ';'], seq!['"']);
    let apos = spec_replace(quot, seq!['&', 'a', 'p', 'o', 's', ';'], seq!['\'']);
    spec_replace(apos, seq!['&', 'a', 'm', 'p', ';'], seq!['&'])
}

/// What stripping HTML leaves: tags gone (with `script`/`style` content),
/// entities decoded, whitespace collapsed and trimmed.
pub open spec fn spec_strip_html(s: Seq<char>) -> Seq<char> {
    trim_spaces(
        collapse_ws_from(
            spec_decode_numeric(decode_named_entities(strip_tags_from(s, initial_tag_state()))),
            false,
        ),
    )
}

/// Strips markup from rendered HTML for the search index: tags and
/// `script`/`style` bodies go, entities are decoded, whitespace collapses
/// to single spaces.
#[verifier::rlimit(60)]
pub fn strip_html_tags(html: &str) -> (r: String)
    ensures
        r@ == spec_strip_html(html@),
{
    let v = chars_vec(html);
    let n = v.len();
    // tag scanning
    let mut out: Vec<char> = Vec::new();
    let mut inside = false;
    let mut skip = false;
    let mut name: Vec<char> = Vec::new();
    let mut collecting = false;
    let mut closing = false;
    let mut i: usize = 0;
    let script_l = chars_vec("script");
    let style_l = chars_vec("style");
    proof {
        assert(v@.skip(0) =~= v@);
    }
    while i < n
        invariant
            n == v@.len(),
            i <= n,
            script_l@ == "script"@,
            style_l@ == "style"@,
            strip_tags_from(v@, initial_tag_state()) == out@ + strip_tags_from(
                v@.skip(i as int),
                TagState { inside, skip, name: name@, collecting, closing },
            ),
        decreases n - i,
    {
        let ghost st = TagState { inside, skip, name: name@, collecting, closing };
        let ghost rem = v@.skip(i as int);
        proof {
            assert(rem[0] == v@[i as int]);
            assert(rem.drop_first() =~= v@.skip(i + 1));
        }
        let c = v[i];
        if c == '<' {
            inside = true;
            collecting = true;
            closing = false;
            name = Vec::new();
        } else if c == '>' {
            inside = false;
            collecting = false;
            let mut lowered: Vec<char> = Vec::new();
            let m = name.len();
            let mut k: usize = 0;
            while k < m
                invariant
                    m == name@.len(),
                    k <= m,
                    lowered@ == ascii_lower(name@.subrange(0, k as int)),
                decreases m - k,
            {
                let ch = name[k];
                let u = ch as u32;
                if 65 <= u && u <= 90 {
                    let lc = char_from_ascii(u + 32);
                    lowered.push(lc);
                } else {
                    lowered.push(ch);
                }
                proof {
                    assert(lowered@ =~= ascii_lower(name@.subrange(0, k + 1)));
                }
                k = k + 1;
            }
            proof {
                assert(name@.subrange(0, m as int) =~= name@);
            }
            let skipped_tag = chars_eq(&lowered, &script_l) || chars_eq(&lowered, &style_l);
            if !closing && skipped_tag {
                skip = true;
            } else if closing && skipped_tag {
                skip = false;
            }
        } else if c == '/' && inside && name.len() == 0 {
            closing = true;
        } else if (c == ' ' || c == '\t' || c == '\n' || c == '\r') && inside {
            collecting = false;
        } else if inside && collecting {
            name.push(c);
        } else if !inside && !skip {
            out.push(c);
        }
        proof {
            let stepped = tag_step(st, v@[i as int]);
            assert(TagState { inside, skip, name: name@, collecting, closing } == stepped.0);
            assert(out@ + strip_tags_from(v@.skip(i + 1), stepped.0) =~= strip_tags_from(
                v@,
                initial_tag_state(),
            ));
        }
        i = i + 1;
    }
    proof {
        assert(v@.skip(n as int) =~= Seq::<char>::empty());
        assert(out@ =~= strip_tags_from(v@, initial_tag_state()));
        reveal_strlit("&lt;");
        reveal_strlit("&gt;");
        reveal_strlit("&quot;");
        reveal_strlit("&apos;");
        reveal_strlit("&amp;");
        reveal_strlit("<");
        reveal_strlit(">");
        reveal_strlit("\"");
        reveal_strlit("'");
        reveal_strlit("&");
        assert("&lt;"@ =~= seq!['&', 'l', 't', ';']);
        assert("&gt;"@ =~= seq!['&', 'g', 't', ';']);
        assert("&quot;"@ =~= seq!['&', 'q', 'u', 'o', 't', ';']);
        assert("&apos;"@ =~= seq!['&', 'a', 'p', 'o', 's', ';']);
        assert("&amp;"@ =~= seq!['&', 'a', 'm', 'p', ';']);
        assert("<"@ =~= seq!['<']);
        assert(">"@ =~= seq!['>']);
        assert("\""@ =~= seq!['"']);
        assert("'"@ =~= seq!['\'']);
        assert("&"@ =~= seq!['&']);
    }
    // entity decoding, ampersand last
    let lt = chars_replace(&out, &chars_vec("&lt;"), &chars_vec("<"));
    let gt = chars_replace(&lt, &chars_vec("&gt;"), &chars_vec(">"));
    let quot = chars_replace(&gt, &chars_vec("&quot;"), &chars_vec("\""));
    let apos = chars_replace(&quot, &chars_vec("&apos;"), &chars_vec("'"));
    let named = chars_replace(&apos, &chars_vec("&amp;"), &chars_vec("&"));
    let decoded = decode_numeric_chars(&named);
    // whitespace collapsing
    let dn = decoded.len();
    let mut collapsed: Vec<char> = Vec::new();
    let mut prev_ws = false;
    let mut j: usize = 0;
    proof {
        assert(decoded@.skip(0) =~= decoded@);
    }
    while j < dn
        invariant
            dn == decoded@.len(),
            j <= dn,
            collapse_ws_from(decoded@, false) == collapsed@ + collapse_ws_from(
                decoded@.skip(j as int),
                prev_ws,
            ),
        decreases dn - j,
    {
        let ghost rem = decoded@.skip(j as int);
        proof {
            assert(rem[0] == decoded@[j as int]);
            assert(rem.drop_first() =~= decoded@.skip(j + 1));
        }
        if crate::text::char_is_whitespace_pub(decoded[j]) {
            if !prev_ws {
                collapsed.push(' ');
            }
            prev_ws = true;
        } else {
            collapsed.push(decoded[j]);
            prev_ws = false;
        }
        proof {
            assert(collapse_ws_from(decoded@, false) =~= collapsed@ + collapse_ws_from(
                decoded@.skip(j + 1),
                prev_ws,
            ));
        }
        j = j + 1;
    }
    proof {
        assert(decoded@.skip(dn as int) =~= Seq::<char>::empty());
        assert(collapsed@ =~= collapse_ws_from(decoded@, false));
    }
    // trim the single boundary spaces
    let start: usize = if collapsed.len() > 0 && collapsed[0] == ' ' {
        1
    } else {
        0
    };
    let end: usize = if collapsed.len() > start && collapsed[collapsed.len() - 1] == ' ' {
        collapsed.len() - 1
    } else {
        collapsed.len()
    };
    let mut final_out: Vec<char> = Vec::new();
    let mut t: usize = start;
    proof {
        assert(collapsed@.subrange(start as int, start as int) =~= Seq::<char>::empty());
    }
    while t < end
        invariant
            end <= collapsed@.len(),
            start <= t <= end,
            final_out@ == collapsed@.subrange(start as int, t as int),
        decreases end - t,
    {
        final_out.push(collapsed[t]);
        assert(final_out@ =~= collapsed@.subrange(start as int, t + 1));
        t = t + 1;
    }
    proof {
        let cv = collapsed@;
        let a = if cv.len() > 0 && cv[0] == ' ' {
            cv.drop_first()
        } else {
            cv
        };
        if start == 1 {
            assert(a =~= cv.skip(1));
        }
        if end < collapsed.len() {
            assert(a.drop_last() =~= cv.subrange(start as int, end as int));
            assert(trim_spaces(cv) == a.drop_last());
        } else {
            assert(a =~= cv.subrange(start as int, end as int));
            assert(trim_spaces(cv) == a);
        }
        assert(final_out@ =~= trim_spaces(cv));
    }
    chars_to_string(&final_out)
}

/// ASCII-lowercases a character vector.
pub fn ascii_lower_chars(v: &Vec<char>) -> (r: Vec<char>)
    ensures
        r@ == ascii_lower(v@),
{
    let n = v.len();
    let mut out: Vec<char> = Vec::new();
    let mut i: usize = 0;
    while i < n
        invariant
            n == v@.len(),
            i <= n,
            out@ == ascii_lower(v@.subrange(0, i as int)),
        decreases n - i,
    {
        let c = v[i];
        let u = c as u32;
        if 65 <= u && u <= 90 {
            out.push(char_from_ascii(u + 32));
        } else {
            out.push(c);
        }
        proof {
            assert(out@ =~= ascii_lower(v@.subrange(0, i + 1)));
        }
        i = i + 1;
    }
    proof {
        assert(v@.subrange(0, n as int) =~= v@);
    }
    out
}

/// Relies on `char::from_u32` for an ASCII code: below 128 every code is a
/// scalar value and yields its character.
#[verifier::external_body]
fn char_from_ascii(v: u32) -> (r: char)
    requires
        v < 128,
    ensures
        r == (v as char),
{
    char::from_u32(v).unwrap_or(' ')
}

/// The indexed portion of a text: everything if it fits, else the first
/// `max_chars` characters.
pub open spec fn spec_truncate(s: Seq<char>, max_chars: int) -> Seq<char> {
    if s.len() <= max_chars {
        s
    } else {
        s.take(max_chars)
    }
}

/// Truncates a text to at most `max_chars` characters.
pub fn truncate_content(content: &str, max_chars: usize) -> (r: String)
    ensures
        r@ == spec_truncate(content@, max_chars as int),
{
    let v = chars_vec(content);
    if v.len() <= max_chars {
        let whole = crate::dates::tail_chars(&v, 0);
        proof {
            assert(whole@ =~= v@);
        }
        chars_to_string(&whole)
    } else {
        let cut = crate::dates::head_chars(&v, max_chars);
        chars_to_string(&cut)
    }
}

/// How many characters of a document the search index keeps.
pub const MAX_SEARCH_CONTENT_CHARS: usize = 5000;

/// The indexable text of one rendered document: its HTML stripped to prose
/// and truncated to the index size.
pub fn search_content(html: &str) -> (r: String)
    ensures
        r@ == spec_truncate(spec_strip_html(html@), MAX_SEARCH_CONTENT_CHARS as int),
{
    let stripped = strip_html_tags(html);
    truncate_content(stripped.as_str(), MAX_SEARCH_CONTENT_CHARS)
}

} // verus!
