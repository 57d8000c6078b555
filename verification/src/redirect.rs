//! Redirect page generation: deciding which redirect paths are safe to
//! materialize on disk and building the redirect HTML itself.

use vstd::prelude::*;
use crate::strutil::{chars_vec, chars_to_string, chars_eq, matches_at, push_all};
use crate::search_text::{ascii_lower, ascii_lower_chars};
use crate::xml::{find_char, find_char_exec, lemma_find_char_pub, spec_escape, escape};

verus! {

/// Whether `pat` occurs anywhere in `s`.
pub open spec fn contains_sub(s: Seq<char>, pat: Seq<char>) -> bool {
    exists|i: int| 0 <= i && i + pat.len() <= s.len() && #[trigger] s.subrange(i, i + pat.len()) == pat
}

/// Whether the vector holds the pattern as a substring.
fn chars_contains_sub(v: &Vec<char>, pat: &Vec<char>) -> (r: bool)
    ensures
        r == contains_sub(v@, pat@),
{
    let n = v.len();
    let m = pat.len();
    if m == 0 {
        proof {
            assert(v@.subrange(0, 0 + pat@.len() as int) =~= pat@);
            assert(contains_sub(v@, pat@));
        }
        return true;
    }
    if m > n {
        proof {
            if contains_sub(v@, pat@) {
                let j = choose|j: int|
                    0 <= j && j + pat@.len() <= v@.len() && #[trigger] v@.subrange(
                        j,
                        j + pat@.len(),
                    ) == pat@;
            }
        }
        return false;
    }
    let mut i: usize = 0;
    while i <= n - m
        invariant
            n == v@.len(),
            m == pat@.len(),
            m > 0,
            m <= n,
            i <= n,
            forall|j: int| 0 <= j < i ==> !(j + pat@.len() <= v@.len() && #[trigger] v@.subrange(
                j,
                j + pat@.len(),
            ) == pat@),
        decreases n - i,
    {
        if matches_at(v, i, pat) {
            assert(contains_sub(v@, pat@));
            return true;
        }
        i = i + 1;
    }
    proof {
        if contains_sub(v@, pat@) {
            let j = choose|j: int|
                0 <= j && j + pat@.len() <= v@.len() && #[trigger] v@.subrange(j, j + pat@.len())
                    == pat@;
            assert(j < i);
        }
    }
    false
}

/// The file names Windows reserves for devices, which a redirect path must
/// never contain as a component base. All are ASCII, so ASCII case folding
/// decides membership exactly.
pub open spec fn is_reserved_name(s: Seq<char>) -> bool {
    ||| s == "con"@
    ||| s == "prn"@
    ||| s == "aux"@
    ||| s == "nul"@
    ||| s == "com1"@
    ||| s == "com2"@
    ||| s == "com3"@
    ||| s == "com4"@
    ||| s == "com5"@
    ||| s == "com6"@
    ||| s == "com7"@
    ||| s == "com8"@
    ||| s == "com9"@
    ||| s == "lpt1"@
    ||| s == "lpt2"@
    ||| s == "lpt3"@
    ||| s == "lpt4"@
    ||| s == "lpt5"@
    ||| s == "lpt6"@
    ||| s == "lpt7"@
    ||| s == "lpt8"@
    ||| s == "lpt9"@
}

/// A component's base: what precedes its first dot.
pub open spec fn component_base(seg: Seq<char>) -> Seq<char> {
    match find_char(seg, '.') {
        Some(p) => if 0 <= p <= seg.len() {
            seg.take(p)
        } else {
            seg
        },
        None => seg,
    }
}

/// Whether this single component is reserved.
pub open spec fn reserved_component(seg: Seq<char>) -> bool {
    is_reserved_name(ascii_lower(component_base(seg)))
}

/// Whether any slash-separated component of the path is reserved.
pub open spec fn spec_has_reserved(p: Seq<char>) -> bool
    decreases p.len(),
{
    match find_char(p, '/') {
        None => reserved_component(p),
        Some(i) => if 0 <= i < p.len() {
            reserved_component(p.take(i)) || spec_has_reserved(p.skip(i + 1))
        } else {
            reserved_component(p)
        },
    }
}

/// Compares a lowered component base against the reserved list.
fn reserved_exec(lowered: &Vec<char>) -> (b: bool)
    ensures
        b == is_reserved_name(lowered@),
{
    chars_eq(lowered, &chars_vec("con")) || chars_eq(lowered, &chars_vec("prn")) || chars_eq(
        lowered,
        &chars_vec("aux"),
    ) || chars_eq(lowered, &chars_vec("nul")) || chars_eq(lowered, &chars_vec("com1")) || chars_eq(
        lowered,
        &chars_vec("com2"),
    ) || chars_eq(lowered, &chars_vec("com3")) || chars_eq(lowered, &chars_vec("com4")) || chars_eq(
        lowered,
        &chars_vec("com5"),
    ) || chars_eq(lowered, &chars_vec("com6")) || chars_eq(lowered, &chars_vec("com7")) || chars_eq(
        lowered,
        &chars_vec("com8"),
    ) || chars_eq(lowered, &chars_vec("com9")) || chars_eq(lowered, &chars_vec("lpt1")) || chars_eq(
        lowered,
        &chars_vec("lpt2"),
    ) || chars_eq(lowered, &chars_vec("lpt3")) || chars_eq(lowered, &chars_vec("lpt4")) || chars_eq(
        lowered,
        &chars_vec("lpt5"),
    ) || chars_eq(lowered, &chars_vec("lpt6")) || chars_eq(lowered, &chars_vec("lpt7")) || chars_eq(
        lowered,
        &chars_vec("lpt8"),
    ) || chars_eq(lowered, &chars_vec("lpt9"))
}

/// Whether one component (as a vector) is reserved.
fn reserved_component_exec(seg: &Vec<char>) -> (b: bool)
    ensures
        b == reserved_component(seg@),
{
    proof {
        lemma_find_char_pub(seg@, '.');
    }
    let base = match find_char_exec(seg, '.') {
        Some(p) => crate::dates::head_chars(seg, p),
        None => {
            let whole = crate::dates::tail_chars(seg, 0);
            proof {
                assert(whole@ =~= seg@);
            }
            whole
        },
    };
    let lowered = ascii_lower_chars(&base);
    reserved_exec(&lowered)
}

/// Checks every slash-separated component against the reserved names.
pub fn has_reserved_component(path_str: &str) -> (b: bool)
    ensures
        b == spec_has_reserved(path_str@),
{
    let v = chars_vec(path_str);
    let ghost whole = path_str@;
    let mut rest = v;
    loop
        invariant
            whole == path_str@,
            spec_has_reserved(whole) == spec_has_reserved(rest@),
        decreases rest@.len(),
    {
        proof {
            lemma_find_char_pub(rest@, '/');
        }
        let ghost rv = rest@;
        let rn = rest.len();
        match find_char_exec(&rest, '/') {
            Some(i) => {
                proof {
                    assert(i < rn);
                }
                let seg = crate::dates::head_chars(&rest, i);
                if reserved_component_exec(&seg) {
                    proof {
                        assert(spec_has_reserved(rv));
                    }
                    return true;
                }
                let new_rest = crate::dates::tail_chars(&rest, i + 1);
                proof {
                    assert(spec_has_reserved(rv) == spec_has_reserved(rv.skip(i + 1)));
                }
                rest = new_rest;
            },
            None => {
                return reserved_component_exec(&rest);
            },
        }
    }
}

/// A redirect path that may be written under the output directory: not
/// empty, no parent traversal, no drive or scheme colon, not absolute in
/// either slash convention, no reserved device component, and no control
/// characters.
pub open spec fn spec_safe_redirect(p: Seq<char>) -> bool {
    &&& p.len() > 0
    &&& !contains_sub(p, seq!['.', '.'])
    &&& !p.contains(':')
    &&& p[0] != '/'
    &&& p[0] != '\\'
    &&& !spec_has_reserved(p)
    &&& forall|i: int| 0 <= i < p.len() ==> (#[trigger] p[i] as u32) >= 0x20
}

/// Decides whether a redirect path is safe to materialize on disk.
pub fn is_safe_redirect_path(clean_path: &str) -> (b: bool)
    ensures
        b == spec_safe_redirect(clean_path@),
{
    let v = chars_vec(clean_path);
    if v.len() == 0 {
        return false;
    }
    let dots = chars_vec("..");
    proof {
        reveal_strlit("..");
        assert(".."@ =~= seq!['.', '.']);
    }
    if chars_contains_sub(&v, &dots) {
        return false;
    }
    proof {
        lemma_find_char_pub(v@, ':');
    }
    let has_colon = match find_char_exec(&v, ':') {
        Some(_) => true,
        None => false,
    };
    proof {
        match find_char(v@, ':') {
            Some(q) => {
                assert(v@[q] == ':');
                assert(v@.contains(':'));
            },
            None => {
                if v@.contains(':') {
                    let q = choose|q: int| 0 <= q < v@.len() && v@[q] == ':';
                    assert(v@[q] != ':');
                }
            },
        }
    }
    if has_colon {
        return false;
    }
    if v[0] == '/' || v[0] == '\\' {
        return false;
    }
    if has_reserved_component(clean_path) {
        return false;
    }
    let n = v.len();
    let mut i: usize = 0;
    while i < n
        invariant
            n == v@.len(),
            v@ == clean_path@,
            i <= n,
            forall|j: int| 0 <= j < i ==> (#[trigger] v@[j] as u32) >= 0x20,
        decreases n - i,
    {
        if (v[i] as u32) < 0x20 {
            return false;
        }
        i = i + 1;
    }
    true
}

/// The redirect page before the first URL use.
pub const REDIRECT_A: &'static str = "<!DOCTYPE html>\n<html>\n<head>\n<meta charset=\"UTF-8\">\n<meta http-equiv=\"refresh\" content=\"0; url=";

/// Between the refresh URL and the canonical link.
pub const REDIRECT_B: &'static str = "\">\n<link rel=\"canonical\" href=\"";

/// Between the canonical link and the anchor.
pub const REDIRECT_C: &'static str = "\">\n<title>Redirecting...</title>\n</head>\n<body>\n<p>Redirecting to <a href=\"";

/// Between the anchor URL and its text.
pub const REDIRECT_D: &'static str = "\">";

/// After the anchor text.
pub const REDIRECT_E: &'static str = "</a></p>\n</body>\n</html>\n";

/// The redirect page for a target: the escaped URL spliced into the refresh
/// meta tag, the canonical link, and the visible anchor.
pub open spec fn spec_redirect_html(target: Seq<char>) -> Seq<char> {
    let e = spec_escape(target);
    REDIRECT_A@ + e + REDIRECT_B@ + e + REDIRECT_C@ + e + REDIRECT_D@ + e + REDIRECT_E@
}

/// Builds the HTML page that redirects a retired URL to its target.
pub fn build_redirect_html(target_url: &str) -> (r: String)
    ensures
        r@ == spec_redirect_html(target_url@),
{
    let escaped = escape(target_url);
    let e = chars_vec(escaped.as_str());
    let mut out: Vec<char> = Vec::new();
    push_all(&mut out, &chars_vec(REDIRECT_A));
    push_all(&mut out, &e);
    push_all(&mut out, &chars_vec(REDIRECT_B));
    push_all(&mut out, &e);
    push_all(&mut out, &chars_vec(REDIRECT_C));
    push_all(&mut out, &e);
    push_all(&mut out, &chars_vec(REDIRECT_D));
    push_all(&mut out, &e);
    push_all(&mut out, &chars_vec(REDIRECT_E));
    chars_to_string(&out)
}

} // verus!
