//! The asset pipeline's computations: fingerprinted file names and the
//! rewriting of HTML/XML references onto them. Reading, renaming and
//! writing the files themselves happens outside the library.

use vstd::prelude::*;
use crate::strutil::{chars_vec, chars_to_string, chars_replace, spec_replace, push_all};
use crate::escapes::spec_url_escape;
use crate::escapes::html_escape_url;

verus! {

/// The fingerprinted name of an asset: its stem, the first eight digest
/// characters, and its extension, dot-separated.
pub open spec fn spec_fingerprinted_name(
    stem: Seq<char>,
    digest: Seq<char>,
    extension: Seq<char>,
) -> Seq<char> {
    stem + seq!['.'] + digest.take(8) + seq!['.'] + extension
}

/// Builds the fingerprinted file name carrying a digest prefix.
pub fn fingerprinted_name(stem: &str, digest: &str, extension: &str) -> (r: String)
    requires
        digest@.len() >= 8,
    ensures
        r@ == spec_fingerprinted_name(stem@, digest@, extension@),
{
    let sv = chars_vec(stem);
    let dv = chars_vec(digest);
    let ev = chars_vec(extension);
    let mut out: Vec<char> = Vec::new();
    push_all(&mut out, &sv);
    out.push('.');
    let short = crate::dates::head_chars(&dv, 8);
    push_all(&mut out, &short);
    out.push('.');
    push_all(&mut out, &ev);
    proof {
        assert(out@ =~= spec_fingerprinted_name(stem@, digest@, extension@));
    }
    chars_to_string(&out)
}

/// Trailing slashes.
pub open spec fn slash_suffix_len(s: Seq<char>) -> nat
    decreases s.len(),
{
    if s.len() == 0 {
        0
    } else if s.last() == '/' {
        (1 + slash_suffix_len(s.drop_last())) as nat
    } else {
        0
    }
}

/// The base URL with its trailing slashes removed.
pub open spec fn trim_trailing_slashes(s: Seq<char>) -> Seq<char> {
    s.take(s.len() - slash_suffix_len(s))
}

/// The run fits in the text.
proof fn lemma_slash_suffix_len(s: Seq<char>)
    ensures
        slash_suffix_len(s) <= s.len(),
    decreases s.len(),
{
    if s.len() > 0 && s.last() == '/' {
        lemma_slash_suffix_len(s.drop_last());
    }
}

/// One `="..."`-style pattern: the equals sign, the delimiter, a prefix,
/// the asset path, and the delimiter again.
pub open spec fn attr_pattern(delim: char, prefix: Seq<char>, path: Seq<char>) -> Seq<char> {
    seq!['='] + seq![delim] + prefix + path + seq![delim]
}

/// All eight rewrites for one mapping under one delimiter order: for each
/// of the two quote characters, the escaped-base, plain-base, absolute and
/// relative spellings of the old path become the fingerprinted one.
pub open spec fn rewrite_one_delim(
    c: Seq<char>,
    delim: char,
    orig: Seq<char>,
    fp: Seq<char>,
    base: Seq<char>,
    escaped_base: Seq<char>,
) -> Seq<char> {
    let c1 = spec_replace(
        c,
        attr_pattern(delim, escaped_base + seq!['/'], orig),
        attr_pattern(delim, escaped_base + seq!['/'], fp),
    );
    let c2 = spec_replace(
        c1,
        attr_pattern(delim, base + seq!['/'], orig),
        attr_pattern(delim, base + seq!['/'], fp),
    );
    let c3 = spec_replace(c2, attr_pattern(delim, seq!['/'], orig), attr_pattern(delim, seq!['/'], fp));
    spec_replace(c3, attr_pattern(delim, Seq::empty(), orig), attr_pattern(delim, Seq::empty(), fp))
}

/// One mapping applied under both quote characters.
pub open spec fn rewrite_one(
    c: Seq<char>,
    orig: Seq<char>,
    fp: Seq<char>,
    base: Seq<char>,
    escaped_base: Seq<char>,
) -> Seq<char> {
    rewrite_one_delim(
        rewrite_one_delim(c, '"', orig, fp, base, escaped_base),
        '\'',
        orig,
        fp,
        base,
        escaped_base,
    )
}

/// The whole rewrite: the mappings applied in the order given, each under
/// both quote characters; the base URL is taken without trailing slashes,
/// in its plain and attribute-escaped spellings.
pub open spec fn spec_rewrite_refs(
    c: Seq<char>,
    mappings: Seq<(Seq<char>, Seq<char>)>,
    base_url: Seq<char>,
) -> Seq<char>
    decreases mappings.len(),
{
    if mappings.len() == 0 {
        c
    } else {
        let base = trim_trailing_slashes(base_url);
        spec_rewrite_refs(
            rewrite_one(c, mappings[0].0, mappings[0].1, base, spec_url_escape(base)),
            mappings.drop_first(),
            base_url,
        )
    }
}

/// Applies one replacement pair.
fn replace_pattern(
    content: Vec<char>,
    delim: char,
    prefix: &Vec<char>,
    orig: &Vec<char>,
    fp: &Vec<char>,
) -> (r: Vec<char>)
    ensures
        r@ == spec_replace(
            content@,
            attr_pattern(delim, prefix@, orig@),
            attr_pattern(delim, prefix@, fp@),
        ),
{
    let mut pat: Vec<char> = Vec::new();
    pat.push('=');
    pat.push(delim);
    push_all(&mut pat, prefix);
    push_all(&mut pat, orig);
    pat.push(delim);
    let mut sub: Vec<char> = Vec::new();
    sub.push('=');
    sub.push(delim);
    push_all(&mut sub, prefix);
    push_all(&mut sub, fp);
    sub.push(delim);
    proof {
        assert(pat@ =~= attr_pattern(delim, prefix@, orig@));
        assert(sub@ =~= attr_pattern(delim, prefix@, fp@));
    }
    chars_replace(&content, &pat, &sub)
}

/// Rewrites every asset reference in a rendered document onto its
/// fingerprinted path: each mapping is applied in order, under both quote
/// characters, in the escaped-base, plain-base, absolute and relative
/// spellings. The caller orders the mappings (longest original first, so
/// no shorter path rewrites inside a longer one).
pub fn rewrite_asset_references(
    content: &str,
    mappings: &Vec<(String, String)>,
    base_url: &str,
) -> (r: String)
    ensures
        r@ == spec_rewrite_refs(
            content@,
            mappings@.map_values(|p: (String, String)| (p.0@, p.1@)),
            base_url@,
        ),
{
    let bv = chars_vec(base_url);
    proof {
        lemma_slash_suffix_len(bv@);
        assert(bv@.take(bv@.len() as int) =~= bv@);
    }
    let bn = bv.len();
    let mut e = bn;
    while e > 0 && bv[e - 1] == '/'
        invariant
            bn == bv@.len(),
            e <= bn,
            slash_suffix_len(bv@) == (bn - e) + slash_suffix_len(bv@.take(e as int)),
        decreases e,
    {
        proof {
            let cur = bv@.take(e as int);
            assert(cur.last() == bv@[e - 1]);
            assert(cur.drop_last() =~= bv@.take(e - 1));
        }
        e = e - 1;
    }
    proof {
        if e > 0 {
            let cur = bv@.take(e as int);
            assert(cur.last() == bv@[e - 1]);
            assert(slash_suffix_len(cur) == 0);
        } else {
            assert(bv@.take(0) =~= Seq::<char>::empty());
        }
        assert(bn - e == slash_suffix_len(bv@));
    }
    let base = crate::dates::head_chars(&bv, e);
    let base_str = chars_to_string(&base);
    let escaped_str = html_escape_url(base_str.as_str());
    let escaped = chars_vec(escaped_str.as_str());
    proof {
        assert(base@ == trim_trailing_slashes(base_url@));
        assert(escaped@ == spec_url_escape(trim_trailing_slashes(base_url@)));
    }
    let mut base_slash = crate::dates::tail_chars(&base, 0);
    base_slash.push('/');
    let mut escaped_slash = crate::dates::tail_chars(&escaped, 0);
    escaped_slash.push('/');
    let slash_only = {
        let mut s: Vec<char> = Vec::new();
        s.push('/');
        s
    };
    let empty_prefix: Vec<char> = Vec::new();
    proof {
        assert(base_slash@ =~= trim_trailing_slashes(base_url@) + seq!['/']);
        assert(escaped_slash@ =~= spec_url_escape(trim_trailing_slashes(base_url@)) + seq!['/']);
        assert(slash_only@ =~= seq!['/']);
        assert(empty_prefix@ =~= Seq::<char>::empty());
    }
    let mut cur = chars_vec(content);
    let ghost mv = mappings@.map_values(|p: (String, String)| (p.0@, p.1@));
    let n = mappings.len();
    let mut i: usize = 0;
    proof {
        assert(mv.skip(0) =~= mv);
        assert(spec_rewrite_refs(cur@, mv.skip(0), base_url@) == spec_rewrite_refs(
            content@,
            mv,
            base_url@,
        ));
    }
    while i < n
        invariant
            n == mappings@.len(),
            mv == mappings@.map_values(|p: (String, String)| (p.0@, p.1@)),
            i <= n,
            base_slash@ == trim_trailing_slashes(base_url@) + seq!['/'],
            escaped_slash@ == spec_url_escape(trim_trailing_slashes(base_url@)) + seq!['/'],
            slash_only@ == seq!['/'],
            empty_prefix@ == Seq::<char>::empty(),
            spec_rewrite_refs(cur@, mv.skip(i as int), base_url@) == spec_rewrite_refs(
                content@,
                mv,
                base_url@,
            ),
        decreases n - i,
    {
        let ghost rem = mv.skip(i as int);
        proof {
            assert(rem[0] == mv[i as int]);
            assert(rem.drop_first() =~= mv.skip(i + 1));
        }
        let orig = chars_vec(mappings[i].0.as_str());
        let fp = chars_vec(mappings[i].1.as_str());
        let mut c = cur;
        c = replace_pattern(c, '"', &escaped_slash, &orig, &fp);
        c = replace_pattern(c, '"', &base_slash, &orig, &fp);
        c = replace_pattern(c, '"', &slash_only, &orig, &fp);
        c = replace_pattern(c, '"', &empty_prefix, &orig, &fp);
        c = replace_pattern(c, '\'', &escaped_slash, &orig, &fp);
        c = replace_pattern(c, '\'', &base_slash, &orig, &fp);
        c = replace_pattern(c, '\'', &slash_only, &orig, &fp);
        c = replace_pattern(c, '\'', &empty_prefix, &orig, &fp);
        cur = c;
        i = i + 1;
    }
    proof {
        assert(mv.skip(n as int) =~= Seq::<(Seq<char>, Seq<char>)>::empty());
    }
    chars_to_string(&cur)
}

} // verus!
