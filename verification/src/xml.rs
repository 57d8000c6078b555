//! XML/HTML entity escaping and unescaping for the generator's serialized
//! outputs (feeds, sitemaps, redirect pages, search text).

use vstd::prelude::*;
use crate::strutil::{chars_vec, chars_to_string, chars_replace, spec_replace};
use crate::dates::is_digit;

verus! {

/// How one character is escaped: the five XML-special characters become
/// named entities, everything else stays itself.
pub open spec fn escape_map(c: char) -> Seq<char> {
    if c == '&' {
        seq!['&', 'a', 'm', 'p', ';']
    } else if c == '<' {
        seq!['&', 'l', 't', ';']
    } else if c == '>' {
        seq!['&', 'g', 't', ';']
    } else if c == '"' {
        seq!['&', 'q', 'u', 'o', 't', ';']
    } else if c == '\'' {
        seq!['&', 'a', 'p', 'o', 's', ';']
    } else {
        seq![c]
    }
}

/// The escaped form of a whole string: each character's escape in order.
pub open spec fn spec_escape(s: Seq<char>) -> Seq<char>
    decreases s.len(),
{
    if s.len() == 0 {
        Seq::empty()
    } else {
        spec_escape(s.drop_last()) + escape_map(s.last())
    }
}

/// Escapes the five XML-special characters as named entities.
pub fn escape(input: &str) -> (r: String)
    ensures
        r@ == spec_escape(input@),
{
    let v = chars_vec(input);
    let n = v.len();
    let mut out: Vec<char> = Vec::new();
    let mut i: usize = 0;
    proof {
        assert(v@.subrange(0, 0) =~= Seq::<char>::empty());
    }
    while i < n
        invariant
            n == v@.len(),
            v@ == input@,
            i <= n,
            out@ == spec_escape(v@.subrange(0, i as int)),
        decreases n - i,
    {
        let c = v[i];
        if c == '&' {
            out.push('&');
            out.push('a');
            out.push('m');
            out.push('p');
            out.push(';');
        } else if c == '<' {
            out.push('&');
            out.push('l');
            out.push('t');
            out.push(';');
        } else if c == '>' {
            out.push('&');
            out.push('g');
            out.push('t');
            out.push(';');
        } else if c == '"' {
            out.push('&');
            out.push('q');
            out.push('u');
            out.push('o');
            out.push('t');
            out.push(';');
        } else if c == '\'' {
            out.push('&');
            out.push('a');
            out.push('p');
            out.push('o');
            out.push('s');
            out.push(';');
        } else {
            out.push(c);
        }
        proof {
            let next = v@.subrange(0, i + 1);
            assert(next.drop_last() =~= v@.subrange(0, i as int));
            assert(next.last() == v@[i as int]);
            assert(out@ =~= spec_escape(next));
        }
        i = i + 1;
    }
    proof {
        assert(v@.subrange(0, n as int) =~= v@);
    }
    chars_to_string(&out)
}

/// A hex digit, either case.
pub open spec fn is_hex_digit(c: char) -> bool {
    is_digit(c) || (97 <= (c as u32) <= 102) || (65 <= (c as u32) <= 70)
}

/// The value of a hex digit.
pub open spec fn hex_digit_val(c: char) -> int {
    if is_digit(c) {
        (c as u32) - 48
    } else if 97 <= (c as u32) <= 102 {
        (c as u32) - 87
    } else {
        (c as u32) - 55
    }
}

/// Whether every character is a digit of the radix (`hex` selects base 16).
pub open spec fn all_digits(s: Seq<char>, hex: bool) -> bool {
    s.len() > 0 && forall|i: int|
        0 <= i < s.len() ==> if hex {
            is_hex_digit(#[trigger] s[i])
        } else {
            is_digit(s[i])
        }
}

/// The numeric value of a digit string in the radix.
pub open spec fn digits_val(s: Seq<char>, hex: bool) -> int
    decreases s.len(),
{
    if s.len() == 0 {
        0
    } else {
        digits_val(s.drop_last(), hex) * (if hex {
            16int
        } else {
            10int
        }) + (if hex {
            hex_digit_val(s.last())
        } else {
            (s.last() as u32) - 48
        })
    }
}

/// Digit strings have non-negative values.
proof fn lemma_digits_val_nonneg(s: Seq<char>, hex: bool)
    requires
        forall|i: int|
            0 <= i < s.len() ==> if hex {
                is_hex_digit(#[trigger] s[i])
            } else {
                is_digit(s[i])
            },
    ensures
        digits_val(s, hex) >= 0,
    decreases s.len(),
{
    if s.len() > 0 {
        assert(forall|i: int| 0 <= i < s.len() - 1 ==> s.drop_last()[i] == s[i]);
        lemma_digits_val_nonneg(s.drop_last(), hex);
    }
}

/// A digit string's value only grows as digits are appended.
proof fn lemma_digits_val_monotone(s: Seq<char>, j: int, hex: bool)
    requires
        0 <= j <= s.len(),
        forall|i: int|
            0 <= i < s.len() ==> if hex {
                is_hex_digit(#[trigger] s[i])
            } else {
                is_digit(s[i])
            },
    ensures
        digits_val(s, hex) >= digits_val(s.take(j), hex),
    decreases s.len() - j,
{
    if j == s.len() {
        assert(s.take(j) =~= s);
    } else {
        let t = s.take(j + 1);
        assert(t.drop_last() =~= s.take(j));
        assert(forall|i: int| 0 <= i < t.len() ==> t[i] == s[i]);
        lemma_digits_val_nonneg(s.take(j), hex);
        assert(digits_val(t, hex) >= digits_val(s.take(j), hex));
        lemma_digits_val_monotone(s, j + 1, hex);
    }
}

/// How `u32` parsing reads an entity body: an optional leading `+`, then at
/// least one digit of the radix, with the value fitting in 32 bits.
pub open spec fn parse_u32_of(s: Seq<char>, hex: bool) -> Option<int> {
    let body = if s.len() > 0 && s[0] == '+' {
        s.drop_first()
    } else {
        s
    };
    if all_digits(body, hex) && digits_val(body, hex) <= 0xFFFF_FFFF {
        Some(digits_val(body, hex))
    } else {
        None
    }
}

/// A Unicode scalar value: any code point except the surrogate range.
pub open spec fn is_scalar_value(v: int) -> bool {
    (0 <= v < 0xD800) || (0xE000 <= v <= 0x10FFFF)
}

/// The first position of `c`, if any.
pub open spec fn find_char(s: Seq<char>, c: char) -> Option<int>
    decreases s.len(),
{
    if s.len() == 0 {
        None
    } else if s[0] == c {
        Some(0)
    } else {
        match find_char(s.drop_first(), c) {
            Some(i) => Some(i + 1),
            None => None,
        }
    }
}

/// Characterization of `find_char`: it is the first occurrence.
pub proof fn lemma_find_char_pub(s: Seq<char>, c: char)
    ensures
        match find_char(s, c) {
            Some(i) => 0 <= i < s.len() && s[i] == c && forall|j: int| 0 <= j < i ==> s[j] != c,
            None => forall|j: int| 0 <= j < s.len() ==> s[j] != c,
        },
    decreases s.len(),
{
    if s.len() == 0 {
    } else if s[0] == c {
    } else {
        let rest = s.drop_first();
        lemma_find_char_pub(rest, c);
        match find_char(rest, c) {
            Some(i2) => {
                assert(rest[i2] == s[i2 + 1]);
                assert forall|j: int| 0 <= j < i2 + 1 implies s[j] != c by {
                    if j > 0 {
                        assert(rest[j - 1] == s[j]);
                    }
                }
            },
            None => {
                assert forall|j: int| 0 <= j < s.len() implies s[j] != c by {
                    if j > 0 {
                        assert(rest[j - 1] == s[j]);
                    }
                }
            },
        }
    }
}

/// The first position of `c` in the vector, matching `find_char`.
pub fn find_char_exec(v: &Vec<char>, c: char) -> (r: Option<usize>)
    ensures
        match r {
            Some(p) => find_char(v@, c) == Some(p as int),
            None => find_char(v@, c) is None,
        },
{
    proof {
        lemma_find_char_pub(v@, c);
    }
    let n = v.len();
    let mut i: usize = 0;
    while i < n
        invariant
            n == v@.len(),
            i <= n,
            forall|j: int| 0 <= j < i ==> v@[j] != c,
        decreases n - i,
    {
        if v[i] == c {
            proof {
                lemma_find_char_pub(v@, c);
                match find_char(v@, c) {
                    Some(q) => {
                        if q < i {
                            assert(v@[q] != c);
                        } else if q > i {
                            assert(v@[i as int] != c);
                        }
                    },
                    None => {
                        assert(v@[i as int] != c);
                    },
                }
            }
            return Some(i);
        }
        i = i + 1;
    }
    proof {
        lemma_find_char_pub(v@, c);
        match find_char(v@, c) {
            Some(q) => {
                assert(v@[q] != c);
            },
            None => {},
        }
    }
    None
}

/// One numeric entity decoding step at the head of `s`, which starts with
/// `&#`: `limit` caps the semicolon search at twelve characters. A parse or
/// range failure leaves the two-character introducer literal.
pub open spec fn spec_decode_numeric(s: Seq<char>) -> Seq<char>
    decreases s.len(),
{
    if s.len() < 2 {
        s
    } else if s[0] == '&' && s[1] == '#' {
        let limit = if s.len() < 12 {
            s.len() as int
        } else {
            12
        };
        match find_char(s.take(limit), ';') {
            Some(p) => if !(2 <= p < s.len()) {
                seq!['&', '#'] + spec_decode_numeric(s.skip(2))
            } else {
                let entity = s.subrange(2, p);
                let cp = if entity.len() > 0 && (entity[0] == 'x' || entity[0] == 'X') {
                    parse_u32_of(entity.drop_first(), true)
                } else {
                    parse_u32_of(entity, false)
                };
                match cp {
                    Some(v) => if is_scalar_value(v) {
                        seq![((v as u32) as char)] + spec_decode_numeric(s.skip(p + 1))
                    } else {
                        seq!['&', '#'] + spec_decode_numeric(s.skip(2))
                    },
                    None => seq!['&', '#'] + spec_decode_numeric(s.skip(2)),
                }
            },
            None => seq!['&', '#'] + spec_decode_numeric(s.skip(2)),
        }

    } else {
        seq![s[0]] + spec_decode_numeric(s.drop_first())
    }
}

/// Relies on `char::from_u32`: `Some` exactly for Unicode scalar values (no
/// surrogates, nothing past `0x10FFFF`), carrying the character with that
/// code.
#[verifier::external_body]
fn char_from_u32(v: u32) -> (r: Option<char>)
    ensures
        is_scalar_value(v as int) ==> r == Some(v as char),
        !is_scalar_value(v as int) ==> r is None,
{
    char::from_u32(v)
}

/// Whether `c` is a decimal digit (executable form).
fn digit_exec(c: char) -> (b: bool)
    ensures
        b == is_digit(c),
{
    let u = c as u32;
    48 <= u && u <= 57
}

/// Whether `c` is a hex digit (executable form).
fn hex_digit_exec(c: char) -> (b: bool)
    ensures
        b == is_hex_digit(c),
{
    let u = c as u32;
    (48 <= u && u <= 57) || (97 <= u && u <= 102) || (65 <= u && u <= 70)
}

/// Parses an entity body the way `u32` parsing reads it.
fn parse_u32_chars(s: &Vec<char>, hex: bool) -> (r: Option<u32>)
    requires
        s@.len() <= 12,
    ensures
        match r {
            Some(v) => parse_u32_of(s@, hex) == Some(v as int),
            None => parse_u32_of(s@, hex) is None,
        },
{
    let skip_plus: usize = if s.len() > 0 && s[0] == '+' {
        1
    } else {
        0
    };
    let ghost body = if s@.len() > 0 && s@[0] == '+' {
        s@.drop_first()
    } else {
        s@
    };
    let n = s.len();
    if n == skip_plus {
        assert(!all_digits(body, hex));
        return None;
    }
    let mut val: u64 = 0;
    let mut i: usize = skip_plus;
    proof {
        assert(s@.drop_first() =~= s@.skip(1));
        assert(s@.skip(0) =~= s@);
        assert(body =~= s@.skip(skip_plus as int));
        assert(body.take(0) =~= Seq::<char>::empty());
    }
    while i < n
        invariant
            n == s@.len(),
            n <= 12,
            skip_plus <= i <= n,
            body == s@.skip(skip_plus as int),
            body == (if s@.len() > 0 && s@[0] == '+' {
                s@.drop_first()
            } else {
                s@
            }),
            body.len() == n - skip_plus,
            forall|j: int|
                0 <= j < i - skip_plus ==> if hex {
                    is_hex_digit(#[trigger] body[j])
                } else {
                    is_digit(body[j])
                },
            val == digits_val(body.take(i - skip_plus), hex),
            val <= 0xFFFF_FFFF,
        decreases n - i,
    {
        let c = s[i];
        let ok = if hex {
            hex_digit_exec(c)
        } else {
            digit_exec(c)
        };
        if !ok {
            proof {
                assert(body[i - skip_plus] == s@[i as int]);
                assert(!all_digits(body, hex));
            }
            return None;
        }
        let u = c as u32;
        let d: u64 = if hex {
            if 48 <= u && u <= 57 {
                (u - 48) as u64
            } else if 97 <= u && u <= 102 {
                (u - 87) as u64
            } else {
                (u - 55) as u64
            }
        } else {
            (u - 48) as u64
        };
        let radix: u64 = if hex {
            16
        } else {
            10
        };
        let next_val = val * radix + d;
        proof {
            let t = body.take(i - skip_plus + 1);
            assert(t.drop_last() =~= body.take(i - skip_plus));
            assert(t.last() == body[i - skip_plus]);
            assert(body[i - skip_plus] == s@[i as int]);
            assert(next_val == digits_val(t, hex));
        }
        if next_val > 0xFFFF_FFFF {
            proof {
                let k = i - skip_plus + 1;
                assert(next_val == digits_val(body.take(k as int), hex));
                if all_digits(body, hex) {
                    lemma_digits_val_monotone(body, k as int, hex);
                    assert(digits_val(body, hex) >= digits_val(body.take(k as int), hex));
                    assert(digits_val(body, hex) > 0xFFFF_FFFF);
                }
                assert(parse_u32_of(s@, hex) is None);
            }
            return None;
        }
        val = next_val;
        i = i + 1;
    }
    proof {
        assert(body.take(n - skip_plus) =~= body);
        assert(all_digits(body, hex));
    }
    Some(val as u32)
}

/// Decodes `&#NNN;` and `&#xHH;` numeric character references, leaving
/// malformed or out-of-range references literal.
pub fn decode_numeric_entities(input: &str) -> (r: String)
    ensures
        r@ == spec_decode_numeric(input@),
{
    let v = chars_vec(input);
    let out = decode_numeric_chars(&v);
    chars_to_string(&out)
}

/// The first `c` within `limit` characters from `start`.
fn find_char_in_window(v: &Vec<char>, start: usize, limit: usize, c: char) -> (r: Option<usize>)
    requires
        start + limit <= v@.len(),
    ensures
        match r {
            Some(p) => p < limit && v@[start + p] == c && forall|j: int|
                0 <= j < p ==> #[trigger] v@[start + j] != c,
            None => forall|j: int| 0 <= j < limit ==> #[trigger] v@[start + j] != c,
        },
{
    let vn = v.len();
    let mut p: usize = 0;
    while p < limit
        invariant
            vn == v@.len(),
            start + limit <= vn,
            p <= limit,
            forall|j: int| 0 <= j < p ==> #[trigger] v@[start + j] != c,
        decreases limit - p,
    {
        if v[start + p] == c {
            return Some(p);
        }
        p = p + 1;
    }
    None
}

/// The decoding loop over characters.
#[verifier::rlimit(60)]
pub fn decode_numeric_chars(v: &Vec<char>) -> (out: Vec<char>)
    ensures
        out@ == spec_decode_numeric(v@),
{
    let n = v.len();
    let mut out: Vec<char> = Vec::new();
    let mut i: usize = 0;
    proof {
        assert(v@.skip(0) =~= v@);
        assert(out@ + spec_decode_numeric(v@.skip(0)) =~= spec_decode_numeric(v@));
    }
    while i < n
        invariant
            n == v@.len(),
            i <= n,
            spec_decode_numeric(v@) == out@ + spec_decode_numeric(v@.skip(i as int)),
        decreases n - i,
    {
        let ghost rem = v@.skip(i as int);
        proof {
            assert(rem.len() == n - i);
            assert(forall|j: int| 0 <= j < rem.len() ==> rem[j] == v@[i + j]);
        }
        if i + 1 < n && v[i] == '&' && v[i + 1] == '#' {
            let limit: usize = if n - i < 12 {
                n - i
            } else {
                12
            };
            let ghost rlimit = if rem.len() < 12 {
                rem.len() as int
            } else {
                12
            };
            proof {
                assert(limit == rlimit);
                assert(rem.take(rlimit) =~= v@.subrange(i as int, i + rlimit));
                lemma_find_char_pub(rem.take(rlimit), ';');
            }
            let semi = find_char_in_window(v, i, limit, ';');
            if let Some(p) = semi {
                proof {
                    assert(v@[i + p] == ';');
                    assert(rem.take(rlimit)[p as int] == ';');
                    assert(find_char(rem.take(rlimit), ';') == Some(p as int)) by {
                        match find_char(rem.take(rlimit), ';') {
                            Some(q) => {
                                if q < p {
                                    assert(v@[i + q] != ';');
                                    assert(rem.take(rlimit)[q] == v@[i + q]);
                                } else if q > p {
                                    assert(rem.take(rlimit)[p as int] != ';');
                                }
                            },
                            None => {
                                assert(rem.take(rlimit)[p as int] != ';');
                            },
                        }
                    }
                    assert(p < rlimit);
                    assert(p >= 2) by {
                        assert(rem.take(rlimit)[0] == '&');
                        assert(rem.take(rlimit)[1] == '#');
                    }
                }
                let mut entity: Vec<char> = Vec::new();
                let mut k: usize = i + 2;
                proof {
                    assert(v@.subrange(i + 2, i + 2) =~= Seq::<char>::empty());
                }
                while k < i + p
                    invariant
                        i + p <= n,
                        n == v@.len(),
                        i + 2 <= k <= i + p,
                        entity@ == v@.subrange(i + 2, k as int),
                    decreases i + p - k,
                {
                    entity.push(v[k]);
                    assert(entity@ =~= v@.subrange(i + 2, k + 1));
                    k = k + 1;
                }
                proof {
                    assert(entity@ =~= rem.subrange(2, p as int));
                    assert(entity@.len() == p - 2 <= 10);
                }
                let is_hex = entity.len() > 0 && (entity[0] == 'x' || entity[0] == 'X');
                let cp = if is_hex {
                    let body = crate::dates::tail_chars(&entity, 1);
                    proof {
                        assert(body@ =~= entity@.drop_first());
                    }
                    parse_u32_chars(&body, true)
                } else {
                    parse_u32_chars(&entity, false)
                };
                let decoded = match cp {
                    Some(value) => char_from_u32(value),
                    None => None,
                };
                match decoded {
                    Some(ch) => {
                        out.push(ch);
                        proof {
                            assert(rem.skip(p + 1) =~= v@.skip(i + p + 1));
                            assert(spec_decode_numeric(rem) == seq![ch] + spec_decode_numeric(
                                v@.skip(i + p + 1),
                            ));
                            assert(out@ + spec_decode_numeric(v@.skip(i + p + 1))
                                =~= spec_decode_numeric(v@));
                        }
                        i = i + p + 1;
                    },
                    None => {
                        out.push('&');
                        out.push('#');
                        proof {
                            assert(rem.skip(2) =~= v@.skip(i + 2));
                            assert(spec_decode_numeric(rem) == seq!['&', '#']
                                + spec_decode_numeric(v@.skip(i + 2)));
                            assert(out@ + spec_decode_numeric(v@.skip(i + 2))
                                =~= spec_decode_numeric(v@));
                        }
                        i = i + 2;
                    },
                }
            } else {
                proof {
                    assert(find_char(rem.take(rlimit), ';') is None) by {
                        match find_char(rem.take(rlimit), ';') {
                            Some(q) => {
                                assert(rem.take(rlimit)[q] == ';');
                                assert(v@[i + q] != ';');
                            },
                            None => {},
                        }
                    }
                    assert(rem.skip(2) =~= v@.skip(i + 2));
                    assert(spec_decode_numeric(rem) == seq!['&', '#'] + spec_decode_numeric(
                        v@.skip(i + 2),
                    ));
                }
                out.push('&');
                out.push('#');
                proof {
                    assert(out@ + spec_decode_numeric(v@.skip(i + 2)) =~= spec_decode_numeric(
                        v@,
                    ));
                }
                i = i + 2;
            }
        } else {
            proof {
                if rem.len() >= 2 {
                    assert(rem[0] == v@[i as int] && rem[1] == v@[i + 1]);
                }
                assert(rem.drop_first() =~= v@.skip(i + 1));
                if rem.len() == 1 {
                    assert(rem.drop_first() =~= Seq::<char>::empty());
                    assert(spec_decode_numeric(rem) =~= seq![rem[0]]);
                }
            }
            out.push(v[i]);
            proof {
                assert(out@ + spec_decode_numeric(v@.skip(i + 1)) =~= spec_decode_numeric(v@));
            }
            i = i + 1;
        }
    }
    proof {
        assert(v@.skip(n as int) =~= Seq::<char>::empty());
        assert(out@ + spec_decode_numeric(v@.skip(n as int)) =~= out@);
    }
    out
}

/// The unescaped form of a string: the four named entities for the angle
/// brackets and quotes first, numeric references next, and `&amp;` last, so
/// that a literal ampersand never spawns a fresh entity.
pub open spec fn spec_unescape(s: Seq<char>) -> Seq<char> {
    let lt = spec_replace(s, seq!['&', 'l', 't', ';'], seq!['<']);
    let gt = spec_replace(lt, seq!['&', 'g', 't', ';'], seq!['>']);
    let quot = spec_replace(gt, seq!['&', 'q', 'u', 'o', 't', ';'], seq!['"']);
    let apos = spec_replace(quot, seq!['&', 'a', 'p', 'o', 's', ';'], seq!['\'']);
    spec_replace(spec_decode_numeric(apos), seq!['&', 'a', 'm', 'p', ';'], seq!['&'])
}

/// Reverses `escape`, decoding the five named entities and numeric
/// character references.
pub fn unescape(input: &str) -> (r: String)
    ensures
        r@ == spec_unescape(input@),
{
    proof {
        reveal_strlit("&lt;");
        reveal_strlit("&gt;");
        reveal_strlit("&quot;");
        reveal_strlit("&apos;");
        reveal_strlit("&amp;");
        reveal_strlit("<");
        reveal_strlit(">");
        reveal_strlit("\"");
        reveal_strlit("'");
        reveal_strlit("&");
        assert("&lt;"@ =~= seq!['&', 'l', 't', ';']);
        assert("&gt;"@ =~= seq!['&', 'g', 't', ';']);
        assert("&quot;"@ =~= seq!['&', 'q', 'u', 'o', 't', ';']);
        assert("&apos;"@ =~= seq!['&', 'a', 'p', 'o', 's', ';']);
        assert("&amp;"@ =~= seq!['&', 'a', 'm', 'p', ';']);
        assert("<"@ =~= seq!['<']);
        assert(">"@ =~= seq!['>']);
        assert("\""@ =~= seq!['"']);
        assert("'"@ =~= seq!['\'']);
        assert("&"@ =~= seq!['&']);
    }
    let v = chars_vec(input);
    let lt = chars_replace(&v, &chars_vec("&lt;"), &chars_vec("<"));
    let gt = chars_replace(&lt, &chars_vec("&gt;"), &chars_vec(">"));
    let quot = chars_replace(&gt, &chars_vec("&quot;"), &chars_vec("\""));
    let apos = chars_replace(&quot, &chars_vec("&apos;"), &chars_vec("'"));
    let decoded = decode_numeric_chars(&apos);
    let amp = chars_replace(&decoded, &chars_vec("&amp;"), &chars_vec("&"));
    chars_to_string(&amp)
}

} // verus!
