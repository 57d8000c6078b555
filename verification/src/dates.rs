//! Recognition of the `YYYY-MM-DD` date prefix on post filenames, with the
//! calendar rules that decide which prefixes are real dates.

use vstd::prelude::*;
use crate::strutil::chars_vec;
use crate::strutil::chars_to_string;

verus! {

/// A decimal digit.
pub open spec fn is_digit(c: char) -> bool {
    48 <= (c as u32) <= 57
}

/// The numeric value of a digit character.
pub open spec fn digit_val(c: char) -> int {
    (c as u32) - 48
}

/// A leap year in the proleptic Gregorian calendar.
pub open spec fn is_leap_year(y: int) -> bool {
    y % 4 == 0 && (y % 100 != 0 || y % 400 == 0)
}

/// Days in a month of a given year.
pub open spec fn days_in_month(y: int, m: int) -> int {
    if m == 2 {
        if is_leap_year(y) {
            29
        } else {
            28
        }
    } else if m == 4 || m == 6 || m == 9 || m == 11 {
        30
    } else {
        31
    }
}

/// A real calendar date.
pub open spec fn valid_ymd(y: int, m: int, d: int) -> bool {
    1 <= m <= 12 && 1 <= d <= days_in_month(y, m)
}

/// The year encoded by the first four characters of a date string.
pub open spec fn year_of(s: Seq<char>) -> int {
    1000 * digit_val(s[0]) + 100 * digit_val(s[1]) + 10 * digit_val(s[2]) + digit_val(s[3])
}

/// The month encoded at positions 5 and 6.
pub open spec fn month_of(s: Seq<char>) -> int {
    10 * digit_val(s[5]) + digit_val(s[6])
}

/// The day encoded at positions 8 and 9.
pub open spec fn day_of(s: Seq<char>) -> int {
    10 * digit_val(s[8]) + digit_val(s[9])
}

/// Ten characters shaped `YYYY-MM-DD` that name a real calendar date.
pub open spec fn valid_date10(s: Seq<char>) -> bool {
    &&& s.len() == 10
    &&& is_digit(s[0])
    &&& is_digit(s[1])
    &&& is_digit(s[2])
    &&& is_digit(s[3])
    &&& s[4] == '-'
    &&& is_digit(s[5])
    &&& is_digit(s[6])
    &&& s[7] == '-'
    &&& is_digit(s[8])
    &&& is_digit(s[9])
    &&& valid_ymd(year_of(s), month_of(s), day_of(s))
}

/// The filename with a final `.md` removed, if it carries one.
pub open spec fn spec_strip_md(s: Seq<char>) -> Seq<char> {
    if s.len() >= 3 && s.subrange(s.len() - 3, s.len() as int) == ".md"@ {
        s.take(s.len() - 3)
    } else {
        s
    }
}

/// The date prefix and remaining slug of a post filename: strips `.md`,
/// demands a valid ten-character date, and takes what follows a separating
/// dash as the slug (the whole name when the dash is missing).
pub open spec fn spec_parse_date(filename: Seq<char>) -> Option<(Seq<char>, Seq<char>)> {
    let name = spec_strip_md(filename);
    if name.len() >= 10 && valid_date10(name.take(10)) {
        let slug = if name.len() >= 11 && name[10] == '-' {
            name.skip(11)
        } else {
            name
        };
        Some((name.take(10), slug))
    } else {
        None
    }
}

/// The post slug of a filename: what follows the date prefix when one is
/// present, the bare name minus `.md` otherwise.
pub open spec fn spec_post_slug(filename: Seq<char>) -> Seq<char> {
    let base = spec_strip_md(filename);
    match spec_parse_date(base) {
        Some(p) => p.1,
        None => base,
    }
}

/// Removes a trailing `.md` from a character vector.
pub fn strip_md_chars(v: &Vec<char>) -> (r: Vec<char>)
    ensures
        r@ == spec_strip_md(v@),
{
    let n = v.len();
    if n >= 3 && v[n - 3] == '.' && v[n - 2] == 'm' && v[n - 1] == 'd' {
        proof {
            assert(v@.subrange(n - 3, n as int) =~= ".md"@) by {
                assert(v@.subrange(n - 3, n as int)[0] == '.');
                assert(v@.subrange(n - 3, n as int)[1] == 'm');
                assert(v@.subrange(n - 3, n as int)[2] == 'd');
                assert(".md"@[0] == '.' && ".md"@[1] == 'm' && ".md"@[2] == 'd') by {
                    reveal_strlit(".md");
                }
                assert(".md"@.len() == 3) by {
                    reveal_strlit(".md");
                }
            }
        }
        let mut out: Vec<char> = Vec::new();
        let mut i: usize = 0;
        while i < n - 3
            invariant
                n == v@.len(),
                n >= 3,
                i <= n - 3,
                out@ == v@.subrange(0, i as int),
            decreases n - 3 - i,
        {
            out.push(v[i]);
            assert(out@ =~= v@.subrange(0, i + 1));
            i = i + 1;
        }
        assert(out@ =~= v@.take(n - 3));
        out
    } else {
        proof {
            if v@.len() >= 3 && v@.subrange(v@.len() - 3, v@.len() as int) == ".md"@ {
                assert(".md"@[0] == '.' && ".md"@[1] == 'm' && ".md"@[2] == 'd') by {
                    reveal_strlit(".md");
                }
                assert(v@[n - 3] == '.' && v@[n - 2] == 'm' && v@[n - 1] == 'd');
            }
        }
        let mut out: Vec<char> = Vec::new();
        let mut i: usize = 0;
        while i < n
            invariant
                n == v@.len(),
                i <= n,
                out@ == v@.subrange(0, i as int),
            decreases n - i,
        {
            out.push(v[i]);
            assert(out@ =~= v@.subrange(0, i + 1));
            i = i + 1;
        }
        assert(out@ =~= v@);
        out
    }
}

/// Whether `c` is a decimal digit.
fn digit(c: char) -> (b: bool)
    ensures
        b == is_digit(c),
{
    let u = c as u32;
    48 <= u && u <= 57
}

/// Whether the first ten characters name a real `YYYY-MM-DD` date.
fn valid_date_prefix(v: &Vec<char>) -> (b: bool)
    ensures
        b == (v@.len() >= 10 && valid_date10(v@.take(10))),
{
    if v.len() < 10 {
        return false;
    }
    let ghost d = v@.take(10);
    assert(d.len() == 10);
    assert(forall|j: int| 0 <= j < 10 ==> d[j] == v@[j]);
    if !(digit(v[0]) && digit(v[1]) && digit(v[2]) && digit(v[3])) {
        return false;
    }
    if v[4] != '-' || v[7] != '-' {
        return false;
    }
    if !(digit(v[5]) && digit(v[6]) && digit(v[8]) && digit(v[9])) {
        return false;
    }
    let year: u32 = 1000 * (v[0] as u32 - 48) + 100 * (v[1] as u32 - 48) + 10 * (v[2] as u32 - 48)
        + (v[3] as u32 - 48);
    let month: u32 = 10 * (v[5] as u32 - 48) + (v[6] as u32 - 48);
    let day: u32 = 10 * (v[8] as u32 - 48) + (v[9] as u32 - 48);
    assert(year == year_of(d) && month == month_of(d) && day == day_of(d));
    if month < 1 || month > 12 {
        return false;
    }
    if day < 1 {
        return false;
    }
    let leap = year % 4 == 0 && (year % 100 != 0 || year % 400 == 0);
    let max_day: u32 = if month == 2 {
        if leap {
            29
        } else {
            28
        }
    } else if month == 4 || month == 6 || month == 9 || month == 11 {
        30
    } else {
        31
    };
    assert(max_day == days_in_month(year_of(d), month_of(d)));
    day <= max_day
}

/// The characters from position `from` to the end.
pub fn tail_chars(v: &Vec<char>, from: usize) -> (r: Vec<char>)
    requires
        from <= v@.len(),
    ensures
        r@ == v@.skip(from as int),
{
    let n = v.len();
    let mut out: Vec<char> = Vec::new();
    let mut i: usize = from;
    proof {
        assert(v@.subrange(from as int, from as int) =~= Seq::<char>::empty());
    }
    while i < n
        invariant
            n == v@.len(),
            from <= i <= n,
            out@ == v@.subrange(from as int, i as int),
        decreases n - i,
    {
        out.push(v[i]);
        assert(out@ =~= v@.subrange(from as int, i + 1));
        i = i + 1;
    }
    assert(out@ =~= v@.skip(from as int));
    out
}

/// The first `upto` characters.
pub fn head_chars(v: &Vec<char>, upto: usize) -> (r: Vec<char>)
    requires
        upto <= v@.len(),
    ensures
        r@ == v@.take(upto as int),
{
    let mut out: Vec<char> = Vec::new();
    let mut i: usize = 0;
    while i < upto
        invariant
            upto <= v@.len(),
            i <= upto,
            out@ == v@.subrange(0, i as int),
        decreases upto - i,
    {
        out.push(v[i]);
        assert(out@ =~= v@.subrange(0, i + 1));
        i = i + 1;
    }
    assert(out@ =~= v@.take(upto as int));
    out
}

/// Splits a post filename into its date prefix and slug, when the name
/// carries a valid `YYYY-MM-DD` prefix after `.md` removal.
pub fn parse_date_from_filename(filename: &str) -> (r: Option<(String, String)>)
    ensures
        match r {
            Some(p) => spec_parse_date(filename@) == Some((p.0@, p.1@)),
            None => spec_parse_date(filename@) is None,
        },
{
    let v = chars_vec(filename);
    let name = strip_md_chars(&v);
    if !valid_date_prefix(&name) {
        return None;
    }
    let date = head_chars(&name, 10);
    let slug = if name.len() >= 11 && name[10] == '-' {
        tail_chars(&name, 11)
    } else {
        let whole = tail_chars(&name, 0);
        proof {
            assert(whole@ =~= name@);
        }
        whole
    };
    Some((chars_to_string(&date), chars_to_string(&slug)))
}

/// The post slug of a filename: what follows a valid date prefix, else the
/// name minus `.md`.
pub fn extract_post_slug(filename: &str) -> (r: String)
    ensures
        r@ == spec_post_slug(filename@),
{
    let v = chars_vec(filename);
    let base = strip_md_chars(&v);
    let name = strip_md_chars(&base);
    if !valid_date_prefix(&name) {
        return chars_to_string(&base);
    }
    let slug = if name.len() >= 11 && name[10] == '-' {
        tail_chars(&name, 11)
    } else {
        tail_chars(&name, 0)
    };
    proof {
        if name@.len() >= 11 && name@[10] == '-' {
        } else {
            assert(name@.skip(0) =~= name@);
        }
    }
    chars_to_string(&slug)
}

} // verus!
