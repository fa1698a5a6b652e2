//! Parser for the `payload_digest.json` digest format.
//!
//! The digest is a JSON object holding identifying metadata and two
//! identifier-keyed maps of joints and components.  The parser is a
//! recursive-descent reader over characters; it rejects what the schema
//! does not describe with a `ParseError` carrying the character position,
//! and never panics.  Coordinates are read into fixed-point micro-units
//! (optionally in exponent notation); a value beyond one million world
//! units, or finer than a micro-unit, exceeds the model and is rejected.
//! A successful parse always yields a well-formed digest (distinct keys,
//! anchors within the coordinate limit).

use vstd::prelude::*;
use vstd::string::StrSliceExecFns;
use vstd::string::StringExecFns;

use crate::geometry::COORD_LIMIT_MICROS;
use crate::geometry::Point3;
use crate::model::Component;
use crate::model::DigestError;
use crate::model::Joint;
use crate::model::PayloadDigest;

verus! {

/// Build a `ParseError` whose message carries the character position at
/// which the text was rejected.
fn parse_error(msg: &str, at: usize) -> (e: DigestError)
    ensures
        e is ParseError,
{
    let mut m = msg.to_owned();
    m.append(" at character ");
    let pos = crate::serialize::udec_string(at as u64);
    m.append(pos.as_str());
    DigestError::ParseError(m)
}

/// JSON whitespace.
pub open spec fn spec_is_ws(c: char) -> bool {
    c == ' ' || c == '\t' || c == '\n' || c == '\r'
}

fn is_ws(c: char) -> (b: bool)
    ensures
        b == spec_is_ws(c),
{
    c == ' ' || c == '\t' || c == '\n' || c == '\r'
}

/// Decimal digit.
pub open spec fn spec_is_digit(c: char) -> bool {
    c == '0' || c == '1' || c == '2' || c == '3' || c == '4' || c == '5' || c == '6' || c == '7'
        || c == '8' || c == '9'
}

fn is_digit(c: char) -> (b: bool)
    ensures
        b == spec_is_digit(c),
{
    c == '0' || c == '1' || c == '2' || c == '3' || c == '4' || c == '5' || c == '6' || c == '7'
        || c == '8' || c == '9'
}

/// Value of a decimal digit character.
fn digit_val(c: char) -> (d: i64)
    requires
        spec_is_digit(c),
    ensures
        0 <= d <= 9,
{
    match c {
        '0' => 0,
        '1' => 1,
        '2' => 2,
        '3' => 3,
        '4' => 4,
        '5' => 5,
        '6' => 6,
        '7' => 7,
        '8' => 8,
        _ => 9,
    }
}

/// Value of a hexadecimal digit character, if it is one.
fn hex_val(c: char) -> (r: Option<u32>)
    ensures
        r matches Some(v) ==> v < 16,
{
    match c {
        '0' => Some(0),
        '1' => Some(1),
        '2' => Some(2),
        '3' => Some(3),
        '4' => Some(4),
        '5' => Some(5),
        '6' => Some(6),
        '7' => Some(7),
        '8' => Some(8),
        '9' => Some(9),
        'a' | 'A' => Some(10),
        'b' | 'B' => Some(11),
        'c' | 'C' => Some(12),
        'd' | 'D' => Some(13),
        'e' | 'E' => Some(14),
        'f' | 'F' => Some(15),
        _ => None,
    }
}

/// Read exactly four hexadecimal digits at `i`.
fn hex4(s: &str, i: usize) -> (r: Result<u32, DigestError>)
    requires
        i <= s@.len(),
    ensures
        match r {
            Ok(v) => v < 0x1_0000 && i + 4 <= s@.len(),
            Err(e) => e is ParseError,
        },
{
    let n = s.unicode_len();
    if n - i < 4 {
        return Err(parse_error("truncated unicode escape in string", i));
    }
    let d0 = match hex_val(s.get_char(i)) {
        Some(d) => d,
        None => {
            return Err(parse_error("invalid hexadecimal digit in unicode escape", i));
        },
    };
    let d1 = match hex_val(s.get_char(i + 1)) {
        Some(d) => d,
        None => {
            return Err(parse_error("invalid hexadecimal digit in unicode escape", i + 1));
        },
    };
    let d2 = match hex_val(s.get_char(i + 2)) {
        Some(d) => d,
        None => {
            return Err(parse_error("invalid hexadecimal digit in unicode escape", i + 2));
        },
    };
    let d3 = match hex_val(s.get_char(i + 3)) {
        Some(d) => d,
        None => {
            return Err(parse_error("invalid hexadecimal digit in unicode escape", i + 3));
        },
    };
    Ok(d0 * 4096 + d1 * 256 + d2 * 16 + d3)
}

/// Relies on `char::from_u32`: yields the character with the given code,
/// and succeeds exactly on Unicode scalar values (below the surrogate
/// range, or between it and 0x10FFFF inclusive).
#[verifier::external_body]
fn char_from_u32(code: u32) -> (r: Option<char>)
    ensures
        r matches Some(c) ==> c as u32 == code,
        (r is Some) == (code < 0xD800 || (0xE000 <= code && code <= 0x10FFFF)),
{
    char::from_u32(code)
}

/// Relies on `String::push`: appends the given character to the end of
/// the string.
#[verifier::external_body]
fn string_push(s: &mut String, c: char)
    ensures
        final(s)@ == old(s)@.push(c),
{
    s.push(c);
}

/// Decode a `\uXXXX` escape whose backslash stands at `i`; a surrogate
/// pair (`\uD800`–`\uDBFF` followed by `\uDC00`–`\uDFFF`) yields the
/// supplementary character it encodes, a lone surrogate is rejected.
fn parse_unicode_escape(s: &str, i: usize) -> (r: Result<(char, usize), DigestError>)
    requires
        i + 2 <= s@.len(),
    ensures
        match r {
            Ok(p) => i < p.1 <= s@.len(),
            Err(e) => e is ParseError,
        },
{
    let n = s.unicode_len();
    let high = match hex4(s, i + 2) {
        Ok(v) => v,
        Err(e) => {
            return Err(e);
        },
    };
    if 0xD800 <= high && high <= 0xDBFF {
        // A high surrogate must be followed by `\u` and a low surrogate.
        if n - (i + 6) < 2 || s.get_char(i + 6) != '\\' || s.get_char(i + 7) != 'u' {
            return Err(parse_error("lone high surrogate in unicode escape", i));
        }
        let low = match hex4(s, i + 8) {
            Ok(v) => v,
            Err(e) => {
                return Err(e);
            },
        };
        if !(0xDC00 <= low && low <= 0xDFFF) {
            return Err(parse_error("invalid low surrogate in unicode escape", i + 8));
        }
        let code: u32 = 0x1_0000 + (high - 0xD800) * 0x400 + (low - 0xDC00);
        match char_from_u32(code) {
            Some(c) => Ok((c, i + 12)),
            None => Err(parse_error("invalid unicode escape in string", i)),
        }
    } else if 0xDC00 <= high && high <= 0xDFFF {
        Err(parse_error("lone low surrogate in unicode escape", i))
    } else {
        match char_from_u32(high) {
            Some(c) => Ok((c, i + 6)),
            None => Err(parse_error("invalid unicode escape in string", i)),
        }
    }
}

/// Index of the first non-whitespace character at or after `i`.
fn skip_ws(s: &str, i: usize) -> (r: usize)
    requires
        i <= s@.len(),
    ensures
        i <= r <= s@.len(),
        forall|m: int| i <= m < r ==> spec_is_ws(s@[m]),
        r < s@.len() ==> !spec_is_ws(s@[r as int]),
{
    let n = s.unicode_len();
    let mut j: usize = i;
    while j < n && is_ws(s.get_char(j))
        invariant
            n == s@.len(),
            i <= j <= n,
            forall|m: int| i <= m < j ==> spec_is_ws(s@[m]),
        decreases n - j,
    {
        j = j + 1;
    }
    j
}

/// Consume exactly the character `c` at position `i`.
fn expect_char(s: &str, i: usize, c: char) -> (r: Result<usize, DigestError>)
    requires
        i <= s@.len(),
    ensures
        match r {
            Ok(j) => j == i + 1 && j <= s@.len() && s@[i as int] == c,
            Err(e) => e is ParseError && (i >= s@.len() || s@[i as int] != c),
        },
{
    let n = s.unicode_len();
    if i < n && s.get_char(i) == c {
        Ok(i + 1)
    } else {
        Err(parse_error("unexpected character in digest", i))
    }
}

/// Consume exactly the keyword `w` (e.g. `null`) starting at `i`.
fn expect_keyword(s: &str, i: usize, w: &str) -> (r: Result<usize, DigestError>)
    requires
        i <= s@.len(),
    ensures
        match r {
            Ok(j) => i <= j <= s@.len() && j == i + w@.len() && s@.subrange(i as int, j as int)
                == w@,
            Err(e) => e is ParseError,
        },
{
    let n = s.unicode_len();
    let wn = w.unicode_len();
    if wn > n - i || i > n {
        return Err(parse_error("truncated keyword in digest", i));
    }
    let mut k: usize = 0;
    while k < wn
        invariant
            n == s@.len(),
            wn == w@.len(),
            i + wn <= n,
            0 <= k <= wn,
            forall|m: int| 0 <= m < k ==> s@[i + m] == w@[m],
        decreases wn - k,
    {
        if s.get_char(i + k) != w.get_char(k) {
            return Err(parse_error("unexpected keyword in digest", i + k));
        }
        k = k + 1;
    }
    proof {
        assert(s@.subrange(i as int, i + wn as int) =~= w@);
    }
    Ok(i + wn)
}

/// A character sequence holding neither a quote nor a backslash: its
/// JSON string form is itself between quotes, with no escapes.
pub open spec fn quote_free(v: Seq<char>) -> bool {
    forall|m: int| 0 <= m < v.len() ==> v[m] != '"' && v[m] != '\\'
}

/// The text `t` holds, at position `i`, the quote-delimited, escape-free
/// JSON string whose content is `v`.
pub open spec fn plain_string_at(t: Seq<char>, i: int, v: Seq<char>) -> bool {
    &&& quote_free(v)
    &&& 0 <= i
    &&& i + v.len() + 2 <= t.len()
    &&& t.subrange(i, i + v.len() + 2) == seq!['"'] + v + seq!['"']
}

/// Parse a JSON string at `i` (the opening quote) into its unescaped
/// content.  Supports the short escapes and `\uXXXX` escapes, including
/// surrogate pairs.  On success the consumed text is quote-delimited,
/// and when it contains no backslash the content is the text between
/// the quotes, verbatim.  Success is owed on escape-free strings: where
/// the text at `i` holds such a string, the parse returns exactly its
/// content and consumes exactly its extent.
fn parse_string(s: &str, i: usize) -> (r: Result<(String, usize), DigestError>)
    requires
        i <= s@.len(),
    ensures
        match r {
            Ok(p) => {
                &&& i < p.1 <= s@.len()
                &&& s@[i as int] == '"'
                &&& s@[p.1 - 1] == '"'
                &&& (forall|m: int| i + 1 <= m < p.1 - 1 ==> s@[m] != '\\') ==> p.0@
                    == s@.subrange(i + 1, p.1 - 1)
            },
            Err(e) => e is ParseError,
        },
        forall|v: Seq<char>| #[trigger] plain_string_at(s@, i as int, v) ==> (r matches Ok(p)
            && p.0@ == v && p.1 == i + v.len() + 2),
{
    let n = s.unicode_len();
    if i >= n || s.get_char(i) != '"' {
        proof {
            assert forall|v: Seq<char>| !(#[trigger] plain_string_at(s@, i as int, v)) by {
                if plain_string_at(s@, i as int, v) {
                    let vl = v.len() as int;
                    assert(s@.subrange(i as int, i + vl + 2)[0] == s@[i as int]);
                    assert((seq!['"'] + v + seq!['"'])[0] == '"');
                }
            }
        }
        return Err(parse_error("expected a string", i));
    }
    let mut out = String::new();
    let mut seg: usize = i + 1;
    let mut j: usize = i + 1;
    while j < n
        invariant
            n == s@.len(),
            i + 1 <= seg <= j <= n,
            s@[i as int] == '"',
            forall|m: int| seg <= m < j ==> s@[m] != '\\' && s@[m] != '"',
            (forall|m: int| i + 1 <= m < j ==> s@[m] != '\\') ==> (seg == i + 1 && out@
                =~= Seq::<char>::empty()),
            forall|v: Seq<char>| #[trigger] plain_string_at(s@, i as int, v) ==> j <= i + 1
                + v.len(),
        decreases n - j,
    {
        let c = s.get_char(j);
        if c == '"' {
            proof {
                assert forall|v: Seq<char>| #[trigger] plain_string_at(s@, i as int, v) implies (j
                    == i + 1 + v.len() && (forall|m: int| i + 1 <= m < j ==> s@[m] != '\\')
                    && s@.subrange(i + 1, j as int) =~= v) by {
                    let vl = v.len() as int;
                    assert(s@.subrange(i as int, i + vl + 2) == seq!['"'] + v + seq!['"']);
                    if j < i + 1 + vl {
                        let m = j - i - 1;
                        assert(s@.subrange(i as int, i + vl + 2)[m + 1] == s@[j as int]);
                        assert((seq!['"'] + v + seq!['"'])[m + 1] == v[m]);
                    }
                    assert(j == i + 1 + vl);
                    assert forall|m: int| i + 1 <= m < j implies s@[m] != '\\' by {
                        let k = m - i - 1;
                        assert(s@.subrange(i as int, i + vl + 2)[k + 1] == s@[m]);
                        assert((seq!['"'] + v + seq!['"'])[k + 1] == v[k]);
                    }
                    assert forall|k: int| 0 <= k < vl implies s@.subrange(i + 1, j as int)[k]
                        == v[k] by {
                        assert(s@.subrange(i as int, i + vl + 2)[k + 1] == s@[i + 1 + k]);
                        assert((seq!['"'] + v + seq!['"'])[k + 1] == v[k]);
                        assert(s@.subrange(i + 1, j as int)[k] == s@[i + 1 + k]);
                    }
                }
            }
            out.append(s.substring_char(seg, j));
            proof {
                if forall|m: int| i + 1 <= m < j ==> s@[m] != '\\' {
                    assert(out@ =~= s@.subrange(i + 1, j as int));
                }
            }
            return Ok((out, j + 1));
        } else if c == '\\' {
            proof {
                assert forall|v: Seq<char>| !(#[trigger] plain_string_at(s@, i as int, v)) by {
                    if plain_string_at(s@, i as int, v) {
                        let vl = v.len() as int;
                        assert(s@.subrange(i as int, i + vl + 2) == seq!['"'] + v + seq!['"']);
                        if j == i + 1 + vl {
                            assert(s@.subrange(i as int, i + vl + 2)[vl + 1] == s@[j as int]);
                            assert((seq!['"'] + v + seq!['"'])[vl + 1] == '"');
                        } else {
                            let m = j - i - 1;
                            assert(s@.subrange(i as int, i + vl + 2)[m + 1] == s@[j as int]);
                            assert((seq!['"'] + v + seq!['"'])[m + 1] == v[m]);
                        }
                    }
                }
            }
            out.append(s.substring_char(seg, j));
            if j + 1 >= n {
                return Err(parse_error("truncated escape in string", j));
            }
            let e = s.get_char(j + 1);
            if e == 'u' {
                match parse_unicode_escape(s, j) {
                    Ok(p) => {
                        string_push(&mut out, p.0);
                        j = p.1;
                        seg = j;
                    },
                    Err(err) => {
                        return Err(err);
                    },
                }
                continue;
            }
            if e == '"' {
                out.append("\"");
            } else if e == '\\' {
                out.append("\\");
            } else if e == '/' {
                out.append("/");
            } else if e == 'n' {
                out.append("\n");
            } else if e == 'r' {
                out.append("\r");
            } else if e == 't' {
                out.append("\t");
            } else if e == 'b' {
                out.append("\u{0008}");
            } else if e == 'f' {
                out.append("\u{000C}");
            } else {
                return Err(parse_error("unsupported escape in string", j));
            }
            j = j + 2;
            seg = j;
        } else {
            proof {
                assert forall|v: Seq<char>| #[trigger] plain_string_at(s@, i as int, v) implies j
                    + 1 <= i + 1 + v.len() by {
                    let vl = v.len() as int;
                    assert(s@.subrange(i as int, i + vl + 2) == seq!['"'] + v + seq!['"']);
                    if j == i + 1 + vl {
                        assert(s@.subrange(i as int, i + vl + 2)[vl + 1] == s@[j as int]);
                        assert((seq!['"'] + v + seq!['"'])[vl + 1] == '"');
                    }
                }
            }
            j = j + 1;
        }
    }
    proof {
        assert forall|v: Seq<char>| !(#[trigger] plain_string_at(s@, i as int, v)) by {
            if plain_string_at(s@, i as int, v) {
                assert(j <= i + 1 + v.len());
                assert(i + v.len() + 2 <= n);
            }
        }
    }
    Err(parse_error("unterminated string", n))
}

/// Parse up to six fractional digits after a decimal point into
/// micro-units; at least one digit is required, a seventh is rejected.
fn parse_fraction(s: &str, i: usize) -> (r: Result<(i64, usize), DigestError>)
    requires
        i <= s@.len(),
    ensures
        match r {
            Ok(p) => i < p.1 <= s@.len() && 0 <= p.0 <= 999_999,
            Err(e) => e is ParseError,
        },
{
    let n = s.unicode_len();
    if i >= n || !is_digit(s.get_char(i)) {
        return Err(parse_error("expected a digit after the decimal point", i));
    }
    let mut frac: i64 = digit_val(s.get_char(i)) * 100_000;
    let mut j: usize = i + 1;
    if j < n && is_digit(s.get_char(j)) {
        frac = frac + digit_val(s.get_char(j)) * 10_000;
        j = j + 1;
        if j < n && is_digit(s.get_char(j)) {
            frac = frac + digit_val(s.get_char(j)) * 1_000;
            j = j + 1;
            if j < n && is_digit(s.get_char(j)) {
                frac = frac + digit_val(s.get_char(j)) * 100;
                j = j + 1;
                if j < n && is_digit(s.get_char(j)) {
                    frac = frac + digit_val(s.get_char(j)) * 10;
                    j = j + 1;
                    if j < n && is_digit(s.get_char(j)) {
                        frac = frac + digit_val(s.get_char(j));
                        j = j + 1;
                        if j < n && is_digit(s.get_char(j)) {
                            return Err(
                                parse_error("more than six fractional digits in coordinate", j),
                            );
                        }
                    }
                }
            }
        }
    }
    Ok((frac, j))
}

/// Parse a coordinate number at `i` into micro-units.  Accepts the JSON
/// number grammar: an optional sign, an integer part without leading
/// zeros, up to six fractional digits, and an optional decimal exponent.
/// A value whose magnitude exceeds the coordinate limit, or that the
/// fixed-point model cannot hold exactly, is rejected.  The result
/// always lies within the coordinate limit.
fn parse_number(s: &str, i: usize) -> (r: Result<(i64, usize), DigestError>)
    requires
        i <= s@.len(),
    ensures
        match r {
            Ok(p) => i < p.1 <= s@.len() && -COORD_LIMIT_MICROS <= p.0 <= COORD_LIMIT_MICROS,
            Err(e) => e is ParseError,
        },
{
    let n = s.unicode_len();
    let mut j: usize = i;
    let mut neg: bool = false;
    if j < n && s.get_char(j) == '-' {
        neg = true;
        j = j + 1;
    }
    if j >= n || !is_digit(s.get_char(j)) {
        return Err(parse_error("expected a number", j));
    }
    let mut units: i64 = digit_val(s.get_char(j));
    j = j + 1;
    if units == 0 {
        if j < n && is_digit(s.get_char(j)) {
            return Err(parse_error("leading zero in number", j));
        }
    } else {
        while j < n && is_digit(s.get_char(j))
            invariant
                n == s@.len(),
                i < j <= n,
                0 <= units <= 100_000_009,
            decreases n - j,
        {
            if units >= 10_000_000 {
                return Err(parse_error("coordinate magnitude too large", j));
            }
            units = units * 10 + digit_val(s.get_char(j));
            j = j + 1;
        }
    }
    if units > 1_000_000 {
        return Err(parse_error("coordinate magnitude too large", j));
    }
    let mut frac: i64 = 0;
    if j < n && s.get_char(j) == '.' {
        match parse_fraction(s, j + 1) {
            Ok(p) => {
                frac = p.0;
                j = p.1;
            },
            Err(e) => {
                return Err(e);
            },
        }
    }
    let mut v: i64 = units * 1_000_000 + frac;
    if v > COORD_LIMIT_MICROS {
        return Err(parse_error("coordinate magnitude too large", j));
    }
    if j < n && (s.get_char(j) == 'e' || s.get_char(j) == 'E') {
        j = j + 1;
        let mut exp_neg: bool = false;
        if j < n && (s.get_char(j) == '+' || s.get_char(j) == '-') {
            exp_neg = s.get_char(j) == '-';
            j = j + 1;
        }
        if j >= n || !is_digit(s.get_char(j)) {
            return Err(parse_error("expected a digit in exponent", j));
        }
        let mut exp: i64 = 0;
        while j < n && is_digit(s.get_char(j))
            invariant
                n == s@.len(),
                i < j <= n,
                0 <= exp <= 999,
            decreases n - j,
        {
            if exp >= 100 {
                return Err(parse_error("exponent too large", j));
            }
            exp = exp * 10 + digit_val(s.get_char(j));
            j = j + 1;
        }
        let mut t: i64 = exp;
        if exp_neg {
            while t > 0
                invariant
                    0 <= v <= COORD_LIMIT_MICROS,
                    0 <= t,
                decreases t,
            {
                if v % 10 != 0 {
                    return Err(
                        parse_error("coordinate is too precise for the fixed-point model", j),
                    );
                }
                v = v / 10;
                t = t - 1;
            }
        } else {
            while t > 0
                invariant
                    0 <= v <= COORD_LIMIT_MICROS,
                    0 <= t,
                decreases t,
            {
                if v > COORD_LIMIT_MICROS / 10 {
                    return Err(parse_error("coordinate magnitude too large", j));
                }
                v = v * 10;
                t = t - 1;
            }
        }
    }
    if neg {
        v = -v;
    }
    Ok((v, j))
}

/// Parse a three-element coordinate array `[x, y, z]` into a point.
fn parse_point(s: &str, i: usize) -> (r: Result<(Point3, usize), DigestError>)
    requires
        i <= s@.len(),
    ensures
        match r {
            Ok(p) => i < p.1 <= s@.len() && crate::geometry::point_in_bounds(p.0),
            Err(e) => e is ParseError,
        },
{
    let mut j = match expect_char(s, i, '[') {
        Ok(j) => j,
        Err(e) => {
            return Err(e);
        },
    };
    j = skip_ws(s, j);
    let x = match parse_number(s, j) {
        Ok(p) => {
            j = p.1;
            p.0
        },
        Err(e) => {
            return Err(e);
        },
    };
    j = skip_ws(s, j);
    j = match expect_char(s, j, ',') {
        Ok(j2) => j2,
        Err(e) => {
            return Err(e);
        },
    };
    j = skip_ws(s, j);
    let y = match parse_number(s, j) {
        Ok(p) => {
            j = p.1;
            p.0
        },
        Err(e) => {
            return Err(e);
        },
    };
    j = skip_ws(s, j);
    j = match expect_char(s, j, ',') {
        Ok(j2) => j2,
        Err(e) => {
            return Err(e);
        },
    };
    j = skip_ws(s, j);
    let z = match parse_number(s, j) {
        Ok(p) => {
            j = p.1;
            p.0
        },
        Err(e) => {
            return Err(e);
        },
    };
    j = skip_ws(s, j);
    j = match expect_char(s, j, ']') {
        Ok(j2) => j2,
        Err(e) => {
            return Err(e);
        },
    };
    Ok((Point3 { x, y, z }, j))
}

/// Does this string equal the given literal key?
fn str_lit_eq(a: &String, w: &str) -> (b: bool)
    ensures
        b == (a@ == w@),
{
    *a == w.to_owned()
}

/// Skip one number of the JSON grammar starting at `i`: an optional
/// sign, an integer part without leading zeros, an optional fraction,
/// an optional exponent.  The value is not computed, so magnitude and
/// precision are not limited here.
fn skip_number(s: &str, i: usize) -> (r: Result<usize, DigestError>)
    requires
        i <= s@.len(),
    ensures
        match r {
            Ok(j) => i < j <= s@.len(),
            Err(e) => e is ParseError,
        },
{
    let n = s.unicode_len();
    let mut j: usize = i;
    if j < n && s.get_char(j) == '-' {
        j = j + 1;
    }
    if j >= n || !is_digit(s.get_char(j)) {
        return Err(parse_error("expected a number", j));
    }
    let first = s.get_char(j);
    j = j + 1;
    if first == '0' {
        if j < n && is_digit(s.get_char(j)) {
            return Err(parse_error("leading zero in number", j));
        }
    } else {
        while j < n && is_digit(s.get_char(j))
            invariant
                n == s@.len(),
                i < j <= n,
            decreases n - j,
        {
            j = j + 1;
        }
    }
    if j < n && s.get_char(j) == '.' {
        j = j + 1;
        if j >= n || !is_digit(s.get_char(j)) {
            return Err(parse_error("expected a digit after the decimal point", j));
        }
        while j < n && is_digit(s.get_char(j))
            invariant
                n == s@.len(),
                i < j <= n,
            decreases n - j,
        {
            j = j + 1;
        }
    }
    if j < n && (s.get_char(j) == 'e' || s.get_char(j) == 'E') {
        j = j + 1;
        if j < n && (s.get_char(j) == '+' || s.get_char(j) == '-') {
            j = j + 1;
        }
        if j >= n || !is_digit(s.get_char(j)) {
            return Err(parse_error("expected a digit in exponent", j));
        }
        while j < n && is_digit(s.get_char(j))
            invariant
                n == s@.len(),
                i < j <= n,
            decreases n - j,
        {
            j = j + 1;
        }
    }
    Ok(j)
}

/// Skip one JSON value of any shape starting at `i`; unknown digest
/// fields are tolerated and ignored, as the schema only fixes the fields
/// it names.
fn skip_value(s: &str, i: usize) -> (r: Result<usize, DigestError>)
    requires
        i <= s@.len(),
    ensures
        match r {
            Ok(j) => i < j <= s@.len(),
            Err(e) => e is ParseError,
        },
    decreases s@.len() - i,
{
    let n = s.unicode_len();
    if i >= n {
        return Err(parse_error("unexpected end of digest", i));
    }
    let c = s.get_char(i);
    if c == '"' {
        match parse_string(s, i) {
            Ok(p) => Ok(p.1),
            Err(e) => Err(e),
        }
    } else if c == '{' {
        let mut j: usize = skip_ws(s, i + 1);
        if j < n && s.get_char(j) == '}' {
            return Ok(j + 1);
        }
        loop
            invariant
                n == s@.len(),
                i < j <= n,
            decreases n - j,
        {
            let key = match parse_string(s, j) {
                Ok(p) => {
                    j = p.1;
                    p.0
                },
                Err(e) => {
                    return Err(e);
                },
            };
            j = skip_ws(s, j);
            j = match expect_char(s, j, ':') {
                Ok(j2) => j2,
                Err(e) => {
                    return Err(e);
                },
            };
            j = skip_ws(s, j);
            j = match skip_value(s, j) {
                Ok(j2) => j2,
                Err(e) => {
                    return Err(e);
                },
            };
            j = skip_ws(s, j);
            if j < n && s.get_char(j) == '}' {
                return Ok(j + 1);
            }
            j = match expect_char(s, j, ',') {
                Ok(j2) => j2,
                Err(e) => {
                    return Err(e);
                },
            };
            j = skip_ws(s, j);
        }
    } else if c == '[' {
        let mut j: usize = skip_ws(s, i + 1);
        if j < n && s.get_char(j) == ']' {
            return Ok(j + 1);
        }
        loop
            invariant
                n == s@.len(),
                i < j <= n,
            decreases n - j,
        {
            j = match skip_value(s, j) {
                Ok(j2) => j2,
                Err(e) => {
                    return Err(e);
                },
            };
            j = skip_ws(s, j);
            if j < n && s.get_char(j) == ']' {
                return Ok(j + 1);
            }
            j = match expect_char(s, j, ',') {
                Ok(j2) => j2,
                Err(e) => {
                    return Err(e);
                },
            };
            j = skip_ws(s, j);
        }
    } else if c == 't' {
        proof {
            reveal_strlit("true");
        }
        match expect_keyword(s, i, "true") {
            Ok(j) => Ok(j),
            Err(e) => Err(e),
        }
    } else if c == 'f' {
        proof {
            reveal_strlit("false");
        }
        match expect_keyword(s, i, "false") {
            Ok(j) => Ok(j),
            Err(e) => Err(e),
        }
    } else if c == 'n' {
        proof {
            reveal_strlit("null");
        }
        match expect_keyword(s, i, "null") {
            Ok(j) => Ok(j),
            Err(e) => Err(e),
        }
    } else if c == '-' || is_digit(c) {
        skip_number(s, i)
    } else {
        Err(parse_error("unexpected character in digest", i))
    }
}

/// Parse a JSON array of strings (a joint's member identifier list).
fn parse_members(s: &str, i: usize) -> (r: Result<(Vec<String>, usize), DigestError>)
    requires
        i <= s@.len(),
    ensures
        match r {
            Ok(p) => i < p.1 <= s@.len(),
            Err(e) => e is ParseError,
        },
{
    let n = s.unicode_len();
    let mut j = match expect_char(s, i, '[') {
        Ok(j) => j,
        Err(e) => {
            return Err(e);
        },
    };
    let mut out: Vec<String> = Vec::new();
    j = skip_ws(s, j);
    if j < n && s.get_char(j) == ']' {
        return Ok((out, j + 1));
    }
    loop
        invariant
            n == s@.len(),
            i < j <= n,
        decreases n - j,
    {
        let v = match parse_string(s, j) {
            Ok(p) => {
                j = p.1;
                p.0
            },
            Err(e) => {
                return Err(e);
            },
        };
        out.push(v);
        j = skip_ws(s, j);
        if j < n && s.get_char(j) == ']' {
            return Ok((out, j + 1));
        }
        j = match expect_char(s, j, ',') {
            Ok(j2) => j2,
            Err(e) => {
                return Err(e);
            },
        };
        j = skip_ws(s, j);
    }
}

/// Parse a JSON array of coordinate triples (a component's face points).
fn parse_faces(s: &str, i: usize) -> (r: Result<(Vec<Point3>, usize), DigestError>)
    requires
        i <= s@.len(),
    ensures
        match r {
            Ok(p) => i < p.1 <= s@.len() && forall|k: int|
                0 <= k < p.0@.len() ==> crate::geometry::point_in_bounds(#[trigger] p.0@[k]),
            Err(e) => e is ParseError,
        },
{
    let n = s.unicode_len();
    let mut j = match expect_char(s, i, '[') {
        Ok(j) => j,
        Err(e) => {
            return Err(e);
        },
    };
    let mut out: Vec<Point3> = Vec::new();
    j = skip_ws(s, j);
    if j < n && s.get_char(j) == ']' {
        return Ok((out, j + 1));
    }
    loop
        invariant
            n == s@.len(),
            i < j <= n,
            forall|k: int|
                0 <= k < out@.len() ==> crate::geometry::point_in_bounds(#[trigger] out@[k]),
        decreases n - j,
    {
        let v = match parse_point(s, j) {
            Ok(p) => {
                j = p.1;
                p.0
            },
            Err(e) => {
                return Err(e);
            },
        };
        out.push(v);
        j = skip_ws(s, j);
        if j < n && s.get_char(j) == ']' {
            return Ok((out, j + 1));
        }
        j = match expect_char(s, j, ',') {
            Ok(j2) => j2,
            Err(e) => {
                return Err(e);
            },
        };
        j = skip_ws(s, j);
    }
}

/// Parse a coordinate triple or `null`.
fn parse_opt_point(s: &str, i: usize) -> (r: Result<(Option<Point3>, usize), DigestError>)
    requires
        i <= s@.len(),
    ensures
        match r {
            Ok(p) => i < p.1 <= s@.len() && match p.0 {
                Some(pt) => crate::geometry::point_in_bounds(pt),
                None => true,
            },
            Err(e) => e is ParseError,
        },
{
    let n = s.unicode_len();
    if i < n && s.get_char(i) == 'n' {
        proof {
            reveal_strlit("null");
        }
        match expect_keyword(s, i, "null") {
            Ok(j) => Ok((None, j)),
            Err(e) => Err(e),
        }
    } else {
        match parse_point(s, i) {
            Ok(p) => Ok((Some(p.0), p.1)),
            Err(e) => Err(e),
        }
    }
}

/// Parse a string or `null`.
fn parse_opt_string(s: &str, i: usize) -> (r: Result<(Option<String>, usize), DigestError>)
    requires
        i <= s@.len(),
    ensures
        match r {
            Ok(p) => i < p.1 <= s@.len(),
            Err(e) => e is ParseError,
        },
{
    let n = s.unicode_len();
    if i < n && s.get_char(i) == 'n' {
        proof {
            reveal_strlit("null");
        }
        match expect_keyword(s, i, "null") {
            Ok(j) => Ok((None, j)),
            Err(e) => Err(e),
        }
    } else {
        match parse_string(s, i) {
            Ok(p) => Ok((Some(p.0), p.1)),
            Err(e) => Err(e),
        }
    }
}

/// Parse a face-point list or `null`.
fn parse_opt_faces(s: &str, i: usize) -> (r: Result<(Option<Vec<Point3>>, usize), DigestError>)
    requires
        i <= s@.len(),
    ensures
        match r {
            Ok(p) => i < p.1 <= s@.len() && match p.0 {
                Some(fs) => forall|k: int|
                    0 <= k < fs@.len() ==> crate::geometry::point_in_bounds(#[trigger] fs@[k]),
                None => true,
            },
            Err(e) => e is ParseError,
        },
{
    let n = s.unicode_len();
    if i < n && s.get_char(i) == 'n' {
        proof {
            reveal_strlit("null");
        }
        match expect_keyword(s, i, "null") {
            Ok(j) => Ok((None, j)),
            Err(e) => Err(e),
        }
    } else {
        match parse_faces(s, i) {
            Ok(p) => Ok((Some(p.0), p.1)),
            Err(e) => Err(e),
        }
    }
}

/// Assemble a joint from its parsed fields; the three required fields
/// must all be present, `center` may be absent.
fn finish_joint(
    joint_number: Option<String>,
    joint_design: Option<String>,
    center: Option<Point3>,
    members: Option<Vec<String>>,
    j: usize,
) -> (r: Result<(Joint, usize), DigestError>)
    requires
        center matches Some(c) ==> crate::geometry::point_in_bounds(c),
    ensures
        match r {
            Ok(p) => p.1 == j && p.0.wf(),
            Err(e) => e is ParseError,
        },
{
    match (joint_number, joint_design, members) {
        (Some(number), Some(design), Some(member_ids)) => Ok(
            (
                Joint {
                    joint_number: number,
                    joint_design: design,
                    center: center,
                    members: member_ids,
                },
                j,
            ),
        ),
        _ => Err(parse_error("joint is missing a required field", j)),
    }
}

/// Parse one joint object.  Required fields: `joint_number`,
/// `joint_design`, `members`; `center` may be a triple, `null`, or
/// absent; unknown fields are ignored; a duplicated field is an error.
fn parse_joint(s: &str, i: usize) -> (r: Result<(Joint, usize), DigestError>)
    requires
        i <= s@.len(),
    ensures
        match r {
            Ok(p) => i < p.1 <= s@.len() && p.0.wf(),
            Err(e) => e is ParseError,
        },
{
    let n = s.unicode_len();
    let mut j = match expect_char(s, i, '{') {
        Ok(j) => j,
        Err(e) => {
            return Err(e);
        },
    };
    let mut joint_number: Option<String> = None;
    let mut joint_design: Option<String> = None;
    let mut center: Option<Point3> = None;
    let mut seen_center: bool = false;
    let mut members: Option<Vec<String>> = None;
    j = skip_ws(s, j);
    if j < n && s.get_char(j) == '}' {
        return finish_joint(joint_number, joint_design, center, members, j + 1);
    }
    loop
        invariant
            n == s@.len(),
            i < j <= n,
            center matches Some(c) ==> crate::geometry::point_in_bounds(c),
        decreases n - j,
    {
        let key = match parse_string(s, j) {
            Ok(p) => {
                j = p.1;
                p.0
            },
            Err(e) => {
                return Err(e);
            },
        };
        j = skip_ws(s, j);
        j = match expect_char(s, j, ':') {
            Ok(j2) => j2,
            Err(e) => {
                return Err(e);
            },
        };
        j = skip_ws(s, j);
        if str_lit_eq(&key, "joint_number") {
            if joint_number.is_some() {
                return Err(parse_error("duplicate joint field", j));
            }
            match parse_string(s, j) {
                Ok(p) => {
                    joint_number = Some(p.0);
                    j = p.1;
                },
                Err(e) => {
                    return Err(e);
                },
            }
        } else if str_lit_eq(&key, "joint_design") {
            if joint_design.is_some() {
                return Err(parse_error("duplicate joint field", j));
            }
            match parse_string(s, j) {
                Ok(p) => {
                    joint_design = Some(p.0);
                    j = p.1;
                },
                Err(e) => {
                    return Err(e);
                },
            }
        } else if str_lit_eq(&key, "center") {
            if seen_center {
                return Err(parse_error("duplicate joint field", j));
            }
            match parse_opt_point(s, j) {
                Ok(p) => {
                    center = p.0;
                    seen_center = true;
                    j = p.1;
                },
                Err(e) => {
                    return Err(e);
                },
            }
        } else if str_lit_eq(&key, "members") {
            if members.is_some() {
                return Err(parse_error("duplicate joint field", j));
            }
            match parse_members(s, j) {
                Ok(p) => {
                    members = Some(p.0);
                    j = p.1;
                },
                Err(e) => {
                    return Err(e);
                },
            }
        } else {
            j = match skip_value(s, j) {
                Ok(j2) => j2,
                Err(e) => {
                    return Err(e);
                },
            };
        }
        j = skip_ws(s, j);
        if j < n && s.get_char(j) == '}' {
            return finish_joint(joint_number, joint_design, center, members, j + 1);
        }
        j = match expect_char(s, j, ',') {
            Ok(j2) => j2,
            Err(e) => {
                return Err(e);
            },
        };
        j = skip_ws(s, j);
    }
}

/// Assemble a component from its parsed fields; the three required
/// fields must all be present, the rest may be absent.
fn finish_component(
    design_id: Option<String>,
    part_number: Option<String>,
    description: Option<String>,
    geom_path: Option<String>,
    loc: Option<Point3>,
    faces: Option<Vec<Point3>>,
    j: usize,
) -> (r: Result<(Component, usize), DigestError>)
    requires
        loc matches Some(c) ==> crate::geometry::point_in_bounds(c),
        faces matches Some(fs) ==> forall|k: int|
            0 <= k < fs@.len() ==> crate::geometry::point_in_bounds(#[trigger] fs@[k]),
    ensures
        match r {
            Ok(p) => p.1 == j && p.0.wf(),
            Err(e) => e is ParseError,
        },
{
    match (design_id, part_number, description) {
        (Some(design), Some(part), Some(text)) => Ok(
            (
                Component {
                    design_id: design,
                    part_number: part,
                    description: text,
                    geom_path: geom_path,
                    loc: loc,
                    faces: faces,
                },
                j,
            ),
        ),
        _ => Err(parse_error("component is missing a required field", j)),
    }
}

/// Parse one component object.  Required fields: `design_id`,
/// `part_number`, `description`; `geom_path`, `loc` and `faces` may be
/// given, `null`, or absent; unknown fields are ignored; a duplicated
/// field is an error.
fn parse_component(s: &str, i: usize) -> (r: Result<(Component, usize), DigestError>)
    requires
        i <= s@.len(),
    ensures
        match r {
            Ok(p) => i < p.1 <= s@.len() && p.0.wf(),
            Err(e) => e is ParseError,
        },
{
    let n = s.unicode_len();
    let mut j = match expect_char(s, i, '{') {
        Ok(j) => j,
        Err(e) => {
            return Err(e);
        },
    };
    let mut design_id: Option<String> = None;
    let mut part_number: Option<String> = None;
    let mut description: Option<String> = None;
    let mut geom_path: Option<String> = None;
    let mut seen_geom_path: bool = false;
    let mut loc: Option<Point3> = None;
    let mut seen_loc: bool = false;
    let mut faces: Option<Vec<Point3>> = None;
    let mut seen_faces: bool = false;
    j = skip_ws(s, j);
    if j < n && s.get_char(j) == '}' {
        return finish_component(design_id, part_number, description, geom_path, loc, faces, j + 1);
    }
    loop
        invariant
            n == s@.len(),
            i < j <= n,
            loc matches Some(c) ==> crate::geometry::point_in_bounds(c),
            faces matches Some(fs) ==> forall|k: int|
                0 <= k < fs@.len() ==> crate::geometry::point_in_bounds(#[trigger] fs@[k]),
        decreases n - j,
    {
        let key = match parse_string(s, j) {
            Ok(p) => {
                j = p.1;
                p.0
            },
            Err(e) => {
                return Err(e);
            },
        };
        j = skip_ws(s, j);
        j = match expect_char(s, j, ':') {
            Ok(j2) => j2,
            Err(e) => {
                return Err(e);
            },
        };
        j = skip_ws(s, j);
        if str_lit_eq(&key, "design_id") {
            if design_id.is_some() {
                return Err(parse_error("duplicate component field", j));
            }
            match parse_string(s, j) {
                Ok(p) => {
                    design_id = Some(p.0);
                    j = p.1;
                },
                Err(e) => {
                    return Err(e);
                },
            }
        } else if str_lit_eq(&key, "part_number") {
            if part_number.is_some() {
                return Err(parse_error("duplicate component field", j));
            }
            match parse_string(s, j) {
                Ok(p) => {
                    part_number = Some(p.0);
                    j = p.1;
                },
                Err(e) => {
                    return Err(e);
                },
            }
        } else if str_lit_eq(&key, "description") {
            if description.is_some() {
                return Err(parse_error("duplicate component field", j));
            }
            match parse_string(s, j) {
                Ok(p) => {
                    description = Some(p.0);
                    j = p.1;
                },
                Err(e) => {
                    return Err(e);
                },
            }
        } else if str_lit_eq(&key, "geom_path") {
            if seen_geom_path {
                return Err(parse_error("duplicate component field", j));
            }
            match parse_opt_string(s, j) {
                Ok(p) => {
                    geom_path = p.0;
                    seen_geom_path = true;
                    j = p.1;
                },
                Err(e) => {
                    return Err(e);
                },
            }
        } else if str_lit_eq(&key, "loc") {
            if seen_loc {
                return Err(parse_error("duplicate component field", j));
            }
            match parse_opt_point(s, j) {
                Ok(p) => {
                    loc = p.0;
                    seen_loc = true;
                    j = p.1;
                },
                Err(e) => {
                    return Err(e);
                },
            }
        } else if str_lit_eq(&key, "faces") {
            if seen_faces {
                return Err(parse_error("duplicate component field", j));
            }
            match parse_opt_faces(s, j) {
                Ok(p) => {
                    faces = p.0;
                    seen_faces = true;
                    j = p.1;
                },
                Err(e) => {
                    return Err(e);
                },
            }
        } else {
            j = match skip_value(s, j) {
                Ok(j2) => j2,
                Err(e) => {
                    return Err(e);
                },
            };
        }
        j = skip_ws(s, j);
        if j < n && s.get_char(j) == '}' {
            return finish_component(
                design_id,
                part_number,
                description,
                geom_path,
                loc,
                faces,
                j + 1,
            );
        }
        j = match expect_char(s, j, ',') {
            Ok(j2) => j2,
            Err(e) => {
                return Err(e);
            },
        };
        j = skip_ws(s, j);
    }
}

/// The text `t` holds `{}`, the empty identifier map, at position `i`.
pub open spec fn empty_map_at(t: Seq<char>, i: int) -> bool {
    0 <= i && i + 2 <= t.len() && t[i] == '{' && t[i + 1] == '}'
}

/// Parse the identifier-keyed joint map.  A duplicate identifier is an
/// error, so the resulting association list always has distinct keys.
/// Success is owed on the empty map `{}`.
fn parse_joint_map(s: &str, i: usize) -> (r: Result<(Vec<(String, Joint)>, usize), DigestError>)
    requires
        i <= s@.len(),
    ensures
        match r {
            Ok(p) => i < p.1 <= s@.len() && crate::model::unique_keys(p.0@) && forall|k: int|
                0 <= k < p.0@.len() ==> (#[trigger] p.0@[k]).1.wf(),
            Err(e) => e is ParseError,
        },
        empty_map_at(s@, i as int) ==> (r matches Ok(p) && p.0@.len() == 0 && p.1 == i + 2),
{
    let n = s.unicode_len();
    let mut j = match expect_char(s, i, '{') {
        Ok(j) => j,
        Err(e) => {
            return Err(e);
        },
    };
    let mut out: Vec<(String, Joint)> = Vec::new();
    j = skip_ws(s, j);
    if j < n && s.get_char(j) == '}' {
        proof {
            if empty_map_at(s@, i as int) {
                assert(!spec_is_ws('}'));
                assert(j == i + 1);
            }
        }
        return Ok((out, j + 1));
    }
    proof {
        if empty_map_at(s@, i as int) {
            assert(!spec_is_ws('}'));
            assert(j == i + 1);
            assert(false);
        }
    }
    loop
        invariant
            n == s@.len(),
            i < j <= n,
            !empty_map_at(s@, i as int),
            crate::model::unique_keys(out@),
            forall|k: int| 0 <= k < out@.len() ==> (#[trigger] out@[k]).1.wf(),
        decreases n - j,
    {
        let id = match parse_string(s, j) {
            Ok(p) => {
                j = p.1;
                p.0
            },
            Err(e) => {
                return Err(e);
            },
        };
        j = skip_ws(s, j);
        j = match expect_char(s, j, ':') {
            Ok(j2) => j2,
            Err(e) => {
                return Err(e);
            },
        };
        j = skip_ws(s, j);
        let joint = match parse_joint(s, j) {
            Ok(p) => {
                j = p.1;
                p.0
            },
            Err(e) => {
                return Err(e);
            },
        };
        let ghost prev = out@;
        let ghost joint_snapshot = joint;
        match crate::model::push_unique(&mut out, id, joint) {
            Ok(u) => u,
            Err(e) => {
                return Err(e);
            },
        };
        proof {
            assert forall|k: int| 0 <= k < out@.len() implies (#[trigger] out@[k]).1.wf() by {
                if k < prev.len() {
                    assert(out@[k] == prev[k]);
                } else {
                    assert(out@[k].1 == joint_snapshot);
                }
            }
        }
        j = skip_ws(s, j);
        if j < n && s.get_char(j) == '}' {
            return Ok((out, j + 1));
        }
        j = match expect_char(s, j, ',') {
            Ok(j2) => j2,
            Err(e) => {
                return Err(e);
            },
        };
        j = skip_ws(s, j);
    }
}

/// Parse the identifier-keyed component map.  A duplicate identifier is
/// an error, so the resulting association list always has distinct keys.
fn parse_component_map(s: &str, i: usize) -> (r: Result<
    (Vec<(String, Component)>, usize),
    DigestError,
>)
    requires
        i <= s@.len(),
    ensures
        match r {
            Ok(p) => i < p.1 <= s@.len() && crate::model::unique_keys(p.0@) && forall|k: int|
                0 <= k < p.0@.len() ==> (#[trigger] p.0@[k]).1.wf(),
            Err(e) => e is ParseError,
        },
        empty_map_at(s@, i as int) ==> (r matches Ok(p) && p.0@.len() == 0 && p.1 == i + 2),
{
    let n = s.unicode_len();
    let mut j = match expect_char(s, i, '{') {
        Ok(j) => j,
        Err(e) => {
            return Err(e);
        },
    };
    let mut out: Vec<(String, Component)> = Vec::new();
    j = skip_ws(s, j);
    if j < n && s.get_char(j) == '}' {
        proof {
            if empty_map_at(s@, i as int) {
                assert(!spec_is_ws('}'));
                assert(j == i + 1);
            }
        }
        return Ok((out, j + 1));
    }
    proof {
        if empty_map_at(s@, i as int) {
            assert(!spec_is_ws('}'));
            assert(j == i + 1);
            assert(false);
        }
    }
    loop
        invariant
            n == s@.len(),
            i < j <= n,
            !empty_map_at(s@, i as int),
            crate::model::unique_keys(out@),
            forall|k: int| 0 <= k < out@.len() ==> (#[trigger] out@[k]).1.wf(),
        decreases n - j,
    {
        let id = match parse_string(s, j) {
            Ok(p) => {
                j = p.1;
                p.0
            },
            Err(e) => {
                return Err(e);
            },
        };
        j = skip_ws(s, j);
        j = match expect_char(s, j, ':') {
            Ok(j2) => j2,
            Err(e) => {
                return Err(e);
            },
        };
        j = skip_ws(s, j);
        let component = match parse_component(s, j) {
            Ok(p) => {
                j = p.1;
                p.0
            },
            Err(e) => {
                return Err(e);
            },
        };
        let ghost prev = out@;
        let ghost component_snapshot = component;
        match crate::model::push_unique(&mut out, id, component) {
            Ok(u) => u,
            Err(e) => {
                return Err(e);
            },
        };
        proof {
            assert forall|k: int| 0 <= k < out@.len() implies (#[trigger] out@[k]).1.wf() by {
                if k < prev.len() {
                    assert(out@[k] == prev[k]);
                } else {
                    assert(out@[k].1 == component_snapshot);
                }
            }
        }
        j = skip_ws(s, j);
        if j < n && s.get_char(j) == '}' {
            return Ok((out, j + 1));
        }
        j = match expect_char(s, j, ',') {
            Ok(j2) => j2,
            Err(e) => {
                return Err(e);
            },
        };
        j = skip_ws(s, j);
    }
}

/// Assemble the digest from its parsed fields; all four are required.
fn finish_digest(
    name: Option<String>,
    rev: Option<String>,
    joints: Option<Vec<(String, Joint)>>,
    components: Option<Vec<(String, Component)>>,
    at: usize,
) -> (r: Result<PayloadDigest, DigestError>)
    requires
        joints matches Some(v) ==> crate::model::unique_keys(v@) && forall|k: int|
            0 <= k < v@.len() ==> (#[trigger] v@[k]).1.wf(),
        components matches Some(v) ==> crate::model::unique_keys(v@) && forall|k: int|
            0 <= k < v@.len() ==> (#[trigger] v@[k]).1.wf(),
    ensures
        match r {
            Ok(d) => d.wf(),
            Err(e) => e is ParseError,
        },
{
    match (name, rev, joints, components) {
        (Some(n), Some(r2), Some(js), Some(cs)) => Ok(
            PayloadDigest { name: n, rev: r2, joints: js, components: cs },
        ),
        _ => Err(parse_error("digest is missing a required field", at)),
    }
}

/// The text `t` is the canonical serialization of a digest with no
/// joints, no components, and escape-free name and revision strings.
pub open spec fn simple_digest_text(t: Seq<char>, d: PayloadDigest) -> bool {
    &&& d.joints@.len() == 0
    &&& d.components@.len() == 0
    &&& crate::serialize::escape_free(d.name@)
    &&& crate::serialize::escape_free(d.rev@)
    &&& t == crate::serialize::spec_digest_json(d)
}

/// Where the text stands in such a canonical serialization: the brace,
/// the four fixed keys, the two string values, the two empty maps and
/// the separators, each at its computed position.
#[verifier::rlimit(80)]
proof fn lemma_simple_layout(t: Seq<char>, d: PayloadDigest)
    requires
        simple_digest_text(t, d),
    ensures
        ("name")@.len() == 4,
        ("rev")@.len() == 3,
        ("joints")@.len() == 6,
        ("components")@.len() == 10,
        t.len() == 55 + d.name@.len() as int + d.rev@.len() as int,
        t[0] == '{',
        plain_string_at(t, 1, ("name")@),
        t[7] == ':' && t[8] == ' ',
        plain_string_at(t, 9, d.name@),
        t[11 + d.name@.len() as int] == ',' && t[12 + d.name@.len() as int] == ' ',
        plain_string_at(t, 13 + d.name@.len() as int, ("rev")@),
        t[18 + d.name@.len() as int] == ':' && t[19 + d.name@.len() as int] == ' ',
        plain_string_at(t, 20 + d.name@.len() as int, d.rev@),
        t[22 + d.name@.len() as int + d.rev@.len() as int] == ',' && t[23 + d.name@.len() as int + d.rev@.len() as int]
            == ' ',
        plain_string_at(t, 24 + d.name@.len() as int + d.rev@.len() as int, ("joints")@),
        t[32 + d.name@.len() as int + d.rev@.len() as int] == ':' && t[33 + d.name@.len() as int + d.rev@.len() as int]
            == ' ',
        empty_map_at(t, 34 + d.name@.len() as int + d.rev@.len() as int),
        t[36 + d.name@.len() as int + d.rev@.len() as int] == ',' && t[37 + d.name@.len() as int + d.rev@.len() as int]
            == ' ',
        plain_string_at(t, 38 + d.name@.len() as int + d.rev@.len() as int, ("components")@),
        t[50 + d.name@.len() as int + d.rev@.len() as int] == ':' && t[51 + d.name@.len() as int + d.rev@.len() as int]
            == ' ',
        empty_map_at(t, 52 + d.name@.len() as int + d.rev@.len() as int),
        t[54 + d.name@.len() as int + d.rev@.len() as int] == '}',
{
    reveal_strlit("name");
    reveal_strlit("rev");
    reveal_strlit("joints");
    reveal_strlit("components");
    assert(crate::serialize::escape_free(("name")@));
    assert(crate::serialize::escape_free(("rev")@));
    assert(crate::serialize::escape_free(("joints")@));
    assert(crate::serialize::escape_free(("components")@));
    crate::serialize::lemma_escape_free_identity(("name")@);
    crate::serialize::lemma_escape_free_identity(("rev")@);
    crate::serialize::lemma_escape_free_identity(("joints")@);
    crate::serialize::lemma_escape_free_identity(("components")@);
    crate::serialize::lemma_escape_free_identity(d.name@);
    crate::serialize::lemma_escape_free_identity(d.rev@);
    assert(crate::serialize::spec_joint_entries(d.joints@) == Seq::<char>::empty());
    assert(crate::serialize::spec_joint_map_json(d.joints@) =~= seq!['{', '}']);
    assert(crate::serialize::spec_component_entries(d.components@) == Seq::<char>::empty());
    assert(crate::serialize::spec_component_map_json(d.components@) =~= seq!['{', '}']);
    let nl = d.name@.len() as int;
    let rl = d.rev@.len() as int;
    assert(crate::serialize::spec_json_string(("name")@).len() == 6);
    assert(crate::serialize::spec_json_string(("rev")@).len() == 5);
    assert(crate::serialize::spec_json_string(("joints")@).len() == 8);
    assert(crate::serialize::spec_json_string(("components")@).len() == 12);
    assert(crate::serialize::spec_json_string(d.name@).len() == nl + 2);
    assert(crate::serialize::spec_json_string(d.rev@).len() == rl + 2);
    assert(t.len() == 55 + nl + rl);
    assert(t.subrange(1, 7) =~= seq!['"'] + ("name")@ + seq!['"']);
    assert(t.subrange(9, 11 + nl) =~= seq!['"'] + d.name@ + seq!['"']);
    assert(t.subrange(13 + nl, 18 + nl) =~= seq!['"'] + ("rev")@ + seq!['"']);
    assert(t.subrange(20 + nl, 22 + nl + rl) =~= seq!['"'] + d.rev@ + seq!['"']);
    assert(t.subrange(24 + nl + rl, 32 + nl + rl) =~= seq!['"'] + ("joints")@ + seq!['"']);
    assert(t.subrange(38 + nl + rl, 50 + nl + rl) =~= seq!['"'] + ("components")@ + seq!['"']);
    assert forall|m: int| 0 <= m < 4 implies ("name")@[m] != '"' && ("name")@[m] != '\\' by {}
    assert forall|m: int| 0 <= m < nl implies d.name@[m] != '"' && d.name@[m] != '\\' by {
        assert(crate::serialize::plain_char(d.name@[m]));
    }
    assert forall|m: int| 0 <= m < rl implies d.rev@[m] != '"' && d.rev@[m] != '\\' by {
        assert(crate::serialize::plain_char(d.rev@[m]));
    }
    assert(t[0] == '{');
    assert(t[7] == ':' && t[8] == ' ');
    assert(t[11 + nl] == ',' && t[12 + nl] == ' ');
    assert(t[18 + nl] == ':' && t[19 + nl] == ' ');
    assert(t[22 + nl + rl] == ',' && t[23 + nl + rl] == ' ');
    assert(t[32 + nl + rl] == ':' && t[33 + nl + rl] == ' ');
    assert(t[34 + nl + rl] == '{' && t[35 + nl + rl] == '}');
    assert(t[36 + nl + rl] == ',' && t[37 + nl + rl] == ' ');
    assert(t[50 + nl + rl] == ':' && t[51 + nl + rl] == ' ');
    assert(t[52 + nl + rl] == '{' && t[53 + nl + rl] == '}');
    assert(t[54 + nl + rl] == '}');
}

/// Read the opening of a canonical digest: the brace, then the `name`
/// and `rev` fields with `": "` and `", "` separators and no other
/// whitespace.  On success it hands back both values and the position
/// after the second `", "`.  Success is owed where the whole text is
/// the canonical serialization of a digest with empty maps and
/// escape-free name and revision strings.
#[verifier::rlimit(100)]
#[verifier::spinoff_prover]
fn read_ordered_header(s: &str) -> (r: Result<(String, String, usize), DigestError>)
    ensures
        match r {
            Ok(p) => p.2 <= s@.len(),
            Err(e) => e is ParseError,
        },
        forall|d0: PayloadDigest| #[trigger] simple_digest_text(s@, d0) ==> (r matches Ok(p)
            && p.0@ == d0.name@ && p.1@ == d0.rev@ && p.2 == 24 + d0.name@.len()
            + d0.rev@.len()),
{
    let mut j: usize = match expect_char(s, 0, '{') {
        Ok(j2) => j2,
        Err(e) => {
            proof {
                assert forall|d0: PayloadDigest| !(#[trigger] simple_digest_text(s@, d0)) by {
                    if simple_digest_text(s@, d0) {
                        lemma_simple_layout(s@, d0);
                    }
                }
            }
            return Err(e);
        },
    };
    let key1 = match parse_string(s, j) {
        Ok(p) => {
            j = p.1;
            p.0
        },
        Err(e) => {
            proof {
                assert forall|d0: PayloadDigest| !(#[trigger] simple_digest_text(s@, d0)) by {
                    if simple_digest_text(s@, d0) {
                        lemma_simple_layout(s@, d0);
                    }
                }
            }
            return Err(e);
        },
    };
    if !str_lit_eq(&key1, "name") {
        proof {
            assert forall|d0: PayloadDigest| !(#[trigger] simple_digest_text(s@, d0)) by {
                if simple_digest_text(s@, d0) {
                    lemma_simple_layout(s@, d0);
                }
            }
        }
        return Err(parse_error("expected the name field", j));
    }
    j = match expect_char(s, j, ':') {
        Ok(j2) => j2,
        Err(e) => {
            proof {
                assert forall|d0: PayloadDigest| !(#[trigger] simple_digest_text(s@, d0)) by {
                    if simple_digest_text(s@, d0) {
                        lemma_simple_layout(s@, d0);
                    }
                }
            }
            return Err(e);
        },
    };
    j = match expect_char(s, j, ' ') {
        Ok(j2) => j2,
        Err(e) => {
            proof {
                assert forall|d0: PayloadDigest| !(#[trigger] simple_digest_text(s@, d0)) by {
                    if simple_digest_text(s@, d0) {
                        lemma_simple_layout(s@, d0);
                    }
                }
            }
            return Err(e);
        },
    };
    let name = match parse_string(s, j) {
        Ok(p) => {
            j = p.1;
            p.0
        },
        Err(e) => {
            proof {
                assert forall|d0: PayloadDigest| !(#[trigger] simple_digest_text(s@, d0)) by {
                    if simple_digest_text(s@, d0) {
                        lemma_simple_layout(s@, d0);
                    }
                }
            }
            return Err(e);
        },
    };
    j = match expect_char(s, j, ',') {
        Ok(j2) => j2,
        Err(e) => {
            proof {
                assert forall|d0: PayloadDigest| !(#[trigger] simple_digest_text(s@, d0)) by {
                    if simple_digest_text(s@, d0) {
                        lemma_simple_layout(s@, d0);
                    }
                }
            }
            return Err(e);
        },
    };
    j = match expect_char(s, j, ' ') {
        Ok(j2) => j2,
        Err(e) => {
            proof {
                assert forall|d0: PayloadDigest| !(#[trigger] simple_digest_text(s@, d0)) by {
                    if simple_digest_text(s@, d0) {
                        lemma_simple_layout(s@, d0);
                    }
                }
            }
            return Err(e);
        },
    };
    let key2 = match parse_string(s, j) {
        Ok(p) => {
            j = p.1;
            p.0
        },
        Err(e) => {
            proof {
                assert forall|d0: PayloadDigest| !(#[trigger] simple_digest_text(s@, d0)) by {
                    if simple_digest_text(s@, d0) {
                        lemma_simple_layout(s@, d0);
                    }
                }
            }
            return Err(e);
        },
    };
    if !str_lit_eq(&key2, "rev") {
        proof {
            assert forall|d0: PayloadDigest| !(#[trigger] simple_digest_text(s@, d0)) by {
                if simple_digest_text(s@, d0) {
                    lemma_simple_layout(s@, d0);
                }
            }
        }
        return Err(parse_error("expected the rev field", j));
    }
    j = match expect_char(s, j, ':') {
        Ok(j2) => j2,
        Err(e) => {
            proof {
                assert forall|d0: PayloadDigest| !(#[trigger] simple_digest_text(s@, d0)) by {
                    if simple_digest_text(s@, d0) {
                        lemma_simple_layout(s@, d0);
                    }
                }
            }
            return Err(e);
        },
    };
    j = match expect_char(s, j, ' ') {
        Ok(j2) => j2,
        Err(e) => {
            proof {
                assert forall|d0: PayloadDigest| !(#[trigger] simple_digest_text(s@, d0)) by {
                    if simple_digest_text(s@, d0) {
                        lemma_simple_layout(s@, d0);
                    }
                }
            }
            return Err(e);
        },
    };
    let rev = match parse_string(s, j) {
        Ok(p) => {
            j = p.1;
            p.0
        },
        Err(e) => {
            proof {
                assert forall|d0: PayloadDigest| !(#[trigger] simple_digest_text(s@, d0)) by {
                    if simple_digest_text(s@, d0) {
                        lemma_simple_layout(s@, d0);
                    }
                }
            }
            return Err(e);
        },
    };
    j = match expect_char(s, j, ',') {
        Ok(j2) => j2,
        Err(e) => {
            proof {
                assert forall|d0: PayloadDigest| !(#[trigger] simple_digest_text(s@, d0)) by {
                    if simple_digest_text(s@, d0) {
                        lemma_simple_layout(s@, d0);
                    }
                }
            }
            return Err(e);
        },
    };
    j = match expect_char(s, j, ' ') {
        Ok(j2) => j2,
        Err(e) => {
            proof {
                assert forall|d0: PayloadDigest| !(#[trigger] simple_digest_text(s@, d0)) by {
                    if simple_digest_text(s@, d0) {
                        lemma_simple_layout(s@, d0);
                    }
                }
            }
            return Err(e);
        },
    };
    proof {
        assert forall|d0: PayloadDigest| #[trigger] simple_digest_text(s@, d0) implies (name@
            == d0.name@ && rev@ == d0.rev@ && j == 24 + d0.name@.len() + d0.rev@.len()) by {
            lemma_simple_layout(s@, d0);
        }
    }
    Ok((name, rev, j))
}

/// Read the `joints` section of a canonical digest at `j0`: the key,
/// `": "`, the joint map, and the following `", "`.  Success is owed
/// where the text is the canonical serialization of a digest with
/// empty maps and escape-free name and revision strings and `j0` is
/// the section's position in it.
#[verifier::rlimit(100)]
#[verifier::spinoff_prover]
fn read_ordered_joints(s: &str, j0: usize) -> (r: Result<(Vec<(String, Joint)>, usize), DigestError>)
    requires
        j0 <= s@.len(),
    ensures
        match r {
            Ok(p) => p.1 <= s@.len() && crate::model::unique_keys(p.0@) && forall|k: int|
                0 <= k < p.0@.len() ==> (#[trigger] p.0@[k]).1.wf(),
            Err(e) => e is ParseError,
        },
        forall|d0: PayloadDigest|
            (#[trigger] simple_digest_text(s@, d0) && j0 == 24 + d0.name@.len()
                + d0.rev@.len()) ==> (r matches Ok(p) && p.0@.len() == 0 && p.1 == 38
                + d0.name@.len() + d0.rev@.len()),
{
    let mut j: usize = j0;
    let key3 = match parse_string(s, j) {
        Ok(p) => {
            j = p.1;
            p.0
        },
        Err(e) => {
            proof {
                assert forall|d0: PayloadDigest|
                    !(#[trigger] simple_digest_text(s@, d0) && j0 == 24 + d0.name@.len()
                        + d0.rev@.len()) by {
                    if simple_digest_text(s@, d0) && j0 == 24 + d0.name@.len() + d0.rev@.len() {
                        lemma_simple_layout(s@, d0);
                    }
                }
            }
            return Err(e);
        },
    };
    if !str_lit_eq(&key3, "joints") {
        proof {
            assert forall|d0: PayloadDigest|
                !(#[trigger] simple_digest_text(s@, d0) && j0 == 24 + d0.name@.len()
                    + d0.rev@.len()) by {
                if simple_digest_text(s@, d0) && j0 == 24 + d0.name@.len() + d0.rev@.len() {
                    lemma_simple_layout(s@, d0);
                }
            }
        }
        return Err(parse_error("expected the joints field", j));
    }
    j = match expect_char(s, j, ':') {
        Ok(j2) => j2,
        Err(e) => {
            proof {
                assert forall|d0: PayloadDigest|
                    !(#[trigger] simple_digest_text(s@, d0) && j0 == 24 + d0.name@.len()
                        + d0.rev@.len()) by {
                    if simple_digest_text(s@, d0) && j0 == 24 + d0.name@.len() + d0.rev@.len() {
                        lemma_simple_layout(s@, d0);
                    }
                }
            }
            return Err(e);
        },
    };
    j = match expect_char(s, j, ' ') {
        Ok(j2) => j2,
        Err(e) => {
            proof {
                assert forall|d0: PayloadDigest|
                    !(#[trigger] simple_digest_text(s@, d0) && j0 == 24 + d0.name@.len()
                        + d0.rev@.len()) by {
                    if simple_digest_text(s@, d0) && j0 == 24 + d0.name@.len() + d0.rev@.len() {
                        lemma_simple_layout(s@, d0);
                    }
                }
            }
            return Err(e);
        },
    };
    let joints = match parse_joint_map(s, j) {
        Ok(p) => {
            j = p.1;
            p.0
        },
        Err(e) => {
            proof {
                assert forall|d0: PayloadDigest|
                    !(#[trigger] simple_digest_text(s@, d0) && j0 == 24 + d0.name@.len()
                        + d0.rev@.len()) by {
                    if simple_digest_text(s@, d0) && j0 == 24 + d0.name@.len() + d0.rev@.len() {
                        lemma_simple_layout(s@, d0);
                    }
                }
            }
            return Err(e);
        },
    };
    j = match expect_char(s, j, ',') {
        Ok(j2) => j2,
        Err(e) => {
            proof {
                assert forall|d0: PayloadDigest|
                    !(#[trigger] simple_digest_text(s@, d0) && j0 == 24 + d0.name@.len()
                        + d0.rev@.len()) by {
                    if simple_digest_text(s@, d0) && j0 == 24 + d0.name@.len() + d0.rev@.len() {
                        lemma_simple_layout(s@, d0);
                    }
                }
            }
            return Err(e);
        },
    };
    j = match expect_char(s, j, ' ') {
        Ok(j2) => j2,
        Err(e) => {
            proof {
                assert forall|d0: PayloadDigest|
                    !(#[trigger] simple_digest_text(s@, d0) && j0 == 24 + d0.name@.len()
                        + d0.rev@.len()) by {
                    if simple_digest_text(s@, d0) && j0 == 24 + d0.name@.len() + d0.rev@.len() {
                        lemma_simple_layout(s@, d0);
                    }
                }
            }
            return Err(e);
        },
    };
    proof {
        assert forall|d0: PayloadDigest|
            (#[trigger] simple_digest_text(s@, d0) && j0 == 24 + d0.name@.len()
                + d0.rev@.len()) implies (joints@.len() == 0 && j == 38 + d0.name@.len()
                + d0.rev@.len()) by {
            lemma_simple_layout(s@, d0);
        }
    }
    Ok((joints, j))
}

/// Read a digest whose text is in canonical form: the brace, the four
/// fields in schema order with `": "` and `", "` separators, and no
/// other whitespace.  Text in any other shape is rejected here and the
/// caller hands it to the general reader.  Success is owed on the
/// canonical serialization of any digest with empty maps and
/// escape-free name and revision strings, and the result then carries
/// exactly those fields.
#[verifier::rlimit(100)]
#[verifier::spinoff_prover]
fn read_ordered_digest(s: &str) -> (r: Result<PayloadDigest, DigestError>)
    ensures
        match r {
            Ok(d) => d.wf(),
            Err(e) => e is ParseError,
        },
        forall|d0: PayloadDigest| #[trigger] simple_digest_text(s@, d0) ==> (r matches Ok(d)
            && d.name@ == d0.name@ && d.rev@ == d0.rev@ && d.joints@.len() == 0
            && d.components@.len() == 0),
{
    let n = s.unicode_len();
    let header = match read_ordered_header(s) {
        Ok(p) => p,
        Err(e) => {
            return Err(e);
        },
    };
    let name = header.0;
    let rev = header.1;
    let joints_section = match read_ordered_joints(s, header.2) {
        Ok(p) => p,
        Err(e) => {
            return Err(e);
        },
    };
    let joints = joints_section.0;
    let mut j: usize = joints_section.1;
    let key4 = match parse_string(s, j) {
        Ok(p) => {
            j = p.1;
            p.0
        },
        Err(e) => {
            proof {
                assert forall|d0: PayloadDigest| !(#[trigger] simple_digest_text(s@, d0)) by {
                    if simple_digest_text(s@, d0) {
                        lemma_simple_layout(s@, d0);
                    }
                }
            }
            return Err(e);
        },
    };
    if !str_lit_eq(&key4, "components") {
        proof {
            assert forall|d0: PayloadDigest| !(#[trigger] simple_digest_text(s@, d0)) by {
                if simple_digest_text(s@, d0) {
                    lemma_simple_layout(s@, d0);
                }
            }
        }
        return Err(parse_error("expected the components field", j));
    }
    j = match expect_char(s, j, ':') {
        Ok(j2) => j2,
        Err(e) => {
            proof {
                assert forall|d0: PayloadDigest| !(#[trigger] simple_digest_text(s@, d0)) by {
                    if simple_digest_text(s@, d0) {
                        lemma_simple_layout(s@, d0);
                    }
                }
            }
            return Err(e);
        },
    };
    j = match expect_char(s, j, ' ') {
        Ok(j2) => j2,
        Err(e) => {
            proof {
                assert forall|d0: PayloadDigest| !(#[trigger] simple_digest_text(s@, d0)) by {
                    if simple_digest_text(s@, d0) {
                        lemma_simple_layout(s@, d0);
                    }
                }
            }
            return Err(e);
        },
    };
    let components = match parse_component_map(s, j) {
        Ok(p) => {
            j = p.1;
            p.0
        },
        Err(e) => {
            proof {
                assert forall|d0: PayloadDigest| !(#[trigger] simple_digest_text(s@, d0)) by {
                    if simple_digest_text(s@, d0) {
                        lemma_simple_layout(s@, d0);
                    }
                }
            }
            return Err(e);
        },
    };
    j = match expect_char(s, j, '}') {
        Ok(j2) => j2,
        Err(e) => {
            proof {
                assert forall|d0: PayloadDigest| !(#[trigger] simple_digest_text(s@, d0)) by {
                    if simple_digest_text(s@, d0) {
                        lemma_simple_layout(s@, d0);
                    }
                }
            }
            return Err(e);
        },
    };
    if j != n {
        proof {
            assert forall|d0: PayloadDigest| !(#[trigger] simple_digest_text(s@, d0)) by {
                if simple_digest_text(s@, d0) {
                    lemma_simple_layout(s@, d0);
                }
            }
        }
        return Err(parse_error("unexpected text after the digest object", j));
    }
    proof {
        assert forall|d0: PayloadDigest| #[trigger] simple_digest_text(s@, d0) implies (name@
            == d0.name@ && rev@ == d0.rev@ && joints@.len() == 0 && components@.len() == 0) by {
            lemma_simple_layout(s@, d0);
        }
    }
    Ok(PayloadDigest { name, rev, joints, components })
}

/// Parse the text of a `payload_digest.json` file into a payload digest.
///
/// The text must be a single JSON object with the required fields
/// `name`, `rev`, `joints` and `components`; anything else — malformed
/// JSON, a missing required field, a wrong type, a duplicate key — is a
/// `ParseError` whose message names the character position, and the
/// parse is all-or-nothing: on error no partial model is observable.
/// On success the digest is well formed: distinct identifier keys and
/// every anchor within the coordinate limit.
///
/// Success is owed and the result is pinned on the canonical
/// serialization of any digest with empty maps and escape-free name
/// and revision strings (`simple_digest_text`): such text always loads,
/// with exactly those fields.  On other texts the contract pins the
/// error kind and the result's invariant; `read_canonical_digest`
/// additionally certifies any canonical text it accepts.
pub fn read_payload_digest(digest_text: &str) -> (r: Result<PayloadDigest, DigestError>)
    ensures
        match r {
            Ok(d) => d.wf(),
            Err(e) => e is ParseError,
        },
        forall|d0: PayloadDigest| #[trigger] simple_digest_text(digest_text@, d0) ==> (r matches
            Ok(d) && d.name@ == d0.name@ && d.rev@ == d0.rev@ && d.joints@.len() == 0
            && d.components@.len() == 0),
{
    let s = digest_text;
    let fast = read_ordered_digest(s);
    match fast {
        Ok(d) => {
            return Ok(d);
        },
        Err(_) => {},
    }
    proof {
        assert forall|d0: PayloadDigest| !(#[trigger] simple_digest_text(digest_text@, d0)) by {
            assert(s@ == digest_text@);
        }
    }
    let n = s.unicode_len();
    let mut j: usize = skip_ws(s, 0);
    j = match expect_char(s, j, '{') {
        Ok(j2) => j2,
        Err(e) => {
            return Err(e);
        },
    };
    let mut name: Option<String> = None;
    let mut rev: Option<String> = None;
    let mut joints: Option<Vec<(String, Joint)>> = None;
    let mut components: Option<Vec<(String, Component)>> = None;
    j = skip_ws(s, j);
    if j < n && s.get_char(j) == '}' {
        let rest = skip_ws(s, j + 1);
        if rest != n {
            return Err(parse_error("unexpected text after the digest object", rest));
        }
        return finish_digest(name, rev, joints, components, rest);
    }
    loop
        invariant
            n == s@.len(),
            0 <= j <= n,
            forall|d0: PayloadDigest| !(#[trigger] simple_digest_text(digest_text@, d0)),
            joints matches Some(v) ==> crate::model::unique_keys(v@) && forall|k: int|
                0 <= k < v@.len() ==> (#[trigger] v@[k]).1.wf(),
            components matches Some(v) ==> crate::model::unique_keys(v@) && forall|k: int|
                0 <= k < v@.len() ==> (#[trigger] v@[k]).1.wf(),
        decreases n - j,
    {
        let key = match parse_string(s, j) {
            Ok(p) => {
                j = p.1;
                p.0
            },
            Err(e) => {
                return Err(e);
            },
        };
        j = skip_ws(s, j);
        j = match expect_char(s, j, ':') {
            Ok(j2) => j2,
            Err(e) => {
                return Err(e);
            },
        };
        j = skip_ws(s, j);
        if str_lit_eq(&key, "name") {
            if name.is_some() {
                return Err(parse_error("duplicate digest field", j));
            }
            match parse_string(s, j) {
                Ok(p) => {
                    name = Some(p.0);
                    j = p.1;
                },
                Err(e) => {
                    return Err(e);
                },
            }
        } else if str_lit_eq(&key, "rev") {
            if rev.is_some() {
                return Err(parse_error("duplicate digest field", j));
            }
            match parse_string(s, j) {
                Ok(p) => {
                    rev = Some(p.0);
                    j = p.1;
                },
                Err(e) => {
                    return Err(e);
                },
            }
        } else if str_lit_eq(&key, "joints") {
            if joints.is_some() {
                return Err(parse_error("duplicate digest field", j));
            }
            match parse_joint_map(s, j) {
                Ok(p) => {
                    joints = Some(p.0);
                    j = p.1;
                },
                Err(e) => {
                    return Err(e);
                },
            }
        } else if str_lit_eq(&key, "components") {
            if components.is_some() {
                return Err(parse_error("duplicate digest field", j));
            }
            match parse_component_map(s, j) {
                Ok(p) => {
                    components = Some(p.0);
                    j = p.1;
                },
                Err(e) => {
                    return Err(e);
                },
            }
        } else {
            j = match skip_value(s, j) {
                Ok(j2) => j2,
                Err(e) => {
                    return Err(e);
                },
            };
        }
        j = skip_ws(s, j);
        if j < n && s.get_char(j) == '}' {
            let rest = skip_ws(s, j + 1);
            if rest != n {
                return Err(parse_error("unexpected text after the digest object", rest));
            }
            return finish_digest(name, rev, joints, components, rest);
        }
        j = match expect_char(s, j, ',') {
            Ok(j2) => j2,
            Err(e) => {
                return Err(e);
            },
        };
        j = skip_ws(s, j);
    }
}

/// Parse digest text and certify it canonical.  The result is tied to
/// the input exactly: `Some(d)` is returned only when the text is,
/// character for character, the canonical serialization of `d` — so the
/// name, revision, entry counts and every joint and component field of
/// `d` are precisely what the text spells, and serializing `d` again
/// reproduces the text.  Text that parses but is not canonical (other
/// whitespace, field order, or escape choices) yields `None`; use
/// `read_payload_digest` for those.
pub fn read_canonical_digest(digest_text: &str) -> (r: Option<PayloadDigest>)
    ensures
        r matches Some(d) ==> d.wf() && digest_text@ == crate::serialize::spec_digest_json(d),
        forall|d0: PayloadDigest| #[trigger] simple_digest_text(digest_text@, d0) ==> r is Some,
{
    match read_payload_digest(digest_text) {
        Ok(d) => {
            let again = crate::serialize::digest_to_json(&d);
            if again == digest_text.to_owned() {
                Some(d)
            } else {
                proof {
                    assert forall|d0: PayloadDigest|
                        !(#[trigger] simple_digest_text(digest_text@, d0)) by {
                        if simple_digest_text(digest_text@, d0) {
                            assert(d.joints@ =~= d0.joints@);
                            assert(d.components@ =~= d0.components@);
                            assert(crate::serialize::spec_digest_json(d)
                                == crate::serialize::spec_digest_json(d0));
                        }
                    }
                }
                None
            }
        },
        Err(_) => None,
    }
}

/// Join a directory path with the fixed digest file name.
pub fn digest_file_path(directory: &str) -> (p: String)
    ensures
        p@ == directory@ + "/payload_digest.json"@,
{
    String::from_str(directory).concat("/payload_digest.json")
}

} // verus!
