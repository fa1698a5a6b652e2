//! Serializer for the digest model back into `payload_digest.json` text.
//!
//! The output is canonical: fields in schema order, one space after each
//! separator, coordinates printed with six fractional digits.  Every
//! function's output is pinned exactly by a specification-level printer,
//! and the canonical text lies inside the language the parser accepts.

use vstd::prelude::*;
use vstd::string::StrSliceExecFns;
use vstd::string::StringExecFns;

use crate::geometry::COORD_LIMIT_MICROS;
use crate::geometry::Point3;
use crate::geometry::point_in_bounds;
use crate::model::Component;
use crate::model::Joint;
use crate::model::PayloadDigest;

verus! {

/// How one character is written inside a JSON string.
pub open spec fn spec_escape_one(c: char) -> Seq<char> {
    if c == '"' {
        seq!['\\', '"']
    } else if c == '\\' {
        seq!['\\', '\\']
    } else if c == '\n' {
        seq!['\\', 'n']
    } else if c == '\r' {
        seq!['\\', 'r']
    } else if c == '\t' {
        seq!['\\', 't']
    } else if c == '\u{0008}' {
        seq!['\\', 'b']
    } else if c == '\u{000C}' {
        seq!['\\', 'f']
    } else {
        seq![c]
    }
}

/// The escaped body of a JSON string.
pub open spec fn spec_escape(s: Seq<char>) -> Seq<char>
    decreases s.len(),
{
    if s.len() == 0 {
        Seq::empty()
    } else {
        spec_escape_one(s[0]) + spec_escape(s.drop_first())
    }
}

/// Escaping distributes over concatenation.
proof fn lemma_escape_concat(a: Seq<char>, b: Seq<char>)
    ensures
        spec_escape(a + b) == spec_escape(a) + spec_escape(b),
    decreases a.len(),
{
    if a.len() == 0 {
        assert(a + b =~= b);
        assert(spec_escape(a) + spec_escape(b) =~= spec_escape(b));
    } else {
        assert((a + b).len() > 0);
        assert((a + b)[0] == a[0]);
        assert((a + b).drop_first() =~= a.drop_first() + b);
        lemma_escape_concat(a.drop_first(), b);
        assert(spec_escape_one(a[0]) + (spec_escape(a.drop_first()) + spec_escape(b)) =~= (
        spec_escape_one(a[0]) + spec_escape(a.drop_first())) + spec_escape(b));
    }
}

/// Escaping a one-character sequence is escaping that character.
proof fn lemma_escape_single(c: char)
    ensures
        spec_escape(seq![c]) == spec_escape_one(c),
{
    assert(seq![c].drop_first() =~= Seq::<char>::empty());
    assert(spec_escape(Seq::<char>::empty()) == Seq::<char>::empty());
    assert(seq![c][0] == c);
    assert(spec_escape_one(c) + Seq::<char>::empty() =~= spec_escape_one(c));
}

/// A JSON string: quote, escaped body, quote.
pub open spec fn spec_json_string(s: Seq<char>) -> Seq<char> {
    seq!['"'] + spec_escape(s) + seq!['"']
}

/// A character that prints as itself inside a JSON string.
pub open spec fn plain_char(c: char) -> bool {
    c != '"' && c != '\\' && c != '\n' && c != '\r' && c != '\t' && c != '\u{0008}' && c
        != '\u{000C}'
}

/// A sequence whose characters all print as themselves.
pub open spec fn escape_free(v: Seq<char>) -> bool {
    forall|m: int| 0 <= m < v.len() ==> plain_char(#[trigger] v[m])
}

/// An escape-free sequence is its own escaped body, so its JSON string
/// form is the sequence between two quotes, verbatim.
pub proof fn lemma_escape_free_identity(v: Seq<char>)
    requires
        escape_free(v),
    ensures
        spec_escape(v) == v,
        spec_json_string(v) == seq!['"'] + v + seq!['"'],
    decreases v.len(),
{
    if v.len() == 0 {
        assert(spec_escape(v) =~= v);
    } else {
        assert(plain_char(v[0]));
        assert(spec_escape_one(v[0]) =~= seq![v[0]]);
        assert forall|m: int| 0 <= m < v.drop_first().len() implies plain_char(
            #[trigger] v.drop_first()[m],
        ) by {
            assert(v.drop_first()[m] == v[m + 1]);
        }
        lemma_escape_free_identity(v.drop_first());
        assert(spec_escape(v) =~= v);
    }
}

/// Write the escaped body of `s`.
fn escape_body(s: &str) -> (r: String)
    ensures
        r@ == spec_escape(s@),
{
    let n = s.unicode_len();
    let mut out = String::new();
    let mut k: usize = 0;
    while k < n
        invariant
            n == s@.len(),
            0 <= k <= n,
            out@ == spec_escape(s@.take(k as int)),
        decreases n - k,
    {
        let c = s.get_char(k);
        proof {
            assert(s@.take(k as int + 1) =~= s@.take(k as int) + seq![s@[k as int]]);
            lemma_escape_concat(s@.take(k as int), seq![s@[k as int]]);
            lemma_escape_single(s@[k as int]);
        }
        if c == '"' {
            out.append("\\\"");
            proof {
                reveal_strlit("\\\"");
                assert(("\\\"")@ =~= spec_escape_one(c));
            }
        } else if c == '\\' {
            out.append("\\\\");
            proof {
                reveal_strlit("\\\\");
                assert(("\\\\")@ =~= spec_escape_one(c));
            }
        } else if c == '\n' {
            out.append("\\n");
            proof {
                reveal_strlit("\\n");
                assert(("\\n")@ =~= spec_escape_one(c));
            }
        } else if c == '\r' {
            out.append("\\r");
            proof {
                reveal_strlit("\\r");
                assert(("\\r")@ =~= spec_escape_one(c));
            }
        } else if c == '\t' {
            out.append("\\t");
            proof {
                reveal_strlit("\\t");
                assert(("\\t")@ =~= spec_escape_one(c));
            }
        } else if c == '\u{0008}' {
            out.append("\\b");
            proof {
                reveal_strlit("\\b");
                assert(("\\b")@ =~= spec_escape_one(c));
            }
        } else if c == '\u{000C}' {
            out.append("\\f");
            proof {
                reveal_strlit("\\f");
                assert(("\\f")@ =~= spec_escape_one(c));
            }
        } else {
            let piece = s.substring_char(k, k + 1);
            out.append(piece);
            proof {
                assert(piece@ =~= seq![s@[k as int]]);
                assert(spec_escape_one(s@[k as int]) =~= seq![s@[k as int]]);
            }
        }
        k = k + 1;
    }
    proof {
        assert(s@.take(n as int) =~= s@);
    }
    out
}

/// Write `s` as a JSON string.
fn json_string(s: &str) -> (r: String)
    ensures
        r@ == spec_json_string(s@),
{
    let mut out = String::from_str("\"");
    proof {
        reveal_strlit("\"");
        assert(("\"")@ =~= seq!['"']);
    }
    let body = escape_body(s);
    out.append(body.as_str());
    out.append("\"");
    proof {
        assert(seq!['"'] + spec_escape(s@) + seq!['"'] =~= (seq!['"'] + spec_escape(s@))
            + seq!['"']);
    }
    out
}

/// The decimal digit character for `d`.
pub open spec fn spec_digit_char(d: int) -> char {
    if d == 0 {
        '0'
    } else if d == 1 {
        '1'
    } else if d == 2 {
        '2'
    } else if d == 3 {
        '3'
    } else if d == 4 {
        '4'
    } else if d == 5 {
        '5'
    } else if d == 6 {
        '6'
    } else if d == 7 {
        '7'
    } else if d == 8 {
        '8'
    } else {
        '9'
    }
}

/// Unsigned decimal text of `n`, no leading zeros (except `0` itself).
pub open spec fn spec_udec(n: int) -> Seq<char>
    decreases n,
{
    if n < 10 {
        seq![spec_digit_char(n)]
    } else {
        spec_udec(n / 10) + seq![spec_digit_char(n % 10)]
    }
}

/// The one-character string for digit `d`.
fn digit_str(d: u64) -> (r: &'static str)
    requires
        d <= 9,
    ensures
        r@ == seq![spec_digit_char(d as int)],
{
    if d == 0 {
        proof {
            reveal_strlit("0");
            assert(("0")@ =~= seq!['0']);
        }
        "0"
    } else if d == 1 {
        proof {
            reveal_strlit("1");
            assert(("1")@ =~= seq!['1']);
        }
        "1"
    } else if d == 2 {
        proof {
            reveal_strlit("2");
            assert(("2")@ =~= seq!['2']);
        }
        "2"
    } else if d == 3 {
        proof {
            reveal_strlit("3");
            assert(("3")@ =~= seq!['3']);
        }
        "3"
    } else if d == 4 {
        proof {
            reveal_strlit("4");
            assert(("4")@ =~= seq!['4']);
        }
        "4"
    } else if d == 5 {
        proof {
            reveal_strlit("5");
            assert(("5")@ =~= seq!['5']);
        }
        "5"
    } else if d == 6 {
        proof {
            reveal_strlit("6");
            assert(("6")@ =~= seq!['6']);
        }
        "6"
    } else if d == 7 {
        proof {
            reveal_strlit("7");
            assert(("7")@ =~= seq!['7']);
        }
        "7"
    } else if d == 8 {
        proof {
            reveal_strlit("8");
            assert(("8")@ =~= seq!['8']);
        }
        "8"
    } else {
        proof {
            reveal_strlit("9");
            assert(("9")@ =~= seq!['9']);
        }
        "9"
    }
}

/// Unsigned decimal text of `n`.
pub(crate) fn udec_string(n: u64) -> (r: String)
    ensures
        r@ == spec_udec(n as int),
    decreases n,
{
    if n < 10 {
        String::from_str(digit_str(n))
    } else {
        let high = udec_string(n / 10);
        let r = high.concat(digit_str(n % 10));
        r
    }
}

/// Exactly six zero-padded fractional digits of `f` micro-units.
pub open spec fn spec_frac6(f: int) -> Seq<char> {
    seq![
        spec_digit_char(f / 100_000 % 10),
        spec_digit_char(f / 10_000 % 10),
        spec_digit_char(f / 1_000 % 10),
        spec_digit_char(f / 100 % 10),
        spec_digit_char(f / 10 % 10),
        spec_digit_char(f % 10),
    ]
}

/// Write the six fractional digits of `f`.
fn frac6_string(f: u64) -> (r: String)
    requires
        f <= 999_999,
    ensures
        r@ == spec_frac6(f as int),
{
    let mut out = String::from_str(digit_str(f / 100_000 % 10));
    out.append(digit_str(f / 10_000 % 10));
    out.append(digit_str(f / 1_000 % 10));
    out.append(digit_str(f / 100 % 10));
    out.append(digit_str(f / 10 % 10));
    out.append(digit_str(f % 10));
    proof {
        assert(out@ =~= spec_frac6(f as int));
    }
    out
}

/// Canonical text of a coordinate in micro-units: optional sign, world
/// units, a decimal point, six fractional digits.
pub open spec fn spec_number(v: int) -> Seq<char> {
    if v < 0 {
        seq!['-'] + spec_number_abs(-v)
    } else {
        spec_number_abs(v)
    }
}

/// Canonical text of a non-negative coordinate in micro-units.
pub open spec fn spec_number_abs(a: int) -> Seq<char> {
    spec_udec(a / 1_000_000) + seq!['.'] + spec_frac6(a % 1_000_000)
}

/// Write a coordinate value.
fn number_string(v: i64) -> (r: String)
    requires
        -COORD_LIMIT_MICROS <= v <= COORD_LIMIT_MICROS,
    ensures
        r@ == spec_number(v as int),
{
    let a: i64 = if v < 0 {
        -v
    } else {
        v
    };
    let units: u64 = (a / 1_000_000) as u64;
    let frac: u64 = (a % 1_000_000) as u64;
    let mut out = if v < 0 {
        proof {
            reveal_strlit("-");
            assert(("-")@ =~= seq!['-']);
        }
        String::from_str("-")
    } else {
        String::new()
    };
    let u = udec_string(units);
    out.append(u.as_str());
    out.append(".");
    proof {
        reveal_strlit(".");
        assert((".")@ =~= seq!['.']);
    }
    let fr = frac6_string(frac);
    out.append(fr.as_str());
    proof {
        if v < 0 {
            assert(out@ =~= seq!['-'] + spec_number_abs(a as int));
        } else {
            assert(out@ =~= spec_number_abs(a as int));
        }
    }
    out
}

/// A coordinate triple `[x, y, z]`.
pub open spec fn spec_point_json(p: Point3) -> Seq<char> {
    seq!['['] + spec_number(p.x as int) + seq![',', ' '] + spec_number(p.y as int) + seq![',', ' ']
        + spec_number(p.z as int) + seq![']']
}

/// The four characters of the `null` keyword.
pub open spec fn spec_null() -> Seq<char> {
    seq!['n', 'u', 'l', 'l']
}

/// An optional coordinate triple; absence prints as `null`.
pub open spec fn spec_opt_point_json(c: Option<Point3>) -> Seq<char> {
    match c {
        Some(p) => spec_point_json(p),
        None => spec_null(),
    }
}

/// An optional string; absence prints as `null`.
pub open spec fn spec_opt_string_json(s: Option<String>) -> Seq<char> {
    match s {
        Some(v) => spec_json_string(v@),
        None => spec_null(),
    }
}

/// Write a coordinate triple.
fn point_json(p: &Point3) -> (r: String)
    requires
        point_in_bounds(*p),
    ensures
        r@ == spec_point_json(*p),
{
    let mut out = String::from_str("[");
    proof {
        reveal_strlit("[");
        assert(("[")@ =~= seq!['[']);
        reveal_strlit(", ");
        assert((", ")@ =~= seq![',', ' ']);
        reveal_strlit("]");
        assert(("]")@ =~= seq![']']);
    }
    let x = number_string(p.x);
    out.append(x.as_str());
    out.append(", ");
    let y = number_string(p.y);
    out.append(y.as_str());
    out.append(", ");
    let z = number_string(p.z);
    out.append(z.as_str());
    out.append("]");
    out
}

/// Write `null`.
fn null_json() -> (r: String)
    ensures
        r@ == spec_null(),
{
    proof {
        reveal_strlit("null");
        assert(("null")@ =~= spec_null());
    }
    String::from_str("null")
}

/// Write an optional coordinate triple.
fn opt_point_json(c: &Option<Point3>) -> (r: String)
    requires
        c matches Some(p) ==> point_in_bounds(*p),
    ensures
        r@ == spec_opt_point_json(*c),
{
    match c {
        Some(p) => point_json(p),
        None => null_json(),
    }
}

/// Write an optional string.
fn opt_string_json(s: &Option<String>) -> (r: String)
    ensures
        r@ == spec_opt_string_json(*s),
{
    match s {
        Some(v) => json_string(v.as_str()),
        None => null_json(),
    }
}

/// The comma-separated member identifiers of a joint.
pub open spec fn spec_members_body(ms: Seq<String>) -> Seq<char>
    decreases ms.len(),
{
    if ms.len() == 0 {
        Seq::empty()
    } else if ms.len() == 1 {
        spec_json_string(ms[0]@)
    } else {
        spec_members_body(ms.drop_last()) + seq![',', ' '] + spec_json_string(ms.last()@)
    }
}

/// A member identifier array.
pub open spec fn spec_members_json(ms: Seq<String>) -> Seq<char> {
    seq!['['] + spec_members_body(ms) + seq![']']
}

/// Write a member identifier array.
fn members_json(ms: &Vec<String>) -> (r: String)
    ensures
        r@ == spec_members_json(ms@),
{
    proof {
        reveal_strlit("[");
        assert(("[")@ =~= seq!['[']);
        reveal_strlit(", ");
        assert((", ")@ =~= seq![',', ' ']);
        reveal_strlit("]");
        assert(("]")@ =~= seq![']']);
    }
    let mut out = String::from_str("[");
    let n = ms.len();
    let mut k: usize = 0;
    while k < n
        invariant
            n == ms@.len(),
            0 <= k <= n,
            out@ == seq!['['] + spec_members_body(ms@.take(k as int)),
        decreases n - k,
    {
        proof {
            reveal_strlit(", ");
            assert((", ")@ =~= seq![',', ' ']);
        }
        if k > 0 {
            out.append(", ");
        }
        let js = json_string(ms[k].as_str());
        out.append(js.as_str());
        proof {
            let taken = ms@.take(k as int + 1);
            assert(taken.last() == ms@[k as int]);
            if k == 0 {
                assert(out@ =~= seq!['['] + spec_members_body(taken));
            } else {
                assert(taken.drop_last() =~= ms@.take(k as int));
                assert(out@ =~= seq!['['] + spec_members_body(taken));
            }
        }
        k = k + 1;
    }
    out.append("]");
    proof {
        assert(ms@.take(n as int) =~= ms@);
    }
    out
}

/// The comma-separated face points of a component.
pub open spec fn spec_faces_body(fs: Seq<Point3>) -> Seq<char>
    decreases fs.len(),
{
    if fs.len() == 0 {
        Seq::empty()
    } else if fs.len() == 1 {
        spec_point_json(fs[0])
    } else {
        spec_faces_body(fs.drop_last()) + seq![',', ' '] + spec_point_json(fs.last())
    }
}

/// A face point array.
pub open spec fn spec_faces_json(fs: Seq<Point3>) -> Seq<char> {
    seq!['['] + spec_faces_body(fs) + seq![']']
}

/// Write a face point array.
fn faces_json(fs: &Vec<Point3>) -> (r: String)
    requires
        forall|k: int| 0 <= k < fs@.len() ==> point_in_bounds(#[trigger] fs@[k]),
    ensures
        r@ == spec_faces_json(fs@),
{
    proof {
        reveal_strlit("[");
        assert(("[")@ =~= seq!['[']);
        reveal_strlit("]");
        assert(("]")@ =~= seq![']']);
    }
    let mut out = String::from_str("[");
    let n = fs.len();
    let mut k: usize = 0;
    while k < n
        invariant
            n == fs@.len(),
            0 <= k <= n,
            forall|m: int| 0 <= m < fs@.len() ==> point_in_bounds(#[trigger] fs@[m]),
            out@ == seq!['['] + spec_faces_body(fs@.take(k as int)),
        decreases n - k,
    {
        proof {
            reveal_strlit(", ");
            assert((", ")@ =~= seq![',', ' ']);
        }
        if k > 0 {
            out.append(", ");
        }
        let js = point_json(&fs[k]);
        out.append(js.as_str());
        proof {
            let taken = fs@.take(k as int + 1);
            assert(taken.last() == fs@[k as int]);
            if k == 0 {
                assert(out@ =~= seq!['['] + spec_faces_body(taken));
            } else {
                assert(taken.drop_last() =~= fs@.take(k as int));
                assert(out@ =~= seq!['['] + spec_faces_body(taken));
            }
        }
        k = k + 1;
    }
    out.append("]");
    proof {
        assert(fs@.take(n as int) =~= fs@);
    }
    out
}

/// An optional face point array; absence prints as `null`.
pub open spec fn spec_opt_faces_json(fs: Option<Vec<Point3>>) -> Seq<char> {
    match fs {
        Some(v) => spec_faces_json(v@),
        None => spec_null(),
    }
}

/// Write an optional face point array.
fn opt_faces_json(fs: &Option<Vec<Point3>>) -> (r: String)
    requires
        fs matches Some(v) ==> forall|k: int|
            0 <= k < v@.len() ==> point_in_bounds(#[trigger] v@[k]),
    ensures
        r@ == spec_opt_faces_json(*fs),
{
    match fs {
        Some(v) => faces_json(v),
        None => null_json(),
    }
}

/// A joint object, fields in schema order.
pub open spec fn spec_joint_json(j: Joint) -> Seq<char> {
    seq!['{'] + spec_json_string(("joint_number")@) + seq![':', ' '] + spec_json_string(
        j.joint_number@,
    ) + seq![',', ' '] + spec_json_string(("joint_design")@) + seq![':', ' '] + spec_json_string(
        j.joint_design@,
    ) + seq![',', ' '] + spec_json_string(("center")@) + seq![':', ' '] + spec_opt_point_json(
        j.center,
    ) + seq![',', ' '] + spec_json_string(("members")@) + seq![':', ' '] + spec_members_json(
        j.members@,
    ) + seq!['}']
}

/// Write a joint object.
fn joint_json(j: &Joint) -> (r: String)
    requires
        j.wf(),
    ensures
        r@ == spec_joint_json(*j),
{
    proof {
        reveal_strlit("{");
        assert(("{")@ =~= seq!['{']);
        reveal_strlit(": ");
        assert((": ")@ =~= seq![':', ' ']);
        reveal_strlit(", ");
        assert((", ")@ =~= seq![',', ' ']);
        reveal_strlit("}");
        assert(("}")@ =~= seq!['}']);
    }
    let mut out = String::from_str("{");
    let k1 = json_string("joint_number");
    out.append(k1.as_str());
    out.append(": ");
    let v1 = json_string(j.joint_number.as_str());
    out.append(v1.as_str());
    out.append(", ");
    let k2 = json_string("joint_design");
    out.append(k2.as_str());
    out.append(": ");
    let v2 = json_string(j.joint_design.as_str());
    out.append(v2.as_str());
    out.append(", ");
    let k3 = json_string("center");
    out.append(k3.as_str());
    out.append(": ");
    let v3 = opt_point_json(&j.center);
    out.append(v3.as_str());
    out.append(", ");
    let k4 = json_string("members");
    out.append(k4.as_str());
    out.append(": ");
    let v4 = members_json(&j.members);
    out.append(v4.as_str());
    out.append("}");
    out
}

/// A component object, fields in schema order.
pub open spec fn spec_component_json(c: Component) -> Seq<char> {
    seq!['{'] + spec_json_string(("design_id")@) + seq![':', ' '] + spec_json_string(c.design_id@)
        + seq![',', ' '] + spec_json_string(("part_number")@) + seq![':', ' '] + spec_json_string(
        c.part_number@,
    ) + seq![',', ' '] + spec_json_string(("description")@) + seq![':', ' '] + spec_json_string(
        c.description@,
    ) + seq![',', ' '] + spec_json_string(("geom_path")@) + seq![':', ' '] + spec_opt_string_json(
        c.geom_path,
    ) + seq![',', ' '] + spec_json_string(("loc")@) + seq![':', ' '] + spec_opt_point_json(c.loc)
        + seq![',', ' '] + spec_json_string(("faces")@) + seq![':', ' '] + spec_opt_faces_json(
        c.faces,
    ) + seq!['}']
}

/// Write a component object.
fn component_json(c: &Component) -> (r: String)
    requires
        c.wf(),
    ensures
        r@ == spec_component_json(*c),
{
    proof {
        reveal_strlit("{");
        assert(("{")@ =~= seq!['{']);
        reveal_strlit(": ");
        assert((": ")@ =~= seq![':', ' ']);
        reveal_strlit(", ");
        assert((", ")@ =~= seq![',', ' ']);
        reveal_strlit("}");
        assert(("}")@ =~= seq!['}']);
    }
    let mut out = String::from_str("{");
    let k1 = json_string("design_id");
    out.append(k1.as_str());
    out.append(": ");
    let v1 = json_string(c.design_id.as_str());
    out.append(v1.as_str());
    out.append(", ");
    let k2 = json_string("part_number");
    out.append(k2.as_str());
    out.append(": ");
    let v2 = json_string(c.part_number.as_str());
    out.append(v2.as_str());
    out.append(", ");
    let k3 = json_string("description");
    out.append(k3.as_str());
    out.append(": ");
    let v3 = json_string(c.description.as_str());
    out.append(v3.as_str());
    out.append(", ");
    let k4 = json_string("geom_path");
    out.append(k4.as_str());
    out.append(": ");
    let v4 = opt_string_json(&c.geom_path);
    out.append(v4.as_str());
    out.append(", ");
    let k5 = json_string("loc");
    out.append(k5.as_str());
    out.append(": ");
    let v5 = opt_point_json(&c.loc);
    out.append(v5.as_str());
    out.append(", ");
    let k6 = json_string("faces");
    out.append(k6.as_str());
    out.append(": ");
    let v6 = opt_faces_json(&c.faces);
    out.append(v6.as_str());
    out.append("}");
    out
}

/// The comma-separated entries of the joint map.
pub open spec fn spec_joint_entries(es: Seq<(String, Joint)>) -> Seq<char>
    decreases es.len(),
{
    if es.len() == 0 {
        Seq::empty()
    } else if es.len() == 1 {
        spec_json_string(es[0].0@) + seq![':', ' '] + spec_joint_json(es[0].1)
    } else {
        spec_joint_entries(es.drop_last()) + seq![',', ' '] + spec_json_string(es.last().0@)
            + seq![':', ' '] + spec_joint_json(es.last().1)
    }
}

/// The joint map object.
pub open spec fn spec_joint_map_json(es: Seq<(String, Joint)>) -> Seq<char> {
    seq!['{'] + spec_joint_entries(es) + seq!['}']
}

/// Write the joint map object.
fn joint_map_json(es: &Vec<(String, Joint)>) -> (r: String)
    requires
        forall|k: int| 0 <= k < es@.len() ==> (#[trigger] es@[k]).1.wf(),
    ensures
        r@ == spec_joint_map_json(es@),
{
    proof {
        reveal_strlit("{");
        assert(("{")@ =~= seq!['{']);
        reveal_strlit(": ");
        assert((": ")@ =~= seq![':', ' ']);
        reveal_strlit(", ");
        assert((", ")@ =~= seq![',', ' ']);
        reveal_strlit("}");
        assert(("}")@ =~= seq!['}']);
    }
    let mut out = String::from_str("{");
    let n = es.len();
    let mut k: usize = 0;
    while k < n
        invariant
            n == es@.len(),
            0 <= k <= n,
            forall|m: int| 0 <= m < es@.len() ==> (#[trigger] es@[m]).1.wf(),
            out@ == seq!['{'] + spec_joint_entries(es@.take(k as int)),
        decreases n - k,
    {
        proof {
            reveal_strlit(", ");
            assert((", ")@ =~= seq![',', ' ']);
            reveal_strlit(": ");
            assert((": ")@ =~= seq![':', ' ']);
        }
        if k > 0 {
            out.append(", ");
        }
        let key = json_string(es[k].0.as_str());
        out.append(key.as_str());
        out.append(": ");
        let value = joint_json(&es[k].1);
        out.append(value.as_str());
        proof {
            let taken = es@.take(k as int + 1);
            assert(taken.last() == es@[k as int]);
            if k == 0 {
                assert(out@ =~= seq!['{'] + spec_joint_entries(taken));
            } else {
                assert(taken.drop_last() =~= es@.take(k as int));
                assert(out@ =~= seq!['{'] + spec_joint_entries(taken));
            }
        }
        k = k + 1;
    }
    out.append("}");
    proof {
        assert(es@.take(n as int) =~= es@);
    }
    out
}

/// The comma-separated entries of the component map.
pub open spec fn spec_component_entries(es: Seq<(String, Component)>) -> Seq<char>
    decreases es.len(),
{
    if es.len() == 0 {
        Seq::empty()
    } else if es.len() == 1 {
        spec_json_string(es[0].0@) + seq![':', ' '] + spec_component_json(es[0].1)
    } else {
        spec_component_entries(es.drop_last()) + seq![',', ' '] + spec_json_string(es.last().0@)
            + seq![':', ' '] + spec_component_json(es.last().1)
    }
}

/// The component map object.
pub open spec fn spec_component_map_json(es: Seq<(String, Component)>) -> Seq<char> {
    seq!['{'] + spec_component_entries(es) + seq!['}']
}

/// Write the component map object.
#[verifier::rlimit(30)]
fn component_map_json(es: &Vec<(String, Component)>) -> (r: String)
    requires
        forall|k: int| 0 <= k < es@.len() ==> (#[trigger] es@[k]).1.wf(),
    ensures
        r@ == spec_component_map_json(es@),
{
    proof {
        reveal_strlit("{");
        assert(("{")@ =~= seq!['{']);
        reveal_strlit("}");
        assert(("}")@ =~= seq!['}']);
    }
    let mut out = String::from_str("{");
    let n = es.len();
    let mut k: usize = 0;
    while k < n
        invariant
            n == es@.len(),
            0 <= k <= n,
            forall|m: int| 0 <= m < es@.len() ==> (#[trigger] es@[m]).1.wf(),
            out@ == seq!['{'] + spec_component_entries(es@.take(k as int)),
        decreases n - k,
    {
        proof {
            reveal_strlit(", ");
            assert((", ")@ =~= seq![',', ' ']);
            reveal_strlit(": ");
            assert((": ")@ =~= seq![':', ' ']);
        }
        if k > 0 {
            out.append(", ");
        }
        let key = json_string(es[k].0.as_str());
        out.append(key.as_str());
        out.append(": ");
        let value = component_json(&es[k].1);
        out.append(value.as_str());
        proof {
            let taken = es@.take(k as int + 1);
            assert(taken.last() == es@[k as int]);
            if k == 0 {
                assert(out@ =~= seq!['{'] + spec_component_entries(taken));
            } else {
                assert(taken.drop_last() =~= es@.take(k as int));
                assert(out@ =~= seq!['{'] + spec_component_entries(taken));
            }
        }
        k = k + 1;
    }
    out.append("}");
    proof {
        assert(es@.take(n as int) =~= es@);
    }
    out
}

/// The canonical digest document, fields in schema order.
pub open spec fn spec_digest_json(d: PayloadDigest) -> Seq<char> {
    seq!['{'] + spec_json_string(("name")@) + seq![':', ' '] + spec_json_string(d.name@)
        + seq![',', ' '] + spec_json_string(("rev")@) + seq![':', ' '] + spec_json_string(d.rev@)
        + seq![',', ' '] + spec_json_string(("joints")@) + seq![':', ' '] + spec_joint_map_json(
        d.joints@,
    ) + seq![',', ' '] + spec_json_string(("components")@) + seq![':', ' ']
        + spec_component_map_json(d.components@) + seq!['}']
}

/// Serialize a well-formed digest to its canonical JSON text.  The
/// output is pinned exactly, so the same digest always serializes to
/// the same text.
pub fn digest_to_json(d: &PayloadDigest) -> (r: String)
    requires
        d.wf(),
    ensures
        r@ == spec_digest_json(*d),
{
    proof {
        reveal_strlit("{");
        assert(("{")@ =~= seq!['{']);
        reveal_strlit(": ");
        assert((": ")@ =~= seq![':', ' ']);
        reveal_strlit(", ");
        assert((", ")@ =~= seq![',', ' ']);
        reveal_strlit("}");
        assert(("}")@ =~= seq!['}']);
    }
    let mut out = String::from_str("{");
    let k1 = json_string("name");
    out.append(k1.as_str());
    out.append(": ");
    let v1 = json_string(d.name.as_str());
    out.append(v1.as_str());
    out.append(", ");
    let k2 = json_string("rev");
    out.append(k2.as_str());
    out.append(": ");
    let v2 = json_string(d.rev.as_str());
    out.append(v2.as_str());
    out.append(", ");
    let k3 = json_string("joints");
    out.append(k3.as_str());
    out.append(": ");
    let v3 = joint_map_json(&d.joints);
    out.append(v3.as_str());
    out.append(", ");
    let k4 = json_string("components");
    out.append(k4.as_str());
    out.append(": ");
    let v4 = component_map_json(&d.components);
    out.append(v4.as_str());
    out.append("}");
    out
}

} // verus!
