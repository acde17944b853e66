//! Room codes: four upper-case hexadecimal digits, such as `"3F0A"`.
//!
//! A code is held as the `u16` that its digits spell, so that codes can be
//! compared and stored as integers. New codes are taken from the first four
//! digits of a random version-4 UUID.

use vstd::prelude::*;
use vstd::string::{StrSliceExecFns, StringExecFns};

verus! {

/// `c` is one of `0-9` or `A-F`.
pub open spec fn is_upper_hex_digit(c: char) -> bool {
    ('0' <= c && c <= '9') || ('A' <= c && c <= 'F')
}

/// `c` is one of `0-9` or `a-f`.
pub open spec fn is_lower_hex_digit(c: char) -> bool {
    ('0' <= c && c <= '9') || ('a' <= c && c <= 'f')
}

/// The value of a hexadecimal digit in either case.
pub open spec fn hex_value(c: char) -> int {
    if '0' <= c && c <= '9' {
        c as int - '0' as int
    } else if 'A' <= c && c <= 'F' {
        c as int - 'A' as int + 10
    } else {
        c as int - 'a' as int + 10
    }
}

/// The upper-case digit for a value below sixteen.
pub open spec fn upper_hex_char(d: int) -> char {
    if d < 10 {
        ('0' as int + d) as char
    } else {
        ('A' as int + d - 10) as char
    }
}

/// ASCII upper-casing of one character; other characters stay as they are.
pub open spec fn ascii_upper(c: char) -> char {
    if 'a' <= c && c <= 'z' {
        (c as int - 32) as char
    } else {
        c
    }
}

/// The text of a room code: its four hexadecimal digits, most significant first.
pub open spec fn room_id_text(code: u16) -> Seq<char> {
    seq![
        upper_hex_char(code as int / 4096),
        upper_hex_char((code as int / 256) % 16),
        upper_hex_char((code as int / 16) % 16),
        upper_hex_char(code as int % 16),
    ]
}

/// The code that a text names, if it is exactly four upper-case hexadecimal digits.
pub open spec fn parse_room_id_spec(t: Seq<char>) -> Option<u16> {
    if t.len() == 4 && forall|i: int| 0 <= i < 4 ==> #[trigger] is_upper_hex_digit(t[i]) {
        Some(
            (hex_value(t[0]) * 4096 + hex_value(t[1]) * 256 + hex_value(t[2]) * 16 + hex_value(
                t[3],
            )) as u16,
        )
    } else {
        None
    }
}

/// The text that `uuid::Uuid::hyphenated` gives in lower case for a version-4
/// UUID: 36 characters, hyphens at positions 8, 13, 18 and 23, lower-case
/// hexadecimal digits elsewhere, the version digit `4` at position 14 and one
/// of `8`, `9`, `a`, `b` at position 19.
pub open spec fn is_hyphenated_v4(t: Seq<char>) -> bool {
    &&& t.len() == 36
    &&& forall|i: int|
        0 <= i < 36 ==> if i == 8 || i == 13 || i == 18 || i == 23 {
            t[i] == '-'
        } else {
            is_lower_hex_digit(#[trigger] t[i])
        }
    &&& t[14] == '4'
    &&& (t[19] == '8' || t[19] == '9' || t[19] == 'a' || t[19] == 'b')
}

/// The value of one upper-case hexadecimal digit, or `None` for any other character.
fn upper_hex_value(c: char) -> (r: Option<u16>)
    ensures
        r is Some <==> is_upper_hex_digit(c),
        r matches Some(v) ==> v < 16 && v == hex_value(c),
{
    if '0' <= c && c <= '9' {
        Some((c as u32 - '0' as u32) as u16)
    } else if 'A' <= c && c <= 'F' {
        Some((c as u32 - 'A' as u32 + 10) as u16)
    } else {
        None
    }
}

/// The value of one lower-case hexadecimal digit.
fn lower_hex_value(c: char) -> (v: u16)
    requires
        is_lower_hex_digit(c),
    ensures
        v < 16,
        v == hex_value(c),
        upper_hex_char(v as int) == ascii_upper(c),
{
    if '0' <= c && c <= '9' {
        (c as u32 - '0' as u32) as u16
    } else {
        (c as u32 - 'a' as u32 + 10) as u16
    }
}

proof fn lemma_code_digits(a: int, b: int, c: int, d: int)
    requires
        0 <= a < 16,
        0 <= b < 16,
        0 <= c < 16,
        0 <= d < 16,
    ensures
        ({
            let v = a * 4096 + b * 256 + c * 16 + d;
            &&& 0 <= v < 65536
            &&& v / 4096 == a
            &&& (v / 256) % 16 == b
            &&& (v / 16) % 16 == c
            &&& v % 16 == d
        }),
{
    let v = a * 4096 + b * 256 + c * 16 + d;
    assert(v / 4096 == a) by (nonlinear_arith)
        requires v == a * 4096 + b * 256 + c * 16 + d, 0 <= b < 16, 0 <= c < 16, 0 <= d < 16;
    assert(v / 256 == a * 16 + b) by (nonlinear_arith)
        requires v == a * 4096 + b * 256 + c * 16 + d, 0 <= c < 16, 0 <= d < 16;
    assert((a * 16 + b) % 16 == b) by (nonlinear_arith)
        requires 0 <= b < 16, 0 <= a;
    assert(v / 16 == a * 256 + b * 16 + c) by (nonlinear_arith)
        requires v == a * 4096 + b * 256 + c * 16 + d, 0 <= d < 16;
    assert((a * 256 + b * 16 + c) % 16 == c) by (nonlinear_arith)
        requires 0 <= c < 16, 0 <= a, 0 <= b;
    assert(v % 16 == d) by (nonlinear_arith)
        requires v == a * 4096 + b * 256 + c * 16 + d, 0 <= d < 16, 0 <= a, 0 <= b, 0 <= c;
}

proof fn lemma_upper_hex_char_roundtrip(d: int)
    requires
        0 <= d < 16,
    ensures
        is_upper_hex_digit(upper_hex_char(d)),
        hex_value(upper_hex_char(d)) == d,
{
}

/// The digits of a code, read back, give the code; and a text that names a
/// code is that code's text.
pub proof fn lemma_room_id_roundtrip(code: u16, t: Seq<char>)
    ensures
        parse_room_id_spec(room_id_text(code)) == Some(code),
        parse_room_id_spec(t) matches Some(c) ==> room_id_text(c) == t,
{
    let v = code as int;
    let a = v / 4096;
    let b = (v / 256) % 16;
    let c = (v / 16) % 16;
    let d = v % 16;
    assert(a * 4096 + b * 256 + c * 16 + d == v) by (nonlinear_arith)
        requires a == v / 4096, b == (v / 256) % 16, c == (v / 16) % 16, d == v % 16, 0 <= v < 65536;
    assert(0 <= a < 16) by (nonlinear_arith) requires a == v / 4096, 0 <= v < 65536;
    lemma_upper_hex_char_roundtrip(a);
    lemma_upper_hex_char_roundtrip(b);
    lemma_upper_hex_char_roundtrip(c);
    lemma_upper_hex_char_roundtrip(d);
    let text = room_id_text(code);
    assert(forall|i: int| 0 <= i < 4 ==> #[trigger] is_upper_hex_digit(text[i]));
    if parse_room_id_spec(t) is Some {
        let (a2, b2, c2, d2) = (hex_value(t[0]), hex_value(t[1]), hex_value(t[2]), hex_value(t[3]));
        assert(is_upper_hex_digit(t[0]) && is_upper_hex_digit(t[1]));
        assert(is_upper_hex_digit(t[2]) && is_upper_hex_digit(t[3]));
        lemma_code_digits(a2, b2, c2, d2);
        assert(room_id_text(parse_room_id_spec(t).unwrap()) =~= t);
    }
}

/// The one-character text of an upper-case hexadecimal digit.
fn upper_hex_str(d: u16) -> (s: &'static str)
    requires
        d < 16,
    ensures
        s@ == seq![upper_hex_char(d as int)],
{
    proof {
        reveal_strlit("0");
        reveal_strlit("1");
        reveal_strlit("2");
        reveal_strlit("3");
        reveal_strlit("4");
        reveal_strlit("5");
        reveal_strlit("6");
        reveal_strlit("7");
        reveal_strlit("8");
        reveal_strlit("9");
        reveal_strlit("A");
        reveal_strlit("B");
        reveal_strlit("C");
        reveal_strlit("D");
        reveal_strlit("E");
        reveal_strlit("F");
    }
    match d {
        0 => "0",
        1 => "1",
        2 => "2",
        3 => "3",
        4 => "4",
        5 => "5",
        6 => "6",
        7 => "7",
        8 => "8",
        9 => "9",
        10 => "A",
        11 => "B",
        12 => "C",
        13 => "D",
        14 => "E",
        _ => "F",
    }
}

/// The text of a room code: four upper-case hexadecimal digits.
pub fn format_room_id(code: u16) -> (text: String)
    ensures
        text@ == room_id_text(code),
{
    let mut text = String::new();
    text.append(upper_hex_str(code / 4096));
    text.append(upper_hex_str((code / 256) % 16));
    text.append(upper_hex_str((code / 16) % 16));
    text.append(upper_hex_str(code % 16));
    assert(text@ =~= room_id_text(code));
    text
}

/// Reads a room code from its text. Only exactly four upper-case hexadecimal
/// digits name a code; any other text names none.
pub fn parse_room_id(text: &str) -> (r: Option<u16>)
    ensures
        r == parse_room_id_spec(text@),
{
    if text.unicode_len() != 4 {
        return None;
    }
    let d0 = upper_hex_value(text.get_char(0));
    let d1 = upper_hex_value(text.get_char(1));
    let d2 = upper_hex_value(text.get_char(2));
    let d3 = upper_hex_value(text.get_char(3));
    match (d0, d1, d2, d3) {
        (Some(a), Some(b), Some(c), Some(d)) => {
            proof {
                lemma_code_digits(a as int, b as int, c as int, d as int);
                assert(forall|i: int| 0 <= i < 4 ==> #[trigger] is_upper_hex_digit(text@[i]));
            }
            Some(a * 4096 + b * 256 + c * 16 + d)
        },
        _ => None,
    }
}

/// The code whose text is the first four characters of a lower-case
/// hexadecimal text, upper-cased.
pub fn room_id_from_uuid(uuid_text: &str) -> (code: u16)
    requires
        uuid_text@.len() >= 4,
        forall|i: int| 0 <= i < 4 ==> is_lower_hex_digit(#[trigger] uuid_text@[i]),
    ensures
        room_id_text(code) == uuid_text@.take(4).map_values(|c: char| ascii_upper(c)),
{
    let a = lower_hex_value(uuid_text.get_char(0));
    let b = lower_hex_value(uuid_text.get_char(1));
    let c = lower_hex_value(uuid_text.get_char(2));
    let d = lower_hex_value(uuid_text.get_char(3));
    proof {
        lemma_code_digits(a as int, b as int, c as int, d as int);
    }
    let code = a * 4096 + b * 256 + c * 16 + d;
    assert(room_id_text(code) =~= uuid_text@.take(4).map_values(|c: char| ascii_upper(c)));
    code
}

/// `uuid::Uuid::new_v4` and the `Display` of the `Uuid` it returns, which
/// the crate writes as the lower-case hyphenated form. What is claimed is only
/// that form, which `format_hyphenated` in the crate's `fmt.rs` writes and
/// `new_v4` fixes the version and variant digits of; the other digits are random.
#[verifier::external_body]
fn random_uuid_text() -> (text: String)
    ensures
        is_hyphenated_v4(text@),
{
    uuid::Uuid::new_v4().to_string()
}

/// The code that a UUID text gives: its first four characters, upper-cased,
/// read as a code.
pub open spec fn code_of_uuid(t: Seq<char>) -> u16 {
    parse_room_id_spec(t.take(4).map_values(|c: char| ascii_upper(c))).unwrap()
}

/// The code of a version-4 UUID text is the code whose text is the UUID's
/// first four digits upper-cased; and two such texts give the same code
/// exactly when their first four digits are the same, so the code carries
/// every one of those random digits.
pub proof fn law_uuid_code(t1: Seq<char>, t2: Seq<char>)
    requires
        is_hyphenated_v4(t1),
        is_hyphenated_v4(t2),
    ensures
        room_id_text(code_of_uuid(t1)) == t1.take(4).map_values(|c: char| ascii_upper(c)),
        code_of_uuid(t1) == code_of_uuid(t2) <==> t1.take(4) == t2.take(4),
{
    lemma_uuid_code_text(t1);
    lemma_uuid_code_text(t2);
    if code_of_uuid(t1) == code_of_uuid(t2) {
        let u1 = t1.take(4).map_values(|c: char| ascii_upper(c));
        let u2 = t2.take(4).map_values(|c: char| ascii_upper(c));
        assert forall|i: int| 0 <= i < 4 implies t1.take(4)[i] == t2.take(4)[i] by {
            assert(u1[i] == u2[i]);
            assert(is_lower_hex_digit(t1[i]) && is_lower_hex_digit(t2[i]));
        }
        assert(t1.take(4) =~= t2.take(4));
    }
}

proof fn lemma_uuid_code_text(t: Seq<char>)
    requires
        is_hyphenated_v4(t),
    ensures
        room_id_text(code_of_uuid(t)) == t.take(4).map_values(|c: char| ascii_upper(c)),
{
    let u = t.take(4).map_values(|c: char| ascii_upper(c));
    assert forall|i: int| 0 <= i < 4 implies #[trigger] is_upper_hex_digit(u[i]) by {
        assert(is_lower_hex_digit(t[i]));
    }
    lemma_room_id_roundtrip(0, u);
}

/// A fresh random room code and the UUID text it was taken from: the code
/// is that text's first four digits, upper-cased.
pub fn new_room_id() -> (r: (u16, String))
    ensures
        is_hyphenated_v4(r.1@),
        room_id_text(r.0) == r.1@.take(4).map_values(|c: char| ascii_upper(c)),
        r.0 == code_of_uuid(r.1@),
{
    let text = random_uuid_text();
    proof {
        assert(is_lower_hex_digit(text@[0]) && is_lower_hex_digit(text@[1]));
        assert(is_lower_hex_digit(text@[2]) && is_lower_hex_digit(text@[3]));
    }
    let code = room_id_from_uuid(text.as_str());
    proof {
        lemma_uuid_code_text(text@);
        lemma_room_id_roundtrip(code, room_id_text(code));
        lemma_room_id_roundtrip(code_of_uuid(text@), room_id_text(code_of_uuid(text@)));
    }
    (code, text)
}

} // verus!
