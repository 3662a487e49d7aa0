//! Byte-level scanners that pick integers and strings out of the JSON that
//! `hyprctl` and `rmpc` print, without a full JSON parser.

use vstd::prelude::*;
use vstd::string::*;

use crate::text::{find_bytes, find_from, lemma_find_from};

verus! {

// ---------------------------------------------------------------------------
// Integers
// ---------------------------------------------------------------------------

pub open spec fn is_blank(b: u8) -> bool {
    b == 32 || b == 9
}

pub open spec fn is_digit(b: u8) -> bool {
    48 <= b && b <= 57
}

/// The first position at or after `i` that is not a space or a tab.
pub open spec fn skip_blanks(s: Seq<u8>, i: int) -> int
    decreases s.len() - i,
{
    if 0 <= i < s.len() && is_blank(s[i]) {
        skip_blanks(s, i + 1)
    } else {
        i
    }
}

/// The first position at or after `i` that is not an ASCII digit.
pub open spec fn skip_digits(s: Seq<u8>, i: int) -> int
    decreases s.len() - i,
{
    if 0 <= i < s.len() && is_digit(s[i]) {
        skip_digits(s, i + 1)
    } else {
        i
    }
}

/// The value of a run of ASCII digits, read in base ten.
pub open spec fn digits_value(ds: Seq<u8>) -> int
    decreases ds.len(),
{
    if ds.len() == 0 {
        0
    } else {
        digits_value(ds.drop_last()) * 10 + (ds.last() - 48)
    }
}

/// The integer written at position `i` of `s`: blanks are skipped, then an
/// optional minus sign and at least one digit are read. There is none when
/// no digit follows or the value does not fit in an `i64`.
pub open spec fn parsed_i64_at(s: Seq<u8>, i: int) -> Option<i64> {
    let start = skip_blanks(s, i);
    let negative = 0 <= start < s.len() && s[start] == 45;
    let first = if negative {
        start + 1
    } else {
        start
    };
    let end = skip_digits(s, first);
    if end == first {
        None
    } else {
        let magnitude = digits_value(s.subrange(first, end));
        let value = if negative {
            -magnitude
        } else {
            magnitude
        };
        if i64::MIN <= value <= i64::MAX {
            Some(value as i64)
        } else {
            None
        }
    }
}

pub proof fn lemma_digits_value_nonneg(ds: Seq<u8>)
    requires
        forall|k: int| 0 <= k < ds.len() ==> is_digit(#[trigger] ds[k]),
    ensures
        digits_value(ds) >= 0,
    decreases ds.len(),
{
    if ds.len() > 0 {
        lemma_digits_value_nonneg(ds.drop_last());
    }
}

proof fn lemma_skip_digits(s: Seq<u8>, i: int)
    requires
        0 <= i,
    ensures
        i <= skip_digits(s, i),
        skip_digits(s, i) <= s.len() || skip_digits(s, i) == i,
        forall|k: int| i <= k < skip_digits(s, i) ==> is_digit(#[trigger] s[k]),
    decreases s.len() - i,
{
    if 0 <= i < s.len() && is_digit(s[i]) {
        lemma_skip_digits(s, i + 1);
    }
}

fn parse_i64_at(b: &[u8], from: usize) -> (r: Option<i64>)
    ensures
        r == parsed_i64_at(b@, from as int),
{
    let len = b.len();
    let mut i = from;
    while i < len && (b[i] == 32 || b[i] == 9)
        invariant
            len == b@.len(),
            from <= i,
            skip_blanks(b@, from as int) == skip_blanks(b@, i as int),
        decreases len - i,
    {
        i += 1;
    }
    let start = i;
    let negative = i < len && b[i] == 45;
    if negative {
        i += 1;
    }
    let first = i;
    if first >= len {
        return None;
    }
    let limit: u128 = if negative {
        0x8000_0000_0000_0000
    } else {
        0x7fff_ffff_ffff_ffff
    };
    let mut magnitude: u128 = 0;
    let mut overflow = false;
    assert(b@.subrange(first as int, first as int) =~= Seq::<u8>::empty());
    while i < len && 48 <= b[i] && b[i] <= 57
        invariant
            len == b@.len(),
            limit <= 0x8000_0000_0000_0000,
            first <= i,
            first <= len ==> i <= len,
            skip_digits(b@, first as int) == skip_digits(b@, i as int),
            forall|k: int| first <= k < i ==> is_digit(#[trigger] b@[k]),
            !overflow ==> magnitude == digits_value(b@.subrange(first as int, i as int)),
            !overflow ==> magnitude <= limit,
            overflow ==> digits_value(b@.subrange(first as int, i as int)) > limit,
        decreases len - i,
    {
        let d = (b[i] - 48) as u128;
        assert(b@.subrange(first as int, i + 1).drop_last() =~= b@.subrange(
            first as int,
            i as int,
        ));
        if !overflow {
            if magnitude * 10 + d > limit {
                overflow = true;
            } else {
                magnitude = magnitude * 10 + d;
            }
        } else {
            proof {
                lemma_digits_value_nonneg(b@.subrange(first as int, i as int));
            }
        }
        i += 1;
    }
    proof {
        lemma_skip_digits(b@, first as int);
    }
    if i == first {
        return None;
    }
    if overflow {
        return None;
    }
    if negative {
        Some((0 - (magnitude as i128)) as i64)
    } else {
        Some(magnitude as i64)
    }
}

/// The integer written at byte position `i` of `s`, as `parsed_i64_at`
/// describes it.
pub fn parse_i64_from(s: &str, i: usize) -> (r: Option<i64>)
    ensures
        r == parsed_i64_at(s.spec_bytes(), i as int),
{
    parse_i64_at(s.as_bytes(), i)
}

// ---------------------------------------------------------------------------
// Field markers
// ---------------------------------------------------------------------------

/// The bytes `"field":`.
pub open spec fn number_marker(field: Seq<u8>) -> Seq<u8> {
    seq![34u8] + field + seq![34u8, 58u8]
}

/// The bytes `"field":"`.
pub open spec fn string_marker(field: Seq<u8>) -> Seq<u8> {
    number_marker(field).push(34u8)
}

fn make_number_marker(field: &[u8]) -> (m: Vec<u8>)
    ensures
        m@ == number_marker(field@),
{
    let mut m: Vec<u8> = Vec::new();
    m.push(34u8);
    let mut i: usize = 0;
    while i < field.len()
        invariant
            i <= field@.len(),
            m@ == seq![34u8] + field@.take(i as int),
        decreases field@.len() - i,
    {
        m.push(field[i]);
        i += 1;
        assert(m@ =~= seq![34u8] + field@.take(i as int));
    }
    m.push(34u8);
    m.push(58u8);
    assert(field@.take(field@.len() as int) =~= field@);
    assert(m@ =~= number_marker(field@));
    m
}

/// The integer that follows the first `"field":` in `raw`.
pub open spec fn json_i64_field(raw: Seq<u8>, field: Seq<u8>) -> Option<i64> {
    match find_from(raw, number_marker(field), 0) {
        Some(p) => parsed_i64_at(raw, p + number_marker(field).len()),
        None => None,
    }
}

pub fn parse_json_i64_field(raw: &str, field: &str) -> (r: Option<i64>)
    ensures
        r == json_i64_field(raw.spec_bytes(), field.spec_bytes()),
{
    let bytes = raw.as_bytes();
    let _n = bytes.len();
    let marker = make_number_marker(field.as_bytes());
    match find_bytes(bytes, marker.as_slice(), 0) {
        Some(p) => {
            proof {
                lemma_find_from(bytes@, marker@, 0);
            }
            parse_i64_at(bytes, p + marker.len())
        },
        None => None,
    }
}

// ---------------------------------------------------------------------------
// Workspace ids
// ---------------------------------------------------------------------------

/// The bytes `"id":`.
pub open spec fn id_marker() -> Seq<u8> {
    seq![34u8, 105u8, 100u8, 34u8, 58u8]
}

/// The integers that follow each `"id":` at or after position `idx`, in
/// order; an occurrence not followed by an integer adds nothing.
pub open spec fn ids_from(raw: Seq<u8>, idx: int) -> Seq<i64>
    decreases raw.len() + 1 - idx,
{
    if idx < 0 {
        seq![]
    } else {
        match find_from(raw, id_marker(), idx) {
            None => seq![],
            Some(p) => {
                proof {
                    lemma_find_from(raw, id_marker(), idx);
                }
                let start = p + 5;
                let here = match parsed_i64_at(raw, start) {
                    Some(v) => seq![v],
                    None => seq![],
                };
                if start >= raw.len() {
                    here
                } else {
                    here + ids_from(raw, start)
                }
            },
        }
    }
}

/// Every workspace id in the JSON list that `hyprctl -j workspaces` prints.
pub fn parse_workspace_ids(raw: &str) -> (out: Vec<i64>)
    ensures
        out@ == ids_from(raw.spec_bytes(), 0),
{
    let bytes = raw.as_bytes();
    let len = bytes.len();
    let marker: Vec<u8> = vec![34u8, 105u8, 100u8, 34u8, 58u8];
    assert(marker@ =~= id_marker());
    let mut out: Vec<i64> = Vec::new();
    let mut idx: usize = 0;
    assert(out@ + ids_from(bytes@, 0) =~= ids_from(bytes@, 0));
    loop
        invariant
            len == bytes@.len(),
            bytes@ == raw.spec_bytes(),
            marker@ == id_marker(),
            idx <= bytes@.len(),
            ids_from(bytes@, 0) == out@ + ids_from(bytes@, idx as int),
        decreases bytes@.len() - idx,
    {
        match find_bytes(bytes, marker.as_slice(), idx) {
            None => {
                assert(ids_from(bytes@, idx as int) =~= Seq::<i64>::empty());
                assert(out@ + ids_from(bytes@, idx as int) =~= out@);
                return out;
            },
            Some(p) => {
                proof {
                    lemma_find_from(bytes@, marker@, idx as int);
                }
                let start = p + 5;
                let ghost before = out@;
                let ghost here = match parsed_i64_at(bytes@, start as int) {
                    Some(v) => seq![v],
                    None => Seq::<i64>::empty(),
                };
                match parse_i64_at(bytes, start) {
                    Some(v) => out.push(v),
                    None => {},
                }
                assert(out@ =~= before + here);
                if start >= len {
                    assert(ids_from(bytes@, idx as int) == here);
                    return out;
                }
                assert(ids_from(bytes@, idx as int) == here + ids_from(bytes@, start as int));
                assert(before + (here + ids_from(bytes@, start as int)) =~= out@ + ids_from(
                    bytes@,
                    start as int,
                ));
                idx = start;
            },
        }
    }
}

// ---------------------------------------------------------------------------
// Strings
// ---------------------------------------------------------------------------

pub open spec fn hex_digit_value(b: u8) -> Option<int> {
    if 48 <= b && b <= 57 {
        Some(b - 48)
    } else if 97 <= b && b <= 102 {
        Some(b - 87)
    } else if 65 <= b && b <= 70 {
        Some(b - 55)
    } else {
        None
    }
}

/// The value of a run of hexadecimal digits, if all of them are digits.
pub open spec fn hex_digits_value(ds: Seq<u8>) -> Option<int>
    decreases ds.len(),
{
    if ds.len() == 0 {
        Some(0)
    } else {
        match (hex_digits_value(ds.drop_last()), hex_digit_value(ds.last())) {
            (Some(high), Some(low)) => Some(high * 16 + low),
            _ => None,
        }
    }
}

/// What `u16::from_str_radix(.., 16)` reads from the four bytes at `j`: a
/// leading `+` is allowed, every other byte must be a hexadecimal digit.
pub open spec fn hex4_at(b: Seq<u8>, j: int) -> Option<int> {
    if j < 0 || j + 4 > b.len() {
        None
    } else if b[j] == 43 {
        hex_digits_value(b.subrange(j + 1, j + 4))
    } else {
        hex_digits_value(b.subrange(j, j + 4))
    }
}

/// The character named by the `\u` escape whose four hexadecimal bytes
/// start at `j`.
pub open spec fn unicode_escape_at(b: Seq<u8>, j: int) -> Option<char> {
    match hex4_at(b, j) {
        Some(v) => if v < 0xD800 || (0xE000 <= v && v <= 0x10FFFF) {
            Some(v as char)
        } else {
            None
        },
        None => None,
    }
}

/// The character that the one-letter escape `\e` stands for.
pub open spec fn simple_escape(e: u8) -> Option<char> {
    if e == 34 {
        Some('"')
    } else if e == 92 {
        Some('\\')
    } else if e == 47 {
        Some('/')
    } else if e == 98 {
        Some('\u{8}')
    } else if e == 102 {
        Some('\u{c}')
    } else if e == 110 {
        Some('\n')
    } else if e == 114 {
        Some('\r')
    } else if e == 116 {
        Some('\t')
    } else {
        None
    }
}

pub open spec fn prepend_char(c: char, rest: Option<Seq<char>>) -> Option<Seq<char>> {
    match rest {
        Some(r) => Some(seq![c] + r),
        None => None,
    }
}

/// The contents of the JSON string whose body starts at byte `i`, up to the
/// closing quote, with escapes resolved. Every other byte stands for the
/// character with the same number. There is none when the closing quote is
/// missing or an escape is malformed.
pub open spec fn json_string_from(b: Seq<u8>, i: int) -> Option<Seq<char>>
    decreases b.len() - i,
{
    if i < 0 || i >= b.len() {
        None
    } else if b[i] == 34 {
        Some(seq![])
    } else if b[i] == 92 {
        if i + 1 >= b.len() {
            None
        } else if b[i + 1] == 117 {
            match unicode_escape_at(b, i + 2) {
                Some(c) => prepend_char(c, json_string_from(b, i + 6)),
                None => None,
            }
        } else {
            match simple_escape(b[i + 1]) {
                Some(c) => prepend_char(c, json_string_from(b, i + 2)),
                None => None,
            }
        }
    } else {
        prepend_char(b[i] as char, json_string_from(b, i + 1))
    }
}

/// `done` followed by what is left to read.
pub open spec fn after(done: Seq<char>, rest: Option<Seq<char>>) -> Option<Seq<char>> {
    match rest {
        Some(r) => Some(done + r),
        None => None,
    }
}

fn hex_digit(b: u8) -> (r: Option<u32>)
    ensures
        r matches Some(v) ==> hex_digit_value(b) == Some(v as int),
        r is None ==> hex_digit_value(b) is None,
        r matches Some(v) ==> v < 16,
{
    if 48 <= b && b <= 57 {
        Some((b - 48) as u32)
    } else if 97 <= b && b <= 102 {
        Some((b - 87) as u32)
    } else if 65 <= b && b <= 70 {
        Some((b - 55) as u32)
    } else {
        None
    }
}

proof fn lemma_hex_digits_invalid(ds: Seq<u8>, k: int)
    requires
        0 <= k < ds.len(),
        hex_digit_value(ds[k]) is None,
    ensures
        hex_digits_value(ds) is None,
    decreases ds.len(),
{
    if k < ds.len() - 1 {
        lemma_hex_digits_invalid(ds.drop_last(), k);
    }
}

fn hex_run(b: &[u8], from: usize, to: usize) -> (r: Option<u32>)
    requires
        from <= to <= b@.len(),
        to - from <= 4,
    ensures
        r matches Some(v) ==> hex_digits_value(b@.subrange(from as int, to as int)) == Some(
            v as int,
        ),
        r is None ==> hex_digits_value(b@.subrange(from as int, to as int)) is None,
{
    let mut value: u32 = 0;
    let mut i = from;
    assert(b@.subrange(from as int, from as int) =~= Seq::<u8>::empty());
    while i < to
        invariant
            from <= i <= to <= b@.len(),
            to - from <= 4,
            hex_digits_value(b@.subrange(from as int, i as int)) == Some(value as int),
            value < 0x10000,
            value as int <= if i - from == 0 {
                0int
            } else if i - from == 1 {
                15int
            } else if i - from == 2 {
                255int
            } else if i - from == 3 {
                4095int
            } else {
                65535int
            },
        decreases to - i,
    {
        assert(b@.subrange(from as int, i + 1).drop_last() =~= b@.subrange(
            from as int,
            i as int,
        ));
        match hex_digit(b[i]) {
            Some(d) => {
                value = value * 16 + d;
            },
            None => {
                proof {
                    lemma_hex_digits_invalid(b@.subrange(from as int, to as int), i - from);
                }
                return None;
            },
        }
        i += 1;
    }
    Some(value)
}

fn unicode_escape(b: &[u8], j: usize) -> (r: Option<char>)
    ensures
        r == unicode_escape_at(b@, j as int),
{
    if j > b.len() || b.len() - j < 4 {
        return None;
    }
    let value = if b[j] == 43 {
        hex_run(b, j + 1, j + 4)
    } else {
        hex_run(b, j, j + 4)
    };
    match value {
        Some(v) => core::char::from_u32(v),
        None => None,
    }
}

fn escape_char(e: u8) -> (r: Option<char>)
    ensures
        r == simple_escape(e),
{
    if e == 34 {
        Some('"')
    } else if e == 92 {
        Some('\\')
    } else if e == 47 {
        Some('/')
    } else if e == 98 {
        Some('\u{8}')
    } else if e == 102 {
        Some('\u{c}')
    } else if e == 110 {
        Some('\n')
    } else if e == 114 {
        Some('\r')
    } else if e == 116 {
        Some('\t')
    } else {
        None
    }
}

fn json_string_at(b: &[u8], start: usize) -> (r: Option<String>)
    ensures
        r matches Some(s) ==> json_string_from(b@, start as int) == Some(s@),
        r is None ==> json_string_from(b@, start as int) is None,
{
    let len = b.len();
    let mut i = start;
    let mut out = String::new();
    assert(out@ + seq![] =~= seq![]);
    while i < len
        invariant
            len == b@.len(),
            json_string_from(b@, start as int) == after(out@, json_string_from(b@, i as int)),
        decreases len - i,
    {
        let ghost done = out@;
        let byte = b[i];
        if byte == 34 {
            assert(done + seq![] =~= done);
            return Some(out);
        } else if byte == 92 {
            if i + 1 >= len {
                return None;
            }
            let e = b[i + 1];
            if e == 117 {
                match unicode_escape(b, i + 2) {
                    Some(c) => {
                        out.push(c);
                        assert(after(done, prepend_char(c, json_string_from(b@, i + 6))) == after(
                            out@,
                            json_string_from(b@, i + 6),
                        )) by {
                            if let Some(r) = json_string_from(b@, i + 6) {
                                assert(done + (seq![c] + r) =~= out@ + r);
                            }
                        }
                        i += 6;
                    },
                    None => {
                        return None;
                    },
                }
            } else {
                match escape_char(e) {
                    Some(c) => {
                        out.push(c);
                        assert(after(done, prepend_char(c, json_string_from(b@, i + 2))) == after(
                            out@,
                            json_string_from(b@, i + 2),
                        )) by {
                            if let Some(r) = json_string_from(b@, i + 2) {
                                assert(done + (seq![c] + r) =~= out@ + r);
                            }
                        }
                        i += 2;
                    },
                    None => {
                        return None;
                    },
                }
            }
        } else {
            let c = byte as char;
            out.push(c);
            assert(after(done, prepend_char(c, json_string_from(b@, i + 1))) == after(
                out@,
                json_string_from(b@, i + 1),
            )) by {
                if let Some(r) = json_string_from(b@, i + 1) {
                    assert(done + (seq![c] + r) =~= out@ + r);
                }
            }
            i += 1;
        }
    }
    None
}

/// The JSON string whose body starts at byte `start` of `raw`.
pub fn parse_json_string(raw: &str, start: usize) -> (r: Option<String>)
    ensures
        r matches Some(s) ==> json_string_from(raw.spec_bytes(), start as int) == Some(s@),
        r is None ==> json_string_from(raw.spec_bytes(), start as int) is None,
{
    json_string_at(raw.as_bytes(), start)
}

/// The string that follows the first `"field":"` in `raw`.
pub open spec fn json_string_field(raw: Seq<u8>, field: Seq<u8>) -> Option<Seq<char>> {
    match find_from(raw, string_marker(field), 0) {
        Some(p) => json_string_from(raw, p + string_marker(field).len()),
        None => None,
    }
}

pub fn find_json_string_field(raw: &str, field: &str) -> (r: Option<String>)
    ensures
        r matches Some(s) ==> json_string_field(raw.spec_bytes(), field.spec_bytes()) == Some(
            s@,
        ),
        r is None ==> json_string_field(raw.spec_bytes(), field.spec_bytes()) is None,
{
    let bytes = raw.as_bytes();
    let _n = bytes.len();
    let mut marker = make_number_marker(field.as_bytes());
    marker.push(34u8);
    match find_bytes(bytes, marker.as_slice(), 0) {
        Some(p) => {
            proof {
                lemma_find_from(bytes@, marker@, 0);
            }
            json_string_at(bytes, p + marker.len())
        },
        None => None,
    }
}

} // verus!
