//! Binary RIB.
//!
//! Binary RIB interleaves ASCII freely with byte codes of 0x80 and above;
//! brackets, whitespace and comments stay ASCII. Decoding translates the byte
//! stream to canonical text, which the text parser then reads: one grammar,
//! two surface encodings. Encoding is the inverse: requests become one-byte
//! codes after a definition, numbers become binary integers or floats, strings
//! get a length prefix.

use crate::double;
use crate::near;
use crate::parser::ast;
use crate::parser::ast::{RibRequest, RibValue};
use crate::parser::comes_back;
use crate::parser::parser;
use crate::parser::round_trip;
use crate::text;
use std::collections::HashMap;
use vstd::prelude::*;
use vstd::string::*;
use vstd::utf8::*;

verus! {

broadcast use vstd::std_specs::hash::group_hash_axioms;

/// What can be wrong with a binary RIB stream.
#[derive(Clone, Copy, Debug, PartialEq, Eq, Structural)]
pub enum BinaryError {
    /// The stream ends inside the integer that starts at this byte.
    TruncatedInteger { at: usize },
    /// The stream ends where a string must start.
    TruncatedString,
    /// This byte stands where a string must start.
    ExpectedString { code: u8 },
    /// The stream ends inside a string.
    TruncatedStringBody,
    /// The stream ends where a request code must stand.
    TruncatedRequestCode,
    /// This request code is used before its definition.
    UndefinedRequest { code: u8 },
    /// The stream ends where a request definition must name its code.
    TruncatedRequestDefinition,
    /// This string token is used before its definition.
    UndefinedString { token: u64 },
}

// ---- what the bytes mean ---------------------------------------------------

/// Whether `data[i]` stands in a comment: a `#` before it on its line.
pub open spec fn in_comment(data: Seq<u8>, i: int) -> bool
    decreases i,
{
    0 < i <= data.len() && data[i - 1] != 0x0a && (data[i - 1] == 0x23 || in_comment(data, i - 1))
}

/// Whether a code of binary RIB stands in the data: a byte of 0x80 or above that
/// is in no comment.
pub open spec fn has_codes(data: Seq<u8>) -> bool {
    exists|i: int| 0 <= i < data.len() && #[trigger] data[i] >= 0x80 && !in_comment(data, i)
}

/// `256^n`.
pub open spec fn pow256(n: nat) -> nat
    decreases n,
{
    if n == 0 {
        1
    } else {
        256 * pow256((n - 1) as nat)
    }
}

/// The unsigned integer with these bytes, most significant first.
pub open spec fn be_uint(bytes: Seq<u8>) -> nat
    decreases bytes.len(),
{
    if bytes.len() == 0 {
        0
    } else {
        be_uint(bytes.drop_last()) * 256 + bytes.last() as nat
    }
}

/// The two's complement integer with these bytes, most significant first.
pub open spec fn be_int(bytes: Seq<u8>) -> int {
    if bytes.len() > 0 && bytes[0] >= 0x80 {
        be_uint(bytes) - pow256(bytes.len())
    } else {
        be_uint(bytes) as int
    }
}

/// What std's `String::from_utf8_lossy` makes of these bytes.
pub uninterp spec fn utf8_lossy(bytes: Seq<u8>) -> Seq<char>;

/// The text that bytes stand for: valid UTF-8 as it is, other bytes as
/// `String::from_utf8_lossy` reads them.
pub open spec fn lossy_text(bytes: Seq<u8>) -> Seq<char> {
    if valid_utf8(bytes) {
        decode_utf8(bytes)
    } else {
        utf8_lossy(bytes)
    }
}

/// What std's `Display` writes for the double with these bits.
pub uninterp spec fn double_text(bits: u64) -> Seq<char>;

/// What std's `Display` writes for the single-precision number with these bits.
pub uninterp spec fn single_text(bits: u32) -> Seq<char>;

/// The unsigned integer of `n` bytes at `pos`.
pub open spec fn uint_at(data: Seq<u8>, pos: int, n: int) -> Result<nat, BinaryError> {
    if pos + n > data.len() {
        Err(BinaryError::TruncatedInteger { at: pos as usize })
    } else {
        Ok(be_uint(data.subrange(pos, pos + n)))
    }
}

/// Length of an encoded string and where its bytes start.
pub open spec fn string_header_at(data: Seq<u8>, pos: int) -> Result<(nat, int), BinaryError> {
    if pos >= data.len() {
        Err(BinaryError::TruncatedString)
    } else {
        let code = data[pos];
        if 0x90 <= code <= 0x9f {
            Ok(((code - 0x90) as nat, pos + 1))
        } else if 0xa0 <= code <= 0xa3 {
            match uint_at(data, pos + 1, code - 0xa0 + 1) {
                Ok(len) => Ok((len, pos + 1 + (code - 0xa0 + 1))),
                Err(e) => Err(e),
            }
        } else {
            Err(BinaryError::ExpectedString { code })
        }
    }
}

/// The encoded string at `pos` (short or long form), and the position after it.
pub open spec fn string_at(data: Seq<u8>, pos: int) -> Result<(Seq<char>, int), BinaryError> {
    match string_header_at(data, pos) {
        Err(e) => Err(e),
        Ok((len, body)) => if body + len > data.len() {
            Err(BinaryError::TruncatedStringBody)
        } else {
            Ok((lossy_text(data.subrange(body, body + len)), body + len))
        },
    }
}

/// How one character is written inside a quoted string.
pub open spec fn escaped_char(c: char) -> Seq<char> {
    if c == '"' {
        seq!['\\', '"']
    } else if c == '\\' {
        seq!['\\', '\\']
    } else if c == '\n' {
        seq!['\\', 'n']
    } else {
        seq![c]
    }
}

/// The characters of `s`, each as it is written inside a quoted string.
pub open spec fn escaped(s: Seq<char>) -> Seq<char>
    decreases s.len(),
{
    if s.len() == 0 {
        seq![]
    } else {
        escaped(s.drop_last()) + escaped_char(s.last())
    }
}

/// `s` as a quoted string.
pub open spec fn quoted(s: Seq<char>) -> Seq<char> {
    seq!['"'] + escaped(s) + seq!['"']
}

/// `s` between two blanks.
pub open spec fn spaced(s: Seq<char>) -> Seq<char> {
    seq![' '] + s + seq![' ']
}

/// Where the line that holds `pos` ends: its newline, or the end of the data.
pub open spec fn line_end(data: Seq<u8>, pos: int) -> int
    decreases data.len() - pos,
{
    if 0 <= pos < data.len() && data[pos] != 0x0a {
        line_end(data, pos + 1)
    } else {
        pos
    }
}

/// Bytes as the characters with those numbers.
pub open spec fn byte_chars(bytes: Seq<u8>) -> Seq<char> {
    bytes.map_values(|b: u8| b as char)
}

/// One element of a binary stream.
pub enum Item {
    /// Stands for this text.
    Text(Seq<char>),
    /// Calls the request with this code.
    Request(u8),
    /// Refers to the string with this token.
    Token(u64),
    /// Gives a string a token.
    DefineString(u64, Seq<char>),
    /// Gives a request a code.
    DefineRequest(u8, Seq<char>),
}

/// The element that starts at `pos`, and the position after it.
pub open spec fn item_at(data: Seq<u8>, pos: int) -> Result<(Item, int), BinaryError> {
    let b = data[pos];
    if b == 0x23 {
        // A comment runs to the end of its line.
        let end = line_end(data, pos);
        Ok((Item::Text(byte_chars(data.subrange(pos, end))), end))
    } else if b < 0x80 {
        Ok((Item::Text(seq![b as char]), pos + 1))
    } else if b <= 0x83 {
        // Integers of 1 to 4 bytes.
        let n = b - 0x80 + 1;
        match uint_at(data, pos + 1, n) {
            Ok(_) => Ok(
                (
                    Item::Text(
                        spaced(text::int_text(be_int(data.subrange(pos + 1, pos + 1 + n)))),
                    ),
                    pos + 1 + n,
                ),
            ),
            Err(e) => Err(e),
        }
    } else if b <= 0x8f {
        // Fixed point: `b - 0x84 = 4 * d + w`, `w + 1` integer bytes and `d`
        // fraction bytes.
        let d = (b - 0x84) / 4;
        let n = (b - 0x84) % 4 + 1 + d;
        match uint_at(data, pos + 1, n) {
            Ok(_) => Ok(
                (
                    Item::Text(
                        spaced(
                            double_text(
                                double::dyadic(
                                    be_int(data.subrange(pos + 1, pos + 1 + n)),
                                    8 * d,
                                ),
                            ),
                        ),
                    ),
                    pos + 1 + n,
                ),
            ),
            Err(e) => Err(e),
        }
    } else if b <= 0xa3 {
        match string_at(data, pos) {
            Ok((s, next)) => Ok((Item::Text(spaced(quoted(s))), next)),
            Err(e) => Err(e),
        }
    } else if b == 0xa4 {
        match uint_at(data, pos + 1, 4) {
            Ok(v) => Ok((Item::Text(spaced(single_text(v as u32))), pos + 5)),
            Err(e) => Err(e),
        }
    } else if b == 0xa5 {
        match uint_at(data, pos + 1, 8) {
            Ok(v) => Ok((Item::Text(spaced(double_text(v as u64))), pos + 9)),
            Err(e) => Err(e),
        }
    } else if b == 0xa6 {
        if pos + 1 < data.len() {
            Ok((Item::Request(data[pos + 1]), pos + 2))
        } else {
            Err(BinaryError::TruncatedRequestCode)
        }
    } else if 0xc8 <= b <= 0xcb {
        let n = b - 0xc8 + 1;
        match uint_at(data, pos + 1, n) {
            Err(e) => Err(e),
            Ok(token) => match string_at(data, pos + 1 + n) {
                Ok((s, next)) => Ok((Item::DefineString(token as u64, s), next)),
                Err(e) => Err(e),
            },
        }
    } else if b == 0xcc {
        if pos + 1 < data.len() {
            match string_at(data, pos + 2) {
                Ok((s, next)) => Ok((Item::DefineRequest(data[pos + 1], s), next)),
                Err(e) => Err(e),
            }
        } else {
            Err(BinaryError::TruncatedRequestDefinition)
        }
    } else if b == 0xcd || b == 0xce {
        let n = b - 0xcd + 1;
        match uint_at(data, pos + 1, n) {
            Ok(token) => Ok((Item::Token(token as u64), pos + 1 + n)),
            Err(e) => Err(e),
        }
    } else {
        // Reserved codes stand for nothing.
        Ok((Item::Text(seq![]), pos + 1))
    }
}

/// Whether the text of a finite single reads back near that single.
pub open spec fn single_is_sound(bits: u32) -> bool {
    double::is_finite(double::widened(bits)) ==> round_trip::is_readable(single_text(bits))
        && near::is_near(round_trip::reading(single_text(bits)), double::widened(bits))
}

/// The single of the element at `pos`.
pub open spec fn single_at(data: Seq<u8>, pos: int) -> u32 {
    be_uint(data.subrange(pos + 1, pos + 5)) as u32
}

/// Whether the texts of the singles among the elements of a stream from `pos` on are sound.
pub open spec fn singles_sound(data: Seq<u8>, pos: int) -> bool
    decreases data.len() - pos,
{
    if !(0 <= pos < data.len()) {
        true
    } else {
        match item_at(data, pos) {
            Ok((_, next)) if pos < next <= data.len() => (data[pos] == 0xa4 ==> single_is_sound(
                single_at(data, pos),
            )) && singles_sound(data, next),
            _ => true,
        }
    }
}

/// Whether a byte is a code that is kept for later use.
pub open spec fn is_reserved(b: u8) -> bool {
    0xa7 <= b <= 0xc7 || 0xcf <= b
}

/// The reserved codes among the elements of a stream from `pos` on.
pub open spec fn reserved_from(data: Seq<u8>, pos: int) -> Seq<u8>
    decreases data.len() - pos,
{
    if !(0 <= pos < data.len()) {
        seq![]
    } else {
        match item_at(data, pos) {
            Ok((_, next)) if pos < next <= data.len() => (if is_reserved(data[pos]) {
                seq![data[pos]]
            } else {
                seq![]
            }) + reserved_from(data, next),
            _ => seq![],
        }
    }
}

/// A line ends at or after each position on it.
pub proof fn line_end_bounds(data: Seq<u8>, pos: int)
    requires
        0 <= pos <= data.len(),
    ensures
        pos <= line_end(data, pos) <= data.len(),
        pos < data.len() && data[pos] != 0x0a ==> pos < line_end(data, pos),
    decreases data.len() - pos,
{
    if pos < data.len() && data[pos] != 0x0a {
        line_end_bounds(data, pos + 1);
    }
}

/// Every element of a stream takes up at least one byte, all of them in the stream.
pub proof fn item_advances(data: Seq<u8>, pos: int)
    requires
        0 <= pos < data.len(),
    ensures
        item_at(data, pos) matches Ok((_, next)) ==> pos < next <= data.len(),
{
    line_end_bounds(data, pos);
}

/// The definitions in force: what each request code and each string token means.
pub struct Definitions {
    pub requests: Map<u8, Seq<char>>,
    pub strings: Map<u64, Seq<char>>,
}

/// The text for one element.
pub open spec fn item_text(item: Item, defs: Definitions) -> Result<Seq<char>, BinaryError> {
    match item {
        Item::Text(t) => Ok(t),
        Item::Request(code) => if defs.requests.contains_key(code) {
            Ok(seq!['\n'] + defs.requests[code] + seq![' '])
        } else {
            Err(BinaryError::UndefinedRequest { code })
        },
        Item::Token(token) => if defs.strings.contains_key(token) {
            Ok(spaced(quoted(defs.strings[token])))
        } else {
            Err(BinaryError::UndefinedString { token })
        },
        Item::DefineString(_, _) => Ok(seq![]),
        Item::DefineRequest(_, _) => Ok(seq![]),
    }
}

/// The definitions in force after one element.
pub open spec fn item_defs(item: Item, defs: Definitions) -> Definitions {
    match item {
        Item::DefineString(token, s) => Definitions {
            strings: defs.strings.insert(token, s),
            ..defs
        },
        Item::DefineRequest(code, s) => Definitions {
            requests: defs.requests.insert(code, s),
            ..defs
        },
        _ => defs,
    }
}

/// `t` before the text of `r`.
pub open spec fn prepend(t: Seq<char>, r: Result<Seq<char>, BinaryError>) -> Result<
    Seq<char>,
    BinaryError,
> {
    match r {
        Ok(u) => Ok(t + u),
        Err(e) => Err(e),
    }
}

/// The canonical text of the stream from `pos` on, under these definitions.
pub open spec fn decoded_from(data: Seq<u8>, pos: int, defs: Definitions) -> Result<
    Seq<char>,
    BinaryError,
>
    decreases data.len() - pos,
{
    proof {
        if 0 <= pos < data.len() {
            item_advances(data, pos);
        }
    }
    if pos < 0 || pos >= data.len() {
        Ok(seq![])
    } else {
        match item_at(data, pos) {
            Err(e) => Err(e),
            Ok((item, next)) => match item_text(item, defs) {
                Err(e) => Err(e),
                Ok(t) => prepend(t, decoded_from(data, next, item_defs(item, defs))),
            },
        }
    }
}

/// Nothing is defined at the start of a stream.
pub open spec fn no_definitions() -> Definitions {
    Definitions { requests: Map::empty(), strings: Map::empty() }
}

/// The canonical text of a (possibly) binary stream.
pub open spec fn decoded(data: Seq<u8>) -> Result<Seq<char>, BinaryError> {
    decoded_from(data, 0, no_definitions())
}

// ---- decoder ---------------------------------------------------------------

/// True when the buffer contains binary RIB codes (bytes of 0x80 and above
/// outside comments).
pub fn looks_binary(data: &[u8]) -> (r: bool)
    ensures
        r == has_codes(data@),
{
    let mut commented: bool = false;
    let mut i: usize = 0;
    while i < data.len()
        invariant
            0 <= i <= data@.len(),
            commented == in_comment(data@, i as int),
            forall|j: int| 0 <= j < i && #[trigger] data@[j] >= 0x80 ==> in_comment(data@, j),
        decreases data@.len() - i,
    {
        let b: u8 = data[i];
        if b == 0x23 {
            commented = true;
        } else if b == 0x0a {
            commented = false;
        } else if b >= 0x80 && !commented {
            return true;
        }
        i += 1;
    }
    false
}

pub(crate) proof fn be_uint_bound(bytes: Seq<u8>)
    ensures
        be_uint(bytes) < pow256(bytes.len()),
    decreases bytes.len(),
{
    if bytes.len() > 0 {
        be_uint_bound(bytes.drop_last());
    }
}

pub(crate) proof fn pow256_values()
    ensures
        pow256(1) == 0x100,
        pow256(2) == 0x1_0000,
        pow256(3) == 0x100_0000,
        pow256(4) == 0x1_0000_0000,
        pow256(5) == 0x100_0000_0000,
        pow256(6) == 0x1_0000_0000_0000,
        pow256(7) == 0x100_0000_0000_0000,
        pow256(8) == 0x1_0000_0000_0000_0000,
{
    reveal_with_fuel(pow256, 9);
}

pub(crate) proof fn pow256_monotonic(a: nat, b: nat)
    requires
        a <= b,
    ensures
        pow256(a) <= pow256(b),
    decreases b,
{
    if a < b {
        pow256_monotonic(a, (b - 1) as nat);
    }
}

pub(crate) proof fn be_uint_first(bytes: Seq<u8>)
    requires
        bytes.len() > 0,
    ensures
        bytes[0] * pow256((bytes.len() - 1) as nat) <= be_uint(bytes) < (bytes[0] + 1) * pow256(
            (bytes.len() - 1) as nat,
        ),
    decreases bytes.len(),
{
    reveal_with_fuel(pow256, 2);
    let f = bytes[0];
    if bytes.len() == 1 {
        assert(be_uint(bytes.drop_last()) == 0);
        assert(pow256((bytes.len() - 1) as nat) == 1);
        assert(f * 1 == f && (f + 1) * 1 == f + 1);
    } else {
        be_uint_first(bytes.drop_last());
        let p = pow256((bytes.len() - 2) as nat);
        let u = be_uint(bytes.drop_last());
        assert(bytes.drop_last()[0] == f);
        assert(f * p <= u < (f + 1) * p);
        assert(pow256((bytes.len() - 1) as nat) == 256 * p);
        assert(f * (256 * p) == 256 * (f * p) && (f + 1) * (256 * p) == 256 * ((f + 1) * p))
            by (nonlinear_arith);
    }
}

/// The unsigned integer of `bytes` bytes at `*pos`, most significant byte first.
pub fn read_be_uint(data: &[u8], pos: &mut usize, bytes: usize) -> (r: Result<u64, BinaryError>)
    requires
        bytes <= 8,
    ensures
        match r {
            Ok(v) => uint_at(data@, *old(pos) as int, bytes as int) == Ok::<nat, BinaryError>(
                v as nat,
            ) && *final(pos) == *old(pos) + bytes && v < pow256(bytes as nat),
            Err(e) => uint_at(data@, *old(pos) as int, bytes as int) == Err::<nat, BinaryError>(e)
                && *final(pos) == *old(pos),
        },
{
    if *pos > data.len() || bytes > data.len() - *pos {
        return Err(BinaryError::TruncatedInteger { at: *pos });
    }
    let start: usize = *pos;
    let mut v: u64 = 0;
    let mut k: usize = 0;
    proof {
        pow256_values();
    }
    while k < bytes
        invariant
            start <= data@.len(),
            bytes <= data@.len() - start,
            bytes <= 8,
            k <= bytes,
            *pos == start + k,
            v == be_uint(data@.subrange(start as int, start + k)),
            v < pow256(k as nat),
        decreases bytes - k,
    {
        proof {
            pow256_values();
            pow256_monotonic(k as nat, 7);
            let next = data@.subrange(start as int, start + k + 1);
            assert(next.drop_last() =~= data@.subrange(start as int, start + k));
            be_uint_bound(next);
        }
        v = v * 256 + data[*pos] as u64;
        *pos = *pos + 1;
        k += 1;
    }
    Ok(v)
}

/// The two's complement integer of `bytes` bytes at `*pos`.
pub fn read_be_int(data: &[u8], pos: &mut usize, bytes: usize) -> (r: Result<i64, BinaryError>)
    requires
        1 <= bytes <= 8,
    ensures
        match r {
            Ok(v) => uint_at(data@, *old(pos) as int, bytes as int) is Ok && v == be_int(
                data@.subrange(*old(pos) as int, *old(pos) + bytes),
            ) && *final(pos) == *old(pos) + bytes && -pow256(bytes as nat) <= 2 * v < pow256(
                bytes as nat,
            ),
            Err(e) => uint_at(data@, *old(pos) as int, bytes as int) == Err::<nat, BinaryError>(e)
                && *final(pos) == *old(pos),
        },
{
    let ghost start = *pos as int;
    let raw: u64 = match read_be_uint(data, pos, bytes) {
        Ok(v) => v,
        Err(e) => {
            return Err(e);
        },
    };
    let half: u64 = match bytes {
        1 => 0x80,
        2 => 0x8000,
        3 => 0x80_0000,
        4 => 0x8000_0000,
        5 => 0x80_0000_0000,
        6 => 0x8000_0000_0000,
        7 => 0x80_0000_0000_0000,
        _ => 0x8000_0000_0000_0000,
    };
    proof {
        pow256_values();
        let s = data@.subrange(start, start + bytes);
        be_uint_first(s);
        let p = pow256((bytes - 1) as nat);
        assert(half == 128 * p && pow256(bytes as nat) == 2 * half) by {
            reveal_with_fuel(pow256, 2);
        }
        if s[0] >= 0x80 {
            assert(s[0] * p >= 128 * p) by (nonlinear_arith)
                requires
                    s[0] >= 128,
                    p >= 0,
            ;
        } else {
            assert((s[0] + 1) * p <= 128 * p) by (nonlinear_arith)
                requires
                    s[0] < 128,
                    p >= 0,
            ;
        }
    }
    if raw >= half {
        Ok((raw as i128 - 2 * (half as i128)) as i64)
    } else {
        Ok(raw as i64)
    }
}

/// std's `String::from_utf8_lossy`: valid UTF-8 is decoded as it stands; what it
/// makes of other bytes is only named.
#[verifier::external_body]
pub(crate) fn lossy_string(bytes: &[u8]) -> (s: String)
    ensures
        s@ == utf8_lossy(bytes@),
        valid_utf8(bytes@) ==> s@ == decode_utf8(bytes@),
{
    String::from_utf8_lossy(bytes).into_owned()
}

/// std's `Display` for the double that `nom::number::complete::be_f64` reads from
/// these bits. The text is named; of a finite number it is decimal, and
/// `nom::number::complete::double` reads it, to its end, as that number. Which of the
/// texts that do so it is, is left unsaid.
#[verifier::external_body]
pub(crate) fn display_double(bits: u64) -> (s: String)
    ensures
        s@ == double_text(bits),
        double::is_finite(bits) ==> round_trip::is_readable(s@) && round_trip::reading(s@) == bits,
{
    let bytes = bits.to_be_bytes();
    match nom::number::complete::be_f64::<&[u8], nom::error::Error<&[u8]>>(&bytes[..]) {
        Ok((_, v)) => format!("{v}"),
        Err(_) => String::new(),
    }
}

/// std's `Display` for the single-precision number that
/// `nom::number::complete::be_f32` reads from these bits. The text is named; of a finite
/// number it is decimal and reads back as that number in single precision, so
/// `nom::number::complete::double` reads it, to its end, as a double near that number.
#[verifier::external_body]
fn display_single(bits: u32) -> (s: String)
    ensures
        s@ == single_text(bits),
        double::is_finite(double::widened(bits)) ==> round_trip::is_readable(s@) && near::is_near(
            round_trip::reading(s@),
            double::widened(bits),
        ),
{
    let bytes = bits.to_be_bytes();
    match nom::number::complete::be_f32::<&[u8], nom::error::Error<&[u8]>>(&bytes[..]) {
        Ok((_, v)) => format!("{v}"),
        Err(_) => String::new(),
    }
}

/// The bytes `data[from..to]`.
fn bytes_between(data: &[u8], from: usize, to: usize) -> (r: Vec<u8>)
    requires
        from <= to <= data@.len(),
    ensures
        r@ == data@.subrange(from as int, to as int),
{
    let mut out: Vec<u8> = Vec::new();
    let mut i: usize = from;
    while i < to
        invariant
            from <= i <= to <= data@.len(),
            out@ == data@.subrange(from as int, i as int),
        decreases to - i,
    {
        out.push(data[i]);
        i += 1;
    }
    out
}

/// The encoded string that must follow at `*pos` (short or long form).
pub fn read_string(data: &[u8], pos: &mut usize) -> (r: Result<String, BinaryError>)
    requires
        *old(pos) <= data@.len(),
    ensures
        match r {
            Ok(s) => string_at(data@, *old(pos) as int) == Ok::<(Seq<char>, int), BinaryError>(
                (s@, *final(pos) as int),
            ) && *final(pos) <= data@.len(),
            Err(e) => string_at(data@, *old(pos) as int) == Err::<(Seq<char>, int), BinaryError>(e),
        },
{
    if *pos >= data.len() {
        return Err(BinaryError::TruncatedString);
    }
    let code: u8 = data[*pos];
    *pos = *pos + 1;
    let len: u64 = if 0x90 <= code && code <= 0x9f {
        (code - 0x90) as u64
    } else if 0xa0 <= code && code <= 0xa3 {
        match read_be_uint(data, pos, (code - 0xa0) as usize + 1) {
            Ok(v) => v,
            Err(e) => {
                return Err(e);
            },
        }
    } else {
        return Err(BinaryError::ExpectedString { code });
    };
    if len > (data.len() - *pos) as u64 {
        return Err(BinaryError::TruncatedStringBody);
    }
    let end: usize = *pos + len as usize;
    let s: String = lossy_string(bytes_between(data, *pos, end).as_slice());
    *pos = end;
    Ok(s)
}

proof fn escaped_push(s: Seq<char>, c: char)
    ensures
        escaped(s.push(c)) == escaped(s) + escaped_char(c),
{
    assert(s.push(c).drop_last() =~= s);
}

/// Appends `s` as a quoted string.
pub fn push_quoted(out: &mut String, s: &str)
    ensures
        final(out)@ == old(out)@ + quoted(s@),
{
    let ghost start = out@;
    out.push('"');
    let chars: Vec<char> = text::chars_of(s);
    let mut i: usize = 0;
    assert(chars@.subrange(0, 0) =~= seq![]);
    while i < chars.len()
        invariant
            chars@ == s@,
            i <= chars@.len(),
            out@ == start.push('"') + escaped(chars@.subrange(0, i as int)),
        decreases chars@.len() - i,
    {
        let c: char = chars[i];
        let ghost before = out@;
        if c == '"' {
            out.push('\\');
            out.push('"');
        } else if c == '\\' {
            out.push('\\');
            out.push('\\');
        } else if c == '\n' {
            out.push('\\');
            out.push('n');
        } else {
            out.push(c);
        }
        proof {
            assert(out@ =~= before + escaped_char(c));
            escaped_push(chars@.subrange(0, i as int), c);
            assert(chars@.subrange(0, i as int).push(c) =~= chars@.subrange(0, i + 1));
        }
        i += 1;
    }
    out.push('"');
    assert(chars@.subrange(0, i as int) =~= s@);
    assert(out@ =~= start + quoted(s@));
}

/// The texts of the strings in a map.
pub open spec fn texts<K>(m: Map<K, String>) -> Map<K, Seq<char>> {
    m.map_values(|s: String| s@)
}

/// What `requests` and `strings` define.
pub open spec fn defined(requests: Map<u8, String>, strings: Map<u64, String>) -> Definitions {
    Definitions { requests: texts(requests), strings: texts(strings) }
}

/// Appends the text of the number, string or plain element at `*pos`.
fn push_plain_item(data: &[u8], pos: &mut usize, out: &mut String) -> (r: Result<(), BinaryError>)
    requires
        *old(pos) < data@.len(),
        data@[*old(pos) as int] <= 0xa5,
    ensures
        match r {
            Ok(_) => item_at(data@, *old(pos) as int) matches Ok((Item::Text(t), next)) && next
                == *final(pos) && final(out)@ == old(out)@ + t && (data@[*old(pos) as int] == 0xa4
                ==> single_is_sound(single_at(data@, *old(pos) as int))),
            Err(e) => item_at(data@, *old(pos) as int) == Err::<(Item, int), BinaryError>(e),
        },
{
    let b: u8 = data[*pos];
    let ghost start = *pos as int;
    let ghost before = out@;
    proof {
        pow256_values();
    }
    if b == 0x23 {
        assert(byte_chars(data@.subrange(start, start)) =~= seq![]);
        while *pos < data.len() && data[*pos] != 0x0a
            invariant
                0 <= start <= *pos <= data@.len(),
                line_end(data@, start) == line_end(data@, *pos as int),
                out@ == before + byte_chars(data@.subrange(start, *pos as int)),
            decreases data@.len() - *pos,
        {
            out.push(data[*pos] as char);
            *pos = *pos + 1;
            assert(byte_chars(data@.subrange(start, *pos as int)) =~= byte_chars(
                data@.subrange(start, *pos - 1),
            ).push(data@[*pos - 1] as char));
        }
    } else if b < 0x80 {
        out.push(b as char);
        *pos = *pos + 1;
        assert(out@ =~= before + seq![b as char]);
    } else if b <= 0x83 {
        *pos = *pos + 1;
        let v: i64 = match read_be_int(data, pos, (b - 0x80) as usize + 1) {
            Ok(v) => v,
            Err(e) => {
                return Err(e);
            },
        };
        out.push(' ');
        text::push_int(out, v);
        out.push(' ');
        assert(out@ =~= before + spaced(text::int_text(v as int)));
    } else if b <= 0x8f {
        *pos = *pos + 1;
        let q: usize = (b - 0x84) as usize;
        let d: usize = q / 4;
        let w: usize = q % 4;
        let v: i64 = match read_be_int(data, pos, w + 1 + d) {
            Ok(v) => v,
            Err(e) => {
                return Err(e);
            },
        };
        proof {
            pow256_monotonic((w + 1 + d) as nat, 6);
        }
        let s: String = display_double(double::dyadic_double(v, 8 * d as u32));
        out.push(' ');
        out.append(s.as_str());
        out.push(' ');
        assert(out@ =~= before + spaced(s@));
    } else if b <= 0xa3 {
        let s: String = match read_string(data, pos) {
            Ok(s) => s,
            Err(e) => {
                return Err(e);
            },
        };
        out.push(' ');
        push_quoted(out, s.as_str());
        out.push(' ');
        assert(out@ =~= before + spaced(quoted(s@)));
    } else if b == 0xa4 {
        *pos = *pos + 1;
        let raw: u64 = match read_be_uint(data, pos, 4) {
            Ok(v) => v,
            Err(e) => {
                return Err(e);
            },
        };
        let s: String = display_single(raw as u32);
        out.push(' ');
        out.append(s.as_str());
        out.push(' ');
        assert(out@ =~= before + spaced(s@));
    } else {
        *pos = *pos + 1;
        let raw: u64 = match read_be_uint(data, pos, 8) {
            Ok(v) => v,
            Err(e) => {
                return Err(e);
            },
        };
        let s: String = display_double(raw);
        out.push(' ');
        out.append(s.as_str());
        out.push(' ');
        assert(out@ =~= before + spaced(s@));
    }
    Ok(())
}

/// Appends the text of the element at `*pos` and enters what it defines.
fn push_item(
    data: &[u8],
    pos: &mut usize,
    out: &mut String,
    requests: &mut HashMap<u8, String>,
    strings: &mut HashMap<u64, String>,
) -> (r: Result<(), BinaryError>)
    requires
        *old(pos) < data@.len(),
    ensures
        match r {
            Ok(_) => {
                &&& item_at(data@, *old(pos) as int) matches Ok((item, next))
                &&& next == *final(pos)
                &&& data@[*old(pos) as int] == 0xa4 ==> single_is_sound(
                    single_at(data@, *old(pos) as int),
                )
                &&& item_text(item, defined(old(requests)@, old(strings)@)) matches Ok(t)
                &&& final(out)@ == old(out)@ + t
                &&& defined(final(requests)@, final(strings)@) == item_defs(
                    item,
                    defined(old(requests)@, old(strings)@),
                )
            },
            Err(e) => match item_at(data@, *old(pos) as int) {
                Ok((item, _)) => item_text(item, defined(old(requests)@, old(strings)@)) == Err::<
                    Seq<char>,
                    BinaryError,
                >(e),
                Err(f) => e == f,
            },
        },
{
    let b: u8 = data[*pos];
    let ghost before = out@;
    let ghost defs = defined(requests@, strings@);
    proof {
        pow256_values();
    }
    if b <= 0xa5 {
        return push_plain_item(data, pos, out);
    }
    if b == 0xa6 {
        *pos = *pos + 1;
        if *pos >= data.len() {
            return Err(BinaryError::TruncatedRequestCode);
        }
        let code: u8 = data[*pos];
        *pos = *pos + 1;
        match requests.get(&code) {
            Some(name) => {
                out.push('\n');
                out.append(name.as_str());
                out.push(' ');
                assert(out@ =~= before + (seq!['\n'] + name@ + seq![' ']));
            },
            None => {
                return Err(BinaryError::UndefinedRequest { code });
            },
        }
    } else if 0xc8 <= b && b <= 0xcb {
        *pos = *pos + 1;
        let token: u64 = match read_be_uint(data, pos, (b - 0xc8) as usize + 1) {
            Ok(v) => v,
            Err(e) => {
                return Err(e);
            },
        };
        let s: String = match read_string(data, pos) {
            Ok(s) => s,
            Err(e) => {
                return Err(e);
            },
        };
        let ghost t = s@;
        strings.insert(token, s);
        assert(texts(strings@) =~= defs.strings.insert(token, t));
        assert(out@ =~= before + Seq::<char>::empty());
    } else if b == 0xcc {
        *pos = *pos + 1;
        if *pos >= data.len() {
            return Err(BinaryError::TruncatedRequestDefinition);
        }
        let code: u8 = data[*pos];
        *pos = *pos + 1;
        let name: String = match read_string(data, pos) {
            Ok(s) => s,
            Err(e) => {
                return Err(e);
            },
        };
        let ghost t = name@;
        requests.insert(code, name);
        assert(texts(requests@) =~= defs.requests.insert(code, t));
        assert(out@ =~= before + Seq::<char>::empty());
    } else if b == 0xcd || b == 0xce {
        *pos = *pos + 1;
        let token: u64 = match read_be_uint(data, pos, (b - 0xcd) as usize + 1) {
            Ok(v) => v,
            Err(e) => {
                return Err(e);
            },
        };
        match strings.get(&token) {
            Some(s) => {
                out.push(' ');
                push_quoted(out, s.as_str());
                out.push(' ');
                assert(out@ =~= before + spaced(quoted(s@)));
            },
            None => {
                return Err(BinaryError::UndefinedString { token });
            },
        }
    } else {
        *pos = *pos + 1;
        assert(out@ =~= before + Seq::<char>::empty());
    }
    Ok(())
}

/// Translate a (possibly) binary RIB byte stream into canonical text RIB. Reserved codes are
/// skipped; they are handed out in order, so that each can be warned of.
pub fn decode_to_text(data: &[u8]) -> (r: Result<(String, Vec<u8>), BinaryError>)
    ensures
        match r {
            Ok((s, skipped)) => decoded(data@) == Ok::<Seq<char>, BinaryError>(s@) && skipped@
                == reserved_from(data@, 0) && singles_sound(data@, 0),
            Err(e) => decoded(data@) == Err::<Seq<char>, BinaryError>(e),
        },
{
    let mut out: String = String::new();
    let mut skipped: Vec<u8> = Vec::new();
    let mut requests: HashMap<u8, String> = HashMap::new();
    let mut strings: HashMap<u64, String> = HashMap::new();
    let mut pos: usize = 0;
    proof {
        assert(texts(requests@) =~= Map::empty());
        assert(texts(strings@) =~= Map::empty());
        match decoded(data@) {
            Ok(t) => assert(Seq::<char>::empty() + t =~= t),
            Err(_) => {},
        }
        assert(skipped@ + reserved_from(data@, 0) =~= reserved_from(data@, 0));
    }
    while pos < data.len()
        invariant
            pos <= data@.len(),
            decoded(data@) == prepend(
                out@,
                decoded_from(data@, pos as int, defined(requests@, strings@)),
            ),
            reserved_from(data@, 0) == skipped@ + reserved_from(data@, pos as int),
            singles_sound(data@, pos as int) ==> singles_sound(data@, 0),
        decreases data@.len() - pos,
    {
        let ghost start = pos as int;
        let ghost before = out@;
        let ghost defs = defined(requests@, strings@);
        let ghost known = skipped@;
        let b: u8 = data[pos];
        proof {
            item_advances(data@, start);
        }
        match push_item(data, &mut pos, &mut out, &mut requests, &mut strings) {
            Ok(_) => {},
            Err(e) => {
                return Err(e);
            },
        }
        if (0xa7 <= b && b <= 0xc7) || 0xcf <= b {
            skipped.push(b);
        }
        proof {
            let (item, next) = item_at(data@, start)->Ok_0;
            let t = item_text(item, defs)->Ok_0;
            match decoded_from(data@, next, item_defs(item, defs)) {
                Ok(u) => assert(before + (t + u) =~= (before + t) + u),
                Err(_) => {},
            }
            let rest = reserved_from(data@, next);
            if is_reserved(b) {
                assert(known + (seq![b] + rest) =~= known.push(b) + rest);
            } else {
                assert(known + (Seq::<u8>::empty() + rest) =~= known + rest);
            }
        }
    }
    proof {
        assert(out@ + Seq::<char>::empty() =~= out@);
        assert(skipped@ + Seq::<u8>::empty() =~= skipped@);
    }
    Ok((out, skipped))
}

// ---- how requests are written ----------------------------------------------

/// The low `n` bytes of `v`, most significant first.
pub open spec fn be_bytes(v: nat, n: nat) -> Seq<u8>
    decreases n,
{
    if n == 0 {
        seq![]
    } else {
        be_bytes(v / 256, (n - 1) as nat).push((v % 256) as u8)
    }
}

/// An encoded string: up to 15 bytes in the short form, else with a 2-byte length.
pub open spec fn string_bytes(s: Seq<char>) -> Seq<u8> {
    let b = encode_utf8(s);
    if b.len() <= 15 {
        seq![(0x90 + b.len()) as u8] + b
    } else {
        seq![0xa1u8] + be_bytes(b.len(), 2) + b
    }
}

/// The two's complement of `i` in `n` bytes.
pub open spec fn int_bytes(i: int, n: nat) -> Seq<u8> {
    be_bytes((i % pow256(n) as int) as nat, n)
}

/// An encoded number: a small integer in 1, 2 or 4 bytes, anything else in single
/// precision (RIB numbers are single-precision).
pub open spec fn number_bytes(bits: u64) -> Seq<u8> {
    match double::small_integer(bits) {
        Some(i) => if -128 <= i < 128 {
            seq![0x80u8] + int_bytes(i, 1)
        } else if -32768 <= i < 32768 {
            seq![0x81u8] + int_bytes(i, 2)
        } else {
            seq![0x83u8] + int_bytes(i, 4)
        },
        None => seq![0xa4u8] + be_bytes(double::narrowed(bits) as nat, 4),
    }
}

/// Each number encoded, one after the other.
pub open spec fn numbers_bytes(v: Seq<u64>) -> Seq<u8>
    decreases v.len(),
{
    if v.len() == 0 {
        seq![]
    } else {
        numbers_bytes(v.drop_last()) + number_bytes(v.last())
    }
}

/// Each string encoded, one after the other.
pub open spec fn strings_bytes(v: Seq<Seq<char>>) -> Seq<u8>
    decreases v.len(),
{
    if v.len() == 0 {
        seq![]
    } else {
        strings_bytes(v.drop_last()) + string_bytes(v.last())
    }
}

/// An encoded value; arrays stand in brackets.
pub open spec fn value_bytes(v: ast::ValueView) -> Seq<u8> {
    match v {
        ast::ValueView::Number(n) => number_bytes(n),
        ast::ValueView::Text(s) => string_bytes(s),
        ast::ValueView::Numbers(v) => seq![0x5bu8] + numbers_bytes(v) + seq![0x5du8],
        ast::ValueView::Texts(v) => seq![0x5bu8] + strings_bytes(v) + seq![0x5du8],
    }
}

/// Each value encoded, one after the other.
pub open spec fn values_bytes(v: Seq<ast::ValueView>) -> Seq<u8>
    decreases v.len(),
{
    if v.len() == 0 {
        seq![]
    } else {
        values_bytes(v.drop_last()) + value_bytes(v.last())
    }
}

/// The index of `name` in `names`; their number where it is not among them.
pub open spec fn name_index(names: Seq<Seq<char>>, name: Seq<char>) -> nat
    decreases names.len(),
{
    if names.len() == 0 || names[0] == name {
        0
    } else {
        1 + name_index(names.drop_first(), name)
    }
}

/// The names of the first `n` requests, each once, in order of first appearance.
pub open spec fn names_before(requests: Seq<ast::RequestView>, n: int) -> Seq<Seq<char>>
    decreases n,
{
    if n <= 0 {
        seq![]
    } else {
        let before = names_before(requests, n - 1);
        let name = requests[n - 1].name;
        if name_index(before, name) < before.len() {
            before
        } else {
            before.push(name)
        }
    }
}

/// The code of request `i`: its name's index among the names, of which the last byte counts.
pub open spec fn request_code(requests: Seq<ast::RequestView>, i: int) -> u8 {
    (name_index(names_before(requests, i), requests[i].name) % 256) as u8
}

/// What a code means after the first `n` requests: the name of the last of them that has it.
pub open spec fn owner_before(requests: Seq<ast::RequestView>, n: int, code: u8) -> Option<
    Seq<char>,
>
    decreases n,
{
    if n <= 0 {
        None
    } else if request_code(requests, n - 1) == code {
        Some(requests[n - 1].name)
    } else {
        owner_before(requests, n - 1, code)
    }
}

/// Request `i` encoded: its code's definition where the code means nothing yet or another
/// name, then the call with its values, then a newline.
pub open spec fn request_bytes(requests: Seq<ast::RequestView>, i: int) -> Seq<u8> {
    let code = request_code(requests, i);
    let definition = if owner_before(requests, i, code) == Some(requests[i].name) {
        seq![]
    } else {
        seq![0xccu8, code] + string_bytes(requests[i].name)
    };
    definition + seq![0xa6u8, code] + values_bytes(requests[i].values) + seq![0x0au8]
}

/// The first `n` requests encoded.
pub open spec fn encoded_until(requests: Seq<ast::RequestView>, n: int) -> Seq<u8>
    decreases n,
{
    if n <= 0 {
        seq![]
    } else {
        encoded_until(requests, n - 1) + request_bytes(requests, n - 1)
    }
}

/// A request stream as binary RIB.
pub open spec fn encoded(requests: Seq<ast::RequestView>) -> Seq<u8> {
    encoded_until(requests, requests.len() as int)
}

/// Each number as text, with blanks between them.
pub open spec fn numbers_text(v: Seq<u64>) -> Seq<char>
    decreases v.len(),
{
    if v.len() == 0 {
        seq![]
    } else if v.len() == 1 {
        double_text(v[0])
    } else {
        numbers_text(v.drop_last()).push(' ') + double_text(v.last())
    }
}

/// Each string quoted, with blanks between them.
pub open spec fn strings_text(v: Seq<Seq<char>>) -> Seq<char>
    decreases v.len(),
{
    if v.len() == 0 {
        seq![]
    } else if v.len() == 1 {
        quoted(v[0])
    } else {
        strings_text(v.drop_last()).push(' ') + quoted(v.last())
    }
}

/// A value as text.
pub open spec fn value_text(v: ast::ValueView) -> Seq<char> {
    match v {
        ast::ValueView::Number(n) => double_text(n),
        ast::ValueView::Text(s) => quoted(s),
        ast::ValueView::Numbers(v) => seq!['['] + numbers_text(v) + seq![']'],
        ast::ValueView::Texts(v) => seq!['['] + strings_text(v) + seq![']'],
    }
}

/// Each value as text, a blank before each.
pub open spec fn values_text(v: Seq<ast::ValueView>) -> Seq<char>
    decreases v.len(),
{
    if v.len() == 0 {
        seq![]
    } else {
        values_text(v.drop_last()).push(' ') + value_text(v.last())
    }
}

/// A request as one line of text.
pub open spec fn request_text(r: ast::RequestView) -> Seq<char> {
    r.name + values_text(r.values) + seq!['\n']
}

/// Request streams as text, one request to a line.
pub open spec fn requests_text(requests: Seq<ast::RequestView>) -> Seq<char>
    decreases requests.len(),
{
    if requests.len() == 0 {
        seq![]
    } else {
        requests_text(requests.drop_last()) + request_text(requests.last())
    }
}

// ---- encoder ---------------------------------------------------------------

/// Appends `bytes`.
fn push_bytes(out: &mut Vec<u8>, bytes: &[u8])
    ensures
        final(out)@ == old(out)@ + bytes@,
{
    let ghost start = out@;
    let mut i: usize = 0;
    assert(start + bytes@.subrange(0, 0) =~= start);
    while i < bytes.len()
        invariant
            i <= bytes@.len(),
            out@ == start + bytes@.subrange(0, i as int),
        decreases bytes@.len() - i,
    {
        out.push(bytes[i]);
        assert(out@ =~= start + bytes@.subrange(0, i + 1));
        i += 1;
    }
    assert(bytes@.subrange(0, i as int) =~= bytes@);
}

/// Appends the low `n` bytes of `v`, most significant first.
fn push_be(out: &mut Vec<u8>, v: u64, n: usize)
    ensures
        final(out)@ == old(out)@ + be_bytes(v as nat, n as nat),
    decreases n,
{
    let ghost start = out@;
    if n > 0 {
        push_be(out, v / 256, n - 1);
        out.push((v % 256) as u8);
    }
    assert(out@ =~= start + be_bytes(v as nat, n as nat));
}

proof fn be_bytes_wrap(v: nat, w: nat, n: nat)
    requires
        v % pow256(n) == w % pow256(n),
    ensures
        be_bytes(v, n) == be_bytes(w, n),
    decreases n,
{
    if n > 0 {
        let p = pow256((n - 1) as nat);
        pow256_monotonic(0, (n - 1) as nat);
        assert(v % 256 == w % 256 && (v / 256) % p == (w / 256) % p) by (nonlinear_arith)
            requires
                v % (256 * p) == w % (256 * p),
                p >= 1,
        {
            let q = 256 * p;
            let a = v / q;
            let b = w / q;
            let r = v % q;
            vstd::arithmetic::div_mod::lemma_fundamental_div_mod(v as int, q as int);
            vstd::arithmetic::div_mod::lemma_fundamental_div_mod(w as int, q as int);
            assert(v == q * a + r && w == q * b + r);
            assert(v == 256 * (p * a) + r && w == 256 * (p * b) + r);
            assert(v / 256 == p * a + r / 256 && w / 256 == p * b + r / 256);
            vstd::arithmetic::div_mod::lemma_mod_multiples_vanish(a as int, (r / 256) as int, p as int);
            vstd::arithmetic::div_mod::lemma_mod_multiples_vanish(b as int, (r / 256) as int, p as int);
        }
        be_bytes_wrap(v / 256, w / 256, (n - 1) as nat);
    }
}

/// Appends an encoded string.
pub fn put_string(out: &mut Vec<u8>, s: &str)
    ensures
        final(out)@ == old(out)@ + string_bytes(s@),
{
    let ghost start = out@;
    let bytes: &[u8] = s.as_bytes();
    if bytes.len() <= 15 {
        out.push(0x90 + bytes.len() as u8);
    } else {
        // Long form with a 2-byte length (RIB strings stay below 64 K).
        out.push(0xa1);
        push_be(out, bytes.len() as u64, 2);
    }
    push_bytes(out, bytes);
    assert(out@ =~= start + string_bytes(s@));
}

/// Appends an encoded number.
#[verifier::spinoff_prover]
#[verifier::rlimit(40)]
pub fn put_number(out: &mut Vec<u8>, bits: u64)
    ensures
        final(out)@ == old(out)@ + number_bytes(bits),
{
    let ghost start = out@;
    proof {
        pow256_values();
    }
    match double::to_small_integer(bits) {
        Some(i) => {
            // Wraps a negative integer to its two's complement.
            let w: u64 = if i < 0 { (i + 0x1_0000_0000) as u64 } else { i as u64 };
            if -128 <= i && i < 128 {
                proof {
                    be_bytes_wrap(w as nat, (i % 0x100) as nat, 1);
                }
                out.push(0x80);
                push_be(out, w, 1);
            } else if -32768 <= i && i < 32768 {
                proof {
                    be_bytes_wrap(w as nat, (i % 0x1_0000) as nat, 2);
                }
                out.push(0x81);
                push_be(out, w, 2);
            } else {
                out.push(0x83);
                push_be(out, w, 4);
            }
        },
        None => {
            out.push(0xa4);
            push_be(out, double::narrow(bits) as u64, 4);
        },
    }
    assert(out@ =~= start + number_bytes(bits));
}

/// Appends an encoded value.
fn put_value(out: &mut Vec<u8>, value: &RibValue)
    ensures
        final(out)@ == old(out)@ + value_bytes(value@),
{
    let ghost start = out@;
    match value {
        RibValue::Number(n) => put_number(out, *n),
        RibValue::String(s) => put_string(out, s.as_str()),
        RibValue::Numbers(v) => {
            out.push(0x5b);
            let mut i: usize = 0;
            assert(v@.subrange(0, 0) =~= seq![]);
            assert(out@ =~= start.push(0x5b) + numbers_bytes(v@.subrange(0, 0)));
            while i < v.len()
                invariant
                    i <= v@.len(),
                    out@ == start.push(0x5b) + numbers_bytes(v@.subrange(0, i as int)),
                decreases v@.len() - i,
            {
                put_number(out, v[i]);
                assert(v@.subrange(0, i + 1).drop_last() =~= v@.subrange(0, i as int));
                assert(out@ =~= start.push(0x5b) + numbers_bytes(v@.subrange(0, i + 1)));
                i += 1;
            }
            assert(v@.subrange(0, i as int) =~= v@);
            out.push(0x5d);
        },
        RibValue::Strings(v) => {
            out.push(0x5b);
            let mut i: usize = 0;
            let ghost t = ast::string_views(v@);
            assert(t.subrange(0, 0) =~= seq![]);
            assert(out@ =~= start.push(0x5b) + strings_bytes(t.subrange(0, 0)));
            while i < v.len()
                invariant
                    i <= v@.len(),
                    t == ast::string_views(v@),
                    out@ == start.push(0x5b) + strings_bytes(t.subrange(0, i as int)),
                decreases v@.len() - i,
            {
                put_string(out, v[i].as_str());
                assert(t.subrange(0, i + 1).drop_last() =~= t.subrange(0, i as int));
                assert(out@ =~= start.push(0x5b) + strings_bytes(t.subrange(0, i + 1)));
                i += 1;
            }
            assert(t.subrange(0, i as int) =~= t);
            out.push(0x5d);
        },
    }
    assert(out@ =~= start + value_bytes(value@));
}

/// The name with an index.
pub open spec fn named(names: Seq<Seq<char>>, k: Option<usize>) -> Option<Seq<char>> {
    match k {
        Some(k) => Some(names[k as int]),
        None => None,
    }
}

/// A name that has an index stands there.
pub proof fn name_stands(names: Seq<Seq<char>>, name: Seq<char>)
    ensures
        name_index(names, name) <= names.len(),
        name_index(names, name) < names.len() ==> names[name_index(names, name) as int] == name,
    decreases names.len(),
{
    if names.len() > 0 && names[0] != name {
        name_stands(names.drop_first(), name);
    }
}

/// The index of `name` in `names`; their number where it is not among them.
pub fn find_name(names: &Vec<String>, name: &String) -> (r: usize)
    ensures
        r == name_index(ast::string_views(names@), name@),
        r <= names@.len(),
{
    let ghost all = ast::string_views(names@);
    let mut i: usize = 0;
    assert(all.subrange(0, all.len() as int) =~= all);
    while i < names.len()
        invariant
            i <= names@.len(),
            all == ast::string_views(names@),
            name_index(all, name@) == i + name_index(all.subrange(i as int, all.len() as int), name@),
        decreases names@.len() - i,
    {
        assert(all.subrange(i as int, all.len() as int)[0] == names@[i as int]@);
        if names[i] == *name {
            return i;
        }
        assert(all.subrange(i as int, all.len() as int).drop_first() =~= all.subrange(i + 1, all.len() as int));
        i += 1;
    }
    i
}

/// Encode a parsed RIB request stream as binary RIB.
pub fn encode_binary(requests: &Vec<RibRequest>) -> (r: Vec<u8>)
    ensures
        r@ == encoded(ast::request_views(requests@)),
{
    let mut out: Vec<u8> = Vec::new();
    let mut names: Vec<String> = Vec::new();
    // By code, the index of the name that it means.
    let mut owners: Vec<Option<usize>> = Vec::new();
    while owners.len() < 256
        invariant
            owners@.len() <= 256,
            forall|c: int| 0 <= c < owners@.len() ==> #[trigger] owners@[c] is None,
        decreases 256 - owners@.len(),
    {
        owners.push(None);
    }
    let mut i: usize = 0;
    let ghost views = ast::request_views(requests@);
    assert(ast::string_views(names@) =~= seq![]);
    while i < requests.len()
        invariant
            i <= requests@.len(),
            views == ast::request_views(requests@),
            ast::string_views(names@) == names_before(views, i as int),
            owners@.len() == 256,
            forall|c: u8|
                owner_before(views, i as int, c) == named(
                    names_before(views, i as int),
                    #[trigger] owners@[c as int],
                ),
            forall|c: int|
                0 <= c < 256 ==> (#[trigger] owners@[c] matches Some(k) ==> k < names@.len()),
            out@ == encoded_until(views, i as int),
        decreases requests@.len() - i,
    {
        let request: &RibRequest = &requests[i];
        let ghost start = out@;
        assert(views[i as int] == request@);
        let ghost before = ast::string_views(names@);
        let index: usize = find_name(&names, &request.name);
        let code: u8 = (index % 256) as u8;
        assert(code == request_code(views, i as int));
        if index == names.len() {
            names.push(request.name.clone());
            assert(ast::string_views(names@) =~= before.push(request.name@));
        } else {
            proof {
                name_stands(before, request.name@);
            }
        }
        assert(ast::string_views(names@) == names_before(views, i + 1));
        assert(ast::string_views(names@)[index as int] == request.name@);
        let ghost held = owners@;
        let owned: bool = match owners[code as usize] {
            Some(k) => names[k] == request.name,
            None => false,
        };
        proof {
            assert(owner_before(views, i as int, code) == named(before, held[code as int]));
            if let Some(k) = held[code as int] {
                assert(k < before.len());
                assert(ast::string_views(names@)[k as int] == before[k as int]);
            }
        }
        if !owned {
            out.push(0xcc);
            out.push(code);
            put_string(&mut out, request.name.as_str());
        }
        owners[code as usize] = Some(index);
        assert forall|c: u8| owner_before(views, i + 1, c) == named(
            names_before(views, i + 1),
            #[trigger] owners@[c as int],
        ) by {
            assert(owner_before(views, i as int, c) == named(before, held[c as int]));
            if c != code {
                assert(owners@[c as int] == held[c as int]);
                if let Some(k) = held[c as int] {
                    assert(k < before.len());
                    assert(names_before(views, i + 1)[k as int] == before[k as int]);
                }
            }
        }
        out.push(0xa6);
        out.push(code);
        let ghost head = out@;
        let ghost values = ast::value_views(request.values@);
        let mut k: usize = 0;
        assert(values.subrange(0, 0) =~= seq![]);
        assert(out@ =~= head + values_bytes(values.subrange(0, 0)));
        while k < request.values.len()
            invariant
                k <= request.values@.len(),
                values == ast::value_views(request.values@),
                out@ == head + values_bytes(values.subrange(0, k as int)),
            decreases request.values@.len() - k,
        {
            put_value(&mut out, &request.values[k]);
            assert(values.subrange(0, k + 1).drop_last() =~= values.subrange(0, k as int));
            assert(out@ =~= head + values_bytes(values.subrange(0, k + 1)));
            k += 1;
        }
        assert(values.subrange(0, k as int) =~= values);
        out.push(0x0a);
        assert(out@ =~= start + request_bytes(views, i as int));
        i += 1;
    }
    out
}

/// Appends a value as text.
fn push_value_text(out: &mut String, value: &RibValue)
    ensures
        final(out)@ == old(out)@ + value_text(value@),
        comes_back::value_returns(value@),
{
    let ghost start = out@;
    match value {
        RibValue::Number(n) => {
            let s: String = display_double(*n);
            out.append(s.as_str());
        },
        RibValue::String(s) => push_quoted(out, s.as_str()),
        RibValue::Numbers(v) => {
            out.push('[');
            let mut i: usize = 0;
            assert(v@.subrange(0, 0) =~= seq![]);
            assert(out@ =~= start.push('[') + numbers_text(v@.subrange(0, 0)));
            while i < v.len()
                invariant
                    i <= v@.len(),
                    out@ == start.push('[') + numbers_text(v@.subrange(0, i as int)),
                    forall|j: int| 0 <= j < i ==> comes_back::number_returns(#[trigger] v@[j]),
                decreases v@.len() - i,
            {
                if i > 0 {
                    out.push(' ');
                }
                let s: String = display_double(v[i]);
                out.append(s.as_str());
                assert(v@.subrange(0, i + 1).drop_last() =~= v@.subrange(0, i as int));
                assert(out@ =~= start.push('[') + numbers_text(v@.subrange(0, i + 1)));
                i += 1;
            }
            assert(v@.subrange(0, i as int) =~= v@);
            out.push(']');
        },
        RibValue::Strings(v) => {
            out.push('[');
            let mut i: usize = 0;
            let ghost t = ast::string_views(v@);
            assert(t.subrange(0, 0) =~= seq![]);
            assert(out@ =~= start.push('[') + strings_text(t.subrange(0, 0)));
            while i < v.len()
                invariant
                    i <= v@.len(),
                    t == ast::string_views(v@),
                    out@ == start.push('[') + strings_text(t.subrange(0, i as int)),
                decreases v@.len() - i,
            {
                if i > 0 {
                    out.push(' ');
                }
                push_quoted(out, v[i].as_str());
                assert(t.subrange(0, i + 1).drop_last() =~= t.subrange(0, i as int));
                assert(out@ =~= start.push('[') + strings_text(t.subrange(0, i + 1)));
                i += 1;
            }
            assert(t.subrange(0, i as int) =~= t);
            out.push(']');
        },
    }
    assert(out@ =~= start + value_text(value@));
}

/// Format a parsed RIB request stream as text, one request to a line. The text is parsed as
/// that stream where the numbers are finite and the strings are written as they are.
pub fn encode_text(requests: &Vec<RibRequest>) -> (r: String)
    ensures
        r@ == requests_text(ast::request_views(requests@)),
        comes_back::are_writable(ast::request_views(requests@)) ==> parser::parsed(r@) == Ok::<
            Seq<ast::RequestView>,
            Seq<char>,
        >(ast::request_views(requests@)),
{
    let mut out: String = String::new();
    let mut i: usize = 0;
    let ghost views = ast::request_views(requests@);
    assert(views.subrange(0, 0) =~= seq![]);
    while i < requests.len()
        invariant
            i <= requests@.len(),
            views == ast::request_views(requests@),
            out@ == requests_text(views.subrange(0, i as int)),
            forall|a: int, b: int|
                0 <= a < i && 0 <= b < views[a].values.len() ==> comes_back::value_returns(
                    #[trigger] views[a].values[b],
                ),
        decreases requests@.len() - i,
    {
        let request: &RibRequest = &requests[i];
        let ghost start = out@;
        assert(views[i as int] == request@);
        out.append(request.name.as_str());
        let ghost head = out@;
        let ghost values = ast::value_views(request.values@);
        let mut k: usize = 0;
        assert(values.subrange(0, 0) =~= seq![]);
        assert(out@ =~= head + values_text(values.subrange(0, 0)));
        while k < request.values.len()
            invariant
                k <= request.values@.len(),
                values == ast::value_views(request.values@),
                out@ == head + values_text(values.subrange(0, k as int)),
                forall|b: int| 0 <= b < k ==> comes_back::value_returns(#[trigger] values[b]),
            decreases request.values@.len() - k,
        {
            out.push(' ');
            push_value_text(&mut out, &request.values[k]);
            assert(values.subrange(0, k + 1).drop_last() =~= values.subrange(0, k as int));
            assert(out@ =~= head + values_text(values.subrange(0, k + 1)));
            k += 1;
        }
        assert(values.subrange(0, k as int) =~= values);
        out.push('\n');
        assert(views.subrange(0, i + 1).drop_last() =~= views.subrange(0, i as int));
        assert(out@ =~= start + request_text(views[i as int]));
        i += 1;
    }
    proof {
        assert(views.subrange(0, i as int) =~= views);
        if comes_back::are_writable(views) {
            comes_back::writing_comes_back(views);
        }
    }
    out
}

} // verus!
