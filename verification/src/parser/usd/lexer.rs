//! Tokens of a .usda text. Classes of characters are told byte by byte.

use crate::parser::binary;
use crate::parser::binary::lossy_string;
use vstd::prelude::*;

verus! {

/// A token.
#[derive(Debug)]
pub enum Tok {
    /// Includes dotted and namespaced names like `xformOp:translate`.
    Ident(String),
    Number(u64),
    Str(String),
    /// `@asset path@`
    Asset(String),
    /// `</prim/path>`
    Path(String),
    /// `( ) [ ] { } , = ;`
    Punct(char),
    Eof,
}

/// What a token is, with strings as sequences of characters.
pub enum TokView {
    Ident(Seq<char>),
    Number(u64),
    Str(Seq<char>),
    Asset(Seq<char>),
    Path(Seq<char>),
    Punct(char),
    Eof,
}

impl View for Tok {
    type V = TokView;

    open spec fn view(&self) -> TokView {
        match *self {
            Tok::Ident(s) => TokView::Ident(s@),
            Tok::Number(n) => TokView::Number(n),
            Tok::Str(s) => TokView::Str(s@),
            Tok::Asset(s) => TokView::Asset(s@),
            Tok::Path(s) => TokView::Path(s@),
            Tok::Punct(c) => TokView::Punct(c),
            Tok::Eof => TokView::Eof,
        }
    }
}

/// The number that std's `str::parse` reads from this text, by its bits.
pub uninterp spec fn double_parsed(t: Seq<char>) -> Option<u64>;

/// std's `str::parse` on `t`, as the type of number that
/// `nom::number::complete::be_f64` gives: the number by its bits, or `None` where
/// the text is none. The number itself is only named.
#[verifier::external_body]
fn parse_double(t: &str) -> (r: Option<u64>)
    ensures
        r == double_parsed(t@),
{
    let zero = nom::number::complete::be_f64::<&[u8], nom::error::Error<&[u8]>>(&[0u8; 8]);
    match (t.parse(), zero) {
        (Ok(v), Ok((_, z))) => Some([v, z][0].to_bits()),
        _ => None,
    }
}

/// White space among the first 256 characters.
pub open spec fn is_space(b: u8) -> bool {
    9 <= b <= 13 || b == 32 || b == 0x85 || b == 0xa0
}

pub open spec fn is_digit(b: u8) -> bool {
    '0' <= b as char <= '9'
}

/// Letters and numerals among the first 256 characters, and what else names may
/// hold.
pub open spec fn is_word(b: u8) -> bool {
    let c = b as char;
    ||| 'a' <= c <= 'z'
    ||| 'A' <= c <= 'Z'
    ||| is_digit(b)
    ||| c == '_' || c == ':' || c == '.'
    ||| b == 0xaa || b == 0xb2 || b == 0xb3 || b == 0xb5 || b == 0xb9 || b == 0xba
    ||| 0xbc <= b <= 0xbe
    ||| 0xc0 <= b && b != 0xd7 && b != 0xf7
}

/// What a number may hold after its first byte.
pub open spec fn is_number(b: u8) -> bool {
    let c = b as char;
    is_digit(b) || c == '.' || c == 'e' || c == 'E' || c == '-' || c == '+'
}

pub open spec fn starts_number(b: u8) -> bool {
    let c = b as char;
    is_digit(b) || c == '-' || c == '+' || c == '.'
}

pub open spec fn is_punct(b: u8) -> bool {
    let c = b as char;
    c == '(' || c == ')' || c == '[' || c == ']' || c == '{' || c == '}' || c == ',' || c == '='
        || c == ';'
}

/// The first position from `p` on that holds `b`, or the end.
pub open spec fn find_byte(src: Seq<u8>, p: int, b: u8) -> int
    decreases src.len() - p,
{
    if 0 <= p < src.len() && src[p] != b {
        find_byte(src, p + 1, b)
    } else {
        p
    }
}

/// The end of the name at `p`.
pub open spec fn word_end(src: Seq<u8>, p: int) -> int
    decreases src.len() - p,
{
    if 0 <= p < src.len() && is_word(src[p]) {
        word_end(src, p + 1)
    } else {
        p
    }
}

/// The end of the number whose first byte stands before `p`.
pub open spec fn number_end(src: Seq<u8>, p: int) -> int
    decreases src.len() - p,
{
    if 0 <= p < src.len() && is_number(src[p]) {
        number_end(src, p + 1)
    } else {
        p
    }
}

/// The quote that ends the string whose characters start at `p`, or the end; behind
/// the end where the text stops inside an escape.
pub open spec fn string_end(src: Seq<u8>, p: int) -> int
    decreases src.len() + 1 - p,
{
    if 0 <= p < src.len() && src[p] != '"' as u8 {
        if src[p] == '\\' as u8 {
            string_end(src, p + 2)
        } else {
            string_end(src, p + 1)
        }
    } else {
        p
    }
}

/// The first position from `p` on behind white space and comments.
pub open spec fn skip_space(src: Seq<u8>, p: int) -> int
    decreases src.len() - p,
{
    proof {
        find_byte_bounds(src, p + 1, '\n' as u8);
    }
    if 0 <= p < src.len() && is_space(src[p]) {
        skip_space(src, p + 1)
    } else if 0 <= p < src.len() && src[p] == '#' as u8 {
        skip_space(src, find_byte(src, p + 1, '\n' as u8))
    } else {
        p
    }
}

/// The bytes as characters, one for one.
pub open spec fn plain_text(bytes: Seq<u8>) -> Seq<char> {
    bytes.map_values(|b: u8| b as char)
}

/// Behind the byte that ends a token at `e`.
pub open spec fn behind(src: Seq<u8>, e: int) -> int {
    if e < src.len() {
        e + 1
    } else {
        e
    }
}

/// The token at `p` and where it ends; `None` where the text ends inside an escape
/// in a string. Bytes that start no token are passed over.
pub open spec fn token_at(src: Seq<u8>, p: int) -> Option<(TokView, int)>
    decreases src.len() - p,
{
    proof {
        skip_space_bounds(src, p);
    }
    let q = skip_space(src, p);
    if !(0 <= p <= q < src.len()) {
        Some((TokView::Eof, q))
    } else if is_punct(src[q]) {
        Some((TokView::Punct(src[q] as char), q + 1))
    } else if src[q] == '"' as u8 {
        let e = string_end(src, q + 1);
        if e > src.len() {
            None
        } else {
            Some((TokView::Str(binary::lossy_text(src.subrange(q + 1, e))), behind(src, e)))
        }
    } else if src[q] == '@' as u8 {
        let e = find_byte(src, q + 1, '@' as u8);
        Some((TokView::Asset(binary::lossy_text(src.subrange(q + 1, e))), behind(src, e)))
    } else if src[q] == '<' as u8 {
        let e = find_byte(src, q + 1, '>' as u8);
        Some((TokView::Path(binary::lossy_text(src.subrange(q + 1, e))), behind(src, e)))
    } else if starts_number(src[q]) {
        let e = number_end(src, q + 1);
        let n = match double_parsed(plain_text(src.subrange(q, e))) {
            Some(n) => n,
            None => 0,
        };
        Some((TokView::Number(n), e))
    } else {
        let e = word_end(src, q);
        if e == q {
            token_at(src, q + 1)
        } else {
            Some((TokView::Ident(binary::lossy_text(src.subrange(q, e))), e))
        }
    }
}

pub proof fn find_byte_bounds(src: Seq<u8>, p: int, b: u8)
    ensures
        p <= find_byte(src, p, b),
        p <= src.len() ==> find_byte(src, p, b) <= src.len(),
    decreases src.len() - p,
{
    if 0 <= p < src.len() && src[p] != b {
        find_byte_bounds(src, p + 1, b);
    }
}

pub proof fn skip_space_bounds(src: Seq<u8>, p: int)
    ensures
        p <= skip_space(src, p),
        0 <= p <= src.len() ==> skip_space(src, p) <= src.len(),
    decreases src.len() - p,
{
    if 0 <= p < src.len() {
        find_byte_bounds(src, p + 1, '\n' as u8);
        if is_space(src[p]) {
            skip_space_bounds(src, p + 1);
        } else if src[p] == '#' as u8 {
            skip_space_bounds(src, find_byte(src, p + 1, '\n' as u8));
        }
    }
}

proof fn word_end_bounds(src: Seq<u8>, p: int)
    requires
        0 <= p <= src.len(),
    ensures
        p <= word_end(src, p) <= src.len(),
    decreases src.len() - p,
{
    if p < src.len() && is_word(src[p]) {
        word_end_bounds(src, p + 1);
    }
}

proof fn number_end_bounds(src: Seq<u8>, p: int)
    requires
        0 <= p <= src.len(),
    ensures
        p <= number_end(src, p) <= src.len(),
    decreases src.len() - p,
{
    if p < src.len() && is_number(src[p]) {
        number_end_bounds(src, p + 1);
    }
}

proof fn string_end_bounds(src: Seq<u8>, p: int)
    requires
        0 <= p <= src.len() + 1,
    ensures
        p <= string_end(src, p) <= src.len() + 1,
    decreases src.len() + 1 - p,
{
    if p < src.len() && src[p] != '"' as u8 {
        if src[p] == '\\' as u8 {
            string_end_bounds(src, p + 2);
        } else {
            string_end_bounds(src, p + 1);
        }
    }
}

/// Every token but the end of the text takes up some of it.
pub proof fn token_advances(src: Seq<u8>, p: int)
    requires
        0 <= p <= src.len(),
    ensures
        token_at(src, p) matches Some((t, q)) ==> p <= q <= src.len() && (t is Eof || p < q),
    decreases src.len() - p,
{
    skip_space_bounds(src, p);
    let q = skip_space(src, p);
    if q < src.len() {
        string_end_bounds(src, q + 1);
        find_byte_bounds(src, q + 1, '@' as u8);
        find_byte_bounds(src, q + 1, '>' as u8);
        number_end_bounds(src, q + 1);
        word_end_bounds(src, q);
        token_advances(src, q + 1);
    }
}

fn seek_byte(src: &[u8], p: usize, b: u8) -> (r: usize)
    requires
        p <= src@.len(),
    ensures
        r == find_byte(src@, p as int, b),
        p <= r <= src@.len(),
{
    let n: usize = src.len();
    let mut q: usize = p;
    while q < n && src[q] != b
        invariant
            p <= q <= n == src@.len(),
            find_byte(src@, p as int, b) == find_byte(src@, q as int, b),
        decreases n - q,
    {
        q += 1;
    }
    q
}

fn seek_word_end(src: &[u8], p: usize) -> (r: usize)
    requires
        p <= src@.len(),
    ensures
        r == word_end(src@, p as int),
        p <= r <= src@.len(),
{
    let n: usize = src.len();
    let mut q: usize = p;
    while q < n && in_word(src[q])
        invariant
            p <= q <= n == src@.len(),
            word_end(src@, p as int) == word_end(src@, q as int),
        decreases n - q,
    {
        q += 1;
    }
    q
}

fn in_word(b: u8) -> (r: bool)
    ensures
        r == is_word(b),
{
    let c: char = b as char;
    ('a' <= c && c <= 'z') || ('A' <= c && c <= 'Z') || ('0' <= c && c <= '9') || c == '_' || c
        == ':' || c == '.' || b == 0xaa || b == 0xb2 || b == 0xb3 || b == 0xb5 || b == 0xb9 || b
        == 0xba || (0xbc <= b && b <= 0xbe) || (0xc0 <= b && b != 0xd7 && b != 0xf7)
}

fn in_number(b: u8) -> (r: bool)
    ensures
        r == is_number(b),
{
    let c: char = b as char;
    ('0' <= c && c <= '9') || c == '.' || c == 'e' || c == 'E' || c == '-' || c == '+'
}

fn seek_number_end(src: &[u8], p: usize) -> (r: usize)
    requires
        p <= src@.len(),
    ensures
        r == number_end(src@, p as int),
        p <= r <= src@.len(),
{
    let n: usize = src.len();
    let mut q: usize = p;
    while q < n && in_number(src[q])
        invariant
            p <= q <= n == src@.len(),
            number_end(src@, p as int) == number_end(src@, q as int),
        decreases n - q,
    {
        q += 1;
    }
    q
}

/// `None` where the text stops inside an escape.
fn seek_string_end(src: &[u8], p: usize) -> (r: Option<usize>)
    requires
        p <= src@.len(),
    ensures
        match r {
            Some(e) => e == string_end(src@, p as int) && p <= e <= src@.len(),
            None => string_end(src@, p as int) > src@.len(),
        },
{
    let n: usize = src.len();
    let mut q: usize = p;
    while q < n && src[q] != '"' as u8
        invariant
            p <= q <= n == src@.len(),
            string_end(src@, p as int) == string_end(src@, q as int),
        decreases n - q,
    {
        if src[q] == '\\' as u8 {
            if q + 1 >= n {
                assert(string_end(src@, q + 2) == q + 2);
                return None;
            }
            q += 2;
        } else {
            q += 1;
        }
    }
    Some(q)
}

fn seek_past_space(src: &[u8], p: usize) -> (r: usize)
    requires
        p <= src@.len(),
    ensures
        r == skip_space(src@, p as int),
        p <= r <= src@.len(),
{
    let n: usize = src.len();
    let mut q: usize = p;
    while q < n && (is_space_exec(src[q]) || src[q] == '#' as u8)
        invariant
            p <= q <= n == src@.len(),
            skip_space(src@, p as int) == skip_space(src@, q as int),
        decreases n - q,
    {
        if src[q] == '#' as u8 {
            q = seek_byte(src, q + 1, '\n' as u8);
        } else {
            q += 1;
        }
    }
    q
}

fn is_space_exec(b: u8) -> (r: bool)
    ensures
        r == is_space(b),
{
    (9 <= b && b <= 13) || b == 32 || b == 0x85 || b == 0xa0
}

fn part(src: &[u8], from: usize, to: usize) -> (s: String)
    requires
        from <= to <= src@.len(),
    ensures
        s@ == binary::lossy_text(src@.subrange(from as int, to as int)),
{
    lossy_string(vstd::slice::slice_subrange(src, from, to))
}

fn past(src: &[u8], e: usize) -> (r: usize)
    requires
        e <= src@.len(),
    ensures
        r == behind(src@, e as int),
{
    if e < src.len() {
        e + 1
    } else {
        e
    }
}

fn number_between(src: &[u8], from: usize, to: usize) -> (r: u64)
    requires
        from <= to <= src@.len(),
    ensures
        r == match double_parsed(plain_text(src@.subrange(from as int, to as int))) {
            Some(n) => n,
            None => 0,
        },
{
    let mut text: String = String::new();
    let mut i: usize = from;
    while i < to
        invariant
            from <= i <= to <= src@.len(),
            text@ == plain_text(src@.subrange(from as int, i as int)),
        decreases to - i,
    {
        text.push(src[i] as char);
        i += 1;
        assert(text@ =~= plain_text(src@.subrange(from as int, i as int)));
    }
    match parse_double(text.as_str()) {
        Some(n) => n,
        None => 0,
    }
}

/// The token at `p` and where it ends.
pub fn token(src: &[u8], p: usize) -> (r: Option<(Tok, usize)>)
    requires
        p <= src@.len(),
    ensures
        match r {
            Some((t, q)) => token_at(src@, p as int) == Some((t@, q as int)) && p <= q
                <= src@.len() && (t@ is Eof || p < q),
            None => token_at(src@, p as int) is None,
        },
    decreases src@.len() - p,
{
    proof {
        token_advances(src@, p as int);
    }
    let q: usize = seek_past_space(src, p);
    if q >= src.len() {
        return Some((Tok::Eof, q));
    }
    let b: u8 = src[q];
    if b == '(' as u8 || b == ')' as u8 || b == '[' as u8 || b == ']' as u8 || b == '{' as u8 || b == '}' as u8 || b == ',' as u8 || b
        == '=' as u8 || b == ';' as u8 {
        Some((Tok::Punct(b as char), q + 1))
    } else if b == '"' as u8 {
        match seek_string_end(src, q + 1) {
            Some(e) => Some((Tok::Str(part(src, q + 1, e)), past(src, e))),
            None => None,
        }
    } else if b == '@' as u8 {
        let e: usize = seek_byte(src, q + 1, '@' as u8);
        Some((Tok::Asset(part(src, q + 1, e)), past(src, e)))
    } else if b == '<' as u8 {
        let e: usize = seek_byte(src, q + 1, '>' as u8);
        Some((Tok::Path(part(src, q + 1, e)), past(src, e)))
    } else if (('0' as u8) <= b && b <= ('9' as u8)) || b == '-' as u8 || b == '+' as u8 || b == '.' as u8 {
        let e: usize = seek_number_end(src, q + 1);
        Some((Tok::Number(number_between(src, q, e)), e))
    } else {
        let e: usize = seek_word_end(src, q);
        if e == q {
            token(src, q + 1)
        } else {
            Some((Tok::Ident(part(src, q, e)), e))
        }
    }
}

} // verus!
