//! Total RIB tokenizer: parses any syntactically valid ASCII RIB stream into a
//! flat sequence of requests without knowing request semantics. Interpretation
//! lives in the scene builder.

use crate::double;
use crate::parser::ast::{RibFile, RibRequest, RibValue};
use crate::parser::ast;
use crate::text;
use vstd::prelude::*;
use vstd::string::*;

verus! {

/// What `nom::number::complete::double` reads at the start of this text: the bits
/// of the number and how many characters it takes up.
pub uninterp spec fn double_reading(t: Seq<char>) -> Option<(u64, nat)>;

/// Whether every integer up to that one is a double.
pub open spec fn is_exact(i: int) -> bool {
    -0x20_0000_0000_0000 <= i <= 0x20_0000_0000_0000
}

/// `nom::number::complete::double` on `t`: the number at the start of `t` by its
/// bits, and how many characters it takes up (at least one, all of them ASCII).
/// The decimal text of an integer that is a double reads to its end, as that integer. Any
/// other number is only named.
#[verifier::external_body]
fn read_double(t: &str) -> (r: Option<(u64, usize)>)
    ensures
        match r {
            Some((bits, n)) => double_reading(t@) == Some((bits, n as nat)) && 1 <= n <= t@.len()
                && forall|i: int|
                is_exact(i) && t@ == #[trigger] text::int_text(i) ==> n == t@.len()
                    && double::equals_integer(bits, i),
            None => double_reading(t@) is None && forall|i: int|
                is_exact(i) ==> t@ != #[trigger] text::int_text(i),
        },
{
    match nom::number::complete::double::<&str, nom::error::Error<&str>>(t) {
        Ok((rest, v)) => Some((v.to_bits(), t.len() - rest.len())),
        Err(_) => None,
    }
}

// ---- the grammar -----------------------------------------------------------

/// Blank characters between values.
pub open spec fn is_blank(c: char) -> bool {
    c == ' ' || c == '\t' || c == '\r' || c == '\n'
}

/// The first position from `p` on that holds `c`, or the end.
pub open spec fn find_char(s: Seq<char>, p: int, c: char) -> int
    decreases s.len() - p,
{
    if 0 <= p < s.len() && s[p] != c {
        find_char(s, p + 1, c)
    } else {
        p
    }
}

/// The search for a character ends at or after its start.
pub proof fn find_char_bounds(s: Seq<char>, p: int, c: char)
    requires
        0 <= p <= s.len(),
    ensures
        p <= find_char(s, p, c) <= s.len(),
        find_char(s, p, c) < s.len() ==> s[find_char(s, p, c)] == c,
    decreases s.len() - p,
{
    if p < s.len() && s[p] != c {
        find_char_bounds(s, p + 1, c);
    }
}

/// The first position from `p` on that is neither blank nor in a comment; a
/// comment runs from `#` to the end of its line.
pub open spec fn skip_ws(s: Seq<char>, p: int) -> int
    decreases s.len() - p,
{
    proof {
        if 0 <= p < s.len() {
            find_char_bounds(s, p + 1, '\n');
        }
    }
    if 0 <= p < s.len() && is_blank(s[p]) {
        skip_ws(s, p + 1)
    } else if 0 <= p < s.len() && s[p] == '#' {
        skip_ws(s, find_char(s, p + 1, '\n'))
    } else {
        p
    }
}

/// Skipping ends at or after its start.
pub proof fn skip_ws_bounds(s: Seq<char>, p: int)
    requires
        0 <= p <= s.len(),
    ensures
        p <= skip_ws(s, p) <= s.len(),
    decreases s.len() - p,
{
    if p < s.len() && is_blank(s[p]) {
        skip_ws_bounds(s, p + 1);
    } else if p < s.len() && s[p] == '#' {
        find_char_bounds(s, p + 1, '\n');
        skip_ws_bounds(s, find_char(s, p + 1, '\n'));
    }
}

pub open spec fn is_digit(c: char) -> bool {
    '0' <= c <= '9'
}

pub open spec fn is_alpha(c: char) -> bool {
    'a' <= c <= 'z' || 'A' <= c <= 'Z'
}

/// Characters that can be part of a number in text form.
pub open spec fn is_number_char(c: char) -> bool {
    is_digit(c) || is_alpha(c) || c == '+' || c == '-' || c == '.'
}

/// Where the run of characters that a number could take up ends: nothing from
/// there on can be part of a number that starts at `p`.
pub open spec fn run_end(s: Seq<char>, p: int) -> int
    decreases s.len() - p,
{
    if 0 <= p < s.len() && is_number_char(s[p]) {
        run_end(s, p + 1)
    } else {
        p
    }
}

/// A run ends at or after its start.
pub proof fn run_end_bounds(s: Seq<char>, p: int)
    requires
        0 <= p <= s.len(),
    ensures
        p <= run_end(s, p) <= s.len(),
    decreases s.len() - p,
{
    if p < s.len() && is_number_char(s[p]) {
        run_end_bounds(s, p + 1);
    }
}

/// The number at `p`, and the position after it.
pub open spec fn number_at(s: Seq<char>, p: int) -> Option<(u64, int)> {
    let run = s.subrange(p, run_end(s, p));
    match double_reading(run) {
        Some((bits, n)) => if 1 <= n <= run.len() {
            Some((bits, p + n))
        } else {
            None
        },
        None => None,
    }
}

/// The quoted string that starts at `p`, and the position after it.
pub open spec fn string_at(s: Seq<char>, p: int) -> Option<(Seq<char>, int)> {
    if 0 <= p < s.len() && s[p] == '"' {
        let q = find_char(s, p + 1, '"');
        if q < s.len() {
            Some((s.subrange(p + 1, q), q + 1))
        } else {
            None
        }
    } else {
        None
    }
}

/// Whether `s` holds `c` at `p`.
pub open spec fn holds_at(s: Seq<char>, p: int, c: char) -> bool {
    0 <= p < s.len() && s[p] == c
}

/// The strings up to the closing bracket, after those in `acc`.
pub open spec fn strings_at(s: Seq<char>, p: int, acc: Seq<Seq<char>>) -> Option<
    (Seq<Seq<char>>, int),
>
    decreases s.len() - p,
{
    proof {
        if 0 <= p <= s.len() {
            skip_ws_bounds(s, p);
            if skip_ws(s, p) < s.len() {
                find_char_bounds(s, skip_ws(s, p) + 1, '"');
            }
        }
    }
    if p < 0 || p > s.len() {
        None
    } else {
        let i = skip_ws(s, p);
        if holds_at(s, i, ']') {
            Some((acc, i + 1))
        } else {
            match string_at(s, i) {
                Some((t, next)) => strings_at(s, next, acc.push(t)),
                None => None,
            }
        }
    }
}

/// The numbers up to the closing bracket, after those in `acc`.
pub open spec fn numbers_at(s: Seq<char>, p: int, acc: Seq<u64>) -> Option<(Seq<u64>, int)>
    decreases s.len() - p,
{
    proof {
        if 0 <= p <= s.len() {
            skip_ws_bounds(s, p);
            run_end_bounds(s, skip_ws(s, p));
        }
    }
    if p < 0 || p > s.len() {
        None
    } else {
        let i = skip_ws(s, p);
        if holds_at(s, i, ']') {
            Some((acc, i + 1))
        } else {
            match number_at(s, i) {
                Some((n, next)) => numbers_at(s, next, acc.push(n)),
                None => None,
            }
        }
    }
}

/// The bracketed array that starts at `p`: homogeneous strings or numbers.
pub open spec fn array_at(s: Seq<char>, p: int) -> Option<(ast::ValueView, int)> {
    let i = skip_ws(s, p + 1);
    if holds_at(s, i, '"') {
        match strings_at(s, i, seq![]) {
            Some((v, next)) => Some((ast::ValueView::Texts(v), next)),
            None => None,
        }
    } else {
        match numbers_at(s, i, seq![]) {
            Some((v, next)) => Some((ast::ValueView::Numbers(v), next)),
            None => None,
        }
    }
}

/// The value that starts at `p`: string, array, or number. An identifier, which
/// starts the next request, is none, not even one that reads as a number.
pub open spec fn value_at(s: Seq<char>, p: int) -> Option<(ast::ValueView, int)> {
    if holds_at(s, p, '"') {
        match string_at(s, p) {
            Some((t, next)) => Some((ast::ValueView::Text(t), next)),
            None => None,
        }
    } else if holds_at(s, p, '[') {
        array_at(s, p)
    } else if 0 <= p < s.len() && (is_digit(s[p]) || s[p] == '-' || s[p] == '+' || s[p] == '.') {
        match number_at(s, p) {
            Some((n, next)) => Some((ast::ValueView::Number(n), next)),
            None => None,
        }
    } else {
        None
    }
}

proof fn strings_advance(s: Seq<char>, p: int, acc: Seq<Seq<char>>)
    requires
        0 <= p <= s.len(),
    ensures
        strings_at(s, p, acc) matches Some((_, next)) ==> p < next <= s.len(),
    decreases s.len() - p,
{
    skip_ws_bounds(s, p);
    let i = skip_ws(s, p);
    if !holds_at(s, i, ']') && string_at(s, i) is Some {
        find_char_bounds(s, i + 1, '"');
        let (t, next) = string_at(s, i)->Some_0;
        strings_advance(s, next, acc.push(t));
    }
}

proof fn numbers_advance(s: Seq<char>, p: int, acc: Seq<u64>)
    requires
        0 <= p <= s.len(),
    ensures
        numbers_at(s, p, acc) matches Some((_, next)) ==> p < next <= s.len(),
    decreases s.len() - p,
{
    skip_ws_bounds(s, p);
    let i = skip_ws(s, p);
    run_end_bounds(s, i);
    if !holds_at(s, i, ']') && number_at(s, i) is Some {
        let (n, next) = number_at(s, i)->Some_0;
        numbers_advance(s, next, acc.push(n));
    }
}

/// Every value takes up at least one character, all of them in the text.
pub proof fn value_advances(s: Seq<char>, p: int)
    requires
        0 <= p <= s.len(),
    ensures
        value_at(s, p) matches Some((_, next)) ==> p < next <= s.len(),
{
    if p < s.len() {
        find_char_bounds(s, p + 1, '"');
        run_end_bounds(s, p);
        skip_ws_bounds(s, p + 1);
        strings_advance(s, skip_ws(s, p + 1), seq![]);
        numbers_advance(s, skip_ws(s, p + 1), seq![]);
    }
}

/// The values from `p` on, after those in `acc`, and where the first thing that
/// is no value stands.
pub open spec fn values_at(s: Seq<char>, p: int, acc: Seq<ast::ValueView>) -> (
    Seq<ast::ValueView>,
    int,
)
    decreases s.len() - p,
{
    proof {
        if 0 <= p <= s.len() {
            skip_ws_bounds(s, p);
            value_advances(s, skip_ws(s, p));
        }
    }
    if p < 0 || p > s.len() {
        (acc, p)
    } else {
        let i = skip_ws(s, p);
        match value_at(s, i) {
            Some((v, next)) => values_at(s, next, acc.push(v)),
            None => (acc, i),
        }
    }
}

/// Where the identifier that starts at `p` ends.
pub open spec fn identifier_end(s: Seq<char>, p: int) -> int
    decreases s.len() - p,
{
    if 0 <= p < s.len() && (is_alpha(s[p]) || s[p] == '_') {
        identifier_end(s, p + 1)
    } else {
        p
    }
}

/// An identifier ends at or after its start.
pub proof fn identifier_end_bounds(s: Seq<char>, p: int)
    requires
        0 <= p <= s.len(),
    ensures
        p <= identifier_end(s, p) <= s.len(),
    decreases s.len() - p,
{
    if p < s.len() && (is_alpha(s[p]) || s[p] == '_') {
        identifier_end_bounds(s, p + 1);
    }
}

proof fn values_advance(s: Seq<char>, p: int, acc: Seq<ast::ValueView>)
    requires
        0 <= p <= s.len(),
    ensures
        p <= values_at(s, p, acc).1 <= s.len(),
    decreases s.len() - p,
{
    skip_ws_bounds(s, p);
    let i = skip_ws(s, p);
    value_advances(s, i);
    if value_at(s, i) is Some {
        let (v, next) = value_at(s, i)->Some_0;
        values_advance(s, next, acc.push(v));
    }
}

/// The request that starts at or after `p`, and the position after it.
pub open spec fn request_at(s: Seq<char>, p: int) -> Option<(ast::RequestView, int)> {
    let i = skip_ws(s, p);
    let j = identifier_end(s, i);
    if j == i {
        None
    } else {
        let (values, next) = values_at(s, j, seq![]);
        Some((ast::RequestView { name: s.subrange(i, j), values }, next))
    }
}

/// Every request takes up at least one character, all of them in the text.
pub proof fn request_advances(s: Seq<char>, p: int)
    requires
        0 <= p <= s.len(),
    ensures
        request_at(s, p) matches Some((_, next)) ==> p < next <= s.len(),
{
    skip_ws_bounds(s, p);
    identifier_end_bounds(s, skip_ws(s, p));
    values_advance(s, identifier_end(s, skip_ws(s, p)), seq![]);
}

/// The requests from `p` on, after those in `acc`, and where the first thing that
/// is no request stands.
pub open spec fn requests_at(s: Seq<char>, p: int, acc: Seq<ast::RequestView>) -> (
    Seq<ast::RequestView>,
    int,
)
    decreases s.len() - p,
{
    proof {
        if 0 <= p <= s.len() {
            request_advances(s, p);
        }
    }
    if p < 0 || p > s.len() {
        (acc, p)
    } else {
        match request_at(s, p) {
            Some((r, next)) => requests_at(s, next, acc.push(r)),
            None => (acc, skip_ws(s, p)),
        }
    }
}

/// `s` without the white space at its start.
pub open spec fn trim_start(s: Seq<char>) -> Seq<char>
    decreases s.len(),
{
    if s.len() > 0 && text::is_white(s[0]) {
        trim_start(s.drop_first())
    } else {
        s
    }
}

/// At most the first `n` characters of `s`.
pub open spec fn first_chars(s: Seq<char>, n: int) -> Seq<char> {
    if s.len() <= n {
        s
    } else {
        s.subrange(0, n)
    }
}

// ---- what is known of numbers that were read ---------------------------------

/// Whether a text that is the decimal text of an integer reads, to its end, as that integer.
pub open spec fn is_told(t: Seq<char>) -> bool {
    forall|i: int|
        is_exact(i) && t == #[trigger] text::int_text(i) ==> (double_reading(t) matches Some(
            (bits, n),
        ) && n == t.len() && double::equals_integer(bits, i))
}

/// Whether the number at `p` is told.
pub open spec fn number_told(s: Seq<char>, p: int) -> bool {
    is_told(s.subrange(p, run_end(s, p)))
}

/// Whether the numbers up to the closing bracket are.
pub open spec fn numbers_told(s: Seq<char>, p: int) -> bool
    decreases s.len() - p,
{
    proof {
        if 0 <= p <= s.len() {
            skip_ws_bounds(s, p);
            run_end_bounds(s, skip_ws(s, p));
        }
    }
    if p < 0 || p > s.len() {
        true
    } else {
        let i = skip_ws(s, p);
        holds_at(s, i, ']') || (number_told(s, i) && match number_at(s, i) {
            Some((_, next)) => numbers_told(s, next),
            None => true,
        })
    }
}

/// Whether the numbers of the value at `p` are.
pub open spec fn value_told(s: Seq<char>, p: int) -> bool {
    if holds_at(s, p, '"') {
        true
    } else if holds_at(s, p, '[') {
        let i = skip_ws(s, p + 1);
        holds_at(s, i, '"') || numbers_told(s, i)
    } else if 0 <= p < s.len() && (is_digit(s[p]) || s[p] == '-' || s[p] == '+' || s[p] == '.') {
        number_told(s, p)
    } else {
        true
    }
}

/// Whether the numbers of the values from `p` on are.
pub open spec fn values_told(s: Seq<char>, p: int) -> bool
    decreases s.len() - p,
{
    proof {
        if 0 <= p <= s.len() {
            skip_ws_bounds(s, p);
            value_advances(s, skip_ws(s, p));
        }
    }
    if p < 0 || p > s.len() {
        true
    } else {
        let i = skip_ws(s, p);
        value_told(s, i) && match value_at(s, i) {
            Some((_, next)) => values_told(s, next),
            None => true,
        }
    }
}

/// Whether the numbers of the requests from `p` on are.
pub open spec fn requests_told(s: Seq<char>, p: int) -> bool
    decreases s.len() - p,
{
    proof {
        if 0 <= p <= s.len() {
            request_advances(s, p);
        }
    }
    if p < 0 || p > s.len() {
        true
    } else {
        match request_at(s, p) {
            Some((_, next)) => values_told(s, identifier_end(s, skip_ws(s, p))) && requests_told(
                s,
                next,
            ),
            None => true,
        }
    }
}

/// The requests in a text, or, where something in it is neither a request nor
/// white space, up to 60 characters from there on.
pub open spec fn parsed(s: Seq<char>) -> Result<Seq<ast::RequestView>, Seq<char>> {
    let (requests, end) = requests_at(s, 0, seq![]);
    let rest = ast::trim_end(trim_start(s.subrange(end, s.len() as int)));
    if rest.len() == 0 {
        Ok(requests)
    } else {
        Err(first_chars(rest, 60))
    }
}

// ---- the parser ------------------------------------------------------------

fn find_char_exec(s: &Vec<char>, p: usize, c: char) -> (r: usize)
    requires
        p <= s@.len(),
    ensures
        r == find_char(s@, p as int, c),
        p <= r <= s@.len(),
{
    let mut i: usize = p;
    while i < s.len() && s[i] != c
        invariant
            p <= i <= s@.len(),
            find_char(s@, p as int, c) == find_char(s@, i as int, c),
        decreases s@.len() - i,
    {
        i += 1;
    }
    i
}

fn skip_ws_exec(s: &Vec<char>, p: usize) -> (r: usize)
    requires
        p <= s@.len(),
    ensures
        r == skip_ws(s@, p as int),
        p <= r <= s@.len(),
{
    let mut i: usize = p;
    while i < s.len()
        invariant
            p <= i <= s@.len(),
            skip_ws(s@, p as int) == skip_ws(s@, i as int),
        ensures
            i == skip_ws(s@, p as int),
            p <= i <= s@.len(),
        decreases s@.len() - i,
    {
        let c: char = s[i];
        if c == ' ' || c == '\t' || c == '\r' || c == '\n' {
            i += 1;
        } else if c == '#' {
            i = find_char_exec(s, i + 1, '\n');
        } else {
            break;
        }
    }
    i
}

fn alpha(c: char) -> (r: bool)
    ensures
        r == is_alpha(c),
{
    ('a' <= c && c <= 'z') || ('A' <= c && c <= 'Z')
}

fn digit(c: char) -> (r: bool)
    ensures
        r == is_digit(c),
{
    '0' <= c && c <= '9'
}

fn read_number(s: &Vec<char>, p: usize) -> (r: Option<(u64, usize)>)
    requires
        p <= s@.len(),
    ensures
        match r {
            Some((n, next)) => number_at(s@, p as int) == Some((n, next as int)) && p < next
                <= s@.len(),
            None => number_at(s@, p as int) is None,
        },
        number_told(s@, p as int),
{
    let mut end: usize = p;
    while end < s.len() && (digit(s[end]) || alpha(s[end]) || s[end] == '+' || s[end] == '-' || s[end]
        == '.')
        invariant
            p <= end <= s@.len(),
            run_end(s@, p as int) == run_end(s@, end as int),
        decreases s@.len() - end,
    {
        end += 1;
    }
    let run: String = text::string_of(s, p, end);
    match read_double(run.as_str()) {
        Some((bits, n)) => Some((bits, p + n)),
        None => None,
    }
}

fn read_quoted(s: &Vec<char>, p: usize) -> (r: Option<(String, usize)>)
    requires
        p <= s@.len(),
    ensures
        match r {
            Some((t, next)) => string_at(s@, p as int) == Some((t@, next as int)) && p < next
                <= s@.len(),
            None => string_at(s@, p as int) is None,
        },
{
    if p < s.len() && s[p] == '"' {
        let q: usize = find_char_exec(s, p + 1, '"');
        if q < s.len() {
            return Some((text::string_of(s, p + 1, q), q + 1));
        }
    }
    None
}

fn read_strings(s: &Vec<char>, p: usize) -> (r: Option<(Vec<String>, usize)>)
    requires
        p <= s@.len(),
    ensures
        match r {
            Some((v, next)) => strings_at(s@, p as int, seq![]) == Some(
                (ast::string_views(v@), next as int),
            ) && p < next <= s@.len(),
            None => strings_at(s@, p as int, seq![]) is None,
        },
{
    let mut out: Vec<String> = Vec::new();
    let mut i: usize = p;
    assert(ast::string_views(out@) =~= seq![]);
    loop
        invariant
            p <= i <= s@.len(),
            strings_at(s@, p as int, seq![]) == strings_at(
                s@,
                i as int,
                ast::string_views(out@),
            ),
        decreases s@.len() - i,
    {
        let j: usize = skip_ws_exec(s, i);
        if j < s.len() && s[j] == ']' {
            return Some((out, j + 1));
        }
        match read_quoted(s, j) {
            Some((t, next)) => {
                let ghost before = ast::string_views(out@);
                let ghost tv = t@;
                out.push(t);
                assert(ast::string_views(out@) =~= before.push(tv));
                i = next;
            },
            None => {
                return None;
            },
        }
    }
}

fn read_numbers(s: &Vec<char>, p: usize) -> (r: Option<(Vec<u64>, usize)>)
    requires
        p <= s@.len(),
    ensures
        match r {
            Some((v, next)) => numbers_at(s@, p as int, seq![]) == Some((v@, next as int)) && p < next
                <= s@.len(),
            None => numbers_at(s@, p as int, seq![]) is None,
        },
        numbers_told(s@, p as int),
{
    let mut out: Vec<u64> = Vec::new();
    let mut i: usize = p;
    assert(out@ =~= seq![]);
    loop
        invariant
            p <= i <= s@.len(),
            numbers_at(s@, p as int, seq![]) == numbers_at(s@, i as int, out@),
            numbers_told(s@, i as int) ==> numbers_told(s@, p as int),
        decreases s@.len() - i,
    {
        let j: usize = skip_ws_exec(s, i);
        if j < s.len() && s[j] == ']' {
            return Some((out, j + 1));
        }
        match read_number(s, j) {
            Some((n, next)) => {
                out.push(n);
                i = next;
            },
            None => {
                return None;
            },
        }
    }
}

fn read_value(s: &Vec<char>, p: usize) -> (r: Option<(RibValue, usize)>)
    requires
        p <= s@.len(),
    ensures
        match r {
            Some((v, next)) => value_at(s@, p as int) == Some((v@, next as int)) && p < next
                <= s@.len(),
            None => value_at(s@, p as int) is None,
        },
        value_told(s@, p as int),
{
    if p >= s.len() {
        return None;
    }
    let c: char = s[p];
    if c == '"' {
        match read_quoted(s, p) {
            Some((t, next)) => Some((RibValue::String(t), next)),
            None => None,
        }
    } else if c == '[' {
        let i: usize = skip_ws_exec(s, p + 1);
        if i < s.len() && s[i] == '"' {
            match read_strings(s, i) {
                Some((v, next)) => Some((RibValue::Strings(v), next)),
                None => None,
            }
        } else {
            match read_numbers(s, i) {
                Some((v, next)) => Some((RibValue::Numbers(v), next)),
                None => None,
            }
        }
    } else if digit(c) || c == '-' || c == '+' || c == '.' {
        match read_number(s, p) {
            Some((n, next)) => Some((RibValue::Number(n), next)),
            None => None,
        }
    } else {
        None
    }
}

fn read_request(s: &Vec<char>, p: usize) -> (r: Option<(RibRequest, usize)>)
    requires
        p <= s@.len(),
    ensures
        match r {
            Some((v, next)) => request_at(s@, p as int) == Some((v@, next as int)) && p < next
                <= s@.len(),
            None => request_at(s@, p as int) is None,
        },
        r is Some ==> values_told(s@, identifier_end(s@, skip_ws(s@, p as int))),
{
    let i: usize = skip_ws_exec(s, p);
    let mut j: usize = i;
    while j < s.len() && (alpha(s[j]) || s[j] == '_')
        invariant
            i <= j <= s@.len(),
            identifier_end(s@, i as int) == identifier_end(s@, j as int),
        decreases s@.len() - j,
    {
        j += 1;
    }
    if j == i {
        return None;
    }
    let name: String = text::string_of(s, i, j);
    let mut values: Vec<RibValue> = Vec::new();
    let mut k: usize = j;
    assert(ast::value_views(values@) =~= seq![]);
    loop
        invariant
            p <= i < j <= k <= s@.len(),
            i == skip_ws(s@, p as int),
            j == identifier_end(s@, i as int),
            name@ == s@.subrange(i as int, j as int),
            values_at(s@, j as int, seq![]) == values_at(
                s@,
                k as int,
                ast::value_views(values@),
            ),
            values_told(s@, k as int) ==> values_told(s@, j as int),
        decreases s@.len() - k,
    {
        let q: usize = skip_ws_exec(s, k);
        match read_value(s, q) {
            Some((v, next)) => {
                let ghost before = ast::value_views(values@);
                let ghost vv = v@;
                values.push(v);
                assert(ast::value_views(values@) =~= before.push(vv));
                k = next;
            },
            None => {
                return Some((RibRequest { name, values }, q));
            },
        }
    }
}

/// A text that is no RIB stream: what stands where a request should.
#[derive(Debug, Clone, PartialEq)]
pub struct SyntaxError {
    /// The first characters (at most 60) of what could not be read.
    pub near: String,
}

fn trim_from(s: &Vec<char>, p: usize) -> (r: (usize, usize))
    requires
        p <= s@.len(),
    ensures
        p <= r.0 <= r.1 <= s@.len(),
        s@.subrange(r.0 as int, r.1 as int) == ast::trim_end(
            trim_start(s@.subrange(p as int, s@.len() as int)),
        ),
{
    let n: usize = s.len();
    let mut i: usize = p;
    while i < n && text::white(s[i])
        invariant
            p <= i <= n,
            n == s@.len(),
            trim_start(s@.subrange(p as int, n as int)) == trim_start(s@.subrange(i as int, n as int)),
        decreases n - i,
    {
        assert(s@.subrange(i as int, n as int).drop_first() =~= s@.subrange(i + 1, n as int));
        i += 1;
    }
    assert(trim_start(s@.subrange(i as int, n as int)) == s@.subrange(i as int, n as int)) by {
        if i < n {
            assert(s@.subrange(i as int, n as int)[0] == s@[i as int]);
        }
    }
    let mut j: usize = n;
    while j > i && text::white(s[j - 1])
        invariant
            i <= j <= n,
            n == s@.len(),
            ast::trim_end(s@.subrange(i as int, n as int)) == ast::trim_end(
                s@.subrange(i as int, j as int),
            ),
        decreases j,
    {
        assert(s@.subrange(i as int, j as int).drop_last() =~= s@.subrange(i as int, j - 1));
        assert(s@.subrange(i as int, j as int).last() == s@[j - 1]);
        j -= 1;
    }
    assert(ast::trim_end(s@.subrange(i as int, j as int)) == s@.subrange(i as int, j as int)) by {
        if j > i {
            assert(s@.subrange(i as int, j as int).last() == s@[j - 1]);
        }
    }
    (i, j)
}

/// The requests in a RIB text. Integers in it read as what they are.
pub fn parse_rib(input: &str) -> (r: Result<RibFile, SyntaxError>)
    ensures
        match r {
            Ok(file) => parsed(input@) == Ok::<Seq<ast::RequestView>, Seq<char>>(
                ast::request_views(file@),
            ),
            Err(e) => parsed(input@) == Err::<Seq<ast::RequestView>, Seq<char>>(e.near@),
        },
        requests_told(input@, 0),
{
    let s: Vec<char> = text::chars_of(input);
    let mut file: Vec<RibRequest> = Vec::new();
    let mut p: usize = 0;
    assert(ast::request_views(file@) =~= seq![]);
    loop
        invariant
            p <= s@.len(),
            requests_at(s@, 0, seq![]) == requests_at(
                s@,
                p as int,
                ast::request_views(file@),
            ),
            requests_told(s@, p as int) ==> requests_told(s@, 0),
        ensures
            request_at(s@, p as int) is None,
        decreases s@.len() - p,
    {
        match read_request(&s, p) {
            Some((request, next)) => {
                let ghost before = ast::request_views(file@);
                let ghost rv = request@;
                file.push(request);
                assert(ast::request_views(file@) =~= before.push(rv));
                p = next;
            },
            None => {
                break;
            },
        }
    }
    let end: usize = skip_ws_exec(&s, p);
    let (i, j) = trim_from(&s, end);
    if i < j {
        let stop: usize = if j - i > 60 { i + 60 } else { j };
        assert(s@.subrange(i as int, j as int).subrange(0, stop - i) =~= s@.subrange(i as int, stop as int));
        return Err(SyntaxError { near: text::string_of(&s, i, stop) });
    }
    Ok(file)
}

} // verus!
