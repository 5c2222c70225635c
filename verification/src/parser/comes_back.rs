//! What comes back of what was written or encoded: requests as they were from a text, and from
//! binary RIB with each number close to what it was.

use crate::double;
use crate::near;
use crate::parser::ast;
use crate::parser::binary;
use crate::parser::parser;
use crate::parser::round_trip;
use vstd::prelude::*;

verus! {

// ---- what comes back -------------------------------------------------------

/// Whether a finite number is written so that it reads back as itself.
pub open spec fn number_returns(n: u64) -> bool {
    double::is_finite(n) ==> round_trip::is_readable(binary::double_text(n)) && round_trip::reading(binary::double_text(n))
        == n
}

/// Whether the finite numbers of a value are.
pub open spec fn value_returns(v: ast::ValueView) -> bool {
    match v {
        ast::ValueView::Number(n) => number_returns(n),
        ast::ValueView::Numbers(v) => forall|i: int|
            0 <= i < v.len() ==> number_returns(#[trigger] v[i]),
        _ => true,
    }
}

/// Whether a value can be written and read back: its numbers are finite, its strings are written
/// as they are, and there is a string in an array of strings.
pub open spec fn is_writable(v: ast::ValueView) -> bool {
    match v {
        ast::ValueView::Number(n) => double::is_finite(n),
        ast::ValueView::Numbers(v) => forall|i: int|
            0 <= i < v.len() ==> double::is_finite(#[trigger] v[i]),
        ast::ValueView::Text(s) => round_trip::is_plain(s),
        ast::ValueView::Texts(v) => v.len() > 0 && forall|i: int|
            0 <= i < v.len() ==> round_trip::is_plain(#[trigger] v[i]),
    }
}

/// Whether a request can be written and read back.
pub open spec fn is_writable_request(r: ast::RequestView) -> bool {
    &&& round_trip::is_identifier(r.name)
    &&& forall|j: int| 0 <= j < r.values.len() ==> is_writable(#[trigger] r.values[j])
}

/// Whether all requests can.
pub open spec fn are_writable(rs: Seq<ast::RequestView>) -> bool {
    forall|i: int| 0 <= i < rs.len() ==> is_writable_request(#[trigger] rs[i])
}

proof fn value_comes_back(v: ast::ValueView)
    requires
        is_writable(v),
        value_returns(v),
    ensures
        round_trip::is_legible(false, v),
        round_trip::reread(false, v) == v,
{
    match v {
        ast::ValueView::Numbers(w) => {
            assert forall|i: int| 0 <= i < w.len() implies round_trip::is_readable(
                round_trip::number_text(false, #[trigger] w[i]),
            ) && round_trip::reading(round_trip::number_text(false, w[i])) == w[i] by {
                assert(number_returns(w[i]));
            }
            assert(round_trip::readings(round_trip::number_texts(false, w)) =~= w);
        },
        _ => {},
    }
}

/// Requests that can be written, and whose numbers read back, are parsed as they were.
pub proof fn writing_comes_back(rs: Seq<ast::RequestView>)
    requires
        are_writable(rs),
        forall|i: int, j: int|
            0 <= i < rs.len() && 0 <= j < rs[i].values.len() ==> value_returns(
                #[trigger] rs[i].values[j],
            ),
    ensures
        parser::parsed(binary::requests_text(rs)) == Ok::<Seq<ast::RequestView>, Seq<char>>(rs),
{
    assert forall|i: int| 0 <= i < rs.len() implies round_trip::is_legible_request(false, #[trigger] rs[i])
        && round_trip::reread_request(false, rs[i]) == rs[i] by {
        assert(is_writable_request(rs[i]));
        assert forall|j: int| 0 <= j < rs[i].values.len() implies round_trip::is_legible(
            false,
            #[trigger] rs[i].values[j],
        ) && round_trip::reread(false, rs[i].values[j]) == rs[i].values[j] by {
            value_comes_back(rs[i].values[j]);
        }
        assert(round_trip::reread_values(false, rs[i].values) =~= rs[i].values);
    }
    round_trip::parsing_undoes_writing(rs);
    assert(round_trip::reread_all(false, rs) =~= rs);
}

/// Whether a number is what comes back of another: a small integer as itself, any other number
/// closely.
pub open spec fn is_back(a: u64, n: u64) -> bool {
    near::is_close(a, n) && (double::small_integer(n) matches Some(i) ==> double::equals_integer(
        a,
        i,
    ))
}

/// Whether a number is written as binary RIB, decoded and read so that it comes back closely,
/// where its nearest single is finite.
pub open spec fn number_is_carried(n: u64) -> bool {
    near::fits_single(n) ==> round_trip::is_readable(round_trip::number_canon(n)) && is_back(
        round_trip::reading(round_trip::number_canon(n)),
        n,
    )
}

/// Whether the numbers of a value are.
pub open spec fn value_is_carried(v: ast::ValueView) -> bool {
    match v {
        ast::ValueView::Number(n) => number_is_carried(n),
        ast::ValueView::Numbers(v) => forall|i: int|
            0 <= i < v.len() ==> number_is_carried(#[trigger] v[i]),
        _ => true,
    }
}

/// Whether a value can be encoded and read back: its numbers have finite singles, its strings are
/// short and written as they are, and there is a string in an array of strings.
pub open spec fn is_carriable(v: ast::ValueView) -> bool {
    match v {
        ast::ValueView::Number(n) => near::fits_single(n),
        ast::ValueView::Numbers(v) => forall|i: int|
            0 <= i < v.len() ==> near::fits_single(#[trigger] v[i]),
        ast::ValueView::Text(s) => round_trip::is_plain(s) && round_trip::is_short(s),
        ast::ValueView::Texts(v) => v.len() > 0 && forall|i: int|
            0 <= i < v.len() ==> round_trip::is_plain(#[trigger] v[i]) && round_trip::is_short(v[i]),
    }
}

/// Whether a request can be encoded and read back.
pub open spec fn is_carriable_request(r: ast::RequestView) -> bool {
    &&& round_trip::is_identifier(r.name) && round_trip::is_short(r.name)
    &&& forall|j: int| 0 <= j < r.values.len() ==> is_carriable(#[trigger] r.values[j])
}

/// Whether all requests can.
pub open spec fn are_carriable(rs: Seq<ast::RequestView>) -> bool {
    forall|i: int| 0 <= i < rs.len() ==> is_carriable_request(#[trigger] rs[i])
}

/// Whether two values are of one kind, with the same strings, or as many numbers, each close to
/// its counterpart.
pub open spec fn is_close_value(a: ast::ValueView, b: ast::ValueView) -> bool {
    match (a, b) {
        (ast::ValueView::Number(m), ast::ValueView::Number(n)) => is_back(m, n),
        (ast::ValueView::Numbers(v), ast::ValueView::Numbers(w)) => v.len() == w.len() && forall|
            i: int,
        |
            0 <= i < v.len() ==> is_back(#[trigger] v[i], w[i]),
        (ast::ValueView::Text(s), ast::ValueView::Text(t)) => s == t,
        (ast::ValueView::Texts(v), ast::ValueView::Texts(w)) => v == w,
        _ => false,
    }
}

/// Whether two requests have one name and close values.
pub open spec fn is_close_request(a: ast::RequestView, b: ast::RequestView) -> bool {
    &&& a.name == b.name
    &&& a.values.len() == b.values.len()
    &&& forall|j: int|
        0 <= j < a.values.len() ==> is_close_value(#[trigger] a.values[j], b.values[j])
}

/// Whether requests are close to others, one by one.
pub open spec fn are_close(a: Seq<ast::RequestView>, b: Seq<ast::RequestView>) -> bool {
    &&& a.len() == b.len()
    &&& forall|i: int| 0 <= i < a.len() ==> is_close_request(#[trigger] a[i], b[i])
}

proof fn carried_value_is_close(v: ast::ValueView)
    requires
        is_carriable(v),
        value_is_carried(v),
    ensures
        round_trip::is_legible(true, v),
        round_trip::has_short_strings(v),
        is_close_value(round_trip::reread(true, v), v),
{
    match v {
        ast::ValueView::Numbers(w) => {
            let r = round_trip::readings(round_trip::number_texts(true, w));
            assert forall|i: int| 0 <= i < w.len() implies round_trip::is_readable(
                round_trip::number_text(true, #[trigger] w[i]),
            ) && is_back(r[i], w[i]) by {
                assert(number_is_carried(w[i]));
            }
            assert forall|i: int| 0 <= i < r.len() implies is_back(#[trigger] r[i], w[i]) by {
                assert(round_trip::is_readable(round_trip::number_text(true, w[i])));
            }
        },
        _ => {},
    }
}

/// Requests that can be encoded, and whose numbers are carried, come back from binary RIB
/// closely: the same names and strings, and each number within a millionth.
pub proof fn encoding_comes_back(rs: Seq<ast::RequestView>)
    requires
        are_carriable(rs),
        forall|i: int, j: int|
            0 <= i < rs.len() && 0 <= j < rs[i].values.len() ==> value_is_carried(
                #[trigger] rs[i].values[j],
            ),
    ensures
        crate::parser::parsed_bytes(binary::encoded(rs)) matches Ok(q) && are_close(q, rs),
{
    assert forall|i: int| 0 <= i < rs.len() implies round_trip::is_legible_request(true, #[trigger] rs[i])
        && is_close_request(round_trip::reread_request(true, rs[i]), rs[i]) && round_trip::is_short(rs[i].name) && forall|
        j: int,
    |
        0 <= j < rs[i].values.len() ==> round_trip::has_short_strings(#[trigger] rs[i].values[j]) by {
        assert(is_carriable_request(rs[i]));
        let back = round_trip::reread_values(true, rs[i].values);
        assert forall|j: int| 0 <= j < rs[i].values.len() implies round_trip::is_legible(
            true,
            #[trigger] rs[i].values[j],
        ) && round_trip::has_short_strings(rs[i].values[j]) && is_close_value(back[j], rs[i].values[j]) by {
            carried_value_is_close(rs[i].values[j]);
        }
        assert forall|j: int| 0 <= j < back.len() implies is_close_value(
            #[trigger] back[j],
            rs[i].values[j],
        ) by {
            assert(round_trip::is_legible(true, rs[i].values[j]));
        }
    }
    round_trip::parsing_undoes_encoding(rs);
    let q = round_trip::reread_all(true, rs);
    assert forall|i: int| 0 <= i < q.len() implies is_close_request(#[trigger] q[i], rs[i]) by {
        assert(round_trip::is_legible_request(true, rs[i]));
    }
}

// ---- what is parsed --------------------------------------------------------

/// Whether no character of a string is a quote.
pub open spec fn is_quotable(s: Seq<char>) -> bool {
    forall|i: int| 0 <= i < s.len() ==> (#[trigger] s[i]) != '"'
}

/// Whether a value is one that a text can hold.
pub open spec fn is_regular(v: ast::ValueView) -> bool {
    match v {
        ast::ValueView::Text(s) => is_quotable(s),
        ast::ValueView::Texts(v) => v.len() > 0 && forall|i: int|
            0 <= i < v.len() ==> is_quotable(#[trigger] v[i]),
        _ => true,
    }
}

/// Whether all values are.
pub open spec fn all_regular(v: Seq<ast::ValueView>) -> bool {
    forall|j: int| 0 <= j < v.len() ==> is_regular(#[trigger] v[j])
}

/// Whether a request is one that a text can hold.
pub open spec fn is_regular_request(r: ast::RequestView) -> bool {
    round_trip::is_identifier(r.name) && all_regular(r.values)
}

/// Whether all requests are.
pub open spec fn are_regular(rs: Seq<ast::RequestView>) -> bool {
    forall|i: int| 0 <= i < rs.len() ==> is_regular_request(#[trigger] rs[i])
}

proof fn none_before(s: Seq<char>, p: int, c: char)
    requires
        0 <= p <= s.len(),
    ensures
        forall|k: int| p <= k < parser::find_char(s, p, c) ==> (#[trigger] s[k]) != c,
        p <= parser::find_char(s, p, c) <= s.len(),
    decreases s.len() - p,
{
    if p < s.len() && s[p] != c {
        none_before(s, p + 1, c);
    }
}

proof fn strings_are_quotable(s: Seq<char>, p: int, acc: Seq<Seq<char>>)
    requires
        0 <= p <= s.len(),
        forall|i: int| 0 <= i < acc.len() ==> is_quotable(#[trigger] acc[i]),
    ensures
        parser::strings_at(s, p, acc) matches Some((v, _)) ==> v.len() >= acc.len() && (
        forall|i: int| 0 <= i < v.len() ==> is_quotable(#[trigger] v[i])) && (
        parser::holds_at(s, parser::skip_ws(s, p), '"') ==> v.len() > acc.len()),
    decreases s.len() - p,
{
    parser::skip_ws_bounds(s, p);
    let i = parser::skip_ws(s, p);
    if !parser::holds_at(s, i, ']') {
        if let Some((t, next)) = parser::string_at(s, i) {
            none_before(s, i + 1, '"');
            assert(is_quotable(t));
            strings_are_quotable(s, next, acc.push(t));
        }
    }
}

proof fn value_is_regular(s: Seq<char>, p: int)
    requires
        0 <= p <= s.len(),
    ensures
        parser::value_at(s, p) matches Some((v, _)) ==> is_regular(v),
{
    if parser::holds_at(s, p, '"') {
        none_before(s, p + 1, '"');
        if let Some((t, _)) = parser::string_at(s, p) {
            assert(is_quotable(t));
        }
    } else if parser::holds_at(s, p, '[') {
        parser::skip_ws_bounds(s, p + 1);
        let i = parser::skip_ws(s, p + 1);
        if parser::holds_at(s, i, '"') {
            assert(parser::skip_ws(s, i) == i);
            strings_are_quotable(s, i, seq![]);
        }
    }
}

proof fn values_are_regular(s: Seq<char>, p: int, acc: Seq<ast::ValueView>)
    requires
        0 <= p <= s.len(),
        all_regular(acc),
    ensures
        all_regular(parser::values_at(s, p, acc).0),
    decreases s.len() - p,
{
    parser::skip_ws_bounds(s, p);
    let i = parser::skip_ws(s, p);
    parser::value_advances(s, i);
    if let Some((v, next)) = parser::value_at(s, i) {
        value_is_regular(s, i);
        values_are_regular(s, next, acc.push(v));
    }
}

proof fn identifiers_are_plain(s: Seq<char>, p: int)
    requires
        0 <= p <= s.len(),
    ensures
        p <= parser::identifier_end(s, p) <= s.len(),
        forall|k: int|
            p <= k < parser::identifier_end(s, p) ==> parser::is_alpha(#[trigger] s[k]) || s[k]
                == '_',
    decreases s.len() - p,
{
    if p < s.len() && (parser::is_alpha(s[p]) || s[p] == '_') {
        identifiers_are_plain(s, p + 1);
    }
}

proof fn requests_are_regular(s: Seq<char>, p: int, acc: Seq<ast::RequestView>)
    requires
        0 <= p <= s.len(),
        are_regular(acc),
    ensures
        are_regular(parser::requests_at(s, p, acc).0),
    decreases s.len() - p,
{
    parser::request_advances(s, p);
    if let Some((r, next)) = parser::request_at(s, p) {
        parser::skip_ws_bounds(s, p);
        let i = parser::skip_ws(s, p);
        let j = parser::identifier_end(s, i);
        identifiers_are_plain(s, i);
        assert forall|k: int| 0 <= k < r.name.len() implies parser::is_alpha(#[trigger] r.name[k])
            || r.name[k] == '_' by {
            assert(r.name[k] == s[i + k]);
        }
        values_are_regular(s, j, seq![]);
        requests_are_regular(s, next, acc.push(r));
    }
}

/// What is parsed from a text has identifiers for names, no quote in a string, and no empty array
/// of strings.
pub proof fn parsed_is_regular(s: Seq<char>)
    ensures
        parser::parsed(s) matches Ok(rs) ==> are_regular(rs),
{
    requests_are_regular(s, 0, seq![]);
}

/// Whether the numbers of a value are finite and its strings hold no backslash and no newline.
pub open spec fn is_tame(v: ast::ValueView) -> bool {
    match v {
        ast::ValueView::Number(n) => double::is_finite(n),
        ast::ValueView::Numbers(v) => forall|i: int|
            0 <= i < v.len() ==> double::is_finite(#[trigger] v[i]),
        ast::ValueView::Text(s) => is_unescaped(s),
        ast::ValueView::Texts(v) => forall|i: int|
            0 <= i < v.len() ==> is_unescaped(#[trigger] v[i]),
    }
}

/// Whether no character of a string is a backslash or a newline.
pub open spec fn is_unescaped(s: Seq<char>) -> bool {
    forall|i: int| 0 <= i < s.len() ==> (#[trigger] s[i]) != '\\' && s[i] != '\n'
}

/// What is parsed from a text can be written, where its numbers are finite and no string holds a
/// backslash or a newline.
pub proof fn parsed_is_writable(s: Seq<char>, rs: Seq<ast::RequestView>)
    requires
        parser::parsed(s) == Ok::<Seq<ast::RequestView>, Seq<char>>(rs),
        forall|i: int, j: int|
            0 <= i < rs.len() && 0 <= j < rs[i].values.len() ==> is_tame(
                #[trigger] rs[i].values[j],
            ),
    ensures
        are_writable(rs),
{
    parsed_is_regular(s);
    assert forall|i: int| 0 <= i < rs.len() implies is_writable_request(#[trigger] rs[i]) by {
        assert(is_regular_request(rs[i]));
        assert forall|j: int| 0 <= j < rs[i].values.len() implies is_writable(
            #[trigger] rs[i].values[j],
        ) by {
            let v = rs[i].values[j];
            assert(is_regular(v));
            assert(is_tame(v));
            tame_is_writable(v);
        }
    }
}

proof fn tame_is_writable(v: ast::ValueView)
    requires
        is_regular(v),
        is_tame(v),
    ensures
        is_writable(v),
{
    match v {
        ast::ValueView::Texts(w) => {
            assert forall|i: int| 0 <= i < w.len() implies round_trip::is_plain(#[trigger] w[i]) by {
                assert(is_quotable(w[i]) && is_unescaped(w[i]));
            }
        },
        _ => {},
    }
}

/// Whether the numbers of a value are below the limit of singles, and its strings are short and
/// hold no backslash and no newline.
pub open spec fn is_modest(v: ast::ValueView) -> bool {
    match v {
        ast::ValueView::Number(n) => double::below(double::magnitude(n), near::SINGLE_LIMIT),
        ast::ValueView::Numbers(v) => forall|i: int|
            0 <= i < v.len() ==> double::below(
                double::magnitude(#[trigger] v[i]),
                near::SINGLE_LIMIT,
            ),
        ast::ValueView::Text(s) => is_unescaped(s) && round_trip::is_short(s),
        ast::ValueView::Texts(v) => forall|i: int|
            0 <= i < v.len() ==> is_unescaped(#[trigger] v[i]) && round_trip::is_short(v[i]),
    }
}

proof fn modest_is_carriable(v: ast::ValueView)
    requires
        is_regular(v),
        is_modest(v),
    ensures
        is_carriable(v),
{
    match v {
        ast::ValueView::Number(n) => {
            near::numbers_fit(n);
        },
        ast::ValueView::Numbers(w) => {
            assert forall|i: int| 0 <= i < w.len() implies near::fits_single(#[trigger] w[i]) by {
                near::numbers_fit(w[i]);
            }
        },
        ast::ValueView::Texts(w) => {
            assert forall|i: int| 0 <= i < w.len() implies round_trip::is_plain(#[trigger] w[i]) && round_trip::is_short(
                w[i],
            ) by {
                assert(is_quotable(w[i]) && is_unescaped(w[i]));
            }
        },
        _ => {},
    }
}

/// What is parsed from a text can be encoded and read back, where its numbers are below the limit
/// of singles, its names and strings are short, and no string holds a backslash or a newline.
pub proof fn parsed_is_carriable(s: Seq<char>, rs: Seq<ast::RequestView>)
    requires
        parser::parsed(s) == Ok::<Seq<ast::RequestView>, Seq<char>>(rs),
        forall|i: int| 0 <= i < rs.len() ==> round_trip::is_short((#[trigger] rs[i]).name),
        forall|i: int, j: int|
            0 <= i < rs.len() && 0 <= j < rs[i].values.len() ==> is_modest(
                #[trigger] rs[i].values[j],
            ),
    ensures
        are_carriable(rs),
{
    parsed_is_regular(s);
    assert forall|i: int| 0 <= i < rs.len() implies is_carriable_request(#[trigger] rs[i]) by {
        assert(is_regular_request(rs[i]));
        assert forall|j: int| 0 <= j < rs[i].values.len() implies is_carriable(
            #[trigger] rs[i].values[j],
        ) by {
            assert(is_regular(rs[i].values[j]));
            modest_is_carriable(rs[i].values[j]);
        }
    }
}

} // verus!
