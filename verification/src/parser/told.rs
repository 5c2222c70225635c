//! Binary RIB comes back closely whatever is in it: what the decoder knows of the singles that
//! it writes out, and the parser of the integers that it reads, is all that it takes.

use crate::double;
use crate::near;
use crate::parser::ast;
use crate::parser::binary;
use crate::parser::comes_back;
use crate::parser::parser;
use crate::parser::round_trip;
use crate::text;
use vstd::prelude::*;

verus! {

// ---- what the decoder knows ------------------------------------------------

/// Whether the text of a number is sound where it is written in single precision.
spec fn is_sound(n: u64) -> bool {
    double::small_integer(n) is None ==> binary::single_is_sound(double::narrowed(n))
}

/// Whether those of a value are.
spec fn value_is_sound(v: ast::ValueView) -> bool {
    match v {
        ast::ValueView::Number(n) => is_sound(n),
        ast::ValueView::Numbers(v) => all_sound(v),
        _ => true,
    }
}

spec fn all_sound(v: Seq<u64>) -> bool {
    forall|i: int| 0 <= i < v.len() ==> is_sound(#[trigger] v[i])
}

spec fn values_are_sound(v: Seq<ast::ValueView>) -> bool {
    forall|i: int| 0 <= i < v.len() ==> value_is_sound(#[trigger] v[i])
}

/// An element that is no single.
proof fn sound_beyond(data: Seq<u8>, p: int, q: int)
    requires
        0 <= p < q <= data.len(),
        binary::item_at(data, p) matches Ok((_, next)) && next == q,
        binary::singles_sound(data, p),
    ensures
        binary::singles_sound(data, q),
{
}

proof fn number_sound(data: Seq<u8>, p: int, n: u64)
    requires
        round_trip::stands(data, p, binary::number_bytes(n)),
        binary::singles_sound(data, p),
    ensures
        binary::singles_sound(data, p + binary::number_bytes(n).len()),
        is_sound(n),
{
    round_trip::number_item(data, p, n);
    let b = binary::number_bytes(n);
    sound_beyond(data, p, p + b.len());
    if double::small_integer(n) is None {
        let v = double::narrowed(n) as nat;
        binary::pow256_values();
        round_trip::be_bytes_value(v, 4);
        vstd::arithmetic::div_mod::lemma_small_mod(v, binary::pow256(4));
        assert(data[p] == data.subrange(p, p + b.len())[0]);
        assert(data.subrange(p + 1, p + 5) =~= data.subrange(p, p + b.len()).subrange(1, 5));
        assert(b.subrange(1, 5) =~= binary::be_bytes(v, 4));
    }
}

proof fn numbers_sound(data: Seq<u8>, p: int, v: Seq<u64>)
    requires
        round_trip::stands(data, p, binary::numbers_bytes(v)),
        binary::singles_sound(data, p),
    ensures
        binary::singles_sound(data, p + binary::numbers_bytes(v).len()),
        all_sound(v),
    decreases v.len(),
{
    if v.len() > 0 {
        let before = v.drop_last();
        let a = binary::numbers_bytes(before);
        let b = binary::number_bytes(v.last());
        assert(a + b + Seq::<u8>::empty() =~= binary::numbers_bytes(v));
        round_trip::part_stands(data, p, a, b, seq![]);
        numbers_sound(data, p, before);
        number_sound(data, p + a.len(), v.last());
        assert forall|i: int| 0 <= i < v.len() implies is_sound(#[trigger] v[i]) by {
            if i < before.len() {
                assert(is_sound(before[i]));
            }
        }
    }
}

proof fn string_sound(data: Seq<u8>, p: int, s: Seq<char>)
    requires
        round_trip::stands(data, p, binary::string_bytes(s)),
        round_trip::is_short(s),
        binary::singles_sound(data, p),
    ensures
        binary::singles_sound(data, p + binary::string_bytes(s).len()),
{
    round_trip::string_item(data, p, s);
    sound_beyond(data, p, p + binary::string_bytes(s).len());
}

proof fn strings_sound(data: Seq<u8>, p: int, v: Seq<Seq<char>>)
    requires
        round_trip::stands(data, p, binary::strings_bytes(v)),
        forall|i: int| 0 <= i < v.len() ==> round_trip::is_short(#[trigger] v[i]),
        binary::singles_sound(data, p),
    ensures
        binary::singles_sound(data, p + binary::strings_bytes(v).len()),
    decreases v.len(),
{
    if v.len() > 0 {
        let before = v.drop_last();
        let a = binary::strings_bytes(before);
        let b = binary::string_bytes(v.last());
        assert(a + b + Seq::<u8>::empty() =~= binary::strings_bytes(v));
        round_trip::part_stands(data, p, a, b, seq![]);
        assert forall|i: int| 0 <= i < before.len() implies round_trip::is_short(
            #[trigger] before[i],
        ) by {
            assert(before[i] == v[i]);
        }
        strings_sound(data, p, before);
        string_sound(data, p + a.len(), v.last());
    }
}

/// A byte that stands for itself.
proof fn plain_sound(data: Seq<u8>, p: int, b: u8)
    requires
        round_trip::stands(data, p, seq![b]),
        b < 0x80,
        b != 0x23,
        binary::singles_sound(data, p),
    ensures
        binary::singles_sound(data, p + 1),
{
    assert(data[p] == data.subrange(p, p + 1)[0]);
    sound_beyond(data, p, p + 1);
}

proof fn value_sound(data: Seq<u8>, p: int, v: ast::ValueView)
    requires
        round_trip::stands(data, p, binary::value_bytes(v)),
        round_trip::has_short_strings(v),
        binary::singles_sound(data, p),
    ensures
        binary::singles_sound(data, p + binary::value_bytes(v).len()),
        value_is_sound(v),
{
    match v {
        ast::ValueView::Number(n) => {
            number_sound(data, p, n);
        },
        ast::ValueView::Text(s) => {
            string_sound(data, p, s);
        },
        ast::ValueView::Numbers(w) => {
            let b = binary::numbers_bytes(w);
            round_trip::part_stands(data, p, seq![0x5bu8], b, seq![0x5du8]);
            plain_sound(data, p, 0x5b);
            numbers_sound(data, p + 1, w);
            plain_sound(data, p + 1 + b.len(), 0x5d);
        },
        ast::ValueView::Texts(w) => {
            let b = binary::strings_bytes(w);
            round_trip::part_stands(data, p, seq![0x5bu8], b, seq![0x5du8]);
            plain_sound(data, p, 0x5b);
            strings_sound(data, p + 1, w);
            plain_sound(data, p + 1 + b.len(), 0x5d);
        },
    }
}

proof fn values_sound(data: Seq<u8>, p: int, v: Seq<ast::ValueView>)
    requires
        round_trip::stands(data, p, binary::values_bytes(v)),
        forall|i: int| 0 <= i < v.len() ==> round_trip::has_short_strings(#[trigger] v[i]),
        binary::singles_sound(data, p),
    ensures
        binary::singles_sound(data, p + binary::values_bytes(v).len()),
        values_are_sound(v),
    decreases v.len(),
{
    if v.len() > 0 {
        let before = v.drop_last();
        let a = binary::values_bytes(before);
        let b = binary::value_bytes(v.last());
        assert(a + b + Seq::<u8>::empty() =~= binary::values_bytes(v));
        round_trip::part_stands(data, p, a, b, seq![]);
        assert forall|i: int| 0 <= i < before.len() implies round_trip::has_short_strings(
            #[trigger] before[i],
        ) by {
            assert(before[i] == v[i]);
        }
        values_sound(data, p, before);
        value_sound(data, p + a.len(), v.last());
        assert forall|i: int| 0 <= i < v.len() implies value_is_sound(#[trigger] v[i]) by {
            if i < before.len() {
                assert(value_is_sound(before[i]));
            }
        }
    }
}

proof fn call_sound(data: Seq<u8>, p: int, code: u8, r: ast::RequestView)
    requires
        round_trip::stands(
            data,
            p,
            seq![0xa6u8, code] + binary::values_bytes(r.values) + seq![0x0au8],
        ),
        forall|j: int| 0 <= j < r.values.len() ==> round_trip::has_short_strings(
            #[trigger] r.values[j],
        ),
        binary::singles_sound(data, p),
    ensures
        binary::singles_sound(data, p + 3 + binary::values_bytes(r.values).len()),
        values_are_sound(r.values),
{
    let values = binary::values_bytes(r.values);
    round_trip::part_stands(data, p, seq![0xa6u8, code], values, seq![0x0au8]);
    assert(data[p] == data.subrange(p, p + 2)[0]);
    assert(data[p + 1] == data.subrange(p, p + 2)[1]);
    sound_beyond(data, p, p + 2);
    values_sound(data, p + 2, r.values);
    plain_sound(data, p + 2 + values.len(), 0x0a);
}

proof fn definition_sound(data: Seq<u8>, p: int, code: u8, name: Seq<char>)
    requires
        round_trip::is_short(name),
        round_trip::stands(data, p, seq![0xccu8, code] + binary::string_bytes(name)),
        binary::singles_sound(data, p),
    ensures
        binary::singles_sound(data, p + 2 + binary::string_bytes(name).len()),
{
    let s = binary::string_bytes(name);
    assert(seq![0xccu8, code] + s + Seq::<u8>::empty() =~= seq![0xccu8, code] + s);
    round_trip::part_stands(data, p, seq![0xccu8, code], s, seq![]);
    round_trip::string_item(data, p + 2, name);
    assert(data[p] == data.subrange(p, p + 2)[0]);
    assert(data[p + 1] == data.subrange(p, p + 2)[1]);
    sound_beyond(data, p, p + 2 + s.len());
}

#[verifier::spinoff_prover]
#[verifier::rlimit(40)]
proof fn request_sound(data: Seq<u8>, p: int, requests: Seq<ast::RequestView>, i: int)
    requires
        0 <= i < requests.len(),
        round_trip::is_encodable(requests),
        round_trip::stands(data, p, binary::request_bytes(requests, i)),
        binary::singles_sound(data, p),
    ensures
        binary::singles_sound(data, p + binary::request_bytes(requests, i).len()),
        values_are_sound(requests[i].values),
{
    let r = requests[i];
    let code = binary::request_code(requests, i);
    let values = binary::values_bytes(r.values);
    let call = seq![0xa6u8, code] + values + seq![0x0au8];
    if binary::owner_before(requests, i, code) != Some(r.name) {
        let definition = seq![0xccu8, code] + binary::string_bytes(r.name);
        assert(binary::request_bytes(requests, i) =~= definition + call + Seq::<u8>::empty());
        round_trip::part_stands(data, p, definition, call, seq![]);
        definition_sound(data, p, code, r.name);
        call_sound(data, p + definition.len(), code, r);
    } else {
        assert(binary::request_bytes(requests, i) =~= call);
        call_sound(data, p, code, r);
    }
}

proof fn requests_sound(data: Seq<u8>, requests: Seq<ast::RequestView>, n: int)
    requires
        0 <= n <= requests.len(),
        round_trip::is_encodable(requests),
        round_trip::stands(data, 0, binary::encoded_until(requests, n)),
        binary::singles_sound(data, 0),
    ensures
        binary::singles_sound(data, binary::encoded_until(requests, n).len() as int),
        forall|i: int| 0 <= i < n ==> values_are_sound((#[trigger] requests[i]).values),
    decreases n,
{
    if n > 0 {
        let a = binary::encoded_until(requests, n - 1);
        let b = binary::request_bytes(requests, n - 1);
        assert(a + b + Seq::<u8>::empty() =~= binary::encoded_until(requests, n));
        round_trip::part_stands(data, 0, a, b, seq![]);
        requests_sound(data, requests, n - 1);
        request_sound(data, a.len() as int, requests, n - 1);
    }
}

// ---- what the parser knows -------------------------------------------------

/// Whether a number is carried.
spec fn is_kept(n: u64) -> bool {
    round_trip::is_readable(round_trip::number_canon(n)) && comes_back::is_back(
        round_trip::reading(round_trip::number_canon(n)),
        n,
    )
}

/// Whether the text of a number looks like one, and the number is carried once it is told.
spec fn is_sure(n: u64) -> bool {
    let t = round_trip::number_canon(n);
    &&& t.len() > 0
    &&& parser::is_digit(t[0]) || t[0] == '-' || t[0] == '+' || t[0] == '.'
    &&& forall|i: int| 0 <= i < t.len() ==> parser::is_number_char(#[trigger] t[i])
    &&& parser::is_told(t) ==> is_kept(n)
}

proof fn decimal_shape(n: nat)
    ensures
        text::decimal(n).len() > 0,
        forall|k: int|
            0 <= k < text::decimal(n).len() ==> parser::is_digit(#[trigger] text::decimal(n)[k]),
    decreases n,
{
    if n >= 10 {
        decimal_shape(n / 10);
    }
}

/// The text of an integer looks like a number.
proof fn int_shape(i: int)
    ensures
        ({
            let t = text::int_text(i);
            &&& t.len() > 0
            &&& parser::is_digit(t[0]) || t[0] == '-'
            &&& forall|k: int| 0 <= k < t.len() ==> parser::is_number_char(#[trigger] t[k])
        }),
{
    let m: nat = if i < 0 {
        (-i) as nat
    } else {
        i as nat
    };
    decimal_shape(m);
    let t = text::int_text(i);
    assert forall|k: int| 0 <= k < t.len() implies parser::is_number_char(#[trigger] t[k]) by {
        if i < 0 {
            if k > 0 {
                assert(t[k] == text::decimal(m)[k - 1]);
            }
        } else {
            assert(t[k] == text::decimal(m)[k]);
        }
    }
    if i >= 0 {
        assert(t[0] == text::decimal(m)[0]);
    }
}

proof fn small_integers_are_back(a: u64, bits: u64, i: int)
    requires
        double::small_integer(bits) == Some(i),
        double::equals_integer(a, i),
    ensures
        comes_back::is_back(a, bits),
{
    reveal(double::small_integer);
    near::integers_are_close(a, bits, i);
}

proof fn sound_is_sure(n: u64)
    requires
        near::fits_single(n),
        is_sound(n),
    ensures
        is_sure(n),
{
    let t = round_trip::number_canon(n);
    match double::small_integer(n) {
        Some(i) => {
            assert(double::is_small(i)) by {
                reveal(double::small_integer);
            }
            int_shape(i);
            if parser::is_told(t) {
                assert(parser::is_exact(i));
                small_integers_are_back(round_trip::reading(t), n, i);
            }
        },
        None => {
            near::near_is_close(round_trip::reading(t), n);
        },
    }
}

spec fn all_sure(v: Seq<u64>) -> bool {
    forall|i: int| 0 <= i < v.len() ==> is_sure(#[trigger] v[i])
}

/// Whether the numbers of a value are sure and its strings are written as they are.
spec fn value_is_sure(v: ast::ValueView) -> bool {
    match v {
        ast::ValueView::Number(n) => is_sure(n),
        ast::ValueView::Numbers(v) => all_sure(v),
        _ => round_trip::is_legible(true, v),
    }
}

/// Whether a value is read back, its numbers closely.
spec fn value_is_kept(v: ast::ValueView) -> bool {
    round_trip::is_legible(true, v) && comes_back::value_is_carried(v)
}

/// The run of a number is its text.
proof fn run_here(s: Seq<char>, p: int, n: u64)
    requires
        is_sure(n),
        round_trip::stands(s, p, round_trip::number_canon(n)),
        p + round_trip::number_canon(n).len() == s.len() || !parser::is_number_char(
            s[p + round_trip::number_canon(n).len()],
        ),
    ensures
        s.subrange(p, parser::run_end(s, p)) == round_trip::number_canon(n),
        s[p] == round_trip::number_canon(n)[0],
        parser::skip_ws(s, p) == p,
        parser::number_told(s, p) ==> is_kept(n),
{
    let t = round_trip::number_canon(n);
    assert forall|i: int| p <= i < p + t.len() implies parser::is_number_char(#[trigger] s[i]) by {
        assert(s[i] == s.subrange(p, p + t.len())[i - p]);
        assert(parser::is_number_char(t[i - p]));
    }
    round_trip::run_over(s, p, p + t.len());
    round_trip::first_stands(s, p, t);
}

proof fn numbers_kept(s: Seq<char>, w: Seq<u64>, i: int, q: int)
    requires
        0 <= i <= w.len(),
        all_sure(w),
        round_trip::stands(
            s,
            q,
            round_trip::elements_end(true, round_trip::number_texts(true, w), i),
        ),
        parser::numbers_told(s, q),
    ensures
        forall|k: int| i <= k < w.len() ==> is_kept(#[trigger] w[k]),
    decreases w.len() - i,
{
    if i < w.len() {
        let ts = round_trip::number_texts(true, w);
        round_trip::behind_element(s, true, ts, i, q);
        let a = q + round_trip::lead(true, i).len();
        let b = a + ts[i].len();
        let e = b + round_trip::trail(true).len();
        assert(is_sure(w[i]));
        assert(ts[i] == round_trip::number_canon(w[i]));
        run_here(s, a, w[i]);
        assert(parser::skip_ws(s, q) == a);
        assert(!parser::holds_at(s, a, ']'));
        assert(parser::number_told(s, a));
        round_trip::number_here(s, a, ts[i]);
        assert(parser::numbers_told(s, b));
        assert(parser::skip_ws(s, b) == parser::skip_ws(s, e));
        assert(parser::numbers_told(s, e));
        numbers_kept(s, w, i + 1, e);
    }
}

#[verifier::spinoff_prover]
proof fn value_kept(s: Seq<char>, p: int, v: ast::ValueView)
    requires
        round_trip::stands(s, p, round_trip::core_text(true, v)),
        value_is_sure(v),
        p + round_trip::core_text(true, v).len() == s.len() || !parser::is_number_char(
            s[p + round_trip::core_text(true, v).len()],
        ),
    ensures
        parser::skip_ws(s, p) == p,
        parser::value_told(s, p) ==> value_is_kept(v),
{
    match v {
        ast::ValueView::Number(n) => {
            run_here(s, p, n);
        },
        ast::ValueView::Text(t) => {
            round_trip::string_here(s, p, t);
        },
        ast::ValueView::Numbers(w) => {
            let ts = round_trip::number_texts(true, w);
            let body = round_trip::elements_end(true, ts, 0);
            assert(round_trip::core_text(true, v) =~= seq!['['] + body + Seq::<char>::empty());
            round_trip::part_stands(s, p, seq!['['], body, seq![]);
            round_trip::first_stands(s, p, seq!['[']);
            let q = p + 1;
            parser::skip_ws_bounds(s, q);
            round_trip::skip_twice(s, q);
            let z = parser::skip_ws(s, q);
            assert(!parser::holds_at(s, z, '"')) by {
                if ts.len() == 0 {
                    round_trip::first_stands(s, q, body);
                } else {
                    round_trip::behind_element(s, true, ts, 0, q);
                    assert(is_sure(w[0]));
                    assert(ts[0] == round_trip::number_canon(w[0]));
                    run_here(s, q + round_trip::lead(true, 0).len(), w[0]);
                }
            }
            if parser::value_told(s, p) {
                assert(parser::numbers_told(s, z));
                assert(parser::numbers_told(s, q));
                numbers_kept(s, w, 0, q);
                assert forall|k: int| 0 <= k < w.len() implies round_trip::is_readable(
                    round_trip::number_text(true, #[trigger] w[k]),
                ) by {
                    assert(is_kept(w[k]));
                }
                assert forall|k: int| 0 <= k < w.len() implies comes_back::number_is_carried(
                    #[trigger] w[k],
                ) by {
                    assert(is_kept(w[k]));
                }
            }
        },
        ast::ValueView::Texts(w) => {
            round_trip::value_here(s, true, p, v);
        },
    }
}

spec fn values_are_sure(v: Seq<ast::ValueView>) -> bool {
    forall|k: int| 0 <= k < v.len() ==> value_is_sure(#[trigger] v[k])
}

#[verifier::spinoff_prover]
proof fn values_kept(s: Seq<char>, v: Seq<ast::ValueView>, i: int, q: int)
    requires
        0 <= i <= v.len(),
        values_are_sure(v),
        round_trip::stands(s, q, round_trip::values_end(true, v, i)),
        parser::values_told(s, q),
    ensures
        forall|k: int| i <= k < v.len() ==> value_is_kept(#[trigger] v[k]),
    decreases v.len() - i,
{
    if i < v.len() {
        let x = v[i];
        let rest = round_trip::values_end(true, v, i + 1);
        let core = round_trip::core_text(true, x);
        let l = round_trip::value_lead(true, x);
        let t = round_trip::value_trail(true, x);
        round_trip::part_stands(s, q, l, core, t + rest);
        let a = q + l.len();
        let b = a + core.len();
        let e = b + t.len();
        round_trip::values_end_start(true, v, i + 1);
        round_trip::first_stands(s, b, t + rest);
        assert(t + rest + Seq::<char>::empty() =~= t + rest);
        round_trip::part_stands(s, b, t, rest, seq![]);
        assert(value_is_sure(x));
        value_kept(s, a, x);
        if l.len() > 0 {
            round_trip::first_stands(s, q, l);
        }
        assert(parser::skip_ws(s, q) == a);
        assert(parser::value_told(s, a));
        round_trip::value_here(s, true, a, x);
        assert(parser::values_told(s, b));
        if t.len() > 0 {
            round_trip::first_stands(s, b, t);
            assert(parser::skip_ws(s, b) == parser::skip_ws(s, e));
        }
        assert(parser::values_told(s, e));
        values_kept(s, v, i + 1, e);
    }
}

/// Whether all requests have identifiers for names and sure values.
spec fn are_sure(rs: Seq<ast::RequestView>) -> bool {
    forall|k: int|
        0 <= k < rs.len() ==> round_trip::is_identifier((#[trigger] rs[k]).name)
            && values_are_sure(rs[k].values)
}

spec fn values_are_kept(v: Seq<ast::ValueView>) -> bool {
    forall|j: int| 0 <= j < v.len() ==> value_is_kept(#[trigger] v[j])
}

#[verifier::spinoff_prover]
#[verifier::rlimit(60)]
proof fn requests_kept(s: Seq<char>, rs: Seq<ast::RequestView>, i: int, p: int)
    requires
        0 <= i <= rs.len(),
        are_sure(rs),
        round_trip::stands(s, p, round_trip::requests_from(true, rs, i)),
        p + round_trip::requests_from(true, rs, i).len() == s.len(),
        parser::requests_told(s, p),
    ensures
        forall|k: int| i <= k < rs.len() ==> values_are_kept((#[trigger] rs[k]).values),
    decreases rs.len() - i,
{
    assert forall|k: int| 0 <= k < rs.len() implies round_trip::is_identifier(
        (#[trigger] rs[k]).name,
    ) by {}
    round_trip::skip_to_name(s, true, rs, i, p);
    if i < rs.len() {
        let r = rs[i];
        let body = round_trip::values_end(true, r.values, 0);
        let rest = round_trip::requests_from(true, rs, i + 1);
        let l = round_trip::name_lead(true);
        let t = round_trip::trail(true);
        round_trip::part_stands(s, p, l, r.name, t + body + rest);
        let a = p + l.len();
        let b = a + r.name.len();
        round_trip::part_stands(s, b, t, body, rest);
        let q = b + t.len();
        let e = q + body.len();
        round_trip::values_end_start(true, r.values, 0);
        round_trip::first_stands(s, q, body);
        round_trip::first_stands(s, b, t + body + rest);
        assert forall|k: int| a <= k < b implies parser::is_alpha(#[trigger] s[k]) || s[k]
            == '_' by {
            assert(s[k] == s.subrange(a, a + r.name.len())[k - a]);
            assert(parser::is_alpha(r.name[k - a]) || r.name[k - a] == '_');
        }
        round_trip::identifier_over(s, a, b);
        assert(s.subrange(a, b) =~= r.name);
        round_trip::skip_to_name(s, true, rs, i + 1, e);
        let z = parser::skip_ws(s, e);
        round_trip::first_stands(s, b, t);
        assert(parser::skip_ws(s, b) == parser::skip_ws(s, q));
        assert(parser::request_at(s, p) is Some);
        assert(parser::values_told(s, b));
        assert(parser::values_told(s, q));
        values_kept(s, r.values, 0, q);
        assert(values_are_kept(r.values));
        assert(r.values.take(0) =~= seq![]);
        assert(round_trip::reread_values(true, seq![]) =~= seq![]);
        assert forall|k: int| 0 <= k < r.values.len() implies round_trip::is_legible(
            true,
            #[trigger] r.values[k],
        ) by {
            assert(value_is_kept(r.values[k]));
        }
        round_trip::values_here(s, true, r.values, 0, q, seq![], z);
        assert(parser::values_at(s, b, seq![]) == parser::values_at(s, q, seq![]));
        assert(parser::request_at(s, p) matches Some((_, next)) && next == z);
        assert(parser::requests_told(s, z));
        parser::skip_ws_bounds(s, e);
        round_trip::skip_twice(s, e);
        assert(parser::request_at(s, z) == parser::request_at(s, e));
        assert(parser::requests_told(s, e));
        requests_kept(s, rs, i + 1, e);
    }
}

// ---- the law ---------------------------------------------------------------

/// What is carriable and sound is sure.
proof fn carriable_is_sure(rs: Seq<ast::RequestView>)
    requires
        comes_back::are_carriable(rs),
        forall|i: int| 0 <= i < rs.len() ==> values_are_sound((#[trigger] rs[i]).values),
    ensures
        are_sure(rs),
        round_trip::is_encodable(rs),
{
    assert forall|i: int| 0 <= i < rs.len() implies round_trip::is_identifier(
        (#[trigger] rs[i]).name,
    ) && values_are_sure(rs[i].values) by {
        assert(comes_back::is_carriable_request(rs[i]));
        assert forall|j: int| 0 <= j < rs[i].values.len() implies value_is_sure(
            #[trigger] rs[i].values[j],
        ) by {
            let v = rs[i].values[j];
            assert(comes_back::is_carriable(v));
            assert(value_is_sound(v));
            carriable_value_is_sure(v);
        }
    }
    carriable_is_encodable(rs);
}

proof fn carriable_value_is_sure(v: ast::ValueView)
    requires
        comes_back::is_carriable(v),
        value_is_sound(v),
    ensures
        value_is_sure(v),
{
    match v {
        ast::ValueView::Number(n) => {
            sound_is_sure(n);
        },
        ast::ValueView::Numbers(w) => {
            assert forall|i: int| 0 <= i < w.len() implies is_sure(#[trigger] w[i]) by {
                assert(near::fits_single(w[i]) && is_sound(w[i]));
                sound_is_sure(w[i]);
            }
        },
        _ => {},
    }
}

proof fn carriable_is_encodable(rs: Seq<ast::RequestView>)
    requires
        comes_back::are_carriable(rs),
    ensures
        round_trip::is_encodable(rs),
{
    assert forall|i: int| 0 <= i < rs.len() implies round_trip::is_short((#[trigger] rs[i]).name)
        && forall|j: int|
        0 <= j < rs[i].values.len() ==> round_trip::has_short_strings(#[trigger] rs[i].values[j]) by {
        assert(comes_back::is_carriable_request(rs[i]));
        assert forall|j: int| 0 <= j < rs[i].values.len() implies round_trip::has_short_strings(
            #[trigger] rs[i].values[j],
        ) by {
            assert(comes_back::is_carriable(rs[i].values[j]));
        }
    }
}

/// Requests that can be encoded come back closely, given what is known once they were decoded
/// and parsed.
pub proof fn told_comes_back(rs: Seq<ast::RequestView>)
    requires
        comes_back::are_carriable(rs),
        rs.len() > 0 ==> binary::singles_sound(binary::encoded(rs), 0),
        rs.len() > 0 ==> parser::requests_told(round_trip::canonical(rs), 0),
    ensures
        crate::parser::parsed_bytes(binary::encoded(rs)) matches Ok(q) && comes_back::are_close(
            q,
            rs,
        ),
{
    carriable_is_encodable(rs);
    if rs.len() > 0 {
        let data = binary::encoded(rs);
        assert(data.subrange(0, data.len() as int) =~= data);
        requests_sound(data, rs, rs.len() as int);
        carriable_is_sure(rs);
        round_trip::canonical_requests(rs);
        let s = round_trip::requests_from(true, rs, 0);
        assert(s.subrange(0, s.len() as int) =~= s);
        requests_kept(s, rs, 0, 0);
        assert forall|i: int, j: int|
            0 <= i < rs.len() && 0 <= j < rs[i].values.len() implies comes_back::value_is_carried(
            #[trigger] rs[i].values[j],
        ) by {
            assert(values_are_kept(rs[i].values));
            assert(value_is_kept(rs[i].values[j]));
        }
    }
    comes_back::encoding_comes_back(rs);
}

/// The same, of what the decoder hands to the parser.
pub(crate) proof fn bytes_come_back(rs: Seq<ast::RequestView>)
    requires
        comes_back::are_carriable(rs),
        binary::has_codes(binary::encoded(rs)) ==> (binary::decoded(binary::encoded(rs)) matches Ok(
            t,
        ) ==> binary::singles_sound(binary::encoded(rs), 0) && parser::requests_told(t, 0)),
    ensures
        crate::parser::parsed_bytes(binary::encoded(rs)) matches Ok(q) && comes_back::are_close(
            q,
            rs,
        ),
{
    carriable_is_encodable(rs);
    round_trip::decoding_undoes_encoding(rs);
    if rs.len() > 0 {
        round_trip::codes_are_there(rs);
    }
    told_comes_back(rs);
}

} // verus!
