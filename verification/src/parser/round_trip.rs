//! What is read back of what was written: a request stream that was encoded, decoded and
//! parsed again is the stream that it was, with each number as its text reads.

use crate::double;
use crate::parser::ast;
use crate::parser::binary;
use crate::parser::parser;
use crate::text;
use vstd::prelude::*;
use vstd::utf8::*;

verus! {

// ---- the canonical text ----------------------------------------------------

/// A number as the binary encoding carries it: a small integer, or a single.
pub open spec fn number_canon(bits: u64) -> Seq<char> {
    match double::small_integer(bits) {
        Some(i) => text::int_text(i),
        None => binary::single_text(double::narrowed(bits)),
    }
}

/// Texts between blanks, one after the other.
pub open spec fn spaced_all(ts: Seq<Seq<char>>) -> Seq<char>
    decreases ts.len(),
{
    if ts.len() == 0 {
        seq![]
    } else {
        spaced_all(ts.drop_last()) + binary::spaced(ts.last())
    }
}

/// The texts of numbers.
pub open spec fn number_canons(v: Seq<u64>) -> Seq<Seq<char>> {
    v.map_values(|n: u64| number_canon(n))
}

/// Strings in quotes.
pub open spec fn all_quoted(v: Seq<Seq<char>>) -> Seq<Seq<char>> {
    v.map_values(|s: Seq<char>| binary::quoted(s))
}

/// A value in the canonical text.
pub open spec fn value_canon(v: ast::ValueView) -> Seq<char> {
    match v {
        ast::ValueView::Number(n) => binary::spaced(number_canon(n)),
        ast::ValueView::Text(s) => binary::spaced(binary::quoted(s)),
        ast::ValueView::Numbers(v) => seq!['['] + spaced_all(number_canons(v)) + seq![']'],
        ast::ValueView::Texts(v) => seq!['['] + spaced_all(all_quoted(v)) + seq![']'],
    }
}

/// Values in the canonical text.
pub open spec fn values_canon(v: Seq<ast::ValueView>) -> Seq<char>
    decreases v.len(),
{
    if v.len() == 0 {
        seq![]
    } else {
        values_canon(v.drop_last()) + value_canon(v.last())
    }
}

/// A request in the canonical text.
pub open spec fn request_canon(r: ast::RequestView) -> Seq<char> {
    seq!['\n'] + r.name + seq![' '] + values_canon(r.values) + seq!['\n']
}

/// The canonical text of a request stream.
pub open spec fn canonical(requests: Seq<ast::RequestView>) -> Seq<char>
    decreases requests.len(),
{
    if requests.len() == 0 {
        seq![]
    } else {
        canonical(requests.drop_last()) + request_canon(requests.last())
    }
}

/// Whether the encoding has room for the length of a string.
pub open spec fn is_short(s: Seq<char>) -> bool {
    encode_utf8(s).len() < 65536
}

/// Whether the strings of a value are short.
pub open spec fn has_short_strings(v: ast::ValueView) -> bool {
    match v {
        ast::ValueView::Text(s) => is_short(s),
        ast::ValueView::Texts(v) => forall|i: int| 0 <= i < v.len() ==> is_short(#[trigger] v[i]),
        _ => true,
    }
}

/// Whether a request stream can be encoded: no string is longer than can be told.
pub open spec fn is_encodable(requests: Seq<ast::RequestView>) -> bool {
    forall|i: int|
        0 <= i < requests.len() ==> is_short((#[trigger] requests[i]).name) && forall|j: int|
            0 <= j < requests[i].values.len() ==> has_short_strings(
                #[trigger] requests[i].values[j],
            )
}

// ---- decoding what was encoded ---------------------------------------------

/// Whether a part stands in the data from `p` on.
pub open spec fn stands<T>(data: Seq<T>, p: int, part: Seq<T>) -> bool {
    0 <= p && p + part.len() <= data.len() && data.subrange(p, p + part.len()) == part
}

/// A part of what stands in the data stands there.
pub(crate) proof fn part_stands<T>(data: Seq<T>, p: int, a: Seq<T>, b: Seq<T>, c: Seq<T>)
    requires
        stands(data, p, a + b + c),
    ensures
        stands(data, p + a.len(), b),
        stands(data, p + a.len() + b.len(), c),
        stands(data, p, a),
{
    let all = a + b + c;
    assert(data.subrange(p + a.len(), p + a.len() + b.len()) =~= all.subrange(
        a.len() as int,
        (a.len() + b.len()) as int,
    ));
    assert(all.subrange(a.len() as int, (a.len() + b.len()) as int) =~= b);
    assert(data.subrange(p + a.len() + b.len(), p + all.len()) =~= all.subrange(
        (a.len() + b.len()) as int,
        all.len() as int,
    ));
    assert(all.subrange((a.len() + b.len()) as int, all.len() as int) =~= c);
    assert(data.subrange(p, p + a.len()) =~= all.subrange(0, a.len() as int));
    assert(all.subrange(0, a.len() as int) =~= a);
}

/// The bytes of a number are the number, as far as they reach.
pub(crate) proof fn be_bytes_value(v: nat, n: nat)
    ensures
        binary::be_bytes(v, n).len() == n,
        binary::be_uint(binary::be_bytes(v, n)) == v % binary::pow256(n),
    decreases n,
{
    if n == 0 {
        assert(v % 1 == 0);
    } else {
        let p = binary::pow256((n - 1) as nat);
        be_bytes_value(v / 256, (n - 1) as nat);
        binary::pow256_monotonic(0, (n - 1) as nat);
        let b = binary::be_bytes(v, n);
        assert(b.drop_last() =~= binary::be_bytes(v / 256, (n - 1) as nat));
        vstd::arithmetic::div_mod::lemma_mod_breakdown(v as int, 256, p as int);
    }
}

/// The two's complement of an integer in range is that integer.
proof fn int_bytes_value(i: int, n: nat)
    requires
        n >= 1,
        -(binary::pow256(n) as int) <= 2 * i < binary::pow256(n),
    ensures
        binary::int_bytes(i, n).len() == n,
        binary::be_int(binary::int_bytes(i, n)) == i,
{
    let p = binary::pow256(n) as int;
    let h = binary::pow256((n - 1) as nat);
    binary::pow256_monotonic(0, (n - 1) as nat);
    assert(p == 256 * h);
    let w = i % p;
    assert(w == if i < 0 {
        i + p
    } else {
        i
    }) by {
        if i < 0 {
            vstd::arithmetic::div_mod::lemma_fundamental_div_mod_converse(i, p, -1, i + p);
        } else {
            vstd::arithmetic::div_mod::lemma_small_mod(i as nat, p as nat);
        }
    }
    be_bytes_value(w as nat, n);
    vstd::arithmetic::div_mod::lemma_small_mod(w as nat, p as nat);
    let b = binary::int_bytes(i, n);
    binary::be_uint_first(b);
    if b[0] >= 0x80 {
        assert(b[0] * h >= 128 * h) by (nonlinear_arith)
            requires
                b[0] >= 128,
                h >= 0,
        ;
    } else {
        assert((b[0] + 1) * h <= 128 * h) by (nonlinear_arith)
            requires
                b[0] < 128,
                h >= 0,
        ;
    }
}

/// One element of a stream is decoded before the rest.
proof fn decode_item(
    data: Seq<u8>,
    p: int,
    q: int,
    item: binary::Item,
    t: Seq<char>,
    defs: binary::Definitions,
)
    requires
        0 <= p < data.len(),
        binary::item_at(data, p) == Ok::<(binary::Item, int), binary::BinaryError>((item, q)),
        binary::item_text(item, defs) == Ok::<Seq<char>, binary::BinaryError>(t),
    ensures
        binary::decoded_from(data, p, defs) == binary::prepend(
            t,
            binary::decoded_from(data, q, binary::item_defs(item, defs)),
        ),
{
}

/// Text before text before a result.
proof fn prepend_twice(
    a: Seq<char>,
    b: Seq<char>,
    r: Result<Seq<char>, binary::BinaryError>,
)
    ensures
        binary::prepend(a, binary::prepend(b, r)) == binary::prepend(a + b, r),
{
    match r {
        Ok(u) => {
            assert(a + (b + u) =~= (a + b) + u);
        },
        Err(_) => {},
    }
}

/// No text before a result.
proof fn prepend_nothing(r: Result<Seq<char>, binary::BinaryError>)
    ensures
        binary::prepend(seq![], r) == r,
{
    match r {
        Ok(u) => {
            assert(Seq::<char>::empty() + u =~= u);
        },
        Err(_) => {},
    }
}

/// The number that stands at `p`.
pub(crate) proof fn number_item(data: Seq<u8>, p: int, bits: u64)
    requires
        stands(data, p, binary::number_bytes(bits)),
    ensures
        binary::number_bytes(bits).len() > 0,
        binary::item_at(data, p) == Ok::<(binary::Item, int), binary::BinaryError>(
            (
                binary::Item::Text(binary::spaced(number_canon(bits))),
                p + binary::number_bytes(bits).len(),
            ),
        ),
{
    let b = binary::number_bytes(bits);
    binary::pow256_values();
    match double::small_integer(bits) {
        Some(i) => {
            assert(double::is_small(i)) by {
                reveal(double::small_integer);
            }
            let n: nat = if -128 <= i < 128 {
                1
            } else if -32768 <= i < 32768 {
                2
            } else {
                4
            };
            int_bytes_value(i, n);
            assert(b.len() == n + 1);
            assert(data[p] == data.subrange(p, p + b.len())[0]);
            assert(data.subrange(p + 1, p + 1 + n) =~= data.subrange(p, p + b.len()).subrange(
                1,
                (1 + n) as int,
            ));
            assert(b.subrange(1, (1 + n) as int) =~= binary::int_bytes(i, n));
        },
        None => {
            let v = double::narrowed(bits) as nat;
            be_bytes_value(v, 4);
            vstd::arithmetic::div_mod::lemma_small_mod(v, binary::pow256(4));
            assert(b.len() == 5);
            assert(data[p] == data.subrange(p, p + b.len())[0]);
            assert(data.subrange(p + 1, p + 5) =~= data.subrange(p, p + b.len()).subrange(1, 5));
            assert(b.subrange(1, 5) =~= binary::be_bytes(v, 4));
        },
    }
}

/// The string that stands at `p`.
pub(crate) proof fn string_item(data: Seq<u8>, p: int, s: Seq<char>)
    requires
        stands(data, p, binary::string_bytes(s)),
        is_short(s),
    ensures
        binary::string_bytes(s).len() > 0,
        binary::string_at(data, p) == Ok::<(Seq<char>, int), binary::BinaryError>(
            (s, p + binary::string_bytes(s).len()),
        ),
        0x90 <= data[p] <= 0xa3,
{
    broadcast use {encode_utf8_valid_utf8, encode_utf8_decode_utf8};

    let b = binary::string_bytes(s);
    let u = encode_utf8(s);
    binary::pow256_values();
    assert(data[p] == data.subrange(p, p + b.len())[0]);
    if u.len() <= 15 {
        assert(data.subrange(p + 1, p + 1 + u.len()) =~= data.subrange(p, p + b.len()).subrange(
            1,
            (1 + u.len()) as int,
        ));
        assert(b.subrange(1, (1 + u.len()) as int) =~= u);
    } else {
        be_bytes_value(u.len(), 2);
        vstd::arithmetic::div_mod::lemma_small_mod(u.len(), binary::pow256(2));
        assert(data.subrange(p + 1, p + 3) =~= data.subrange(p, p + b.len()).subrange(1, 3));
        assert(b.subrange(1, 3) =~= binary::be_bytes(u.len(), 2));
        assert(data.subrange(p + 3, p + 3 + u.len()) =~= data.subrange(p, p + b.len()).subrange(
            3,
            (3 + u.len()) as int,
        ));
        assert(b.subrange(3, (3 + u.len()) as int) =~= u);
    }
}

/// Numbers one after the other.
proof fn decode_numbers(data: Seq<u8>, p: int, v: Seq<u64>, defs: binary::Definitions)
    requires
        stands(data, p, binary::numbers_bytes(v)),
    ensures
        binary::decoded_from(data, p, defs) == binary::prepend(
            spaced_all(number_canons(v)),
            binary::decoded_from(data, p + binary::numbers_bytes(v).len(), defs),
        ),
    decreases v.len(),
{
    if v.len() == 0 {
        prepend_nothing(binary::decoded_from(data, p, defs));
    } else {
        let a = binary::numbers_bytes(v.drop_last());
        let b = binary::number_bytes(v.last());
        assert(a + b + Seq::<u8>::empty() =~= binary::numbers_bytes(v));
        part_stands(data, p, a, b, seq![]);
        decode_numbers(data, p, v.drop_last(), defs);
        let q = p + a.len();
        number_item(data, q, v.last());
        let t = binary::spaced(number_canon(v.last()));
        decode_item(data, q, q + b.len(), binary::Item::Text(t), t, defs);
        assert(number_canons(v).drop_last() =~= number_canons(v.drop_last()));
        prepend_twice(
            spaced_all(number_canons(v.drop_last())),
            t,
            binary::decoded_from(data, q + b.len(), defs),
        );
    }
}

/// A string as a value.
proof fn decode_string(data: Seq<u8>, p: int, s: Seq<char>, defs: binary::Definitions)
    requires
        stands(data, p, binary::string_bytes(s)),
        is_short(s),
    ensures
        binary::decoded_from(data, p, defs) == binary::prepend(
            binary::spaced(binary::quoted(s)),
            binary::decoded_from(data, p + binary::string_bytes(s).len(), defs),
        ),
{
    string_item(data, p, s);
    let t = binary::spaced(binary::quoted(s));
    decode_item(
        data,
        p,
        p + binary::string_bytes(s).len(),
        binary::Item::Text(t),
        t,
        defs,
    );
}

/// Strings one after the other.
proof fn decode_strings(data: Seq<u8>, p: int, v: Seq<Seq<char>>, defs: binary::Definitions)
    requires
        stands(data, p, binary::strings_bytes(v)),
        forall|i: int| 0 <= i < v.len() ==> is_short(#[trigger] v[i]),
    ensures
        binary::decoded_from(data, p, defs) == binary::prepend(
            spaced_all(all_quoted(v)),
            binary::decoded_from(data, p + binary::strings_bytes(v).len(), defs),
        ),
    decreases v.len(),
{
    if v.len() == 0 {
        prepend_nothing(binary::decoded_from(data, p, defs));
    } else {
        let a = binary::strings_bytes(v.drop_last());
        let b = binary::string_bytes(v.last());
        assert(a + b + Seq::<u8>::empty() =~= binary::strings_bytes(v));
        part_stands(data, p, a, b, seq![]);
        assert forall|i: int| 0 <= i < v.drop_last().len() implies is_short(
            #[trigger] v.drop_last()[i],
        ) by {
            assert(v.drop_last()[i] == v[i]);
        }
        decode_strings(data, p, v.drop_last(), defs);
        let q = p + a.len();
        decode_string(data, q, v.last(), defs);
        assert(all_quoted(v).drop_last() =~= all_quoted(v.drop_last()));
        prepend_twice(
            spaced_all(all_quoted(v.drop_last())),
            binary::spaced(binary::quoted(v.last())),
            binary::decoded_from(data, q + b.len(), defs),
        );
    }
}

/// A byte that stands for itself.
proof fn decode_plain(data: Seq<u8>, p: int, b: u8, defs: binary::Definitions)
    requires
        stands(data, p, seq![b]),
        b < 0x80,
        b != 0x23,
    ensures
        binary::decoded_from(data, p, defs) == binary::prepend(
            seq![b as char],
            binary::decoded_from(data, p + 1, defs),
        ),
{
    assert(data[p] == data.subrange(p, p + 1)[0]);
    decode_item(data, p, p + 1, binary::Item::Text(seq![b as char]), seq![b as char], defs);
}

/// A value.
proof fn decode_value(data: Seq<u8>, p: int, v: ast::ValueView, defs: binary::Definitions)
    requires
        stands(data, p, binary::value_bytes(v)),
        has_short_strings(v),
    ensures
        binary::decoded_from(data, p, defs) == binary::prepend(
            value_canon(v),
            binary::decoded_from(data, p + binary::value_bytes(v).len(), defs),
        ),
{
    match v {
        ast::ValueView::Number(n) => {
            number_item(data, p, n);
            let t = binary::spaced(number_canon(n));
            decode_item(
                data,
                p,
                p + binary::number_bytes(n).len(),
                binary::Item::Text(t),
                t,
                defs,
            );
        },
        ast::ValueView::Text(s) => {
            decode_string(data, p, s, defs);
        },
        ast::ValueView::Numbers(w) => {
            let b = binary::numbers_bytes(w);
            part_stands(data, p, seq![0x5bu8], b, seq![0x5du8]);
            decode_plain(data, p, 0x5b, defs);
            decode_numbers(data, p + 1, w, defs);
            decode_plain(data, p + 1 + b.len(), 0x5d, defs);
            let end = binary::decoded_from(data, p + 1 + b.len() + 1, defs);
            prepend_twice(spaced_all(number_canons(w)), seq![']'], end);
            prepend_twice(seq!['['], spaced_all(number_canons(w)) + seq![']'], end);
            assert(seq!['['] + (spaced_all(number_canons(w)) + seq![']']) =~= value_canon(v));
        },
        ast::ValueView::Texts(w) => {
            let b = binary::strings_bytes(w);
            part_stands(data, p, seq![0x5bu8], b, seq![0x5du8]);
            decode_plain(data, p, 0x5b, defs);
            decode_strings(data, p + 1, w, defs);
            decode_plain(data, p + 1 + b.len(), 0x5d, defs);
            let end = binary::decoded_from(data, p + 1 + b.len() + 1, defs);
            prepend_twice(spaced_all(all_quoted(w)), seq![']'], end);
            prepend_twice(seq!['['], spaced_all(all_quoted(w)) + seq![']'], end);
            assert(seq!['['] + (spaced_all(all_quoted(w)) + seq![']']) =~= value_canon(v));
        },
    }
}

/// Values one after the other.
proof fn decode_values(data: Seq<u8>, p: int, v: Seq<ast::ValueView>, defs: binary::Definitions)
    requires
        stands(data, p, binary::values_bytes(v)),
        forall|i: int| 0 <= i < v.len() ==> has_short_strings(#[trigger] v[i]),
    ensures
        binary::decoded_from(data, p, defs) == binary::prepend(
            values_canon(v),
            binary::decoded_from(data, p + binary::values_bytes(v).len(), defs),
        ),
    decreases v.len(),
{
    if v.len() == 0 {
        prepend_nothing(binary::decoded_from(data, p, defs));
    } else {
        let a = binary::values_bytes(v.drop_last());
        let b = binary::value_bytes(v.last());
        assert(a + b + Seq::<u8>::empty() =~= binary::values_bytes(v));
        part_stands(data, p, a, b, seq![]);
        assert forall|i: int| 0 <= i < v.drop_last().len() implies has_short_strings(
            #[trigger] v.drop_last()[i],
        ) by {
            assert(v.drop_last()[i] == v[i]);
        }
        decode_values(data, p, v.drop_last(), defs);
        let q = p + a.len();
        decode_value(data, q, v.last(), defs);
        prepend_twice(
            values_canon(v.drop_last()),
            value_canon(v.last()),
            binary::decoded_from(data, q + b.len(), defs),
        );
    }
}

/// The definitions after the first `n` requests.
pub open spec fn codes_after(requests: Seq<ast::RequestView>, n: int) -> binary::Definitions {
    binary::Definitions {
        requests: Map::new(
            |c: u8| binary::owner_before(requests, n, c) is Some,
            |c: u8| binary::owner_before(requests, n, c)->0,
        ),
        strings: Map::empty(),
    }
}

/// A request whose code is defined.
proof fn decode_call(
    data: Seq<u8>,
    q: int,
    code: u8,
    r: ast::RequestView,
    defs: binary::Definitions,
)
    requires
        stands(data, q, seq![0xa6u8, code] + binary::values_bytes(r.values) + seq![0x0au8]),
        defs.requests.contains_key(code),
        defs.requests[code] == r.name,
        forall|j: int| 0 <= j < r.values.len() ==> has_short_strings(#[trigger] r.values[j]),
    ensures
        binary::decoded_from(data, q, defs) == binary::prepend(
            request_canon(r),
            binary::decoded_from(data, q + 3 + binary::values_bytes(r.values).len(), defs),
        ),
{
    let values = binary::values_bytes(r.values);
    let head = seq!['\n'] + r.name + seq![' '];
    part_stands(data, q, seq![0xa6u8, code], values, seq![0x0au8]);
    assert(data[q] == data.subrange(q, q + 2)[0]);
    assert(data[q + 1] == data.subrange(q, q + 2)[1]);
    decode_item(data, q, q + 2, binary::Item::Request(code), head, defs);
    decode_values(data, q + 2, r.values, defs);
    let e = q + 2 + values.len();
    decode_plain(data, e, 0x0a, defs);
    let rest = binary::decoded_from(data, e + 1, defs);
    prepend_twice(values_canon(r.values), seq!['\n'], rest);
    prepend_twice(head, values_canon(r.values) + seq!['\n'], rest);
    assert(head + (values_canon(r.values) + seq!['\n']) =~= request_canon(r));
}

/// The definition of a name.
proof fn decode_definition(
    data: Seq<u8>,
    p: int,
    code: u8,
    name: Seq<char>,
    defs: binary::Definitions,
)
    requires
        is_short(name),
        stands(data, p, seq![0xccu8, code] + binary::string_bytes(name)),
    ensures
        binary::decoded_from(data, p, defs) == binary::decoded_from(
            data,
            p + 2 + binary::string_bytes(name).len(),
            binary::Definitions {
                requests: defs.requests.insert(code, name),
                strings: defs.strings,
            },
        ),
{
    let s = binary::string_bytes(name);
    assert(seq![0xccu8, code] + s + Seq::<u8>::empty() =~= seq![0xccu8, code] + s);
    part_stands(data, p, seq![0xccu8, code], s, seq![]);
    string_item(data, p + 2, name);
    assert(data[p] == data.subrange(p, p + 2)[0]);
    assert(data[p + 1] == data.subrange(p, p + 2)[1]);
    let item = binary::Item::DefineRequest(code, name);
    let q = p + 2 + s.len();
    decode_item(data, p, q, item, seq![], defs);
    prepend_nothing(binary::decoded_from(data, q, binary::item_defs(item, defs)));
}

/// A request gives its code the meaning of its name, which it may have.
proof fn codes_grow(requests: Seq<ast::RequestView>, i: int)
    requires
        0 <= i < requests.len(),
    ensures
        ({
            let code = binary::request_code(requests, i);
            let (before, after) = (codes_after(requests, i), codes_after(requests, i + 1));
            &&& after == (binary::Definitions {
                requests: before.requests.insert(code, requests[i].name),
                strings: before.strings,
            })
            &&& binary::owner_before(requests, i, code) == Some(requests[i].name) ==> after
                == before
            &&& after.requests.contains_key(code) && after.requests[code] == requests[i].name
        }),
{
    let code = binary::request_code(requests, i);
    let (before, after) = (codes_after(requests, i), codes_after(requests, i + 1));
    assert(after.requests =~= before.requests.insert(code, requests[i].name));
    if binary::owner_before(requests, i, code) == Some(requests[i].name) {
        assert(after.requests =~= before.requests);
    }
}

/// A call with or without the definition of its code before it.
#[verifier::spinoff_prover]
#[verifier::rlimit(60)]
proof fn decode_defined(
    data: Seq<u8>,
    p: int,
    defines: bool,
    code: u8,
    r: ast::RequestView,
    before: binary::Definitions,
    after: binary::Definitions,
)
    requires
        is_short(r.name),
        forall|j: int| 0 <= j < r.values.len() ==> has_short_strings(#[trigger] r.values[j]),
        after == (binary::Definitions {
            requests: before.requests.insert(code, r.name),
            strings: before.strings,
        }),
        !defines ==> after == before,
        after.requests.contains_key(code) && after.requests[code] == r.name,
        stands(
            data,
            p,
            (if defines {
                seq![0xccu8, code] + binary::string_bytes(r.name)
            } else {
                seq![]
            }) + seq![0xa6u8, code] + binary::values_bytes(r.values) + seq![0x0au8],
        ),
    ensures
        binary::decoded_from(data, p, before) == binary::prepend(
            request_canon(r),
            binary::decoded_from(
                data,
                p + 3 + binary::values_bytes(r.values).len() + if defines {
                    2 + binary::string_bytes(r.name).len()
                } else {
                    0
                },
                after,
            ),
        ),
{
    let call = seq![0xa6u8, code] + binary::values_bytes(r.values) + seq![0x0au8];
    if defines {
        let definition = seq![0xccu8, code] + binary::string_bytes(r.name);
        assert(definition + seq![0xa6u8, code] + binary::values_bytes(r.values) + seq![0x0au8]
            =~= definition + call + Seq::<u8>::empty());
        part_stands(data, p, definition, call, seq![]);
        decode_definition(data, p, code, r.name, before);
        decode_call(data, p + definition.len(), code, r, after);
    } else {
        assert(Seq::<u8>::empty() + seq![0xa6u8, code] + binary::values_bytes(r.values)
            + seq![0x0au8] =~= call);
        decode_call(data, p, code, r, before);
    }
}

/// A request, after those before it.
#[verifier::spinoff_prover]
#[verifier::rlimit(60)]
proof fn decode_request(data: Seq<u8>, p: int, requests: Seq<ast::RequestView>, i: int)
    requires
        0 <= i < requests.len(),
        is_encodable(requests),
        stands(data, p, binary::request_bytes(requests, i)),
    ensures
        binary::decoded_from(data, p, codes_after(requests, i)) == binary::prepend(
            request_canon(requests[i]),
            binary::decoded_from(
                data,
                p + binary::request_bytes(requests, i).len(),
                codes_after(requests, i + 1),
            ),
        ),
{
    let r = requests[i];
    let code = binary::request_code(requests, i);
    codes_grow(requests, i);
    decode_defined(
        data,
        p,
        binary::owner_before(requests, i, code) != Some(r.name),
        code,
        r,
        codes_after(requests, i),
        codes_after(requests, i + 1),
    );
}

/// The first `n` requests.
proof fn decode_requests(data: Seq<u8>, requests: Seq<ast::RequestView>, n: int)
    requires
        0 <= n <= requests.len(),
        is_encodable(requests),
        stands(data, 0, binary::encoded_until(requests, n)),
    ensures
        binary::decoded_from(data, 0, binary::no_definitions()) == binary::prepend(
            canonical(requests.take(n)),
            binary::decoded_from(
                data,
                binary::encoded_until(requests, n).len() as int,
                codes_after(requests, n),
            ),
        ),
    decreases n,
{
    if n == 0 {
        assert(codes_after(requests, 0).requests =~= binary::no_definitions().requests);
        prepend_nothing(binary::decoded_from(data, 0, binary::no_definitions()));
    } else {
        let a = binary::encoded_until(requests, n - 1);
        let b = binary::request_bytes(requests, n - 1);
        assert(a + b + Seq::<u8>::empty() =~= binary::encoded_until(requests, n));
        part_stands(data, 0, a, b, seq![]);
        decode_requests(data, requests, n - 1);
        decode_request(data, a.len() as int, requests, n - 1);
        assert(requests.take(n).drop_last() =~= requests.take(n - 1));
        prepend_twice(
            canonical(requests.take(n - 1)),
            request_canon(requests[n - 1]),
            binary::decoded_from(
                data,
                (a.len() + b.len()) as int,
                codes_after(requests, n),
            ),
        );
    }
}

/// A request stream that was encoded as binary RIB is decoded to its canonical text.
pub proof fn decoding_undoes_encoding(requests: Seq<ast::RequestView>)
    requires
        is_encodable(requests),
    ensures
        binary::decoded(binary::encoded(requests)) == Ok::<Seq<char>, binary::BinaryError>(
            canonical(requests),
        ),
{
    let data = binary::encoded(requests);
    let n = requests.len() as int;
    assert(data.subrange(0, data.len() as int) =~= data);
    decode_requests(data, requests, n);
    assert(requests.take(n) =~= requests);
    assert(canonical(requests) + Seq::<char>::empty() =~= canonical(requests));
}

// ---- text before codes -----------------------------------------------------

/// Whether the bytes of `[from, to)` are text: none of them is a code.
pub open spec fn is_text(data: Seq<u8>, from: int, to: int) -> bool {
    forall|k: int| from <= k < to ==> (#[trigger] data[k]) < 0x80
}

/// A line ends at its first newline.
proof fn line_ends_before(data: Seq<u8>, pos: int, e: int)
    requires
        0 <= pos <= e < data.len(),
        data[e] == 0x0a,
    ensures
        pos <= binary::line_end(data, pos) <= e,
    decreases e - pos,
{
    if data[pos] != 0x0a {
        line_ends_before(data, pos + 1, e);
    }
}

proof fn text_decodes_from(data: Seq<u8>, pos: int, e: int, defs: binary::Definitions)
    requires
        0 <= pos < e <= data.len(),
        data[e - 1] == 0x0a,
        is_text(data, pos, e),
    ensures
        binary::decoded_from(data, pos, defs) == binary::prepend(
            binary::byte_chars(data.subrange(pos, e)),
            binary::decoded_from(data, e, defs),
        ),
    decreases e - pos,
{
    let rest = binary::decoded_from(data, e, defs);
    let all = binary::byte_chars(data.subrange(pos, e));
    let next = if data[pos] == 0x23 {
        line_ends_before(data, pos, e - 1);
        binary::line_end_bounds(data, pos);
        binary::line_end(data, pos)
    } else {
        pos + 1
    };
    let head = binary::byte_chars(data.subrange(pos, next));
    if data[pos] != 0x23 {
        assert(head =~= seq![data[pos] as char]);
    }
    decode_item(data, pos, next, binary::Item::Text(head), head, defs);
    if next < e {
        text_decodes_from(data, next, e, defs);
        let tail = binary::byte_chars(data.subrange(next, e));
        prepend_twice(head, tail, rest);
        assert(head + tail =~= all);
    } else {
        assert(head =~= all);
    }
}

/// Text that ends with a newline, comments in it included, is decoded as it stands, and what
/// follows it as if it were not there.
pub proof fn text_splits_off(data: Seq<u8>, n: int)
    requires
        0 < n <= data.len(),
        data[n - 1] == 0x0a,
        is_text(data, 0, n),
    ensures
        binary::decoded(data) == binary::prepend(
            binary::byte_chars(data.subrange(0, n)),
            binary::decoded_from(data, n, binary::no_definitions()),
        ),
{
    text_decodes_from(data, 0, n, binary::no_definitions());
}

/// Whether both are the same text, or both fail.
pub open spec fn same_outcome(
    a: Result<Seq<char>, binary::BinaryError>,
    b: Result<Seq<char>, binary::BinaryError>,
) -> bool {
    match a {
        Ok(t) => b == Ok::<Seq<char>, binary::BinaryError>(t),
        Err(_) => b is Err,
    }
}

proof fn bytes_behind(p: Seq<u8>, d: Seq<u8>, j: int, k: int)
    requires
        0 <= j <= k <= d.len(),
    ensures
        (p + d).subrange(p.len() + j, p.len() + k) == d.subrange(j, k),
{
    assert((p + d).subrange(p.len() + j, p.len() + k) =~= d.subrange(j, k));
}

proof fn integer_behind(p: Seq<u8>, d: Seq<u8>, pos: int, n: int)
    requires
        0 <= pos,
        0 <= n,
    ensures
        match binary::uint_at(d, pos, n) {
            Ok(v) => binary::uint_at(p + d, p.len() + pos, n) == Ok::<nat, binary::BinaryError>(v)
                && (p + d).subrange(p.len() + pos, p.len() + pos + n) == d.subrange(pos, pos + n),
            Err(_) => binary::uint_at(p + d, p.len() + pos, n) is Err,
        },
{
    if pos + n <= d.len() {
        bytes_behind(p, d, pos, pos + n);
    }
}

proof fn string_behind(p: Seq<u8>, d: Seq<u8>, pos: int)
    requires
        0 <= pos,
    ensures
        match binary::string_at(d, pos) {
            Ok((s, next)) => binary::string_at(p + d, p.len() + pos) == Ok::<
                (Seq<char>, int),
                binary::BinaryError,
            >((s, p.len() + next)),
            Err(_) => binary::string_at(p + d, p.len() + pos) is Err,
        },
{
    if pos < d.len() {
        let code = d[pos];
        assert((p + d)[p.len() + pos] == code);
        if 0xa0 <= code <= 0xa3 {
            integer_behind(p, d, pos + 1, code - 0xa0 + 1);
        }
        if let Ok((len, body)) = binary::string_header_at(d, pos) {
            if body + len <= d.len() {
                bytes_behind(p, d, body, body + len);
            }
        }
    }
}

proof fn line_behind(p: Seq<u8>, d: Seq<u8>, pos: int)
    requires
        0 <= pos <= d.len(),
    ensures
        binary::line_end(p + d, p.len() + pos) == p.len() + binary::line_end(d, pos),
    decreases d.len() - pos,
{
    if pos < d.len() {
        assert((p + d)[p.len() + pos] == d[pos]);
        if d[pos] != 0x0a {
            line_behind(p, d, pos + 1);
        }
    }
}

/// An element of a stream is the same behind other bytes.
#[verifier::spinoff_prover]
proof fn item_behind(p: Seq<u8>, d: Seq<u8>, pos: int)
    requires
        0 <= pos < d.len(),
    ensures
        match binary::item_at(d, pos) {
            Ok((item, next)) => binary::item_at(p + d, p.len() + pos) == Ok::<
                (binary::Item, int),
                binary::BinaryError,
            >((item, p.len() + next)),
            Err(_) => binary::item_at(p + d, p.len() + pos) is Err,
        },
{
    let b = d[pos];
    assert((p + d)[p.len() + pos] == b);
    if b == 0x23 {
        line_behind(p, d, pos);
        binary::line_end_bounds(d, pos);
        bytes_behind(p, d, pos, binary::line_end(d, pos));
    } else if b < 0x80 {
    } else if b <= 0x83 {
        integer_behind(p, d, pos + 1, b - 0x80 + 1);
    } else if b <= 0x8f {
        integer_behind(p, d, pos + 1, (b - 0x84) % 4 + 1 + (b - 0x84) / 4);
    } else if b <= 0xa3 {
        string_behind(p, d, pos);
    } else if b == 0xa4 {
        integer_behind(p, d, pos + 1, 4);
    } else if b == 0xa5 {
        integer_behind(p, d, pos + 1, 8);
    } else if 0xc8 <= b <= 0xcb {
        let n = b - 0xc8 + 1;
        integer_behind(p, d, pos + 1, n);
        string_behind(p, d, pos + 1 + n);
    } else if b == 0xcd || b == 0xce {
        integer_behind(p, d, pos + 1, b - 0xcd + 1);
    } else if pos + 1 < d.len() {
        assert((p + d)[p.len() + pos + 1] == d[pos + 1]);
        string_behind(p, d, pos + 2);
    }
}

proof fn stream_behind(p: Seq<u8>, d: Seq<u8>, pos: int, defs: binary::Definitions)
    requires
        0 <= pos,
    ensures
        same_outcome(
            binary::decoded_from(p + d, p.len() + pos, defs),
            binary::decoded_from(d, pos, defs),
        ),
    decreases d.len() - pos,
{
    if pos < d.len() {
        item_behind(p, d, pos);
        if let Ok((item, next)) = binary::item_at(d, pos) {
            binary::item_advances(d, pos);
            if let Ok(_) = binary::item_text(item, defs) {
                stream_behind(p, d, next, binary::item_defs(item, defs));
            }
        }
    }
}

/// Text that ends with a newline, put before a stream, comes out before what the stream
/// decodes to; where the stream fails alone it fails behind the text too.
pub proof fn text_before_streams(p: Seq<u8>, d: Seq<u8>)
    requires
        p.len() > 0,
        p.last() == 0x0a,
        is_text(p, 0, p.len() as int),
    ensures
        same_outcome(
            binary::decoded(p + d),
            binary::prepend(binary::byte_chars(p), binary::decoded(d)),
        ),
{
    let data = p + d;
    assert forall|k: int| 0 <= k < p.len() implies (#[trigger] data[k]) < 0x80 by {
        assert(data[k] == p[k]);
    }
    text_splits_off(data, p.len() as int);
    assert(data.subrange(0, p.len() as int) =~= p);
    stream_behind(p, d, 0, binary::no_definitions());
}

// ---- parsing what was written ----------------------------------------------

/// The text of a number: in the canonical text, or in the text encoding.
pub open spec fn number_text(canon: bool, n: u64) -> Seq<char> {
    if canon {
        number_canon(n)
    } else {
        binary::double_text(n)
    }
}

/// The texts of numbers.
pub open spec fn number_texts(canon: bool, v: Seq<u64>) -> Seq<Seq<char>> {
    v.map_values(|n: u64| number_text(canon, n))
}

/// Whether a text looks like a number and reads as one, to its end.
pub open spec fn is_readable(t: Seq<char>) -> bool {
    &&& t.len() > 0
    &&& parser::is_digit(t[0]) || t[0] == '-' || t[0] == '+' || t[0] == '.'
    &&& forall|i: int| 0 <= i < t.len() ==> parser::is_number_char(#[trigger] t[i])
    &&& parser::double_reading(t) matches Some((_, n)) && n == t.len()
}

/// The number that a text reads as.
pub open spec fn reading(t: Seq<char>) -> u64 {
    (parser::double_reading(t)->0).0
}

/// Whether a string is written as it is.
pub open spec fn is_plain(s: Seq<char>) -> bool {
    forall|i: int| 0 <= i < s.len() ==> (#[trigger] s[i]) != '"' && s[i] != '\\' && s[i] != '\n'
}

/// Whether a name is an identifier.
pub open spec fn is_identifier(s: Seq<char>) -> bool {
    &&& s.len() > 0
    &&& forall|i: int| 0 <= i < s.len() ==> parser::is_alpha(#[trigger] s[i]) || s[i] == '_'
}

/// Whether a value is written so that it can be read: its numbers as numbers, its strings
/// as they are. An empty array of strings reads as one of numbers.
pub open spec fn is_legible(canon: bool, v: ast::ValueView) -> bool {
    match v {
        ast::ValueView::Number(n) => is_readable(number_text(canon, n)),
        ast::ValueView::Text(s) => is_plain(s),
        ast::ValueView::Numbers(v) => forall|i: int|
            0 <= i < v.len() ==> is_readable(number_text(canon, #[trigger] v[i])),
        ast::ValueView::Texts(v) => v.len() > 0 && forall|i: int|
            0 <= i < v.len() ==> is_plain(#[trigger] v[i]),
    }
}

/// Whether a request is written so that it can be read.
pub open spec fn is_legible_request(canon: bool, r: ast::RequestView) -> bool {
    &&& is_identifier(r.name)
    &&& forall|i: int| 0 <= i < r.values.len() ==> is_legible(canon, #[trigger] r.values[i])
}

/// Whether all requests are.
pub open spec fn are_legible(canon: bool, rs: Seq<ast::RequestView>) -> bool {
    forall|i: int| 0 <= i < rs.len() ==> is_legible_request(canon, #[trigger] rs[i])
}

/// A value with each number as its text reads.
pub open spec fn reread(canon: bool, v: ast::ValueView) -> ast::ValueView {
    match v {
        ast::ValueView::Number(n) => ast::ValueView::Number(reading(number_text(canon, n))),
        ast::ValueView::Numbers(v) => ast::ValueView::Numbers(readings(number_texts(canon, v))),
        _ => v,
    }
}

/// The numbers that texts read as.
pub open spec fn readings(ts: Seq<Seq<char>>) -> Seq<u64> {
    ts.map_values(|t: Seq<char>| reading(t))
}

/// Values with each number as its text reads.
pub open spec fn reread_values(canon: bool, v: Seq<ast::ValueView>) -> Seq<ast::ValueView> {
    v.map_values(|x: ast::ValueView| reread(canon, x))
}

/// A request with each number as its text reads.
pub open spec fn reread_request(canon: bool, r: ast::RequestView) -> ast::RequestView {
    ast::RequestView { name: r.name, values: reread_values(canon, r.values) }
}

/// Requests with each number as its text reads.
pub open spec fn reread_all(canon: bool, rs: Seq<ast::RequestView>) -> Seq<ast::RequestView> {
    rs.map_values(|r: ast::RequestView| reread_request(canon, r))
}

/// The blank before an element of an array.
pub open spec fn lead(canon: bool, i: int) -> Seq<char> {
    if canon || i > 0 {
        seq![' ']
    } else {
        seq![]
    }
}

/// The blank after one.
pub open spec fn trail(canon: bool) -> Seq<char> {
    if canon {
        seq![' ']
    } else {
        seq![]
    }
}

/// The elements of an array from the `i`th on.
pub open spec fn elements(canon: bool, ts: Seq<Seq<char>>, i: int) -> Seq<char>
    decreases ts.len() - i,
{
    if i < 0 || i >= ts.len() {
        seq![]
    } else {
        lead(canon, i) + ts[i] + trail(canon) + elements(canon, ts, i + 1)
    }
}

/// An element more.
proof fn elements_push(canon: bool, ts: Seq<Seq<char>>, t: Seq<char>, i: int)
    requires
        0 <= i <= ts.len(),
    ensures
        elements(canon, ts.push(t), i) == elements(canon, ts, i) + (lead(canon, ts.len() as int) + t
            + trail(canon)),
    decreases ts.len() - i,
{
    let more = ts.push(t);
    if i < ts.len() {
        elements_push(canon, ts, t, i + 1);
        assert(elements(canon, more, i) =~= elements(canon, ts, i) + (lead(
            canon,
            ts.len() as int,
        ) + t + trail(canon)));
    } else {
        assert(elements(canon, more, i + 1) =~= seq![]);
        assert(elements(canon, ts, i) =~= seq![]);
        assert(elements(canon, more, i) =~= lead(canon, i) + t + trail(canon));
    }
}

/// The canonical elements.
proof fn spaced_all_elements(ts: Seq<Seq<char>>)
    ensures
        spaced_all(ts) == elements(true, ts, 0),
    decreases ts.len(),
{
    if ts.len() > 0 {
        let before = ts.drop_last();
        spaced_all_elements(before);
        assert(before.push(ts.last()) =~= ts);
        elements_push(true, before, ts.last(), 0);
    }
}

/// The elements of the text encoding.
proof fn numbers_text_elements(v: Seq<u64>)
    ensures
        binary::numbers_text(v) == elements(false, number_texts(false, v), 0),
    decreases v.len(),
{
    let ts = number_texts(false, v);
    if v.len() > 0 {
        let before = number_texts(false, v.drop_last());
        numbers_text_elements(v.drop_last());
        assert(before.push(ts.last()) =~= ts);
        elements_push(false, before, ts.last(), 0);
        if v.len() == 1 {
            assert(elements(false, before, 0) =~= seq![]);
        }
        assert(binary::numbers_text(v) =~= elements(false, ts, 0));
    }
}

proof fn strings_text_elements(v: Seq<Seq<char>>)
    ensures
        binary::strings_text(v) == elements(false, all_quoted(v), 0),
    decreases v.len(),
{
    let ts = all_quoted(v);
    if v.len() > 0 {
        let before = all_quoted(v.drop_last());
        strings_text_elements(v.drop_last());
        assert(before.push(ts.last()) =~= ts);
        elements_push(false, before, ts.last(), 0);
        if v.len() == 1 {
            assert(elements(false, before, 0) =~= seq![]);
        }
        assert(binary::strings_text(v) =~= elements(false, ts, 0));
    }
}

/// A run of number characters ends where they do.
pub(crate) proof fn run_over(s: Seq<char>, p: int, q: int)
    requires
        0 <= p <= q <= s.len(),
        forall|i: int| p <= i < q ==> parser::is_number_char(#[trigger] s[i]),
        q == s.len() || !parser::is_number_char(s[q]),
    ensures
        parser::run_end(s, p) == q,
    decreases q - p,
{
    if p < q {
        assert(parser::is_number_char(s[p]));
        run_over(s, p + 1, q);
    }
}

/// The number that stands at `p`.
pub(crate) proof fn number_here(s: Seq<char>, p: int, t: Seq<char>)
    requires
        stands(s, p, t),
        is_readable(t),
        p + t.len() == s.len() || !parser::is_number_char(s[p + t.len()]),
    ensures
        parser::number_at(s, p) == Some((reading(t), p + t.len())),
        s[p] == t[0],
{
    assert forall|i: int| p <= i < p + t.len() implies parser::is_number_char(#[trigger] s[i]) by {
        assert(s[i] == s.subrange(p, p + t.len())[i - p]);
        assert(parser::is_number_char(t[i - p]));
    }
    assert(s[p] == s.subrange(p, p + t.len())[0]);
    run_over(s, p, p + t.len());
}

/// The search for a character passes all others.
proof fn find_over(s: Seq<char>, p: int, q: int, c: char)
    requires
        0 <= p <= q < s.len(),
        forall|i: int| p <= i < q ==> (#[trigger] s[i]) != c,
        s[q] == c,
    ensures
        parser::find_char(s, p, c) == q,
    decreases q - p,
{
    if p < q {
        assert(s[p] != c);
        find_over(s, p + 1, q, c);
    }
}

/// A plain string is written as it is.
proof fn plain_is_escaped(s: Seq<char>)
    requires
        is_plain(s),
    ensures
        binary::escaped(s) == s,
    decreases s.len(),
{
    if s.len() > 0 {
        let before = s.drop_last();
        assert forall|i: int| 0 <= i < before.len() implies (#[trigger] before[i]) != '"'
            && before[i] != '\\' && before[i] != '\n' by {
            assert(before[i] == s[i]);
        }
        plain_is_escaped(before);
        assert(s[s.len() - 1] == s.last());
        assert(binary::escaped(s) =~= s);
    }
}

/// The string that stands at `p`.
#[verifier::spinoff_prover]
#[verifier::rlimit(60)]
pub(crate) proof fn string_here(s: Seq<char>, p: int, t: Seq<char>)
    requires
        stands(s, p, binary::quoted(t)),
        is_plain(t),
    ensures
        parser::string_at(s, p) == Some((t, p + binary::quoted(t).len())),
        s[p] == '"',
{
    plain_is_escaped(t);
    let w = binary::quoted(t);
    assert(w =~= seq!['"'] + t + seq!['"']);
    let part = s.subrange(p, p + w.len());
    assert forall|i: int| p <= i < p + w.len() implies #[trigger] s[i] == w[i - p] by {
        assert(s[i] == part[i - p]);
    }
    let q = p + 1 + t.len();
    assert forall|i: int| p + 1 <= i < q implies (#[trigger] s[i]) != '"' by {
        assert(s[i] == w[i - p]);
        assert(w[i - p] == t[i - p - 1]);
    }
    assert(s[q] == w[q - p]);
    assert(s[p] == w[0]);
    find_over(s, p + 1, q, '"');
    assert(s.subrange(p + 1, q) =~= t) by {
        assert forall|i: int| 0 <= i < t.len() implies s[p + 1 + i] == t[i] by {
            assert(s[p + 1 + i] == w[1 + i]);
        }
    }
}

/// Skipping twice is skipping once.
pub(crate) proof fn skip_twice(s: Seq<char>, p: int)
    requires
        0 <= p <= s.len(),
    ensures
        parser::skip_ws(s, parser::skip_ws(s, p)) == parser::skip_ws(s, p),
    decreases s.len() - p,
{
    if p < s.len() && parser::is_blank(s[p]) {
        skip_twice(s, p + 1);
    } else if p < s.len() && s[p] == '#' {
        parser::find_char_bounds(s, p + 1, '\n');
        skip_twice(s, parser::find_char(s, p + 1, '\n'));
    }
}

/// The first character of what stands at a place.
pub(crate) proof fn first_stands(s: Seq<char>, p: int, part: Seq<char>)
    requires
        stands(s, p, part),
        part.len() > 0,
    ensures
        s[p] == part[0],
{
    assert(s[p] == s.subrange(p, p + part.len())[0]);
}

/// The elements of an array from the `i`th on, and its closing bracket.
pub open spec fn elements_end(canon: bool, ts: Seq<Seq<char>>, i: int) -> Seq<char> {
    elements(canon, ts, i) + seq![']']
}

/// What follows the `i`th element is blank or the bracket.
pub(crate) proof fn behind_element(s: Seq<char>, canon: bool, ts: Seq<Seq<char>>, i: int, q: int)
    requires
        0 <= i < ts.len(),
        stands(s, q, elements_end(canon, ts, i)),
    ensures
        ({
            let a = q + lead(canon, i).len();
            let b = a + ts[i].len();
            &&& stands(s, a, ts[i])
            &&& b < s.len()
            &&& s[b] == ' ' || s[b] == ']'
            &&& stands(s, b + trail(canon).len(), elements_end(canon, ts, i + 1))
            &&& lead(canon, i).len() > 0 ==> s[q] == ' '
            &&& trail(canon).len() > 0 ==> s[b] == ' '
        }),
{
    let rest = elements_end(canon, ts, i + 1);
    let all = elements_end(canon, ts, i);
    assert(all =~= lead(canon, i) + ts[i] + (trail(canon) + rest));
    part_stands(s, q, lead(canon, i), ts[i], trail(canon) + rest);
    let b = q + lead(canon, i).len() + ts[i].len();
    first_stands(s, b, trail(canon) + rest);
    assert(trail(canon) + rest + Seq::<char>::empty() =~= trail(canon) + rest);
    part_stands(s, b, trail(canon), rest, seq![]);
    if lead(canon, i).len() > 0 {
        first_stands(s, q, lead(canon, i));
    }
    if !canon && i + 1 < ts.len() {
        assert(rest[0] == ' ');
    }
}

/// The numbers of an array are read to its end.
proof fn numbers_here(
    s: Seq<char>,
    canon: bool,
    ts: Seq<Seq<char>>,
    i: int,
    q: int,
    acc: Seq<u64>,
)
    requires
        0 <= i <= ts.len(),
        forall|k: int| 0 <= k < ts.len() ==> is_readable(#[trigger] ts[k]),
        stands(s, q, elements_end(canon, ts, i)),
        acc == readings(ts.take(i)),
    ensures
        parser::numbers_at(s, q, acc) == Some(
            (readings(ts), q + elements_end(canon, ts, i).len()),
        ),
    decreases ts.len() - i,
{
    if i == ts.len() {
        assert(elements_end(canon, ts, i) =~= seq![']']);
        first_stands(s, q, seq![']']);
        assert(ts.take(i) =~= ts);
        assert(parser::skip_ws(s, q) == q);
    } else {
        behind_element(s, canon, ts, i, q);
        let a = q + lead(canon, i).len();
        let b = a + ts[i].len();
        let e = b + trail(canon).len();
        number_here(s, a, ts[i]);
        assert(parser::skip_ws(s, a) == a);
        assert(parser::skip_ws(s, q) == a);
        let next = acc.push(reading(ts[i]));
        assert(next =~= readings(ts.take(i + 1)));
        numbers_here(s, canon, ts, i + 1, e, next);
        assert(parser::numbers_at(s, b, next) == parser::numbers_at(s, e, next)) by {
            if canon {
                assert(parser::skip_ws(s, b) == parser::skip_ws(s, e));
            }
        }
        assert(parser::numbers_at(s, q, acc) == parser::numbers_at(s, b, next));
    }
}

/// The strings of an array are read to its end.
proof fn strings_here(
    s: Seq<char>,
    canon: bool,
    v: Seq<Seq<char>>,
    i: int,
    q: int,
    acc: Seq<Seq<char>>,
)
    requires
        0 <= i <= v.len(),
        forall|k: int| 0 <= k < v.len() ==> is_plain(#[trigger] v[k]),
        stands(s, q, elements_end(canon, all_quoted(v), i)),
        acc == v.take(i),
    ensures
        parser::strings_at(s, q, acc) == Some(
            (v, q + elements_end(canon, all_quoted(v), i).len()),
        ),
    decreases v.len() - i,
{
    let ts = all_quoted(v);
    if i == v.len() {
        assert(elements_end(canon, ts, i) =~= seq![']']);
        first_stands(s, q, seq![']']);
        assert(v.take(i) =~= v);
        assert(parser::skip_ws(s, q) == q);
    } else {
        behind_element(s, canon, ts, i, q);
        let a = q + lead(canon, i).len();
        let b = a + ts[i].len();
        let e = b + trail(canon).len();
        string_here(s, a, v[i]);
        assert(parser::skip_ws(s, a) == a);
        assert(parser::skip_ws(s, q) == a);
        let next = acc.push(v[i]);
        assert(next =~= v.take(i + 1));
        strings_here(s, canon, v, i + 1, e, next);
        assert(parser::strings_at(s, b, next) == parser::strings_at(s, e, next)) by {
            if canon {
                assert(parser::skip_ws(s, b) == parser::skip_ws(s, e));
            }
        }
        assert(parser::strings_at(s, q, acc) == parser::strings_at(s, b, next));
    }
}

/// A value without the blanks around it.
pub open spec fn core_text(canon: bool, v: ast::ValueView) -> Seq<char> {
    match v {
        ast::ValueView::Number(n) => number_text(canon, n),
        ast::ValueView::Text(s) => binary::quoted(s),
        ast::ValueView::Numbers(v) => seq!['['] + elements(canon, number_texts(canon, v), 0)
            + seq![']'],
        ast::ValueView::Texts(v) => seq!['['] + elements(canon, all_quoted(v), 0) + seq![']'],
    }
}

/// The blank before a value.
pub open spec fn value_lead(canon: bool, v: ast::ValueView) -> Seq<char> {
    if canon && (v is Numbers || v is Texts) {
        seq![]
    } else {
        seq![' ']
    }
}

/// The blank after one.
pub open spec fn value_trail(canon: bool, v: ast::ValueView) -> Seq<char> {
    if canon && (v is Number || v is Text) {
        seq![' ']
    } else {
        seq![]
    }
}

/// The value that stands at `p`.
pub(crate) proof fn value_here(s: Seq<char>, canon: bool, p: int, v: ast::ValueView)
    requires
        stands(s, p, core_text(canon, v)),
        is_legible(canon, v),
        p + core_text(canon, v).len() == s.len() || !parser::is_number_char(
            s[p + core_text(canon, v).len()],
        ),
    ensures
        parser::value_at(s, p) == Some((reread(canon, v), p + core_text(canon, v).len())),
        p < s.len(),
        parser::skip_ws(s, p) == p,
{
    match v {
        ast::ValueView::Number(n) => {
            number_here(s, p, number_text(canon, n));
        },
        ast::ValueView::Text(t) => {
            string_here(s, p, t);
        },
        ast::ValueView::Numbers(w) => {
            let ts = number_texts(canon, w);
            let body = elements_end(canon, ts, 0);
            assert(core_text(canon, v) =~= seq!['['] + body + Seq::<char>::empty());
            part_stands(s, p, seq!['['], body, seq![]);
            first_stands(s, p, seq!['[']);
            assert forall|k: int| 0 <= k < ts.len() implies is_readable(#[trigger] ts[k]) by {
                assert(is_readable(number_text(canon, w[k])));
            }
            let q = p + 1;
            assert(readings(ts.take(0)) =~= seq![]);
            numbers_here(s, canon, ts, 0, q, seq![]);
            parser::skip_ws_bounds(s, q);
            skip_twice(s, q);
            let z = parser::skip_ws(s, q);
            assert(parser::numbers_at(s, z, seq![]) == parser::numbers_at(s, q, seq![]));
            assert(!parser::holds_at(s, z, '"')) by {
                if ts.len() == 0 {
                    first_stands(s, q, body);
                } else {
                    behind_element(s, canon, ts, 0, q);
                    first_stands(s, q + lead(canon, 0).len(), ts[0]);
                    assert(is_readable(ts[0]));
                }
            }
        },
        ast::ValueView::Texts(w) => {
            let ts = all_quoted(w);
            let body = elements_end(canon, ts, 0);
            assert(core_text(canon, v) =~= seq!['['] + body + Seq::<char>::empty());
            part_stands(s, p, seq!['['], body, seq![]);
            first_stands(s, p, seq!['[']);
            let q = p + 1;
            assert(w.take(0) =~= seq![]);
            strings_here(s, canon, w, 0, q, seq![]);
            parser::skip_ws_bounds(s, q);
            skip_twice(s, q);
            let z = parser::skip_ws(s, q);
            assert(parser::strings_at(s, z, seq![]) == parser::strings_at(s, q, seq![]));
            assert(parser::holds_at(s, z, '"')) by {
                behind_element(s, canon, ts, 0, q);
                first_stands(s, q + lead(canon, 0).len(), ts[0]);
                assert(ts[0] == binary::quoted(w[0]));
            }
        },
    }
}

/// The values of a request from the `i`th on, and its newline.
pub open spec fn values_end(canon: bool, v: Seq<ast::ValueView>, i: int) -> Seq<char>
    decreases v.len() - i,
{
    if i < 0 || i >= v.len() {
        seq!['\n']
    } else {
        value_lead(canon, v[i]) + core_text(canon, v[i]) + (value_trail(canon, v[i]) + values_end(
            canon,
            v,
            i + 1,
        ))
    }
}

/// What follows a value is no part of a number.
#[verifier::spinoff_prover]
#[verifier::rlimit(40)]
pub(crate) proof fn values_end_start(canon: bool, v: Seq<ast::ValueView>, i: int)
    requires
        0 <= i <= v.len(),
    ensures
        values_end(canon, v, i).len() > 0,
        !parser::is_number_char(values_end(canon, v, i)[0]),
{
    if i < v.len() {
        assert(value_lead(canon, v[i]).len() == 0 ==> core_text(canon, v[i])[0] == '[');
    }
}

/// The values of a request are read to their end, and then what is no value is found.
pub(crate) proof fn values_here(
    s: Seq<char>,
    canon: bool,
    v: Seq<ast::ValueView>,
    i: int,
    q: int,
    acc: Seq<ast::ValueView>,
    z: int,
)
    requires
        0 <= i <= v.len(),
        forall|k: int| 0 <= k < v.len() ==> is_legible(canon, #[trigger] v[k]),
        stands(s, q, values_end(canon, v, i)),
        acc == reread_values(canon, v.take(i)),
        parser::skip_ws(s, q + values_end(canon, v, i).len()) == z,
        z == s.len() || parser::is_alpha(s[z]) || s[z] == '_',
        z >= 0,
    ensures
        parser::values_at(s, q, acc) == (reread_values(canon, v), z),
    decreases v.len() - i,
{
    if i == v.len() {
        first_stands(s, q, seq!['\n']);
        assert(parser::skip_ws(s, q) == parser::skip_ws(s, q + 1));
        assert(v.take(i) =~= v);
        assert(parser::value_at(s, z) is None);
    } else {
        let x = v[i];
        let rest = values_end(canon, v, i + 1);
        let core = core_text(canon, x);
        let l = value_lead(canon, x);
        let t = value_trail(canon, x);
        part_stands(s, q, l, core, t + rest);
        let a = q + l.len();
        let b = a + core.len();
        let e = b + t.len();
        values_end_start(canon, v, i + 1);
        first_stands(s, b, t + rest);
        assert(t + rest + Seq::<char>::empty() =~= t + rest);
        part_stands(s, b, t, rest, seq![]);
        value_here(s, canon, a, x);
        if l.len() > 0 {
            first_stands(s, q, l);
        }
        assert(parser::skip_ws(s, q) == a);
        let next = acc.push(reread(canon, x));
        assert(next =~= reread_values(canon, v.take(i + 1)));
        values_here(s, canon, v, i + 1, e, next, z);
        if t.len() > 0 {
            first_stands(s, b, t);
            assert(parser::skip_ws(s, b) == parser::skip_ws(s, e));
        }
        assert(parser::values_at(s, b, next) == parser::values_at(s, e, next));
        assert(parser::values_at(s, q, acc) == parser::values_at(s, b, next));
    }
}

/// What stands before the name of a request.
pub open spec fn name_lead(canon: bool) -> Seq<char> {
    if canon {
        seq!['\n']
    } else {
        seq![]
    }
}

/// Requests from the `i`th on.
pub open spec fn requests_from(canon: bool, rs: Seq<ast::RequestView>, i: int) -> Seq<char>
    decreases rs.len() - i,
{
    if i < 0 || i >= rs.len() {
        seq![]
    } else {
        name_lead(canon) + rs[i].name + (trail(canon) + values_end(canon, rs[i].values, 0)
            + requests_from(canon, rs, i + 1))
    }
}

/// An identifier ends where its characters do.
pub(crate) proof fn identifier_over(s: Seq<char>, p: int, q: int)
    requires
        0 <= p <= q < s.len(),
        forall|i: int| p <= i < q ==> parser::is_alpha(#[trigger] s[i]) || s[i] == '_',
        !parser::is_alpha(s[q]) && s[q] != '_',
    ensures
        parser::identifier_end(s, p) == q,
    decreases q - p,
{
    if p < q {
        assert(parser::is_alpha(s[p]) || s[p] == '_');
        identifier_over(s, p + 1, q);
    }
}

/// Where requests stand, skipping leads to the name of the first, or to the end.
pub(crate) proof fn skip_to_name(s: Seq<char>, canon: bool, rs: Seq<ast::RequestView>, i: int, p: int)
    requires
        0 <= i <= rs.len(),
        forall|k: int| 0 <= k < rs.len() ==> is_identifier((#[trigger] rs[k]).name),
        stands(s, p, requests_from(canon, rs, i)),
        p + requests_from(canon, rs, i).len() == s.len(),
    ensures
        i < rs.len() ==> {
            &&& parser::skip_ws(s, p) == p + name_lead(canon).len()
            &&& p + name_lead(canon).len() < s.len()
            &&& parser::is_alpha(s[p + name_lead(canon).len()]) || s[p + name_lead(canon).len()]
                == '_'
        },
        i == rs.len() ==> parser::skip_ws(s, p) == s.len(),
{
    if i < rs.len() {
        let name = rs[i].name;
        let tail = trail(canon) + values_end(canon, rs[i].values, 0) + requests_from(
            canon,
            rs,
            i + 1,
        );
        part_stands(s, p, name_lead(canon), name, tail);
        if canon {
            first_stands(s, p, name_lead(canon));
        }
        let a = p + name_lead(canon).len();
        first_stands(s, a, name);
        assert(parser::is_alpha(name[0]) || name[0] == '_');
        assert(parser::skip_ws(s, a) == a);
    }
}

/// Requests are read one after the other, to the end of the text.
proof fn requests_here(
    s: Seq<char>,
    canon: bool,
    rs: Seq<ast::RequestView>,
    i: int,
    p: int,
    acc: Seq<ast::RequestView>,
)
    requires
        0 <= i <= rs.len(),
        are_legible(canon, rs),
        stands(s, p, requests_from(canon, rs, i)),
        p + requests_from(canon, rs, i).len() == s.len(),
        acc == reread_all(canon, rs.take(i)),
    ensures
        parser::requests_at(s, p, acc) == (reread_all(canon, rs), s.len() as int),
    decreases rs.len() - i,
{
    assert forall|k: int| 0 <= k < rs.len() implies is_identifier((#[trigger] rs[k]).name) by {
        assert(is_legible_request(canon, rs[k]));
    }
    skip_to_name(s, canon, rs, i, p);
    if i == rs.len() {
        assert(rs.take(i) =~= rs);
        assert(parser::request_at(s, p) is None);
    } else {
        let r = rs[i];
        assert(is_legible_request(canon, r));
        let body = values_end(canon, r.values, 0);
        let rest = requests_from(canon, rs, i + 1);
        let l = name_lead(canon);
        let t = trail(canon);
        part_stands(s, p, l, r.name, t + body + rest);
        let a = p + l.len();
        let b = a + r.name.len();
        part_stands(s, b, t, body, rest);
        let q = b + t.len();
        let e = q + body.len();
        values_end_start(canon, r.values, 0);
        first_stands(s, q, body);
        first_stands(s, b, t + body + rest);
        assert forall|k: int| a <= k < b implies parser::is_alpha(#[trigger] s[k]) || s[k]
            == '_' by {
            assert(s[k] == s.subrange(a, a + r.name.len())[k - a]);
            assert(parser::is_alpha(r.name[k - a]) || r.name[k - a] == '_');
        }
        assert(!parser::is_alpha(s[b]) && s[b] != '_') by {
            values_end_not_underscore(canon, r.values);
        }
        identifier_over(s, a, b);
        assert(s.subrange(a, b) =~= r.name);
        skip_to_name(s, canon, rs, i + 1, e);
        let z = parser::skip_ws(s, e);
        assert(r.values.take(0) =~= seq![]);
        assert(reread_values(canon, seq![]) =~= seq![]);
        values_here(s, canon, r.values, 0, q, seq![], z);
        if t.len() > 0 {
            first_stands(s, b, t);
            assert(parser::skip_ws(s, b) == parser::skip_ws(s, q));
        }
        assert(parser::values_at(s, b, seq![]) == parser::values_at(s, q, seq![]));
        let read = reread_request(canon, r);
        assert(parser::request_at(s, p) == Some((read, z)));
        let next = acc.push(read);
        assert(next =~= reread_all(canon, rs.take(i + 1)));
        requests_here(s, canon, rs, i + 1, e, next);
        parser::skip_ws_bounds(s, e);
        skip_twice(s, e);
        assert(parser::requests_at(s, z, next) == parser::requests_at(s, e, next));
    }
}

/// What follows a name is no part of it.
proof fn values_end_not_underscore(canon: bool, v: Seq<ast::ValueView>)
    ensures
        values_end(canon, v, 0).len() > 0,
        values_end(canon, v, 0)[0] != '_',
        !parser::is_alpha(values_end(canon, v, 0)[0]),
{
    values_end_start(canon, v, 0);
    if v.len() > 0 {
        assert(value_lead(canon, v[0]).len() == 0 ==> core_text(canon, v[0])[0] == '[');
    }
}

// ---- the layouts are those that are written --------------------------------

/// What is put in place of the last character of the last of three parts.
proof fn last_replaced(a: Seq<char>, b: Seq<char>, c: Seq<char>, e: Seq<char>, x: Seq<char>)
    requires
        e.len() > 0,
    ensures
        (a + b + (c + e)).drop_last() + x == a + b + (c + (e.drop_last() + x)),
        (a + b + (c + e)).len() > 0,
        (a + b + (c + e)).last() == e.last(),
{
    assert((a + b + (c + e)).drop_last() + x =~= a + b + (c + (e.drop_last() + x)));
}

/// A value with the blanks around it, and a newline.
spec fn last_value(canon: bool, x: ast::ValueView) -> Seq<char> {
    value_lead(canon, x) + core_text(canon, x) + (value_trail(canon, x) + seq!['\n'])
}

proof fn values_end_push(canon: bool, v: Seq<ast::ValueView>, x: ast::ValueView, i: int)
    requires
        0 <= i <= v.len(),
    ensures
        values_end(canon, v, i).len() > 0,
        values_end(canon, v, i).last() == '\n',
        values_end(canon, v.push(x), i) == values_end(canon, v, i).drop_last() + last_value(
            canon,
            x,
        ),
    decreases v.len() - i,
{
    let more = v.push(x);
    if i < v.len() {
        values_end_push(canon, v, x, i + 1);
        assert(more[i] == v[i]);
        last_replaced(
            value_lead(canon, v[i]),
            core_text(canon, v[i]),
            value_trail(canon, v[i]),
            values_end(canon, v, i + 1),
            last_value(canon, x),
        );
    } else {
        assert(more[i] == x);
        assert(values_end(canon, more, i + 1) == seq!['\n']);
        assert(values_end(canon, v, i) == seq!['\n']);
        let end: Seq<char> = seq!['\n'];
        assert(end.drop_last() + last_value(canon, x) =~= last_value(canon, x));
    }
}

proof fn canonical_values(v: Seq<ast::ValueView>)
    ensures
        values_canon(v) + seq!['\n'] == values_end(true, v, 0),
    decreases v.len(),
{
    if v.len() == 0 {
        assert(values_canon(v) + seq!['\n'] =~= seq!['\n']);
    } else {
        let before = v.drop_last();
        let x = v.last();
        canonical_values(before);
        assert(before.push(x) =~= v);
        values_end_push(true, before, x, 0);
        assert(values_end(true, before, 0).drop_last() =~= values_canon(before));
        assert(value_canon(x) =~= value_lead(true, x) + core_text(true, x) + value_trail(true, x)) by {
            match x {
                ast::ValueView::Numbers(w) => {
                    assert(number_canons(w) =~= number_texts(true, w));
                    spaced_all_elements(number_canons(w));
                },
                ast::ValueView::Texts(w) => {
                    spaced_all_elements(all_quoted(w));
                },
                _ => {},
            }
        }
        let end: Seq<char> = seq!['\n'];
        assert(value_canon(x) + end =~= last_value(true, x));
        assert(values_canon(v) + end =~= values_canon(before) + (value_canon(x) + end));
    }
}

proof fn written_values(v: Seq<ast::ValueView>)
    ensures
        binary::values_text(v) + seq!['\n'] == values_end(false, v, 0),
    decreases v.len(),
{
    if v.len() == 0 {
        assert(binary::values_text(v) + seq!['\n'] =~= seq!['\n']);
    } else {
        let before = v.drop_last();
        let x = v.last();
        written_values(before);
        assert(before.push(x) =~= v);
        values_end_push(false, before, x, 0);
        assert(values_end(false, before, 0).drop_last() =~= binary::values_text(before));
        assert(binary::value_text(x) =~= core_text(false, x)) by {
            match x {
                ast::ValueView::Numbers(w) => {
                    numbers_text_elements(w);
                },
                ast::ValueView::Texts(w) => {
                    strings_text_elements(w);
                },
                _ => {},
            }
        }
        let end: Seq<char> = seq!['\n'];
        assert(seq![' '] + binary::value_text(x) + end =~= last_value(false, x));
        assert(binary::values_text(v) + end =~= binary::values_text(before) + (seq![' ']
            + binary::value_text(x) + end));
    }
}

proof fn requests_from_push(
    canon: bool,
    rs: Seq<ast::RequestView>,
    r: ast::RequestView,
    i: int,
)
    requires
        0 <= i <= rs.len(),
    ensures
        requests_from(canon, rs.push(r), i) == requests_from(canon, rs, i) + (name_lead(canon)
            + r.name + trail(canon) + values_end(canon, r.values, 0)),
    decreases rs.len() - i,
{
    let more = rs.push(r);
    if i < rs.len() {
        requests_from_push(canon, rs, r, i + 1);
        assert(more[i] == rs[i]);
        assert(requests_from(canon, more, i) =~= requests_from(canon, rs, i) + (name_lead(canon)
            + r.name + trail(canon) + values_end(canon, r.values, 0)));
    } else {
        assert(requests_from(canon, more, i + 1) =~= seq![]);
        assert(requests_from(canon, rs, i) =~= seq![]);
        assert(requests_from(canon, more, i) =~= name_lead(canon) + r.name + trail(canon)
            + values_end(canon, r.values, 0));
    }
}

pub(crate) proof fn canonical_requests(rs: Seq<ast::RequestView>)
    ensures
        canonical(rs) == requests_from(true, rs, 0),
    decreases rs.len(),
{
    if rs.len() > 0 {
        let before = rs.drop_last();
        canonical_requests(before);
        assert(before.push(rs.last()) =~= rs);
        requests_from_push(true, before, rs.last(), 0);
        canonical_values(rs.last().values);
        assert(request_canon(rs.last()) =~= name_lead(true) + rs.last().name + trail(true)
            + values_end(true, rs.last().values, 0));
    }
}

proof fn written_requests(rs: Seq<ast::RequestView>)
    ensures
        binary::requests_text(rs) == requests_from(false, rs, 0),
    decreases rs.len(),
{
    if rs.len() > 0 {
        let before = rs.drop_last();
        written_requests(before);
        assert(before.push(rs.last()) =~= rs);
        requests_from_push(false, before, rs.last(), 0);
        written_values(rs.last().values);
        assert(binary::request_text(rs.last()) =~= name_lead(false) + rs.last().name + trail(false)
            + values_end(false, rs.last().values, 0));
    }
}

/// What is laid out so is read so.
proof fn parse_layout(canon: bool, rs: Seq<ast::RequestView>)
    requires
        are_legible(canon, rs),
    ensures
        parser::parsed(requests_from(canon, rs, 0)) == Ok::<Seq<ast::RequestView>, Seq<char>>(
            reread_all(canon, rs),
        ),
{
    let s = requests_from(canon, rs, 0);
    assert(s.subrange(0, s.len() as int) =~= s);
    assert(reread_all(canon, rs.take(0)) =~= seq![]);
    requests_here(s, canon, rs, 0, 0, seq![]);
    assert(s.subrange(s.len() as int, s.len() as int) =~= seq![]);
}

/// A request stream that was written as text is parsed as that stream, with each number
/// as its text reads.
pub proof fn parsing_undoes_writing(requests: Seq<ast::RequestView>)
    requires
        are_legible(false, requests),
    ensures
        parser::parsed(binary::requests_text(requests)) == Ok::<
            Seq<ast::RequestView>,
            Seq<char>,
        >(reread_all(false, requests)),
{
    written_requests(requests);
    parse_layout(false, requests);
}

/// A request stream that was encoded as binary RIB is parsed as that stream, with each
/// number as its text reads: an integer by its digits, any other number in single
/// precision.
pub proof fn parsing_undoes_encoding(requests: Seq<ast::RequestView>)
    requires
        is_encodable(requests),
        are_legible(true, requests),
    ensures
        crate::parser::parsed_bytes(binary::encoded(requests)) == Ok::<
            Seq<ast::RequestView>,
            crate::parser::RibErrorView,
        >(reread_all(true, requests)),
{
    decoding_undoes_encoding(requests);
    canonical_requests(requests);
    parse_layout(true, requests);
    let data = binary::encoded(requests);
    if requests.len() > 0 {
        codes_are_there(requests);
    } else {
        assert(data =~= seq![]);
        assert(decode_utf8(data) =~= seq![]);
        assert(canonical(requests) =~= seq![]);
    }
}

/// A stream that is not empty holds codes.
pub(crate) proof fn codes_are_there(requests: Seq<ast::RequestView>)
    requires
        requests.len() > 0,
    ensures
        binary::has_codes(binary::encoded(requests)),
{
    let data = binary::encoded(requests);
    first_byte(requests, requests.len() as int);
    assert(data[0] >= 0x80 && !binary::in_comment(data, 0));
}

/// The first byte of a stream defines a request.
proof fn first_byte(requests: Seq<ast::RequestView>, n: int)
    requires
        1 <= n,
    ensures
        binary::encoded_until(requests, n).len() > 0,
        binary::encoded_until(requests, n)[0] == 0xcc,
    decreases n,
{
    let before = binary::encoded_until(requests, n - 1);
    if n > 1 {
        first_byte(requests, n - 1);
    } else {
        assert(before =~= seq![]);
    }
}

} // verus!
