//! Generalized RIB request model.
//!
//! A RIB file is a flat sequence of requests: an identifier followed by values
//! (numbers, strings, and bracketed arrays of either). Which values are
//! positional arguments and which form the trailing token/value parameter list
//! is decided per request, when the scene is built. This keeps the parser
//! total: any syntactically valid RIB parses, whether or not the renderer
//! implements the request.
//!
//! Numbers are double-precision and are held by their bits.

use crate::text;
use vstd::prelude::*;
use vstd::string::*;

verus! {

/// std's `slice::from_ref`: the slice that holds just this value.
pub assume_specification<T>[ std::slice::from_ref::<T> ](s: &T) -> (r: &[T])
    ensures
        r@ == seq![*s],
;

/// A value in a RIB stream.
#[derive(Debug, Clone, PartialEq)]
pub enum RibValue {
    Number(u64),
    String(String),
    Numbers(Vec<u64>),
    Strings(Vec<String>),
}

/// What a value is, with strings as sequences of characters.
pub enum ValueView {
    Number(u64),
    Text(Seq<char>),
    Numbers(Seq<u64>),
    Texts(Seq<Seq<char>>),
}

/// The characters of each string.
pub open spec fn string_views(v: Seq<String>) -> Seq<Seq<char>> {
    v.map_values(|s: String| s@)
}

impl View for RibValue {
    type V = ValueView;

    open spec fn view(&self) -> ValueView {
        match *self {
            RibValue::Number(n) => ValueView::Number(n),
            RibValue::String(s) => ValueView::Text(s@),
            RibValue::Numbers(v) => ValueView::Numbers(v@),
            RibValue::Strings(v) => ValueView::Texts(string_views(v@)),
        }
    }
}

impl ValueView {
    /// As one number: a one-element array is accepted where a scalar is expected.
    pub open spec fn number(self) -> Option<u64> {
        match self {
            ValueView::Number(n) => Some(n),
            ValueView::Numbers(v) => if v.len() == 1 {
                Some(v[0])
            } else {
                None
            },
            _ => None,
        }
    }

    /// As one string: a one-element array is accepted where a scalar is expected.
    pub open spec fn text(self) -> Option<Seq<char>> {
        match self {
            ValueView::Text(s) => Some(s),
            ValueView::Texts(v) => if v.len() == 1 {
                Some(v[0])
            } else {
                None
            },
            _ => None,
        }
    }

    /// As an array of numbers: a scalar is an array of one.
    pub open spec fn numbers(self) -> Option<Seq<u64>> {
        match self {
            ValueView::Numbers(v) => Some(v),
            ValueView::Number(n) => Some(seq![n]),
            _ => None,
        }
    }
}

/// The characters of an optional string.
pub open spec fn opt_text(s: Option<&str>) -> Option<Seq<char>> {
    match s {
        Some(s) => Some(s@),
        None => None,
    }
}

/// The elements of an optional slice.
pub open spec fn opt_numbers(s: Option<&[u64]>) -> Option<Seq<u64>> {
    match s {
        Some(s) => Some(s@),
        None => None,
    }
}

impl RibValue {
    pub fn as_number(&self) -> (r: Option<u64>)
        ensures
            r == self@.number(),
    {
        match self {
            RibValue::Number(n) => Some(*n),
            RibValue::Numbers(v) => if v.len() == 1 {
                Some(v[0])
            } else {
                None
            },
            _ => None,
        }
    }

    pub fn as_str(&self) -> (r: Option<&str>)
        ensures
            opt_text(r) == self@.text(),
    {
        match self {
            RibValue::String(s) => Some(s.as_str()),
            RibValue::Strings(v) => if v.len() == 1 {
                Some(v[0].as_str())
            } else {
                None
            },
            _ => None,
        }
    }

    pub fn as_numbers(&self) -> (r: Option<&[u64]>)
        ensures
            opt_numbers(r) == self@.numbers(),
    {
        match self {
            RibValue::Numbers(v) => Some(v.as_slice()),
            RibValue::Number(n) => Some(std::slice::from_ref(n)),
            _ => None,
        }
    }
}

/// A request: its name and the values that follow it.
#[derive(Debug, Clone)]
pub struct RibRequest {
    pub name: String,
    pub values: Vec<RibValue>,
}

/// What a request is, with strings as sequences of characters.
pub struct RequestView {
    pub name: Seq<char>,
    pub values: Seq<ValueView>,
}

/// What each value is.
pub open spec fn value_views(v: Seq<RibValue>) -> Seq<ValueView> {
    v.map_values(|x: RibValue| x@)
}

/// What each request is.
pub open spec fn request_views(v: Seq<RibRequest>) -> Seq<RequestView> {
    v.map_values(|x: RibRequest| x@)
}

impl View for RibRequest {
    type V = RequestView;

    open spec fn view(&self) -> RequestView {
        RequestView { name: self.name@, values: value_views(self.values@) }
    }
}

/// The token/value pairs of `values` from index `start` on: they end at the
/// first index that holds no string, or no value after it.
pub open spec fn pairs_from(values: Seq<ValueView>, start: int) -> Seq<(Seq<char>, ValueView)>
    decreases values.len() - start,
{
    if 0 <= start && start + 1 < values.len() && values[start].text() is Some {
        seq![(values[start].text()->Some_0, values[start + 1])] + pairs_from(values, start + 2)
    } else {
        seq![]
    }
}

/// The parameter of that name as one number.
pub open spec fn number_param(pairs: Seq<(Seq<char>, ValueView)>, name: Seq<char>) -> Option<u64> {
    match find_param(pairs, name) {
        Some(v) => v.number(),
        None => None,
    }
}

/// The parameter of that name as an array of numbers.
pub open spec fn numbers_param(pairs: Seq<(Seq<char>, ValueView)>, name: Seq<char>) -> Option<
    Seq<u64>,
> {
    match find_param(pairs, name) {
        Some(v) => v.numbers(),
        None => None,
    }
}

/// The parameter of that name as one string.
pub open spec fn text_param(pairs: Seq<(Seq<char>, ValueView)>, name: Seq<char>) -> Option<
    Seq<char>,
> {
    match find_param(pairs, name) {
        Some(v) => v.text(),
        None => None,
    }
}

impl RequestView {
    /// The token/value pairs from value index `start` on.
    pub open spec fn params(self, start: int) -> Seq<(Seq<char>, ValueView)> {
        pairs_from(self.values, start)
    }

    /// The value at index `i` as an array of numbers.
    pub open spec fn numbers(self, i: int) -> Option<Seq<u64>> {
        if 0 <= i < self.values.len() {
            self.values[i].numbers()
        } else {
            None
        }
    }

    /// The value at index `i` as one number.
    pub open spec fn number(self, i: int) -> Option<u64> {
        if 0 <= i < self.values.len() {
            self.values[i].number()
        } else {
            None
        }
    }

    /// The value at index `i` as one string.
    pub open spec fn text(self, i: int) -> Option<Seq<char>> {
        if 0 <= i < self.values.len() {
            self.values[i].text()
        } else {
            None
        }
    }
}

/// A request's token/value parameter list.
pub struct ParamList<'a> {
    pairs: Vec<(&'a str, &'a RibValue)>,
}

impl<'a> View for ParamList<'a> {
    type V = Seq<(Seq<char>, ValueView)>;

    closed spec fn view(&self) -> Seq<(Seq<char>, ValueView)> {
        self.pairs@.map_values(|p: (&'a str, &'a RibValue)| (p.0@, (*p.1)@))
    }
}

/// `token` with the white space at its end taken off.
pub open spec fn trim_end(token: Seq<char>) -> Seq<char>
    decreases token.len(),
{
    if token.len() > 0 && text::is_white(token.last()) {
        trim_end(token.drop_last())
    } else {
        token
    }
}

/// The characters at the end of `token` that are not white space.
pub open spec fn tail_word(token: Seq<char>) -> Seq<char>
    decreases token.len(),
{
    if token.len() > 0 && !text::is_white(token.last()) {
        tail_word(token.drop_last()).push(token.last())
    } else {
        seq![]
    }
}

/// The name that a token gives: its last word. An inline declaration may stand
/// before it ("uniform float roughness" names "roughness").
pub open spec fn token_name(token: Seq<char>) -> Seq<char> {
    tail_word(trim_end(token))
}

/// The words of a token, separated by white space.
pub open spec fn words(token: Seq<char>) -> Seq<Seq<char>>
    decreases token.len(),
{
    proof {
        trim_end_is_prefix(token);
        tail_word_bounds(trim_end(token));
    }
    let t = trim_end(token);
    if t.len() == 0 {
        seq![]
    } else {
        words(t.subrange(0, t.len() - tail_word(t).len())).push(tail_word(t))
    }
}

/// A word that ends a text is no longer than it, and there is one where the text
/// does not end in white space.
pub proof fn tail_word_bounds(t: Seq<char>)
    ensures
        tail_word(t).len() <= t.len(),
        t.len() > 0 && !text::is_white(t.last()) ==> tail_word(t).len() > 0,
        tail_word(t) == t.subrange(t.len() - tail_word(t).len(), t.len() as int),
    decreases t.len(),
{
    if t.len() > 0 && !text::is_white(t.last()) {
        tail_word_bounds(t.drop_last());
        let n = tail_word(t.drop_last()).len();
        assert(tail_word(t) =~= t.subrange(t.len() - n - 1, t.len() as int));
    } else {
        assert(t.subrange(t.len() as int, t.len() as int) =~= seq![]);
    }
}

/// The first parameter of that name in a list.
pub open spec fn find_param(pairs: Seq<(Seq<char>, ValueView)>, name: Seq<char>) -> Option<ValueView>
    decreases pairs.len(),
{
    if pairs.len() == 0 {
        None
    } else if name.len() > 0 && token_name(pairs[0].0) == name {
        Some(pairs[0].1)
    } else {
        find_param(pairs.drop_first(), name)
    }
}

/// Taking white space off the end leaves the start as it is.
pub proof fn trim_end_is_prefix(token: Seq<char>)
    ensures
        trim_end(token).len() <= token.len(),
        trim_end(token) == token.subrange(0, trim_end(token).len() as int),
        trim_end(token).len() > 0 ==> !text::is_white(trim_end(token).last()),
    decreases token.len(),
{
    if token.len() > 0 && text::is_white(token.last()) {
        trim_end_is_prefix(token.drop_last());
        let n = trim_end(token).len() as int;
        assert(token.drop_last().subrange(0, n) =~= token.subrange(0, n));
    } else {
        assert(token.subrange(0, token.len() as int) =~= token);
    }
}

/// The last word of `token`.
pub fn last_word(token: &str) -> (r: String)
    ensures
        r@ == token_name(token@),
{
    let chars: Vec<char> = text::chars_of(token);
    let mut end: usize = chars.len();
    assert(chars@.subrange(0, end as int) =~= token@);
    while end > 0 && text::white(chars[end - 1])
        invariant
            chars@ == token@,
            end <= chars@.len(),
            trim_end(token@) == trim_end(chars@.subrange(0, end as int)),
        decreases end,
    {
        assert(chars@.subrange(0, end as int).drop_last() =~= chars@.subrange(0, end - 1));
        end -= 1;
    }
    let ghost trimmed = chars@.subrange(0, end as int);
    assert(trim_end(token@) == trimmed) by {
        if trimmed.len() > 0 {
            assert(trimmed.last() == chars@[end - 1]);
        }
    }
    let mut start: usize = end;
    assert(trimmed.subrange(0, end as int) =~= trimmed);
    assert(tail_word(trimmed) =~= tail_word(trimmed.subrange(0, start as int)) + chars@.subrange(
        start as int,
        end as int,
    ));
    while start > 0 && !text::white(chars[start - 1])
        invariant
            start <= end <= chars@.len(),
            trimmed == chars@.subrange(0, end as int),
            tail_word(trimmed) == tail_word(trimmed.subrange(0, start as int)) + chars@.subrange(
                start as int,
                end as int,
            ),
        decreases start,
    {
        proof {
            let t = trimmed.subrange(0, start as int);
            assert(t.drop_last() =~= trimmed.subrange(0, start - 1));
            assert(t.last() == chars@[start - 1]);
            assert(tail_word(t) + chars@.subrange(start as int, end as int) =~= tail_word(
                t.drop_last(),
            ) + chars@.subrange(start - 1, end as int));
        }
        start -= 1;
    }
    proof {
        let t = trimmed.subrange(0, start as int);
        if start > 0 {
            assert(t.last() == chars@[start - 1]);
        }
        assert(tail_word(t) =~= seq![]);
    }
    text::string_of(&chars, start, end)
}

/// Whether `word` is one of the words of `token`.
pub fn has_word(token: &str, word: &str) -> (r: bool)
    ensures
        r == words(token@).contains(word@),
{
    let mut rest: String = token.to_owned();
    let ghost mut later: Seq<Seq<char>> = seq![];
    assert(words(token@) =~= words(rest@) + later);
    loop
        invariant
            words(token@) == words(rest@) + later,
            !later.contains(word@),
        decreases rest@.len(),
    {
        let chars: Vec<char> = text::chars_of(rest.as_str());
        proof {
            trim_end_is_prefix(rest@);
            tail_word_bounds(trim_end(rest@));
        }
        let w: String = last_word(rest.as_str());
        let n: usize = text::chars_of(w.as_str()).len();
        if n == 0 {
            assert(trim_end(rest@).len() == 0);
            assert(words(rest@) + later =~= later);
            return false;
        }
        if text::same_text(w.as_str(), word) {
            proof {
                let all = words(rest@);
                assert(all.last() == word@);
                assert(words(token@)[all.len() - 1] == word@);
            }
            return true;
        }
        let mut end: usize = chars.len();
        assert(chars@.subrange(0, end as int) =~= rest@);
        while end > 0 && text::white(chars[end - 1])
            invariant
                chars@ == rest@,
                end <= chars@.len(),
                trim_end(rest@) == trim_end(chars@.subrange(0, end as int)),
            decreases end,
        {
            assert(chars@.subrange(0, end as int).drop_last() =~= chars@.subrange(0, end - 1));
            assert(chars@.subrange(0, end as int).last() == chars@[end - 1]);
            end -= 1;
        }
        let ghost t = chars@.subrange(0, end as int);
        assert(trim_end(rest@) == t) by {
            if t.len() > 0 {
                assert(t.last() == chars@[end - 1]);
            }
        }
        let ghost before = rest@;
        rest = text::string_of(&chars, 0, end - n);
        proof {
            assert(rest@ =~= t.subrange(0, t.len() - tail_word(t).len()));
            let longer = seq![w@] + later;
            assert(words(token@) =~= words(rest@) + longer);
            assert forall|i: int| 0 <= i < longer.len() implies longer[i] != word@ by {
                if i > 0 {
                    assert(longer[i] == later[i - 1]);
                    assert(later.contains(later[i - 1]));
                }
            }
            later = longer;
        }
    }
}

impl RibRequest {
    /// Positional number argument at index `i`.
    pub fn number(&self, i: usize) -> (r: Option<u64>)
        ensures
            r == self@.number(i as int),
    {
        if i < self.values.len() {
            self.values[i].as_number()
        } else {
            None
        }
    }

    /// Positional string argument at index `i`.
    pub fn string(&self, i: usize) -> (r: Option<&str>)
        ensures
            opt_text(r) == self@.text(i as int),
    {
        if i < self.values.len() {
            self.values[i].as_str()
        } else {
            None
        }
    }

    /// Positional array of numbers at index `i`.
    pub fn numbers(&self, i: usize) -> (r: Option<&[u64]>)
        ensures
            opt_numbers(r) == self@.numbers(i as int),
    {
        if i < self.values.len() {
            self.values[i].as_numbers()
        } else {
            None
        }
    }

    /// Token/value parameter pairs starting at value index `start` (everything
    /// after the positional arguments). Tokens may carry inline declarations
    /// ("uniform float roughness"); lookups match on the final word.
    pub fn params_from(&self, start: usize) -> (r: ParamList<'_>)
        ensures
            r@ == self@.params(start as int),
    {
        let mut pairs: Vec<(&str, &RibValue)> = Vec::new();
        let mut i: usize = start;
        let ghost all = pairs_from(self@.values, start as int);
        let ghost view = |p: (&str, &RibValue)| (p.0@, (*p.1)@);
        assert(pairs@.map_values(view) =~= seq![]);
        assert(Seq::<(Seq<char>, ValueView)>::empty() + all =~= all);
        while i < self.values.len() && i + 1 < self.values.len()
            invariant_except_break
                all == pairs@.map_values(view) + pairs_from(self@.values, i as int),
            invariant
                view == (|p: (&str, &RibValue)| (p.0@, (*p.1)@)),
            ensures
                all == pairs@.map_values(view),
            decreases self.values@.len() - i,
        {
            match self.values[i].as_str() {
                Some(token) => {
                    let ghost before = pairs@.map_values(view);
                    let ghost head = (token@, self.values@[i + 1]@);
                    pairs.push((token, &self.values[i + 1]));
                    assert(pairs@.map_values(view) =~= before.push(head));
                    assert(before + (seq![head] + pairs_from(self@.values, i + 2)) =~= before.push(head)
                        + pairs_from(self@.values, i + 2));
                    i += 2;
                },
                None => {
                    assert(pairs@.map_values(view) + Seq::<(Seq<char>, ValueView)>::empty() =~= pairs@.map_values(view));
                    break;
                },
            }
        }
        ParamList { pairs }
    }
}

impl<'a> ParamList<'a> {
    /// Find a parameter by name, ignoring any inline declaration prefix
    /// ("uniform float roughness" matches "roughness").
    pub fn get(&self, name: &str) -> (r: Option<&'a RibValue>)
        ensures
            match r {
                Some(v) => find_param(self@, name@) == Some(v@),
                None => find_param(self@, name@) is None,
            },
    {
        let wanted: String = name.to_owned();
        let mut i: usize = 0;
        assert(self@.subrange(0, self@.len() as int) =~= self@);
        while i < self.pairs.len()
            invariant
                i <= self.pairs@.len(),
                self@.len() == self.pairs@.len(),
                wanted@ == name@,
                find_param(self@, name@) == find_param(
                    self@.subrange(i as int, self@.len() as int),
                    name@,
                ),
            decreases self.pairs@.len() - i,
        {
            let word: String = last_word(self.pairs[i].0);
            let ghost tail = self@.subrange(i as int, self@.len() as int);
            assert(tail[0] == (self.pairs@[i as int].0@, (*self.pairs@[i as int].1)@));
            assert(tail.drop_first() =~= self@.subrange(i + 1, self@.len() as int));
            if word == wanted && name.unicode_len() > 0 {
                return Some(self.pairs[i].1);
            }
            i += 1;
        }
        None
    }

    pub fn get_number(&self, name: &str) -> (r: Option<u64>)
        ensures
            r == number_param(self@, name@),
    {
        match self.get(name) {
            Some(v) => v.as_number(),
            None => None,
        }
    }

    pub fn get_numbers(&self, name: &str) -> (r: Option<&'a [u64]>)
        ensures
            opt_numbers(r) == numbers_param(self@, name@),
    {
        match self.get(name) {
            Some(v) => v.as_numbers(),
            None => None,
        }
    }

    pub fn get_string(&self, name: &str) -> (r: Option<&'a str>)
        ensures
            opt_text(r) == text_param(self@, name@),
    {
        match self.get(name) {
            Some(v) => v.as_str(),
            None => None,
        }
    }

    /// The number of pairs.
    pub fn len(&self) -> (r: usize)
        ensures
            r == self@.len(),
    {
        self.pairs.len()
    }

    /// The pair at index `i`, declaration prefix included.
    pub fn pair(&self, i: usize) -> (r: (&'a str, &'a RibValue))
        requires
            i < self@.len(),
        ensures
            self@[i as int] == (r.0@, r.1@),
    {
        self.pairs[i]
    }
}

/// A RIB stream.
pub type RibFile = Vec<RibRequest>;

} // verus!
