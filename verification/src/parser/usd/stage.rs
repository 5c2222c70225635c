//! The prims of a stage, read from .usda text.

use crate::parser::ast;
use crate::parser::usd::lexer;
use crate::parser::usd::lexer::{token, Tok, TokView};
use crate::text;
use crate::text::same_text;
use vstd::prelude::*;
use vstd::string::*;

verus! {

/// The value of an attribute. Numbers are held by their bits.
#[derive(Debug)]
pub enum UsdValue {
    Numbers(Vec<u64>),
    Text(String),
    /// `@asset path@`
    Asset(String),
    /// `</prim/path>` target(s)
    Paths(Vec<String>),
    Tokens(Vec<String>),
}

/// What a value is, with strings as sequences of characters.
pub enum UsdView {
    Numbers(Seq<u64>),
    Text(Seq<char>),
    Asset(Seq<char>),
    Paths(Seq<Seq<char>>),
    Tokens(Seq<Seq<char>>),
}

impl View for UsdValue {
    type V = UsdView;

    open spec fn view(&self) -> UsdView {
        match *self {
            UsdValue::Numbers(v) => UsdView::Numbers(v@),
            UsdValue::Text(s) => UsdView::Text(s@),
            UsdValue::Asset(s) => UsdView::Asset(s@),
            UsdValue::Paths(v) => UsdView::Paths(ast::string_views(v@)),
            UsdValue::Tokens(v) => UsdView::Tokens(ast::string_views(v@)),
        }
    }
}

/// A prim: its type, its name and its attributes, in the order in which they were
/// given. A tree of prims is a list in which each prim stands before those below
/// it; `size` counts the prim and those below it.
#[derive(Debug)]
pub struct Prim {
    pub kind: String,
    pub name: String,
    pub attrs: Vec<(String, UsdValue)>,
    pub size: usize,
}

/// What a prim is.
pub struct PrimView {
    pub kind: Seq<char>,
    pub name: Seq<char>,
    pub attrs: Seq<(Seq<char>, UsdView)>,
    pub size: int,
}

pub open spec fn attr_views(v: Seq<(String, UsdValue)>) -> Seq<(Seq<char>, UsdView)> {
    v.map_values(|a: (String, UsdValue)| (a.0@, a.1@))
}

impl View for Prim {
    type V = PrimView;

    open spec fn view(&self) -> PrimView {
        PrimView {
            kind: self.kind@,
            name: self.name@,
            attrs: attr_views(self.attrs@),
            size: self.size as int,
        }
    }
}

pub open spec fn prim_views(v: Seq<Prim>) -> Seq<PrimView> {
    v.map_values(|p: Prim| p@)
}

/// What a stage holds that the importer does not carry over.
#[derive(Debug)]
pub enum UsdWarning {
    /// Composition metadata of a prim.
    MetadataIgnored(String),
    /// A transform operation that is not known.
    UnsupportedOp(String),
    /// A mesh without counts, indices or points.
    NoTopology(String),
}

/// What a warning is.
pub enum WarningView {
    MetadataIgnored(Seq<char>),
    UnsupportedOp(Seq<char>),
    NoTopology(Seq<char>),
}

impl View for UsdWarning {
    type V = WarningView;

    open spec fn view(&self) -> WarningView {
        match *self {
            UsdWarning::MetadataIgnored(s) => WarningView::MetadataIgnored(s@),
            UsdWarning::UnsupportedOp(s) => WarningView::UnsupportedOp(s@),
            UsdWarning::NoTopology(s) => WarningView::NoTopology(s@),
        }
    }
}

pub open spec fn warning_views(v: Seq<UsdWarning>) -> Seq<WarningView> {
    v.map_values(|w: UsdWarning| w@)
}

/// Why a text is no stage.
#[derive(Debug)]
pub enum UsdError {
    /// The text ends inside an escape in a string.
    UnfinishedEscape,
    UnbalancedMetadata,
    UnterminatedArray,
    UnexpectedInArray(char),
    UnterminatedTuple,
    UnexpectedValue(Tok),
    UnterminatedBody,
    /// No name after `rel`.
    NoRelName(Tok),
    /// No prim name.
    NoPrimName(Tok),
    /// No `{` after the prim of that name.
    NoBrace(String, Tok),
    UnterminatedStage,
}

/// What an error is.
pub enum UsdErrorView {
    UnfinishedEscape,
    UnbalancedMetadata,
    UnterminatedArray,
    UnexpectedInArray(char),
    UnterminatedTuple,
    UnexpectedValue(TokView),
    UnterminatedBody,
    NoRelName(TokView),
    NoPrimName(TokView),
    NoBrace(Seq<char>, TokView),
    UnterminatedStage,
}

impl View for UsdError {
    type V = UsdErrorView;

    open spec fn view(&self) -> UsdErrorView {
        match *self {
            UsdError::UnfinishedEscape => UsdErrorView::UnfinishedEscape,
            UsdError::UnbalancedMetadata => UsdErrorView::UnbalancedMetadata,
            UsdError::UnterminatedArray => UsdErrorView::UnterminatedArray,
            UsdError::UnexpectedInArray(c) => UsdErrorView::UnexpectedInArray(c),
            UsdError::UnterminatedTuple => UsdErrorView::UnterminatedTuple,
            UsdError::UnexpectedValue(t) => UsdErrorView::UnexpectedValue(t@),
            UsdError::UnterminatedBody => UsdErrorView::UnterminatedBody,
            UsdError::NoRelName(t) => UsdErrorView::NoRelName(t@),
            UsdError::NoPrimName(t) => UsdErrorView::NoPrimName(t@),
            UsdError::NoBrace(s, t) => UsdErrorView::NoBrace(s@, t@),
            UsdError::UnterminatedStage => UsdErrorView::UnterminatedStage,
        }
    }
}

// ---- the grammar -----------------------------------------------------------

/// Behind the balanced `( )` block at `p` of which `depth` brackets are open.
pub open spec fn parens_at(src: Seq<u8>, p: int, depth: int) -> Result<int, UsdErrorView>
    decreases src.len() - p,
{
    proof {
        advance(src, p);
    }
    match lexer::token_at(src, p) {
        None => Err(UsdErrorView::UnfinishedEscape),
        Some((TokView::Eof, _)) => Err(UsdErrorView::UnbalancedMetadata),
        Some((TokView::Punct('('), q)) => parens_at(src, q, depth + 1),
        Some((TokView::Punct(')'), q)) => if depth <= 1 {
            Ok(q)
        } else {
            parens_at(src, q, depth - 1)
        },
        Some((_, q)) => parens_at(src, q, depth),
    }
}

/// What an array holds.
pub open spec fn array_value(
    numbers: Seq<u64>,
    texts: Seq<Seq<char>>,
    paths: Seq<Seq<char>>,
) -> UsdView {
    if paths.len() > 0 {
        UsdView::Paths(paths)
    } else if texts.len() > 0 {
        UsdView::Tokens(texts)
    } else {
        UsdView::Numbers(numbers)
    }
}

/// The rest of an array, after these elements, and where the reading stopped.
pub open spec fn array_at(
    src: Seq<u8>,
    p: int,
    numbers: Seq<u64>,
    texts: Seq<Seq<char>>,
    paths: Seq<Seq<char>>,
) -> (Result<UsdView, UsdErrorView>, int)
    decreases src.len() - p,
{
    proof {
        advance(src, p);
    }
    match lexer::token_at(src, p) {
        None => (Err(UsdErrorView::UnfinishedEscape), p),
        Some((TokView::Eof, q)) => (Err(UsdErrorView::UnterminatedArray), q),
        Some((TokView::Punct(c), q)) => if c == ']' {
            (Ok(array_value(numbers, texts, paths)), q)
        } else if c == ',' || c == '(' || c == ')' {
            array_at(src, q, numbers, texts, paths)
        } else {
            (Err(UsdErrorView::UnexpectedInArray(c)), q)
        },
        Some((TokView::Number(n), q)) => array_at(src, q, numbers.push(n), texts, paths),
        Some((TokView::Str(s), q)) => array_at(src, q, numbers, texts.push(s), paths),
        Some((TokView::Asset(s), q)) => array_at(src, q, numbers, texts.push(s), paths),
        Some((TokView::Path(s), q)) => array_at(src, q, numbers, texts, paths.push(s)),
        Some((TokView::Ident(_), q)) => array_at(src, q, numbers, texts, paths),
    }
}

/// The rest of a tuple, after these numbers, and where the reading stopped.
pub open spec fn tuple_at(src: Seq<u8>, p: int, numbers: Seq<u64>) -> (
    Result<UsdView, UsdErrorView>,
    int,
)
    decreases src.len() - p,
{
    proof {
        advance(src, p);
    }
    match lexer::token_at(src, p) {
        None => (Err(UsdErrorView::UnfinishedEscape), p),
        Some((TokView::Eof, q)) => (Err(UsdErrorView::UnterminatedTuple), q),
        Some((TokView::Punct(')'), q)) => (Ok(UsdView::Numbers(numbers)), q),
        Some((TokView::Number(n), q)) => tuple_at(src, q, numbers.push(n)),
        Some((_, q)) => tuple_at(src, q, numbers),
    }
}

/// The value at `p` and where the reading stopped: a number, a tuple, an array, a
/// string, an asset, a path, or a bare word.
pub open spec fn value_at(src: Seq<u8>, p: int) -> (Result<UsdView, UsdErrorView>, int) {
    match lexer::token_at(src, p) {
        None => (Err(UsdErrorView::UnfinishedEscape), p),
        Some((TokView::Punct('['), q)) => array_at(src, q, seq![], seq![], seq![]),
        Some((TokView::Punct('('), q)) => tuple_at(src, q, seq![]),
        Some((TokView::Number(n), q)) => (Ok(UsdView::Numbers(seq![n])), q),
        Some((TokView::Str(s), q)) => (Ok(UsdView::Text(s)), q),
        Some((TokView::Asset(s), q)) => (Ok(UsdView::Asset(s)), q),
        Some((TokView::Path(s), q)) => (Ok(UsdView::Paths(seq![s])), q),
        Some((TokView::Ident(s), q)) => (Ok(UsdView::Text(s)), q),
        Some((t, _)) => (Err(UsdErrorView::UnexpectedValue(t)), p),
    }
}

/// Whether the token at `p` is that bracket or sign.
pub open spec fn punct_at(src: Seq<u8>, p: int, c: char) -> bool {
    lexer::token_at(src, p) matches Some((t, _)) && t == TokView::Punct(c)
}

/// Behind the token at `p`.
pub open spec fn next_at(src: Seq<u8>, p: int) -> int {
    match lexer::token_at(src, p) {
        Some((_, q)) => q,
        None => p,
    }
}

/// The words of a declaration end with the attribute's name: the last word at `p`,
/// or `last` where there is none, and where it ends.
pub open spec fn last_word_at(src: Seq<u8>, p: int, last: Seq<char>) -> (Seq<char>, int)
    decreases src.len() - p,
{
    proof {
        advance(src, p);
    }
    match lexer::token_at(src, p) {
        Some((TokView::Ident(w), q)) => last_word_at(src, q, w),
        _ => (last, p),
    }
}

/// The `( )` block at `p`, if there is one, is passed over.
pub open spec fn past_parens(src: Seq<u8>, p: int) -> Result<int, UsdErrorView> {
    if lexer::token_at(src, p) is None {
        Err(UsdErrorView::UnfinishedEscape)
    } else if punct_at(src, p, '(') {
        parens_at(src, next_at(src, p), 1)
    } else {
        Ok(p)
    }
}

/// A relationship after `rel`: `name = </path>`, a list of paths, or only a name.
pub open spec fn relation_at(src: Seq<u8>, p: int, attrs: Seq<(Seq<char>, UsdView)>) -> Result<
    (Seq<(Seq<char>, UsdView)>, int),
    UsdErrorView,
> {
    match lexer::token_at(src, p) {
        None => Err(UsdErrorView::UnfinishedEscape),
        Some((TokView::Ident(name), q)) => if lexer::token_at(src, q) is None {
            Err(UsdErrorView::UnfinishedEscape)
        } else if punct_at(src, q, '=') {
            match value_at(src, next_at(src, q)) {
                (Ok(v), r) => Ok((attrs.push((name, v)), r)),
                (Err(e), _) => Err(e),
            }
        } else {
            Ok((attrs, q))
        },
        Some((t, _)) => Err(UsdErrorView::NoRelName(t)),
    }
}

/// An attribute after the first word of its declaration: qualifiers, its type and
/// its name, then perhaps a value, then perhaps metadata.
pub open spec fn attribute_at(
    src: Seq<u8>,
    p: int,
    word: Seq<char>,
    attrs: Seq<(Seq<char>, UsdView)>,
) -> Result<(Seq<(Seq<char>, UsdView)>, int), UsdErrorView> {
    let (name, q) = last_word_at(src, p, word);
    if lexer::token_at(src, q) is None {
        Err(UsdErrorView::UnfinishedEscape)
    } else if punct_at(src, q, '=') {
        match value_at(src, next_at(src, q)) {
            (Err(e), _) => Err(e),
            (Ok(v), r) => match past_parens(src, r) {
                Ok(s) => Ok((attrs.push((name, v)), s)),
                Err(e) => Err(e),
            },
        }
    } else {
        match past_parens(src, q) {
            Ok(s) => Ok((attrs, s)),
            Err(e) => Err(e),
        }
    }
}

/// What the head of a prim gives.
pub struct HeadView {
    pub kind: Seq<char>,
    pub name: Seq<char>,
    pub warnings: Seq<WarningView>,
}

/// The head of a prim, after its keyword: an optional type, a name, perhaps
/// metadata, and `{`.
pub open spec fn head_at(src: Seq<u8>, p: int, warnings: Seq<WarningView>) -> Result<
    (HeadView, int),
    UsdErrorView,
> {
    match lexer::token_at(src, p) {
        None => Err(UsdErrorView::UnfinishedEscape),
        Some((TokView::Ident(kind), q)) => name_at(src, q, kind, warnings),
        Some(_) => name_at(src, p, seq![], warnings),
    }
}

/// The head of a prim from its name on.
pub open spec fn name_at(
    src: Seq<u8>,
    p: int,
    kind: Seq<char>,
    warnings: Seq<WarningView>,
) -> Result<(HeadView, int), UsdErrorView> {
    match lexer::token_at(src, p) {
        None => Err(UsdErrorView::UnfinishedEscape),
        Some((TokView::Str(name), q)) => match past_parens(src, q) {
            Err(e) => Err(e),
            Ok(r) => {
                let warnings = if punct_at(src, q, '(') {
                    warnings.push(WarningView::MetadataIgnored(name))
                } else {
                    warnings
                };
                match lexer::token_at(src, r) {
                    None => Err(UsdErrorView::UnfinishedEscape),
                    Some((TokView::Punct('{'), s)) => Ok(
                        (HeadView { kind, name, warnings }, s),
                    ),
                    Some((t, _)) => Err(UsdErrorView::NoBrace(name, t)),
                }
            },
        },
        Some((t, _)) => Err(UsdErrorView::NoPrimName(t)),
    }
}

/// Keywords that start a prim.
pub open spec fn is_def(word: Seq<char>) -> bool {
    word == "def"@ || word == "over"@ || word == "class"@
}

/// What the body of a prim gives: its attributes and the prims below it.
pub struct BodyView {
    pub attrs: Seq<(Seq<char>, UsdView)>,
    pub below: Seq<PrimView>,
    pub warnings: Seq<WarningView>,
}

/// The rest of the body of a prim at `p`, of which this was read.
pub open spec fn body_at(src: Seq<u8>, p: int, body: BodyView) -> Result<
    (BodyView, int),
    UsdErrorView,
>
    decreases src.len() - p,
{
    proof {
        advance(src, p);
    }
    match lexer::token_at(src, p) {
        None => Err(UsdErrorView::UnfinishedEscape),
        Some((TokView::Punct('}'), q)) => Ok((body, q)),
        Some((TokView::Eof, _)) => Err(UsdErrorView::UnterminatedBody),
        Some((TokView::Ident(word), q)) => if is_def(word) {
            match prim_at(src, q, body.warnings) {
                Err(e) => Err(e),
                Ok((tree, warnings, r)) => if p < r <= src.len() {
                    body_at(src, r, BodyView { attrs: body.attrs, below: body.below + tree, warnings })
                } else {
                    Err(UsdErrorView::UnterminatedBody)
                },
            }
        } else {
            let declared = if word == "rel"@ {
                relation_at(src, q, body.attrs)
            } else {
                attribute_at(src, q, word, body.attrs)
            };
            match declared {
                Err(e) => Err(e),
                Ok((attrs, r)) => if p < r <= src.len() {
                    body_at(
                        src,
                        r,
                        BodyView { attrs, below: body.below, warnings: body.warnings },
                    )
                } else {
                    Err(UsdErrorView::UnterminatedBody)
                },
            }
        },
        Some((_, q)) => body_at(src, q, body),
    }
}

/// The prim at `p`, after its keyword, with those below it, and where it ends.
pub open spec fn prim_at(src: Seq<u8>, p: int, warnings: Seq<WarningView>) -> Result<
    (Seq<PrimView>, Seq<WarningView>, int),
    UsdErrorView,
>
    decreases src.len() - p,
{
    match head_at(src, p, warnings) {
        Err(e) => Err(e),
        Ok((head, q)) => if p < q <= src.len() {
            let start = BodyView { attrs: seq![], below: seq![], warnings: head.warnings };
            match body_at(src, q, start) {
                Err(e) => Err(e),
                Ok((body, r)) => Ok(
                    (
                        seq![
                            PrimView {
                                kind: head.kind,
                                name: head.name,
                                attrs: body.attrs,
                                size: 1int + body.below.len(),
                            },
                        ] + body.below,
                        body.warnings,
                        r,
                    ),
                ),
            }
        } else {
            Err(UsdErrorView::UnterminatedBody)
        },
    }
}

/// The rest of the stage metadata at `p`, with `depth` brackets open: its simple
/// `key = value` pairs, and where it ends. A value that cannot be read is left out.
pub open spec fn meta_at(
    src: Seq<u8>,
    p: int,
    depth: int,
    meta: Seq<(Seq<char>, UsdView)>,
) -> Result<(Seq<(Seq<char>, UsdView)>, int), UsdErrorView>
    decreases src.len() - p,
{
    proof {
        advance(src, p);
    }
    match lexer::token_at(src, p) {
        None => Err(UsdErrorView::UnfinishedEscape),
        Some((TokView::Eof, _)) => Err(UsdErrorView::UnterminatedStage),
        Some((TokView::Punct('('), q)) => meta_at(src, q, depth + 1, meta),
        Some((TokView::Punct(')'), q)) => if depth <= 1 {
            Ok((meta, q))
        } else {
            meta_at(src, q, depth - 1, meta)
        },
        Some((TokView::Ident(key), q)) => if depth != 1 {
            meta_at(src, q, depth, meta)
        } else if lexer::token_at(src, q) is None {
            Err(UsdErrorView::UnfinishedEscape)
        } else if punct_at(src, q, '=') {
            let (v, r) = value_at(src, next_at(src, q));
            if v == Err::<UsdView, UsdErrorView>(UsdErrorView::UnfinishedEscape) {
                Err(UsdErrorView::UnfinishedEscape)
            } else if p < r <= src.len() {
                meta_at(
                    src,
                    r,
                    depth,
                    match v {
                        Ok(v) => meta.push((key, v)),
                        Err(_) => meta,
                    },
                )
            } else {
                Err(UsdErrorView::UnterminatedStage)
            }
        } else {
            meta_at(src, q, depth, meta)
        },
        Some((_, q)) => meta_at(src, q, depth, meta),
    }
}

/// The rest of the prims of a stage, from `p` on.
pub open spec fn roots_at(
    src: Seq<u8>,
    p: int,
    prims: Seq<PrimView>,
    warnings: Seq<WarningView>,
) -> Result<(Seq<PrimView>, Seq<WarningView>), UsdErrorView>
    decreases src.len() - p,
{
    proof {
        advance(src, p);
    }
    match lexer::token_at(src, p) {
        None => Err(UsdErrorView::UnfinishedEscape),
        Some((TokView::Eof, _)) => Ok((prims, warnings)),
        Some((TokView::Ident(word), q)) => if is_def(word) {
            match prim_at(src, q, warnings) {
                Err(e) => Err(e),
                Ok((tree, warnings, r)) => if p < r <= src.len() {
                    roots_at(src, r, prims + tree, warnings)
                } else {
                    Err(UsdErrorView::UnterminatedBody)
                },
            }
        } else {
            roots_at(src, q, prims, warnings)
        },
        Some((_, q)) => roots_at(src, q, prims, warnings),
    }
}

/// What a stage is: its prims, its metadata, and what was not carried over.
pub struct StageView {
    pub prims: Seq<PrimView>,
    pub meta: Seq<(Seq<char>, UsdView)>,
    pub warnings: Seq<WarningView>,
}

/// The stage that a text gives.
pub open spec fn stage_of(src: Seq<u8>) -> Result<StageView, UsdErrorView> {
    let meta = if punct_at(src, 0, '(') {
        meta_at(src, next_at(src, 0), 1, seq![])
    } else {
        Ok((seq![], 0))
    };
    if lexer::token_at(src, 0) is None {
        Err(UsdErrorView::UnfinishedEscape)
    } else {
        match meta {
            Err(e) => Err(e),
            Ok((meta, p)) => match roots_at(src, p, seq![], seq![]) {
                Err(e) => Err(e),
                Ok((prims, warnings)) => Ok(StageView { prims, meta, warnings }),
            },
        }
    }
}

// ---- how far reading gets --------------------------------------------------

pub proof fn advance(src: Seq<u8>, p: int)
    ensures
        lexer::token_at(src, p) matches Some((t, q)) ==> t is Eof || p < q <= src.len(),
        0 <= p <= src.len() ==> (lexer::token_at(src, p) matches Some((t, q)) ==> p <= q
            <= src.len()),
{
    if 0 <= p <= src.len() {
        lexer::token_advances(src, p);
    } else {
        lexer::skip_space_bounds(src, p);
    }
}

pub proof fn parens_advance(src: Seq<u8>, p: int, depth: int)
    requires
        0 <= p <= src.len(),
    ensures
        parens_at(src, p, depth) matches Ok(q) ==> p < q <= src.len(),
    decreases src.len() - p,
{
    advance(src, p);
    if let Some((t, q)) = lexer::token_at(src, p) {
        if !(t is Eof) {
            parens_advance(src, q, depth);
            parens_advance(src, q, depth + 1);
            parens_advance(src, q, depth - 1);
        }
    }
}

proof fn array_advance(
    src: Seq<u8>,
    p: int,
    numbers: Seq<u64>,
    texts: Seq<Seq<char>>,
    paths: Seq<Seq<char>>,
)
    requires
        0 <= p <= src.len(),
    ensures
        p <= array_at(src, p, numbers, texts, paths).1 <= src.len(),
    decreases src.len() - p,
{
    advance(src, p);
    match lexer::token_at(src, p) {
        None => {},
        Some((TokView::Eof, _)) => {},
        Some((TokView::Punct(c), q)) => {
            array_advance(src, q, numbers, texts, paths);
        },
        Some((TokView::Number(n), q)) => {
            array_advance(src, q, numbers.push(n), texts, paths);
        },
        Some((TokView::Str(s), q)) => {
            array_advance(src, q, numbers, texts.push(s), paths);
        },
        Some((TokView::Asset(s), q)) => {
            array_advance(src, q, numbers, texts.push(s), paths);
        },
        Some((TokView::Path(s), q)) => {
            array_advance(src, q, numbers, texts, paths.push(s));
        },
        Some((TokView::Ident(_), q)) => {
            array_advance(src, q, numbers, texts, paths);
        },
    }
}

proof fn tuple_advance(src: Seq<u8>, p: int, numbers: Seq<u64>)
    requires
        0 <= p <= src.len(),
    ensures
        p <= tuple_at(src, p, numbers).1 <= src.len(),
    decreases src.len() - p,
{
    advance(src, p);
    match lexer::token_at(src, p) {
        Some((TokView::Number(n), q)) => {
            tuple_advance(src, q, numbers.push(n));
        },
        Some((t, q)) => {
            if !(t is Eof) {
                tuple_advance(src, q, numbers);
            }
        },
        None => {},
    }
}

pub proof fn value_advance(src: Seq<u8>, p: int)
    requires
        0 <= p <= src.len(),
    ensures
        p <= value_at(src, p).1 <= src.len(),
{
    advance(src, p);
    match lexer::token_at(src, p) {
        Some((t, q)) => {
            array_advance(src, q, seq![], seq![], seq![]);
            tuple_advance(src, q, seq![]);
        },
        None => {},
    }
}

proof fn last_word_advance(src: Seq<u8>, p: int, last: Seq<char>)
    requires
        0 <= p <= src.len(),
    ensures
        p <= last_word_at(src, p, last).1 <= src.len(),
    decreases src.len() - p,
{
    advance(src, p);
    if let Some((TokView::Ident(w), q)) = lexer::token_at(src, p) {
        last_word_advance(src, q, w);
    }
}

proof fn past_parens_advance(src: Seq<u8>, p: int)
    requires
        0 <= p <= src.len(),
    ensures
        past_parens(src, p) matches Ok(q) ==> p <= q <= src.len(),
{
    advance(src, p);
    parens_advance(src, next_at(src, p), 1);
}

pub proof fn relation_advance(src: Seq<u8>, p: int, attrs: Seq<(Seq<char>, UsdView)>)
    requires
        0 <= p <= src.len(),
    ensures
        relation_at(src, p, attrs) matches Ok((_, q)) ==> p < q <= src.len(),
{
    advance(src, p);
    let q = next_at(src, p);
    advance(src, q);
    value_advance(src, next_at(src, q));
}

pub proof fn attribute_advance(
    src: Seq<u8>,
    p: int,
    word: Seq<char>,
    attrs: Seq<(Seq<char>, UsdView)>,
)
    requires
        0 <= p <= src.len(),
    ensures
        attribute_at(src, p, word, attrs) matches Ok((_, q)) ==> p <= q <= src.len(),
{
    last_word_advance(src, p, word);
    let q = last_word_at(src, p, word).1;
    advance(src, q);
    value_advance(src, next_at(src, q));
    past_parens_advance(src, value_at(src, next_at(src, q)).1);
    past_parens_advance(src, q);
}

pub proof fn head_advance(src: Seq<u8>, p: int, warnings: Seq<WarningView>)
    requires
        0 <= p <= src.len(),
    ensures
        head_at(src, p, warnings) matches Ok((_, q)) ==> p < q <= src.len(),
{
    advance(src, p);
    let q = next_at(src, p);
    advance(src, q);
    past_parens_advance(src, q);
    past_parens_advance(src, next_at(src, q));
    if past_parens(src, q) is Ok {
        advance(src, past_parens(src, q)->Ok_0);
    }
    if past_parens(src, next_at(src, q)) is Ok {
        advance(src, past_parens(src, next_at(src, q))->Ok_0);
    }
}

pub proof fn body_advance(src: Seq<u8>, p: int, body: BodyView)
    requires
        0 <= p <= src.len(),
    ensures
        body_at(src, p, body) matches Ok((_, q)) ==> p < q <= src.len(),
    decreases src.len() - p,
{
    advance(src, p);
    match lexer::token_at(src, p) {
        Some((TokView::Ident(word), q)) => {
            if is_def(word) {
                prim_advance(src, q, body.warnings);
                if let Ok((tree, warnings, r)) = prim_at(src, q, body.warnings) {
                    body_advance(
                        src,
                        r,
                        BodyView { attrs: body.attrs, below: body.below + tree, warnings },
                    );
                }
            } else {
                relation_advance(src, q, body.attrs);
                attribute_advance(src, q, word, body.attrs);
                let declared = if word == "rel"@ {
                    relation_at(src, q, body.attrs)
                } else {
                    attribute_at(src, q, word, body.attrs)
                };
                if let Ok((attrs, r)) = declared {
                    body_advance(
                        src,
                        r,
                        BodyView { attrs, below: body.below, warnings: body.warnings },
                    );
                }
            }
        },
        Some((t, q)) => {
            if !(t is Eof) {
                body_advance(src, q, body);
            }
        },
        None => {},
    }
}

pub proof fn prim_advance(src: Seq<u8>, p: int, warnings: Seq<WarningView>)
    requires
        0 <= p <= src.len(),
    ensures
        prim_at(src, p, warnings) matches Ok((_, _, q)) ==> p < q <= src.len(),
    decreases src.len() - p,
{
    head_advance(src, p, warnings);
    if let Ok((head, q)) = head_at(src, p, warnings) {
        let start = BodyView { attrs: seq![], below: seq![], warnings: head.warnings };
        body_advance(src, q, start);
    }
}

// ---- reading ---------------------------------------------------------------

/// Skip a balanced `( )` block of which one bracket is open.
fn skip_parens(src: &[u8], p: usize) -> (r: Result<usize, UsdError>)
    requires
        1 <= p <= src@.len(),
    ensures
        match r {
            Ok(q) => parens_at(src@, p as int, 1) == Ok::<int, UsdErrorView>(q as int) && p <= q
                <= src@.len(),
            Err(e) => parens_at(src@, p as int, 1) == Err::<int, UsdErrorView>(e@),
        },
{
    let mut depth: usize = 1;
    let mut pos: usize = p;
    proof {
        parens_advance(src@, p as int, 1);
    }
    loop
        invariant
            1 <= p <= pos <= src@.len(),
            1 <= depth <= 1 + pos - p,
            parens_at(src@, p as int, 1) == parens_at(src@, pos as int, depth as int),
            parens_at(src@, p as int, 1) matches Ok(q) ==> p < q <= src@.len(),
        decreases src@.len() - pos,
    {
        let n: usize = src.len();
        match token(src, pos) {
            None => {
                return Err(UsdError::UnfinishedEscape);
            },
            Some((Tok::Eof, _)) => {
                return Err(UsdError::UnbalancedMetadata);
            },
            Some((Tok::Punct(c), q)) => {
                if c == '(' {
                    depth += 1;
                } else if c == ')' {
                    if depth == 1 {
                        return Ok(q);
                    }
                    depth -= 1;
                }
                pos = q;
            },
            Some((_, q)) => {
                pos = q;
            },
        }
    }
}

/// Read the rest of an array.
fn parse_array(src: &[u8], p: usize) -> (r: (Result<UsdValue, UsdError>, usize))
    requires
        p <= src@.len(),
    ensures
        p <= r.1 <= src@.len(),
        r.1 == array_at(src@, p as int, seq![], seq![], seq![]).1,
        match r.0 {
            Ok(v) => array_at(src@, p as int, seq![], seq![], seq![]).0 == Ok::<
                UsdView,
                UsdErrorView,
            >(v@),
            Err(e) => array_at(src@, p as int, seq![], seq![], seq![]).0 == Err::<
                UsdView,
                UsdErrorView,
            >(e@),
        },
{
    let mut nums: Vec<u64> = Vec::new();
    let mut strs: Vec<String> = Vec::new();
    let mut paths: Vec<String> = Vec::new();
    let mut pos: usize = p;
    let ghost whole = array_at(src@, p as int, seq![], seq![], seq![]);
    proof {
        array_advance(src@, p as int, seq![], seq![], seq![]);
        assert(ast::string_views(strs@) =~= seq![]);
        assert(nums@ =~= seq![]);
    }
    loop
        invariant
            p <= pos <= src@.len(),
            whole == array_at(
                src@,
                pos as int,
                nums@,
                ast::string_views(strs@),
                ast::string_views(paths@),
            ),
            whole == array_at(src@, p as int, seq![], seq![], seq![]),
            p <= whole.1 <= src@.len(),
        decreases src@.len() - pos,
    {
        match token(src, pos) {
            None => {
                return (Err(UsdError::UnfinishedEscape), pos);
            },
            Some((Tok::Eof, q)) => {
                return (Err(UsdError::UnterminatedArray), q);
            },
            Some((Tok::Punct(c), q)) => {
                if c == ']' {
                    let v: UsdValue = if paths.len() > 0 {
                        UsdValue::Paths(paths)
                    } else if strs.len() > 0 {
                        UsdValue::Tokens(strs)
                    } else {
                        UsdValue::Numbers(nums)
                    };
                    return (Ok(v), q);
                } else if c == ',' || c == '(' || c == ')' {
                    pos = q;
                } else {
                    return (Err(UsdError::UnexpectedInArray(c)), q);
                }
            },
            Some((Tok::Number(n), q)) => {
                nums.push(n);
                pos = q;
            },
            Some((Tok::Str(t), q)) => {
                proof {
                    ast_push(strs@, t);
                }
                strs.push(t);
                pos = q;
            },
            Some((Tok::Asset(t), q)) => {
                proof {
                    ast_push(strs@, t);
                }
                strs.push(t);
                pos = q;
            },
            Some((Tok::Path(t), q)) => {
                proof {
                    ast_push(paths@, t);
                }
                paths.push(t);
                pos = q;
            },
            Some((Tok::Ident(_), q)) => {
                pos = q;
            },
        }
    }
}

proof fn ast_push(v: Seq<String>, s: String)
    ensures
        ast::string_views(v.push(s)) == ast::string_views(v).push(s@),
{
    assert(ast::string_views(v.push(s)) =~= ast::string_views(v).push(s@));
}

/// Read the rest of a tuple.
fn parse_tuple(src: &[u8], p: usize) -> (r: (Result<UsdValue, UsdError>, usize))
    requires
        p <= src@.len(),
    ensures
        p <= r.1 <= src@.len(),
        r.1 == tuple_at(src@, p as int, seq![]).1,
        match r.0 {
            Ok(v) => tuple_at(src@, p as int, seq![]).0 == Ok::<UsdView, UsdErrorView>(v@),
            Err(e) => tuple_at(src@, p as int, seq![]).0 == Err::<UsdView, UsdErrorView>(e@),
        },
{
    let mut nums: Vec<u64> = Vec::new();
    let mut pos: usize = p;
    let ghost whole = tuple_at(src@, p as int, seq![]);
    proof {
        tuple_advance(src@, p as int, seq![]);
        assert(nums@ =~= seq![]);
    }
    loop
        invariant
            p <= pos <= src@.len(),
            whole == tuple_at(src@, pos as int, nums@),
            whole == tuple_at(src@, p as int, seq![]),
            p <= whole.1 <= src@.len(),
        decreases src@.len() - pos,
    {
        match token(src, pos) {
            None => {
                return (Err(UsdError::UnfinishedEscape), pos);
            },
            Some((Tok::Eof, q)) => {
                return (Err(UsdError::UnterminatedTuple), q);
            },
            Some((Tok::Punct(c), q)) => {
                if c == ')' {
                    return (Ok(UsdValue::Numbers(nums)), q);
                }
                pos = q;
            },
            Some((Tok::Number(n), q)) => {
                nums.push(n);
                pos = q;
            },
            Some((_, q)) => {
                pos = q;
            },
        }
    }
}

/// Read one value after `=`.
fn parse_value(src: &[u8], p: usize) -> (r: (Result<UsdValue, UsdError>, usize))
    requires
        p <= src@.len(),
    ensures
        p <= r.1 <= src@.len(),
        r.1 == value_at(src@, p as int).1,
        match r.0 {
            Ok(v) => value_at(src@, p as int).0 == Ok::<UsdView, UsdErrorView>(v@),
            Err(e) => value_at(src@, p as int).0 == Err::<UsdView, UsdErrorView>(e@),
        },
{
    match token(src, p) {
        None => (Err(UsdError::UnfinishedEscape), p),
        Some((Tok::Punct(c), q)) => {
            if c == '[' {
                parse_array(src, q)
            } else if c == '(' {
                parse_tuple(src, q)
            } else {
                (Err(UsdError::UnexpectedValue(Tok::Punct(c))), p)
            }
        },
        Some((Tok::Number(n), q)) => {
            let v: Vec<u64> = vec![n];
            assert(v@ =~= seq![n]);
            (Ok(UsdValue::Numbers(v)), q)
        },
        Some((Tok::Str(s), q)) => (Ok(UsdValue::Text(s)), q),
        Some((Tok::Asset(s), q)) => (Ok(UsdValue::Asset(s)), q),
        Some((Tok::Path(s), q)) => {
            let mut v: Vec<String> = Vec::new();
            v.push(s);
            assert(ast::string_views(v@) =~= seq![s@]);
            (Ok(UsdValue::Paths(v)), q)
        },
        Some((Tok::Ident(s), q)) => (Ok(UsdValue::Text(s)), q),
        Some((Tok::Eof, _)) => (Err(UsdError::UnexpectedValue(Tok::Eof)), p),
    }
}

/// Where the token at `p` ends, if it is that sign.
fn peek_punct(src: &[u8], p: usize, c: char) -> (r: Result<Option<usize>, UsdError>)
    requires
        p <= src@.len(),
    ensures
        match r {
            Ok(Some(q)) => punct_at(src@, p as int, c) && q == next_at(src@, p as int) && p < q
                <= src@.len(),
            Ok(None) => lexer::token_at(src@, p as int) is Some && !punct_at(src@, p as int, c),
            Err(e) => lexer::token_at(src@, p as int) is None && e@ == (
            UsdErrorView::UnfinishedEscape),
        },
{
    match token(src, p) {
        None => Err(UsdError::UnfinishedEscape),
        Some((Tok::Punct(d), q)) => {
            if d == c {
                Ok(Some(q))
            } else {
                Ok(None)
            }
        },
        Some(_) => Ok(None),
    }
}

fn pass_parens(src: &[u8], p: usize) -> (r: Result<usize, UsdError>)
    requires
        p <= src@.len(),
    ensures
        match r {
            Ok(q) => past_parens(src@, p as int) == Ok::<int, UsdErrorView>(q as int) && p <= q
                <= src@.len(),
            Err(e) => past_parens(src@, p as int) == Err::<int, UsdErrorView>(e@),
        },
{
    match peek_punct(src, p, '(') {
        Err(e) => Err(e),
        Ok(None) => Ok(p),
        Ok(Some(q)) => skip_parens(src, q),
    }
}

/// Attributes and prims, with where the reading stopped.
type Declared = Result<(Vec<(String, UsdValue)>, usize), UsdError>;

/// What reading a declaration gave.
spec fn declared_view(r: Declared) -> Result<(Seq<(Seq<char>, UsdView)>, int), UsdErrorView> {
    match r {
        Ok((attrs, q)) => Ok((attr_views(attrs@), q as int)),
        Err(e) => Err(e@),
    }
}

proof fn attr_push(v: Seq<(String, UsdValue)>, a: (String, UsdValue))
    ensures
        attr_views(v.push(a)) == attr_views(v).push((a.0@, a.1@)),
{
    assert(attr_views(v.push(a)) =~= attr_views(v).push((a.0@, a.1@)));
}

fn parse_relation(src: &[u8], p: usize, attrs: Vec<(String, UsdValue)>) -> (r: Declared)
    requires
        p <= src@.len(),
    ensures
        declared_view(r) == relation_at(src@, p as int, attr_views(attrs@)),
{
    let mut attrs = attrs;
    match token(src, p) {
        None => Err(UsdError::UnfinishedEscape),
        Some((Tok::Ident(name), q)) => {
            match peek_punct(src, q, '=') {
                Err(e) => Err(e),
                Ok(None) => Ok((attrs, q)),
                Ok(Some(s)) => {
                    match parse_value(src, s) {
                        (Ok(v), t) => {
                            proof {
                                attr_push(attrs@, (name, v));
                            }
                            attrs.push((name, v));
                            Ok((attrs, t))
                        },
                        (Err(e), _) => Err(e),
                    }
                },
            }
        },
        Some((t, _)) => Err(UsdError::NoRelName(t)),
    }
}

fn read_last_word(src: &[u8], p: usize, word: String) -> (r: (String, usize))
    requires
        p <= src@.len(),
    ensures
        last_word_at(src@, p as int, word@) == (r.0@, r.1 as int),
        p <= r.1 <= src@.len(),
{
    let mut last: String = word;
    let mut pos: usize = p;
    loop
        invariant
            p <= pos <= src@.len(),
            last_word_at(src@, p as int, word@) == last_word_at(src@, pos as int, last@),
        decreases src@.len() - pos,
    {
        match token(src, pos) {
            Some((Tok::Ident(w), q)) => {
                last = w;
                pos = q;
            },
            _ => {
                return (last, pos);
            },
        }
    }
}

fn parse_attribute(src: &[u8], p: usize, word: String, attrs: Vec<(String, UsdValue)>) -> (r:
    Declared)
    requires
        p <= src@.len(),
    ensures
        declared_view(r) == attribute_at(src@, p as int, word@, attr_views(attrs@)),
{
    let mut attrs = attrs;
    let (name, q) = read_last_word(src, p, word);
    match peek_punct(src, q, '=') {
        Err(e) => Err(e),
        Ok(None) => {
            match pass_parens(src, q) {
                Ok(s) => Ok((attrs, s)),
                Err(e) => Err(e),
            }
        },
        Ok(Some(s)) => {
            match parse_value(src, s) {
                (Err(e), _) => Err(e),
                (Ok(v), t) => {
                    match pass_parens(src, t) {
                        Ok(u) => {
                            proof {
                                attr_push(attrs@, (name, v));
                            }
                            attrs.push((name, v));
                            Ok((attrs, u))
                        },
                        Err(e) => Err(e),
                    }
                },
            }
        },
    }
}

fn starts_prim(word: &str) -> (r: bool)
    ensures
        r == is_def(word@),
{
    same_text(word, "def") || same_text(word, "over") || same_text(word, "class")
}

/// The head of a prim, from its name on.
fn parse_name(src: &[u8], p: usize, warnings: &mut Vec<UsdWarning>) -> (r: Result<
    (String, usize),
    UsdError,
>)
    requires
        p <= src@.len(),
    ensures
        forall|kind: Seq<char>| #[trigger]
            name_at(src@, p as int, kind, warning_views(old(warnings)@)) == match r {
                Ok((name, q)) => Ok::<(HeadView, int), UsdErrorView>(
                    (
                        HeadView {
                            kind,
                            name: name@,
                            warnings: warning_views(final(warnings)@),
                        },
                        q as int,
                    ),
                ),
                Err(e) => Err(e@),
            },
{
    match token(src, p) {
        None => Err(UsdError::UnfinishedEscape),
        Some((Tok::Str(name), q)) => {
            match peek_punct(src, q, '(') {
                Err(e) => Err(e),
                Ok(open) => {
                    let passed: Result<usize, UsdError> = match open {
                        None => Ok(q),
                        Some(s) => skip_parens(src, s),
                    };
                    match passed {
                        Err(e) => Err(e),
                        Ok(s) => {
                            if open.is_some() {
                                let w: UsdWarning = UsdWarning::MetadataIgnored(text::copy_of(name.as_str()));
                                warnings.push(w);
                                proof {
                                    assert(warning_views(warnings@) =~= warning_views(
                                        old(warnings)@,
                                    ).push(w@));
                                }
                            }
                            match token(src, s) {
                                None => Err(UsdError::UnfinishedEscape),
                                Some((Tok::Punct(c), t)) => {
                                    if c == '{' {
                                        Ok((name, t))
                                    } else {
                                        Err(UsdError::NoBrace(name, Tok::Punct(c)))
                                    }
                                },
                                Some((t, _)) => Err(UsdError::NoBrace(name, t)),
                            }
                        },
                    }
                },
            }
        },
        Some((t, _)) => Err(UsdError::NoPrimName(t)),
    }
}

/// The head of a prim: its type, its name, and where its body starts.
fn parse_head(src: &[u8], p: usize, warnings: &mut Vec<UsdWarning>) -> (r: Result<
    (String, String, usize),
    UsdError,
>)
    requires
        p <= src@.len(),
    ensures
        head_at(src@, p as int, warning_views(old(warnings)@)) == match r {
            Ok((kind, name, q)) => Ok::<(HeadView, int), UsdErrorView>(
                (
                    HeadView {
                        kind: kind@,
                        name: name@,
                        warnings: warning_views(final(warnings)@),
                    },
                    q as int,
                ),
            ),
            Err(e) => Err(e@),
        },
{
    let (kind, q): (String, usize) = match token(src, p) {
        None => {
            return Err(UsdError::UnfinishedEscape);
        },
        Some((Tok::Ident(kind), q)) => (kind, q),
        Some(_) => (String::new(), p),
    };
    let ghost before = warning_views(warnings@);
    let named: Result<(String, usize), UsdError> = parse_name(src, q, warnings);
    assert(head_at(src@, p as int, before) == name_at(src@, q as int, kind@, before));
    match named {
        Ok((name, s)) => Ok((kind, name, s)),
        Err(e) => Err(e),
    }
}

proof fn prims_joined(a: Seq<Prim>, b: Seq<Prim>)
    ensures
        prim_views(a + b) == prim_views(a) + prim_views(b),
{
    assert(prim_views(a + b) =~= prim_views(a) + prim_views(b));
}

/// Read a prim, after its keyword, with those below it.
fn parse_prim(src: &[u8], p: usize, warnings: &mut Vec<UsdWarning>) -> (r: Result<
    (Vec<Prim>, usize),
    UsdError,
>)
    requires
        p <= src@.len(),
    ensures
        prim_at(src@, p as int, warning_views(old(warnings)@)) == match r {
            Ok((tree, q)) => Ok::<(Seq<PrimView>, Seq<WarningView>, int), UsdErrorView>(
                (prim_views(tree@), warning_views(final(warnings)@), q as int),
            ),
            Err(e) => Err(e@),
        },
        r matches Ok((tree, q)) ==> p < q <= src@.len() && tree@.len() <= q - p,
    decreases src@.len() - p,
{
    let ghost before = warning_views(warnings@);
    proof {
        head_advance(src@, p as int, before);
        prim_advance(src@, p as int, before);
    }
    match parse_head(src, p, warnings) {
        Err(e) => Err(e),
        Ok((kind, name, q)) => {
            let ghost start = BodyView {
                attrs: seq![],
                below: seq![],
                warnings: warning_views(warnings@),
            };
            let n: usize = src.len();
            match parse_body(src, q, warnings) {
                Err(e) => Err(e),
                Ok((attrs, below, s)) => {
                    let prim: Prim = Prim { kind, name, attrs, size: 1 + below.len() };
                    let mut tree: Vec<Prim> = Vec::new();
                    let mut below = below;
                    tree.push(prim);
                    proof {
                        prims_joined(tree@, below@);
                        assert(prim_views(tree@) =~= seq![prim@]);
                    }
                    tree.append(&mut below);
                    Ok((tree, s))
                },
            }
        },
    }
}

/// Read the body of a prim, after `{`, into its attributes and the prims below it.
fn parse_body(src: &[u8], p: usize, warnings: &mut Vec<UsdWarning>) -> (r: Result<
    (Vec<(String, UsdValue)>, Vec<Prim>, usize),
    UsdError,
>)
    requires
        p <= src@.len(),
    ensures
        body_at(
            src@,
            p as int,
            (BodyView { attrs: seq![], below: seq![], warnings: warning_views(old(warnings)@) }),
        ) == match r {
            Ok((attrs, below, q)) => Ok::<(BodyView, int), UsdErrorView>(
                (
                    BodyView {
                        attrs: attr_views(attrs@),
                        below: prim_views(below@),
                        warnings: warning_views(final(warnings)@),
                    },
                    q as int,
                ),
            ),
            Err(e) => Err(e@),
        },
        r matches Ok((_, below, q)) ==> p < q <= src@.len() && below@.len() <= q - p,
    decreases src@.len() - p,
{
    let mut attrs: Vec<(String, UsdValue)> = Vec::new();
    let mut below: Vec<Prim> = Vec::new();
    let mut pos: usize = p;
    let ghost start = BodyView {
        attrs: seq![],
        below: seq![],
        warnings: warning_views(warnings@),
    };
    let ghost whole = body_at(src@, p as int, start);
    proof {
        assert(attr_views(attrs@) =~= seq![]);
        assert(prim_views(below@) =~= seq![]);
        body_advance(src@, p as int, start);
    }
    loop
        invariant
            p <= pos <= src@.len(),
            below@.len() <= pos - p,
            whole == body_at(
                src@,
                pos as int,
                (BodyView {
                    attrs: attr_views(attrs@),
                    below: prim_views(below@),
                    warnings: warning_views(warnings@),
                }),
            ),
            whole == body_at(
                src@,
                p as int,
                (BodyView {
                    attrs: seq![],
                    below: seq![],
                    warnings: warning_views(old(warnings)@),
                }),
            ),
            whole matches Ok((_, q)) ==> p < q <= src@.len(),
        decreases src@.len() - pos,
    {
        match token(src, pos) {
            None => {
                return Err(UsdError::UnfinishedEscape);
            },
            Some((Tok::Eof, _)) => {
                return Err(UsdError::UnterminatedBody);
            },
            Some((Tok::Punct(c), q)) => {
                if c == '}' {
                    return Ok((attrs, below, q));
                }
                pos = q;
            },
            Some((Tok::Ident(word), q)) => {
                if starts_prim(word.as_str()) {
                    match parse_prim(src, q, warnings) {
                        Err(e) => {
                            return Err(e);
                        },
                        Ok((tree, s)) => {
                            let mut tree = tree;
                            proof {
                                prims_joined(below@, tree@);
                            }
                            below.append(&mut tree);
                            pos = s;
                        },
                    }
                } else {
                    proof {
                        relation_advance(src@, q as int, attr_views(attrs@));
                        attribute_advance(src@, q as int, word@, attr_views(attrs@));
                    }
                    let declared: Declared = if same_text(word.as_str(), "rel") {
                        parse_relation(src, q, attrs)
                    } else {
                        parse_attribute(src, q, word, attrs)
                    };
                    match declared {
                        Err(e) => {
                            return Err(e);
                        },
                        Ok((more, s)) => {
                            attrs = more;
                            pos = s;
                        },
                    }
                }
            },
            Some((_, q)) => {
                pos = q;
            },
        }
    }
}

/// Read the stage metadata, of which one bracket is open.
fn parse_meta(src: &[u8], p: usize) -> (r: Declared)
    requires
        1 <= p <= src@.len(),
    ensures
        declared_view(r) == meta_at(src@, p as int, 1, seq![]),
        r matches Ok((_, q)) ==> q <= src@.len(),
{
    let mut meta: Vec<(String, UsdValue)> = Vec::new();
    let mut depth: usize = 1;
    let mut pos: usize = p;
    assert(attr_views(meta@) =~= seq![]);
    loop
        invariant
            1 <= p <= pos <= src@.len(),
            1 <= depth <= 1 + pos - p,
            meta_at(src@, p as int, 1, seq![]) == meta_at(
                src@,
                pos as int,
                depth as int,
                attr_views(meta@),
            ),
        decreases src@.len() - pos,
    {
        let n: usize = src.len();
        match token(src, pos) {
            None => {
                return Err(UsdError::UnfinishedEscape);
            },
            Some((Tok::Eof, _)) => {
                return Err(UsdError::UnterminatedStage);
            },
            Some((Tok::Punct(c), q)) => {
                if c == '(' {
                    depth += 1;
                } else if c == ')' {
                    if depth == 1 {
                        return Ok((meta, q));
                    }
                    depth -= 1;
                }
                pos = q;
            },
            Some((Tok::Ident(key), q)) => {
                if depth == 1 {
                    match peek_punct(src, q, '=') {
                        Err(e) => {
                            return Err(e);
                        },
                        Ok(None) => {
                            pos = q;
                        },
                        Ok(Some(s)) => {
                            let (v, t) = parse_value(src, s);
                            match v {
                                Ok(v) => {
                                    proof {
                                        attr_push(meta@, (key, v));
                                    }
                                    meta.push((key, v));
                                },
                                Err(UsdError::UnfinishedEscape) => {
                                    return Err(UsdError::UnfinishedEscape);
                                },
                                Err(_) => {},
                            }
                            pos = t;
                        },
                    }
                } else {
                    pos = q;
                }
            },
            Some((_, q)) => {
                pos = q;
            },
        }
    }
}

/// A stage: its prims, each before those below it, and its metadata.
#[derive(Debug)]
pub struct Stage {
    pub prims: Vec<Prim>,
    pub meta: Vec<(String, UsdValue)>,
    pub warnings: Vec<UsdWarning>,
}

impl View for Stage {
    type V = StageView;

    open spec fn view(&self) -> StageView {
        StageView {
            prims: prim_views(self.prims@),
            meta: attr_views(self.meta@),
            warnings: warning_views(self.warnings@),
        }
    }
}

/// Read a stage.
pub fn parse_stage(src: &[u8]) -> (r: Result<Stage, UsdError>)
    ensures
        stage_of(src@) == match r {
            Ok(stage) => Ok::<StageView, UsdErrorView>(stage@),
            Err(e) => Err(e@),
        },
{
    let (meta, start): (Vec<(String, UsdValue)>, usize) = match peek_punct(src, 0, '(') {
        Err(e) => {
            return Err(e);
        },
        Ok(None) => (Vec::new(), 0),
        Ok(Some(q)) => match parse_meta(src, q) {
            Err(e) => {
                return Err(e);
            },
            Ok(read) => read,
        },
    };
    let mut prims: Vec<Prim> = Vec::new();
    let mut warnings: Vec<UsdWarning> = Vec::new();
    let mut pos: usize = start;
    let ghost whole = roots_at(src@, start as int, seq![], seq![]);
    proof {
        assert(prim_views(prims@) =~= seq![]);
        assert(warning_views(warnings@) =~= seq![]);
        if !punct_at(src@, 0, '(') {
            assert(attr_views(meta@) =~= seq![]);
        }
    }
    loop
        invariant
            pos <= src@.len(),
            whole == roots_at(
                src@,
                pos as int,
                prim_views(prims@),
                warning_views(warnings@),
            ),
            stage_of(src@) == match whole {
                Err(e) => Err::<StageView, UsdErrorView>(e),
                Ok((prims, warnings)) => Ok(
                    StageView { prims, meta: attr_views(meta@), warnings },
                ),
            },
        decreases src@.len() - pos,
    {
        match token(src, pos) {
            None => {
                return Err(UsdError::UnfinishedEscape);
            },
            Some((Tok::Eof, _)) => {
                return Ok(Stage { prims, meta, warnings });
            },
            Some((Tok::Ident(word), q)) => {
                if starts_prim(word.as_str()) {
                    match parse_prim(src, q, &mut warnings) {
                        Err(e) => {
                            return Err(e);
                        },
                        Ok((tree, s)) => {
                            let mut tree = tree;
                            proof {
                                prims_joined(prims@, tree@);
                            }
                            prims.append(&mut tree);
                            pos = s;
                        },
                    }
                } else {
                    pos = q;
                }
            },
            Some((_, q)) => {
                pos = q;
            },
        }
    }
}

} // verus!
