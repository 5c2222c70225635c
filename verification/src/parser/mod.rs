//! RIB streams: text and binary.

pub mod ast;
pub mod binary;
pub mod block_laws;
pub mod comes_back;
pub mod interpreter;
pub mod kinds;
pub mod parser;
pub mod placement;
pub mod request_laws;
pub mod requests;
pub mod round_trip;
pub mod scene;
pub mod scene_builder;
pub mod scene_laws;
pub mod setting_laws;
pub mod told;
pub mod usd;

use crate::parser::ast::RibFile;
use crate::parser::binary::BinaryError;
use crate::parser::parser::SyntaxError;
use vstd::prelude::*;

verus! {

/// Why bytes are no RIB stream.
#[derive(Debug, Clone, PartialEq)]
pub enum RibError {
    Binary(BinaryError),
    Syntax(SyntaxError),
}

/// What an error is, with strings as sequences of characters.
pub enum RibErrorView {
    Binary(BinaryError),
    Syntax(Seq<char>),
}

impl View for RibError {
    type V = RibErrorView;

    open spec fn view(&self) -> RibErrorView {
        match *self {
            RibError::Binary(e) => RibErrorView::Binary(e),
            RibError::Syntax(e) => RibErrorView::Syntax(e.near@),
        }
    }
}

/// The requests in a text.
pub open spec fn parsed_text(text: Seq<char>) -> Result<Seq<ast::RequestView>, RibErrorView> {
    match parser::parsed(text) {
        Ok(file) => Ok(file),
        Err(near) => Err(RibErrorView::Syntax(near)),
    }
}

/// The requests in bytes: text directly, binary RIB by way of its canonical text.
pub open spec fn parsed_bytes(data: Seq<u8>) -> Result<Seq<ast::RequestView>, RibErrorView> {
    if binary::has_codes(data) {
        match binary::decoded(data) {
            Ok(text) => parsed_text(text),
            Err(e) => Err(RibErrorView::Binary(e)),
        }
    } else {
        parsed_text(binary::lossy_text(data))
    }
}

fn parse_text(text: &str) -> (r: Result<RibFile, RibError>)
    ensures
        match r {
            Ok(file) => parsed_text(text@) == Ok::<Seq<ast::RequestView>, RibErrorView>(
                ast::request_views(file@),
            ),
            Err(e) => parsed_text(text@) == Err::<Seq<ast::RequestView>, RibErrorView>(e@),
        },
        parser::requests_told(text@, 0),
{
    match parser::parse_rib(text) {
        Ok(file) => Ok(file),
        Err(e) => Err(RibError::Syntax(e)),
    }
}

/// Parse RIB from raw bytes: text UTF-8/ASCII directly, binary RIB via the
/// binary decoder. Requests that were encoded as binary RIB come back: the same names and
/// strings, small integers as themselves, and any other number within a millionth.
pub fn parse_rib_bytes(data: &[u8]) -> (r: Result<RibFile, RibError>)
    ensures
        match r {
            Ok(file) => parsed_bytes(data@) == Ok::<Seq<ast::RequestView>, RibErrorView>(
                ast::request_views(file@),
            ),
            Err(e) => parsed_bytes(data@) == Err::<Seq<ast::RequestView>, RibErrorView>(e@),
        },
        forall|rs: Seq<ast::RequestView>|
            data@ == #[trigger] binary::encoded(rs) && comes_back::are_carriable(rs) ==> (
            r matches Ok(file) && comes_back::are_close(ast::request_views(file@), rs)),
{
    let r: Result<RibFile, RibError> = if binary::looks_binary(data) {
        match binary::decode_to_text(data) {
            Ok((text, _)) => parse_text(text.as_str()),
            Err(e) => Err(RibError::Binary(e)),
        }
    } else {
        let text: String = binary::lossy_string(data);
        parse_text(text.as_str())
    };
    proof {
        assert forall|rs: Seq<ast::RequestView>|
            data@ == #[trigger] binary::encoded(rs) && comes_back::are_carriable(rs) implies (
        r matches Ok(file) && comes_back::are_close(ast::request_views(file@), rs)) by {
            told::bytes_come_back(rs);
        }
    }
    r
}

} // verus!
