pub mod args;
pub mod ast;
pub mod error;
pub mod laws;
pub mod lexer;
pub mod parser;
pub mod stats;
pub mod text;
pub mod token;

use vstd::prelude::*;
use vstd::string::StringExecFns;
use crate::ast::{JsonValue, SpecValue};
use crate::error::spec_render;
use crate::lexer::{Lexer, spec_tokenize};
use crate::parser::{Parser, sp_value};

verus! {

/// What the whole pipeline makes of an input: the value its text denotes,
/// or the one-line message of the first error, prefixed with the stage
/// that found it. Tokens standing after the one top-level value are left
/// unread.
pub open spec fn spec_parse_json(cs: Seq<char>) -> Result<SpecValue, Seq<char>> {
    match spec_tokenize(cs) {
        Err(e) => Err("Lexer error: "@ + spec_render(e)),
        Ok(ts) => match sp_value(ts, 0) {
            Err(e) => Err("Parse error: "@ + spec_render(e)),
            Ok((v, p)) => Ok(v),
        },
    }
}

/// Runs the lexer, then the parser, on the input, and maps an error to
/// its prefixed rendered message.
pub fn parse_json(input: &str) -> (r: Result<JsonValue, String>)
    ensures
        match r {
            Ok(v) => spec_parse_json(input@) == Ok::<SpecValue, Seq<char>>(v@),
            Err(m) => spec_parse_json(input@) == Err::<SpecValue, Seq<char>>(m@),
        },
{
    let mut lexer = Lexer::new(input);
    let tokens = match lexer.tokenize() {
        Ok(tokens) => tokens,
        Err(e) => {
            let mut msg = "Lexer error: ".to_owned();
            msg.append(e.render().as_str());
            return Err(msg);
        },
    };
    let mut parser = Parser::new(tokens);
    match parser.parse_value() {
        Ok(v) => Ok(v),
        Err(e) => {
            let mut msg = "Parse error: ".to_owned();
            msg.append(e.render().as_str());
            Err(msg)
        },
    }
}

} // verus!
