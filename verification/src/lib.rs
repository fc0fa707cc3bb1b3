//! A verified lexer and recursive-descent parser for a small SQL-like
//! language with two statement forms, `SELECT` and `CREATE TABLE`.
//!
//! The tokenizer and the parser are each specified by a total spec-level
//! model over the input character sequence (`tokenizer::lex_step` and the
//! `parser::sp_*` family), and the executable code is proved to return
//! exactly what the model returns. `parse_sql` is the single entry point:
//! it takes one statement's text, including its trailing semicolon, and
//! returns the syntax tree or a structured error.

use vstd::prelude::*;

pub mod parser;
pub mod statement;
pub mod token;
pub mod tokenizer;

use parser::{
    fuel_statement, pack_statement, pm_init, sp_statement, spec_parse, ParseError, Parser,
    SpecParseError,
};
use statement::{SpecStatement, Statement};
use tokenizer::Tokenizer;

verus! {

/// The view of a full parse result: tree and error values become their
/// mathematical counterparts.
pub open spec fn parse_result_view(r: Result<Statement, ParseError>) -> Result<
    SpecStatement,
    SpecParseError,
> {
    match r {
        Ok(st) => Ok(st@),
        Err(e) => Err(e@),
    }
}

/// Parses one statement from `input` and returns its syntax tree, or the
/// first lexical or syntax error found. The result is exactly what the
/// spec-level model `spec_parse` yields for the input's characters, so
/// parsing is a pure function of the input text.
pub fn parse_sql(input: &str) -> (r: Result<Statement, ParseError>)
    ensures
        parse_result_view(r) == spec_parse(input@),
{
    let tokenizer = Tokenizer::new(input);
    let mut parser = Parser::new(tokenizer);
    let ghost s = pm_init(input@);
    let r = parser.parse_statement();
    proof {
        assert(sp_statement(s, fuel_statement(s) as nat) == pack_statement(r, parser@));
    }
    r
}

/// Parsing is deterministic and keeps no state between calls: two inputs
/// whose texts are equal character for character parse to the same
/// statement, or to the same error.
pub proof fn lemma_parse_deterministic(a: Seq<char>, b: Seq<char>)
    requires
        a == b,
    ensures
        spec_parse(a) == spec_parse(b),
{
}

} // verus!
