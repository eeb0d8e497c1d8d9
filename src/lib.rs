//! Front end of a small expression language: a scanner from source text to
//! tokens, and a recursive-descent parser from tokens to expression trees.
pub mod ast;
pub mod gen_ast;
pub mod parser;
pub mod scanner;
pub mod text;
pub mod types;

use vstd::prelude::*;

use crate::ast::rendered;
use crate::parser::{parse_tokens, ParseError, Parser};
use crate::scanner::{scan_errors, scanned, token_views, ErrorHandler, Scanner};

verus! {

/// Scans `line`, reporting lexical errors to `err_handler`, parses the tokens
/// as one expression and renders it in prefix form.
pub fn run(line: &str, err_handler: &mut ErrorHandler) -> (r: Result<String, ParseError>)
    requires
        line@.len() < usize::MAX,
    ensures
        final(err_handler).log() == old(err_handler).log() + scan_errors(line@),
        final(err_handler).has_error == (old(err_handler).has_error || scan_errors(line@).len() > 0),
        match parse_tokens(scanned(line@)) {
            Ok((e, _)) => r is Ok && r->Ok_0@ == rendered(e),
            Err((kind, at)) => r is Err && r->Err_0.kind == kind && r->Err_0.token@ == scanned(
                line@,
            )[at],
        },
{
    let mut scanner = Scanner::new(line);
    scanner.scan_tokens(err_handler);
    let tokens = scanner.into_tokens();
    assert(token_views(tokens@) =~= scanned(line@));
    assert(tokens@.last()@ == scanned(line@).last());
    let mut parser = Parser::new(tokens);
    match parser.parse() {
        Ok(expression) => Ok(expression.render()),
        Err(e) => Err(e),
    }
}

} // verus!
