//! The whole way from source text to syntax tree.

use crate::ast::ProgramNode;
use crate::grammar::program;
use crate::lexer::{error_views, lex, lex_errors, LexError, Lexer};
use crate::parser::{diagnostic_views, Diagnostic, DiagnosticView, Parser};
use vstd::prelude::*;

verus! {

/// What the front end makes of a source text.
pub struct Analysis {
    /// The statements that were found, in source order.
    pub program: ProgramNode,
    /// The characters that belong to no token, in source order.
    pub lexical_errors: Vec<LexError>,
    /// The failure that stopped the parser, if one did.
    pub diagnostics: Vec<Diagnostic>,
}

/// The failure that stops the parser on the tokens of `source`, if one
/// does: its message, and the token at which it was found.
pub open spec fn failures(source: Seq<char>) -> Seq<DiagnosticView> {
    let tokens = lex(source);
    let outcome = program(tokens, 0);
    match outcome.failure {
        Some(message) => seq![DiagnosticView { message, token: tokens[outcome.used as int] }],
        None => Seq::empty(),
    }
}

/// Scans `source` and parses its tokens. The statements before the first
/// failure are kept; the characters that the lexer could not place and the
/// failure of the parser are returned with them. Ends on every source.
pub fn analyze(source: &str) -> (result: Analysis)
    ensures
        result.program@ == program(lex(source@), 0).statements,
        error_views(result.lexical_errors@) == lex_errors(source@),
        diagnostic_views(result.diagnostics@) == failures(source@),
        program(lex(source@), 0).failure is Some <==> result.diagnostics@.len() == 1,
        program(lex(source@), 0).failure is None <==> result.diagnostics@.len() == 0,
{
    let mut lexer = Lexer::new(source);
    let tokens = lexer.tokenize();
    let lexical_errors = lexer.into_errors();
    let mut parser = Parser::new(tokens);
    let program = parser.parse();
    let diagnostics = parser.into_diagnostics();
    proof {
        assert(Seq::<crate::lexer::LexErrorView>::empty() + lex_errors(source@) =~= lex_errors(
            source@,
        ));
        assert(diagnostic_views(diagnostics@) =~= failures(source@));
    }
    Analysis { program, lexical_errors, diagnostics }
}

} // verus!
