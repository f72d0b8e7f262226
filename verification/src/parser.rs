//! The parser: recursive descent over a token sequence, with one token of
//! lookahead and a cursor that only moves forward.
//!
//! Parsing stops at the first statement that fails. The failure is recorded
//! as a [`Diagnostic`]; the statements found before it are kept.

use crate::ast::{ProgramNode, StatementNode, Tree};
use crate::grammar::{
    lemma_parsed_takes_tokens, program, tokens_left, Outcome, ProgramOutcome,
};
use crate::text::{decimal, push_decimal};
use crate::token::{token_views, well_terminated, Token, TokenType, TokenView};
use vstd::prelude::*;
use vstd::string::StringExecFns;

verus! {

/// A failure met while parsing: what was expected, and the token that stood
/// there instead.
#[derive(Debug, PartialEq, Eq)]
pub struct Diagnostic {
    pub message: String,
    pub token: Token,
}

/// The mathematical value of a [`Diagnostic`].
pub struct DiagnosticView {
    pub message: Seq<char>,
    pub token: TokenView,
}

impl View for Diagnostic {
    type V = DiagnosticView;

    open spec fn view(&self) -> DiagnosticView {
        DiagnosticView { message: self.message@, token: self.token@ }
    }
}

impl DiagnosticView {
    /// The line of the token at which the failure was found.
    pub open spec fn line(self) -> nat {
        self.token.line
    }

    /// The diagnostic as one line of text:
    /// `Parse error: <message> at line <line>`.
    pub open spec fn text(self) -> Seq<char> {
        "Parse error: "@ + self.message + " at line "@ + decimal(self.line())
    }
}

impl Diagnostic {
    /// The line of the token at which the failure was found.
    pub fn line(&self) -> (line: usize)
        ensures
            line == self@.line(),
    {
        self.token.line
    }

    /// The diagnostic as one line of text:
    /// `Parse error: <message> at line <line>`.
    pub fn render(&self) -> (text: String)
        ensures
            text@ == self@.text(),
    {
        let mut text = String::from_str("Parse error: ");
        text.append(self.message.as_str());
        text.append(" at line ");
        push_decimal(&mut text, self.token.line);
        text
    }
}

/// The mathematical values of a sequence of diagnostics.
pub open spec fn diagnostic_views(diagnostics: Seq<Diagnostic>) -> Seq<DiagnosticView> {
    diagnostics.map_values(|d: Diagnostic| d@)
}

/// A parser over one token sequence.
pub struct Parser {
    tokens: Vec<Token>,
    current: usize,
    diagnostics: Vec<Diagnostic>,
}

/// The mathematical value of a [`Parser`]: its tokens, the index of the
/// token it looks at, and the failures it has recorded.
pub struct ParserView {
    pub tokens: Seq<TokenView>,
    pub current: int,
    pub diagnostics: Seq<DiagnosticView>,
}

impl ParserView {
    /// The tokens end in `EOF` and the cursor stands on one of them.
    pub open spec fn well_formed(self) -> bool {
        &&& well_terminated(self.tokens)
        &&& 0 <= self.current < self.tokens.len()
    }

    /// The token under the cursor.
    pub open spec fn peek(self) -> TokenView {
        self.tokens[self.current]
    }

    /// Whether the cursor stands on an `EOF` token.
    pub open spec fn at_end(self) -> bool {
        self.peek().token_type == TokenType::EOF
    }

    /// Whether the token under the cursor has kind `token_type` and is not
    /// an `EOF` token.
    pub open spec fn check(self, token_type: TokenType) -> bool {
        !self.at_end() && self.peek().token_type == token_type
    }

    /// This parser with the cursor `n` tokens further on.
    pub open spec fn moved(self, n: int) -> ParserView {
        ParserView { current: self.current + n, ..self }
    }

    /// This parser after the failure `message` at the token `n` tokens
    /// further on: the cursor stands on that token, and the failure is
    /// recorded with it.
    pub open spec fn failed(self, message: Seq<char>, n: int) -> ParserView {
        ParserView {
            current: self.current + n,
            diagnostics: self.diagnostics.push(
                DiagnosticView { message, token: self.tokens[self.current + n] },
            ),
            ..self
        }
    }

    /// This parser after a whole program with the given outcome: the cursor
    /// stands on the `EOF` token or on the token of the failure, and the
    /// failure, if there was one, is recorded.
    pub open spec fn finished(self, outcome: ProgramOutcome) -> ParserView {
        match outcome.failure {
            None => self.moved(outcome.used as int),
            Some(message) => self.failed(message, outcome.used as int),
        }
    }

    /// This parser after a production with the given outcome.
    pub open spec fn after(self, outcome: Outcome) -> ParserView {
        match outcome {
            Outcome::Parsed { used, .. } => self.moved(used as int),
            Outcome::Failed { message, used } => self.failed(message, used as int),
        }
    }
}

/// A production that begins `n` tokens further on leaves the parser as the
/// same production does when it is seen from where the parser stands.
pub proof fn lemma_after_moved(view: ParserView, n: nat, outcome: Outcome)
    ensures
        view.moved(n as int).after(outcome) == view.after(outcome.after(n)),
{
}

/// Whether `result` is what a production with the given outcome returns:
/// the node of the tree, or nothing after a failure.
pub open spec fn yields(result: Option<StatementNode>, outcome: Outcome) -> bool {
    match outcome {
        Outcome::Parsed { tree, .. } => result matches Some(node) && node@ == tree,
        Outcome::Failed { .. } => result is None,
    }
}

impl View for Parser {
    type V = ParserView;

    closed spec fn view(&self) -> ParserView {
        ParserView {
            tokens: token_views(self.tokens@),
            current: self.current as int,
            diagnostics: diagnostic_views(self.diagnostics@),
        }
    }
}

impl Parser {
    /// A parser at the first of `tokens`, with no failure recorded.
    pub fn new(tokens: Vec<Token>) -> (parser: Parser)
        requires
            well_terminated(token_views(tokens@)),
        ensures
            parser@.well_formed(),
            parser@.tokens == token_views(tokens@),
            parser@.current == 0,
            parser@.diagnostics == Seq::<DiagnosticView>::empty(),
    {
        let parser = Parser { tokens, current: 0, diagnostics: Vec::new() };
        assert(diagnostic_views(parser.diagnostics@) =~= Seq::<DiagnosticView>::empty());
        parser
    }

    /// A parser at the first of `tokens`, if they are closed by an `EOF`
    /// token; nothing otherwise.
    pub fn try_new(tokens: Vec<Token>) -> (parser: Option<Parser>)
        ensures
            match parser {
                Some(p) => {
                    &&& well_terminated(token_views(tokens@))
                    &&& p@.well_formed()
                    &&& p@.tokens == token_views(tokens@)
                    &&& p@.current == 0
                    &&& p@.diagnostics == Seq::<DiagnosticView>::empty()
                },
                None => !well_terminated(token_views(tokens@)),
            },
    {
        let n = tokens.len();
        if n > 0 && tokens[n - 1].token_type == TokenType::EOF {
            Some(Parser::new(tokens))
        } else {
            None
        }
    }

    /// The index of the token under the cursor.
    pub fn position(&self) -> (index: usize)
        ensures
            index == self@.current,
    {
        self.current
    }

    /// The token under the cursor.
    pub fn peek(&self) -> (token: &Token)
        requires
            self@.well_formed(),
        ensures
            token@ == self@.peek(),
    {
        &self.tokens[self.current]
    }

    /// The token before the cursor.
    pub fn previous(&self) -> (token: &Token)
        requires
            self@.well_formed(),
            self@.current > 0,
        ensures
            token@ == self@.tokens[self@.current - 1],
    {
        &self.tokens[self.current - 1]
    }

    /// Whether the cursor stands on an `EOF` token.
    pub fn is_at_end(&self) -> (b: bool)
        requires
            self@.well_formed(),
        ensures
            b == self@.at_end(),
    {
        self.peek().token_type == TokenType::EOF
    }

    /// Whether the token under the cursor has kind `token_type`. At an `EOF`
    /// token the answer is no, whatever the kind asked for.
    pub fn check(&self, token_type: TokenType) -> (b: bool)
        requires
            self@.well_formed(),
        ensures
            b == self@.check(token_type),
    {
        if self.is_at_end() {
            false
        } else {
            self.peek().token_type == token_type
        }
    }

    /// Moves the cursor to the next token, unless it stands on an `EOF`
    /// token, and returns the token that is then before the cursor.
    pub fn advance(&mut self) -> (token: &Token)
        requires
            old(self)@.well_formed(),
            old(self)@.current > 0 || !old(self)@.at_end(),
        ensures
            final(self)@.well_formed(),
            final(self)@ == old(self)@.moved(if old(self)@.at_end() { 0int } else { 1int }),
            token@ == final(self)@.tokens[final(self)@.current - 1],
    {
        if !self.is_at_end() {
            assert(self.current < self.tokens.len());
            self.current += 1;
        }
        self.previous()
    }

    /// Moves past the token under the cursor if it has kind `token_type`,
    /// and says whether it did.
    pub fn match_token(&mut self, token_type: TokenType) -> (matched: bool)
        requires
            old(self)@.well_formed(),
        ensures
            final(self)@.well_formed(),
            matched == old(self)@.check(token_type),
            final(self)@ == old(self)@.moved(if matched { 1int } else { 0int }),
    {
        if self.check(token_type) {
            self.advance();
            true
        } else {
            false
        }
    }

    /// Moves past the token under the cursor if its kind is one of
    /// `token_types`, and says whether it did.
    pub fn match_any(&mut self, token_types: &[TokenType]) -> (matched: bool)
        requires
            old(self)@.well_formed(),
        ensures
            final(self)@.well_formed(),
            matched == (exists|i: int|
                0 <= i < token_types@.len() && old(self)@.check(#[trigger] token_types@[i])),
            final(self)@ == old(self)@.moved(if matched { 1int } else { 0int }),
    {
        let mut i: usize = 0;
        while i < token_types.len()
            invariant
                i <= token_types@.len(),
                self@ == old(self)@,
                self@.well_formed(),
                forall|k: int| 0 <= k < i ==> !self@.check(#[trigger] token_types@[k]),
            decreases token_types.len() - i,
        {
            if self.check(token_types[i]) {
                self.advance();
                return true;
            }
            i += 1;
        }
        false
    }

    /// Moves past the token under the cursor if it has kind `token_type` and
    /// returns that token. Otherwise the cursor stays, and the failure
    /// `message` is recorded with the token under the cursor.
    pub fn consume(&mut self, token_type: TokenType, message: &str) -> (token: Option<&Token>)
        requires
            old(self)@.well_formed(),
        ensures
            final(self)@.well_formed(),
            old(self)@.check(token_type) ==> final(self)@ == old(self)@.moved(1) && token
                == Some(token->0) && token->0@ == old(self)@.peek(),
            !old(self)@.check(token_type) ==> final(self)@ == old(self)@.failed(message@, 0)
                && token is None,
    {
        if self.check(token_type) {
            Some(self.advance())
        } else {
            self.fail(message);
            None
        }
    }

    /// Records the failure `message` with the token under the cursor.
    pub fn fail(&mut self, message: &str)
        requires
            old(self)@.well_formed(),
        ensures
            final(self)@.well_formed(),
            final(self)@ == old(self)@.failed(message@, 0),
    {
        let ghost before = diagnostic_views(self.diagnostics@);
        let diagnostic = Diagnostic {
            message: String::from_str(message),
            token: self.peek().clone(),
        };
        let ghost found = diagnostic@;
        self.diagnostics.push(diagnostic);
        assert(diagnostic_views(self.diagnostics@) =~= before.push(found));
    }

    /// Parses statements one after the other until the `EOF` token or the
    /// first statement that fails, and returns those that were found, in
    /// source order. After a failure nothing more is read: the statements
    /// before it are returned, and the failure is recorded. Parsing ends on
    /// every token sequence.
    pub fn parse(&mut self) -> (result: ProgramNode)
        requires
            old(self)@.well_formed(),
        ensures
            final(self)@.well_formed(),
            result@ == program(old(self)@.tokens, old(self)@.current).statements,
            final(self)@ == old(self)@.finished(
                program(old(self)@.tokens, old(self)@.current),
            ),
    {
        let ghost tokens = self@.tokens;
        let ghost start = self@.current;
        let ghost whole = program(tokens, start);
        let mut result = ProgramNode::new();
        assert(result@ + whole.statements =~= whole.statements);
        loop
            invariant
                self@.well_formed(),
                self@.tokens == tokens,
                tokens == old(self)@.tokens,
                start == old(self)@.current,
                whole == program(tokens, start),
                self@.diagnostics == old(self)@.diagnostics,
                start <= self@.current,
                whole.statements == result@ + program(tokens, self@.current).statements,
                whole.used == (self@.current - start) + program(tokens, self@.current).used,
                whole.failure == program(tokens, self@.current).failure,
            decreases tokens_left(tokens, self@.current),
        {
            if self.is_at_end() {
                assert(result@ + Seq::<Tree>::empty() =~= result@);
                return result;
            }
            let ghost here = self@.current;
            let ghost before = result@;
            let ghost rest = program(tokens, here + crate::grammar::statement(tokens, here).used());
            proof {
                lemma_parsed_takes_tokens(tokens, here);
            }
            match self.parse_statement() {
                Some(node) => {
                    let ghost tree = node@;
                    result.statements.push(node);
                    assert(result@ =~= before.push(tree));
                    assert(before.push(tree) + rest.statements =~= before + (seq![tree]
                        + rest.statements));
                },
                None => {
                    assert(result@ + Seq::<Tree>::empty() =~= result@);
                    return result;
                },
            }
        }
    }

    /// The failures recorded so far, oldest first.
    pub fn diagnostics(&self) -> (diagnostics: &Vec<Diagnostic>)
        ensures
            diagnostic_views(diagnostics@) == self@.diagnostics,
    {
        &self.diagnostics
    }

    /// Gives up the parser for the failures it has recorded, oldest first.
    pub fn into_diagnostics(self) -> (diagnostics: Vec<Diagnostic>)
        ensures
            diagnostic_views(diagnostics@) == self@.diagnostics,
    {
        self.diagnostics
    }
}

} // verus!
