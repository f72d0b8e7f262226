//! Tokens: the classified, line-tagged units that the lexer produces and the
//! parser consumes.

use vstd::prelude::*;

verus! {

/// The closed set of token kinds. Keywords are told apart from identifiers
/// when the text is scanned, never later.
#[derive(Clone, Copy, Debug, PartialEq, Eq, Structural)]
pub enum TokenType {
    Var,
    If,
    Else,
    While,
    Identifier,
    Number,
    Assign,
    Semicolon,
    LeftParen,
    RightParen,
    Plus,
    Minus,
    Star,
    Slash,
    EOF,
}

/// One token: its kind, the exact text it was read from, and the line on
/// which that text stands.
#[derive(Debug, PartialEq, Eq)]
pub struct Token {
    pub token_type: TokenType,
    pub lexeme: String,
    pub line: usize,
}

/// The mathematical value of a token.
pub struct TokenView {
    pub token_type: TokenType,
    pub lexeme: Seq<char>,
    pub line: nat,
}

impl View for Token {
    type V = TokenView;

    open spec fn view(&self) -> TokenView {
        TokenView { token_type: self.token_type, lexeme: self.lexeme@, line: self.line as nat }
    }
}

/// The mathematical values of a sequence of tokens.
pub open spec fn token_views(tokens: Seq<Token>) -> Seq<TokenView> {
    tokens.map_values(|t: Token| t@)
}

/// A token sequence that a parser can read: not empty, and closed by an
/// `EOF` token.
pub open spec fn well_terminated(tokens: Seq<TokenView>) -> bool {
    tokens.len() > 0 && tokens.last().token_type == TokenType::EOF
}

/// A token sequence with one `EOF` token, which is its last token.
pub open spec fn closed_once(tokens: Seq<TokenView>) -> bool {
    &&& well_terminated(tokens)
    &&& forall|i: int| 0 <= i < tokens.len() - 1 ==> (#[trigger] tokens[i]).token_type != TokenType::EOF
}

impl Clone for Token {
    fn clone(&self) -> (t: Token)
        ensures
            t == *self,
    {
        Token { token_type: self.token_type, lexeme: self.lexeme.clone(), line: self.line }
    }
}

impl Token {
    /// Builds a token from its three parts.
    pub fn new(token_type: TokenType, lexeme: String, line: usize) -> (t: Token)
        ensures
            t.token_type == token_type,
            t.lexeme == lexeme,
            t.line == line,
    {
        Token { token_type, lexeme, line }
    }
}

} // verus!
