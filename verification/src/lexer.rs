//! The lexer: one forward pass over the source text that yields the tokens
//! and the characters it could not place.
//!
//! Letters are the ASCII letters, digits the ASCII digits, and white space
//! is the blank, the tab, the carriage return and the line feed. Any other
//! character that is not one of `+ - * / = ; ( )` is reported and skipped.

use crate::text::{chars_of, decimal, lemma_char_range, push_decimal, spells, string_from};
use crate::token::{closed_once, token_views, Token, TokenType, TokenView};
use vstd::prelude::*;
use vstd::string::StringExecFns;

verus! {

/// A character that the lexer could not place, and its line.
#[derive(Clone, Copy, Debug, PartialEq, Eq, Structural)]
pub struct LexError {
    pub character: char,
    pub line: usize,
}

/// The mathematical value of a [`LexError`].
pub struct LexErrorView {
    pub character: char,
    pub line: nat,
}

impl LexErrorView {
    /// The error as one line of text:
    /// `Lex error: Unexpected character '<character>' at line <line>`.
    pub open spec fn text(self) -> Seq<char> {
        "Lex error: Unexpected character '"@.push(self.character) + "' at line "@ + decimal(
            self.line,
        )
    }
}

impl LexError {
    /// The error as one line of text:
    /// `Lex error: Unexpected character '<character>' at line <line>`.
    pub fn render(&self) -> (text: String)
        ensures
            text@ == self@.text(),
    {
        let mut text = String::from_str("Lex error: Unexpected character '");
        text.push(self.character);
        text.append("' at line ");
        push_decimal(&mut text, self.line);
        text
    }
}

impl View for LexError {
    type V = LexErrorView;

    open spec fn view(&self) -> LexErrorView {
        LexErrorView { character: self.character, line: self.line as nat }
    }
}

/// Whether `c` is an ASCII letter.
pub open spec fn is_letter(c: char) -> bool {
    ('a' <= c && c <= 'z') || ('A' <= c && c <= 'Z')
}

/// Whether `c` is an ASCII digit.
pub open spec fn is_digit(c: char) -> bool {
    '0' <= c && c <= '9'
}

/// Whether `c` may begin an identifier or keyword.
pub open spec fn is_word_start(c: char) -> bool {
    is_letter(c) || c == '_'
}

/// Whether `c` may continue an identifier or keyword.
pub open spec fn is_word_part(c: char) -> bool {
    is_letter(c) || is_digit(c) || c == '_'
}

/// Whether `c` separates tokens without being one.
pub open spec fn is_space(c: char) -> bool {
    c == ' ' || c == '\t' || c == '\r' || c == '\n'
}

/// The kind of the operator or punctuation mark `c`, if it is one.
pub open spec fn punctuation(c: char) -> Option<TokenType> {
    if c == '+' {
        Some(TokenType::Plus)
    } else if c == '-' {
        Some(TokenType::Minus)
    } else if c == '*' {
        Some(TokenType::Star)
    } else if c == '/' {
        Some(TokenType::Slash)
    } else if c == '=' {
        Some(TokenType::Assign)
    } else if c == ';' {
        Some(TokenType::Semicolon)
    } else if c == '(' {
        Some(TokenType::LeftParen)
    } else if c == ')' {
        Some(TokenType::RightParen)
    } else {
        None
    }
}

/// The kind of a word: one of the four keywords, spelled exactly, or else an
/// identifier.
pub open spec fn word_kind(word: Seq<char>) -> TokenType {
    if word == "var"@ {
        TokenType::Var
    } else if word == "if"@ {
        TokenType::If
    } else if word == "else"@ {
        TokenType::Else
    } else if word == "while"@ {
        TokenType::While
    } else {
        TokenType::Identifier
    }
}

/// How many characters from `pos` on can continue a word, counted up to
/// the first that cannot.
pub open spec fn word_run(src: Seq<char>, pos: int) -> nat
    decreases src.len() - pos,
{
    if 0 <= pos < src.len() && is_word_part(src[pos]) {
        1 + word_run(src, pos + 1)
    } else {
        0
    }
}

/// How many characters from `pos` on are digits, counted up to the first
/// that is not.
pub open spec fn digit_run(src: Seq<char>, pos: int) -> nat
    decreases src.len() - pos,
{
    if 0 <= pos < src.len() && is_digit(src[pos]) {
        1 + digit_run(src, pos + 1)
    } else {
        0
    }
}

/// The length of the fraction that follows the digits ending before `pos`:
/// a `.` and the digits behind it where a digit follows that `.`, and
/// nothing otherwise.
pub open spec fn fraction_len(src: Seq<char>, pos: int) -> nat {
    if 0 <= pos && pos + 1 < src.len() && src[pos] == '.' && is_digit(src[pos + 1]) {
        1 + digit_run(src, pos + 1)
    } else {
        0
    }
}

/// What the lexer finds at one position of the source.
pub enum Piece {
    /// White space.
    Space,
    /// A token of the given kind.
    Lexeme(TokenType),
    /// A character that belongs to no token.
    Stray,
}

/// How many characters the piece that begins at `pos` holds, for `pos`
/// inside `src`: a word runs as far as word characters go, a number as far
/// as its digits and one fraction go, and anything else is one character.
pub open spec fn piece_len(src: Seq<char>, pos: int) -> nat {
    let c = src[pos];
    if is_space(c) {
        1
    } else if is_word_start(c) {
        1 + word_run(src, pos + 1)
    } else if is_digit(c) {
        let whole = 1 + digit_run(src, pos + 1);
        whole + fraction_len(src, pos + whole)
    } else {
        1
    }
}

/// What begins at `pos`, for `pos` inside `src`.
pub open spec fn piece_at(src: Seq<char>, pos: int) -> Piece {
    let c = src[pos];
    if is_space(c) {
        Piece::Space
    } else if is_word_start(c) {
        Piece::Lexeme(word_kind(src.subrange(pos, pos + piece_len(src, pos))))
    } else if is_digit(c) {
        Piece::Lexeme(TokenType::Number)
    } else {
        match punctuation(c) {
            Some(kind) => Piece::Lexeme(kind),
            None => Piece::Stray,
        }
    }
}

/// The line number after the character `c` on line `line`: one more after a
/// line feed, as long as the counter has room.
pub open spec fn line_after(line: nat, c: char) -> nat {
    if c == '\n' && line < usize::MAX {
        line + 1
    } else {
        line
    }
}

/// The token that closes every token sequence.
pub open spec fn end_token(line: nat) -> TokenView {
    TokenView { token_type: TokenType::EOF, lexeme: Seq::empty(), line }
}

/// How far the scan still has to go from `pos`.
pub open spec fn remaining(src: Seq<char>, pos: int) -> nat {
    if 0 <= pos < src.len() {
        (src.len() - pos) as nat
    } else {
        0
    }
}

/// The tokens of `src` from `pos` on, the first of them on line `line`, and
/// the closing token at their end.
pub open spec fn scan_tokens(src: Seq<char>, pos: int, line: nat) -> Seq<TokenView>
    decreases remaining(src, pos),
{
    if 0 <= pos < src.len() {
        let end = pos + piece_len(src, pos);
        match piece_at(src, pos) {
            Piece::Space => scan_tokens(src, end, line_after(line, src[pos])),
            Piece::Lexeme(kind) => seq![
                TokenView { token_type: kind, lexeme: src.subrange(pos, end), line },
            ] + scan_tokens(src, end, line),
            Piece::Stray => scan_tokens(src, end, line),
        }
    } else {
        seq![end_token(line)]
    }
}

/// The characters of `src` from `pos` on that belong to no token, each with
/// the line on which it stands, the scan beginning on line `line`.
pub open spec fn scan_errors(src: Seq<char>, pos: int, line: nat) -> Seq<LexErrorView>
    decreases remaining(src, pos),
{
    if 0 <= pos < src.len() {
        let end = pos + piece_len(src, pos);
        match piece_at(src, pos) {
            Piece::Space => scan_errors(src, end, line_after(line, src[pos])),
            Piece::Lexeme(_) => scan_errors(src, end, line),
            Piece::Stray => seq![LexErrorView { character: src[pos], line }] + scan_errors(
                src,
                end,
                line,
            ),
        }
    } else {
        Seq::empty()
    }
}

/// A run of word characters ends inside the source, and what follows it
/// there is no word character.
pub proof fn lemma_word_run(src: Seq<char>, pos: int)
    requires
        0 <= pos <= src.len(),
    ensures
        pos + word_run(src, pos) <= src.len(),
        forall|k: int| pos <= k < pos + word_run(src, pos) ==> is_word_part(#[trigger] src[k]),
        pos + word_run(src, pos) < src.len() ==> !is_word_part(src[pos + word_run(src, pos)]),
    decreases src.len() - pos,
{
    if pos < src.len() && is_word_part(src[pos]) {
        lemma_word_run(src, pos + 1);
    }
}

/// A run of digits ends inside the source, and what follows it there is no
/// digit.
pub proof fn lemma_digit_run(src: Seq<char>, pos: int)
    requires
        0 <= pos <= src.len(),
    ensures
        pos + digit_run(src, pos) <= src.len(),
        forall|k: int| pos <= k < pos + digit_run(src, pos) ==> is_digit(#[trigger] src[k]),
        pos + digit_run(src, pos) < src.len() ==> !is_digit(src[pos + digit_run(src, pos)]),
    decreases src.len() - pos,
{
    if pos < src.len() && is_digit(src[pos]) {
        lemma_digit_run(src, pos + 1);
    }
}

/// Every piece holds at least one character and ends inside the source.
pub proof fn lemma_piece_len_bounds(src: Seq<char>, pos: int)
    requires
        0 <= pos < src.len(),
    ensures
        1 <= piece_len(src, pos),
        pos + piece_len(src, pos) <= src.len(),
{
    lemma_word_run(src, pos + 1);
    lemma_digit_run(src, pos + 1);
    let whole = 1 + digit_run(src, pos + 1);
    if pos + whole + 1 < src.len() {
        lemma_digit_run(src, pos + whole + 1);
    }
}

/// Whatever the source holds, its tokens end in an `EOF` token, and no
/// other of them is one.
pub proof fn lemma_scan_closed_once(src: Seq<char>, pos: int, line: nat)
    ensures
        closed_once(scan_tokens(src, pos, line)),
    decreases remaining(src, pos),
{
    if 0 <= pos < src.len() {
        let end = pos + piece_len(src, pos);
        match piece_at(src, pos) {
            Piece::Space => {
                lemma_scan_closed_once(src, end, line_after(line, src[pos]));
            },
            Piece::Lexeme(kind) => {
                lemma_scan_closed_once(src, end, line);
                let first = TokenView { token_type: kind, lexeme: src.subrange(pos, end), line };
                let rest = scan_tokens(src, end, line);
                let all = seq![first] + rest;
                assert(scan_tokens(src, pos, line) == all);
                assert(kind != TokenType::EOF);
                assert(all.last() == rest.last());
                assert forall|i: int| 0 <= i < all.len() - 1 implies (#[trigger] all[i]).token_type
                    != TokenType::EOF by {
                    if i > 0 {
                        assert(all[i] == rest[i - 1]);
                    }
                }
            },
            Piece::Stray => {
                lemma_scan_closed_once(src, end, line);
            },
        }
    }
}

/// Whether `text` is written as a number: digits, or digits with one `.`
/// among them that stands neither first nor last.
pub open spec fn is_number_text(text: Seq<char>) -> bool {
    &&& text.len() > 0
    &&& is_digit(text[0])
    &&& is_digit(text.last())
    &&& forall|i: int| 0 <= i < text.len() ==> is_digit(#[trigger] text[i]) || text[i] == '.'
    &&& forall|i: int, j: int|
        0 <= i < j < text.len() ==> !(#[trigger] text[i] == '.' && #[trigger] text[j] == '.')
}

/// Whether `text` is written as a word: a letter or `_`, and letters, digits
/// and `_` behind it.
pub open spec fn is_word_text(text: Seq<char>) -> bool {
    &&& text.len() > 0
    &&& is_word_start(text[0])
    &&& forall|i: int| 0 <= i < text.len() ==> is_word_part(#[trigger] text[i])
}

/// Whether a token has the form that its kind promises: a number is written
/// as one, an identifier is a word that is no keyword, a keyword is spelled
/// exactly, an operator or punctuation mark is its one character, and the
/// `EOF` token has no text.
pub open spec fn well_shaped(token: TokenView) -> bool {
    let text = token.lexeme;
    match token.token_type {
        TokenType::EOF => text.len() == 0,
        TokenType::Number => is_number_text(text),
        TokenType::Identifier => is_word_text(text) && word_kind(text) == TokenType::Identifier,
        TokenType::Var => text == "var"@,
        TokenType::If => text == "if"@,
        TokenType::Else => text == "else"@,
        TokenType::While => text == "while"@,
        kind => text.len() == 1 && punctuation(text[0]) == Some(kind),
    }
}

/// The text of a piece that is a token has the form that its kind promises.
pub proof fn lemma_piece_well_shaped(src: Seq<char>, pos: int, line: nat)
    requires
        0 <= pos < src.len(),
        piece_at(src, pos) is Lexeme,
    ensures
        well_shaped(
            TokenView {
                token_type: piece_at(src, pos)->0,
                lexeme: src.subrange(pos, pos + piece_len(src, pos)),
                line,
            },
        ),
{
    lemma_piece_len_bounds(src, pos);
    let c = src[pos];
    let end = pos + piece_len(src, pos);
    let text = src.subrange(pos, end);
    if is_word_start(c) {
        lemma_word_run(src, pos + 1);
        assert forall|i: int| 0 <= i < text.len() implies is_word_part(#[trigger] text[i]) by {
            if i > 0 {
                assert(is_word_part(src[pos + i]));
            }
        }
    } else if is_digit(c) {
        let whole = 1 + digit_run(src, pos + 1);
        lemma_digit_run(src, pos + 1);
        if fraction_len(src, pos + whole) > 0 {
            lemma_digit_run(src, pos + whole + 1);
        }
        assert forall|i: int| 0 <= i < text.len() implies (is_digit(#[trigger] text[i])
            <==> i != whole) && (text[i] == '.' <==> i == whole) by {
            if 0 < i < whole {
                assert(is_digit(src[pos + i]));
            } else if i > whole {
                assert(is_digit(src[pos + i]));
            }
        }
        assert(is_digit(text.last())) by {
            assert(text.last() == text[text.len() - 1]);
        }
    }
}

/// Every token of a scan has the form that its kind promises.
pub proof fn lemma_scan_well_shaped(src: Seq<char>, pos: int, line: nat)
    ensures
        forall|i: int|
            0 <= i < scan_tokens(src, pos, line).len() ==> well_shaped(
                #[trigger] scan_tokens(src, pos, line)[i],
            ),
    decreases remaining(src, pos),
{
    let all = scan_tokens(src, pos, line);
    if 0 <= pos < src.len() {
        let end = pos + piece_len(src, pos);
        match piece_at(src, pos) {
            Piece::Space => {
                lemma_scan_well_shaped(src, end, line_after(line, src[pos]));
                assert(all == scan_tokens(src, end, line_after(line, src[pos])));
            },
            Piece::Lexeme(kind) => {
                lemma_scan_well_shaped(src, end, line);
                lemma_piece_well_shaped(src, pos, line);
                let first = TokenView { token_type: kind, lexeme: src.subrange(pos, end), line };
                let rest = scan_tokens(src, end, line);
                assert(all == seq![first] + rest);
                assert forall|i: int| 0 <= i < all.len() implies well_shaped(#[trigger] all[i]) by {
                    if i > 0 {
                        assert(all[i] == rest[i - 1]);
                    } else {
                        assert(all[0] == first);
                    }
                }
            },
            Piece::Stray => {
                lemma_scan_well_shaped(src, end, line);
                assert(all == scan_tokens(src, end, line));
            },
        }
    } else {
        assert(all =~= seq![end_token(line)]);
        assert(well_shaped(end_token(line)));
    }
}

/// The tokens of the whole text `src`.
pub open spec fn lex(src: Seq<char>) -> Seq<TokenView> {
    scan_tokens(src, 0, 1)
}

/// The characters of the whole text `src` that belong to no token.
pub open spec fn lex_errors(src: Seq<char>) -> Seq<LexErrorView> {
    scan_errors(src, 0, 1)
}

/// The mathematical values of a sequence of lexical errors.
pub open spec fn error_views(errors: Seq<LexError>) -> Seq<LexErrorView> {
    errors.map_values(|e: LexError| e@)
}

fn letter(c: char) -> (b: bool)
    ensures
        b == is_letter(c),
{
    ('a' <= c && c <= 'z') || ('A' <= c && c <= 'Z')
}

fn numeral(c: char) -> (b: bool)
    ensures
        b == is_digit(c),
{
    '0' <= c && c <= '9'
}

fn word_start(c: char) -> (b: bool)
    ensures
        b == is_word_start(c),
{
    letter(c) || c == '_'
}

fn word_part(c: char) -> (b: bool)
    ensures
        b == is_word_part(c),
{
    letter(c) || numeral(c) || c == '_'
}

fn space(c: char) -> (b: bool)
    ensures
        b == is_space(c),
{
    c == ' ' || c == '\t' || c == '\r' || c == '\n'
}

fn punctuation_kind(c: char) -> (kind: Option<TokenType>)
    ensures
        kind == punctuation(c),
{
    if c == '+' {
        Some(TokenType::Plus)
    } else if c == '-' {
        Some(TokenType::Minus)
    } else if c == '*' {
        Some(TokenType::Star)
    } else if c == '/' {
        Some(TokenType::Slash)
    } else if c == '=' {
        Some(TokenType::Assign)
    } else if c == ';' {
        Some(TokenType::Semicolon)
    } else if c == '(' {
        Some(TokenType::LeftParen)
    } else if c == ')' {
        Some(TokenType::RightParen)
    } else {
        None
    }
}

/// The end of the run of word characters that begins at `pos`.
fn find_word_end(src: &Vec<char>, pos: usize) -> (end: usize)
    requires
        pos <= src.len(),
    ensures
        end == pos + word_run(src@, pos as int),
        pos <= end <= src.len(),
{
    let mut end: usize = pos;
    while end < src.len() && word_part(src[end])
        invariant
            pos <= end <= src.len(),
            pos + word_run(src@, pos as int) == end + word_run(src@, end as int),
        decreases src.len() - end,
    {
        end += 1;
    }
    end
}

/// The end of the run of digits that begins at `pos`.
fn find_digits_end(src: &Vec<char>, pos: usize) -> (end: usize)
    requires
        pos <= src.len(),
    ensures
        end == pos + digit_run(src@, pos as int),
        pos <= end <= src.len(),
{
    let mut end: usize = pos;
    while end < src.len() && numeral(src[end])
        invariant
            pos <= end <= src.len(),
            pos + digit_run(src@, pos as int) == end + digit_run(src@, end as int),
        decreases src.len() - end,
    {
        end += 1;
    }
    end
}

/// The end of the number literal that begins with the digit at `pos`.
fn find_number_end(src: &Vec<char>, pos: usize) -> (end: usize)
    requires
        pos < src.len(),
        is_digit(src@[pos as int]),
    ensures
        end == pos + piece_len(src@, pos as int),
        pos < end <= src.len(),
{
    let whole = find_digits_end(src, pos + 1);
    if whole < src.len() && src[whole] == '.' && whole + 1 < src.len() && numeral(src[whole + 1]) {
        find_digits_end(src, whole + 1)
    } else {
        whole
    }
}

/// The kind of the word that `src` holds from `from` up to `to`.
fn find_word_kind(src: &Vec<char>, from: usize, to: usize) -> (kind: TokenType)
    requires
        from <= to <= src.len(),
    ensures
        kind == word_kind(src@.subrange(from as int, to as int)),
{
    if spells(src, from, to, "var") {
        TokenType::Var
    } else if spells(src, from, to, "if") {
        TokenType::If
    } else if spells(src, from, to, "else") {
        TokenType::Else
    } else if spells(src, from, to, "while") {
        TokenType::While
    } else {
        TokenType::Identifier
    }
}

/// A scanner over one source text.
pub struct Lexer {
    source: Vec<char>,
    position: usize,
    line: usize,
    errors: Vec<LexError>,
}

impl Lexer {
    /// The lexer stands inside its source or at its end.
    pub closed spec fn well_formed(&self) -> bool {
        self.position <= self.source.len()
    }

    /// The source text.
    pub closed spec fn source(&self) -> Seq<char> {
        self.source@
    }

    /// How many characters of the source are behind the lexer.
    pub closed spec fn position(&self) -> int {
        self.position as int
    }

    /// The line on which the lexer stands.
    pub closed spec fn line(&self) -> nat {
        self.line as nat
    }

    /// The lexical errors met so far, oldest first.
    pub closed spec fn reported(&self) -> Seq<LexErrorView> {
        error_views(self.errors@)
    }

    /// A lexer at the start of `source`, on line 1, with no error met.
    pub fn new(source: &str) -> (lexer: Lexer)
        ensures
            lexer.well_formed(),
            lexer.source() == source@,
            lexer.position() == 0,
            lexer.line() == 1,
            lexer.reported() == Seq::<LexErrorView>::empty(),
    {
        let lexer = Lexer { source: chars_of(source), position: 0, line: 1, errors: Vec::new() };
        assert(error_views(lexer.errors@) =~= Seq::<LexErrorView>::empty());
        lexer
    }

    /// Scans what is left of the source and returns its tokens, closed by one
    /// `EOF` token. Characters that belong to no token are skipped and added
    /// to the errors. The lexer is left at the end of the source. The scan
    /// ends on every source, the empty one too.
    pub fn tokenize(&mut self) -> (tokens: Vec<Token>)
        requires
            old(self).well_formed(),
        ensures
            final(self).well_formed(),
            closed_once(token_views(tokens@)),
            forall|i: int| 0 <= i < tokens@.len() ==> well_shaped(#[trigger] tokens@[i]@),
            token_views(tokens@) == scan_tokens(
                old(self).source(),
                old(self).position(),
                old(self).line(),
            ),
            final(self).reported() == old(self).reported() + scan_errors(
                old(self).source(),
                old(self).position(),
                old(self).line(),
            ),
            final(self).source() == old(self).source(),
            final(self).position() == old(self).source().len(),
            final(self).line() == tokens@.last().line,
    {
        let mut tokens: Vec<Token> = Vec::new();
        let ghost src = self.source@;
        let ghost all_tokens = scan_tokens(src, self.position as int, self.line as nat);
        let ghost all_errors = scan_errors(src, self.position as int, self.line as nat);
        proof {
            lemma_scan_closed_once(src, self.position as int, self.line as nat);
            lemma_scan_well_shaped(src, self.position as int, self.line as nat);
        }
        let ghost old_errors = error_views(self.errors@);
        assert(token_views(tokens@) + all_tokens =~= all_tokens);
        while self.position < self.source.len()
            invariant
                self.source@ == src,
                self.position <= src.len(),
                token_views(tokens@) + scan_tokens(src, self.position as int, self.line as nat)
                    == all_tokens,
                error_views(self.errors@) + scan_errors(
                    src,
                    self.position as int,
                    self.line as nat,
                ) == old_errors + all_errors,
            decreases src.len() - self.position,
        {
            let start = self.position;
            let c = self.source[start];
            let ghost before = token_views(tokens@);
            let ghost errors_before = error_views(self.errors@);
            let ghost end = start + piece_len(src, start as int);
            let ghost rest = scan_tokens(src, end, self.line as nat);
            let ghost errors_rest = scan_errors(src, end, self.line as nat);
            proof {
                lemma_piece_len_bounds(src, start as int);
            }
            if space(c) {
                if c == '\n' && self.line < usize::MAX {
                    self.line += 1;
                }
                self.position = start + 1;
            } else if word_start(c) {
                let end = find_word_end(&self.source, start + 1);
                let kind = find_word_kind(&self.source, start, end);
                let token = Token::new(kind, string_from(&self.source, start, end), self.line);
                tokens.push(token);
                self.position = end;
                assert(token_views(tokens@) =~= before.push(token@));
                assert(before.push(token@) + rest =~= before + (seq![token@] + rest));
            } else if numeral(c) {
                let end = find_number_end(&self.source, start);
                let token = Token::new(
                    TokenType::Number,
                    string_from(&self.source, start, end),
                    self.line,
                );
                tokens.push(token);
                self.position = end;
                assert(token_views(tokens@) =~= before.push(token@));
                assert(before.push(token@) + rest =~= before + (seq![token@] + rest));
            } else {
                match punctuation_kind(c) {
                    Some(kind) => {
                        let token = Token::new(
                            kind,
                            string_from(&self.source, start, start + 1),
                            self.line,
                        );
                        tokens.push(token);
                        self.position = start + 1;
                        assert(token_views(tokens@) =~= before.push(token@));
                        assert(before.push(token@) + rest =~= before + (seq![token@] + rest));
                    },
                    None => {
                        let error = LexError { character: c, line: self.line };
                        let ghost found = error@;
                        proof {
                            lemma_char_range(c);
                        }
                        self.errors.push(error);
                        self.position = start + 1;
                        assert(error_views(self.errors@) =~= errors_before.push(found));
                        assert(errors_before.push(found) + errors_rest =~= errors_before + (
                        seq![found] + errors_rest));
                    },
                }
            }
        }
        let last = Token::new(TokenType::EOF, String::new(), self.line);
        let ghost before = token_views(tokens@);
        tokens.push(last);
        assert(token_views(tokens@) =~= before.push(last@));
        assert(before.push(last@) =~= before + seq![end_token(self.line as nat)]);
        assert(error_views(self.errors@) + Seq::<LexErrorView>::empty() =~= error_views(
            self.errors@,
        ));
        assert forall|i: int| 0 <= i < tokens@.len() implies well_shaped(
            #[trigger] tokens@[i]@,
        ) by {
            assert(token_views(tokens@)[i] == tokens@[i]@);
        }
        tokens
    }

    /// The lexical errors met so far, oldest first.
    pub fn errors(&self) -> (errors: &Vec<LexError>)
        ensures
            error_views(errors@) == self.reported(),
    {
        &self.errors
    }

    /// Gives up the lexer for the lexical errors it has met, oldest first.
    pub fn into_errors(self) -> (errors: Vec<LexError>)
        ensures
            error_views(errors@) == self.reported(),
    {
        self.errors
    }
}

} // verus!
