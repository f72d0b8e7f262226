use put_lang::lexer::{LexError, Lexer};
use put_lang::token::{Token, TokenType};

fn lex(source: &str) -> Vec<Token> {
    Lexer::new(source).tokenize()
}

fn kinds(source: &str) -> Vec<TokenType> {
    lex(source).iter().map(|t| t.token_type).collect()
}

fn lexemes(source: &str) -> Vec<String> {
    lex(source).iter().map(|t| t.lexeme.clone()).collect()
}

fn errors(source: &str) -> Vec<LexError> {
    let mut lexer = Lexer::new(source);
    lexer.tokenize();
    lexer.errors().clone()
}

#[test]
fn empty_input_yields_only_eof() {
    assert_eq!(lex(""), vec![Token::new(TokenType::EOF, String::new(), 1)]);
}

#[test]
fn whitespace_only_yields_only_eof() {
    assert_eq!(kinds(" \t\r "), vec![TokenType::EOF]);
}

#[test]
fn worked_scenario_tokens() {
    let source = "var x = (42 + 5) * 2 - 3 / 1.5;";
    assert_eq!(
        kinds(source),
        vec![
            TokenType::Var,
            TokenType::Identifier,
            TokenType::Assign,
            TokenType::LeftParen,
            TokenType::Number,
            TokenType::Plus,
            TokenType::Number,
            TokenType::RightParen,
            TokenType::Star,
            TokenType::Number,
            TokenType::Minus,
            TokenType::Number,
            TokenType::Slash,
            TokenType::Number,
            TokenType::Semicolon,
            TokenType::EOF,
        ]
    );
    assert_eq!(
        lexemes(source),
        vec!["var", "x", "=", "(", "42", "+", "5", ")", "*", "2", "-", "3", "/", "1.5", ";", ""]
    );
    assert!(errors(source).is_empty());
}

#[test]
fn every_punctuation_mark_is_a_token() {
    assert_eq!(
        kinds("+-*/=;()"),
        vec![
            TokenType::Plus,
            TokenType::Minus,
            TokenType::Star,
            TokenType::Slash,
            TokenType::Assign,
            TokenType::Semicolon,
            TokenType::LeftParen,
            TokenType::RightParen,
            TokenType::EOF,
        ]
    );
}

#[test]
fn keywords_are_case_sensitive_and_whole_words() {
    assert_eq!(
        kinds("var if else while"),
        vec![TokenType::Var, TokenType::If, TokenType::Else, TokenType::While, TokenType::EOF]
    );
    assert_eq!(
        kinds("Var IF elsee whil variable _if if2"),
        vec![
            TokenType::Identifier,
            TokenType::Identifier,
            TokenType::Identifier,
            TokenType::Identifier,
            TokenType::Identifier,
            TokenType::Identifier,
            TokenType::Identifier,
            TokenType::EOF,
        ]
    );
}

#[test]
fn identifiers_may_hold_digits_and_underscores_after_the_start() {
    assert_eq!(lexemes("_a1_b2 x9"), vec!["_a1_b2", "x9", ""]);
    assert_eq!(kinds("_"), vec![TokenType::Identifier, TokenType::EOF]);
}

#[test]
fn a_digit_starts_a_number_not_an_identifier() {
    assert_eq!(kinds("9x"), vec![TokenType::Number, TokenType::Identifier, TokenType::EOF]);
    assert_eq!(lexemes("9x"), vec!["9", "x", ""]);
}

#[test]
fn number_keeps_one_fraction() {
    assert_eq!(lexemes("3 3.0 1.5 007 12.250"), vec!["3", "3.0", "1.5", "007", "12.250", ""]);
}

#[test]
fn a_dot_without_a_digit_behind_it_is_not_part_of_a_number() {
    assert_eq!(lexemes("3."), vec!["3", ""]);
    assert_eq!(errors("3."), vec![LexError { character: '.', line: 1 }]);
    assert_eq!(lexemes("3.x"), vec!["3", "x", ""]);
}

#[test]
fn a_second_dot_ends_the_number() {
    assert_eq!(lexemes("1.2.3"), vec!["1.2", "3", ""]);
    assert_eq!(errors("1.2.3"), vec![LexError { character: '.', line: 1 }]);
    assert_eq!(lexemes(".5"), vec!["5", ""]);
}

#[test]
fn lines_are_counted_from_one() {
    let tokens = lex("a\nb\n\n c");
    let lines: Vec<usize> = tokens.iter().map(|t| t.line).collect();
    assert_eq!(lines, vec![1, 2, 4, 4]);
}

#[test]
fn eof_token_stands_on_the_last_line() {
    let tokens = lex("a\n\n");
    assert_eq!(tokens.last(), Some(&Token::new(TokenType::EOF, String::new(), 3)));
}

#[test]
fn unrecognized_characters_are_reported_and_skipped() {
    let mut lexer = Lexer::new("a @ b\n# c $");
    let tokens = lexer.tokenize();
    let found: Vec<&str> = tokens.iter().map(|t| t.lexeme.as_str()).collect();
    assert_eq!(found, vec!["a", "b", "c", ""]);
    assert_eq!(
        lexer.errors(),
        &vec![
            LexError { character: '@', line: 1 },
            LexError { character: '#', line: 2 },
            LexError { character: '$', line: 2 },
        ]
    );
}

#[test]
fn letters_outside_ascii_are_unrecognized() {
    assert_eq!(lexemes("é x"), vec!["x", ""]);
    assert_eq!(errors("é x"), vec![LexError { character: 'é', line: 1 }]);
}

#[test]
fn token_sequence_ends_with_exactly_one_eof() {
    for source in ["", "x", "var x = 1;", "@@@", "1.5.", "if (a) b else c\n"] {
        let found = kinds(source);
        assert_eq!(found.last(), Some(&TokenType::EOF));
        assert_eq!(found.iter().filter(|k| **k == TokenType::EOF).count(), 1);
    }
}

#[test]
fn tokenizing_again_yields_only_eof() {
    let mut lexer = Lexer::new("a b\n");
    assert_eq!(lexer.tokenize().len(), 3);
    assert_eq!(lexer.tokenize(), vec![Token::new(TokenType::EOF, String::new(), 2)]);
}

#[test]
fn lexical_error_renders_character_and_line() {
    let error = LexError { character: '@', line: 12 };
    assert_eq!(error.render(), "Lex error: Unexpected character '@' at line 12");
}

#[test]
fn token_clone_is_equal() {
    let token = Token::new(TokenType::Number, "1.5".to_string(), 7);
    assert_eq!(token.clone(), token);
}
