use put_lang::ast::{
    AssignmentNode, BinaryOperationNode, BinaryOperator, DataType, IfNode, NumberNode,
    ParenthesisNode, ProgramNode, StatementNode, VariableNode, WhileNode,
};
use put_lang::lexer::Lexer;
use put_lang::parser::{Diagnostic, Parser};
use put_lang::token::{Token, TokenType};

fn parser_for(source: &str) -> Parser {
    Parser::new(Lexer::new(source).tokenize())
}

fn parse(source: &str) -> (Vec<StatementNode>, Vec<String>) {
    let mut parser = parser_for(source);
    let program = parser.parse();
    let diagnostics = parser.diagnostics().iter().map(|d| d.render()).collect();
    (program.statements, diagnostics)
}

fn var(name: &str) -> StatementNode {
    StatementNode::Variable(VariableNode::new(name.to_string(), DataType::Integer))
}

fn integer(text: &str) -> StatementNode {
    StatementNode::Number(NumberNode::new(text.to_string(), DataType::Integer))
}

fn decimal(text: &str) -> StatementNode {
    StatementNode::Number(NumberNode::new(text.to_string(), DataType::Float))
}

fn bin(left: StatementNode, operator: BinaryOperator, right: StatementNode) -> StatementNode {
    StatementNode::BinaryOperation(BinaryOperationNode::new(
        Box::new(left),
        operator,
        Box::new(right),
    ))
}

fn paren(inner: StatementNode) -> StatementNode {
    StatementNode::Parenthesis(ParenthesisNode::new(Box::new(inner)))
}

fn assign(left: StatementNode, right: StatementNode) -> StatementNode {
    StatementNode::Assignment(AssignmentNode::new(Box::new(left), Box::new(right)))
}

fn cond(c: StatementNode, t: StatementNode, e: Option<StatementNode>) -> StatementNode {
    StatementNode::If(IfNode::new(Box::new(c), Box::new(t), e.map(Box::new)))
}

fn repeat(c: StatementNode, b: StatementNode) -> StatementNode {
    StatementNode::While(WhileNode::new(Box::new(c), Box::new(b)))
}

#[test]
fn multiplication_binds_tighter_than_addition() {
    let (statements, diagnostics) = parse("a + b * c");
    assert_eq!(
        statements,
        vec![bin(
            var("a"),
            BinaryOperator::Add,
            bin(var("b"), BinaryOperator::Multiply, var("c"))
        )]
    );
    assert!(diagnostics.is_empty());
}

#[test]
fn parentheses_override_precedence_and_are_kept() {
    let (statements, _) = parse("(a + b) * c");
    assert_eq!(
        statements,
        vec![bin(
            paren(bin(var("a"), BinaryOperator::Add, var("b"))),
            BinaryOperator::Multiply,
            var("c")
        )]
    );
}

#[test]
fn operators_of_one_level_associate_to_the_left() {
    let (statements, _) = parse("a - b + c");
    assert_eq!(
        statements,
        vec![bin(
            bin(var("a"), BinaryOperator::Subtract, var("b")),
            BinaryOperator::Add,
            var("c")
        )]
    );
    let (statements, _) = parse("a / b * c / d");
    assert_eq!(
        statements,
        vec![bin(
            bin(
                bin(var("a"), BinaryOperator::Divide, var("b")),
                BinaryOperator::Multiply,
                var("c")
            ),
            BinaryOperator::Divide,
            var("d")
        )]
    );
}

#[test]
fn declaration_without_initializer_is_a_bare_variable() {
    let (statements, diagnostics) = parse("var x;");
    assert_eq!(statements, vec![var("x")]);
    assert!(diagnostics.is_empty());
}

#[test]
fn declaration_with_initializer_is_an_assignment() {
    let (statements, diagnostics) = parse("var x = 42 + 5;");
    assert_eq!(
        statements,
        vec![assign(var("x"), bin(integer("42"), BinaryOperator::Add, integer("5")))]
    );
    assert!(diagnostics.is_empty());
}

#[test]
fn literal_with_a_dot_is_float() {
    let (statements, _) = parse("3 3.0 1.5");
    assert_eq!(statements, vec![integer("3"), decimal("3.0"), decimal("1.5")]);
}

#[test]
fn literal_text_is_kept_verbatim() {
    let (statements, _) = parse("007 1.50");
    assert_eq!(statements, vec![integer("007"), decimal("1.50")]);
}

#[test]
fn statements_keep_source_order() {
    let (statements, diagnostics) = parse("var a; var b = 1; var c; x + y var d = 2.5;");
    assert_eq!(
        statements,
        vec![
            var("a"),
            assign(var("b"), integer("1")),
            var("c"),
            bin(var("x"), BinaryOperator::Add, var("y")),
            assign(var("d"), decimal("2.5")),
        ]
    );
    assert!(diagnostics.is_empty());
}

#[test]
fn missing_initializer_stops_with_no_statement() {
    let (statements, diagnostics) = parse("var x = ;");
    assert!(statements.is_empty());
    assert_eq!(diagnostics, vec!["Parse error: Unexpected token at line 1"]);
}

#[test]
fn parsing_stops_at_the_first_failure() {
    let mut parser = parser_for("var a;\nvar b = 1;\nvar = 2;\nvar c;");
    let program = parser.parse();
    assert_eq!(program.statements, vec![var("a"), assign(var("b"), integer("1"))]);
    assert_eq!(parser.diagnostics().len(), 1);
    assert_eq!(
        parser.diagnostics()[0].render(),
        "Parse error: Expect variable name. at line 3"
    );
    assert_eq!(parser.diagnostics()[0].line(), 3);
    assert_eq!(parser.diagnostics()[0].token, Token::new(TokenType::Assign, "=".to_string(), 3));
    assert_eq!(parser.peek().token_type, TokenType::Assign);
}

#[test]
fn empty_input_is_an_empty_program() {
    let (statements, diagnostics) = parse("");
    assert!(statements.is_empty());
    assert!(diagnostics.is_empty());
}

#[test]
fn worked_scenario_tree() {
    let (statements, diagnostics) = parse("var x = (42 + 5) * 2 - 3 / 1.5;");
    assert_eq!(
        statements,
        vec![assign(
            var("x"),
            bin(
                bin(
                    paren(bin(integer("42"), BinaryOperator::Add, integer("5"))),
                    BinaryOperator::Multiply,
                    integer("2")
                ),
                BinaryOperator::Subtract,
                bin(integer("3"), BinaryOperator::Divide, decimal("1.5"))
            )
        )]
    );
    assert!(diagnostics.is_empty());
}

#[test]
fn if_without_else() {
    let (statements, _) = parse("if (a) var b;");
    assert_eq!(statements, vec![cond(var("a"), var("b"), None)]);
}

#[test]
fn if_with_else() {
    let (statements, _) = parse("if (a + 1) b else var c = 2;");
    assert_eq!(
        statements,
        vec![cond(
            bin(var("a"), BinaryOperator::Add, integer("1")),
            var("b"),
            Some(assign(var("c"), integer("2")))
        )]
    );
}

#[test]
fn else_belongs_to_the_nearest_if() {
    let (statements, _) = parse("if (a) if (b) c else d");
    assert_eq!(
        statements,
        vec![cond(var("a"), cond(var("b"), var("c"), Some(var("d"))), None)]
    );
}

#[test]
fn while_with_single_statement_body() {
    let (statements, _) = parse("while (n) n - 1");
    assert_eq!(
        statements,
        vec![repeat(var("n"), bin(var("n"), BinaryOperator::Subtract, integer("1")))]
    );
}

#[test]
fn while_nested_in_if() {
    let (statements, _) = parse("if (a) while (b) c else d");
    assert_eq!(
        statements,
        vec![cond(var("a"), repeat(var("b"), var("c")), Some(var("d")))]
    );
}

#[test]
fn each_expectation_has_its_message() {
    let cases = [
        ("if a", "Parse error: Expect '(' after 'if'. at line 1"),
        ("if (a b", "Parse error: Expect ')' after if condition. at line 1"),
        ("while a", "Parse error: Expect '(' after 'while'. at line 1"),
        ("while (a b", "Parse error: Expect ')' after while condition. at line 1"),
        ("var 1", "Parse error: Expect variable name. at line 1"),
        ("var x", "Parse error: Expect ';' after variable declaration. at line 1"),
        ("var x = 1", "Parse error: Expect ';' after variable declaration. at line 1"),
        ("(a + b", "Parse error: Expect ')' after expression. at line 1"),
        (")", "Parse error: Unexpected token at line 1"),
        ("a +", "Parse error: Unexpected token at line 1"),
        ("\n\nif (a)\n", "Parse error: Unexpected token at line 4"),
    ];
    for (source, expected) in cases {
        let (statements, diagnostics) = parse(source);
        assert!(statements.is_empty(), "{}", source);
        assert_eq!(diagnostics, vec![expected.to_string()], "{}", source);
    }
}

#[test]
fn a_lone_semicolon_is_no_statement() {
    let (statements, diagnostics) = parse("a; b");
    assert_eq!(statements, vec![var("a")]);
    assert_eq!(diagnostics.len(), 1);
}

#[test]
fn failure_inside_a_branch_fails_the_whole_statement() {
    let (statements, diagnostics) = parse("var a; if (a) var b = ;");
    assert_eq!(statements, vec![var("a")]);
    assert_eq!(diagnostics, vec!["Parse error: Unexpected token at line 1"]);
}

#[test]
fn cursor_methods_follow_the_tokens() {
    let mut parser = parser_for("a + 1");
    assert!(!parser.is_at_end());
    assert!(parser.check(TokenType::Identifier));
    assert!(!parser.check(TokenType::Plus));
    assert!(!parser.match_token(TokenType::Plus));
    assert!(parser.match_token(TokenType::Identifier));
    assert_eq!(parser.previous().lexeme, "a");
    assert!(parser.match_any(&[TokenType::Minus, TokenType::Plus]));
    assert_eq!(parser.previous().token_type, TokenType::Plus);
    assert!(!parser.match_any(&[TokenType::Minus, TokenType::Plus]));
    assert_eq!(parser.advance().lexeme, "1");
    assert!(parser.is_at_end());
    assert!(!parser.check(TokenType::EOF));
    assert_eq!(parser.advance().lexeme, "1");
    assert_eq!(parser.peek().token_type, TokenType::EOF);
    assert!(parser.diagnostics().is_empty());
}

#[test]
fn consume_takes_the_token_or_records_the_failure() {
    let mut parser = parser_for("x\n)");
    assert_eq!(
        parser.consume(TokenType::Identifier, "Expect a name."),
        Some(&Token::new(TokenType::Identifier, "x".to_string(), 1))
    );
    assert_eq!(parser.consume(TokenType::Semicolon, "Expect ';'."), None);
    assert_eq!(
        parser.diagnostics(),
        &vec![Diagnostic {
            message: "Expect ';'.".to_string(),
            token: Token::new(TokenType::RightParen, ")".to_string(), 2),
        }]
    );
    assert_eq!(parser.peek().token_type, TokenType::RightParen);
}

#[test]
fn expression_parser_leaves_what_follows() {
    let mut parser = parser_for("a * (b - 2) ; c");
    let found = parser.parse_expression();
    assert_eq!(
        found,
        Some(bin(
            var("a"),
            BinaryOperator::Multiply,
            paren(bin(var("b"), BinaryOperator::Subtract, integer("2")))
        ))
    );
    assert_eq!(parser.peek().token_type, TokenType::Semicolon);
}

#[test]
fn productions_can_be_called_one_by_one() {
    let mut parser = parser_for("7 x (y) 2 * 3 4 + 5 if");
    assert_eq!(parser.parse_primary(), Some(integer("7")));
    assert_eq!(parser.parse_primary(), Some(var("x")));
    assert_eq!(parser.parse_primary(), Some(paren(var("y"))));
    assert_eq!(
        parser.parse_multiplication(),
        Some(bin(integer("2"), BinaryOperator::Multiply, integer("3")))
    );
    assert_eq!(parser.parse_addition(), Some(bin(integer("4"), BinaryOperator::Add, integer("5"))));
    assert_eq!(parser.parse_primary(), None);
    assert_eq!(parser.diagnostics().len(), 1);
}

#[test]
fn statement_parsers_read_from_behind_the_keyword() {
    let mut parser = parser_for("(a) b (c) d x = 1; y;");
    assert_eq!(parser.parse_if_statement(), Some(cond(var("a"), var("b"), None)));
    assert_eq!(parser.parse_while_statement(), Some(repeat(var("c"), var("d"))));
    assert_eq!(parser.parse_variable_declaration(), Some(assign(var("x"), integer("1"))));
    assert_eq!(parser.parse_variable_declaration(), Some(var("y")));
    assert!(parser.is_at_end());
}

#[test]
fn new_program_is_empty() {
    assert_eq!(ProgramNode::new().statements, Vec::<StatementNode>::new());
}

#[test]
fn parsing_twice_finds_nothing_more() {
    let mut parser = parser_for("a b");
    assert_eq!(parser.parse().statements.len(), 2);
    assert!(parser.parse().statements.is_empty());
}

#[test]
fn deep_nesting_terminates() {
    let mut source = String::new();
    for _ in 0..200 {
        source.push('(');
    }
    source.push('x');
    for _ in 0..200 {
        source.push(')');
    }
    let (statements, diagnostics) = parse(&source);
    assert_eq!(statements.len(), 1);
    assert!(diagnostics.is_empty());
}

#[test]
fn analysis_of_a_sound_source() {
    let analysis = put_lang::front_end::analyze("var x = 1;\nx + 2");
    assert_eq!(
        analysis.program.statements,
        vec![
            assign(var("x"), integer("1")),
            bin(var("x"), BinaryOperator::Add, integer("2")),
        ]
    );
    assert!(analysis.lexical_errors.is_empty());
    assert!(analysis.diagnostics.is_empty());
}

#[test]
fn analysis_keeps_lexical_errors_and_the_failure() {
    let analysis = put_lang::front_end::analyze("var a;\n@ var b = ;\nvar c;");
    assert_eq!(analysis.program.statements, vec![var("a")]);
    assert_eq!(
        analysis.lexical_errors,
        vec![put_lang::lexer::LexError { character: '@', line: 2 }]
    );
    assert_eq!(analysis.diagnostics.len(), 1);
    assert_eq!(analysis.diagnostics[0].render(), "Parse error: Unexpected token at line 2");
    assert_eq!(
        analysis.diagnostics[0].token,
        Token::new(TokenType::Semicolon, ";".to_string(), 2)
    );
}

#[test]
fn giving_up_lexer_and_parser_hands_out_what_they_recorded() {
    let mut lexer = Lexer::new("# x");
    let tokens = lexer.tokenize();
    assert_eq!(lexer.into_errors().len(), 1);
    let mut parser = Parser::new(tokens);
    assert!(parser.consume(TokenType::Plus, "Expect '+'.").is_none());
    let diagnostics = parser.into_diagnostics();
    assert_eq!(diagnostics.len(), 1);
    assert_eq!(diagnostics[0].render(), "Parse error: Expect '+'. at line 1");
}

#[test]
fn fail_records_the_token_under_the_cursor() {
    let mut parser = parser_for("a\nb");
    parser.advance();
    parser.fail("Nothing fits.");
    assert_eq!(
        parser.diagnostics(),
        &vec![Diagnostic {
            message: "Nothing fits.".to_string(),
            token: Token::new(TokenType::Identifier, "b".to_string(), 2),
        }]
    );
    assert_eq!(parser.peek().lexeme, "b");
}

#[test]
fn try_new_asks_for_a_closing_eof() {
    assert!(Parser::try_new(Vec::new()).is_none());
    assert!(Parser::try_new(vec![Token::new(TokenType::Plus, "+".to_string(), 1)]).is_none());
    let mut parser = Parser::try_new(vec![
        Token::new(TokenType::Identifier, "a".to_string(), 1),
        Token::new(TokenType::EOF, String::new(), 1),
    ])
    .unwrap();
    assert_eq!(parser.position(), 0);
    assert_eq!(parser.parse().statements, vec![var("a")]);
    assert_eq!(parser.position(), 1);
}

#[test]
fn an_eof_token_in_the_middle_ends_the_program() {
    let mut parser = Parser::new(vec![
        Token::new(TokenType::Identifier, "a".to_string(), 1),
        Token::new(TokenType::EOF, String::new(), 1),
        Token::new(TokenType::Identifier, "b".to_string(), 1),
        Token::new(TokenType::EOF, String::new(), 1),
    ]);
    assert_eq!(parser.parse().statements, vec![var("a")]);
    assert_eq!(parser.position(), 1);
    assert!(parser.diagnostics().is_empty());
}
