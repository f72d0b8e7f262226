use put_lang::ast::StatementNode;
use put_lang::lexer::Lexer;
use put_lang::parser::Parser;

#[test]
fn test_basic_parsing() {
    let source = "var x = 42 + 5;";
    let mut lexer = Lexer::new(source);
    let tokens = lexer.tokenize();

    let mut parser = Parser::new(tokens);
    let program = parser.parse();

    assert_eq!(program.statements.len(), 1);

    if let StatementNode::Assignment(assignment) = &program.statements[0] {
        assert!(matches!(*assignment.left, StatementNode::Variable(_)));
        assert!(matches!(*assignment.right, StatementNode::BinaryOperation(_)));
    } else {
        panic!("Expected AssignmentNode");
    }
}

#[test]
fn test_complex_expression() {
    let source = "var x = (42 + 5) * 2 - 3 / 1.5;";
    let mut lexer = Lexer::new(source);
    let tokens = lexer.tokenize();

    let mut parser = Parser::new(tokens);
    let program = parser.parse();

    assert_eq!(program.statements.len(), 1);
}
