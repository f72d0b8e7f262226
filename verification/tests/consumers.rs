use put_lang::ast::{BinaryOperator, ProgramNode, StatementNode};
use put_lang::lexer::Lexer;
use put_lang::parser::Parser;
use put_lang::printer::{name_of, render_statement, write_statement};
use put_lang::type_checker::TypeChecker;

fn program(source: &str) -> ProgramNode {
    Parser::new(Lexer::new(source).tokenize()).parse()
}

fn first(source: &str) -> StatementNode {
    program(source).statements.remove(0)
}

#[test]
fn worked_scenario_renders_one_line_per_node() {
    let lines = render_statement(&first("var x = (42 + 5) * 2 - 3 / 1.5;"), 0);
    assert_eq!(
        lines,
        vec![
            "AssignmentNode",
            "  VariableNode: x",
            "  BinaryOperationNode: Subtract",
            "    BinaryOperationNode: Multiply",
            "      ParenthesisNode",
            "        BinaryOperationNode: Add",
            "          NumberNode: 42",
            "          NumberNode: 5",
            "      NumberNode: 2",
            "    BinaryOperationNode: Divide",
            "      NumberNode: 3",
            "      NumberNode: 1.5",
        ]
    );
}

#[test]
fn rendering_starts_at_the_given_depth() {
    assert_eq!(render_statement(&first("a"), 0), vec!["VariableNode: a"]);
    assert_eq!(render_statement(&first("a"), 3), vec!["      VariableNode: a"]);
    assert_eq!(
        render_statement(&first("(7)"), 1),
        vec!["  ParenthesisNode", "    NumberNode: 7"]
    );
}

#[test]
fn control_statements_render_their_parts_in_order() {
    assert_eq!(
        render_statement(&first("if (a) b else c"), 0),
        vec!["IfNode", "  VariableNode: a", "  VariableNode: b", "  VariableNode: c"]
    );
    assert_eq!(
        render_statement(&first("if (a) b"), 0),
        vec!["IfNode", "  VariableNode: a", "  VariableNode: b"]
    );
    assert_eq!(
        render_statement(&first("while (a) b * 2"), 0),
        vec![
            "WhileNode",
            "  VariableNode: a",
            "  BinaryOperationNode: Multiply",
            "    VariableNode: b",
            "    NumberNode: 2",
        ]
    );
}

#[test]
fn write_statement_appends_behind_what_is_there() {
    let mut lines = vec!["head".to_string()];
    write_statement(&first("a + b"), "> ", &mut lines);
    assert_eq!(
        lines,
        vec!["head", "> BinaryOperationNode: Add", ">   VariableNode: a", ">   VariableNode: b"]
    );
}

#[test]
fn operators_have_their_names() {
    assert_eq!(name_of(BinaryOperator::Add), "Add");
    assert_eq!(name_of(BinaryOperator::Subtract), "Subtract");
    assert_eq!(name_of(BinaryOperator::Multiply), "Multiply");
    assert_eq!(name_of(BinaryOperator::Divide), "Divide");
}

#[test]
fn checker_accepts_variables_assignments_and_operations() {
    assert_eq!(TypeChecker::check_program(&program("")), Ok(()));
    assert_eq!(TypeChecker::check_program(&program("var x; a + b * c var y = x - y;")), Ok(()));
    assert_eq!(TypeChecker::check_statement(&first("a / b")), Ok(()));
}

#[test]
fn checker_rejects_every_other_node() {
    let message = Err("Unknown statement type encountered".to_string());
    assert_eq!(TypeChecker::check_statement(&first("1")), message);
    assert_eq!(TypeChecker::check_statement(&first("(a)")), message);
    assert_eq!(TypeChecker::check_statement(&first("if (a) b")), message);
    assert_eq!(TypeChecker::check_statement(&first("while (a) b")), message);
    assert_eq!(TypeChecker::check_statement(&first("a + 1")), message);
    assert_eq!(TypeChecker::check_statement(&first("var x = 42 + 5;")), message);
}

#[test]
fn checker_stops_at_the_first_rejected_statement() {
    assert_eq!(
        TypeChecker::check_program(&program("var a; a + a 3 var b;")),
        Err("Unknown statement type encountered".to_string())
    );
}
