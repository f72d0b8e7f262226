//! A debug rendering of the syntax tree: one line per node, children two
//! blanks further in than their parent.

use crate::ast::{BinaryOperator, StatementNode, Tree};
use vstd::prelude::*;
use vstd::string::StringExecFns;

verus! {

/// The name under which an operator is printed.
pub open spec fn operator_name(operator: BinaryOperator) -> Seq<char> {
    match operator {
        BinaryOperator::Add => "Add"@,
        BinaryOperator::Subtract => "Subtract"@,
        BinaryOperator::Multiply => "Multiply"@,
        BinaryOperator::Divide => "Divide"@,
    }
}

/// The indentation of the children of a node indented by `prefix`.
pub open spec fn deeper(prefix: Seq<char>) -> Seq<char> {
    prefix + "  "@
}

/// The indentation of depth `depth`: two blanks for each level.
pub open spec fn indentation(depth: nat) -> Seq<char>
    decreases depth,
{
    if depth == 0 {
        Seq::empty()
    } else {
        deeper(indentation((depth - 1) as nat))
    }
}

/// The lines that render `tree`, its own line indented by `prefix`: the
/// kind of the node, with its name, its text or its operator where it has
/// one, and below it the lines of its children in order.
pub open spec fn lines_of(tree: Tree, prefix: Seq<char>) -> Seq<Seq<char>>
    decreases tree,
{
    match tree {
        Tree::Variable { name, .. } => seq![prefix + "VariableNode: "@ + name],
        Tree::Number { value, .. } => seq![prefix + "NumberNode: "@ + value],
        Tree::Assignment { left, right } => seq![prefix + "AssignmentNode"@] + lines_of(
            *left,
            deeper(prefix),
        ) + lines_of(*right, deeper(prefix)),
        Tree::BinaryOperation { left, operator, right } => seq![
            prefix + "BinaryOperationNode: "@ + operator_name(operator),
        ] + lines_of(*left, deeper(prefix)) + lines_of(*right, deeper(prefix)),
        Tree::Parenthesis { expression } => seq![prefix + "ParenthesisNode"@] + lines_of(
            *expression,
            deeper(prefix),
        ),
        Tree::If { condition, then_branch, else_branch } => seq![prefix + "IfNode"@] + lines_of(
            *condition,
            deeper(prefix),
        ) + lines_of(*then_branch, deeper(prefix)) + match else_branch {
            Some(branch) => lines_of(*branch, deeper(prefix)),
            None => Seq::empty(),
        },
        Tree::While { condition, body } => seq![prefix + "WhileNode"@] + lines_of(
            *condition,
            deeper(prefix),
        ) + lines_of(*body, deeper(prefix)),
    }
}

/// The texts of a sequence of lines.
pub open spec fn line_views(lines: Seq<String>) -> Seq<Seq<char>> {
    lines.map_values(|line: String| line@)
}

/// The name under which `operator` is printed.
pub fn name_of(operator: BinaryOperator) -> (name: &'static str)
    ensures
        name@ == operator_name(operator),
{
    match operator {
        BinaryOperator::Add => "Add",
        BinaryOperator::Subtract => "Subtract",
        BinaryOperator::Multiply => "Multiply",
        BinaryOperator::Divide => "Divide",
    }
}

/// Appends to `lines` the one line `prefix label payload`.
fn push_line(lines: &mut Vec<String>, prefix: &str, label: &str, payload: &str)
    ensures
        line_views(final(lines)@) == line_views(old(lines)@).push(prefix@ + label@ + payload@),
{
    let ghost before = line_views(lines@);
    let mut line = String::from_str(prefix);
    line.append(label);
    line.append(payload);
    let ghost text = line@;
    lines.push(line);
    assert(line_views(lines@) =~= before.push(text));
}

/// Appends to `lines` the rendering of `statement`, its own line indented
/// by `prefix`.
pub fn write_statement(statement: &StatementNode, prefix: &str, lines: &mut Vec<String>)
    ensures
        line_views(final(lines)@) == line_views(old(lines)@) + lines_of(statement@, prefix@),
    decreases statement,
{
    let ghost before = line_views(lines@);
    let mut inner = String::from_str(prefix);
    inner.append("  ");
    let ghost inside = deeper(prefix@);
    match statement {
        StatementNode::Variable(node) => {
            push_line(lines, prefix, "VariableNode: ", node.name.as_str());
            assert(before.push(prefix@ + "VariableNode: "@ + node.name@) =~= before + lines_of(
                statement@,
                prefix@,
            ));
        },
        StatementNode::Number(node) => {
            push_line(lines, prefix, "NumberNode: ", node.value.as_str());
            assert(before.push(prefix@ + "NumberNode: "@ + node.value@) =~= before + lines_of(
                statement@,
                prefix@,
            ));
        },
        StatementNode::Assignment(node) => {
            push_line(lines, prefix, "AssignmentNode", "");
            let ghost head = prefix@ + "AssignmentNode"@;
            assert(prefix@ + "AssignmentNode"@ + ""@ =~= head) by {
                reveal_strlit("");
            }
            write_statement(&node.left, inner.as_str(), lines);
            write_statement(&node.right, inner.as_str(), lines);
            assert(before.push(head) + lines_of(node.left@, inside) + lines_of(
                node.right@,
                inside,
            ) =~= before + (seq![head] + lines_of(node.left@, inside) + lines_of(
                node.right@,
                inside,
            )));
        },
        StatementNode::BinaryOperation(node) => {
            push_line(lines, prefix, "BinaryOperationNode: ", name_of(node.operator));
            let ghost head = prefix@ + "BinaryOperationNode: "@ + operator_name(node.operator);
            write_statement(&node.left, inner.as_str(), lines);
            write_statement(&node.right, inner.as_str(), lines);
            assert(before.push(head) + lines_of(node.left@, inside) + lines_of(
                node.right@,
                inside,
            ) =~= before + (seq![head] + lines_of(node.left@, inside) + lines_of(
                node.right@,
                inside,
            )));
        },
        StatementNode::Parenthesis(node) => {
            push_line(lines, prefix, "ParenthesisNode", "");
            let ghost head = prefix@ + "ParenthesisNode"@;
            assert(prefix@ + "ParenthesisNode"@ + ""@ =~= head) by {
                reveal_strlit("");
            }
            write_statement(&node.expression, inner.as_str(), lines);
            assert(before.push(head) + lines_of(node.expression@, inside) =~= before + (seq![head]
                + lines_of(node.expression@, inside)));
        },
        StatementNode::If(node) => {
            push_line(lines, prefix, "IfNode", "");
            let ghost head = prefix@ + "IfNode"@;
            assert(prefix@ + "IfNode"@ + ""@ =~= head) by {
                reveal_strlit("");
            }
            write_statement(&node.condition, inner.as_str(), lines);
            write_statement(&node.then_branch, inner.as_str(), lines);
            let ghost last = if node.else_branch is Some {
                lines_of(node.else_branch->0@, inside)
            } else {
                Seq::empty()
            };
            match &node.else_branch {
                Some(branch) => {
                    write_statement(branch, inner.as_str(), lines);
                },
                None => {},
            }
            assert(before.push(head) + lines_of(node.condition@, inside) + lines_of(
                node.then_branch@,
                inside,
            ) + last =~= before + (seq![head] + lines_of(node.condition@, inside) + lines_of(
                node.then_branch@,
                inside,
            ) + last));
        },
        StatementNode::While(node) => {
            push_line(lines, prefix, "WhileNode", "");
            let ghost head = prefix@ + "WhileNode"@;
            assert(prefix@ + "WhileNode"@ + ""@ =~= head) by {
                reveal_strlit("");
            }
            write_statement(&node.condition, inner.as_str(), lines);
            write_statement(&node.body, inner.as_str(), lines);
            assert(before.push(head) + lines_of(node.condition@, inside) + lines_of(
                node.body@,
                inside,
            ) =~= before + (seq![head] + lines_of(node.condition@, inside) + lines_of(
                node.body@,
                inside,
            )));
        },
    }
}

/// The lines that render `statement` at depth `indent`.
pub fn render_statement(statement: &StatementNode, indent: usize) -> (lines: Vec<String>)
    ensures
        line_views(lines@) == lines_of(statement@, indentation(indent as nat)),
{
    let mut prefix = String::new();
    let mut depth: usize = 0;
    while depth < indent
        invariant
            depth <= indent,
            prefix@ == indentation(depth as nat),
        decreases indent - depth,
    {
        prefix.append("  ");
        depth += 1;
    }
    let mut lines: Vec<String> = Vec::new();
    assert(line_views(lines@) =~= Seq::<Seq<char>>::empty());
    write_statement(statement, prefix.as_str(), &mut lines);
    assert(Seq::<Seq<char>>::empty() + lines_of(statement@, prefix@) =~= lines_of(
        statement@,
        prefix@,
    ));
    lines
}

} // verus!
