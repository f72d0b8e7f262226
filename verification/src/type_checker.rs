//! A structural check of the syntax tree. It infers no types: it accepts a
//! statement exactly when the statement is built from variables, assignments
//! and arithmetic operations alone.

use crate::ast::{ProgramNode, StatementNode, Tree};
use vstd::prelude::*;
use vstd::string::StringExecFns;

verus! {

/// The message of every rejection.
pub open spec fn msg_unknown_statement() -> Seq<char> {
    "Unknown statement type encountered"@
}

/// Whether the check accepts `tree`: a variable is accepted, an assignment
/// or an arithmetic operation is accepted where both its sides are, and
/// every other node is rejected.
pub open spec fn accepts(tree: Tree) -> bool
    decreases tree,
{
    match tree {
        Tree::Variable { .. } => true,
        Tree::Assignment { left, right } => accepts(*left) && accepts(*right),
        Tree::BinaryOperation { left, right, .. } => accepts(*left) && accepts(*right),
        _ => false,
    }
}

/// Whether the check accepts every one of `trees`.
pub open spec fn accepts_all(trees: Seq<Tree>) -> bool {
    forall|i: int| 0 <= i < trees.len() ==> accepts(#[trigger] trees[i])
}

/// What the check returns for something it accepts or rejects.
pub open spec fn verdict(result: Result<(), String>, accepted: bool) -> bool {
    match result {
        Ok(_) => accepted,
        Err(message) => !accepted && message@ == msg_unknown_statement(),
    }
}

/// The checker. It holds no state.
pub struct TypeChecker;

impl TypeChecker {
    /// Checks the statements of `program` in order, and stops at the first
    /// that is rejected.
    pub fn check_program(program: &ProgramNode) -> (result: Result<(), String>)
        ensures
            verdict(result, accepts_all(program@)),
    {
        let mut i: usize = 0;
        while i < program.statements.len()
            invariant
                i <= program.statements.len(),
                forall|k: int| 0 <= k < i ==> accepts(#[trigger] program@[k]),
            decreases program.statements.len() - i,
        {
            match Self::check_statement(&program.statements[i]) {
                Ok(_) => {},
                Err(message) => {
                    assert(!accepts(program@[i as int]));
                    return Err(message);
                },
            }
            i += 1;
        }
        Ok(())
    }

    /// Checks one statement and everything below it.
    pub fn check_statement(statement: &StatementNode) -> (result: Result<(), String>)
        ensures
            verdict(result, accepts(statement@)),
        decreases statement,
    {
        match statement {
            StatementNode::Variable(_) => Ok(()),
            StatementNode::Assignment(node) => {
                match Self::check_statement(&node.left) {
                    Ok(_) => {},
                    Err(message) => {
                        return Err(message);
                    },
                }
                Self::check_statement(&node.right)
            },
            StatementNode::BinaryOperation(node) => {
                match Self::check_statement(&node.left) {
                    Ok(_) => {},
                    Err(message) => {
                        return Err(message);
                    },
                }
                Self::check_statement(&node.right)
            },
            _ => Err(String::from_str("Unknown statement type encountered")),
        }
    }
}

} // verus!
