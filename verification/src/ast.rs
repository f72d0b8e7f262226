//! The syntax tree: a closed family of node variants, each owning its
//! children.

use vstd::prelude::*;

verus! {

/// The type tag carried by variables and number literals.
#[derive(Clone, Copy, Debug, PartialEq, Eq, Structural)]
pub enum DataType {
    Integer,
    Float,
    String,
    Boolean,
    Void,
}

/// The four arithmetic operators.
#[derive(Clone, Copy, Debug, PartialEq, Eq, Structural)]
pub enum BinaryOperator {
    Add,
    Subtract,
    Multiply,
    Divide,
}

/// The mathematical value of a syntax tree: the same shape as
/// [`StatementNode`], with texts as sequences of characters.
pub enum Tree {
    Variable { name: Seq<char>, data_type: DataType },
    Number { value: Seq<char>, data_type: DataType },
    Assignment { left: Box<Tree>, right: Box<Tree> },
    BinaryOperation { left: Box<Tree>, operator: BinaryOperator, right: Box<Tree> },
    Parenthesis { expression: Box<Tree> },
    If { condition: Box<Tree>, then_branch: Box<Tree>, else_branch: Option<Box<Tree>> },
    While { condition: Box<Tree>, body: Box<Tree> },
}

/// A node of the syntax tree.
#[derive(Debug, PartialEq, Eq)]
pub enum StatementNode {
    Variable(VariableNode),
    Number(NumberNode),
    Assignment(AssignmentNode),
    BinaryOperation(BinaryOperationNode),
    Parenthesis(ParenthesisNode),
    If(IfNode),
    While(WhileNode),
}

/// A use or declaration of a variable.
#[derive(Debug, PartialEq, Eq)]
pub struct VariableNode {
    pub name: String,
    pub data_type: DataType,
}

/// A number literal, with its text kept as written.
#[derive(Debug, PartialEq, Eq)]
pub struct NumberNode {
    pub value: String,
    pub data_type: DataType,
}

/// An assignment of `right` to `left`.
#[derive(Debug, PartialEq, Eq)]
pub struct AssignmentNode {
    pub left: Box<StatementNode>,
    pub right: Box<StatementNode>,
}

/// An arithmetic operation on two operands.
#[derive(Debug, PartialEq, Eq)]
pub struct BinaryOperationNode {
    pub left: Box<StatementNode>,
    pub operator: BinaryOperator,
    pub right: Box<StatementNode>,
}

/// An expression written between parentheses.
#[derive(Debug, PartialEq, Eq)]
pub struct ParenthesisNode {
    pub expression: Box<StatementNode>,
}

/// A conditional with one statement per branch.
#[derive(Debug, PartialEq, Eq)]
pub struct IfNode {
    pub condition: Box<StatementNode>,
    pub then_branch: Box<StatementNode>,
    pub else_branch: Option<Box<StatementNode>>,
}

/// A loop with a single statement as its body.
#[derive(Debug, PartialEq, Eq)]
pub struct WhileNode {
    pub condition: Box<StatementNode>,
    pub body: Box<StatementNode>,
}

/// A whole program: its top-level statements in source order.
#[derive(Debug, PartialEq, Eq)]
pub struct ProgramNode {
    pub statements: Vec<StatementNode>,
}

impl StatementNode {
    /// The mathematical value of this node and everything below it.
    pub open spec fn tree(self) -> Tree
        decreases self,
    {
        match self {
            StatementNode::Variable(n) => Tree::Variable { name: n.name@, data_type: n.data_type },
            StatementNode::Number(n) => Tree::Number { value: n.value@, data_type: n.data_type },
            StatementNode::Assignment(n) => Tree::Assignment {
                left: Box::new((*n.left).tree()),
                right: Box::new((*n.right).tree()),
            },
            StatementNode::BinaryOperation(n) => Tree::BinaryOperation {
                left: Box::new((*n.left).tree()),
                operator: n.operator,
                right: Box::new((*n.right).tree()),
            },
            StatementNode::Parenthesis(n) => Tree::Parenthesis {
                expression: Box::new((*n.expression).tree()),
            },
            StatementNode::If(n) => Tree::If {
                condition: Box::new((*n.condition).tree()),
                then_branch: Box::new((*n.then_branch).tree()),
                else_branch: match n.else_branch {
                    Some(e) => Some(Box::new((*e).tree())),
                    None => None,
                },
            },
            StatementNode::While(n) => Tree::While {
                condition: Box::new((*n.condition).tree()),
                body: Box::new((*n.body).tree()),
            },
        }
    }
}

/// The mathematical values of a sequence of statements.
pub open spec fn trees(statements: Seq<StatementNode>) -> Seq<Tree> {
    statements.map_values(|s: StatementNode| s@)
}

impl View for ProgramNode {
    type V = Seq<Tree>;

    open spec fn view(&self) -> Seq<Tree> {
        trees(self.statements@)
    }
}

impl ProgramNode {
    /// A program without statements.
    pub fn new() -> (program: ProgramNode)
        ensures
            program.statements@ == Seq::<StatementNode>::empty(),
            program@ == Seq::<Tree>::empty(),
    {
        let program = ProgramNode { statements: Vec::new() };
        assert(trees(program.statements@) =~= Seq::<Tree>::empty());
        program
    }
}

impl VariableNode {
    /// The variable `name` with the tag `data_type`.
    pub fn new(name: String, data_type: DataType) -> (node: VariableNode)
        ensures
            node.name == name,
            node.data_type == data_type,
    {
        VariableNode { name, data_type }
    }
}

impl NumberNode {
    /// The literal written `value`, with the tag `data_type`.
    pub fn new(value: String, data_type: DataType) -> (node: NumberNode)
        ensures
            node.value == value,
            node.data_type == data_type,
    {
        NumberNode { value, data_type }
    }
}

impl AssignmentNode {
    /// The assignment of `right` to `left`.
    pub fn new(left: Box<StatementNode>, right: Box<StatementNode>) -> (node: AssignmentNode)
        ensures
            node.left == left,
            node.right == right,
    {
        AssignmentNode { left, right }
    }
}

impl BinaryOperationNode {
    /// The operation `left operator right`.
    pub fn new(
        left: Box<StatementNode>,
        operator: BinaryOperator,
        right: Box<StatementNode>,
    ) -> (node: BinaryOperationNode)
        ensures
            node.left == left,
            node.operator == operator,
            node.right == right,
    {
        BinaryOperationNode { left, operator, right }
    }
}

impl ParenthesisNode {
    /// The group `( expression )`.
    pub fn new(expression: Box<StatementNode>) -> (node: ParenthesisNode)
        ensures
            node.expression == expression,
    {
        ParenthesisNode { expression }
    }
}

impl IfNode {
    /// The conditional on `condition` with the given branches.
    pub fn new(
        condition: Box<StatementNode>,
        then_branch: Box<StatementNode>,
        else_branch: Option<Box<StatementNode>>,
    ) -> (node: IfNode)
        ensures
            node.condition == condition,
            node.then_branch == then_branch,
            node.else_branch == else_branch,
    {
        IfNode { condition, then_branch, else_branch }
    }
}

impl WhileNode {
    /// The loop on `condition` around `body`.
    pub fn new(condition: Box<StatementNode>, body: Box<StatementNode>) -> (node: WhileNode)
        ensures
            node.condition == condition,
            node.body == body,
    {
        WhileNode { condition, body }
    }
}

impl View for StatementNode {
    type V = Tree;

    open spec fn view(&self) -> Tree {
        self.tree()
    }
}

} // verus!
