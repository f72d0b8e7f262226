//! The grammar, as functions from a token sequence and a position to what
//! the parser must find there.
//!
//! ```text
//! statement      := ifStmt | whileStmt | varDecl | expression
//! ifStmt         := "if" "(" expression ")" statement ("else" statement)?
//! whileStmt      := "while" "(" expression ")" statement
//! varDecl        := "var" IDENTIFIER ("=" expression)? ";"
//! expression     := addition
//! addition       := multiplication (("+"|"-") multiplication)*
//! multiplication := primary (("*"|"/") primary)*
//! primary        := NUMBER | IDENTIFIER | "(" expression ")"
//! ```
//!
//! Each function reads the tokens from `pos` on and gives either the tree of
//! the production with the number of tokens it holds, or the message of the
//! first failure with the number of tokens that stand before the token at
//! which it was found.

use crate::ast::{BinaryOperator, DataType, Tree};
use crate::token::{TokenType, TokenView};
use vstd::prelude::*;

verus! {

/// What one production makes of the tokens at a position.
pub enum Outcome {
    /// The production was found: its tree, and how many tokens it holds.
    Parsed { tree: Tree, used: nat },
    /// The production was not found: the message, and how many tokens were
    /// taken before the one that did not fit.
    Failed { message: Seq<char>, used: nat },
}

impl Outcome {
    /// How many tokens the production took.
    pub open spec fn used(self) -> nat {
        match self {
            Outcome::Parsed { used, .. } => used,
            Outcome::Failed { used, .. } => used,
        }
    }

    /// The same outcome, seen from `n` tokens earlier.
    pub open spec fn after(self, n: nat) -> Outcome {
        match self {
            Outcome::Parsed { tree, used } => Outcome::Parsed { tree, used: used + n },
            Outcome::Failed { message, used } => Outcome::Failed { message, used: used + n },
        }
    }
}

/// The kind of the token at `pos`; past either end of the sequence, `EOF`.
pub open spec fn kind_at(tokens: Seq<TokenView>, pos: int) -> TokenType {
    if 0 <= pos < tokens.len() {
        tokens[pos].token_type
    } else {
        TokenType::EOF
    }
}

/// How far `pos` is from the end of the tokens.
pub open spec fn tokens_left(tokens: Seq<TokenView>, pos: int) -> nat {
    if pos < tokens.len() {
        (tokens.len() - pos) as nat
    } else {
        0
    }
}

/// The type tag of a number literal: `Float` where its text holds a `.`,
/// `Integer` otherwise.
pub open spec fn number_type(text: Seq<char>) -> DataType {
    if text.contains('.') {
        DataType::Float
    } else {
        DataType::Integer
    }
}

/// The operator that a token kind writes at the additive level.
pub open spec fn additive(kind: TokenType) -> Option<BinaryOperator> {
    match kind {
        TokenType::Plus => Some(BinaryOperator::Add),
        TokenType::Minus => Some(BinaryOperator::Subtract),
        _ => None,
    }
}

/// The operator that a token kind writes at the multiplicative level.
pub open spec fn multiplicative(kind: TokenType) -> Option<BinaryOperator> {
    match kind {
        TokenType::Star => Some(BinaryOperator::Multiply),
        TokenType::Slash => Some(BinaryOperator::Divide),
        _ => None,
    }
}

/// The tree of `left operator right`.
pub open spec fn binary(left: Tree, operator: BinaryOperator, right: Tree) -> Tree {
    Tree::BinaryOperation { left: Box::new(left), operator, right: Box::new(right) }
}

/// The message where no primary expression begins.
pub open spec fn msg_unexpected() -> Seq<char> {
    "Unexpected token"@
}

/// The message where the `)` of a group is missing.
pub open spec fn msg_close_group() -> Seq<char> {
    "Expect ')' after expression."@
}

/// The message where the `(` behind `if` is missing.
pub open spec fn msg_open_if() -> Seq<char> {
    "Expect '(' after 'if'."@
}

/// The message where the `)` behind the condition of an `if` is missing.
pub open spec fn msg_close_if() -> Seq<char> {
    "Expect ')' after if condition."@
}

/// The message where the `(` behind `while` is missing.
pub open spec fn msg_open_while() -> Seq<char> {
    "Expect '(' after 'while'."@
}

/// The message where the `)` behind the condition of a `while` is missing.
pub open spec fn msg_close_while() -> Seq<char> {
    "Expect ')' after while condition."@
}

/// The message where the name behind `var` is missing.
pub open spec fn msg_name() -> Seq<char> {
    "Expect variable name."@
}

/// The message where the `;` of a declaration is missing.
pub open spec fn msg_end_declaration() -> Seq<char> {
    "Expect ';' after variable declaration."@
}

/// `primary := NUMBER | IDENTIFIER | "(" expression ")"`
pub open spec fn primary(tokens: Seq<TokenView>, pos: int) -> Outcome
    decreases tokens_left(tokens, pos), 0nat,
{
    match kind_at(tokens, pos) {
        TokenType::Number => Outcome::Parsed {
            tree: Tree::Number {
                value: tokens[pos].lexeme,
                data_type: number_type(tokens[pos].lexeme),
            },
            used: 1,
        },
        TokenType::Identifier => Outcome::Parsed {
            tree: Tree::Variable { name: tokens[pos].lexeme, data_type: DataType::Integer },
            used: 1,
        },
        TokenType::LeftParen => match expression(tokens, pos + 1) {
            Outcome::Parsed { tree, used } => if kind_at(tokens, pos + 1 + used)
                == TokenType::RightParen {
                Outcome::Parsed {
                    tree: Tree::Parenthesis { expression: Box::new(tree) },
                    used: used + 2,
                }
            } else {
                Outcome::Failed { message: msg_close_group(), used: used + 1 }
            },
            failed => failed.after(1),
        },
        _ => Outcome::Failed { message: msg_unexpected(), used: 0 },
    }
}

/// The rest of a multiplication whose operands so far make `left`:
/// `(("*"|"/") primary)*`, folded to the left.
pub open spec fn multiplication_rest(tokens: Seq<TokenView>, pos: int, left: Tree) -> Outcome
    decreases tokens_left(tokens, pos), 0nat,
{
    match multiplicative(kind_at(tokens, pos)) {
        Some(operator) => match primary(tokens, pos + 1) {
            Outcome::Parsed { tree, used } => multiplication_rest(
                tokens,
                pos + 1 + used,
                binary(left, operator, tree),
            ).after(1 + used),
            failed => failed.after(1),
        },
        None => Outcome::Parsed { tree: left, used: 0 },
    }
}

/// `multiplication := primary (("*"|"/") primary)*`
pub open spec fn multiplication(tokens: Seq<TokenView>, pos: int) -> Outcome
    decreases tokens_left(tokens, pos), 1nat,
{
    match primary(tokens, pos) {
        Outcome::Parsed { tree, used } => multiplication_rest(tokens, pos + used, tree).after(used),
        failed => failed,
    }
}

/// The rest of an addition whose operands so far make `left`:
/// `(("+"|"-") multiplication)*`, folded to the left.
pub open spec fn addition_rest(tokens: Seq<TokenView>, pos: int, left: Tree) -> Outcome
    decreases tokens_left(tokens, pos), 0nat,
{
    match additive(kind_at(tokens, pos)) {
        Some(operator) => match multiplication(tokens, pos + 1) {
            Outcome::Parsed { tree, used } => addition_rest(
                tokens,
                pos + 1 + used,
                binary(left, operator, tree),
            ).after(1 + used),
            failed => failed.after(1),
        },
        None => Outcome::Parsed { tree: left, used: 0 },
    }
}

/// `addition := multiplication (("+"|"-") multiplication)*`
pub open spec fn addition(tokens: Seq<TokenView>, pos: int) -> Outcome
    decreases tokens_left(tokens, pos), 2nat,
{
    match multiplication(tokens, pos) {
        Outcome::Parsed { tree, used } => addition_rest(tokens, pos + used, tree).after(used),
        failed => failed,
    }
}

/// How the rest of a multiplication goes on behind an operator, given what
/// the primary expression behind the operator is.
pub proof fn lemma_multiplication_goes_on(
    tokens: Seq<TokenView>,
    pos: int,
    left: Tree,
    operator: BinaryOperator,
)
    requires
        multiplicative(kind_at(tokens, pos)) == Some(operator),
    ensures
        multiplication_rest(tokens, pos, left) == match primary(tokens, pos + 1) {
            Outcome::Parsed { tree, used } => multiplication_rest(
                tokens,
                pos + 1 + used,
                binary(left, operator, tree),
            ).after(1 + used),
            failed => failed.after(1),
        },
{
}

/// How the rest of an addition goes on behind an operator, given what the
/// multiplication behind the operator is.
pub proof fn lemma_addition_goes_on(
    tokens: Seq<TokenView>,
    pos: int,
    left: Tree,
    operator: BinaryOperator,
)
    requires
        additive(kind_at(tokens, pos)) == Some(operator),
    ensures
        addition_rest(tokens, pos, left) == match multiplication(tokens, pos + 1) {
            Outcome::Parsed { tree, used } => addition_rest(
                tokens,
                pos + 1 + used,
                binary(left, operator, tree),
            ).after(1 + used),
            failed => failed.after(1),
        },
{
}

/// `expression := addition`
pub open spec fn expression(tokens: Seq<TokenView>, pos: int) -> Outcome
    decreases tokens_left(tokens, pos), 3nat,
{
    addition(tokens, pos)
}

/// The conditional that begins behind `if` at `pos`, given what its three
/// parts make of the tokens: the condition behind the `(`, the statement
/// behind the `)`, and the statement behind an `else`. A part is looked at
/// only where everything before it was found.
pub open spec fn conditional(
    tokens: Seq<TokenView>,
    pos: int,
    condition: Outcome,
    then_branch: Outcome,
    else_branch: Outcome,
) -> Outcome {
    if kind_at(tokens, pos) != TokenType::LeftParen {
        Outcome::Failed { message: msg_open_if(), used: 0 }
    } else if condition is Failed {
        condition.after(1)
    } else if kind_at(tokens, pos + 1 + condition.used()) != TokenType::RightParen {
        Outcome::Failed { message: msg_close_if(), used: 1 + condition.used() }
    } else if then_branch is Failed {
        then_branch.after(2 + condition.used())
    } else if kind_at(tokens, pos + 2 + condition.used() + then_branch.used())
        != TokenType::Else {
        Outcome::Parsed {
            tree: Tree::If {
                condition: Box::new(condition->tree),
                then_branch: Box::new(then_branch->tree),
                else_branch: None,
            },
            used: 2 + condition.used() + then_branch.used(),
        }
    } else if else_branch is Failed {
        else_branch.after(3 + condition.used() + then_branch.used())
    } else {
        Outcome::Parsed {
            tree: Tree::If {
                condition: Box::new(condition->tree),
                then_branch: Box::new(then_branch->tree),
                else_branch: Some(Box::new(else_branch->tree)),
            },
            used: 3 + condition.used() + then_branch.used() + else_branch.used(),
        }
    }
}

/// The loop that begins behind `while` at `pos`, given what its two parts
/// make of the tokens: the condition behind the `(` and the statement behind
/// the `)`.
pub open spec fn repetition(
    tokens: Seq<TokenView>,
    pos: int,
    condition: Outcome,
    body: Outcome,
) -> Outcome {
    if kind_at(tokens, pos) != TokenType::LeftParen {
        Outcome::Failed { message: msg_open_while(), used: 0 }
    } else if condition is Failed {
        condition.after(1)
    } else if kind_at(tokens, pos + 1 + condition.used()) != TokenType::RightParen {
        Outcome::Failed { message: msg_close_while(), used: 1 + condition.used() }
    } else if body is Failed {
        body.after(2 + condition.used())
    } else {
        Outcome::Parsed {
            tree: Tree::While {
                condition: Box::new(condition->tree),
                body: Box::new(body->tree),
            },
            used: 2 + condition.used() + body.used(),
        }
    }
}

/// `ifStmt := "if" "(" expression ")" statement ("else" statement)?`, read
/// from the token behind `if`. An `else` belongs to the nearest `if` before
/// it.
#[verifier::opaque]
pub open spec fn if_statement(tokens: Seq<TokenView>, pos: int) -> Outcome
    decreases tokens_left(tokens, pos), 5nat,
{
    let condition = expression(tokens, pos + 1);
    let then_branch = statement(tokens, pos + 2 + condition.used());
    let else_branch = statement(tokens, pos + 3 + condition.used() + then_branch.used());
    conditional(tokens, pos, condition, then_branch, else_branch)
}

/// `whileStmt := "while" "(" expression ")" statement`, read from the token
/// behind `while`.
#[verifier::opaque]
pub open spec fn while_statement(tokens: Seq<TokenView>, pos: int) -> Outcome
    decreases tokens_left(tokens, pos), 5nat,
{
    let condition = expression(tokens, pos + 1);
    let body = statement(tokens, pos + 2 + condition.used());
    repetition(tokens, pos, condition, body)
}

/// `varDecl := "var" IDENTIFIER ("=" expression)? ";"`, read from the token
/// behind `var`. Without an initializer the tree is the bare variable; with
/// one it is the assignment of the initializer to the variable.
pub open spec fn variable_declaration(tokens: Seq<TokenView>, pos: int) -> Outcome {
    if kind_at(tokens, pos) != TokenType::Identifier {
        Outcome::Failed { message: msg_name(), used: 0 }
    } else {
        let variable = Tree::Variable { name: tokens[pos].lexeme, data_type: DataType::Integer };
        if kind_at(tokens, pos + 1) == TokenType::Assign {
            match expression(tokens, pos + 2) {
                Outcome::Parsed { tree: value, used: v } => if kind_at(tokens, pos + 2 + v)
                    == TokenType::Semicolon {
                    Outcome::Parsed {
                        tree: Tree::Assignment { left: Box::new(variable), right: Box::new(value) },
                        used: 3 + v,
                    }
                } else {
                    Outcome::Failed { message: msg_end_declaration(), used: 2 + v }
                },
                failed => failed.after(2),
            }
        } else if kind_at(tokens, pos + 1) == TokenType::Semicolon {
            Outcome::Parsed { tree: variable, used: 2 }
        } else {
            Outcome::Failed { message: msg_end_declaration(), used: 1 }
        }
    }
}

/// `statement := ifStmt | whileStmt | varDecl | expression`
#[verifier::opaque]
pub open spec fn statement(tokens: Seq<TokenView>, pos: int) -> Outcome
    decreases tokens_left(tokens, pos), 4nat,
{
    match kind_at(tokens, pos) {
        TokenType::If => if_statement(tokens, pos + 1).after(1),
        TokenType::While => while_statement(tokens, pos + 1).after(1),
        TokenType::Var => variable_declaration(tokens, pos + 1).after(1),
        _ => expression(tokens, pos),
    }
}

/// What `statement` is, one step unfolded.
pub proof fn lemma_statement(tokens: Seq<TokenView>, pos: int)
    ensures
        statement(tokens, pos) == match kind_at(tokens, pos) {
            TokenType::If => if_statement(tokens, pos + 1).after(1),
            TokenType::While => while_statement(tokens, pos + 1).after(1),
            TokenType::Var => variable_declaration(tokens, pos + 1).after(1),
            _ => expression(tokens, pos),
        },
{
    reveal(statement);
    reveal(if_statement);
    reveal(while_statement);
}

/// What `if_statement` is, one step unfolded.
pub proof fn lemma_if_statement(tokens: Seq<TokenView>, pos: int)
    ensures
        ({
            let condition = expression(tokens, pos + 1);
            let then_branch = statement(tokens, pos + 2 + condition.used());
            let else_branch = statement(
                tokens,
                pos + 3 + condition.used() + then_branch.used(),
            );
            if_statement(tokens, pos) == conditional(
                tokens,
                pos,
                condition,
                then_branch,
                else_branch,
            )
        }),
{
    reveal(statement);
    reveal(if_statement);
}

/// What `while_statement` is, one step unfolded.
pub proof fn lemma_while_statement(tokens: Seq<TokenView>, pos: int)
    ensures
        ({
            let condition = expression(tokens, pos + 1);
            let body = statement(tokens, pos + 2 + condition.used());
            while_statement(tokens, pos) == repetition(tokens, pos, condition, body)
        }),
{
    reveal(statement);
    reveal(while_statement);
}

/// A production that is found holds at least one token.
pub proof fn lemma_parsed_takes_tokens(tokens: Seq<TokenView>, pos: int)
    ensures
        primary(tokens, pos) is Parsed ==> primary(tokens, pos).used() >= 1,
        multiplication(tokens, pos) is Parsed ==> multiplication(tokens, pos).used() >= 1,
        addition(tokens, pos) is Parsed ==> addition(tokens, pos).used() >= 1,
        expression(tokens, pos) is Parsed ==> expression(tokens, pos).used() >= 1,
        statement(tokens, pos) is Parsed ==> statement(tokens, pos).used() >= 1,
{
    lemma_statement(tokens, pos);
}

/// What the parser makes of a whole token sequence.
pub struct ProgramOutcome {
    /// The trees of the statements that were found, in source order.
    pub statements: Seq<Tree>,
    /// How many tokens stand before the token at which parsing stopped.
    pub used: nat,
    /// The message of the failure that stopped parsing, if one did.
    pub failure: Option<Seq<char>>,
}

/// The statements from `pos` on, one after the other, up to the `EOF` token
/// or to the first statement that fails; nothing behind a failure is read.
pub open spec fn program(tokens: Seq<TokenView>, pos: int) -> ProgramOutcome
    decreases tokens_left(tokens, pos),
{
    if kind_at(tokens, pos) == TokenType::EOF {
        ProgramOutcome { statements: Seq::empty(), used: 0, failure: None }
    } else {
        match statement(tokens, pos) {
            Outcome::Parsed { tree, used } => {
                proof {
                    lemma_parsed_takes_tokens(tokens, pos);
                }
                let rest = program(tokens, pos + used);
                ProgramOutcome {
                    statements: seq![tree] + rest.statements,
                    used: used + rest.used,
                    failure: rest.failure,
                }
            },
            Outcome::Failed { message, used } => ProgramOutcome {
                statements: Seq::empty(),
                used,
                failure: Some(message),
            },
        }
    }
}

/// Whether the tokens from `pos` on are `trees.len()` statements, each one
/// directly behind the one before it and the `i`-th with the tree
/// `trees[i]`, and behind the last of them the `EOF` token.
pub open spec fn statements_in_order(tokens: Seq<TokenView>, pos: int, trees: Seq<Tree>) -> bool
    decreases trees.len(),
{
    if trees.len() == 0 {
        kind_at(tokens, pos) == TokenType::EOF
    } else {
        &&& kind_at(tokens, pos) != TokenType::EOF
        &&& statement(tokens, pos) is Parsed
        &&& statement(tokens, pos)->tree == trees[0]
        &&& statements_in_order(tokens, pos + statement(tokens, pos).used(), trees.drop_first())
    }
}

/// Order is preserved: where the tokens are `N` statements one behind the
/// other up to the `EOF` token, the program is those `N` statements in
/// source order, and no failure is reported.
pub proof fn lemma_order_preserved(tokens: Seq<TokenView>, pos: int, trees: Seq<Tree>)
    requires
        statements_in_order(tokens, pos, trees),
    ensures
        program(tokens, pos).statements == trees,
        program(tokens, pos).statements.len() == trees.len(),
        program(tokens, pos).failure is None,
    decreases trees.len(),
{
    if trees.len() == 0 {
        assert(program(tokens, pos).statements =~= trees);
    } else {
        let used = statement(tokens, pos).used();
        lemma_order_preserved(tokens, pos + used, trees.drop_first());
        assert(seq![trees[0]] + trees.drop_first() =~= trees);
    }
}

/// Where the `n`-th statement from `pos` on ends, counting only statements
/// that are found.
pub open spec fn statements_end(tokens: Seq<TokenView>, pos: int, n: nat) -> int
    decreases n,
{
    if n == 0 {
        pos
    } else {
        statements_end(tokens, pos + statement(tokens, pos).used(), (n - 1) as nat)
    }
}

/// Parsing stops at the first failure: where the program reports a
/// failure, the statements it holds are those found before the failing
/// one, and the failing statement begins where the last of them ends.
pub proof fn lemma_stops_at_first_failure(tokens: Seq<TokenView>, pos: int)
    requires
        program(tokens, pos).failure is Some,
    ensures
        ({
            let found = program(tokens, pos);
            let start = statements_end(tokens, pos, found.statements.len());
            &&& kind_at(tokens, start) != TokenType::EOF
            &&& statement(tokens, start) is Failed
            &&& Some(statement(tokens, start)->message) == found.failure
            &&& pos + found.used == start + statement(tokens, start).used()
        }),
    decreases tokens_left(tokens, pos),
{
    if kind_at(tokens, pos) != TokenType::EOF {
        match statement(tokens, pos) {
            Outcome::Parsed { tree, used } => {
                lemma_parsed_takes_tokens(tokens, pos);
                let rest = program(tokens, pos + used);
                lemma_stops_at_first_failure(tokens, pos + used);
                assert(program(tokens, pos).statements.len() == rest.statements.len() + 1);
            },
            Outcome::Failed { .. } => {},
        }
    }
}

} // verus!
