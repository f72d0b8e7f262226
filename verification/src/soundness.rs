//! What is true of every tree that the grammar yields: it has the shape
//! that precedence and left association ask for, its numbers and variables
//! carry the tags that the rules give them, and written out again it is
//! the very tokens it was made from.

use crate::ast::{BinaryOperator, DataType, Tree};
use crate::grammar::{
    addition, addition_rest, additive, binary, expression, if_statement, kind_at,
    lemma_if_statement, lemma_parsed_takes_tokens, lemma_statement, lemma_while_statement,
    multiplication, multiplication_rest, multiplicative, number_type, primary, program,
    statement, tokens_left, variable_declaration, while_statement, Outcome,
};
use crate::token::{TokenType, TokenView};
use vstd::prelude::*;

verus! {

/// Whether `tree` is a primary expression: a number with the tag its text
/// asks for, a variable tagged `Integer`, or an expression in parentheses.
pub open spec fn is_primary(tree: Tree) -> bool
    decreases tree, 0nat,
{
    match tree {
        Tree::Number { value, data_type } => data_type == number_type(value),
        Tree::Variable { data_type, .. } => data_type == DataType::Integer,
        Tree::Parenthesis { expression } => is_additive(*expression),
        _ => false,
    }
}

/// Whether `tree` is a multiplication: a primary expression, or a product
/// or quotient whose left side is a multiplication and whose right side is
/// a primary expression.
pub open spec fn is_multiplicative(tree: Tree) -> bool
    decreases tree, 1nat,
{
    match tree {
        Tree::BinaryOperation { left, operator, right } => {
            &&& operator == BinaryOperator::Multiply || operator == BinaryOperator::Divide
            &&& is_multiplicative(*left)
            &&& is_primary(*right)
        },
        _ => is_primary(tree),
    }
}

/// Whether `tree` is an addition, which every expression is: a
/// multiplication, or a sum or difference whose left side is an addition
/// and whose right side is a multiplication.
pub open spec fn is_additive(tree: Tree) -> bool
    decreases tree, 2nat,
{
    match tree {
        Tree::BinaryOperation { left, operator, right } => {
            if operator == BinaryOperator::Add || operator == BinaryOperator::Subtract {
                is_additive(*left) && is_multiplicative(*right)
            } else {
                is_multiplicative(tree)
            }
        },
        _ => is_multiplicative(tree),
    }
}

/// Whether `tree` is a statement: a conditional or a loop on an expression
/// with statements as its parts, a declared variable alone or with the
/// expression assigned to it, or an expression.
pub open spec fn is_statement(tree: Tree) -> bool
    decreases tree,
{
    match tree {
        Tree::If { condition, then_branch, else_branch } => {
            &&& is_additive(*condition)
            &&& is_statement(*then_branch)
            &&& match else_branch {
                Some(branch) => is_statement(*branch),
                None => true,
            }
        },
        Tree::While { condition, body } => is_additive(*condition) && is_statement(*body),
        Tree::Assignment { left, right } => {
            &&& *left is Variable
            &&& is_primary(*left)
            &&& is_additive(*right)
        },
        _ => is_additive(tree),
    }
}

/// What the grammar reads of one token: its kind, and the text of a number
/// or an identifier.
pub struct Sign {
    pub kind: TokenType,
    pub text: Seq<char>,
}

/// A token of kind `kind` whose text does not matter.
pub open spec fn mark(kind: TokenType) -> Sign {
    Sign { kind, text: Seq::empty() }
}

/// What the grammar reads of `token`.
pub open spec fn sign_of(token: TokenView) -> Sign {
    if token.token_type == TokenType::Number || token.token_type == TokenType::Identifier {
        Sign { kind: token.token_type, text: token.lexeme }
    } else {
        mark(token.token_type)
    }
}

/// What the grammar reads of the token at `pos`; past either end of the
/// sequence, an `EOF` token.
pub open spec fn sign_at(tokens: Seq<TokenView>, pos: int) -> Sign {
    if 0 <= pos < tokens.len() {
        sign_of(tokens[pos])
    } else {
        mark(TokenType::EOF)
    }
}

/// What the grammar reads of the `n` tokens from `pos` on.
pub open spec fn signs(tokens: Seq<TokenView>, pos: int, n: nat) -> Seq<Sign> {
    Seq::new(n, |i: int| sign_at(tokens, pos + i))
}

/// The token kind that writes an operator.
pub open spec fn operator_kind(operator: BinaryOperator) -> TokenType {
    match operator {
        BinaryOperator::Add => TokenType::Plus,
        BinaryOperator::Subtract => TokenType::Minus,
        BinaryOperator::Multiply => TokenType::Star,
        BinaryOperator::Divide => TokenType::Slash,
    }
}

/// The expression `tree` written out as tokens.
pub open spec fn written(tree: Tree) -> Seq<Sign>
    decreases tree,
{
    match tree {
        Tree::Number { value, .. } => seq![Sign { kind: TokenType::Number, text: value }],
        Tree::Variable { name, .. } => seq![Sign { kind: TokenType::Identifier, text: name }],
        Tree::Parenthesis { expression } => seq![mark(TokenType::LeftParen)] + written(
            *expression,
        ) + seq![mark(TokenType::RightParen)],
        Tree::BinaryOperation { left, operator, right } => written(*left) + seq![
            mark(operator_kind(operator)),
        ] + written(*right),
        _ => Seq::empty(),
    }
}

/// The signs of a run of tokens are those of its first part followed by
/// those of the rest.
pub proof fn lemma_signs_split(tokens: Seq<TokenView>, pos: int, first: nat, rest: nat)
    ensures
        signs(tokens, pos, first + rest) == signs(tokens, pos, first) + signs(
            tokens,
            pos + first,
            rest,
        ),
{
    assert(signs(tokens, pos, first + rest) =~= signs(tokens, pos, first) + signs(
        tokens,
        pos + first,
        rest,
    ));
}

/// What holds of an expression that was found: it has the shape `shaped`
/// asks for, and it is written as the tokens it took.
pub open spec fn sound(
    tokens: Seq<TokenView>,
    pos: int,
    outcome: Outcome,
    shaped: spec_fn(Tree) -> bool,
) -> bool {
    outcome matches Outcome::Parsed { tree, used } ==> {
        &&& shaped(tree)
        &&& written(tree) == signs(tokens, pos, used)
    }
}

/// A primary expression that is found is one, and is written as its tokens.
pub proof fn lemma_primary_sound(tokens: Seq<TokenView>, pos: int)
    ensures
        sound(tokens, pos, primary(tokens, pos), |t: Tree| is_primary(t)),
    decreases tokens_left(tokens, pos), 0nat,
{
    match kind_at(tokens, pos) {
        TokenType::Number => {
            assert(written(primary(tokens, pos)->tree) =~= signs(tokens, pos, 1));
        },
        TokenType::Identifier => {
            assert(written(primary(tokens, pos)->tree) =~= signs(tokens, pos, 1));
        },
        TokenType::LeftParen => {
            lemma_expression_sound(tokens, pos + 1);
            match expression(tokens, pos + 1) {
                Outcome::Parsed { tree, used } => {
                    if kind_at(tokens, pos + 1 + used) == TokenType::RightParen {
                        lemma_signs_split(tokens, pos, 1, used);
                        lemma_signs_split(tokens, pos, 1 + used, 1);
                        assert(signs(tokens, pos, 1) =~= seq![mark(TokenType::LeftParen)]);
                        assert(signs(tokens, pos + 1 + used, 1) =~= seq![
                            mark(TokenType::RightParen),
                        ]);
                    }
                },
                _ => {},
            }
        },
        _ => {},
    }
}

/// The rest of a multiplication keeps it a multiplication, and appends to
/// its writing the tokens it takes.
pub proof fn lemma_multiplication_rest_sound(tokens: Seq<TokenView>, pos: int, left: Tree)
    requires
        is_multiplicative(left),
    ensures
        multiplication_rest(tokens, pos, left) matches Outcome::Parsed { tree, used } ==> {
            &&& is_multiplicative(tree)
            &&& written(tree) == written(left) + signs(tokens, pos, used)
        },
    decreases tokens_left(tokens, pos), 0nat,
{
    match multiplicative(kind_at(tokens, pos)) {
        Some(operator) => {
            lemma_primary_sound(tokens, pos + 1);
            match primary(tokens, pos + 1) {
                Outcome::Parsed { tree, used } => {
                    let joined = binary(left, operator, tree);
                    assert(is_multiplicative(joined));
                    lemma_multiplication_rest_sound(tokens, pos + 1 + used, joined);
                    match multiplication_rest(tokens, pos + 1 + used, joined) {
                        Outcome::Parsed { tree: whole, used: more } => {
                            lemma_signs_split(tokens, pos, 1, used);
                            lemma_signs_split(tokens, pos, 1 + used, more);
                            assert(signs(tokens, pos, 1) =~= seq![mark(operator_kind(operator))]);
                            assert(written(whole) =~= written(left) + signs(
                                tokens,
                                pos,
                                1 + used + more,
                            ));
                        },
                        _ => {},
                    }
                },
                _ => {},
            }
        },
        None => {
            assert(written(left) + signs(tokens, pos, 0) =~= written(left));
        },
    }
}

/// A multiplication that is found is one, and is written as its tokens.
pub proof fn lemma_multiplication_sound(tokens: Seq<TokenView>, pos: int)
    ensures
        sound(tokens, pos, multiplication(tokens, pos), |t: Tree| is_multiplicative(t)),
    decreases tokens_left(tokens, pos), 1nat,
{
    lemma_primary_sound(tokens, pos);
    match primary(tokens, pos) {
        Outcome::Parsed { tree, used } => {
            lemma_multiplication_rest_sound(tokens, pos + used, tree);
            match multiplication_rest(tokens, pos + used, tree) {
                Outcome::Parsed { used: more, .. } => {
                    lemma_signs_split(tokens, pos, used, more);
                },
                _ => {},
            }
        },
        _ => {},
    }
}

/// The rest of an addition keeps it an addition, and appends to its writing
/// the tokens it takes.
pub proof fn lemma_addition_rest_sound(tokens: Seq<TokenView>, pos: int, left: Tree)
    requires
        is_additive(left),
    ensures
        addition_rest(tokens, pos, left) matches Outcome::Parsed { tree, used } ==> {
            &&& is_additive(tree)
            &&& written(tree) == written(left) + signs(tokens, pos, used)
        },
    decreases tokens_left(tokens, pos), 0nat,
{
    match additive(kind_at(tokens, pos)) {
        Some(operator) => {
            lemma_multiplication_sound(tokens, pos + 1);
            match multiplication(tokens, pos + 1) {
                Outcome::Parsed { tree, used } => {
                    let joined = binary(left, operator, tree);
                    assert(is_additive(joined));
                    lemma_addition_rest_sound(tokens, pos + 1 + used, joined);
                    match addition_rest(tokens, pos + 1 + used, joined) {
                        Outcome::Parsed { tree: whole, used: more } => {
                            lemma_signs_split(tokens, pos, 1, used);
                            lemma_signs_split(tokens, pos, 1 + used, more);
                            assert(signs(tokens, pos, 1) =~= seq![mark(operator_kind(operator))]);
                            assert(written(whole) =~= written(left) + signs(
                                tokens,
                                pos,
                                1 + used + more,
                            ));
                        },
                        _ => {},
                    }
                },
                _ => {},
            }
        },
        None => {
            assert(written(left) + signs(tokens, pos, 0) =~= written(left));
        },
    }
}

/// An addition that is found is one, and is written as its tokens.
pub proof fn lemma_addition_sound(tokens: Seq<TokenView>, pos: int)
    ensures
        sound(tokens, pos, addition(tokens, pos), |t: Tree| is_additive(t)),
    decreases tokens_left(tokens, pos), 2nat,
{
    lemma_multiplication_sound(tokens, pos);
    match multiplication(tokens, pos) {
        Outcome::Parsed { tree, used } => {
            assert(is_additive(tree)) by {
                lemma_multiplication_is_addition(tree);
            }
            lemma_addition_rest_sound(tokens, pos + used, tree);
            match addition_rest(tokens, pos + used, tree) {
                Outcome::Parsed { used: more, .. } => {
                    lemma_signs_split(tokens, pos, used, more);
                },
                _ => {},
            }
        },
        _ => {},
    }
}

/// Every multiplication is an addition.
pub proof fn lemma_multiplication_is_addition(tree: Tree)
    requires
        is_multiplicative(tree),
    ensures
        is_additive(tree),
{
}

/// Precedence and association: an expression that is found has the shape
/// of the grammar, in which a product never has a sum as a side unless that
/// sum stands in parentheses, and operators of one level lean to the left;
/// and written out again it is the tokens it was made from.
pub proof fn lemma_expression_sound(tokens: Seq<TokenView>, pos: int)
    ensures
        sound(tokens, pos, expression(tokens, pos), |t: Tree| is_additive(t)),
    decreases tokens_left(tokens, pos), 3nat,
{
    lemma_addition_sound(tokens, pos);
}

/// The rest of a multiplication ends before a token that is neither `*`
/// nor `/`.
pub proof fn lemma_multiplication_rest_stops(tokens: Seq<TokenView>, pos: int, left: Tree)
    ensures
        multiplication_rest(tokens, pos, left) matches Outcome::Parsed { used, .. }
            ==> multiplicative(kind_at(tokens, pos + used)) is None,
    decreases tokens_left(tokens, pos),
{
    match multiplicative(kind_at(tokens, pos)) {
        Some(operator) => {
            match primary(tokens, pos + 1) {
                Outcome::Parsed { tree, used } => {
                    lemma_multiplication_rest_stops(
                        tokens,
                        pos + 1 + used,
                        binary(left, operator, tree),
                    );
                },
                _ => {},
            }
        },
        None => {},
    }
}

/// A multiplication ends before a token that is neither `*` nor `/`.
pub proof fn lemma_multiplication_stops(tokens: Seq<TokenView>, pos: int)
    ensures
        multiplication(tokens, pos) matches Outcome::Parsed { used, .. } ==> multiplicative(
            kind_at(tokens, pos + used),
        ) is None,
{
    match primary(tokens, pos) {
        Outcome::Parsed { tree, used } => {
            lemma_multiplication_rest_stops(tokens, pos + used, tree);
        },
        _ => {},
    }
}

/// The rest of an addition that begins where a multiplication has ended
/// ends before a token that is no operator.
pub proof fn lemma_addition_rest_stops(tokens: Seq<TokenView>, pos: int, left: Tree)
    requires
        multiplicative(kind_at(tokens, pos)) is None,
    ensures
        addition_rest(tokens, pos, left) matches Outcome::Parsed { used, .. } ==> {
            &&& additive(kind_at(tokens, pos + used)) is None
            &&& multiplicative(kind_at(tokens, pos + used)) is None
        },
    decreases tokens_left(tokens, pos),
{
    match additive(kind_at(tokens, pos)) {
        Some(operator) => {
            lemma_multiplication_stops(tokens, pos + 1);
            match multiplication(tokens, pos + 1) {
                Outcome::Parsed { tree, used } => {
                    lemma_addition_rest_stops(
                        tokens,
                        pos + 1 + used,
                        binary(left, operator, tree),
                    );
                },
                _ => {},
            }
        },
        None => {},
    }
}

/// An expression ends before a token that is no operator.
pub proof fn lemma_expression_stops(tokens: Seq<TokenView>, pos: int)
    ensures
        expression(tokens, pos) matches Outcome::Parsed { used, .. } ==> {
            &&& additive(kind_at(tokens, pos + used)) is None
            &&& multiplicative(kind_at(tokens, pos + used)) is None
        },
{
    lemma_multiplication_stops(tokens, pos);
    match multiplication(tokens, pos) {
        Outcome::Parsed { tree, used } => {
            lemma_addition_rest_stops(tokens, pos + used, tree);
        },
        _ => {},
    }
}

/// The tokens that open a conditional or a loop on `condition`: the
/// keyword, and the condition in parentheses.
pub open spec fn opening(keyword: TokenType, condition: Tree) -> Seq<Sign> {
    seq![mark(keyword), mark(TokenType::LeftParen)] + written(condition) + seq![
        mark(TokenType::RightParen),
    ]
}

/// Whether `text` is a writing of the statement `tree`: of a conditional,
/// `if ( condition ) statement`, with `else statement` behind it where the
/// tree has that branch; of a loop, `while ( condition ) statement`; of an
/// assignment, `var name = expression ;`; of a variable, its name alone or
/// `var name ;`; of any other expression, its own writing.
pub open spec fn writes(tree: Tree, text: Seq<Sign>) -> bool
    decreases tree,
{
    match tree {
        Tree::If { condition, then_branch, else_branch } => {
            let head = opening(TokenType::If, *condition);
            &&& head.len() <= text.len()
            &&& text.take(head.len() as int) == head
            &&& match else_branch {
                None => writes(*then_branch, text.skip(head.len() as int)),
                Some(branch) => exists|k: int|
                    {
                        &&& head.len() <= k < text.len()
                        &&& writes(*then_branch, text.subrange(head.len() as int, k))
                        &&& #[trigger] text[k] == mark(TokenType::Else)
                        &&& writes(*branch, text.skip(k + 1))
                    },
            }
        },
        Tree::While { condition, body } => {
            let head = opening(TokenType::While, *condition);
            &&& head.len() <= text.len()
            &&& text.take(head.len() as int) == head
            &&& writes(*body, text.skip(head.len() as int))
        },
        Tree::Assignment { left, right } => text == seq![mark(TokenType::Var)] + written(*left)
            + seq![mark(TokenType::Assign)] + written(*right) + seq![mark(TokenType::Semicolon)],
        Tree::Variable { .. } => text == written(tree) || text == seq![mark(TokenType::Var)]
            + written(tree) + seq![mark(TokenType::Semicolon)],
        _ => text == written(tree),
    }
}

/// Every addition is a statement.
pub proof fn lemma_addition_is_statement(tree: Tree)
    requires
        is_additive(tree),
    ensures
        is_statement(tree),
{
    reveal_with_fuel(is_additive, 3);
}

/// A variable declaration that is found is the declared variable, tagged
/// `Integer`, alone or with an expression assigned to it.
pub proof fn lemma_variable_declaration_sound(tokens: Seq<TokenView>, pos: int)
    ensures
        variable_declaration(tokens, pos) matches Outcome::Parsed { tree, .. } ==> {
            &&& is_statement(tree)
            &&& tree is Variable || tree is Assignment
        },
{
    reveal_with_fuel(is_additive, 3);
    lemma_expression_sound(tokens, pos + 2);
}

/// A loop that is found is a loop on an expression around a statement.
pub proof fn lemma_while_statement_sound(tokens: Seq<TokenView>, pos: int)
    ensures
        while_statement(tokens, pos) matches Outcome::Parsed { tree, .. } ==> is_statement(tree)
            && tree is While,
    decreases tokens_left(tokens, pos), 5nat,
{
    lemma_while_statement(tokens, pos);
    let condition = expression(tokens, pos + 1);
    lemma_expression_sound(tokens, pos + 1);
    if kind_at(tokens, pos) == TokenType::LeftParen {
        lemma_statement_sound(tokens, pos + 2 + condition.used());
    }
}

/// A conditional that is found is a conditional on an expression with
/// statements as its branches.
pub proof fn lemma_if_statement_sound(tokens: Seq<TokenView>, pos: int)
    ensures
        if_statement(tokens, pos) matches Outcome::Parsed { tree, .. } ==> is_statement(tree)
            && tree is If,
    decreases tokens_left(tokens, pos), 5nat,
{
    lemma_if_statement(tokens, pos);
    let condition = expression(tokens, pos + 1);
    let then_branch = statement(tokens, pos + 2 + condition.used());
    lemma_expression_sound(tokens, pos + 1);
    if kind_at(tokens, pos) == TokenType::LeftParen {
        lemma_statement_sound(tokens, pos + 2 + condition.used());
        lemma_statement_sound(tokens, pos + 3 + condition.used() + then_branch.used());
    }
}

/// A statement that is found has the shape of the grammar: its conditions
/// and values are expressions in which precedence and association are kept,
/// and its branches and bodies are statements.
pub proof fn lemma_statement_sound(tokens: Seq<TokenView>, pos: int)
    ensures
        statement(tokens, pos) matches Outcome::Parsed { tree, .. } ==> is_statement(tree),
    decreases tokens_left(tokens, pos), 4nat,
{
    lemma_statement(tokens, pos);
    match kind_at(tokens, pos) {
        TokenType::If => {
            lemma_if_statement_sound(tokens, pos + 1);
        },
        TokenType::While => {
            lemma_while_statement_sound(tokens, pos + 1);
        },
        TokenType::Var => {
            lemma_variable_declaration_sound(tokens, pos + 1);
        },
        _ => {
            lemma_expression_sound(tokens, pos);
            if expression(tokens, pos) is Parsed {
                lemma_addition_is_statement(expression(tokens, pos)->tree);
            }
        },
    }
}

/// Every statement of a program has the shape of the grammar.
pub proof fn lemma_program_sound(tokens: Seq<TokenView>, pos: int)
    ensures
        forall|i: int|
            0 <= i < program(tokens, pos).statements.len() ==> is_statement(
                #[trigger] program(tokens, pos).statements[i],
            ),
    decreases tokens_left(tokens, pos),
{
    if kind_at(tokens, pos) != TokenType::EOF {
        lemma_statement_sound(tokens, pos);
        match statement(tokens, pos) {
            Outcome::Parsed { tree, used } => {
                lemma_parsed_takes_tokens(tokens, pos);
                lemma_program_sound(tokens, pos + used);
            },
            _ => {},
        }
    }
}

/// A part of the signs of a run of tokens is the signs of a part of the
/// run.
pub proof fn lemma_signs_part(tokens: Seq<TokenView>, pos: int, n: nat, from: int, to: int)
    requires
        0 <= from <= to <= n,
    ensures
        signs(tokens, pos, n).subrange(from, to) == signs(tokens, pos + from, (to - from) as nat),
{
    assert(signs(tokens, pos, n).subrange(from, to) =~= signs(
        tokens,
        pos + from,
        (to - from) as nat,
    ));
}

/// The keyword, the `(`, a condition that is found, and the `)` are written
/// as the opening of the statement.
pub proof fn lemma_opening(tokens: Seq<TokenView>, pos: int, keyword: TokenType)
    requires
        kind_at(tokens, pos - 1) == keyword,
        keyword == TokenType::If || keyword == TokenType::While,
        kind_at(tokens, pos) == TokenType::LeftParen,
        expression(tokens, pos + 1) is Parsed,
        kind_at(tokens, pos + 1 + expression(tokens, pos + 1).used()) == TokenType::RightParen,
    ensures
        signs(tokens, pos - 1, 3 + expression(tokens, pos + 1).used()) == opening(
            keyword,
            expression(tokens, pos + 1)->tree,
        ),
{
    let used = expression(tokens, pos + 1).used();
    let tree = expression(tokens, pos + 1)->tree;
    lemma_expression_sound(tokens, pos + 1);
    let text = signs(tokens, pos - 1, 3 + used);
    let head = opening(keyword, tree);
    assert(head.len() == 3 + used);
    assert forall|i: int| 0 <= i < text.len() implies text[i] == head[i] by {
        if 2 <= i < 2 + used {
            assert(signs(tokens, pos + 1, used)[i - 2] == sign_at(tokens, pos + 1 + (i - 2)));
        }
    }
    assert(text =~= head);
}

/// A variable declaration that is found is written as the tokens it took,
/// the `var` before them included.
pub proof fn lemma_variable_declaration_writes(tokens: Seq<TokenView>, pos: int)
    requires
        kind_at(tokens, pos - 1) == TokenType::Var,
    ensures
        variable_declaration(tokens, pos) matches Outcome::Parsed { tree, used } ==> writes(
            tree,
            signs(tokens, pos - 1, used + 1),
        ),
{
    match variable_declaration(tokens, pos) {
        Outcome::Parsed { tree, used } => {
            let text = signs(tokens, pos - 1, used + 1);
            if kind_at(tokens, pos + 1) == TokenType::Assign {
                lemma_expression_sound(tokens, pos + 2);
                let value = expression(tokens, pos + 2)->tree;
                let v = expression(tokens, pos + 2).used();
                let name = Tree::Variable {
                    name: tokens[pos].lexeme,
                    data_type: DataType::Integer,
                };
                let wanted = seq![mark(TokenType::Var)] + written(name) + seq![
                    mark(TokenType::Assign),
                ] + written(value) + seq![mark(TokenType::Semicolon)];
                assert(wanted.len() == 4 + v);
                assert forall|i: int| 0 <= i < text.len() implies text[i] == wanted[i] by {
                    if 3 <= i < 3 + v {
                        assert(signs(tokens, pos + 2, v)[i - 3] == sign_at(
                            tokens,
                            pos + 2 + (i - 3),
                        ));
                    }
                }
                assert(text =~= wanted);
            } else {
                assert(text =~= seq![mark(TokenType::Var)] + written(tree) + seq![
                    mark(TokenType::Semicolon),
                ]);
            }
        },
        _ => {},
    }
}

/// A loop that is found is written as the tokens it took, the `while`
/// before them included.
pub proof fn lemma_while_statement_writes(tokens: Seq<TokenView>, pos: int)
    requires
        kind_at(tokens, pos - 1) == TokenType::While,
    ensures
        while_statement(tokens, pos) matches Outcome::Parsed { tree, used } ==> writes(
            tree,
            signs(tokens, pos - 1, used + 1),
        ),
    decreases tokens_left(tokens, pos), 5nat,
{
    lemma_while_statement(tokens, pos);
    match while_statement(tokens, pos) {
        Outcome::Parsed { tree, used } => {
            let c = expression(tokens, pos + 1).used() as int;
            let all = used + 1;
            let end = all as int;
            let text = signs(tokens, pos - 1, all);
            lemma_opening(tokens, pos, TokenType::While);
            lemma_signs_part(tokens, pos - 1, all, 0, 3 + c);
            lemma_signs_part(tokens, pos - 1, all, 3 + c, end);
            assert(text.take(3 + c) == text.subrange(0, 3 + c));
            assert(text.skip(3 + c) == text.subrange(3 + c, end));
            lemma_statement_writes(tokens, pos + 2 + c);
        },
        _ => {},
    }
}

/// A conditional that is found is written as the tokens it took, the `if`
/// before them included.
pub proof fn lemma_if_statement_writes(tokens: Seq<TokenView>, pos: int)
    requires
        kind_at(tokens, pos - 1) == TokenType::If,
    ensures
        if_statement(tokens, pos) matches Outcome::Parsed { tree, used } ==> writes(
            tree,
            signs(tokens, pos - 1, used + 1),
        ),
    decreases tokens_left(tokens, pos), 5nat,
{
    lemma_if_statement(tokens, pos);
    match if_statement(tokens, pos) {
        Outcome::Parsed { tree, used } => {
            let c = expression(tokens, pos + 1).used() as int;
            let then_branch = statement(tokens, pos + 2 + c);
            let t = then_branch.used() as int;
            let all = used + 1;
            let end = all as int;
            let text = signs(tokens, pos - 1, all);
            let head = opening(TokenType::If, expression(tokens, pos + 1)->tree);
            lemma_opening(tokens, pos, TokenType::If);
            lemma_signs_part(tokens, pos - 1, all, 0, 3 + c);
            assert(text.take(3 + c) == text.subrange(0, 3 + c));
            assert(head.len() == 3 + c);
            assert(text.take(head.len() as int) == head);
            lemma_statement_writes(tokens, pos + 2 + c);
            if kind_at(tokens, pos + 2 + c + t) == TokenType::Else {
                let else_branch = statement(tokens, pos + 3 + c + t);
                let k = 3 + c + t;
                lemma_signs_part(tokens, pos - 1, all, 3 + c, k);
                lemma_signs_part(tokens, pos - 1, all, k + 1, end);
                assert(text.skip(k + 1) == text.subrange(k + 1, end));
                assert(text[k] == sign_at(tokens, pos - 1 + k));
                assert(text[k] == mark(TokenType::Else));
                lemma_statement_writes(tokens, pos + 3 + c + t);
                assert(writes(then_branch->tree, text.subrange(head.len() as int, k)));
                assert(writes(else_branch->tree, text.skip(k + 1)));
                assert(tree->else_branch == Some(Box::new(else_branch->tree)));
                assert(writes(tree, text));
            } else {
                lemma_signs_part(tokens, pos - 1, all, 3 + c, end);
                assert(text.skip(3 + c) == text.subrange(3 + c, end));
                assert(writes(then_branch->tree, text.skip(head.len() as int)));
                assert(tree->else_branch is None);
                assert(writes(tree, text));
            }
        },
        _ => {},
    }
}

/// A statement that is found is written as the tokens it took.
pub proof fn lemma_statement_writes(tokens: Seq<TokenView>, pos: int)
    ensures
        statement(tokens, pos) matches Outcome::Parsed { tree, used } ==> writes(
            tree,
            signs(tokens, pos, used),
        ),
    decreases tokens_left(tokens, pos), 4nat,
{
    lemma_statement(tokens, pos);
    match kind_at(tokens, pos) {
        TokenType::If => {
            lemma_if_statement_writes(tokens, pos + 1);
        },
        TokenType::While => {
            lemma_while_statement_writes(tokens, pos + 1);
        },
        TokenType::Var => {
            lemma_variable_declaration_writes(tokens, pos + 1);
        },
        _ => {
            reveal_with_fuel(is_additive, 3);
            lemma_expression_sound(tokens, pos);
        },
    }
}

} // verus!
