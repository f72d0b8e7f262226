//! The converse of soundness, for expressions: every tree of the grammar's
//! shape is found where its writing stands and no operator follows. With
//! soundness this says exactly which tree an expression is.

use crate::ast::Tree;
use crate::grammar::{
    addition, addition_rest, additive, expression, kind_at, multiplication, multiplication_rest,
    multiplicative, primary, Outcome,
};
use crate::soundness::{
    is_additive, is_multiplicative, is_primary, lemma_expression_sound, lemma_expression_stops,
    operator_kind, sign_at, signs, written,
};
use crate::token::TokenView;
use vstd::prelude::*;

verus! {

/// Whether the writing of `tree` stands in `tokens` from `pos` on.
pub open spec fn stands_at(tokens: Seq<TokenView>, pos: int, tree: Tree) -> bool {
    signs(tokens, pos, written(tree).len()) == written(tree)
}

/// Where a writing stands, each of its signs is the sign of the token there.
pub proof fn lemma_stands_token(tokens: Seq<TokenView>, pos: int, tree: Tree, i: int)
    requires
        stands_at(tokens, pos, tree),
        0 <= i < written(tree).len(),
    ensures
        sign_at(tokens, pos + i) == written(tree)[i],
{
    assert(signs(tokens, pos, written(tree).len())[i] == sign_at(tokens, pos + i));
}

/// Where the writing of an operation stands, the writings of its two sides
/// stand before and behind the operator.
pub proof fn lemma_stands_sides(tokens: Seq<TokenView>, pos: int, tree: Tree)
    requires
        stands_at(tokens, pos, tree),
        tree is BinaryOperation,
    ensures
        ({
            let left = *tree->BinaryOperation_left;
            let right = *tree->BinaryOperation_right;
            let operator = tree->BinaryOperation_operator;
            let n = written(left).len();
            &&& written(tree).len() == n + 1 + written(right).len()
            &&& stands_at(tokens, pos, left)
            &&& kind_at(tokens, pos + n) == operator_kind(operator)
            &&& stands_at(tokens, pos + n + 1, right)
        }),
{
    let left = *tree->BinaryOperation_left;
    let right = *tree->BinaryOperation_right;
    let n = written(left).len() as int;
    let m = written(right).len() as int;
    assert(written(tree).len() == n + 1 + m);
    assert forall|i: int| 0 <= i < n implies signs(tokens, pos, n as nat)[i] == written(
        left,
    )[i] by {
        lemma_stands_token(tokens, pos, tree, i);
    }
    assert(signs(tokens, pos, n as nat) =~= written(left));
    lemma_stands_token(tokens, pos, tree, n);
    assert forall|i: int| 0 <= i < m implies signs(tokens, pos + n + 1, m as nat)[i] == written(
        right,
    )[i] by {
        lemma_stands_token(tokens, pos, tree, n + 1 + i);
    }
    assert(signs(tokens, pos + n + 1, m as nat) =~= written(right));
}

/// Seen from no token earlier, an outcome is itself.
pub proof fn lemma_after_nothing(outcome: Outcome)
    ensures
        outcome.after(0) == outcome,
{
}

/// A primary expression is found where its writing stands.
pub proof fn lemma_primary_complete(tokens: Seq<TokenView>, pos: int, tree: Tree)
    requires
        is_primary(tree),
        stands_at(tokens, pos, tree),
    ensures
        primary(tokens, pos) == (Outcome::Parsed { tree, used: written(tree).len() }),
    decreases tree, 0nat,
{
    lemma_stands_token(tokens, pos, tree, 0);
    match tree {
        Tree::Parenthesis { expression: inner } => {
            let n = written(*inner).len() as int;
            assert forall|i: int| 0 <= i < n implies signs(tokens, pos + 1, n as nat)[i]
                == written(*inner)[i] by {
                lemma_stands_token(tokens, pos, tree, 1 + i);
            }
            assert(signs(tokens, pos + 1, n as nat) =~= written(*inner));
            lemma_stands_token(tokens, pos, tree, 1 + n);
            lemma_expression_complete(tokens, pos + 1, *inner);
        },
        _ => {},
    }
}

/// Where the writing of a multiplication stands, its first primary
/// expression is found, and the rest goes on from it to the whole
/// multiplication.
pub proof fn lemma_multiplication_chain(tokens: Seq<TokenView>, pos: int, tree: Tree)
    requires
        is_multiplicative(tree),
        stands_at(tokens, pos, tree),
    ensures
        primary(tokens, pos) is Parsed,
        primary(tokens, pos).used() <= written(tree).len(),
        multiplication_rest(
            tokens,
            pos + primary(tokens, pos).used(),
            primary(tokens, pos)->tree,
        ) == multiplication_rest(tokens, pos + written(tree).len(), tree).after(
            (written(tree).len() - primary(tokens, pos).used()) as nat,
        ),
    decreases tree, 1nat,
{
    match tree {
        Tree::BinaryOperation { left, operator, right } => {
            let n = written(*left).len();
            let m = written(*right).len();
            lemma_stands_sides(tokens, pos, tree);
            lemma_multiplication_chain(tokens, pos, *left);
            lemma_primary_complete(tokens, pos + n + 1, *right);
            let first = primary(tokens, pos);
            let whole = multiplication_rest(tokens, pos + n + 1 + m, tree);
            assert(multiplication_rest(tokens, pos + n, *left) == whole.after(1 + m));
            assert(whole.after(1 + m).after((n - first.used()) as nat) == whole.after(
                (n + 1 + m - first.used()) as nat,
            ));
        },
        _ => {
            lemma_primary_complete(tokens, pos, tree);
            lemma_after_nothing(multiplication_rest(tokens, pos + written(tree).len(), tree));
        },
    }
}

/// A multiplication is found where its writing stands and neither `*` nor
/// `/` follows.
pub proof fn lemma_multiplication_complete(tokens: Seq<TokenView>, pos: int, tree: Tree)
    requires
        is_multiplicative(tree),
        stands_at(tokens, pos, tree),
        multiplicative(kind_at(tokens, pos + written(tree).len())) is None,
    ensures
        multiplication(tokens, pos) == (Outcome::Parsed { tree, used: written(tree).len() }),
    decreases tree, 2nat,
{
    lemma_multiplication_chain(tokens, pos, tree);
}

/// Where the writing of an addition stands and neither `*` nor `/` follows,
/// its first multiplication is found, and the rest goes on from it to the
/// whole addition.
pub proof fn lemma_addition_chain(tokens: Seq<TokenView>, pos: int, tree: Tree)
    requires
        is_additive(tree),
        stands_at(tokens, pos, tree),
        multiplicative(kind_at(tokens, pos + written(tree).len())) is None,
    ensures
        multiplication(tokens, pos) is Parsed,
        multiplication(tokens, pos).used() <= written(tree).len(),
        addition_rest(
            tokens,
            pos + multiplication(tokens, pos).used(),
            multiplication(tokens, pos)->tree,
        ) == addition_rest(tokens, pos + written(tree).len(), tree).after(
            (written(tree).len() - multiplication(tokens, pos).used()) as nat,
        ),
    decreases tree, 3nat,
{
    if tree is BinaryOperation && additive(operator_kind(tree->BinaryOperation_operator)) is Some {
        let left = *tree->BinaryOperation_left;
        let right = *tree->BinaryOperation_right;
        let n = written(left).len();
        let m = written(right).len();
        lemma_stands_sides(tokens, pos, tree);
        lemma_addition_chain(tokens, pos, left);
        lemma_multiplication_complete(tokens, pos + n + 1, right);
        let first = multiplication(tokens, pos);
        let whole = addition_rest(tokens, pos + n + 1 + m, tree);
        assert(addition_rest(tokens, pos + n, left) == whole.after(1 + m));
        assert(whole.after(1 + m).after((n - first.used()) as nat) == whole.after(
            (n + 1 + m - first.used()) as nat,
        ));
    } else {
        lemma_multiplication_complete(tokens, pos, tree);
        lemma_after_nothing(addition_rest(tokens, pos + written(tree).len(), tree));
    }
}

/// An expression is found where its writing stands and no operator
/// follows.
pub proof fn lemma_expression_complete(tokens: Seq<TokenView>, pos: int, tree: Tree)
    requires
        is_additive(tree),
        stands_at(tokens, pos, tree),
        additive(kind_at(tokens, pos + written(tree).len())) is None,
        multiplicative(kind_at(tokens, pos + written(tree).len())) is None,
    ensures
        expression(tokens, pos) == (Outcome::Parsed { tree, used: written(tree).len() }),
    decreases tree, 4nat,
{
    lemma_addition_chain(tokens, pos, tree);
}

/// Which tree an expression is: `tree` is found at `pos`, taking `used`
/// tokens, exactly when it has the shape of the grammar, its writing is
/// those tokens, and the token behind them is no operator.
pub proof fn lemma_expression_exact(tokens: Seq<TokenView>, pos: int, tree: Tree, used: nat)
    ensures
        expression(tokens, pos) == (Outcome::Parsed { tree, used }) <==> {
            &&& is_additive(tree)
            &&& written(tree) == signs(tokens, pos, used)
            &&& additive(kind_at(tokens, pos + used)) is None
            &&& multiplicative(kind_at(tokens, pos + used)) is None
        },
{
    if expression(tokens, pos) == (Outcome::Parsed { tree, used }) {
        lemma_expression_sound(tokens, pos);
        lemma_expression_stops(tokens, pos);
    }
    if is_additive(tree) && written(tree) == signs(tokens, pos, used) {
        assert(written(tree).len() == used);
        if additive(kind_at(tokens, pos + used)) is None && multiplicative(
            kind_at(tokens, pos + used),
        ) is None {
            lemma_expression_complete(tokens, pos, tree);
        }
    }
}

} // verus!
