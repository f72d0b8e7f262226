//! Parsing is local: what a production makes of the tokens at a position
//! depends on the tokens it takes and on the one behind them, and of that
//! one only on whether it could carry the production on. From this follows
//! that statements written one behind the other are parsed to the same
//! trees in the same order.

use crate::ast::Tree;
use crate::grammar::{
    addition, addition_rest, additive, binary, expression, if_statement, kind_at,
    lemma_if_statement, lemma_parsed_takes_tokens, lemma_statement, lemma_while_statement,
    multiplication, multiplication_rest, multiplicative, primary, program, statement,
    tokens_left, variable_declaration, while_statement, Outcome, ProgramOutcome,
};
use crate::soundness::sign_at;
use crate::token::{TokenType, TokenView};
use vstd::prelude::*;

verus! {

/// How a token can carry on what stands before it.
pub enum Follow {
    /// `+` or `-`: it carries on an addition.
    Additive,
    /// `*` or `/`: it carries on a multiplication.
    Multiplicative,
    /// `else`: it carries on a conditional.
    Else,
    /// Any other token carries nothing on.
    Nothing,
}

/// How a token of kind `kind` can carry on what stands before it.
pub open spec fn follow(kind: TokenType) -> Follow {
    match kind {
        TokenType::Plus => Follow::Additive,
        TokenType::Minus => Follow::Additive,
        TokenType::Star => Follow::Multiplicative,
        TokenType::Slash => Follow::Multiplicative,
        TokenType::Else => Follow::Else,
        _ => Follow::Nothing,
    }
}

/// Whether the `i`-th token from `pa` on in `a` and the `i`-th from `pb`
/// on in `b` are read alike.
pub open spec fn same_read(a: Seq<TokenView>, pa: int, b: Seq<TokenView>, pb: int, i: int) -> bool {
    sign_at(a, pa + i) == sign_at(b, pb + i)
}

/// Whether the tokens of `b` from `pb` on look to a production like those
/// of `a` from `pa` on, where the production makes `outcome` of the latter:
/// the tokens it takes are read alike, and the token behind them is of the
/// same kind, or, where the production was found, carries on the same.
pub open spec fn alike(
    a: Seq<TokenView>,
    pa: int,
    b: Seq<TokenView>,
    pb: int,
    outcome: Outcome,
) -> bool {
    let used = outcome.used() as int;
    let end_a = kind_at(a, pa + used);
    let end_b = kind_at(b, pb + used);
    &&& forall|i: int| 0 <= i < used ==> #[trigger] same_read(a, pa, b, pb, i)
    &&& end_a == end_b || (outcome is Parsed && follow(end_a) == follow(end_b))
}

/// Where two token sequences look alike to a production, each token that
/// the production takes has the same kind in both, and the same text
/// where it is a number or an identifier.
pub proof fn lemma_alike_token(
    a: Seq<TokenView>,
    pa: int,
    b: Seq<TokenView>,
    pb: int,
    whole: Outcome,
    i: int,
)
    requires
        alike(a, pa, b, pb, whole),
        0 <= i < whole.used(),
    ensures
        kind_at(a, pa + i) == kind_at(b, pb + i),
        kind_at(a, pa + i) == TokenType::Number || kind_at(a, pa + i) == TokenType::Identifier
            ==> a[pa + i].lexeme == b[pb + i].lexeme,
{
    assert(same_read(a, pa, b, pb, i));
}

/// Where two token sequences look alike to a production, they look alike to
/// each part of it: to one that begins `shift` tokens in, ends within the
/// production, and was found if the production was.
pub proof fn lemma_alike_part(
    a: Seq<TokenView>,
    pa: int,
    b: Seq<TokenView>,
    pb: int,
    whole: Outcome,
    shift: nat,
    part: Outcome,
)
    requires
        alike(a, pa, b, pb, whole),
        shift + part.used() <= whole.used(),
        whole is Parsed ==> part is Parsed,
    ensures
        alike(a, pa + shift, b, pb + shift, part),
{
    let used = part.used() as int;
    assert forall|i: int| 0 <= i < used implies #[trigger] same_read(
        a,
        pa + shift,
        b,
        pb + shift,
        i,
    ) by {
        assert(same_read(a, pa, b, pb, shift + i));
    }
    if shift + used < whole.used() {
        lemma_alike_token(a, pa, b, pb, whole, shift + used);
    }
}

/// A primary expression is local.
pub proof fn lemma_primary_local(a: Seq<TokenView>, pa: int, b: Seq<TokenView>, pb: int)
    requires
        alike(a, pa, b, pb, primary(a, pa)),
    ensures
        primary(b, pb) == primary(a, pa),
    decreases tokens_left(a, pa), 0nat,
{
    let whole = primary(a, pa);
    match kind_at(a, pa) {
        TokenType::Number => {
            lemma_alike_token(a, pa, b, pb, whole, 0);
        },
        TokenType::Identifier => {
            lemma_alike_token(a, pa, b, pb, whole, 0);
        },
        TokenType::LeftParen => {
            let inner = expression(a, pa + 1);
            lemma_alike_part(a, pa, b, pb, whole, 1, inner);
            lemma_alike_token(a, pa, b, pb, whole, 0);
            lemma_expression_local(a, pa + 1, b, pb + 1);
            match inner {
                Outcome::Parsed { tree, used } => {
                    if kind_at(a, pa + 1 + used) == TokenType::RightParen {
                        lemma_alike_token(a, pa, b, pb, whole, 1 + used as int);
                    }
                },
                _ => {},
            }
        },
        _ => {},
    }
}

/// The rest of a multiplication is local.
pub proof fn lemma_multiplication_rest_local(
    a: Seq<TokenView>,
    pa: int,
    b: Seq<TokenView>,
    pb: int,
    left: Tree,
)
    requires
        alike(a, pa, b, pb, multiplication_rest(a, pa, left)),
    ensures
        multiplication_rest(b, pb, left) == multiplication_rest(a, pa, left),
    decreases tokens_left(a, pa), 0nat,
{
    let whole = multiplication_rest(a, pa, left);
    match multiplicative(kind_at(a, pa)) {
        Some(operator) => {
            let right = primary(a, pa + 1);
            lemma_alike_part(a, pa, b, pb, whole, 1, right);
            lemma_alike_token(a, pa, b, pb, whole, 0);
            lemma_primary_local(a, pa + 1, b, pb + 1);
            match right {
                Outcome::Parsed { tree, used } => {
                    let joined = binary(left, operator, tree);
                    let rest = multiplication_rest(a, pa + 1 + used, joined);
                    lemma_alike_part(a, pa, b, pb, whole, 1 + used, rest);
                    lemma_multiplication_rest_local(a, pa + 1 + used, b, pb + 1 + used, joined);
                },
                _ => {},
            }
        },
        None => {},
    }
}

/// A multiplication is local.
pub proof fn lemma_multiplication_local(a: Seq<TokenView>, pa: int, b: Seq<TokenView>, pb: int)
    requires
        alike(a, pa, b, pb, multiplication(a, pa)),
    ensures
        multiplication(b, pb) == multiplication(a, pa),
    decreases tokens_left(a, pa), 1nat,
{
    let whole = multiplication(a, pa);
    let first = primary(a, pa);
    match first {
        Outcome::Parsed { tree, used } => {
            let rest = multiplication_rest(a, pa + used, tree);
            lemma_alike_part(a, pa, b, pb, whole, 0, first);
            lemma_primary_local(a, pa, b, pb);
            lemma_alike_part(a, pa, b, pb, whole, used, rest);
            lemma_multiplication_rest_local(a, pa + used, b, pb + used, tree);
        },
        _ => {
            lemma_primary_local(a, pa, b, pb);
        },
    }
}

/// The rest of an addition is local.
pub proof fn lemma_addition_rest_local(
    a: Seq<TokenView>,
    pa: int,
    b: Seq<TokenView>,
    pb: int,
    left: Tree,
)
    requires
        alike(a, pa, b, pb, addition_rest(a, pa, left)),
    ensures
        addition_rest(b, pb, left) == addition_rest(a, pa, left),
    decreases tokens_left(a, pa), 0nat,
{
    let whole = addition_rest(a, pa, left);
    match additive(kind_at(a, pa)) {
        Some(operator) => {
            let right = multiplication(a, pa + 1);
            lemma_alike_part(a, pa, b, pb, whole, 1, right);
            lemma_alike_token(a, pa, b, pb, whole, 0);
            lemma_multiplication_local(a, pa + 1, b, pb + 1);
            match right {
                Outcome::Parsed { tree, used } => {
                    let joined = binary(left, operator, tree);
                    let rest = addition_rest(a, pa + 1 + used, joined);
                    lemma_alike_part(a, pa, b, pb, whole, 1 + used, rest);
                    lemma_addition_rest_local(a, pa + 1 + used, b, pb + 1 + used, joined);
                },
                _ => {},
            }
        },
        None => {},
    }
}

/// An addition is local.
pub proof fn lemma_addition_local(a: Seq<TokenView>, pa: int, b: Seq<TokenView>, pb: int)
    requires
        alike(a, pa, b, pb, addition(a, pa)),
    ensures
        addition(b, pb) == addition(a, pa),
    decreases tokens_left(a, pa), 2nat,
{
    let whole = addition(a, pa);
    let first = multiplication(a, pa);
    match first {
        Outcome::Parsed { tree, used } => {
            let rest = addition_rest(a, pa + used, tree);
            lemma_alike_part(a, pa, b, pb, whole, 0, first);
            lemma_multiplication_local(a, pa, b, pb);
            lemma_alike_part(a, pa, b, pb, whole, used, rest);
            lemma_addition_rest_local(a, pa + used, b, pb + used, tree);
        },
        _ => {
            lemma_multiplication_local(a, pa, b, pb);
        },
    }
}

/// An expression is local.
pub proof fn lemma_expression_local(a: Seq<TokenView>, pa: int, b: Seq<TokenView>, pb: int)
    requires
        alike(a, pa, b, pb, expression(a, pa)),
    ensures
        expression(b, pb) == expression(a, pa),
    decreases tokens_left(a, pa), 3nat,
{
    lemma_addition_local(a, pa, b, pb);
}

/// A variable declaration is local.
pub proof fn lemma_variable_declaration_local(
    a: Seq<TokenView>,
    pa: int,
    b: Seq<TokenView>,
    pb: int,
)
    requires
        alike(a, pa, b, pb, variable_declaration(a, pa)),
    ensures
        variable_declaration(b, pb) == variable_declaration(a, pa),
{
    let whole = variable_declaration(a, pa);
    if kind_at(a, pa) == TokenType::Identifier {
        lemma_alike_token(a, pa, b, pb, whole, 0);
        if kind_at(a, pa + 1) == TokenType::Assign {
            let value = expression(a, pa + 2);
            lemma_alike_token(a, pa, b, pb, whole, 1);
            lemma_alike_part(a, pa, b, pb, whole, 2, value);
            lemma_expression_local(a, pa + 2, b, pb + 2);
            match value {
                Outcome::Parsed { tree, used } => {
                    if kind_at(a, pa + 2 + used) == TokenType::Semicolon {
                        lemma_alike_token(a, pa, b, pb, whole, 2 + used as int);
                    }
                },
                _ => {},
            }
        } else if kind_at(a, pa + 1) == TokenType::Semicolon {
            lemma_alike_token(a, pa, b, pb, whole, 1);
        }
    }
}

/// A loop is local.
pub proof fn lemma_while_statement_local(a: Seq<TokenView>, pa: int, b: Seq<TokenView>, pb: int)
    requires
        alike(a, pa, b, pb, while_statement(a, pa)),
    ensures
        while_statement(b, pb) == while_statement(a, pa),
    decreases tokens_left(a, pa), 5nat,
{
    lemma_while_statement(a, pa);
    lemma_while_statement(b, pb);
    let whole = while_statement(a, pa);
    let condition = expression(a, pa + 1);
    let body = statement(a, pa + 2 + condition.used());
    if kind_at(a, pa) == TokenType::LeftParen {
        lemma_alike_token(a, pa, b, pb, whole, 0);
        lemma_alike_part(a, pa, b, pb, whole, 1, condition);
        lemma_expression_local(a, pa + 1, b, pb + 1);
        if condition is Parsed {
            let c = condition.used();
            if kind_at(a, pa + 1 + c) == TokenType::RightParen {
                lemma_alike_token(a, pa, b, pb, whole, 1 + c as int);
                lemma_alike_part(a, pa, b, pb, whole, 2 + c, body);
                lemma_statement_local(a, pa + 2 + c, b, pb + 2 + c);
            }
        }
    }
}

/// A conditional is local.
pub proof fn lemma_if_statement_local(a: Seq<TokenView>, pa: int, b: Seq<TokenView>, pb: int)
    requires
        alike(a, pa, b, pb, if_statement(a, pa)),
    ensures
        if_statement(b, pb) == if_statement(a, pa),
    decreases tokens_left(a, pa), 5nat,
{
    lemma_if_statement(a, pa);
    lemma_if_statement(b, pb);
    let whole = if_statement(a, pa);
    let condition = expression(a, pa + 1);
    let then_branch = statement(a, pa + 2 + condition.used());
    let else_branch = statement(a, pa + 3 + condition.used() + then_branch.used());
    if kind_at(a, pa) == TokenType::LeftParen {
        lemma_alike_token(a, pa, b, pb, whole, 0);
        lemma_alike_part(a, pa, b, pb, whole, 1, condition);
        lemma_expression_local(a, pa + 1, b, pb + 1);
        if condition is Parsed {
            let c = condition.used();
            if kind_at(a, pa + 1 + c) == TokenType::RightParen {
                lemma_alike_token(a, pa, b, pb, whole, 1 + c as int);
                lemma_alike_part(a, pa, b, pb, whole, 2 + c, then_branch);
                lemma_statement_local(a, pa + 2 + c, b, pb + 2 + c);
                if then_branch is Parsed {
                    let t = then_branch.used();
                    if kind_at(a, pa + 2 + c + t) == TokenType::Else {
                        lemma_alike_token(a, pa, b, pb, whole, 2 + c + t as int);
                        lemma_alike_part(a, pa, b, pb, whole, 3 + c + t, else_branch);
                        lemma_statement_local(a, pa + 3 + c + t, b, pb + 3 + c + t);
                    }
                }
            }
        }
    }
}

/// A statement is local: where two token sequences are read alike as far
/// as the statement reaches, and the tokens behind it carry on the same,
/// the statement makes the same of both.
pub proof fn lemma_statement_local(a: Seq<TokenView>, pa: int, b: Seq<TokenView>, pb: int)
    requires
        alike(a, pa, b, pb, statement(a, pa)),
    ensures
        statement(b, pb) == statement(a, pa),
    decreases tokens_left(a, pa), 4nat,
{
    lemma_statement(a, pa);
    lemma_statement(b, pb);
    let whole = statement(a, pa);
    match kind_at(a, pa) {
        TokenType::If => {
            let inner = if_statement(a, pa + 1);
            lemma_alike_token(a, pa, b, pb, whole, 0);
            lemma_alike_part(a, pa, b, pb, whole, 1, inner);
            lemma_if_statement_local(a, pa + 1, b, pb + 1);
        },
        TokenType::While => {
            let inner = while_statement(a, pa + 1);
            lemma_alike_token(a, pa, b, pb, whole, 0);
            lemma_alike_part(a, pa, b, pb, whole, 1, inner);
            lemma_while_statement_local(a, pa + 1, b, pb + 1);
        },
        TokenType::Var => {
            let inner = variable_declaration(a, pa + 1);
            lemma_alike_token(a, pa, b, pb, whole, 0);
            lemma_alike_part(a, pa, b, pb, whole, 1, inner);
            lemma_variable_declaration_local(a, pa + 1, b, pb + 1);
        },
        _ => {
            lemma_expression_local(a, pa, b, pb);
            lemma_expression_start(a, pa, b, pb);
        },
    }
}

/// Where an expression makes the same of two token sequences, neither
/// begins with a keyword of a statement unless both do.
pub proof fn lemma_expression_start(a: Seq<TokenView>, pa: int, b: Seq<TokenView>, pb: int)
    requires
        alike(a, pa, b, pb, expression(a, pa)),
        expression(b, pb) == expression(a, pa),
        kind_at(a, pa) != TokenType::If,
        kind_at(a, pa) != TokenType::While,
        kind_at(a, pa) != TokenType::Var,
    ensures
        kind_at(b, pb) != TokenType::If,
        kind_at(b, pb) != TokenType::While,
        kind_at(b, pb) != TokenType::Var,
{
    let whole = expression(a, pa);
    if whole.used() > 0 {
        lemma_alike_token(a, pa, b, pb, whole, 0);
    } else {
        lemma_parsed_takes_tokens(a, pa);
    }
}

/// A program is local: where two token sequences are read alike from two
/// positions on, to their ends, the program makes the same of both.
pub proof fn lemma_program_local(a: Seq<TokenView>, pa: int, b: Seq<TokenView>, pb: int)
    requires
        forall|i: int| 0 <= i ==> #[trigger] same_read(a, pa, b, pb, i),
    ensures
        program(b, pb) == program(a, pa),
    decreases tokens_left(a, pa),
{
    assert(same_read(a, pa, b, pb, 0));
    if kind_at(a, pa) != TokenType::EOF {
        let first = statement(a, pa);
        assert(same_read(a, pa, b, pb, first.used() as int));
        lemma_statement_local(a, pa, b, pb);
        match first {
            Outcome::Parsed { tree, used } => {
                lemma_parsed_takes_tokens(a, pa);
                assert forall|i: int| 0 <= i implies #[trigger] same_read(
                    a,
                    pa + used,
                    b,
                    pb + used,
                    i,
                ) by {
                    assert(same_read(a, pa, b, pb, used + i));
                }
                lemma_program_local(a, pa + used, b, pb + used);
            },
            _ => {},
        }
    }
}

/// A statement that is found begins with a token that carries nothing on.
pub proof fn lemma_statement_start(tokens: Seq<TokenView>, pos: int)
    requires
        statement(tokens, pos) is Parsed,
    ensures
        follow(kind_at(tokens, pos)) == Follow::Nothing,
        kind_at(tokens, pos) != TokenType::EOF,
{
    lemma_statement(tokens, pos);
}

/// Whether the tokens `part`, closed by the `EOF` token `closing`, are one
/// whole statement with the tree `tree`, and nothing more.
pub open spec fn stands_alone(part: Seq<TokenView>, tree: Tree, closing: TokenView) -> bool {
    &&& closing.token_type == TokenType::EOF
    &&& statement(part.push(closing), 0) == (Outcome::Parsed { tree, used: part.len() })
}

/// The token sequences `parts`, one behind the other.
pub open spec fn joined(parts: Seq<Seq<TokenView>>) -> Seq<TokenView>
    decreases parts.len(),
{
    if parts.len() == 0 {
        Seq::empty()
    } else {
        parts[0] + joined(parts.drop_first())
    }
}

/// A statement that stands alone is found again at the head of any token
/// sequence that goes on with a token that carries nothing on.
pub proof fn lemma_statement_at_head(
    part: Seq<TokenView>,
    rest: Seq<TokenView>,
    tree: Tree,
    closing: TokenView,
)
    requires
        stands_alone(part, tree, closing),
        follow(kind_at(rest, 0)) == Follow::Nothing,
    ensures
        statement(part + rest, 0) == (Outcome::Parsed { tree, used: part.len() }),
{
    let a = part.push(closing);
    let b = part + rest;
    let whole = statement(a, 0);
    assert forall|i: int| 0 <= i < whole.used() implies #[trigger] same_read(a, 0, b, 0, i) by {
        assert(a[i] == part[i]);
        assert(b[i] == part[i]);
    }
    assert(kind_at(a, part.len() as int) == TokenType::EOF);
    if rest.len() > 0 {
        assert(b[part.len() as int] == rest[0]);
    }
    assert(kind_at(b, part.len() as int) == kind_at(rest, 0));
    lemma_statement_local(a, 0, b, 0);
}

/// Order is preserved: `N` statements, each of which stands alone, written
/// one behind the other and closed by an `EOF` token, are parsed to the
/// same `N` trees in the same order, with no failure.
pub proof fn lemma_statements_in_sequence(
    parts: Seq<Seq<TokenView>>,
    trees: Seq<Tree>,
    closing: TokenView,
)
    requires
        parts.len() == trees.len(),
        closing.token_type == TokenType::EOF,
        forall|i: int| 0 <= i < parts.len() ==> stands_alone(#[trigger] parts[i], trees[i], closing),
    ensures
        program(joined(parts).push(closing), 0) == (ProgramOutcome {
            statements: trees,
            used: joined(parts).len(),
            failure: None,
        }),
    decreases parts.len(),
{
    let tokens = joined(parts).push(closing);
    if parts.len() == 0 {
        assert(trees =~= Seq::<Tree>::empty());
        assert(kind_at(tokens, 0) == TokenType::EOF);
        assert(program(tokens, 0).statements =~= trees);
    } else {
        let first = parts[0];
        let tail = parts.drop_first();
        let rest = joined(tail).push(closing);
        assert(tokens =~= first + rest);
        assert(stands_alone(first, trees[0], closing));
        lemma_parsed_takes_tokens(first.push(closing), 0);
        assert forall|i: int| 0 <= i < tail.len() implies stands_alone(
            #[trigger] tail[i],
            trees.drop_first()[i],
            closing,
        ) by {
            assert(stands_alone(parts[i + 1], trees[i + 1], closing));
        }
        lemma_statements_in_sequence(tail, trees.drop_first(), closing);
        if tail.len() > 0 {
            let next = tail[0];
            assert(stands_alone(next, trees[1], closing));
            lemma_parsed_takes_tokens(next.push(closing), 0);
            lemma_statement_start(next.push(closing), 0);
            assert(next.push(closing)[0] == next[0]);
            assert(rest[0] == next[0]);
        }
        lemma_statement_at_head(first, rest, trees[0], closing);
        assert forall|i: int| 0 <= i implies #[trigger] same_read(
            tokens,
            first.len() as int,
            rest,
            0,
            i,
        ) by {
            if i < rest.len() {
                assert(tokens[first.len() + i] == rest[i]);
            }
        }
        lemma_program_local(tokens, first.len() as int, rest, 0);
        assert(seq![trees[0]] + trees.drop_first() =~= trees);
        let after = program(rest, 0);
        assert(after.statements == trees.drop_first());
        assert(after.used == joined(tail).len());
        assert(program(tokens, first.len() as int) == after);
        assert(statement(tokens, 0) == (Outcome::Parsed { tree: trees[0], used: first.len() }));
        assert(kind_at(tokens, 0) != TokenType::EOF) by {
            lemma_statement_start(first.push(closing), 0);
            assert(first.push(closing)[0] == first[0]);
            assert(tokens[0] == first[0]);
        }
        assert(program(tokens, 0).statements == seq![trees[0]] + after.statements);
        assert(joined(parts).len() == first.len() + joined(tail).len());
    }
}

} // verus!
