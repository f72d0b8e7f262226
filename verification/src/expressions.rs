//! Parsing of expressions: two levels of left-associative operators above
//! the primary expressions, the multiplicative level binding tighter than
//! the additive one.

use crate::ast::{
    BinaryOperationNode, BinaryOperator, DataType, NumberNode, ParenthesisNode, StatementNode,
    VariableNode,
};
use crate::grammar::{
    addition, addition_rest, additive, binary, expression, kind_at, lemma_addition_goes_on,
    lemma_multiplication_goes_on, lemma_parsed_takes_tokens, multiplication,
    multiplication_rest, multiplicative, primary, tokens_left, Outcome,
};
use crate::parser::{lemma_after_moved, yields, Parser};
use crate::text::contains_char;
use crate::token::TokenType;
use vstd::prelude::*;

verus! {

impl Parser {
    /// `primary := NUMBER | IDENTIFIER | "(" expression ")"`
    ///
    /// A number is tagged `Float` where its text holds a `.` and `Integer`
    /// otherwise; an identifier is tagged `Integer`. The parentheses of a
    /// group are kept as a node of their own.
        pub fn parse_primary(&mut self) -> (result: Option<StatementNode>)
        requires
            old(self)@.well_formed(),
        ensures
            final(self)@.well_formed(),
            final(self)@ == old(self)@.after(primary(old(self)@.tokens, old(self)@.current)),
            yields(result, primary(old(self)@.tokens, old(self)@.current)),
        decreases tokens_left(old(self)@.tokens, old(self)@.current), 0nat,
    {
        if self.match_token(TokenType::Number) {
            let token = self.previous();
            let data_type = if contains_char(token.lexeme.as_str(), '.') {
                DataType::Float
            } else {
                DataType::Integer
            };
            Some(StatementNode::Number(NumberNode::new(token.lexeme.clone(), data_type)))
        } else if self.match_token(TokenType::Identifier) {
            let token = self.previous();
            Some(
                StatementNode::Variable(VariableNode::new(token.lexeme.clone(), DataType::Integer)),
            )
        } else if self.match_token(TokenType::LeftParen) {
            let inner = match self.parse_expression() {
                Some(inner) => inner,
                None => {
                    return None;
                },
            };
            if self.consume(TokenType::RightParen, "Expect ')' after expression.").is_none() {
                return None;
            }
            Some(StatementNode::Parenthesis(ParenthesisNode::new(Box::new(inner))))
        } else {
            self.fail("Unexpected token");
            None
        }
    }

    /// Moves past a `*` or `/` under the cursor and returns the operator it
    /// writes; at any other token the cursor stays.
        fn match_multiplicative(&mut self) -> (operator: Option<BinaryOperator>)
        requires
            old(self)@.well_formed(),
        ensures
            final(self)@.well_formed(),
            operator == multiplicative(kind_at(old(self)@.tokens, old(self)@.current)),
            final(self)@ == old(self)@.moved(if operator is Some { 1int } else { 0int }),
    {
        let ghost view = self@;
        let kinds = [TokenType::Star, TokenType::Slash];
        if self.match_any(&kinds) {
            proof {
                let found = choose|i: int|
                    0 <= i < kinds@.len() && view.check(#[trigger] kinds@[i]);
                assert(found == 0 || found == 1);
            }
            match self.previous().token_type {
                TokenType::Star => Some(BinaryOperator::Multiply),
                _ => Some(BinaryOperator::Divide),
            }
        } else {
            assert(!view.check(kinds@[0]) && !view.check(kinds@[1]));
            None
        }
    }

    /// Moves past a `+` or `-` under the cursor and returns the operator it
    /// writes; at any other token the cursor stays.
        fn match_additive(&mut self) -> (operator: Option<BinaryOperator>)
        requires
            old(self)@.well_formed(),
        ensures
            final(self)@.well_formed(),
            operator == additive(kind_at(old(self)@.tokens, old(self)@.current)),
            final(self)@ == old(self)@.moved(if operator is Some { 1int } else { 0int }),
    {
        let ghost view = self@;
        let kinds = [TokenType::Plus, TokenType::Minus];
        if self.match_any(&kinds) {
            proof {
                let found = choose|i: int|
                    0 <= i < kinds@.len() && view.check(#[trigger] kinds@[i]);
                assert(found == 0 || found == 1);
            }
            match self.previous().token_type {
                TokenType::Plus => Some(BinaryOperator::Add),
                _ => Some(BinaryOperator::Subtract),
            }
        } else {
            assert(!view.check(kinds@[0]) && !view.check(kinds@[1]));
            None
        }
    }

    /// `multiplication := primary (("*"|"/") primary)*`, folded to the left.
    pub fn parse_multiplication(&mut self) -> (result: Option<StatementNode>)
        requires
            old(self)@.well_formed(),
        ensures
            final(self)@.well_formed(),
            final(self)@ == old(self)@.after(
                multiplication(old(self)@.tokens, old(self)@.current),
            ),
            yields(result, multiplication(old(self)@.tokens, old(self)@.current)),
        decreases tokens_left(old(self)@.tokens, old(self)@.current), 1nat,
    {
        let ghost origin = self@;
        let ghost tokens = origin.tokens;
        let ghost start = origin.current;
        let mut left = match self.parse_primary() {
            Some(left) => left,
            None => {
                return None;
            },
        };
        proof {
            lemma_parsed_takes_tokens(tokens, start);
        }
        loop
            invariant
                self@.well_formed(),
                origin == old(self)@,
                tokens == origin.tokens,
                start == origin.current,
                0 <= start < self@.current,
                self@ == origin.moved(self@.current - start),
                multiplication(tokens, start) == multiplication_rest(
                    tokens,
                    self@.current,
                    left@,
                ).after((self@.current - start) as nat),
            decreases tokens_left(tokens, self@.current),
        {
            let ghost here = self@.current;
            let ghost gone = (here - start) as nat;
            let ghost before = left@;
            let operator = match self.match_multiplicative() {
                Some(operator) => operator,
                None => {
                    return Some(left);
                },
            };
            let ghost next = primary(tokens, here + 1);
            proof {
                lemma_multiplication_goes_on(tokens, here, before, operator);
                lemma_after_moved(origin, gone + 1, next);
            }
            let right = match self.parse_primary() {
                Some(right) => right,
                None => {
                    return None;
                },
            };
            left = StatementNode::BinaryOperation(
                BinaryOperationNode::new(Box::new(left), operator, Box::new(right)),
            );
            assert(left@ == binary(before, operator, right@));
        }
    }

    /// `addition := multiplication (("+"|"-") multiplication)*`, folded to
    /// the left.
    #[verifier::rlimit(30)]
    pub fn parse_addition(&mut self) -> (result: Option<StatementNode>)
        requires
            old(self)@.well_formed(),
        ensures
            final(self)@.well_formed(),
            final(self)@ == old(self)@.after(addition(old(self)@.tokens, old(self)@.current)),
            yields(result, addition(old(self)@.tokens, old(self)@.current)),
        decreases tokens_left(old(self)@.tokens, old(self)@.current), 2nat,
    {
        let ghost origin = self@;
        let ghost tokens = origin.tokens;
        let ghost start = origin.current;
        let mut left = match self.parse_multiplication() {
            Some(left) => left,
            None => {
                return None;
            },
        };
        proof {
            lemma_parsed_takes_tokens(tokens, start);
        }
        loop
            invariant
                self@.well_formed(),
                origin == old(self)@,
                tokens == origin.tokens,
                start == origin.current,
                0 <= start < self@.current,
                self@ == origin.moved(self@.current - start),
                addition(tokens, start) == addition_rest(tokens, self@.current, left@).after(
                    (self@.current - start) as nat,
                ),
            decreases tokens_left(tokens, self@.current),
        {
            let ghost here = self@.current;
            let ghost gone = (here - start) as nat;
            let ghost before = left@;
            let operator = match self.match_additive() {
                Some(operator) => operator,
                None => {
                    assert(addition(tokens, start) == (Outcome::Parsed {
                        tree: before,
                        used: gone,
                    }));
                    return Some(left);
                },
            };
            let ghost next = multiplication(tokens, here + 1);
            proof {
                lemma_addition_goes_on(tokens, here, before, operator);
                lemma_after_moved(origin, gone + 1, next);
                assert(self@ == origin.moved(gone + 1 as int));
            }
            let right = match self.parse_multiplication() {
                Some(right) => right,
                None => {
                    assert(addition(tokens, start) == next.after(gone + 1));
                    return None;
                },
            };
            left = StatementNode::BinaryOperation(
                BinaryOperationNode::new(Box::new(left), operator, Box::new(right)),
            );
            assert(left@ == binary(before, operator, right@));
            assert(self@ == origin.moved(gone + 1 + next.used() as int));
            assert(addition(tokens, start) == addition_rest(tokens, self@.current, left@).after(
                gone + 1 + next.used(),
            ));
        }
    }

    /// `expression := addition`
        pub fn parse_expression(&mut self) -> (result: Option<StatementNode>)
        requires
            old(self)@.well_formed(),
        ensures
            final(self)@.well_formed(),
            final(self)@ == old(self)@.after(expression(old(self)@.tokens, old(self)@.current)),
            yields(result, expression(old(self)@.tokens, old(self)@.current)),
        decreases tokens_left(old(self)@.tokens, old(self)@.current), 3nat,
    {
        self.parse_addition()
    }
}

} // verus!
