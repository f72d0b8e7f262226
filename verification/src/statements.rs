//! Parsing of statements: conditionals, loops, variable declarations, and
//! expressions standing as statements.

use crate::ast::{
    AssignmentNode, DataType, IfNode, StatementNode, Tree, VariableNode, WhileNode,
};
use crate::grammar::{
    if_statement, lemma_if_statement, lemma_statement, lemma_while_statement, statement,
    tokens_left, variable_declaration, while_statement,
};
use crate::parser::{yields, Parser};
use crate::token::TokenType;
use vstd::prelude::*;

verus! {

impl Parser {
    /// `ifStmt := "if" "(" expression ")" statement ("else" statement)?`,
    /// read from the token behind `if`. An `else` belongs to the nearest
    /// `if` before it.
    pub fn parse_if_statement(&mut self) -> (result: Option<StatementNode>)
        requires
            old(self)@.well_formed(),
        ensures
            final(self)@.well_formed(),
            final(self)@ == old(self)@.after(if_statement(old(self)@.tokens, old(self)@.current)),
            yields(result, if_statement(old(self)@.tokens, old(self)@.current)),
        decreases tokens_left(old(self)@.tokens, old(self)@.current), 5nat,
    {
        proof {
            lemma_if_statement(self@.tokens, self@.current);
        }
        if self.consume(TokenType::LeftParen, "Expect '(' after 'if'.").is_none() {
            return None;
        }
        let condition = match self.parse_expression() {
            Some(condition) => condition,
            None => {
                return None;
            },
        };
        if self.consume(TokenType::RightParen, "Expect ')' after if condition.").is_none() {
            return None;
        }
        let then_branch = match self.parse_statement() {
            Some(then_branch) => then_branch,
            None => {
                return None;
            },
        };
        let mut else_branch: Option<Box<StatementNode>> = None;
        if self.match_token(TokenType::Else) {
            match self.parse_statement() {
                Some(branch) => {
                    else_branch = Some(Box::new(branch));
                },
                None => {
                    return None;
                },
            }
        }
        Some(
            StatementNode::If(
                IfNode::new(Box::new(condition), Box::new(then_branch), else_branch),
            ),
        )
    }

    /// `whileStmt := "while" "(" expression ")" statement`, read from the
    /// token behind `while`.
    pub fn parse_while_statement(&mut self) -> (result: Option<StatementNode>)
        requires
            old(self)@.well_formed(),
        ensures
            final(self)@.well_formed(),
            final(self)@ == old(self)@.after(
                while_statement(old(self)@.tokens, old(self)@.current),
            ),
            yields(result, while_statement(old(self)@.tokens, old(self)@.current)),
        decreases tokens_left(old(self)@.tokens, old(self)@.current), 5nat,
    {
        proof {
            lemma_while_statement(self@.tokens, self@.current);
        }
        if self.consume(TokenType::LeftParen, "Expect '(' after 'while'.").is_none() {
            return None;
        }
        let condition = match self.parse_expression() {
            Some(condition) => condition,
            None => {
                return None;
            },
        };
        if self.consume(TokenType::RightParen, "Expect ')' after while condition.").is_none() {
            return None;
        }
        let body = match self.parse_statement() {
            Some(body) => body,
            None => {
                return None;
            },
        };
        Some(StatementNode::While(WhileNode::new(Box::new(condition), Box::new(body))))
    }

    /// `varDecl := "var" IDENTIFIER ("=" expression)? ";"`, read from the
    /// token behind `var`. Without an initializer the result is the bare
    /// variable; with one it is the assignment of the initializer to the
    /// variable. The variable is tagged `Integer`.
    pub fn parse_variable_declaration(&mut self) -> (result: Option<StatementNode>)
        requires
            old(self)@.well_formed(),
        ensures
            final(self)@.well_formed(),
            final(self)@ == old(self)@.after(
                variable_declaration(old(self)@.tokens, old(self)@.current),
            ),
            yields(result, variable_declaration(old(self)@.tokens, old(self)@.current)),
        decreases tokens_left(old(self)@.tokens, old(self)@.current), 5nat,
    {
        let ghost tokens = self@.tokens;
        let ghost start = self@.current;
        let name = match self.consume(TokenType::Identifier, "Expect variable name.") {
            Some(token) => token.lexeme.clone(),
            None => {
                return None;
            },
        };
        assert(name@ == tokens[start].lexeme);
        let data_type = DataType::Integer;
        let mut initializer: Option<StatementNode> = None;
        if self.match_token(TokenType::Assign) {
            match self.parse_expression() {
                Some(value) => {
                    initializer = Some(value);
                },
                None => {
                    return None;
                },
            }
        }
        if self.consume(TokenType::Semicolon, "Expect ';' after variable declaration.").is_none() {
            return None;
        }
        let variable = StatementNode::Variable(VariableNode::new(name, data_type));
        assert(variable@ == Tree::Variable { name: tokens[start].lexeme, data_type });
        match initializer {
            Some(value) => Some(
                StatementNode::Assignment(AssignmentNode::new(Box::new(variable), Box::new(value))),
            ),
            None => Some(variable),
        }
    }

    /// `statement := ifStmt | whileStmt | varDecl | expression`
    pub fn parse_statement(&mut self) -> (result: Option<StatementNode>)
        requires
            old(self)@.well_formed(),
        ensures
            final(self)@.well_formed(),
            final(self)@ == old(self)@.after(statement(old(self)@.tokens, old(self)@.current)),
            yields(result, statement(old(self)@.tokens, old(self)@.current)),
        decreases tokens_left(old(self)@.tokens, old(self)@.current), 4nat,
    {
        proof {
            lemma_statement(self@.tokens, self@.current);
        }
        if self.match_token(TokenType::If) {
            self.parse_if_statement()
        } else if self.match_token(TokenType::While) {
            self.parse_while_statement()
        } else if self.match_token(TokenType::Var) {
            self.parse_variable_declaration()
        } else {
            self.parse_expression()
        }
    }
}

} // verus!
