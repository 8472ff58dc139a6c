//! Choosing between two expressions.

use crate::ast::expression::spec_if_else;
use crate::ast::expression::ExpressionStatement;
use crate::ast::view::statement_view;
use crate::ast::view::ExpressionView;
use crate::lex::tokens::leveled_view;
use crate::ast::parser::advanced;
use crate::ast::parser::described;
use crate::ast::parser::located;
use crate::error::CResult;
use crate::lex::token::Kw;
use crate::lex::token::Token;
use crate::lex::token::TokenView;
use crate::lex::tokens::Tokens;
use vstd::prelude::*;

verus! {

/// An if else statement. Because Compost is an expression language, there always needs
/// to be an else clause, in order to always have an output value.
#[derive(Debug)]
pub struct IfElseCall {
    pub condition: Box<ExpressionStatement>,
    pub iff: Box<ExpressionStatement>,
    pub els: Box<ExpressionStatement>,
}

impl IfElseCall {
    /// The condition and the two arms lie one after the other between
    /// `start` and `end`, with a keyword before each.
    pub open spec fn ranged(&self, start: int, end: int) -> bool {
        &&& start < self.condition.token_range.start
        &&& self.condition.token_range.end < self.iff.token_range.start
        &&& self.iff.token_range.end < self.els.token_range.start
        &&& self.els.token_range.end <= end
        &&& self.condition.well_ranged()
        &&& self.iff.well_ranged()
        &&& self.els.well_ranged()
    }

    /// Whether the upcoming tokens start an if-else.
    pub fn matches(tokens: &Tokens) -> (r: bool)
        requires
            tokens.wf(),
        ensures
            r == (tokens.current() == TokenView::Kw(Kw::If)),
    {
        match tokens.token() {
            Token::Kw(Kw::If) => true,
            _ => false,
        }
    }

    /// Parses `if` condition `then` expression `else` expression.
    pub fn parse(tokens: &mut Tokens) -> (r: CResult<IfElseCall>)
        requires
            old(tokens).wf(),
            old(tokens).current() == TokenView::Kw(Kw::If),
        ensures
            advanced(*old(tokens), *final(tokens)),
            match r {
                Ok(call) => old(tokens).position < final(tokens).position && call.ranged(
                    old(tokens).position as int,
                    final(tokens).position as int,
                ),
                Err(e) => located(e, *old(tokens)) && described(e, *final(tokens)),
            },
            match spec_if_else(leveled_view(old(tokens).tokens@), old(tokens).position as int) {
                Ok((call, end)) => r matches Ok(found) && ExpressionView::IfElse(
                    Box::new(statement_view(*found.condition)),
                    Box::new(statement_view(*found.iff)),
                    Box::new(statement_view(*found.els)),
                ) == call && final(tokens).position == end,
                Err(fault) => r matches Err(e) && fault.reported_by(
                    e,
                    leveled_view(old(tokens).tokens@),
                ),
            },
        decreases old(tokens).left(), 1nat,
    {
        tokens.step();

        let condition = ExpressionStatement::parse(tokens)?;

        match tokens.token() {
            Token::Kw(Kw::Then) => {},
            _ => {
                return tokens.unexpected_token_error();
            },
        }
        tokens.step();

        let iff = ExpressionStatement::parse(tokens)?;

        match tokens.token() {
            Token::Kw(Kw::Else) => {},
            _ => {
                return tokens.unexpected_token_error();
            },
        }
        tokens.step();

        let els = ExpressionStatement::parse(tokens)?;

        let call = IfElseCall {
            condition: Box::new(condition),
            iff: Box::new(iff),
            els: Box::new(els),
        };
        Ok(call)
    }
}

impl crate::ast::parser::Parse for IfElseCall {
    open spec fn starts(token: TokenView) -> bool {
        token == TokenView::Kw(Kw::If)
    }

    open spec fn grammar(tokens: crate::ast::view::Toks, pos: int) -> crate::ast::view::Parsed<
        Self::V,
    > {
        spec_if_else(tokens, pos)
    }

    fn matches(tokens: &Tokens) -> (r: bool) {
        IfElseCall::matches(tokens)
    }

    fn parse(tokens: &mut Tokens) -> (r: CResult<Self>) {
        IfElseCall::parse(tokens)
    }
}

} // verus!
