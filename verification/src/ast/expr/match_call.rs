//! Matching a value's type against branches.

use crate::ast::expression::branches_ranged;
use crate::ast::expression::matched;
use crate::ast::expression::spec_branches;
use crate::ast::expression::spec_match;
use crate::ast::view::branches_view;
use crate::ast::view::statement_view;
use crate::ast::view::ExpressionView;
use crate::lex::tokens::leveled_view;
use crate::ast::expression::ExpressionStatement;
use crate::ast::parser::advanced;
use crate::ast::parser::described;
use crate::ast::parser::located;
use crate::ast::parser::parse_local;
use crate::ast::type_statement::TypeStatement;
use crate::error::CResult;
use crate::lex::token::Kw;
use crate::lex::token::Token;
use crate::lex::token::TokenView;
use crate::lex::tokens::Tokens;
use vstd::prelude::*;

verus! {

/// A match statement. It matches the subject's type to different branches.
#[derive(Debug)]
pub struct MatchCall {
    pub local_name: String,
    pub subject: Box<ExpressionStatement>,
    pub branches: Vec<(TypeStatement, ExpressionStatement)>,
}

impl MatchCall {
    /// The subject, then the branches, lie one after the other between
    /// `start` and `end`.
    pub open spec fn ranged(&self, start: int, end: int) -> bool {
        &&& start + 2 <= self.subject.token_range.start
        &&& self.subject.well_ranged()
        &&& branches_ranged(self.branches@, self.subject.token_range.end as int, end)
    }

    /// Whether the upcoming tokens start a match.
    pub fn matches(tokens: &Tokens) -> (r: bool)
        requires
            tokens.wf(),
        ensures
            r == (tokens.current() == TokenView::Kw(Kw::Match)),
    {
        match tokens.token() {
            Token::Kw(Kw::Match) => true,
            _ => false,
        }
    }

    /// Parses `match`, the name that the subject is bound to, the subject and
    /// the branches that follow at a deeper level, each a type and an
    /// expression.
    pub fn parse(tokens: &mut Tokens) -> (r: CResult<MatchCall>)
        requires
            old(tokens).wf(),
            old(tokens).current() == TokenView::Kw(Kw::Match),
        ensures
            advanced(*old(tokens), *final(tokens)),
            match r {
                Ok(call) => old(tokens).position < final(tokens).position && call.ranged(
                    old(tokens).position as int,
                    final(tokens).position as int,
                ),
                Err(e) => located(e, *old(tokens)) && described(e, *final(tokens)),
            },
            match spec_match(leveled_view(old(tokens).tokens@), old(tokens).position as int) {
                Ok((call, end)) => r matches Ok(found) && ExpressionView::Match(
                    found.local_name@,
                    Box::new(statement_view(*found.subject)),
                    branches_view(found.branches@),
                ) == call && final(tokens).position == end,
                Err(fault) => r matches Err(e) && fault.reported_by(
                    e,
                    leveled_view(old(tokens).tokens@),
                ),
            },
        decreases old(tokens).left(), 1nat,
    {
        let ghost toks = leveled_view(old(tokens).tokens@);
        let base_level = tokens.level();
        tokens.step();

        let local_name = parse_local(tokens)?;
        let subject = ExpressionStatement::parse(tokens)?;
        let mut branches: Vec<(TypeStatement, ExpressionStatement)> = Vec::new();

        while tokens.deeper_than(base_level)
            invariant
                advanced(*old(tokens), *tokens),
                old(tokens).position < tokens.position,
                branches_ranged(branches@, subject.token_range.end as int, tokens.position as int),
                toks == leveled_view(old(tokens).tokens@),
                spec_match(toks, old(tokens).position as int) == matched(
                    local_name@,
                    statement_view(subject),
                    spec_branches(
                        toks,
                        tokens.position as int,
                        base_level as nat,
                        branches_view(branches@),
                    ),
                ),
            decreases tokens.left(),
        {
            let ghost before = branches@;
            let type_statement = TypeStatement::parse(tokens)?;
            let branch = ExpressionStatement::parse(tokens)?;

            branches.push((type_statement, branch));
            assert(branches@.drop_last() == before);
        }

        let call = MatchCall { local_name, subject: Box::new(subject), branches };
        Ok(call)
    }
}

impl crate::ast::parser::Parse for MatchCall {
    open spec fn starts(token: TokenView) -> bool {
        token == TokenView::Kw(Kw::Match)
    }

    open spec fn grammar(tokens: crate::ast::view::Toks, pos: int) -> crate::ast::view::Parsed<
        Self::V,
    > {
        spec_match(tokens, pos)
    }

    fn matches(tokens: &Tokens) -> (r: bool) {
        MatchCall::matches(tokens)
    }

    fn parse(tokens: &mut Tokens) -> (r: CResult<Self>) {
        MatchCall::parse(tokens)
    }
}

} // verus!
