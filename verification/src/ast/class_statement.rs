//! The dependencies of a class.

use crate::ast::expression::deeper;
use crate::ast::parser::advanced;
use crate::ast::parser::spec_parameter;
use crate::ast::view::parameters_view;
use crate::ast::view::span;
use crate::ast::view::type_view;
use crate::ast::view::ClassView;
use crate::ast::view::ParametersView;
use crate::ast::view::ParseFault;
use crate::ast::view::Parsed;
use crate::ast::view::Toks;
use crate::lex::tokens::leveled_view;
use crate::ast::parser::described;
use crate::ast::parser::located;
use crate::ast::parser::parameters_ranged;
use crate::ast::parser::parse_parameter;
use crate::ast::type_statement::TypeStatement;
use crate::error::CResult;
use crate::error::Span;
use crate::lex::token::Kw;
use crate::lex::token::Token;
use crate::lex::token::TokenView;
use crate::lex::tokens::Tokens;
use vstd::prelude::*;

verus! {

/// The class keyword and its dependencies.
#[derive(Debug)]
pub struct ClassStatement {
    pub dependencies: Vec<(String, TypeStatement)>,
    pub token_range: Span,
}

/// The class that starts at `start` with the dependencies `done` read up
/// to the position, and the dependencies that follow deeper than `base`.
pub open spec fn spec_class_from(
    tokens: Toks,
    start: int,
    pos: int,
    base: nat,
    done: ParametersView,
) -> Parsed<ClassView>
    decreases tokens.len() - pos,
{
    if deeper(tokens, pos, base) {
        match spec_parameter(tokens, pos) {
            Err(fault) => Err(fault),
            Ok((parameter, after)) => if !(pos < after <= tokens.len()) {
                Err(ParseFault::Unexpected(pos))
            } else {
                spec_class_from(tokens, start, after, base, done.push(parameter))
            },
        }
    } else {
        Ok((ClassView { dependencies: done, token_range: span(start, pos) }, pos))
    }
}

/// The class that stands at the position: `class`, and the dependencies
/// that follow at a deeper level.
pub open spec fn spec_class(tokens: Toks, pos: int) -> Parsed<ClassView> {
    spec_class_from(tokens, pos, pos + 1, tokens[pos].1, Seq::empty())
}

impl ClassStatement {
    /// The dependencies lie one after the other behind the keyword.
    pub open spec fn well_ranged(&self) -> bool {
        &&& self.token_range.start < self.token_range.end
        &&& parameters_ranged(
            self.dependencies@,
            self.token_range.start as int,
            self.token_range.end as int,
        )
    }

    /// Whether the upcoming tokens start a class.
    pub fn matches(tokens: &Tokens) -> (r: bool)
        requires
            tokens.wf(),
        ensures
            r == (tokens.current() == TokenView::Kw(Kw::Class)),
    {
        match tokens.token() {
            Token::Kw(Kw::Class) => true,
            _ => false,
        }
    }

    /// Parses `class` and the dependencies that follow at a deeper level.
    pub fn parse(tokens: &mut Tokens) -> (r: CResult<ClassStatement>)
        requires
            old(tokens).wf(),
            old(tokens).current() == TokenView::Kw(Kw::Class),
        ensures
            advanced(*old(tokens), *final(tokens)),
            match r {
                Ok(statement) => statement.well_ranged() && statement.token_range == (Span {
                    start: old(tokens).position,
                    end: final(tokens).position,
                }),
                Err(e) => located(e, *old(tokens)) && described(e, *final(tokens)),
            },
            match spec_class(leveled_view(old(tokens).tokens@), old(tokens).position as int) {
                Ok((class, end)) => r matches Ok(found) && found@ == class && final(tokens).position == end,
                Err(fault) => r matches Err(e) && fault.reported_by(
                    e,
                    leveled_view(old(tokens).tokens@),
                ),
            },
    {
        let ghost toks = leveled_view(old(tokens).tokens@);
        let base_level = tokens.level();
        let token_start = tokens.position();
        tokens.step();

        let mut dependencies: Vec<(String, TypeStatement)> = Vec::new();
        assert(parameters_view(dependencies@) =~= ParametersView::empty());
        while tokens.deeper_than(base_level)
            invariant
                advanced(*old(tokens), *tokens),
                token_start == old(tokens).position,
                token_start < tokens.position,
                parameters_ranged(dependencies@, token_start as int, tokens.position as int),
                toks == leveled_view(old(tokens).tokens@),
                spec_class(toks, token_start as int) == spec_class_from(
                    toks,
                    token_start as int,
                    tokens.position as int,
                    base_level as nat,
                    parameters_view(dependencies@),
                ),
            decreases tokens.left(),
        {
            let ghost done = parameters_view(dependencies@);
            let dependency = parse_parameter(tokens)?;
            let ghost view = (dependency.0@, type_view(dependency.1));
            dependencies.push(dependency);
            assert(parameters_view(dependencies@) =~= done.push(view));
        }

        let statement = ClassStatement {
            dependencies,
            token_range: Span { start: token_start, end: tokens.position() },
        };
        Ok(statement)
    }
}

impl crate::ast::parser::Parse for ClassStatement {
    open spec fn starts(token: TokenView) -> bool {
        token == TokenView::Kw(Kw::Class)
    }

    open spec fn grammar(tokens: crate::ast::view::Toks, pos: int) -> crate::ast::view::Parsed<
        Self::V,
    > {
        spec_class(tokens, pos)
    }

    fn matches(tokens: &Tokens) -> (r: bool) {
        ClassStatement::matches(tokens)
    }

    fn parse(tokens: &mut Tokens) -> (r: CResult<Self>) {
        ClassStatement::parse(tokens)
    }
}

} // verus!
