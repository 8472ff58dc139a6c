//! Lets: named values and functions.

use crate::ast::expression::spec_expression;
use crate::ast::expression::ExpressionStatement;
use crate::ast::parser::spec_in_out;
use crate::ast::view::lets_view;
use crate::ast::view::LetView;
use crate::ast::expression::deeper;
use crate::ast::view::span;
use crate::ast::view::ParseFault;
use crate::ast::view::Parsed;
use crate::ast::view::Toks;
use crate::lex::tokens::leveled_view;
use crate::ast::parser::parameters_ranged;
use crate::ast::parser::parse_global;
use crate::ast::parser::parse_in_out_types;
use crate::ast::type_statement::TypeStatement;
use crate::ast::parser::advanced;
use crate::ast::parser::described;
use crate::ast::parser::located;
use crate::error::CResult;
use crate::error::Span;
use crate::lex::token::Kw;
use crate::lex::token::Token;
use crate::lex::token::TokenView;
use crate::lex::tokens::Tokens;
use vstd::prelude::*;

verus! {

/// A single let which is made up of a name, optional parameters, an output type and the expression.
#[derive(Debug)]
pub struct LetStatement {
    pub name: String,
    pub parameters: Vec<(String, TypeStatement)>,
    pub output: TypeStatement,
    pub expr: ExpressionStatement,
    pub token_range: Span,
}

/// The lets keywords and its lets.
#[derive(Debug)]
pub struct LetsStatement {
    pub lets: Vec<LetStatement>,
}

/// The let that stands at the position: a name, parameters, an output
/// type and an expression.
pub open spec fn spec_let(tokens: Toks, pos: int) -> Parsed<LetView> {
    match tokens[pos].0 {
        TokenView::Global(name) => match spec_in_out(
            tokens,
            pos + 1,
            tokens[pos].1,
            Seq::empty(),
        ) {
            Err(fault) => Err(fault),
            Ok(((parameters, output), body)) => match spec_expression(tokens, body) {
                Err(fault) => Err(fault),
                Ok((expr, end)) => Ok(
                    (
                        LetView { name, parameters, output, expr, token_range: span(pos, end) },
                        end,
                    ),
                ),
            },
        },
        _ => Err(ParseFault::Unexpected(pos)),
    }
}

/// `done`, then the lets that stand from the position on, deeper than
/// `base`.
pub open spec fn spec_lets_from(tokens: Toks, pos: int, base: nat, done: Seq<LetView>) -> Parsed<
    Seq<LetView>,
>
    decreases tokens.len() - pos,
{
    if deeper(tokens, pos, base) {
        match spec_let(tokens, pos) {
            Err(fault) => Err(fault),
            Ok((lett, after)) => if !(pos < after <= tokens.len()) {
                Err(ParseFault::Unexpected(pos))
            } else {
                spec_lets_from(tokens, after, base, done.push(lett))
            },
        }
    } else {
        Ok((done, pos))
    }
}

/// The lets that stand at the position: `lets`, and the lets that follow
/// at a deeper level.
pub open spec fn spec_lets(tokens: Toks, pos: int) -> Parsed<Seq<LetView>> {
    spec_lets_from(tokens, pos + 1, tokens[pos].1, Seq::empty())
}

impl LetStatement {
    /// The name, the parameters, the output type and the expression lie one
    /// after the other and fill the range.
    pub open spec fn well_ranged(&self) -> bool {
        &&& parameters_ranged(
            self.parameters@,
            self.token_range.start as int,
            self.output.token_range.start as int,
        )
        &&& self.token_range.start < self.output.token_range.start
        &&& self.output.well_ranged()
        &&& self.output.token_range.end == self.expr.token_range.start
        &&& self.expr.well_ranged()
        &&& self.expr.token_range.end == self.token_range.end
    }
}

/// Lets lie one after the other between `start` and `end`.
pub open spec fn lets_ranged(lets: Seq<LetStatement>, start: int, end: int) -> bool {
    &&& forall|i: int|
        0 <= i < lets.len() ==> (#[trigger] lets[i]).well_ranged() && start
            <= lets[i].token_range.start && lets[i].token_range.end <= end
    &&& forall|i: int, j: int|
        0 <= i < j < lets.len() ==> (#[trigger] lets[i]).token_range.end <= (
        #[trigger] lets[j]).token_range.start
}

impl LetsStatement {
    pub fn new() -> (r: Self)
        ensures
            r.lets@.len() == 0,
    {
        Self { lets: Vec::new() }
    }

    /// Whether the upcoming tokens start a group of lets.
    pub fn matches(tokens: &Tokens) -> (r: bool)
        requires
            tokens.wf(),
        ensures
            r == (tokens.current() == TokenView::Kw(Kw::Lets)),
    {
        match tokens.token() {
            Token::Kw(Kw::Lets) => true,
            _ => false,
        }
    }

    /// Parses `lets` and the lets that follow at a deeper level.
    pub fn parse(tokens: &mut Tokens) -> (r: CResult<LetsStatement>)
        requires
            old(tokens).wf(),
            old(tokens).current() == TokenView::Kw(Kw::Lets),
        ensures
            advanced(*old(tokens), *final(tokens)),
            match r {
                Ok(statement) => old(tokens).position < final(tokens).position && lets_ranged(
                    statement.lets@,
                    old(tokens).position + 1,
                    final(tokens).position as int,
                ),
                Err(e) => located(e, *old(tokens)) && described(e, *final(tokens)),
            },
            match spec_lets(leveled_view(old(tokens).tokens@), old(tokens).position as int) {
                Ok((lets, end)) => r matches Ok(found) && lets_view(found.lets@) == lets
                    && final(tokens).position == end,
                Err(fault) => r matches Err(e) && fault.reported_by(
                    e,
                    leveled_view(old(tokens).tokens@),
                ),
            },
    {
        let ghost toks = leveled_view(old(tokens).tokens@);
        let base_level = tokens.level();
        tokens.step();

        let mut statement = LetsStatement::new();
        assert(lets_view(statement.lets@) =~= Seq::<LetView>::empty());

        while tokens.deeper_than(base_level)
            invariant
                advanced(*old(tokens), *tokens),
                old(tokens).position < tokens.position,
                lets_ranged(statement.lets@, old(tokens).position + 1, tokens.position as int),
                toks == leveled_view(old(tokens).tokens@),
                spec_lets(toks, old(tokens).position as int) == spec_lets_from(
                    toks,
                    tokens.position as int,
                    base_level as nat,
                    lets_view(statement.lets@),
                ),
            decreases tokens.left(),
        {
            let ghost done = lets_view(statement.lets@);
            let lett = parse_let(tokens)?;
            let ghost view = lett@;
            statement.lets.push(lett);
            assert(lets_view(statement.lets@) =~= done.push(view));
        }

        Ok(statement)
    }
}

/// Parses the name of a let, its parameters, its output type and its
/// expression.
pub fn parse_let(tokens: &mut Tokens) -> (r: CResult<LetStatement>)
    requires
        old(tokens).wf(),
    ensures
        advanced(*old(tokens), *final(tokens)),
        match r {
            Ok(statement) => old(tokens).current() == TokenView::Global(statement.name@)
                && statement.well_ranged() && statement.token_range == (Span {
                start: old(tokens).position,
                end: final(tokens).position,
            }),
            Err(e) => located(e, *old(tokens)) && described(e, *final(tokens)),
        },
        match spec_let(leveled_view(old(tokens).tokens@), old(tokens).position as int) {
            Ok((lett, end)) => r matches Ok(found) && found@ == lett && final(tokens).position
                == end,
            Err(fault) => r matches Err(e) && fault.reported_by(
                e,
                leveled_view(old(tokens).tokens@),
            ),
        },
{
    let base_level = tokens.level();
    let token_start = tokens.position();

    tokens.expect("the name of a let (Starting with an upper-case letter)");
    let name = parse_global(tokens)?;
    let (parameters, output) = parse_in_out_types(tokens, base_level)?;
    let expr = ExpressionStatement::parse(tokens)?;

    let statement = LetStatement {
        name,
        parameters,
        output,
        expr,
        token_range: Span { start: token_start, end: tokens.position() },
    };
    Ok(statement)
}

impl crate::ast::parser::Parse for LetsStatement {
    open spec fn starts(token: TokenView) -> bool {
        token == TokenView::Kw(Kw::Lets)
    }

    open spec fn grammar(tokens: crate::ast::view::Toks, pos: int) -> crate::ast::view::Parsed<
        Self::V,
    > {
        spec_lets(tokens, pos)
    }

    fn matches(tokens: &Tokens) -> (r: bool) {
        LetsStatement::matches(tokens)
    }

    fn parse(tokens: &mut Tokens) -> (r: CResult<Self>) {
        LetsStatement::parse(tokens)
    }
}

} // verus!
