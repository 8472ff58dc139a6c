//! Definitions of traits.

use crate::ast::expression::spec_expression;
use crate::ast::expression::ExpressionStatement;
use crate::ast::view::defs_view;
use crate::ast::view::DefView;
use crate::ast::expression::deeper;
use crate::ast::view::span;
use crate::ast::view::ParseFault;
use crate::ast::view::Parsed;
use crate::ast::view::Toks;
use crate::lex::tokens::leveled_view;
use crate::ast::parser::parse_global;
use crate::ast::parser::advanced;
use crate::ast::parser::described;
use crate::ast::parser::located;
use crate::error::CResult;
use crate::error::Span;
use crate::lex::token::Kw;
use crate::lex::token::Token;
use crate::lex::token::TokenView;
use crate::lex::tokens::Tokens;
use vstd::prelude::*;

verus! {

/// A single def.
#[derive(Debug)]
pub struct DefStatement {
    pub name: String,
    pub expr: ExpressionStatement,
    pub token_range: Span,
}

/// The defs keyword and its defs.
#[derive(Debug)]
pub struct DefsStatement {
    pub defs: Vec<DefStatement>,
}

/// The def that stands at the position: the name of a trait and an
/// expression.
pub open spec fn spec_def(tokens: Toks, pos: int) -> Parsed<DefView> {
    match tokens[pos].0 {
        TokenView::Global(name) => match spec_expression(tokens, pos + 1) {
            Err(fault) => Err(fault),
            Ok((expr, end)) => Ok((DefView { name, expr, token_range: span(pos, end) }, end)),
        },
        _ => Err(ParseFault::Unexpected(pos)),
    }
}

/// `done`, then the defs that stand from the position on, deeper than
/// `base`.
pub open spec fn spec_defs_from(tokens: Toks, pos: int, base: nat, done: Seq<DefView>) -> Parsed<
    Seq<DefView>,
>
    decreases tokens.len() - pos,
{
    if deeper(tokens, pos, base) {
        match spec_def(tokens, pos) {
            Err(fault) => Err(fault),
            Ok((def, after)) => if !(pos < after <= tokens.len()) {
                Err(ParseFault::Unexpected(pos))
            } else {
                spec_defs_from(tokens, after, base, done.push(def))
            },
        }
    } else {
        Ok((done, pos))
    }
}

/// The defs that stand at the position: `defs`, and the defs that follow
/// at a deeper level.
pub open spec fn spec_defs(tokens: Toks, pos: int) -> Parsed<Seq<DefView>> {
    spec_defs_from(tokens, pos + 1, tokens[pos].1, Seq::empty())
}

impl DefStatement {
    /// The name, then the expression, fill the range.
    pub open spec fn well_ranged(&self) -> bool {
        &&& self.expr.token_range.start == self.token_range.start + 1
        &&& self.expr.token_range.end == self.token_range.end
        &&& self.expr.well_ranged()
    }
}

/// Defs lie one after the other between `start` and `end`.
pub open spec fn defs_ranged(defs: Seq<DefStatement>, start: int, end: int) -> bool {
    &&& forall|i: int|
        0 <= i < defs.len() ==> (#[trigger] defs[i]).well_ranged() && start
            <= defs[i].token_range.start && defs[i].token_range.end <= end
    &&& forall|i: int, j: int|
        0 <= i < j < defs.len() ==> (#[trigger] defs[i]).token_range.end <= (
        #[trigger] defs[j]).token_range.start
}

impl DefsStatement {
    /// Whether the upcoming tokens start a group of defs.
    pub fn matches(tokens: &Tokens) -> (r: bool)
        requires
            tokens.wf(),
        ensures
            r == (tokens.current() == TokenView::Kw(Kw::Defs)),
    {
        match tokens.token() {
            Token::Kw(Kw::Defs) => true,
            _ => false,
        }
    }

    /// Parses `defs` and the defs that follow at a deeper level.
    pub fn parse(tokens: &mut Tokens) -> (r: CResult<DefsStatement>)
        requires
            old(tokens).wf(),
            old(tokens).current() == TokenView::Kw(Kw::Defs),
        ensures
            advanced(*old(tokens), *final(tokens)),
            match r {
                Ok(statement) => old(tokens).position < final(tokens).position && defs_ranged(
                    statement.defs@,
                    old(tokens).position + 1,
                    final(tokens).position as int,
                ),
                Err(e) => located(e, *old(tokens)) && described(e, *final(tokens)),
            },
            match spec_defs(leveled_view(old(tokens).tokens@), old(tokens).position as int) {
                Ok((defs, end)) => r matches Ok(found) && defs_view(found.defs@) == defs
                    && final(tokens).position == end,
                Err(fault) => r matches Err(e) && fault.reported_by(
                    e,
                    leveled_view(old(tokens).tokens@),
                ),
            },
    {
        let ghost toks = leveled_view(old(tokens).tokens@);
        let base_level = tokens.level();
        tokens.step();

        let mut defs: Vec<DefStatement> = Vec::new();
        assert(defs_view(defs@) =~= Seq::<DefView>::empty());

        while tokens.deeper_than(base_level)
            invariant
                advanced(*old(tokens), *tokens),
                old(tokens).position < tokens.position,
                defs_ranged(defs@, old(tokens).position + 1, tokens.position as int),
                toks == leveled_view(old(tokens).tokens@),
                spec_defs(toks, old(tokens).position as int) == spec_defs_from(
                    toks,
                    tokens.position as int,
                    base_level as nat,
                    defs_view(defs@),
                ),
            decreases tokens.left(),
        {
            let ghost done = defs_view(defs@);
            let def = parse_def(tokens)?;
            let ghost view = def@;
            defs.push(def);
            assert(defs_view(defs@) =~= done.push(view));
        }

        let statement = DefsStatement { defs };
        Ok(statement)
    }
}

/// Parses the name of a trait and the expression that defines it.
pub fn parse_def(tokens: &mut Tokens) -> (r: CResult<DefStatement>)
    requires
        old(tokens).wf(),
    ensures
        advanced(*old(tokens), *final(tokens)),
        match r {
            Ok(statement) => old(tokens).current() == TokenView::Global(statement.name@)
                && statement.well_ranged() && statement.token_range == (Span {
                start: old(tokens).position,
                end: final(tokens).position,
            }),
            Err(e) => located(e, *old(tokens)) && described(e, *final(tokens)),
        },
        match spec_def(leveled_view(old(tokens).tokens@), old(tokens).position as int) {
            Ok((def, end)) => r matches Ok(found) && found@ == def && final(tokens).position
                == end,
            Err(fault) => r matches Err(e) && fault.reported_by(
                e,
                leveled_view(old(tokens).tokens@),
            ),
        },
{
    let token_start = tokens.position();
    tokens.expect("trait name for definition (Starting with upper-case letter)");
    let name = parse_global(tokens)?;
    let expr = ExpressionStatement::parse(tokens)?;
    let statement = DefStatement {
        name,
        expr,
        token_range: Span { start: token_start, end: tokens.position() },
    };
    Ok(statement)
}

impl crate::ast::parser::Parse for DefsStatement {
    open spec fn starts(token: TokenView) -> bool {
        token == TokenView::Kw(Kw::Defs)
    }

    open spec fn grammar(tokens: crate::ast::view::Toks, pos: int) -> crate::ast::view::Parsed<
        Self::V,
    > {
        spec_defs(tokens, pos)
    }

    fn matches(tokens: &Tokens) -> (r: bool) {
        DefsStatement::matches(tokens)
    }

    fn parse(tokens: &mut Tokens) -> (r: CResult<Self>) {
        DefsStatement::parse(tokens)
    }
}

} // verus!
