//! Trait declarations.

use crate::ast::parser::parameters_ranged;
use crate::ast::parser::spec_in_out;
use crate::ast::view::traits_view;
use crate::ast::view::TraitView;
use crate::ast::expression::deeper;
use crate::ast::view::span;
use crate::ast::view::ParseFault;
use crate::ast::view::Parsed;
use crate::ast::view::Toks;
use crate::lex::tokens::leveled_view;
use crate::ast::parser::parse_global;
use crate::ast::parser::parse_in_out_types;
use crate::ast::type_statement::TypeStatement;
use crate::ast::parser::advanced;
use crate::ast::parser::described;
use crate::ast::parser::located;
use crate::error::CResult;
use crate::error::Span;
use crate::lex::token::Kw;
use crate::lex::token::Token;
use crate::lex::token::TokenView;
use crate::lex::tokens::Tokens;
use vstd::prelude::*;

verus! {

/// A single trait.
#[derive(Debug)]
pub struct TraitStatement {
    pub name: String,
    pub parameters: Vec<(String, TypeStatement)>,
    pub output: TypeStatement,
    pub token_range: Span,
}

/// The traits keyword and its traits.
#[derive(Debug)]
pub struct TraitsStatement {
    pub traits: Vec<TraitStatement>,
}

/// The trait that stands at the position: a name, parameters and an
/// output type.
pub open spec fn spec_trait(tokens: Toks, pos: int) -> Parsed<TraitView> {
    match tokens[pos].0 {
        TokenView::Global(name) => match spec_in_out(
            tokens,
            pos + 1,
            tokens[pos].1,
            Seq::empty(),
        ) {
            Err(fault) => Err(fault),
            Ok(((parameters, output), end)) => Ok(
                (TraitView { name, parameters, output, token_range: span(pos, end) }, end),
            ),
        },
        _ => Err(ParseFault::Unexpected(pos)),
    }
}

/// `done`, then the traits that stand from the position on, deeper than
/// `base`.
pub open spec fn spec_traits_from(tokens: Toks, pos: int, base: nat, done: Seq<TraitView>)
    -> Parsed<Seq<TraitView>>
    decreases tokens.len() - pos,
{
    if deeper(tokens, pos, base) {
        match spec_trait(tokens, pos) {
            Err(fault) => Err(fault),
            Ok((trayt, after)) => if !(pos < after <= tokens.len()) {
                Err(ParseFault::Unexpected(pos))
            } else {
                spec_traits_from(tokens, after, base, done.push(trayt))
            },
        }
    } else {
        Ok((done, pos))
    }
}

/// The traits that stand at the position: `traits`, and the traits that
/// follow at a deeper level.
pub open spec fn spec_traits(tokens: Toks, pos: int) -> Parsed<Seq<TraitView>> {
    spec_traits_from(tokens, pos + 1, tokens[pos].1, Seq::empty())
}

impl TraitStatement {
    /// The name, the parameters and the output type lie one after the other
    /// and fill the range.
    pub open spec fn well_ranged(&self) -> bool {
        &&& parameters_ranged(
            self.parameters@,
            self.token_range.start as int,
            self.output.token_range.start as int,
        )
        &&& self.token_range.start < self.output.token_range.start
        &&& self.output.well_ranged()
        &&& self.output.token_range.end == self.token_range.end
    }
}

/// Traits lie one after the other between `start` and `end`.
pub open spec fn traits_ranged(traits: Seq<TraitStatement>, start: int, end: int) -> bool {
    &&& forall|i: int|
        0 <= i < traits.len() ==> (#[trigger] traits[i]).well_ranged() && start
            <= traits[i].token_range.start && traits[i].token_range.end <= end
    &&& forall|i: int, j: int|
        0 <= i < j < traits.len() ==> (#[trigger] traits[i]).token_range.end <= (
        #[trigger] traits[j]).token_range.start
}

impl TraitsStatement {
    pub fn new() -> (r: Self)
        ensures
            r.traits@.len() == 0,
    {
        Self { traits: Vec::new() }
    }

    /// Whether the upcoming tokens start a group of traits.
    pub fn matches(tokens: &Tokens) -> (r: bool)
        requires
            tokens.wf(),
        ensures
            r == (tokens.current() == TokenView::Kw(Kw::Traits)),
    {
        match tokens.token() {
            Token::Kw(Kw::Traits) => true,
            _ => false,
        }
    }

    /// Parses `traits` and the traits that follow at a deeper level.
    pub fn parse(tokens: &mut Tokens) -> (r: CResult<TraitsStatement>)
        requires
            old(tokens).wf(),
            old(tokens).current() == TokenView::Kw(Kw::Traits),
        ensures
            advanced(*old(tokens), *final(tokens)),
            match r {
                Ok(statement) => old(tokens).position < final(tokens).position && traits_ranged(
                    statement.traits@,
                    old(tokens).position + 1,
                    final(tokens).position as int,
                ),
                Err(e) => located(e, *old(tokens)) && described(e, *final(tokens)),
            },
            match spec_traits(leveled_view(old(tokens).tokens@), old(tokens).position as int) {
                Ok((traits, end)) => r matches Ok(found) && traits_view(found.traits@) == traits
                    && final(tokens).position == end,
                Err(fault) => r matches Err(e) && fault.reported_by(
                    e,
                    leveled_view(old(tokens).tokens@),
                ),
            },
    {
        let ghost toks = leveled_view(old(tokens).tokens@);
        let base_level = tokens.level();
        tokens.step();

        let mut statement = TraitsStatement::new();
        assert(traits_view(statement.traits@) =~= Seq::<TraitView>::empty());

        while tokens.deeper_than(base_level)
            invariant
                advanced(*old(tokens), *tokens),
                old(tokens).position < tokens.position,
                traits_ranged(statement.traits@, old(tokens).position + 1, tokens.position as int),
                toks == leveled_view(old(tokens).tokens@),
                spec_traits(toks, old(tokens).position as int) == spec_traits_from(
                    toks,
                    tokens.position as int,
                    base_level as nat,
                    traits_view(statement.traits@),
                ),
            decreases tokens.left(),
        {
            let ghost done = traits_view(statement.traits@);
            let trayt = parse_trait(tokens)?;
            let ghost view = trayt@;
            statement.traits.push(trayt);
            assert(traits_view(statement.traits@) =~= done.push(view));
        }

        Ok(statement)
    }
}

/// Parses the name of a trait, its parameters and its output type.
pub fn parse_trait(tokens: &mut Tokens) -> (r: CResult<TraitStatement>)
    requires
        old(tokens).wf(),
    ensures
        advanced(*old(tokens), *final(tokens)),
        match r {
            Ok(statement) => old(tokens).current() == TokenView::Global(statement.name@)
                && statement.well_ranged() && statement.token_range == (Span {
                start: old(tokens).position,
                end: final(tokens).position,
            }),
            Err(e) => located(e, *old(tokens)) && described(e, *final(tokens)),
        },
        match spec_trait(leveled_view(old(tokens).tokens@), old(tokens).position as int) {
            Ok((trayt, end)) => r matches Ok(found) && found@ == trayt && final(tokens).position
                == end,
            Err(fault) => r matches Err(e) && fault.reported_by(
                e,
                leveled_view(old(tokens).tokens@),
            ),
        },
{
    let base_level = tokens.level();
    let token_start = tokens.position();
    let name = parse_global(tokens)?;
    let (parameters, output) = parse_in_out_types(tokens, base_level)?;
    let statement = TraitStatement {
        name,
        parameters,
        output,
        token_range: Span { start: token_start, end: tokens.position() },
    };
    Ok(statement)
}

impl crate::ast::parser::Parse for TraitsStatement {
    open spec fn starts(token: TokenView) -> bool {
        token == TokenView::Kw(Kw::Traits)
    }

    open spec fn grammar(tokens: crate::ast::view::Toks, pos: int) -> crate::ast::view::Parsed<
        Self::V,
    > {
        spec_traits(tokens, pos)
    }

    fn matches(tokens: &Tokens) -> (r: bool) {
        TraitsStatement::matches(tokens)
    }

    fn parse(tokens: &mut Tokens) -> (r: CResult<Self>) {
        TraitsStatement::parse(tokens)
    }
}

} // verus!
