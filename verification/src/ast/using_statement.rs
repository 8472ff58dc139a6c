//! Imports of other modules.

use crate::ast::parser::advanced;
use crate::ast::view::usings_view;
use crate::ast::view::UsingView;
use crate::ast::expression::deeper;
use crate::ast::view::ParseFault;
use crate::ast::view::Parsed;
use crate::ast::view::Toks;
use crate::lex::tokens::leveled_view;
use crate::ast::parser::described;
use crate::ast::parser::located;
use crate::ast::parser::parse_global;
use crate::ast::parser::unexpected_at;
use crate::error::CResult;
use crate::lex::token::Kw;
use crate::lex::token::Op;
use crate::lex::token::Token;
use crate::lex::token::TokenView;
use crate::lex::tokens::Tokens;
use vstd::prelude::*;

verus! {

/// A single line of a 'using' statement
#[derive(Debug)]
pub struct SingleUsingStatement {
    pub name: String,
    pub wildcard: bool,
}

/// All lines of a 'using' statement
#[derive(Debug)]
pub struct UsingStatement {
    pub lines: Vec<SingleUsingStatement>,
}

/// The import that stands at the position: the name of a module, and
/// the `*` that may follow it.
pub open spec fn spec_using(tokens: Toks, pos: int) -> Parsed<UsingView> {
    match tokens[pos].0 {
        TokenView::Global(name) => if tokens[pos + 1].0 == TokenView::Op(Op::Mul) {
            Ok((UsingView { name, wildcard: true }, pos + 2))
        } else {
            Ok((UsingView { name, wildcard: false }, pos + 1))
        },
        _ => Err(ParseFault::Unexpected(pos)),
    }
}

/// `done`, then the imports that stand from the position on, deeper than
/// `base`.
pub open spec fn spec_usings_from(tokens: Toks, pos: int, base: nat, done: Seq<UsingView>)
    -> Parsed<Seq<UsingView>>
    decreases tokens.len() - pos,
{
    if deeper(tokens, pos, base) {
        match spec_using(tokens, pos) {
            Err(fault) => Err(fault),
            Ok((line, after)) => if !(pos < after <= tokens.len()) {
                Err(ParseFault::Unexpected(pos))
            } else {
                spec_usings_from(tokens, after, base, done.push(line))
            },
        }
    } else {
        Ok((done, pos))
    }
}

/// The imports that stand at the position: `using`, and the imports that
/// follow at a deeper level.
pub open spec fn spec_usings(tokens: Toks, pos: int) -> Parsed<Seq<UsingView>> {
    spec_usings_from(tokens, pos + 1, tokens[pos].1, Seq::empty())
}

impl UsingStatement {
    /// Whether the upcoming tokens start a group of imports.
    pub fn matches(tokens: &Tokens) -> (r: bool)
        requires
            tokens.wf(),
        ensures
            r == (tokens.current() == TokenView::Kw(Kw::Using)),
    {
        match tokens.token() {
            Token::Kw(Kw::Using) => true,
            _ => false,
        }
    }

    /// Parses `using` and the imports that follow at a deeper level.
    pub fn parse(tokens: &mut Tokens) -> (r: CResult<UsingStatement>)
        requires
            old(tokens).wf(),
            old(tokens).current() == TokenView::Kw(Kw::Using),
        ensures
            advanced(*old(tokens), *final(tokens)),
            match r {
                Ok(statement) => old(tokens).position < final(tokens).position
                    && statement.lines@.len() <= final(tokens).position - old(tokens).position
                    - 1,
                Err(e) => located(e, *old(tokens)) && described(e, *final(tokens)),
            },
            match spec_usings(leveled_view(old(tokens).tokens@), old(tokens).position as int) {
                Ok((lines, end)) => r matches Ok(found) && usings_view(found.lines@) == lines
                    && final(tokens).position == end,
                Err(fault) => r matches Err(e) && fault.reported_by(
                    e,
                    leveled_view(old(tokens).tokens@),
                ),
            },
    {
        let ghost toks = leveled_view(old(tokens).tokens@);
        let base_level = tokens.level();
        tokens.step();

        let mut statement = UsingStatement { lines: Vec::new() };
        assert(usings_view(statement.lines@) =~= Seq::<UsingView>::empty());

        while tokens.deeper_than(base_level)
            invariant
                advanced(*old(tokens), *tokens),
                old(tokens).position < tokens.position,
                statement.lines@.len() <= tokens.position - old(tokens).position - 1,
                toks == leveled_view(old(tokens).tokens@),
                spec_usings(toks, old(tokens).position as int) == spec_usings_from(
                    toks,
                    tokens.position as int,
                    base_level as nat,
                    usings_view(statement.lines@),
                ),
            decreases tokens.left(),
        {
            let ghost done = usings_view(statement.lines@);
            let line = parse_single_using(tokens)?;
            let ghost view = line@;
            statement.lines.push(line);
            assert(usings_view(statement.lines@) =~= done.push(view));
        }

        Ok(statement)
    }
}

/// Parses the name of a module, and the `*` that may follow it.
pub fn parse_single_using(tokens: &mut Tokens) -> (r: CResult<SingleUsingStatement>)
    requires
        old(tokens).wf(),
    ensures
        advanced(*old(tokens), *final(tokens)),
        match r {
            Ok(statement) => old(tokens).current() == TokenView::Global(statement.name@)
                && statement.wildcard == (old(tokens).tokens@[old(tokens).position + 1].0@
                == TokenView::Op(Op::Mul)) && final(tokens).position == old(tokens).position + 1
                + if statement.wildcard {
                1int
            } else {
                0int
            },
            Err(e) => !(old(tokens).current() is Global) && unexpected_at(e, *old(tokens))
                && described(e, *final(tokens)),
        },
        match spec_using(leveled_view(old(tokens).tokens@), old(tokens).position as int) {
            Ok((line, end)) => r matches Ok(found) && found@ == line && final(tokens).position
                == end,
            Err(fault) => r matches Err(e) && fault.reported_by(
                e,
                leveled_view(old(tokens).tokens@),
            ),
        },
{
    let name = parse_global(tokens)?;
    let wildcard = parse_wildcard(tokens);
    let statement = SingleUsingStatement { name, wildcard };
    Ok(statement)
}

/// Steps over a `*`, and says whether there was one.
pub fn parse_wildcard(tokens: &mut Tokens) -> (r: bool)
    requires
        old(tokens).wf(),
    ensures
        advanced(*old(tokens), *final(tokens)),
        r == (old(tokens).current() == TokenView::Op(Op::Mul)),
        final(tokens).position == old(tokens).position + if r {
            1int
        } else {
            0int
        },
{
    match tokens.token() {
        Token::Op(Op::Mul) => {
            tokens.step();
            true
        },
        _ => false,
    }
}

impl crate::ast::parser::Parse for UsingStatement {
    open spec fn starts(token: TokenView) -> bool {
        token == TokenView::Kw(Kw::Using)
    }

    open spec fn grammar(tokens: crate::ast::view::Toks, pos: int) -> crate::ast::view::Parsed<
        Self::V,
    > {
        spec_usings(tokens, pos)
    }

    fn matches(tokens: &Tokens) -> (r: bool) {
        UsingStatement::matches(tokens)
    }

    fn parse(tokens: &mut Tokens) -> (r: CResult<Self>) {
        UsingStatement::parse(tokens)
    }
}

} // verus!
