//! The whole program as a tree.

use crate::ast::let_statement::lets_ranged;
use crate::ast::let_statement::spec_lets;
use crate::ast::module_statement::spec_module;
use crate::ast::view::lets_view;
use crate::ast::view::modules_view;
use crate::ast::view::ParseFault;
use crate::ast::view::Parsed;
use crate::ast::view::ProgramView;
use crate::ast::view::Toks;
use crate::lex::token::Kw;
use crate::lex::tokens::leveled_view;
use crate::ast::let_statement::LetStatement;
use crate::ast::let_statement::LetsStatement;
use crate::ast::module_statement::modules_ranged;
use crate::ast::module_statement::ModuleStatement;
use crate::ast::parser::advanced;
use crate::ast::parser::described;
use crate::ast::parser::located;
use crate::error::CResult;
use crate::lex::token::Token;
use crate::lex::token::TokenView;
use crate::lex::tokens::Tokens;
use vstd::prelude::*;

verus! {

/// The abstract syntax tree of a whole program, containing all statements and expressions.
#[derive(Debug)]
pub struct AbstractSyntaxTree {
    pub mods: Vec<ModuleStatement>,
    pub lets: Vec<LetStatement>,
}

/// The program `done`, and the modules and groups of lets that stand from
/// the position on, in any order, up to the end of input. The lets of all
/// groups are put together.
pub open spec fn spec_program_from(tokens: Toks, pos: int, done: ProgramView) -> Parsed<ProgramView>
    decreases tokens.len() - pos,
{
    if !(0 <= pos < tokens.len()) {
        Err(ParseFault::Unexpected(pos))
    } else {
        match tokens[pos].0 {
            TokenView::Kw(Kw::Mod) => match spec_module(tokens, pos) {
                Err(fault) => Err(fault),
                Ok((module, after)) => if !(pos < after <= tokens.len()) {
                    Err(ParseFault::Unexpected(pos))
                } else {
                    spec_program_from(
                        tokens,
                        after,
                        ProgramView { mods: done.mods.push(module), ..done },
                    )
                },
            },
            TokenView::Kw(Kw::Lets) => match spec_lets(tokens, pos) {
                Err(fault) => Err(fault),
                Ok((lets, after)) => if !(pos < after <= tokens.len()) {
                    Err(ParseFault::Unexpected(pos))
                } else {
                    spec_program_from(
                        tokens,
                        after,
                        ProgramView { lets: done.lets + lets, ..done },
                    )
                },
            },
            TokenView::Eof => Ok((done, pos)),
            _ => Err(ParseFault::Unexpected(pos)),
        }
    }
}

/// The program that the tokens from the position on stand for.
pub open spec fn spec_program(tokens: Toks, pos: int) -> Parsed<ProgramView> {
    spec_program_from(tokens, pos, ProgramView { mods: Seq::empty(), lets: Seq::empty() })
}

impl AbstractSyntaxTree {
    /// The modules lie one after the other between `start` and `end`, and so
    /// do the global lets; each is well ranged in itself.
    pub open spec fn ranged(&self, start: int, end: int) -> bool {
        &&& modules_ranged(self.mods@, start, end)
        &&& lets_ranged(self.lets@, start, end)
    }

    pub fn new() -> (r: Self)
        ensures
            r.mods@.len() == 0,
            r.lets@.len() == 0,
    {
        Self { mods: Vec::new(), lets: Vec::new() }
    }

    /// Whether the upcoming tokens may start a program: any may.
    pub fn matches(_tokens: &Tokens) -> (r: bool)
        ensures
            r,
    {
        true
    }

    /// Parses modules and groups of lets, in any order, up to the end of
    /// input.
    pub fn parse(tokens: &mut Tokens) -> (r: CResult<AbstractSyntaxTree>)
        requires
            old(tokens).wf(),
        ensures
            advanced(*old(tokens), *final(tokens)),
            match r {
                Ok(ast) => final(tokens).current() is Eof && ast.ranged(
                    old(tokens).position as int,
                    final(tokens).position as int,
                ),
                Err(e) => located(e, *old(tokens)) && described(e, *final(tokens)),
            },
            match spec_program(leveled_view(old(tokens).tokens@), old(tokens).position as int) {
                Ok((program, end)) => r matches Ok(found) && found@ == program && final(tokens).position == end,
                Err(fault) => r matches Err(e) && fault.reported_by(
                    e,
                    leveled_view(old(tokens).tokens@),
                ),
            },
    {
        let ghost toks = leveled_view(old(tokens).tokens@);
        let mut ast = AbstractSyntaxTree::new();
        proof {
            assert(modules_view(ast.mods@) =~= Seq::empty());
            assert(lets_view(ast.lets@) =~= Seq::empty());
        }

        loop
            invariant
                advanced(*old(tokens), *tokens),
                ast.ranged(old(tokens).position as int, tokens.position as int),
                toks == leveled_view(old(tokens).tokens@),
                spec_program(toks, old(tokens).position as int) == spec_program_from(
                    toks,
                    tokens.position as int,
                    ast@,
                ),
            ensures
                tokens.current() is Eof,
                spec_program(toks, old(tokens).position as int) == Ok::<
                    (ProgramView, int),
                    ParseFault,
                >((ast@, tokens.position as int)),
            decreases tokens.left(),
        {
            tokens.expect("'mod' or 'lets'");
            let ghost before = ast@;
            if ModuleStatement::matches(tokens) {
                let module = ModuleStatement::parse(tokens)?;
                let ghost view = module@;
                ast.mods.push(module);
                assert(modules_view(ast.mods@) =~= before.mods.push(view));
            } else if LetsStatement::matches(tokens) {
                let mut lets = LetsStatement::parse(tokens)?;
                let ghost more = lets_view(lets.lets@);
                ast.lets.append(&mut lets.lets);
                assert(lets_view(ast.lets@) =~= before.lets + more);
            } else {
                match tokens.token() {
                    Token::Eof => {
                        break ;
                    },
                    _ => {
                        return tokens.unexpected_token_error();
                    },
                }
            }
        }

        Ok(ast)
    }
}

impl crate::ast::parser::Parse for AbstractSyntaxTree {
    open spec fn starts(token: TokenView) -> bool {
        true
    }

    open spec fn grammar(tokens: crate::ast::view::Toks, pos: int) -> crate::ast::view::Parsed<
        Self::V,
    > {
        spec_program(tokens, pos)
    }

    fn matches(tokens: &Tokens) -> (r: bool) {
        AbstractSyntaxTree::matches(tokens)
    }

    fn parse(tokens: &mut Tokens) -> (r: CResult<Self>) {
        AbstractSyntaxTree::parse(tokens)
    }
}

} // verus!
