//! Calls of a let by name.

use crate::ast::expression::inputs_ranged;
use crate::ast::expression::named_call;
use crate::ast::expression::spec_inputs;
use crate::ast::expression::spec_let_call;
use crate::ast::view::inputs_view;
use crate::ast::view::InputsView;
use crate::ast::view::ParseFault;
use crate::lex::tokens::leveled_view;
use crate::ast::expression::ExpressionStatement;
use crate::ast::parser::advanced;
use crate::ast::parser::described;
use crate::ast::parser::located;
use crate::ast::parser::parse_global;
use crate::error::CResult;
use crate::lex::token::Token;
use crate::lex::token::TokenView;
use crate::lex::tokens::Tokens;
use vstd::prelude::*;

verus! {

/// e.g.: Module\Function(param1: ..., param2: ...)
/// e.g.: Module\Constant
#[derive(Debug)]
pub struct LetCall {
    pub name: String,
    /// The named inputs, in the order in which they are written.
    pub inputs: Vec<(String, ExpressionStatement)>,
}

impl LetCall {
    /// Whether the upcoming tokens start a call.
    pub fn matches(tokens: &Tokens) -> (r: bool)
        requires
            tokens.wf(),
        ensures
            r == (tokens.current() is Global),
    {
        match tokens.token() {
            Token::Global(_) => true,
            _ => false,
        }
    }

    /// Parses a name and the named inputs that follow it at a deeper level.
    pub fn parse(tokens: &mut Tokens) -> (r: CResult<LetCall>)
        requires
            old(tokens).wf(),
        ensures
            advanced(*old(tokens), *final(tokens)),
            match r {
                Ok(call) => old(tokens).current() == TokenView::Global(call.name@) && old(
                    tokens,
                ).position < final(tokens).position && inputs_ranged(
                    call.inputs@,
                    old(tokens).position + 1,
                    final(tokens).position as int,
                ),
                Err(e) => located(e, *old(tokens)) && described(e, *final(tokens)),
            },
            match spec_let_call(leveled_view(old(tokens).tokens@), old(tokens).position as int) {
                Ok(((name, inputs), end)) => r matches Ok(call) && call.name@ == name
                    && inputs_view(call.inputs@) == inputs && final(tokens).position == end,
                Err(fault) => r matches Err(e) && fault.reported_by(
                    e,
                    leveled_view(old(tokens).tokens@),
                ),
            },
        decreases old(tokens).left(), 1nat,
    {
        let ghost toks = leveled_view(old(tokens).tokens@);
        let base_level = tokens.level();
        let name = parse_global(tokens)?;

        let mut inputs: Vec<(String, ExpressionStatement)> = Vec::new();

        while tokens.deeper_than(base_level)
            invariant
                advanced(*old(tokens), *tokens),
                old(tokens).position < tokens.position,
                inputs_ranged(inputs@, old(tokens).position + 1, tokens.position as int),
                toks == leveled_view(old(tokens).tokens@),
                spec_let_call(toks, old(tokens).position as int) == named_call(
                    name@,
                    spec_inputs(
                        toks,
                        tokens.position as int,
                        base_level as nat,
                        inputs_view(inputs@),
                    ),
                ),
            ensures
                spec_let_call(toks, old(tokens).position as int) == Ok::<
                    ((Seq<char>, InputsView), int),
                    ParseFault,
                >(((name@, inputs_view(inputs@)), tokens.position as int)),
            decreases tokens.left(),
        {
            let ghost before = inputs@;
            match tokens.token() {
                Token::Local(param_name) => {
                    let param_name = param_name.clone();
                    tokens.step();
                    let expr = ExpressionStatement::parse(tokens)?;
                    inputs.push((param_name, expr));
                    assert(inputs@.drop_last() == before);
                },
                _ => {
                    break ;
                },
            }
        }

        let call = LetCall { name, inputs };

        Ok(call)
    }
}

impl crate::ast::parser::Parse for LetCall {
    open spec fn starts(token: TokenView) -> bool {
        token is Global
    }

    open spec fn grammar(tokens: crate::ast::view::Toks, pos: int) -> crate::ast::view::Parsed<
        Self::V,
    > {
        spec_let_call(tokens, pos)
    }

    fn matches(tokens: &Tokens) -> (r: bool) {
        LetCall::matches(tokens)
    }

    fn parse(tokens: &mut Tokens) -> (r: CResult<Self>) {
        LetCall::parse(tokens)
    }
}

} // verus!
