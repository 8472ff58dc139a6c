//! What all parsing functions share: how the cursor moves, and the parsers of
//! names and parameters.

use crate::ast::expression::deeper;
use crate::ast::type_statement::spec_type;
use crate::ast::type_statement::starts_type;
use crate::ast::type_statement::TypeStatement;
use crate::ast::view::parameters_view;
use crate::ast::view::type_view;
use crate::ast::view::ParametersView;
use crate::ast::view::ParseFault;
use crate::ast::view::Parsed;
use crate::ast::view::Toks;
use crate::ast::view::TypeStatementView;
use crate::lex::tokens::leveled_view;
use crate::error::CResult;
use crate::error::CompilationError;
use crate::error::ErrorContext;
use crate::error::ErrorMessage;
use crate::lex::token::Op;
use crate::lex::token::Token;
use crate::lex::token::TokenView;
use crate::lex::tokens::expected_text;
use crate::lex::tokens::option_text;
use crate::lex::tokens::Tokens;
use vstd::prelude::*;

verus! {

/// The cursor `after` reads the same tokens as `before`, stands on one of
/// them and has not gone back.
pub open spec fn advanced(before: Tokens, after: Tokens) -> bool {
    &&& after.tokens == before.tokens
    &&& before.position <= after.position
    &&& after.wf()
}

/// The error lies at a token that the parser had reached: not before
/// `before`, and inside the stream.
pub open spec fn located(e: CompilationError, before: Tokens) -> bool {
    match e.context {
        Some(ErrorContext::Token(p)) => before.position <= p < before.tokens.len(),
        Some(ErrorContext::TokenRange(range)) => before.position <= range.start < range.end
            <= before.tokens.len(),
        _ => false,
    }
}

/// The error says that the token under the cursor `at` was not expected.
pub open spec fn unexpected_at(e: CompilationError, at: Tokens) -> bool {
    &&& e.context == Some(ErrorContext::Token(at.position))
    &&& e.message matches ErrorMessage::UnexpectedToken(token, expectation) && token@
        == at.current() && option_text(expectation) == expected_text(at.expecting@)
}

/// Where the error says that a token was not expected, it is the token
/// under the cursor `at`, and what was expected in its place is what was
/// noted for the cursor there.
pub open spec fn described(e: CompilationError, at: Tokens) -> bool {
    e.message is UnexpectedToken ==> unexpected_at(e, at)
}

/// Something that can be created by parsing tokens.
pub trait Parse: Sized + View {
    /// Whether a value of this kind can start with the token.
    spec fn starts(token: TokenView) -> bool;

    /// What the tokens from the position on stand for.
    spec fn grammar(tokens: Toks, pos: int) -> Parsed<Self::V>;

    /// Whether the upcoming tokens match this type of parser.
    fn matches(tokens: &Tokens) -> (r: bool)
        requires
            tokens.wf(),
        ensures
            r == Self::starts(tokens.current()),
    ;

    /// Parse the tokens into a statement for the abstract syntax tree.
    fn parse(tokens: &mut Tokens) -> (r: CResult<Self>)
        requires
            old(tokens).wf(),
            Self::starts(old(tokens).current()),
        ensures
            advanced(*old(tokens), *final(tokens)),
            match Self::grammar(leveled_view(old(tokens).tokens@), old(tokens).position as int) {
                Ok((value, end)) => r matches Ok(found) && found@ == value && final(tokens).position
                    == end,
                Err(fault) => r matches Err(e) && fault.reported_by(
                    e,
                    leveled_view(old(tokens).tokens@),
                ),
            },
            r matches Err(e) ==> described(e, *final(tokens)),
    ;

    /// Parse tokens if they match this parser, otherwise do nothing.
    fn maybe_parse(tokens: &mut Tokens) -> (r: CResult<Option<Self>>)
        requires
            old(tokens).wf(),
        ensures
            advanced(*old(tokens), *final(tokens)),
            !Self::starts(old(tokens).current()) ==> (r matches Ok(None)) && final(tokens).position
                == old(tokens).position,
            Self::starts(old(tokens).current()) ==> match Self::grammar(
                leveled_view(old(tokens).tokens@),
                old(tokens).position as int,
            ) {
                Ok((value, end)) => r matches Ok(Some(found)) && found@ == value && final(tokens).position == end,
                Err(fault) => r matches Err(e) && fault.reported_by(
                    e,
                    leveled_view(old(tokens).tokens@),
                ),
            },
            r matches Err(e) ==> described(e, *final(tokens)),
    {
        if Self::matches(tokens) {
            Ok(Some(Self::parse(tokens)?))
        } else {
            Ok(None)
        }
    }
}

/// Parses a global name.
pub fn parse_global(tokens: &mut Tokens) -> (r: CResult<String>)
    requires
        old(tokens).wf(),
    ensures
        advanced(*old(tokens), *final(tokens)),
        match r {
            Ok(name) => old(tokens).current() == TokenView::Global(name@) && final(tokens).position == old(tokens).position + 1,
            Err(e) => !(old(tokens).current() is Global) && unexpected_at(e, *old(tokens))
                && final(tokens).position == old(tokens).position && described(e, *final(tokens)),
        },
{
    match tokens.token() {
        Token::Global(name) => {
            let name = name.clone();
            assert(tokens.tokens@[tokens.position as int].0 != Token::Eof);
            tokens.step();
            Ok(name)
        },
        _ => tokens.unexpected_token_error(),
    }
}

/// Parses a local name.
pub fn parse_local(tokens: &mut Tokens) -> (r: CResult<String>)
    requires
        old(tokens).wf(),
    ensures
        advanced(*old(tokens), *final(tokens)),
        match r {
            Ok(name) => old(tokens).current() == TokenView::Local(name@) && final(tokens).position == old(tokens).position + 1,
            Err(e) => !(old(tokens).current() is Local) && unexpected_at(e, *old(tokens))
                && final(tokens).position == old(tokens).position && described(e, *final(tokens)),
        },
{
    match tokens.token() {
        Token::Local(name) => {
            let name = name.clone();
            assert(tokens.tokens@[tokens.position as int].0 != Token::Eof);
            tokens.step();
            Ok(name)
        },
        _ => tokens.unexpected_token_error(),
    }
}

/// The parameter that stands at the position: a local name and a type.
pub open spec fn spec_parameter(tokens: Toks, pos: int) -> Parsed<(Seq<char>, TypeStatementView)> {
    match tokens[pos].0 {
        TokenView::Local(name) => match spec_type(tokens, pos + 1) {
            Err(fault) => Err(fault),
            Ok((typ, end)) => Ok(((name, typ), end)),
        },
        _ => Err(ParseFault::Unexpected(pos)),
    }
}

/// `done`, then the parameters that stand from the position on, deeper
/// than `base`, and the output type behind them. The output type is the
/// first type that stands where a parameter could; `->` may stand before
/// it.
pub open spec fn spec_in_out(tokens: Toks, pos: int, base: nat, done: ParametersView) -> Parsed<
    (ParametersView, TypeStatementView),
>
    decreases tokens.len() - pos,
{
    if !deeper(tokens, pos, base) {
        Err(ParseFault::Unexpected(pos))
    } else if starts_type(tokens[pos].0) {
        match spec_type(tokens, pos) {
            Err(fault) => Err(fault),
            Ok((output, end)) => Ok(((done, output), end)),
        }
    } else if tokens[pos].0 is Local {
        match spec_parameter(tokens, pos) {
            Err(fault) => Err(fault),
            Ok((parameter, after)) => if !(pos < after <= tokens.len()) {
                Err(ParseFault::Unexpected(pos))
            } else {
                spec_in_out(tokens, after, base, done.push(parameter))
            },
        }
    } else if tokens[pos].0 == TokenView::Op(Op::Sub) {
        if tokens[pos + 1].0 == TokenView::Op(Op::Gt) {
            match spec_type(tokens, pos + 2) {
                Err(fault) => Err(fault),
                Ok((output, end)) => Ok(((done, output), end)),
            }
        } else {
            Err(ParseFault::Unexpected(pos + 1))
        }
    } else {
        Err(ParseFault::Unexpected(pos))
    }
}

/// Whether `r` is what the grammar gives for parameters and an output
/// type.
pub open spec fn is_in_out(
    r: CResult<(Vec<(String, TypeStatement)>, TypeStatement)>,
    expected: Parsed<(ParametersView, TypeStatementView)>,
    end: int,
    tokens: Toks,
) -> bool {
    match expected {
        Ok(((parameters, output), after)) => r matches Ok(found) && parameters_view(found.0@)
            == parameters && type_view(found.1) == output && end == after,
        Err(fault) => r matches Err(e) && fault.reported_by(e, tokens),
    }
}

/// Parameters lie one after the other between `start` and `end`, each type
/// after the token of its name.
pub open spec fn parameters_ranged(
    parameters: Seq<(String, TypeStatement)>,
    start: int,
    end: int,
) -> bool {
    &&& forall|i: int|
        0 <= i < parameters.len() ==> (#[trigger] parameters[i]).1.well_ranged() && start
            < parameters[i].1.token_range.start && parameters[i].1.token_range.end <= end
    &&& forall|i: int, j: int|
        0 <= i < j < parameters.len() ==> (#[trigger] parameters[i]).1.token_range.end < (
        #[trigger] parameters[j]).1.token_range.start
}

/// Parses parameters and an output type. Occurs in traits and lets.
pub fn parse_in_out_types(tokens: &mut Tokens, base_level: usize) -> (r: CResult<
    (Vec<(String, TypeStatement)>, TypeStatement),
>)
    requires
        old(tokens).wf(),
    ensures
        advanced(*old(tokens), *final(tokens)),
        match r {
            Ok((parameters, output)) => parameters_ranged(
                parameters@,
                old(tokens).position as int,
                output.token_range.start as int,
            ) && output.well_ranged() && old(tokens).position <= output.token_range.start
                && output.token_range.end == final(tokens).position,
            Err(e) => located(e, *old(tokens)) && described(e, *final(tokens)),
        },
        is_in_out(
            r,
            spec_in_out(
                leveled_view(old(tokens).tokens@),
                old(tokens).position as int,
                base_level as nat,
                Seq::empty(),
            ),
            final(tokens).position as int,
            leveled_view(old(tokens).tokens@),
        ),
{
    let ghost toks = leveled_view(old(tokens).tokens@);
    let mut parameters: Vec<(String, TypeStatement)> = Vec::new();
    assert(parameters_view(parameters@) =~= ParametersView::empty());

    while tokens.deeper_than(base_level)
        invariant
            advanced(*old(tokens), *tokens),
            parameters_ranged(parameters@, old(tokens).position as int, tokens.position as int),
            toks == leveled_view(old(tokens).tokens@),
            spec_in_out(toks, old(tokens).position as int, base_level as nat, Seq::empty())
                == spec_in_out(
                toks,
                tokens.position as int,
                base_level as nat,
                parameters_view(parameters@),
            ),
        decreases tokens.left(),
    {
        tokens.expect("an input parameter name or an output type");
        if TypeStatement::matches(tokens) {
            let output = TypeStatement::parse(tokens)?;
            return Ok((parameters, output));
        }
        match tokens.token() {
            Token::Local(_) => {
                let ghost done = parameters_view(parameters@);
                let parameter = parse_parameter(tokens)?;
                let ghost view = (parameter.0@, type_view(parameter.1));
                parameters.push(parameter);
                assert(parameters_view(parameters@) =~= done.push(view));
            },
            Token::Op(Op::Sub) => {
                tokens.step();
                match tokens.token() {
                    Token::Op(Op::Gt) => {},
                    _ => {
                        return tokens.unexpected_token_error();
                    },
                }
                tokens.step();

                let output = TypeStatement::parse(tokens)?;
                return Ok((parameters, output));
            },
            _ => {
                return tokens.unexpected_token_error();
            },
        }
    }

    tokens.unexpected_token_error()
}

/// Parses a parameter name and type.
pub fn parse_parameter(tokens: &mut Tokens) -> (r: CResult<(String, TypeStatement)>)
    requires
        old(tokens).wf(),
    ensures
        advanced(*old(tokens), *final(tokens)),
        match r {
            Ok((name, typ)) => old(tokens).current() == TokenView::Local(name@)
                && typ.well_ranged() && typ.token_range == (crate::error::Span {
                start: (old(tokens).position + 1) as usize,
                end: final(tokens).position,
            }),
            Err(e) => located(e, *old(tokens)) && described(e, *final(tokens)),
        },
        match spec_parameter(leveled_view(old(tokens).tokens@), old(tokens).position as int) {
            Ok(((name, typ), end)) => r matches Ok(found) && found.0@ == name && type_view(
                found.1,
            ) == typ && final(tokens).position == end,
            Err(fault) => r matches Err(e) && fault.reported_by(
                e,
                leveled_view(old(tokens).tokens@),
            ),
        },
{
    tokens.expect("Parameter name (lower case)");
    let name = parse_local(tokens)?;
    let typ = TypeStatement::parse(tokens)?;
    Ok((name, typ))
}

} // verus!
