//! Types as written in source.

use crate::ast::parser::advanced;
use crate::ast::parser::described;
use crate::ast::parser::located;
use crate::ast::parser::parse_global;
use crate::ast::raw_value::RawValue;
use crate::ast::view::span;
use crate::ast::view::typ_view;
use crate::ast::view::type_view;
use crate::ast::view::ParseFault;
use crate::ast::view::Parsed;
use crate::ast::view::Toks;
use crate::ast::view::TypeStatementView;
use crate::ast::view::TypeView;
use crate::lex::tokens::leveled_view;
use crate::error::CResult;
use crate::error::Span;
use crate::lex::token::Kw;
use crate::lex::token::Op;
use crate::lex::token::Token;
use crate::lex::token::TokenView;
use crate::lex::tokens::Tokens;
use vstd::prelude::*;

verus! {

#[derive(Debug)]
pub struct TypeStatement {
    pub typ: TypeStatementType,
    pub token_range: Span,
}

#[derive(Debug)]
pub enum TypeStatementType {
    Name(String),
    AtName(String),
    And(Box<TypeStatement>, Box<TypeStatement>),
    Or(Box<TypeStatement>, Box<TypeStatement>),
    // Self, the class or struct the trait is defined on
    Zelf,
    // No traits, no interaction possible
    Void,
}

#[derive(Eq, PartialEq, Hash, Copy, Clone, Debug)]
pub enum RawType {
    Int,
    String,
    Bool,
}

impl RawType {
    /// The raw type of a raw value.
    pub open spec fn of(value: RawValue) -> RawType {
        match value {
            RawValue::String(_) => RawType::String,
            RawValue::Int(_) => RawType::Int,
            RawValue::Bool(_) => RawType::Bool,
        }
    }

    /// The raw type of a raw value.
    pub fn from(value: &RawValue) -> (r: RawType)
        ensures
            r == RawType::of(*value),
    {
        match value {
            RawValue::String(_) => RawType::String,
            RawValue::Int(_) => RawType::Int,
            RawValue::Bool(_) => RawType::Bool,
        }
    }
}

/// Whether a type can start with the given token.
pub open spec fn starts_type(token: TokenView) -> bool {
    token is Global || token == TokenView::Kw(Kw::Zelf) || token == TokenView::Op(Op::At)
        || token == TokenView::Op(Op::Question)
}

/// The type that stands at the position without what may be combined with
/// it: `Self`, `?`, a name, or `@` and a name.
pub open spec fn spec_type_primary(tokens: Toks, pos: int) -> Parsed<TypeView> {
    match tokens[pos].0 {
        TokenView::Kw(Kw::Zelf) => Ok((TypeView::Zelf, pos + 1)),
        TokenView::Global(name) => Ok((TypeView::Name(name), pos + 1)),
        TokenView::Op(Op::Question) => Ok((TypeView::Void, pos + 1)),
        TokenView::Op(Op::At) => match tokens[pos + 1].0 {
            TokenView::Global(name) => Ok((TypeView::AtName(name), pos + 2)),
            _ => Err(ParseFault::Unexpected(pos + 1)),
        },
        _ => Err(ParseFault::Unexpected(pos)),
    }
}

/// The type that stands at the position: a primary, and where `&` or `|`
/// follows it, the type behind that as the right side. Each side covers its
/// own tokens; the operator stands between them.
pub open spec fn spec_type(tokens: Toks, pos: int) -> Parsed<TypeStatementView>
    decreases tokens.len() - pos,
{
    if !(0 <= pos < tokens.len()) {
        Err(ParseFault::Unexpected(pos))
    } else {
        match spec_type_primary(tokens, pos) {
            Err(fault) => Err(fault),
            Ok((primary, after)) => {
                if after < tokens.len() && (tokens[after].0 == TokenView::Op(Op::And)
                    || tokens[after].0 == TokenView::Op(Op::Or)) {
                    match spec_type(tokens, after + 1) {
                        Err(fault) => Err(fault),
                        Ok((rhs, end)) => {
                            let lhs = TypeStatementView {
                                typ: primary,
                                token_range: span(pos, after),
                            };
                            let typ = if tokens[after].0 == TokenView::Op(Op::And) {
                                TypeView::And(Box::new(lhs), Box::new(rhs))
                            } else {
                                TypeView::Or(Box::new(lhs), Box::new(rhs))
                            };
                            Ok((TypeStatementView { typ, token_range: span(pos, end) }, end))
                        },
                    }
                } else {
                    Ok((TypeStatementView { typ: primary, token_range: span(pos, after) }, after))
                }
            },
        }
    }
}

impl TypeStatement {
    /// The range is not empty, and the two sides of a combined type lie in
    /// it, one after the other.
    pub open spec fn well_ranged(&self) -> bool
        decreases self,
    {
        &&& self.token_range.start < self.token_range.end
        &&& match self.typ {
            TypeStatementType::And(lhs, rhs) | TypeStatementType::Or(lhs, rhs) => {
                &&& lhs.token_range.start == self.token_range.start
                &&& lhs.token_range.end < rhs.token_range.start
                &&& rhs.token_range.end == self.token_range.end
                &&& lhs.well_ranged()
                &&& rhs.well_ranged()
            },
            _ => true,
        }
    }

    /// Whether the upcoming tokens start a type.
    pub fn matches(tokens: &Tokens) -> (r: bool)
        requires
            tokens.wf(),
        ensures
            r == starts_type(tokens.current()),
    {
        match tokens.token() {
            Token::Global(_) => true,
            Token::Kw(Kw::Zelf) => true,
            Token::Op(Op::At) => true,
            Token::Op(Op::Question) => true,
            _ => false,
        }
    }

    /// Parses a type: a primary, optionally combined with the type that
    /// follows `&` or `|`.
    pub fn parse(tokens: &mut Tokens) -> (r: CResult<TypeStatement>)
        requires
            old(tokens).wf(),
        ensures
            advanced(*old(tokens), *final(tokens)),
            match r {
                Ok(statement) => statement.well_ranged() && statement.token_range == (Span {
                    start: old(tokens).position,
                    end: final(tokens).position,
                }),
                Err(e) => located(e, *old(tokens)) && described(e, *final(tokens)),
            },
            !starts_type(old(tokens).current()) ==> r is Err,
            match spec_type(leveled_view(old(tokens).tokens@), old(tokens).position as int) {
                Ok((statement, end)) => r matches Ok(found) && found@ == statement && final(tokens).position == end,
                Err(fault) => r matches Err(e) && fault.reported_by(
                    e,
                    leveled_view(old(tokens).tokens@),
                ),
            },
        decreases old(tokens).left(),
    {
        let token_start = tokens.position();

        tokens.expect("a trait name, @ followed by a trait name, a module name, 'Self' or '?'");
        let typ = match tokens.token() {
            Token::Kw(Kw::Zelf) => {
                tokens.step();
                TypeStatementType::Zelf
            },
            Token::Global(name) => {
                let name = name.clone();
                tokens.step();
                TypeStatementType::Name(name)
            },
            Token::Op(Op::Question) => {
                tokens.step();
                TypeStatementType::Void
            },
            Token::Op(Op::At) => {
                tokens.step();
                TypeStatementType::AtName(parse_global(tokens)?)
            },
            _ => return tokens.unexpected_token_error(),
        };
        let ghost toks = leveled_view(old(tokens).tokens@);
        assert(spec_type_primary(toks, token_start as int) == Ok::<(TypeView, int), ParseFault>(
            (typ_view(typ), tokens.position as int),
        ));

        let typ = match tokens.token() {
            Token::Op(Op::And) => {
                let lhs = TypeStatement {
                    typ,
                    token_range: Span { start: token_start, end: tokens.position() },
                };
                tokens.step();
                assert(lhs.well_ranged());
                assert(type_view(lhs) == TypeStatementView {
                    typ: typ_view(lhs.typ),
                    token_range: lhs.token_range,
                });
                let rhs = TypeStatement::parse(tokens)?;
                TypeStatementType::And(Box::new(lhs), Box::new(rhs))
            },
            Token::Op(Op::Or) => {
                let lhs = TypeStatement {
                    typ,
                    token_range: Span { start: token_start, end: tokens.position() },
                };
                tokens.step();
                assert(lhs.well_ranged());
                assert(type_view(lhs) == TypeStatementView {
                    typ: typ_view(lhs.typ),
                    token_range: lhs.token_range,
                });
                let rhs = TypeStatement::parse(tokens)?;
                TypeStatementType::Or(Box::new(lhs), Box::new(rhs))
            },
            _ => typ,
        };

        let statement = TypeStatement {
            typ,
            token_range: Span { start: token_start, end: tokens.position() },
        };
        Ok(statement)
    }
}

impl crate::ast::parser::Parse for TypeStatement {
    open spec fn starts(token: TokenView) -> bool {
        starts_type(token)
    }

    open spec fn grammar(tokens: crate::ast::view::Toks, pos: int) -> crate::ast::view::Parsed<
        Self::V,
    > {
        spec_type(tokens, pos)
    }

    fn matches(tokens: &Tokens) -> (r: bool) {
        TypeStatement::matches(tokens)
    }

    fn parse(tokens: &mut Tokens) -> (r: CResult<Self>) {
        TypeStatement::parse(tokens)
    }
}

} // verus!
