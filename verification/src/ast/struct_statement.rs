//! The raw fields of a struct.

use crate::ast::expression::deeper;
use crate::ast::parser::advanced;
use crate::ast::view::fields_view;
use crate::ast::view::span;
use crate::ast::view::FieldsView;
use crate::ast::view::ParseFault;
use crate::ast::view::Parsed;
use crate::ast::view::StructView;
use crate::ast::view::Toks;
use crate::lex::tokens::leveled_view;
use crate::ast::parser::described;
use crate::ast::parser::located;
use crate::ast::parser::parse_local;
use crate::ast::type_statement::RawType;
use crate::error::CResult;
use crate::error::ErrorContext;
use crate::error::ErrorMessage;
use crate::error::Span;
use crate::lex::token::Kw;
use crate::lex::token::Token;
use crate::lex::token::TokenView;
use crate::lex::tokens::Tokens;
use crate::text::same_text;
use vstd::prelude::*;

verus! {

/// The struct keyword and its fields.
#[derive(Debug)]
pub struct StructStatement {
    pub fields: Vec<(String, RawType)>,
    pub token_range: Span,
}

/// The raw type that a name stands for, if any.
pub open spec fn named_raw_type(name: Seq<char>) -> Option<RawType> {
    if name == "int"@ {
        Some(RawType::Int)
    } else if name == "string"@ {
        Some(RawType::String)
    } else if name == "bool"@ {
        Some(RawType::Bool)
    } else {
        None
    }
}

/// The field that stands at the position: a local name, and the name of
/// a raw type.
pub open spec fn spec_field(tokens: Toks, pos: int) -> Parsed<(Seq<char>, RawType)> {
    match tokens[pos].0 {
        TokenView::Local(name) => match tokens[pos + 1].0 {
            TokenView::Local(raw) => match named_raw_type(raw) {
                Some(typ) => Ok(((name, typ), pos + 2)),
                None => Err(ParseFault::UnknownRawType(pos + 1, raw)),
            },
            _ => Err(ParseFault::Unexpected(pos + 1)),
        },
        _ => Err(ParseFault::Unexpected(pos)),
    }
}

/// The struct that starts at `start` with the fields `done` read up to the
/// position, and the fields that follow deeper than `base`.
pub open spec fn spec_struct_from(tokens: Toks, start: int, pos: int, base: nat, done: FieldsView)
    -> Parsed<StructView>
    decreases tokens.len() - pos,
{
    if deeper(tokens, pos, base) {
        match spec_field(tokens, pos) {
            Err(fault) => Err(fault),
            Ok((field, after)) => if !(pos < after <= tokens.len()) {
                Err(ParseFault::Unexpected(pos))
            } else {
                spec_struct_from(tokens, start, after, base, done.push(field))
            },
        }
    } else {
        Ok((StructView { fields: done, token_range: span(start, pos) }, pos))
    }
}

/// The struct that stands at the position: `struct`, and the fields that
/// follow at a deeper level.
pub open spec fn spec_struct(tokens: Toks, pos: int) -> Parsed<StructView> {
    spec_struct_from(tokens, pos, pos + 1, tokens[pos].1, Seq::empty())
}

impl StructStatement {
    /// The keyword, then two tokens for each field.
    pub open spec fn well_ranged(&self) -> bool {
        self.token_range.end == self.token_range.start + 1 + 2 * self.fields@.len()
    }

    /// Whether the upcoming tokens start a struct.
    pub fn matches(tokens: &Tokens) -> (r: bool)
        requires
            tokens.wf(),
        ensures
            r == (tokens.current() == TokenView::Kw(Kw::Struct)),
    {
        match tokens.token() {
            Token::Kw(Kw::Struct) => true,
            _ => false,
        }
    }

    /// Parses `struct` and the fields that follow at a deeper level.
    pub fn parse(tokens: &mut Tokens) -> (r: CResult<StructStatement>)
        requires
            old(tokens).wf(),
            old(tokens).current() == TokenView::Kw(Kw::Struct),
        ensures
            advanced(*old(tokens), *final(tokens)),
            match r {
                Ok(statement) => statement.well_ranged() && statement.token_range == (Span {
                    start: old(tokens).position,
                    end: final(tokens).position,
                }),
                Err(e) => located(e, *old(tokens)) && described(e, *final(tokens)),
            },
            match spec_struct(leveled_view(old(tokens).tokens@), old(tokens).position as int) {
                Ok((strukt, end)) => r matches Ok(found) && found@ == strukt && final(tokens).position == end,
                Err(fault) => r matches Err(e) && fault.reported_by(
                    e,
                    leveled_view(old(tokens).tokens@),
                ),
            },
    {
        let ghost toks = leveled_view(old(tokens).tokens@);
        let base_level = tokens.level();
        let token_start = tokens.position();
        tokens.step();

        let mut fields: Vec<(String, RawType)> = Vec::new();
        assert(fields_view(fields@) =~= FieldsView::empty());

        while tokens.deeper_than(base_level)
            invariant
                advanced(*old(tokens), *tokens),
                token_start == old(tokens).position,
                tokens.position == token_start + 1 + 2 * fields@.len(),
                toks == leveled_view(old(tokens).tokens@),
                spec_struct(toks, token_start as int) == spec_struct_from(
                    toks,
                    token_start as int,
                    tokens.position as int,
                    base_level as nat,
                    fields_view(fields@),
                ),
            decreases tokens.left(),
        {
            let ghost done = fields_view(fields@);
            let field = parse_field(tokens)?;
            let ghost view = (field.0@, field.1);
            fields.push(field);
            assert(fields_view(fields@) =~= done.push(view));
        }

        let statement = StructStatement {
            fields,
            token_range: Span { start: token_start, end: tokens.position() },
        };
        Ok(statement)
    }
}

/// Parses the name of a field and the name of its raw type.
pub fn parse_field(tokens: &mut Tokens) -> (r: CResult<(String, RawType)>)
    requires
        old(tokens).wf(),
    ensures
        advanced(*old(tokens), *final(tokens)),
        match r {
            Ok((name, typ)) => old(tokens).current() == TokenView::Local(name@) && final(tokens).position == old(tokens).position + 2 && (old(tokens).tokens@[old(tokens).position
                + 1].0@ matches TokenView::Local(raw_name) && named_raw_type(raw_name) == Some(
                typ,
            )),
            Err(e) => located(e, *old(tokens)) && described(e, *final(tokens)),
        },
        match spec_field(leveled_view(old(tokens).tokens@), old(tokens).position as int) {
            Ok(((name, typ), end)) => r matches Ok(found) && found.0@ == name && found.1 == typ
                && final(tokens).position == end,
            Err(fault) => r matches Err(e) && fault.reported_by(
                e,
                leveled_view(old(tokens).tokens@),
            ),
        },
{
    tokens.expect("a field name (Starting with a lower-case letter)");
    let name = parse_local(tokens)?;

    tokens.expect("int, string or bool");
    let raw_position = tokens.position();
    let raw_name = parse_local(tokens)?;

    let typ = if same_text(raw_name.as_str(), "int") {
        RawType::Int
    } else if same_text(raw_name.as_str(), "string") {
        RawType::String
    } else if same_text(raw_name.as_str(), "bool") {
        RawType::Bool
    } else {
        return Err(
            crate::error::CompilationError {
                message: ErrorMessage::UnknownRawType(raw_name),
                context: Some(ErrorContext::Token(raw_position)),
            },
        );
    };

    Ok((name, typ))
}

impl crate::ast::parser::Parse for StructStatement {
    open spec fn starts(token: TokenView) -> bool {
        token == TokenView::Kw(Kw::Struct)
    }

    open spec fn grammar(tokens: crate::ast::view::Toks, pos: int) -> crate::ast::view::Parsed<
        Self::V,
    > {
        spec_struct(tokens, pos)
    }

    fn matches(tokens: &Tokens) -> (r: bool) {
        StructStatement::matches(tokens)
    }

    fn parse(tokens: &mut Tokens) -> (r: CResult<Self>) {
        StructStatement::parse(tokens)
    }
}

} // verus!
