//! Modules: a name, at most one class or struct, and groups of traits, defs,
//! lets and imports.

use crate::ast::class_statement::spec_class;
use crate::ast::class_statement::ClassStatement;
use crate::ast::def_statement::spec_defs;
use crate::ast::expression::deeper;
use crate::ast::let_statement::spec_lets;
use crate::ast::struct_statement::spec_struct;
use crate::ast::trait_statement::spec_traits;
use crate::ast::using_statement::spec_usings;
use crate::ast::view::defs_view;
use crate::ast::view::lets_view;
use crate::ast::view::span;
use crate::ast::view::traits_view;
use crate::ast::view::usings_view;
use crate::ast::view::ModuleView;
use crate::ast::view::ParseFault;
use crate::ast::view::Parsed;
use crate::ast::view::Toks;
use crate::lex::tokens::leveled_view;
use crate::ast::def_statement::defs_ranged;
use crate::ast::def_statement::DefStatement;
use crate::ast::def_statement::DefsStatement;
use crate::ast::let_statement::lets_ranged;
use crate::ast::let_statement::LetStatement;
use crate::ast::let_statement::LetsStatement;
use crate::ast::parser::advanced;
use crate::ast::parser::described;
use crate::ast::parser::located;
use crate::ast::parser::parse_global;
use crate::ast::struct_statement::StructStatement;
use crate::ast::trait_statement::traits_ranged;
use crate::ast::trait_statement::TraitStatement;
use crate::ast::trait_statement::TraitsStatement;
use crate::ast::using_statement::SingleUsingStatement;
use crate::ast::using_statement::UsingStatement;
use crate::error::error_at;
use crate::error::CResult;
use crate::error::ErrorMessage;
use crate::error::Span;
use crate::lex::token::Kw;
use crate::lex::token::Token;
use crate::lex::token::TokenView;
use crate::lex::tokens::Tokens;
use vstd::prelude::*;

verus! {

/// A whole module.
#[derive(Debug)]
pub struct ModuleStatement {
    pub name: String,
    pub class: Option<ClassStatement>,
    pub strukt: Option<StructStatement>,
    pub traits: Vec<TraitStatement>,
    pub defs: Vec<DefStatement>,
    pub lets: Vec<LetStatement>,
    pub using: Vec<SingleUsingStatement>,
    pub token_range: Span,
}

/// The module that starts at `start` with the parts `module` read up to
/// the position, and the parts that follow deeper than `base`, in any
/// order: a class or a struct, at most one of the two, and groups of traits,
/// defs, lets and imports, which are put together by kind.
pub open spec fn spec_module_from(tokens: Toks, start: int, pos: int, base: nat, module: ModuleView)
    -> Parsed<ModuleView>
    decreases tokens.len() - pos,
{
    if deeper(tokens, pos, base) {
        match tokens[pos].0 {
            TokenView::Kw(Kw::Class) => match spec_class(tokens, pos) {
                Err(fault) => Err(fault),
                Ok((class, after)) => if module.class is Some {
                    Err(ParseFault::DuplicateClass(class.token_range, module.name))
                } else if module.strukt is Some {
                    Err(ParseFault::ClassAndStruct(class.token_range, module.name))
                } else if !(pos < after <= tokens.len()) {
                    Err(ParseFault::Unexpected(pos))
                } else {
                    spec_module_from(
                        tokens,
                        start,
                        after,
                        base,
                        ModuleView { class: Some(class), ..module },
                    )
                },
            },
            TokenView::Kw(Kw::Struct) => match spec_struct(tokens, pos) {
                Err(fault) => Err(fault),
                Ok((strukt, after)) => if module.strukt is Some {
                    Err(ParseFault::DuplicateStruct(strukt.token_range, module.name))
                } else if module.class is Some {
                    Err(ParseFault::ClassAndStruct(strukt.token_range, module.name))
                } else if !(pos < after <= tokens.len()) {
                    Err(ParseFault::Unexpected(pos))
                } else {
                    spec_module_from(
                        tokens,
                        start,
                        after,
                        base,
                        ModuleView { strukt: Some(strukt), ..module },
                    )
                },
            },
            TokenView::Kw(Kw::Traits) => match spec_traits(tokens, pos) {
                Err(fault) => Err(fault),
                Ok((traits, after)) => if !(pos < after <= tokens.len()) {
                    Err(ParseFault::Unexpected(pos))
                } else {
                    spec_module_from(
                        tokens,
                        start,
                        after,
                        base,
                        ModuleView { traits: module.traits + traits, ..module },
                    )
                },
            },
            TokenView::Kw(Kw::Defs) => match spec_defs(tokens, pos) {
                Err(fault) => Err(fault),
                Ok((defs, after)) => if !(pos < after <= tokens.len()) {
                    Err(ParseFault::Unexpected(pos))
                } else {
                    spec_module_from(
                        tokens,
                        start,
                        after,
                        base,
                        ModuleView { defs: module.defs + defs, ..module },
                    )
                },
            },
            TokenView::Kw(Kw::Lets) => match spec_lets(tokens, pos) {
                Err(fault) => Err(fault),
                Ok((lets, after)) => if !(pos < after <= tokens.len()) {
                    Err(ParseFault::Unexpected(pos))
                } else {
                    spec_module_from(
                        tokens,
                        start,
                        after,
                        base,
                        ModuleView { lets: module.lets + lets, ..module },
                    )
                },
            },
            TokenView::Kw(Kw::Using) => match spec_usings(tokens, pos) {
                Err(fault) => Err(fault),
                Ok((lines, after)) => if !(pos < after <= tokens.len()) {
                    Err(ParseFault::Unexpected(pos))
                } else {
                    spec_module_from(
                        tokens,
                        start,
                        after,
                        base,
                        ModuleView { using: module.using + lines, ..module },
                    )
                },
            },
            _ => Err(ParseFault::Unexpected(pos)),
        }
    } else {
        Ok((ModuleView { token_range: span(start, pos), ..module }, pos))
    }
}

/// The module that stands at the position: `mod`, the name, and the parts
/// that follow at a deeper level.
pub open spec fn spec_module(tokens: Toks, pos: int) -> Parsed<ModuleView> {
    match tokens[pos + 1].0 {
        TokenView::Global(name) => spec_module_from(
            tokens,
            pos,
            pos + 2,
            tokens[pos].1,
            ModuleView {
                name,
                class: None,
                strukt: None,
                traits: Seq::empty(),
                defs: Seq::empty(),
                lets: Seq::empty(),
                using: Seq::empty(),
                token_range: span(pos, pos),
            },
        ),
        _ => Err(ParseFault::Unexpected(pos + 1)),
    }
}

impl ModuleStatement {
    /// The parts of the module that have been read up to `end`: never both a
    /// class and a struct, and each part behind the name and before `end`,
    /// the parts of each kind one after the other.
    pub open spec fn ranged_to(&self, end: int) -> bool {
        let start = self.token_range.start + 2;
        &&& start <= end
        &&& !(self.class is Some && self.strukt is Some)
        &&& self.class matches Some(class) ==> class.well_ranged() && start
            <= class.token_range.start && class.token_range.end <= end
        &&& self.strukt matches Some(strukt) ==> strukt.well_ranged() && start
            <= strukt.token_range.start && strukt.token_range.end <= end
        &&& traits_ranged(self.traits@, start, end)
        &&& defs_ranged(self.defs@, start, end)
        &&& lets_ranged(self.lets@, start, end)
    }

    /// A module has a class or a struct, never both, and its parts lie in
    /// its range, behind the name, the parts of each kind one after the
    /// other.
    pub open spec fn well_ranged(&self) -> bool {
        self.ranged_to(self.token_range.end as int)
    }

    pub fn new(name: String) -> (r: Self)
        ensures
            r.name == name,
            r.class is None,
            r.strukt is None,
            r.traits@.len() == 0,
            r.defs@.len() == 0,
            r.lets@.len() == 0,
            r.using@.len() == 0,
            r.token_range == (Span { start: 0, end: 0 }),
    {
        Self {
            name,
            class: None,
            strukt: None,
            traits: Vec::new(),
            defs: Vec::new(),
            lets: Vec::new(),
            using: Vec::new(),
            token_range: Span { start: 0, end: 0 },
        }
    }

    /// Whether the upcoming tokens start a module.
    pub fn matches(tokens: &Tokens) -> (r: bool)
        requires
            tokens.wf(),
        ensures
            r == (tokens.current() == TokenView::Kw(Kw::Mod)),
    {
        match tokens.token() {
            Token::Kw(Kw::Mod) => true,
            _ => false,
        }
    }

    /// Parses `mod`, the name of the module and the parts that follow at a
    /// deeper level, in any order; the module ends before a token that is no
    /// deeper than its `mod`. A second class, a second struct, or a class
    /// beside a struct is an error that covers the later of the two.
    pub fn parse(tokens: &mut Tokens) -> (r: CResult<ModuleStatement>)
        requires
            old(tokens).wf(),
            old(tokens).current() == TokenView::Kw(Kw::Mod),
        ensures
            advanced(*old(tokens), *final(tokens)),
            match r {
                Ok(statement) => statement.well_ranged() && statement.token_range == (Span {
                    start: old(tokens).position,
                    end: final(tokens).position,
                }) && old(tokens).tokens@[old(tokens).position + 1].0@ == TokenView::Global(
                    statement.name@,
                ) && final(tokens).tokens@[final(tokens).position as int].1 <= old(tokens).tokens@[old(tokens).position as int].1,
                Err(e) => located(e, *old(tokens)) && described(e, *final(tokens)),
            },
            match spec_module(leveled_view(old(tokens).tokens@), old(tokens).position as int) {
                Ok((module, end)) => r matches Ok(found) && found@ == module && final(tokens).position == end,
                Err(fault) => r matches Err(e) && fault.reported_by(
                    e,
                    leveled_view(old(tokens).tokens@),
                ),
            },
    {
        let ghost toks = leveled_view(old(tokens).tokens@);
        let base_level = tokens.level();
        let token_start = tokens.position();
        tokens.step();

        let name = parse_global(tokens)?;

        let mut statement = ModuleStatement::new(name);
        statement.token_range = Span { start: token_start, end: token_start };
        proof {
            assert(traits_view(statement.traits@) =~= Seq::empty());
            assert(defs_view(statement.defs@) =~= Seq::empty());
            assert(lets_view(statement.lets@) =~= Seq::empty());
            assert(usings_view(statement.using@) =~= Seq::empty());
        }

        while tokens.deeper_than(base_level)
            invariant
                advanced(*old(tokens), *tokens),
                token_start == old(tokens).position,
                statement.token_range == (Span { start: token_start, end: token_start }),
                statement.ranged_to(tokens.position as int),
                old(tokens).tokens@[old(tokens).position + 1].0@ == TokenView::Global(
                    statement.name@,
                ),
                toks == leveled_view(old(tokens).tokens@),
                spec_module(toks, token_start as int) == spec_module_from(
                    toks,
                    token_start as int,
                    tokens.position as int,
                    base_level as nat,
                    statement@,
                ),
            decreases tokens.left(),
        {
            tokens.expect("class, struct, traits, defs, lets or using");
            let ghost before = statement@;

            if ClassStatement::matches(tokens) {
                let class = ClassStatement::parse(tokens)?;
                if statement.class.is_some() {
                    return error_at(
                        class.token_range,
                        ErrorMessage::DuplicateClass(statement.name),
                    );
                }
                if statement.strukt.is_some() {
                    return error_at(
                        class.token_range,
                        ErrorMessage::ClassAndStruct(statement.name),
                    );
                }
                statement.class = Some(class);
            } else if StructStatement::matches(tokens) {
                let strukt = StructStatement::parse(tokens)?;
                if statement.strukt.is_some() {
                    return error_at(
                        strukt.token_range,
                        ErrorMessage::DuplicateStruct(statement.name),
                    );
                }
                if statement.class.is_some() {
                    return error_at(
                        strukt.token_range,
                        ErrorMessage::ClassAndStruct(statement.name),
                    );
                }
                statement.strukt = Some(strukt);
            } else if TraitsStatement::matches(tokens) {
                let mut traits = TraitsStatement::parse(tokens)?;
                let ghost more = traits_view(traits.traits@);
                statement.traits.append(&mut traits.traits);
                assert(traits_view(statement.traits@) =~= before.traits + more);
            } else if DefsStatement::matches(tokens) {
                let mut defs = DefsStatement::parse(tokens)?;
                let ghost more = defs_view(defs.defs@);
                statement.defs.append(&mut defs.defs);
                assert(defs_view(statement.defs@) =~= before.defs + more);
            } else if LetsStatement::matches(tokens) {
                let mut lets = LetsStatement::parse(tokens)?;
                let ghost more = lets_view(lets.lets@);
                statement.lets.append(&mut lets.lets);
                assert(lets_view(statement.lets@) =~= before.lets + more);
            } else if UsingStatement::matches(tokens) {
                let mut using = UsingStatement::parse(tokens)?;
                let ghost more = usings_view(using.lines@);
                statement.using.append(&mut using.lines);
                assert(usings_view(statement.using@) =~= before.using + more);
            } else {
                return tokens.unexpected_token_error();
            }
        }

        statement.token_range = Span { start: token_start, end: tokens.position() };

        Ok(statement)
    }
}

/// Modules lie one after the other between `start` and `end`.
pub open spec fn modules_ranged(mods: Seq<ModuleStatement>, start: int, end: int) -> bool {
    &&& forall|i: int|
        0 <= i < mods.len() ==> (#[trigger] mods[i]).well_ranged() && start
            <= mods[i].token_range.start && mods[i].token_range.end <= end
    &&& forall|i: int, j: int|
        0 <= i < j < mods.len() ==> (#[trigger] mods[i]).token_range.end <= (
        #[trigger] mods[j]).token_range.start
}

impl crate::ast::parser::Parse for ModuleStatement {
    open spec fn starts(token: TokenView) -> bool {
        token == TokenView::Kw(Kw::Mod)
    }

    open spec fn grammar(tokens: crate::ast::view::Toks, pos: int) -> crate::ast::view::Parsed<
        Self::V,
    > {
        spec_module(tokens, pos)
    }

    fn matches(tokens: &Tokens) -> (r: bool) {
        ModuleStatement::matches(tokens)
    }

    fn parse(tokens: &mut Tokens) -> (r: CResult<Self>) {
        ModuleStatement::parse(tokens)
    }
}

} // verus!
