//! The semantic context and the passes that fill it.

use crate::ast::abstract_syntax_tree::AbstractSyntaxTree;
use crate::ast::module_statement::ModuleStatement;
use crate::error::CResult;
use crate::ast::let_statement::LetStatement;
use crate::error::ErrorView;
use crate::sem::class::analysed_class;
use crate::sem::class::definitions_within;
use crate::sem::class::module_type;
use crate::sem::class::ClassView;
use crate::sem::evaluation::EvaluationView;
use crate::sem::lett::analysed_body;
use crate::sem::lett::analysed_let;
use crate::sem::lett::declared_let;
use crate::sem::settle::applied;
use crate::sem::settle::lemma_applied_concat;
use crate::sem::settle::lemma_applied_settled;
use crate::sem::strukt::analysed_struct;
use crate::sem::strukt::StructView;
use crate::sem::class::Class;
use crate::sem::evaluation::Bounds;
use crate::sem::evaluation::Evaluation;
use crate::sem::trayt::holds;
use crate::sem::trayt::interface_type;
use crate::sem::trayt::interface_views;
use crate::sem::trayt::interfaces_valid;
use crate::sem::trayt::propagate_interfaces;
use crate::sem::trayt::propagated;
use crate::sem::trayt::qualified_name;
use vstd::pervasive::VecAdditionalExecFns;
use crate::sem::lett::Let;
use crate::sem::fold::folded;
use crate::sem::fold::lemma_folded_next;
use crate::sem::passes::declared_names;
use crate::sem::passes::ends_as;
use crate::sem::passes::def_trait_step;
use crate::sem::passes::eponymous_step;
use crate::sem::passes::fill_step;
use crate::sem::passes::with_eponymous;
use crate::sem::passes::filled_interfaces;
use crate::sem::passes::module_interface;
use crate::sem::passes::declared_signatures;
use crate::sem::passes::let_step;
use crate::sem::passes::module_defaults_step;
use crate::sem::passes::analysed_program;
use crate::sem::passes::body_step;
use crate::sem::passes::module_bodies;
use crate::sem::passes::module_bodies_step;
use crate::sem::passes::module_names_step;
use crate::sem::passes::with_bodies;
use crate::sem::lett::LetView;
use crate::sem::passes::module_signatures;
use crate::sem::passes::module_signatures_step;
use crate::sem::passes::trait_step;
use crate::sem::passes::with_constructor;
use crate::sem::passes::with_defaults;
use crate::sem::passes::Placed;
use crate::sem::class::definitions_view;
use crate::sem::passes::named_trait;
use crate::sem::passes::own_trait_step;
use crate::sem::passes::owners_of;
use crate::sem::passes::propagated_interfaces;
use crate::sem::passes::placeholder;
use crate::sem::passes::trait_name_step;
use crate::sem::passes::ContextView;
use crate::sem::strukt::Struct;
use crate::sem::table::Table;
use crate::sem::table::TableView;
use crate::sem::trayt::TraitView;
use crate::sem::trayt::Interface;
use crate::sem::trayt::Trait;
use crate::sem::typ::Type;
use vstd::prelude::*;

verus! {

/// The interface that owns each trait of a table.
pub open spec fn trait_owners(traits: Seq<(Vec<String>, Trait)>) -> Seq<usize> {
    Seq::new(traits.len(), |t: int| traits[t].1.interface)
}

/// The interfaces of a table as sequences of traits.
pub open spec fn interface_seqs(interfaces: Seq<(Vec<String>, Interface)>) -> Seq<Seq<usize>> {
    Seq::new(interfaces.len(), |m: int| interfaces[m].1@)
}

/// No trait of the table has a default definition.
pub open spec fn without_defaults(traits: Seq<(Vec<String>, Trait)>) -> bool {
    forall|t: int| 0 <= t < traits.len() ==> (#[trigger] traits[t]).1.default_definition is None
}

/// Every number of the sequence is below the bound.
pub open spec fn all_below(numbers: Seq<usize>, bound: int) -> bool {
    forall|t: int| 0 <= t < numbers.len() ==> #[trigger] numbers[t] < bound
}

/// All available symbols in a program
pub struct SemanticContext {
    pub traits: Table<Trait>,
    pub lets: Table<Let>,
    pub interfaces: Table<Interface>,
    pub classes: Vec<Class>,
    pub structs: Vec<Struct>,
}

impl View for SemanticContext {
    type V = ContextView;

    open spec fn view(&self) -> ContextView {
        ContextView {
            traits: self.traits@,
            lets: self.lets@,
            interfaces: self.interfaces@,
            classes: class_views(self.classes@),
            structs: struct_views(self.structs@),
        }
    }
}

impl SemanticContext {
    /// What the analysis of an expression reads of the context.
    pub open spec fn signatures(&self) -> Signatures {
        self@.signatures()
    }

    /// How many lets, traits, classes and structs the context holds.
    pub open spec fn bounds(&self) -> Bounds {
        Bounds {
            lets: self.lets.items@.len(),
            traits: self.traits.items@.len(),
            classes: self.classes@.len(),
            structs: self.structs@.len(),
        }
    }

    pub fn new() -> (r: Self)
        ensures
            r.traits.items@.len() == 0,
            r.lets.items@.len() == 0,
            r.interfaces.items@.len() == 0,
            r.classes@.len() == 0,
            r.structs@.len() == 0,
            r@ == ContextView::empty(),
    {
        let r = SemanticContext {
            lets: Table::new("Let"),
            traits: Table::new("Trait"),
            interfaces: Table::new("Interface"),
            classes: Vec::new(),
            structs: Vec::new(),
        };
        proof {
            reveal_strlit("Let");
            reveal_strlit("Trait");
            reveal_strlit("Interface");
            assert(class_views(r.classes@) =~= Seq::empty());
            assert(struct_views(r.structs@) =~= Seq::empty());
        }
        r
    }
}

// All available symbols inside a scope
pub struct SemanticScope<'a> {
    pub context: &'a SemanticContext,
    pub path: &'a str,
    /// The locals with their types; where a name occurs twice, the later
    /// entry counts.
    pub locals: Vec<(String, Type)>,
    pub zelf: Option<Type>,
}

/// Named types, as the analyser sees them; where a name occurs twice, the
/// later entry counts.
pub type LocalsView = Seq<(Seq<char>, Type)>;

/// Named types as mathematical values.
pub open spec fn locals_view(locals: Seq<(String, Type)>) -> LocalsView {
    Seq::new(locals.len(), |i: int| (locals[i].0@, locals[i].1))
}

/// What the analysis of an expression reads of a context: the traits and
/// interfaces, the signatures of the lets, and the types of the values of
/// the classes and structs. The bodies of lets and the definitions of
/// classes and structs are not among it.
pub struct Signatures {
    pub traits: TableView<TraitView>,
    pub interfaces: TableView<Seq<usize>>,
    pub lets: TableView<(LocalsView, Type)>,
    pub classes: Seq<Type>,
    pub structs: Seq<Type>,
}

/// A scope as a mathematical value.
pub struct ScopeView {
    pub context: Signatures,
    pub path: Seq<char>,
    pub locals: LocalsView,
    pub zelf: Option<Type>,
}

impl<'a> View for SemanticScope<'a> {
    type V = ScopeView;

    open spec fn view(&self) -> ScopeView {
        ScopeView {
            context: self.context.signatures(),
            path: self.path@,
            locals: locals_view(self.locals@),
            zelf: self.zelf,
        }
    }
}

/// The type of the local with the given name: that of the last entry of
/// that name.
pub open spec fn local_type(locals: LocalsView, name: Seq<char>) -> Option<Type>
    decreases locals.len(),
{
    if locals.len() == 0 {
        None
    } else if locals.last().0 == name {
        Some(locals.last().1)
    } else {
        local_type(locals.drop_last(), name)
    }
}

/// Looks a local up by its name.
pub fn find_local<'a>(locals: &'a Vec<(String, Type)>, name: &str) -> (r: Option<&'a Type>)
    ensures
        match r {
            Some(typ) => local_type(locals_view(locals@), name@) == Some(*typ),
            None => local_type(locals_view(locals@), name@) is None,
        },
{
    let ghost views = locals_view(locals@);
    let mut i: usize = locals.len();
    assert(views.subrange(0, i as int) == views);
    while i > 0
        invariant
            i <= locals.len(),
            views == locals_view(locals@),
            local_type(views, name@) == local_type(views.subrange(0, i as int), name@),
        decreases i,
    {
        i -= 1;
        assert(views.subrange(0, i + 1).drop_last() == views.subrange(0, i as int));
        assert(views.subrange(0, i + 1).last() == views[i as int]);
        if crate::text::same_text(locals[i].0.as_str(), name) {
            return Some(&locals[i].1);
        }
    }
    None
}

/// A copy of the locals.
pub fn copy_locals(locals: &Vec<(String, Type)>) -> (r: Vec<(String, Type)>)
    ensures
        r@ == locals@,
{
    let mut out: Vec<(String, Type)> = Vec::new();
    let mut i: usize = 0;
    while i < locals.len()
        invariant
            i <= locals.len(),
            out@ == locals@.subrange(0, i as int),
        decreases locals.len() - i,
    {
        out.push((locals[i].0.clone(), locals[i].1.clone()));
        i += 1;
    }
    assert(locals@.subrange(0, i as int) == locals@);
    out
}

/// Declares a trait that has no default definition.
fn declare_trait(traits: &mut Table<Trait>, name: &str, trayt: Trait) -> (r: CResult<usize>)
    requires
        without_defaults(old(traits).items@),
        trayt.default_definition is None,
    ensures
        without_defaults(final(traits).items@),
        r is Ok ==> trait_owners(final(traits).items@) == trait_owners(old(traits).items@).push(
            trayt.interface,
        ),
        r is Err ==> final(traits).items == old(traits).items,
        match r {
            Ok(_) => old(traits)@.declared(name@, trayt@) == Ok::<TableView<TraitView>, ErrorView>(
                final(traits)@,
            ),
            Err(e) => old(traits)@.declared(name@, trayt@) == Err::<
                TableView<TraitView>,
                ErrorView,
            >(e@),
        },
{
    let ghost before = traits.items@;
    let r = traits.declare(name, trayt);
    proof {
        if r is Ok {
            assert forall|t: int| 0 <= t < traits.items@.len() implies (
            #[trigger] traits.items@[t]).1.default_definition is None by {
                if t < before.len() {
                    assert(traits.items@[t] == traits.items@.drop_last()[t]);
                }
            }
            assert(trait_owners(traits.items@) =~= trait_owners(before).push(trayt.interface)) by {
                assert forall|t: int| 0 <= t < traits.items@.len() implies trait_owners(
                    traits.items@,
                )[t] == trait_owners(before).push(trayt.interface)[t] by {
                    if t < before.len() {
                        assert(traits.items@[t] == traits.items@.drop_last()[t]);
                    }
                }
            }
        }
    }
    r
}

/// Declares a placeholder for a trait of the given name.
fn declare_placeholder(traits: &mut Table<Trait>, name: &str, interface: usize) -> (r: CResult<()>)
    requires
        without_defaults(old(traits).items@),
    ensures
        without_defaults(final(traits).items@),
        r is Ok ==> trait_owners(final(traits).items@) == trait_owners(old(traits).items@).push(
            interface,
        ),
        match r {
            Ok(_) => old(traits)@.declared(name@, placeholder(name@, interface)) == Ok::<
                TableView<TraitView>,
                ErrorView,
            >(final(traits)@),
            Err(e) => old(traits)@.declared(name@, placeholder(name@, interface)) == Err::<
                TableView<TraitView>,
                ErrorView,
            >(e@),
        },
{
    let dummy = Trait::dummy(name, interface);
    assert(dummy@ == placeholder(name@, interface)) by {
        assert(locals_view(dummy.inputs@) =~= Seq::empty());
    }
    declare_trait(traits, name, dummy)?;
    Ok(())
}

/// Declares a placeholder for each trait of a module.
fn declare_trait_names(traits: &mut Table<Trait>, module: &ModuleStatement, interface: usize) -> (r:
    CResult<()>)
    requires
        without_defaults(old(traits).items@),
    ensures
        without_defaults(final(traits).items@),
        r is Ok ==> trait_owners(final(traits).items@) == trait_owners(old(traits).items@) + Seq::new(
            module.traits@.len(),
            |k: int| interface,
        ),
        match r {
            Ok(_) => folded(
                module.traits@,
                module.traits@.len() as int,
                old(traits)@,
                trait_name_step(module.name@, interface),
            ) == Ok::<TableView<TraitView>, ErrorView>(final(traits)@),
            Err(e) => folded(
                module.traits@,
                module.traits@.len() as int,
                old(traits)@,
                trait_name_step(module.name@, interface),
            ) == Err::<TableView<TraitView>, ErrorView>(e@),
        },
{
    let ghost step = trait_name_step(module.name@, interface);
    let ghost start = traits@;
    let mut k: usize = 0;
    assert(trait_owners(traits.items@) =~= trait_owners(old(traits).items@) + Seq::new(
        0,
        |k: int| interface,
    ));
    while k < module.traits.len()
        invariant
            k <= module.traits.len(),
            without_defaults(traits.items@),
            trait_owners(traits.items@) == trait_owners(old(traits).items@) + Seq::new(
                k as nat,
                |k: int| interface,
            ),
            step == trait_name_step(module.name@, interface),
            start == old(traits)@,
            folded(module.traits@, k as int, start, step) == Ok::<TableView<TraitView>, ErrorView>(
                traits@,
            ),
        decreases module.traits.len() - k,
    {
        let name = qualified_name(module.name.as_str(), module.traits[k].name.as_str());
        proof {
            lemma_folded_next(module.traits@, k as int, module.traits@.len() as int, start, step);
            assert(step(traits@, k as int, module.traits@[k as int]) == traits@.declared(
                name@,
                placeholder(name@, interface),
            ));
        }
        declare_placeholder(traits, name.as_str(), interface)?;
        assert(trait_owners(traits.items@) =~= trait_owners(old(traits).items@) + Seq::new(
            (k + 1) as nat,
            |k: int| interface,
        ));
        k += 1;
    }
    Ok(())
}

/// Declares, for each module, its interface, still empty, a placeholder
/// for each of its traits, and one for the trait of the module's own name.
pub fn declare_identifiers(ast: &AbstractSyntaxTree, context: &mut SemanticContext) -> (r: CResult<
    (),
>)
    requires
        old(context).traits.items@.len() == 0,
        old(context).interfaces.items@.len() == 0,
    ensures
        ends_as(r, final(context)@, declared_names(ast.mods@, old(context)@)),
        r is Ok ==> {
            &&& final(context).lets == old(context).lets
            &&& final(context).classes == old(context).classes
            &&& final(context).structs == old(context).structs
            &&& final(context).interfaces.items@.len() == ast.mods@.len()
            &&& without_defaults(final(context).traits.items@)
            &&& all_below(trait_owners(final(context).traits.items@), ast.mods@.len() as int)
            &&& forall|m: int|
                0 <= m < ast.mods@.len() ==> (#[trigger] final(context).interfaces.items@[m]).1@.len()
                    == 0
        },
{
    let ghost start = context@;
    let ghost all = ast.mods@.len() as int;
    let mut i: usize = 0;
    while i < ast.mods.len()
        invariant
            i <= ast.mods.len(),
            all == ast.mods@.len(),
            start == old(context)@,
            context.lets == old(context).lets,
            context.classes == old(context).classes,
            context.structs == old(context).structs,
            context.interfaces.items@.len() == i,
            without_defaults(context.traits.items@),
            all_below(trait_owners(context.traits.items@), i as int),
            forall|m: int| 0 <= m < i ==> (#[trigger] context.interfaces.items@[m]).1@.len() == 0,
            folded(ast.mods@, i as int, start, module_names_step()) == Ok::<ContextView, ErrorView>(
                context@,
            ),
        decreases ast.mods.len() - i,
    {
        let module = &ast.mods[i];
        let ghost before = context@;
        proof {
            lemma_folded_next(ast.mods@, i as int, all, start, module_names_step());
            assert(ast.mods@[i as int] == *module);
        }
        let dummy_interface = context.interfaces.declare(module.name.as_str(), Vec::new())?;
        proof {
            assert forall|m: int| 0 <= m < i + 1 implies (
            #[trigger] context.interfaces.items@[m]).1@.len() == 0 by {
                if m < i {
                    assert(context.interfaces.items@[m] == context.interfaces.items@.drop_last()[m]);
                }
            }
            assert(dummy_interface == before.interfaces.items.len());
        }

        declare_trait_names(&mut context.traits, module, dummy_interface)?;

        // Each module has an eponymous trait, which has the module interface as output type.
        declare_placeholder(&mut context.traits, module.name.as_str(), dummy_interface)?;
        proof {
            assert(module_names_step()(before, i as int, *module) == Ok::<ContextView, ErrorView>(
                context@,
            ));
        }
        i += 1;
    }
    Ok(())
}

/// No interface holds a trait twice, and all hold traits below the bound
/// only.
pub open spec fn interfaces_hold(interfaces: Seq<Seq<usize>>, traits: int) -> bool {
    forall|m: int|
        0 <= m < interfaces.len() ==> (#[trigger] interfaces[m]).no_duplicates() && all_below(
            interfaces[m],
            traits,
        )
}

/// Adds the trait that the name resolves to from the module to the
/// interface, unless it is there.
fn add_trait(traits: &Table<Trait>, module: &str, interface: &mut Vec<usize>, name: &str) -> (r:
    CResult<()>)
    requires
        old(interface)@.no_duplicates(),
        all_below(old(interface)@, traits.items@.len() as int),
    ensures
        final(interface)@.no_duplicates(),
        all_below(final(interface)@, traits.items@.len() as int),
        match r {
            Ok(_) => named_trait(traits@, module@, old(interface)@, name@) == Ok::<
                Seq<usize>,
                ErrorView,
            >(final(interface)@),
            Err(e) => named_trait(traits@, module@, old(interface)@, name@) == Err::<
                Seq<usize>,
                ErrorView,
            >(e@),
        },
{
    let trayt = traits.resolve(name, module)?;
    if !holds(interface, trayt) {
        interface.push(trayt);
    }
    Ok(())
}

/// The interface of a module: the traits that it declares, then those that
/// its defs are written for.
fn fill_interface(traits: &Table<Trait>, module: &ModuleStatement) -> (r: CResult<Vec<usize>>)
    ensures
        match r {
            Ok(interface) => module_interface(traits@, *module) == Ok::<Seq<usize>, ErrorView>(
                interface@,
            ) && interface@.no_duplicates() && all_below(
                interface@,
                traits.items@.len() as int,
            ),
            Err(e) => module_interface(traits@, *module) == Err::<Seq<usize>, ErrorView>(e@),
        },
{
    let mut interface: Vec<usize> = Vec::new();
    let ghost own_step = own_trait_step(traits@, module.name@);
    let ghost def_step = def_trait_step(traits@, module.name@);

    // The module's own traits.
    let mut k: usize = 0;
    while k < module.traits.len()
        invariant
            k <= module.traits.len(),
            interface@.no_duplicates(),
            all_below(interface@, traits.items@.len() as int),
            own_step == own_trait_step(traits@, module.name@),
            folded(module.traits@, k as int, Seq::<usize>::empty(), own_step) == Ok::<
                Seq<usize>,
                ErrorView,
            >(interface@),
        decreases module.traits.len() - k,
    {
        proof {
            lemma_folded_next(
                module.traits@,
                k as int,
                module.traits@.len() as int,
                Seq::<usize>::empty(),
                own_step,
            );
        }
        add_trait(traits, module.name.as_str(), &mut interface, module.traits[k].name.as_str())?;
        k += 1;
    }

    // Traits added on from other modules through defs.
    let ghost own = interface@;
    let mut d: usize = 0;
    while d < module.defs.len()
        invariant
            d <= module.defs.len(),
            interface@.no_duplicates(),
            all_below(interface@, traits.items@.len() as int),
            def_step == def_trait_step(traits@, module.name@),
            folded(
                module.traits@,
                module.traits@.len() as int,
                Seq::<usize>::empty(),
                own_trait_step(traits@, module.name@),
            ) == Ok::<Seq<usize>, ErrorView>(own),
            folded(module.defs@, d as int, own, def_step) == Ok::<Seq<usize>, ErrorView>(
                interface@,
            ),
        decreases module.defs.len() - d,
    {
        proof {
            lemma_folded_next(module.defs@, d as int, module.defs@.len() as int, own, def_step);
        }
        add_trait(traits, module.name.as_str(), &mut interface, module.defs[d].name.as_str())?;
        d += 1;
    }
    Ok(interface)
}

/// Fills the interface of each module with the module's own traits and the
/// traits that its defs are written for.
pub fn fill_interfaces(ast: &AbstractSyntaxTree, context: &mut SemanticContext) -> (r: CResult<()>)
    requires
        old(context).interfaces.items@.len() == ast.mods@.len(),
        forall|m: int|
            0 <= m < ast.mods@.len() ==> (#[trigger] old(context).interfaces.items@[m]).1@.len()
                == 0,
    ensures
        ends_as(r, final(context)@, filled_interfaces(ast.mods@, old(context)@)),
        r is Ok ==> {
            &&& final(context).lets == old(context).lets
            &&& final(context).classes == old(context).classes
            &&& final(context).structs == old(context).structs
            &&& final(context).traits == old(context).traits
            &&& final(context).interfaces.items@.len() == ast.mods@.len()
            &&& interfaces_hold(
                interface_seqs(final(context).interfaces.items@),
                final(context).traits.items@.len() as int,
            )
        },
{
    let ghost start = context@;
    let mut i: usize = 0;
    while i < ast.mods.len()
        invariant
            i <= ast.mods.len(),
            start == old(context)@,
            context.lets == old(context).lets,
            context.classes == old(context).classes,
            context.structs == old(context).structs,
            context.traits == old(context).traits,
            context.interfaces.items@.len() == ast.mods@.len(),
            interfaces_hold(
                interface_seqs(context.interfaces.items@),
                context.traits.items@.len() as int,
            ),
            folded(ast.mods@, i as int, start, fill_step()) == Ok::<ContextView, ErrorView>(
                context@,
            ),
        decreases ast.mods.len() - i,
    {
        let module = &ast.mods[i];
        let ghost before = context@;
        proof {
            lemma_folded_next(ast.mods@, i as int, ast.mods@.len() as int, start, fill_step());
            assert(ast.mods@[i as int] == *module);
        }
        let interface = fill_interface(&context.traits, module)?;

        let ghost filled = interface@;
        let ghost interfaces_before = context.interfaces.items@;
        context.interfaces.replace(i, interface);
        proof {
            assert(interface_seqs(context.interfaces.items@) =~= interface_seqs(
                interfaces_before,
            ).update(i as int, filled));
            assert(fill_step()(before, i as int, *module) == Ok::<ContextView, ErrorView>(
                context@,
            ));
        }
        i += 1;
    }
    Ok(())
}

/// Gives the trait of each module's own name the interface of the module
/// as its output type.
pub fn name_interfaces(ast: &AbstractSyntaxTree, context: &mut SemanticContext) -> (r: CResult<()>)
    requires
        old(context).interfaces.items@.len() == ast.mods@.len(),
        without_defaults(old(context).traits.items@),
    ensures
        ends_as(r, final(context)@, with_eponymous(ast.mods@, old(context)@)),
        r is Ok ==> {
            &&& final(context).lets == old(context).lets
            &&& final(context).classes == old(context).classes
            &&& final(context).structs == old(context).structs
            &&& final(context).interfaces == old(context).interfaces
            &&& trait_owners(final(context).traits.items@) == trait_owners(
                old(context).traits.items@,
            )
            &&& without_defaults(final(context).traits.items@)
        },
{
    let ghost start = context@;
    let mut i: usize = 0;
    while i < ast.mods.len()
        invariant
            i <= ast.mods.len(),
            start == old(context)@,
            context.lets == old(context).lets,
            context.classes == old(context).classes,
            context.structs == old(context).structs,
            context.interfaces == old(context).interfaces,
            context.interfaces.items@.len() == ast.mods@.len(),
            trait_owners(context.traits.items@) == trait_owners(old(context).traits.items@),
            without_defaults(context.traits.items@),
            folded(ast.mods@, i as int, start, eponymous_step()) == Ok::<ContextView, ErrorView>(
                context@,
            ),
        decreases ast.mods.len() - i,
    {
        let module = &ast.mods[i];
        let ghost before = context@;
        proof {
            lemma_folded_next(ast.mods@, i as int, ast.mods@.len() as int, start, eponymous_step());
            assert(ast.mods@[i as int] == *module);
        }
        let output = interface_type(context.interfaces.get(i));
        let eponymous = context.traits.resolve(module.name.as_str(), "")?;
        let eponymous_trait = Trait {
            full_name: module.name.clone(),
            interface: context.traits.get(eponymous).interface,
            inputs: Vec::new(),
            output,
            default_definition: None,
        };
        proof {
            assert(locals_view(eponymous_trait.inputs@) =~= Seq::empty());
            assert(eponymous_trait@ == crate::sem::passes::eponymous(
                module.name@,
                before.traits.items[eponymous as int].interface,
                before.interfaces.items[i as int],
            ));
        }
        let ghost traits_before = context.traits.items@;
        context.traits.replace(eponymous, eponymous_trait);
        proof {
            assert(trait_owners(context.traits.items@) =~= trait_owners(traits_before));
            assert forall|t: int| 0 <= t < context.traits.items@.len() implies (
            #[trigger] context.traits.items@[t]).1.default_definition is None by {
                if t != eponymous {
                    assert(context.traits.items@[t] == traits_before[t]);
                }
            }
            assert(eponymous_step()(before, i as int, *module) == Ok::<ContextView, ErrorView>(
                context@,
            ));
        }
        i += 1;
    }
    Ok(())
}

/// Propagates automatic definitions through the interfaces of a table:
/// every interface gets, for each of its traits, the traits of the interface
/// that owns it, until nothing is left to add. Returns the largest number of
/// steps that an interface took, which is never more than there are traits.
pub fn propagate(traits: &Table<Trait>, interfaces: &mut Table<Interface>) -> (steps: usize)
    requires
        interfaces_valid(interface_seqs(old(interfaces).items@), trait_owners(traits.items@)),
    ensures
        final(interfaces).items@.len() == old(interfaces).items@.len(),
        interfaces_valid(interface_seqs(final(interfaces).items@), trait_owners(traits.items@)),
        propagated(interface_seqs(final(interfaces).items@), trait_owners(traits.items@)),
        crate::sem::trayt::grown_from(
            interface_seqs(old(interfaces).items@),
            interface_seqs(final(interfaces).items@),
        ),
        steps <= traits.items@.len(),
        final(interfaces)@ == propagated_interfaces(traits@, old(interfaces)@),
{
    let mut owners: Vec<usize> = Vec::new();
    let mut t: usize = 0;
    while t < traits.len()
        invariant
            t <= traits.items@.len(),
            owners@ == trait_owners(traits.items@).subrange(0, t as int),
        decreases traits.items@.len() - t,
    {
        owners.push(traits.get(t).interface);
        assert(owners@ =~= trait_owners(traits.items@).subrange(0, t + 1));
        t += 1;
    }
    assert(owners@ =~= trait_owners(traits.items@));

    let mut lists: Vec<Vec<usize>> = Vec::new();
    let mut m: usize = 0;
    while m < interfaces.len()
        invariant
            m <= interfaces.items@.len(),
            *interfaces == *old(interfaces),
            lists@.len() == m,
            interface_views(lists@) == interface_seqs(interfaces.items@).subrange(0, m as int),
        decreases interfaces.items@.len() - m,
    {
        let copy = interfaces.get(m).clone();
        assert(copy@ =~= interfaces.items@[m as int].1@);
        let ghost before = lists@;
        lists.push(copy);
        proof {
            let target = interface_seqs(interfaces.items@).subrange(0, m + 1);
            assert forall|j: int| 0 <= j < m + 1 implies interface_views(lists@)[j]
                == target[j] by {
                if j < m {
                    assert(lists@[j] == before[j]);
                    assert(interface_views(before)[j] == interface_seqs(
                        interfaces.items@,
                    ).subrange(0, m as int)[j]);
                }
            }
            assert(interface_views(lists@) =~= target);
        }
        m += 1;
    }
    assert(interface_views(lists@) =~= interface_seqs(interfaces.items@));

    let steps = propagate_interfaces(&mut lists, &owners);

    let mut m: usize = 0;
    while m < interfaces.len()
        invariant
            m <= interfaces.items@.len(),
            interfaces.items@.len() == old(interfaces).items@.len(),
            interfaces.name == old(interfaces).name,
            interfaces.paths() == old(interfaces).paths(),
            lists@.len() == interfaces.items@.len(),
            forall|j: int|
                0 <= j < m ==> (#[trigger] interface_seqs(interfaces.items@)[j])
                    == interface_views(lists@)[j],
        decreases interfaces.items@.len() - m,
    {
        let ghost before = interfaces.items@;
        let copy = lists[m].clone();
        assert(copy@ =~= lists@[m as int]@);
        interfaces.replace(m, copy);
        proof {
            assert forall|j: int| 0 <= j < m + 1 implies (#[trigger] interface_seqs(
                interfaces.items@,
            )[j]) == interface_views(lists@)[j] by {
                if j < m {
                    assert(interface_seqs(before)[j] == interface_views(lists@)[j]);
                }
            }
        }
        m += 1;
    }
    assert(interface_seqs(interfaces.items@) =~= interface_views(lists@));
    proof {
        assert(owners@ =~= owners_of(traits@));
        assert(interface_seqs(old(interfaces).items@) =~= old(interfaces)@.items);
        assert(interface_seqs(interfaces.items@) =~= interfaces@.items);
    }
    steps
}

/// Every let of the table has a body within the bounds.
pub open spec fn lets_within(lets: Seq<(Vec<String>, Let)>, bounds: Bounds) -> bool {
    forall|i: int| 0 <= i < lets.len() ==> (#[trigger] lets[i]).1.evaluation.within(bounds)
}

/// Every let of the table has a placeholder for its body: `Self`, or the
/// making of a class or struct that the context holds.
pub open spec fn lets_flat(lets: Seq<(Vec<String>, Let)>, classes: int, structs: int) -> bool {
    forall|i: int|
        0 <= i < lets.len() ==> match (#[trigger] lets[i]).1.evaluation {
            Evaluation::Zelf => true,
            Evaluation::ClassConstructor(id) => id < classes,
            Evaluation::StructConstructor(id) => id < structs,
            _ => false,
        }
}

/// Every default definition of the table lies within the bounds.
pub open spec fn defaults_within(traits: Seq<(Vec<String>, Trait)>, bounds: Bounds) -> bool {
    forall|t: int|
        0 <= t < traits.len() ==> ((#[trigger] traits[t]).1.default_definition matches Some(
            eval,
        ) ==> eval.within(bounds))
}

/// Every class stands at the place of its number, its definitions lie
/// within the bounds and its defaults are traits.
pub open spec fn classes_within(classes: Seq<Class>, bounds: Bounds) -> bool {
    forall|c: int|
        0 <= c < classes.len() ==> (#[trigger] classes[c]).id == c && definitions_within(
            classes[c].definitions@,
            bounds,
        ) && all_below(classes[c].defaults@, bounds.traits as int)
}

/// Every struct stands at the place of its number, its definitions lie
/// within the bounds and its defaults are traits.
pub open spec fn structs_within(structs: Seq<Struct>, bounds: Bounds) -> bool {
    forall|c: int|
        0 <= c < structs.len() ==> (#[trigger] structs[c]).id == c && definitions_within(
            structs[c].definitions@,
            bounds,
        ) && all_below(structs[c].defaults@, bounds.traits as int)
}

impl SemanticContext {
    /// Nothing in the context names a let, trait, class or struct that the
    /// context does not hold: the bodies of the lets, the default
    /// definitions of the traits and the definitions of the classes and
    /// structs lie within the bounds of the context.
    pub open spec fn closed(&self) -> bool {
        &&& lets_within(self.lets.items@, self.bounds())
        &&& defaults_within(self.traits.items@, self.bounds())
        &&& classes_within(self.classes@, self.bounds())
        &&& structs_within(self.structs@, self.bounds())
    }
}

/// Where the class or struct of each module stands in the context.
pub open spec fn slots_valid(
    mods: Seq<ModuleStatement>,
    slots: Seq<usize>,
    classes: int,
    structs: int,
) -> bool {
    &&& slots.len() == mods.len()
    &&& forall|i: int|
        0 <= i < mods.len() ==> if (#[trigger] mods[i]).strukt is Some {
            slots[i] < structs
        } else if mods[i].class is Some {
            slots[i] < classes
        } else {
            true
        }
}

/// The class or struct of each module has the interface of the module as
/// its type.
pub open spec fn slots_typed(mods: Seq<ModuleStatement>, slots: Seq<usize>, context: Signatures)
    -> bool {
    forall|i: int|
        0 <= i < mods.len() && i < slots.len() ==> match context.interfaces.resolved(
            (#[trigger] mods[i]).name@,
            ""@,
        ) {
            Some(iface) => if mods[i].strukt is Some {
                slots[i] < context.structs.len() ==> context.structs[slots[i] as int]
                    == module_type(context, iface)
            } else if mods[i].class is Some {
                slots[i] < context.classes.len() ==> context.classes[slots[i] as int]
                    == module_type(context, iface)
            } else {
                true
            },
            None => true,
        }
}

/// The bodies of the lets of a table.
pub open spec fn let_bodies(lets: Seq<(Vec<String>, Let)>) -> Seq<EvaluationView> {
    Seq::new(lets.len(), |i: int| lets[i].1.evaluation@)
}

/// The classes as mathematical values.
pub open spec fn class_views(classes: Seq<Class>) -> Seq<ClassView> {
    Seq::new(classes.len(), |i: int| classes[i]@)
}

/// The structs as mathematical values.
pub open spec fn struct_views(structs: Seq<Struct>) -> Seq<StructView> {
    Seq::new(structs.len(), |i: int| structs[i]@)
}

/// What the last pass does for one let: the let that the name resolves to
/// from the scope gets the body that its expression stands for, among the
/// inputs and for the output type that the context holds for that let.
pub open spec fn body_write(statement: LetStatement, path: Seq<char>, context: Signatures)
    -> Result<(int, EvaluationView), ErrorView> {
    match context.lets.resolved(statement.name@, path) {
        None => Err(context.lets.no_resolution(statement.name@)),
        Some(id) => match analysed_body(
            statement,
            context,
            path,
            context.lets.items[id].0,
            context.lets.items[id].1,
        ) {
            Err(error) => Err(error),
            Ok(body) => Ok((id, body)),
        },
    }
}

/// What the last pass does for the lets of one scope, in order.
pub open spec fn body_writes(lets: Seq<LetStatement>, path: Seq<char>, context: Signatures) -> Seq<
    (int, EvaluationView),
> {
    Seq::new(lets.len(), |i: int| body_write(lets[i], path, context)->Ok_0)
}

/// What the last pass does for the lets of the first `upto` modules.
pub open spec fn module_body_writes(mods: Seq<ModuleStatement>, upto: int, context: Signatures)
    -> Seq<(int, EvaluationView)>
    decreases upto,
{
    if upto <= 0 {
        Seq::empty()
    } else {
        module_body_writes(mods, upto - 1, context) + body_writes(
            mods[upto - 1].lets@,
            mods[upto - 1].name@,
            context,
        )
    }
}

/// What the last pass does for all lets of a program: the global lets
/// first, then those of the modules.
pub open spec fn program_body_writes(ast: AbstractSyntaxTree, context: Signatures) -> Seq<
    (int, EvaluationView),
> {
    body_writes(ast.lets@, ""@, context) + module_body_writes(
        ast.mods@,
        ast.mods@.len() as int,
        context,
    )
}

/// What the last pass does for the classes of the first `upto` modules:
/// the class of each module that has one, and no struct, is put at its
/// place.
pub open spec fn class_writes(
    mods: Seq<ModuleStatement>,
    slots: Seq<usize>,
    upto: int,
    context: Signatures,
) -> Seq<(int, ClassView)>
    decreases upto,
{
    if upto <= 0 {
        Seq::empty()
    } else {
        let rest = class_writes(mods, slots, upto - 1, context);
        let module = mods[upto - 1];
        if module.strukt is None && module.class is Some {
            rest.push(
                (
                    slots[upto - 1] as int,
                    analysed_class(module, context, slots[upto - 1])->Ok_0,
                ),
            )
        } else {
            rest
        }
    }
}

/// What the last pass does for the structs of the first `upto` modules:
/// the struct of each module that has one is put at its place.
pub open spec fn struct_writes(
    mods: Seq<ModuleStatement>,
    slots: Seq<usize>,
    upto: int,
    context: Signatures,
) -> Seq<(int, StructView)>
    decreases upto,
{
    if upto <= 0 {
        Seq::empty()
    } else {
        let rest = struct_writes(mods, slots, upto - 1, context);
        let module = mods[upto - 1];
        if module.strukt is Some {
            rest.push(
                (
                    slots[upto - 1] as int,
                    analysed_struct(module, context, slots[upto - 1])->Ok_0,
                ),
            )
        } else {
            rest
        }
    }
}

/// What the last pass makes of a context: the signatures stay, every let
/// gets the body that the last statement for it stands for, and every class
/// and struct gets its definitions.
pub open spec fn settled_from(
    ast: AbstractSyntaxTree,
    slots: Seq<usize>,
    before: SemanticContext,
    after: SemanticContext,
) -> bool {
    let context = before.signatures();
    let lets = program_body_writes(ast, context);
    let classes = class_writes(ast.mods@, slots, ast.mods@.len() as int, context);
    let structs = struct_writes(ast.mods@, slots, ast.mods@.len() as int, context);
    &&& after.signatures() == context
    &&& let_bodies(after.lets.items@) == applied(
        lets,
        lets.len() as int,
        let_bodies(before.lets.items@),
    )
    &&& class_views(after.classes@) == applied(
        classes,
        classes.len() as int,
        class_views(before.classes@),
    )
    &&& struct_views(after.structs@) == applied(
        structs,
        structs.len() as int,
        struct_views(before.structs@),
    )
}

/// Analysis is settled after its last pass: running the last pass again on
/// what it gave changes no body of a let and no definition of a class or
/// struct.
pub proof fn lemma_last_pass_settled(
    ast: AbstractSyntaxTree,
    slots: Seq<usize>,
    before: SemanticContext,
    after: SemanticContext,
    again: SemanticContext,
)
    requires
        settled_from(ast, slots, before, after),
        settled_from(ast, slots, after, again),
    ensures
        let_bodies(again.lets.items@) == let_bodies(after.lets.items@),
        class_views(again.classes@) == class_views(after.classes@),
        struct_views(again.structs@) == struct_views(after.structs@),
{
    let context = before.signatures();
    lemma_applied_settled(program_body_writes(ast, context), let_bodies(before.lets.items@));
    lemma_applied_settled(
        class_writes(ast.mods@, slots, ast.mods@.len() as int, context),
        class_views(before.classes@),
    );
    lemma_applied_settled(
        struct_writes(ast.mods@, slots, ast.mods@.len() as int, context),
        struct_views(before.structs@),
    );
}

/// Analysing a let again after the last pass gives the let that the
/// context holds: this is so for a statement whose write in the last pass no
/// later write follows to the same let, and whose let was declared with the
/// signature that the statement declares.
pub proof fn lemma_let_is_settled(
    ast: AbstractSyntaxTree,
    slots: Seq<usize>,
    before: SemanticContext,
    after: SemanticContext,
    statement: LetStatement,
    path: Seq<char>,
    at: int,
)
    requires
        settled_from(ast, slots, before, after),
        0 <= at < program_body_writes(ast, before.signatures()).len(),
        body_write(statement, path, before.signatures()) is Ok,
        program_body_writes(ast, before.signatures())[at] == body_write(
            statement,
            path,
            before.signatures(),
        )->Ok_0,
        !crate::sem::settle::written_from(
            program_body_writes(ast, before.signatures()),
            at + 1,
            body_write(statement, path, before.signatures())->Ok_0.0,
        ),
        declared_let(statement, before.signatures(), path) is Ok,
        ({
            let id = body_write(statement, path, before.signatures())->Ok_0.0;
            let declared = declared_let(statement, before.signatures(), path)->Ok_0;
            &&& 0 <= id < before.lets.items@.len()
            &&& declared.inputs == before.signatures().lets.items[id].0
            &&& declared.output == before.signatures().lets.items[id].1
        }),
    ensures
        ({
            let id = body_write(statement, path, before.signatures())->Ok_0.0;
            &&& 0 <= id < after.lets.items@.len()
            &&& analysed_let(statement, after.signatures(), path) == Ok::<LetView, ErrorView>(
                after.lets.items@[id].1@,
            )
        }),
{
    let sig = before.signatures();
    let writes = program_body_writes(ast, sig);
    let start = let_bodies(before.lets.items@);
    let (id, body) = body_write(statement, path, sig)->Ok_0;
    crate::sem::settle::lemma_applied_last(writes, at + 1, start, id);
    crate::sem::settle::lemma_applied_len(writes, at, start);
    crate::sem::settle::lemma_applied_len(writes, writes.len() as int, start);
    assert(applied(writes, at + 1, start)[id] == body);
    assert(let_bodies(after.lets.items@)[id] == body);
    assert(after.signatures().lets.items.len() == after.lets.items@.len());
    assert(after.lets.items@.len() == before.lets.items@.len());
    assert(after.signatures().lets.items[id] == sig.lets.items[id]);
}

/// Replaces a trait by its analysed form; the owning interface stays.
fn replace_trait(traits: &mut Table<Trait>, id: usize, trayt: Trait)
    requires
        id < old(traits).items@.len(),
    ensures
        final(traits).items@ == old(traits).items@.update(
            id as int,
            (
                old(traits).items@[id as int].0,
                Trait { interface: old(traits).items@[id as int].1.interface, ..trayt },
            ),
        ),
        trait_owners(final(traits).items@) == trait_owners(old(traits).items@),
        final(traits)@ == old(traits)@.replaced(
            id as int,
            (TraitView { interface: old(traits)@.items[id as int].interface, ..trayt@ }),
        ),
{
    let owner = traits.get(id).interface;
    let ghost before = traits.items@;
    let kept = Trait { interface: owner, ..trayt };
    traits.replace(id, kept);
    assert(trait_owners(traits.items@) =~= trait_owners(before));
}

/// Every class stands at the place of its number and has no definitions
/// yet.
pub open spec fn class_places(classes: Seq<Class>) -> bool {
    forall|c: int|
        0 <= c < classes.len() ==> (#[trigger] classes[c]).id == c
            && classes[c].definitions@.len() == 0 && classes[c].defaults@.len() == 0
}

/// Every struct stands at the place of its number and has no definitions
/// yet.
pub open spec fn struct_places(structs: Seq<Struct>) -> bool {
    forall|c: int|
        0 <= c < structs.len() ==> (#[trigger] structs[c]).id == c
            && structs[c].definitions@.len() == 0 && structs[c].defaults@.len() == 0
}

/// Slots that are typed stay so when one more module gets its slot behind
/// the classes and structs that were there.
proof fn lemma_slots_typed_grow(
    mods: Seq<ModuleStatement>,
    m: int,
    slots: Seq<usize>,
    slot: usize,
    before: Signatures,
    after: Signatures,
)
    requires
        0 <= m < mods.len(),
        slots.len() == m,
        slots_typed(mods.subrange(0, m), slots, before),
        after.interfaces == before.interfaces,
        before.classes.len() <= after.classes.len(),
        before.structs.len() <= after.structs.len(),
        forall|c: int| 0 <= c < before.classes.len() ==> #[trigger] after.classes[c] == before.classes[c],
        forall|c: int| 0 <= c < before.structs.len() ==> #[trigger] after.structs[c] == before.structs[c],
        forall|i: int| 0 <= i < m ==> if (#[trigger] mods[i]).strukt is Some {
            slots[i] < before.structs.len()
        } else if mods[i].class is Some {
            slots[i] < before.classes.len()
        } else {
            true
        },
        mods[m].strukt is Some ==> (after.interfaces.resolved(mods[m].name@, ""@) matches Some(
            iface,
        ) && slot < after.structs.len() && after.structs[slot as int] == module_type(after, iface)),
        mods[m].strukt is None && mods[m].class is Some ==> (after.interfaces.resolved(
            mods[m].name@,
            ""@,
        ) matches Some(iface) && slot < after.classes.len() && after.classes[slot as int]
            == module_type(after, iface)),
    ensures
        slots_typed(mods.subrange(0, m + 1), slots.push(slot), after),
{
    let done = mods.subrange(0, m + 1);
    let all = slots.push(slot);
    assert forall|i: int| 0 <= i < done.len() && i < all.len() implies match after.interfaces.resolved(
        (#[trigger] done[i]).name@,
        ""@,
    ) {
        Some(iface) => if done[i].strukt is Some {
            all[i] < after.structs.len() ==> after.structs[all[i] as int] == module_type(
                after,
                iface,
            )
        } else if done[i].class is Some {
            all[i] < after.classes.len() ==> after.classes[all[i] as int] == module_type(
                after,
                iface,
            )
        } else {
            true
        },
        None => true,
    } by {
        if i < m {
            assert(done[i] == mods.subrange(0, m)[i]);
            assert(mods.subrange(0, m)[i] == mods[i]);
            assert(all[i] == slots[i]);
            if after.interfaces.resolved(done[i].name@, ""@) is Some {
                let iface = after.interfaces.resolved(done[i].name@, ""@)->0;
                assert(module_type(after, iface) == module_type(before, iface));
            }
        } else {
            assert(done[i] == mods[m]);
            assert(all[i] == slot);
        }
    }
}

/// Declares the signature of each let of a scope, in order, under its own
/// name or under its name in the scope.
fn declare_lets(lets: &Vec<LetStatement>, path: &str, qualify: bool, context: &mut SemanticContext)
    -> (r: CResult<()>)
    requires
        lets_flat(
            old(context).lets.items@,
            old(context).classes@.len() as int,
            old(context).structs@.len() as int,
        ),
    ensures
        ends_as(
            r,
            final(context)@,
            folded(lets@, lets@.len() as int, old(context)@, let_step(path@, qualify)),
        ),
        r is Ok ==> {
            &&& final(context).interfaces == old(context).interfaces
            &&& final(context).traits == old(context).traits
            &&& final(context).classes == old(context).classes
            &&& final(context).structs == old(context).structs
            &&& lets_flat(
                final(context).lets.items@,
                final(context).classes@.len() as int,
                final(context).structs@.len() as int,
            )
        },
{
    let ghost start = context@;
    let ghost step = let_step(path@, qualify);
    let mut l: usize = 0;
    while l < lets.len()
        invariant
            l <= lets.len(),
            start == old(context)@,
            step == let_step(path@, qualify),
            context.interfaces == old(context).interfaces,
            context.traits == old(context).traits,
            context.classes == old(context).classes,
            context.structs == old(context).structs,
            lets_flat(
                context.lets.items@,
                context.classes@.len() as int,
                context.structs@.len() as int,
            ),
            folded(lets@, l as int, start, step) == Ok::<ContextView, ErrorView>(context@),
        decreases lets.len() - l,
    {
        proof {
            lemma_folded_next(lets@, l as int, lets@.len() as int, start, step);
        }
        let lett = Let::analyse_just_types(&lets[l], context, path)?;
        let name = if qualify {
            qualified_name(path, lets[l].name.as_str())
        } else {
            lets[l].name.clone()
        };
        let ghost before = context.lets.items@;
        context.lets.declare(name.as_str(), lett)?;
        proof {
            lemma_flat_push(
                before,
                context.lets.items@,
                context.classes@.len() as int,
                context.structs@.len() as int,
            );
        }
        l += 1;
    }
    Ok(())
}

/// Puts the analysed form of each trait of a module in the place of the
/// trait that its name resolves to from the module.
fn analyse_traits(module: &ModuleStatement, context: &mut SemanticContext, with_default_definition: bool)
    -> (r: CResult<()>)
    ensures
        ends_as(
            r,
            final(context)@,
            folded(
                module.traits@,
                module.traits@.len() as int,
                old(context)@,
                trait_step(*module, with_default_definition),
            ),
        ),
        r is Ok ==> {
            &&& final(context).interfaces == old(context).interfaces
            &&& final(context).lets == old(context).lets
            &&& final(context).classes == old(context).classes
            &&& final(context).structs == old(context).structs
            &&& trait_owners(final(context).traits.items@) == trait_owners(
                old(context).traits.items@,
            )
            &&& !with_default_definition && without_defaults(old(context).traits.items@)
                ==> without_defaults(final(context).traits.items@)
            &&& old(context).closed() ==> final(context).closed()
        },
{
    let ghost start = context@;
    let ghost step = trait_step(*module, with_default_definition);
    let mut t: usize = 0;
    while t < module.traits.len()
        invariant
            t <= module.traits.len(),
            start == old(context)@,
            step == trait_step(*module, with_default_definition),
            context.interfaces == old(context).interfaces,
            context.lets == old(context).lets,
            context.classes == old(context).classes,
            context.structs == old(context).structs,
            context.traits.items@.len() == old(context).traits.items@.len(),
            trait_owners(context.traits.items@) == trait_owners(old(context).traits.items@),
            !with_default_definition && without_defaults(old(context).traits.items@)
                ==> without_defaults(context.traits.items@),
            old(context).closed() ==> context.closed(),
            folded(module.traits@, t as int, start, step) == Ok::<ContextView, ErrorView>(context@),
        decreases module.traits.len() - t,
    {
        proof {
            lemma_folded_next(module.traits@, t as int, module.traits@.len() as int, start, step);
        }
        let trayt = Trait::analyse(&module.traits[t], module, context, with_default_definition)?;
        let id = context.traits.resolve(module.traits[t].name.as_str(), module.name.as_str())?;
        let ghost before = *context;
        replace_trait(&mut context.traits, id, trayt);
        proof {
            assert(context.bounds() == before.bounds());
            if before.closed() {
                assert forall|k: int| 0 <= k < context.traits.items@.len() implies ((
                #[trigger] context.traits.items@[k]).1.default_definition matches Some(eval)
                    ==> eval.within(context.bounds())) by {
                    if k != id {
                        assert(context.traits.items@[k] == before.traits.items@[k]);
                    }
                }
            }
            if !with_default_definition && without_defaults(before.traits.items@) {
                assert forall|k: int| 0 <= k < context.traits.items@.len() implies (
                #[trigger] context.traits.items@[k]).1.default_definition is None by {
                    if k != id {
                        assert(context.traits.items@[k] == before.traits.items@[k]);
                    }
                }
            }
        }
        t += 1;
    }
    Ok(())
}

/// Finishes the signatures of the traits of a module, declares the
/// signatures of its lets and the let that makes its values, and gives the
/// place of its struct or class in the context.
fn declare_module_signatures(module: &ModuleStatement, context: &mut SemanticContext) -> (r: CResult<
    usize,
>)
    requires
        without_defaults(old(context).traits.items@),
        lets_flat(
            old(context).lets.items@,
            old(context).classes@.len() as int,
            old(context).structs@.len() as int,
        ),
        class_places(old(context).classes@),
        struct_places(old(context).structs@),
    ensures
        match r {
            Ok(slot) => module_signatures(old(context)@, *module) == Ok::<
                (ContextView, usize),
                ErrorView,
            >((final(context)@, slot)),
            Err(e) => module_signatures(old(context)@, *module) == Err::<
                (ContextView, usize),
                ErrorView,
            >(e@),
        },
        r matches Ok(slot) ==> {
            &&& final(context).interfaces == old(context).interfaces
            &&& trait_owners(final(context).traits.items@) == trait_owners(
                old(context).traits.items@,
            )
            &&& without_defaults(final(context).traits.items@)
            &&& lets_flat(
                final(context).lets.items@,
                final(context).classes@.len() as int,
                final(context).structs@.len() as int,
            )
            &&& class_places(final(context).classes@)
            &&& struct_places(final(context).structs@)
            &&& old(context).classes@.len() <= final(context).classes@.len()
            &&& old(context).structs@.len() <= final(context).structs@.len()
            &&& module.strukt is Some ==> slot < final(context).structs@.len()
            &&& module.strukt is None && module.class is Some ==> slot < final(context).classes@.len()
            &&& forall|c: int|
                0 <= c < old(context).classes@.len() ==> (#[trigger] final(context).classes@[c])
                    == old(context).classes@[c]
            &&& forall|c: int|
                0 <= c < old(context).structs@.len() ==> (#[trigger] final(context).structs@[c])
                    == old(context).structs@[c]
            &&& module.strukt is Some ==> (final(context).interfaces.resolved(
                module.name@,
                ""@,
            ) matches Some(iface) && final(context).structs@[slot as int].interface
                == module_type(final(context).signatures(), iface))
            &&& module.strukt is None && module.class is Some ==> (final(context).interfaces.resolved(module.name@, ""@) matches Some(iface) && final(context).classes@[slot as int].interface == module_type(final(context).signatures(), iface))
        },
{
    // Analyse trait input and output types.
    analyse_traits(module, context, false)?;

    // Populate module let identifiers.
    declare_lets(&module.lets, module.name.as_str(), true, context)?;

    // Populate struct and class constructor and def identifiers.
    declare_constructor(module, context)
}

/// Declares the signature of every let, finishes the signature of every
/// trait, and declares for each module that has a struct or a class the let
/// of the module's name that makes its values, with a place for the struct
/// or class in the context. Gives that place for each module.
pub fn declare_signatures(ast: &AbstractSyntaxTree, context: &mut SemanticContext) -> (r: CResult<
    Vec<usize>,
>)
    requires
        old(context).lets.items@.len() == 0,
        old(context).classes@.len() == 0,
        old(context).structs@.len() == 0,
        without_defaults(old(context).traits.items@),
    ensures
        match r {
            Ok(slots) => declared_signatures(*ast, old(context)@) == Ok::<Placed, ErrorView>(
                Placed { context: final(context)@, slots: slots@ },
            ),
            Err(e) => declared_signatures(*ast, old(context)@) == Err::<Placed, ErrorView>(e@),
        },
        r matches Ok(slots) ==> {
            &&& final(context).interfaces == old(context).interfaces
            &&& trait_owners(final(context).traits.items@) == trait_owners(
                old(context).traits.items@,
            )
            &&& without_defaults(final(context).traits.items@)
            &&& lets_flat(
                final(context).lets.items@,
                final(context).classes@.len() as int,
                final(context).structs@.len() as int,
            )
            &&& class_places(final(context).classes@)
            &&& struct_places(final(context).structs@)
            &&& slots_valid(
                ast.mods@,
                slots@,
                final(context).classes@.len() as int,
                final(context).structs@.len() as int,
            )
            &&& slots_typed(ast.mods@, slots@, final(context).signatures())
        },
{
    // Populate global let identifiers and types.
    assert(lets_flat(context.lets.items@, 0, 0));
    declare_lets(&ast.lets, "", false, context)?;

    let ghost globals = Placed { context: context@, slots: Seq::empty() };
    let mut slots: Vec<usize> = Vec::new();
    let mut m: usize = 0;
    assert(ast.mods@.subrange(0, 0).len() == 0);
    while m < ast.mods.len()
        invariant
            m <= ast.mods.len(),
            context.interfaces == old(context).interfaces,
            trait_owners(context.traits.items@) == trait_owners(old(context).traits.items@),
            without_defaults(context.traits.items@),
            lets_flat(
                context.lets.items@,
                context.classes@.len() as int,
                context.structs@.len() as int,
            ),
            class_places(context.classes@),
            struct_places(context.structs@),
            slots_valid(
                ast.mods@.subrange(0, m as int),
                slots@,
                context.classes@.len() as int,
                context.structs@.len() as int,
            ),
            slots_typed(ast.mods@.subrange(0, m as int), slots@, context.signatures()),
            folded(
                ast.lets@,
                ast.lets@.len() as int,
                old(context)@,
                let_step(""@, false),
            ) == Ok::<ContextView, ErrorView>(globals.context),
            globals.slots == Seq::<usize>::empty(),
            folded(ast.mods@, m as int, globals, module_signatures_step()) == Ok::<
                Placed,
                ErrorView,
            >(Placed { context: context@, slots: slots@ }),
        decreases ast.mods.len() - m,
    {
        let module = &ast.mods[m];
        let ghost classes_before = context.classes@;
        let ghost structs_before = context.structs@;
        let ghost sig_before = context.signatures();
        let ghost before = Placed { context: context@, slots: slots@ };
        proof {
            lemma_folded_next(
                ast.mods@,
                m as int,
                ast.mods@.len() as int,
                globals,
                module_signatures_step(),
            );
            assert(ast.mods@[m as int] == *module);
        }

        let slot = declare_module_signatures(module, context)?;
        let ghost slots_before = slots@;
        slots.push(slot);
        proof {
            let done = ast.mods@.subrange(0, m + 1);
            assert(done.drop_last() == ast.mods@.subrange(0, m as int));
            assert(sig_before.classes.len() == classes_before.len());
            assert(sig_before.structs.len() == structs_before.len());
            assert forall|c: int| 0 <= c < sig_before.classes.len() implies (
            #[trigger] context.signatures().classes[c]) == sig_before.classes[c] by {
                assert(context.classes@[c] == classes_before[c]);
            }
            assert forall|c: int| 0 <= c < sig_before.structs.len() implies (
            #[trigger] context.signatures().structs[c]) == sig_before.structs[c] by {
                assert(context.structs@[c] == structs_before[c]);
            }
            assert forall|i: int| 0 <= i < m implies if (#[trigger] ast.mods@[i]).strukt is Some {
                slots_before[i] < sig_before.structs.len()
            } else if ast.mods@[i].class is Some {
                slots_before[i] < sig_before.classes.len()
            } else {
                true
            } by {
                assert(ast.mods@.subrange(0, m as int)[i] == ast.mods@[i]);
            }
            lemma_slots_typed_grow(
                ast.mods@,
                m as int,
                slots_before,
                slot,
                sig_before,
                context.signatures(),
            );
            assert forall|i: int| 0 <= i < done.len() implies if (#[trigger] done[i]).strukt
                is Some {
                slots@[i] < context.structs@.len()
            } else if done[i].class is Some {
                slots@[i] < context.classes@.len()
            } else {
                true
            } by {
                if i < m {
                    assert(done[i] == ast.mods@.subrange(0, m as int)[i]);
                    assert(slots@[i] == slots_before[i]);
                }
            }
        }
        m += 1;
    }
    proof {
        assert(ast.mods@.subrange(0, m as int) == ast.mods@);
    }
    Ok(slots)
}

/// Placeholders stay placeholders when one more is declared behind them.
proof fn lemma_flat_push(
    before: Seq<(Vec<String>, Let)>,
    after: Seq<(Vec<String>, Let)>,
    classes: int,
    structs: int,
)
    requires
        lets_flat(before, classes, structs),
        after.len() == before.len() + 1,
        after.drop_last() == before,
        match after.last().1.evaluation {
            Evaluation::Zelf => true,
            Evaluation::ClassConstructor(id) => id < classes,
            Evaluation::StructConstructor(id) => id < structs,
            _ => false,
        },
    ensures
        lets_flat(after, classes, structs),
{
    assert forall|i: int| 0 <= i < after.len() implies match (#[trigger] after[i]).1.evaluation {
        Evaluation::Zelf => true,
        Evaluation::ClassConstructor(id) => id < classes,
        Evaluation::StructConstructor(id) => id < structs,
        _ => false,
    } by {
        if i < before.len() {
            assert(after[i] == after.drop_last()[i]);
        }
    }
}

/// Declares the let that makes the values of a module with a struct or a
/// class, and gives the struct or class a place in the context.
fn declare_constructor(module: &ModuleStatement, context: &mut SemanticContext) -> (r: CResult<
    usize,
>)
    requires
        lets_flat(
            old(context).lets.items@,
            old(context).classes@.len() as int,
            old(context).structs@.len() as int,
        ),
        class_places(old(context).classes@),
        struct_places(old(context).structs@),
    ensures
        match r {
            Ok(slot) => with_constructor(old(context)@, *module) == Ok::<
                (ContextView, usize),
                ErrorView,
            >((final(context)@, slot)),
            Err(e) => with_constructor(old(context)@, *module) == Err::<
                (ContextView, usize),
                ErrorView,
            >(e@),
        },
        r matches Ok(slot) ==> {
            &&& final(context).interfaces == old(context).interfaces
            &&& final(context).traits == old(context).traits
            &&& lets_flat(
                final(context).lets.items@,
                final(context).classes@.len() as int,
                final(context).structs@.len() as int,
            )
            &&& class_places(final(context).classes@)
            &&& struct_places(final(context).structs@)
            &&& old(context).classes@.len() <= final(context).classes@.len()
            &&& old(context).structs@.len() <= final(context).structs@.len()
            &&& module.strukt is Some ==> slot < final(context).structs@.len()
            &&& module.strukt is None && module.class is Some ==> slot < final(context).classes@.len()
            &&& forall|c: int|
                0 <= c < old(context).classes@.len() ==> (#[trigger] final(context).classes@[c])
                    == old(context).classes@[c]
            &&& forall|c: int|
                0 <= c < old(context).structs@.len() ==> (#[trigger] final(context).structs@[c])
                    == old(context).structs@[c]
            &&& module.strukt is Some ==> (final(context).interfaces.resolved(
                module.name@,
                ""@,
            ) matches Some(iface) && final(context).structs@[slot as int].interface
                == module_type(final(context).signatures(), iface))
            &&& module.strukt is None && module.class is Some ==> (final(context).interfaces.resolved(module.name@, ""@) matches Some(iface) && final(context).classes@[slot as int].interface == module_type(final(context).signatures(), iface))
        },
{
    match (&module.strukt, &module.class) {
        (Some(struct_statement), _) => {
            let interface = context.interfaces.resolve(module.name.as_str(), "")?;
            let id = context.structs.len();
            let strukt = Struct {
                fields: crate::sem::strukt::copy_fields(&struct_statement.fields),
                definitions: Vec::new(),
                defaults: Vec::new(),
                id,
                interface: interface_type(context.interfaces.get(interface)),
            };
            // Just the inputs and output of the constructor.
            let constructor = strukt.constructor();
            let ghost lets_before = context.lets.items@;
            context.lets.declare(module.name.as_str(), constructor)?;
            let ghost structs_before = context.structs@;
            let ghost made = strukt;
            context.structs.push(strukt);
            proof {
                lemma_flat_push(
                    lets_before,
                    context.lets.items@,
                    context.classes@.len() as int,
                    context.structs@.len() as int,
                );
                assert forall|c: int| 0 <= c < context.structs@.len() implies (
                #[trigger] context.structs@[c]).id == c
                    && context.structs@[c].definitions@.len() == 0
                    && context.structs@[c].defaults@.len() == 0 by {
                    if c < structs_before.len() {
                        assert(context.structs@[c] == structs_before[c]);
                    }
                }
                assert(definitions_view(made.definitions@) =~= Seq::empty());
                assert(struct_views(context.structs@) =~= struct_views(structs_before).push(
                    made@,
                ));
            }
            Ok(id)
        },
        (None, Some(_)) => {
            let interface = context.interfaces.resolve(module.name.as_str(), "")?;
            let id = context.classes.len();
            let class = Class {
                dependencies: Class::constructor_inputs(module, context)?,
                definitions: Vec::new(),
                defaults: Vec::new(),
                id,
                interface: interface_type(context.interfaces.get(interface)),
            };
            // Just the inputs and output of the constructor.
            let constructor = class.constructor();
            let ghost lets_before = context.lets.items@;
            context.lets.declare(module.name.as_str(), constructor)?;
            let ghost classes_before = context.classes@;
            let ghost made = class;
            context.classes.push(class);
            proof {
                lemma_flat_push(
                    lets_before,
                    context.lets.items@,
                    context.classes@.len() as int,
                    context.structs@.len() as int,
                );
                assert forall|c: int| 0 <= c < context.classes@.len() implies (
                #[trigger] context.classes@[c]).id == c
                    && context.classes@[c].definitions@.len() == 0
                    && context.classes@[c].defaults@.len() == 0 by {
                    if c < classes_before.len() {
                        assert(context.classes@[c] == classes_before[c]);
                    }
                }
                assert(definitions_view(made.definitions@) =~= Seq::empty());
                assert(class_views(context.classes@) =~= class_views(classes_before).push(made@));
            }
            Ok(id)
        },
        (None, None) => Ok(0),
    }
}

/// A context that holds placeholders only is closed.
proof fn lemma_placeholders_closed(context: SemanticContext)
    requires
        lets_flat(
            context.lets.items@,
            context.classes@.len() as int,
            context.structs@.len() as int,
        ),
        class_places(context.classes@),
        struct_places(context.structs@),
        without_defaults(context.traits.items@),
    ensures
        context.closed(),
{
    let bounds = context.bounds();
    assert forall|i: int| 0 <= i < context.lets.items@.len() implies (
    #[trigger] context.lets.items@[i]).1.evaluation.within(bounds) by {}
}

/// Gives every trait for which its module writes a def that can stand
/// alone that def as its default definition.
pub fn analyse_defaults(ast: &AbstractSyntaxTree, context: &mut SemanticContext) -> (r: CResult<()>)
    requires
        old(context).closed(),
    ensures
        ends_as(r, final(context)@, with_defaults(ast.mods@, old(context)@)),
        r is Ok ==> {
            &&& final(context).interfaces == old(context).interfaces
            &&& final(context).lets == old(context).lets
            &&& final(context).classes == old(context).classes
            &&& final(context).structs == old(context).structs
            &&& trait_owners(final(context).traits.items@) == trait_owners(
                old(context).traits.items@,
            )
            &&& final(context).closed()
        },
{
    let ghost start = context@;
    let mut m: usize = 0;
    while m < ast.mods.len()
        invariant
            m <= ast.mods.len(),
            start == old(context)@,
            context.interfaces == old(context).interfaces,
            context.lets == old(context).lets,
            context.classes == old(context).classes,
            context.structs == old(context).structs,
            trait_owners(context.traits.items@) == trait_owners(old(context).traits.items@),
            context.closed(),
            folded(ast.mods@, m as int, start, module_defaults_step()) == Ok::<
                ContextView,
                ErrorView,
            >(context@),
        decreases ast.mods.len() - m,
    {
        proof {
            lemma_folded_next(
                ast.mods@,
                m as int,
                ast.mods@.len() as int,
                start,
                module_defaults_step(),
            );
        }
        analyse_traits(&ast.mods[m], context, true)?;
        m += 1;
    }
    Ok(())
}

/// Puts the body in the place of the body of the let with the given
/// number.
fn set_body(context: &mut SemanticContext, id: usize, body: crate::sem::evaluation::Evaluation)
    requires
        old(context).closed(),
        id < old(context).lets.items@.len(),
        body.within(old(context).bounds()),
    ensures
        final(context).interfaces == old(context).interfaces,
        final(context).traits == old(context).traits,
        final(context).classes == old(context).classes,
        final(context).structs == old(context).structs,
        final(context).bounds() == old(context).bounds(),
        final(context).signatures() == old(context).signatures(),
        final(context).closed(),
        let_bodies(final(context).lets.items@) == let_bodies(old(context).lets.items@).update(
            id as int,
            body@,
        ),
        final(context)@ == (ContextView {
            lets: old(context)@.lets.replaced(
                id as int,
                LetView { evaluation: body@, ..old(context)@.lets.items[id as int] },
            ),
            ..old(context)@
        }),
{
    let ghost before = *context;
    let (path, lett) = context.lets.items.remove(id);
    let replaced = Let { inputs: lett.inputs, output: lett.output, evaluation: body };
    context.lets.items.insert(id, (path, replaced));
    proof {
        assert(context.lets.items@.len() == before.lets.items@.len());
        assert forall|i: int| 0 <= i < context.lets.items@.len() implies (
        #[trigger] context.lets.items@[i]).1.evaluation.within(context.bounds()) by {
            if i != id {
                assert(context.lets.items@[i] == before.lets.items@[i]);
            }
        }
        assert(context.lets.paths() =~= before.lets.paths()) by {
            assert forall|i: int| 0 <= i < context.lets.items@.len() implies context.lets.paths()[i]
                == before.lets.paths()[i] by {
                if i != id {
                    assert(context.lets.items@[i] == before.lets.items@[i]);
                }
            }
        }
        assert(context.signatures().lets.items =~= before.signatures().lets.items) by {
            assert forall|i: int|
                0 <= i < context.lets.items@.len() implies context.signatures().lets.items[i]
                == before.signatures().lets.items[i] by {
                if i != id {
                    assert(context.lets.items@[i] == before.lets.items@[i]);
                }
            }
        }
        assert(context.lets@.items =~= before.lets@.items.update(
            id as int,
            LetView { evaluation: body@, ..before.lets@.items[id as int] },
        )) by {
            assert forall|i: int| 0 <= i < context.lets.items@.len() implies context.lets@.items[i]
                == before.lets@.items.update(
                id as int,
                LetView { evaluation: body@, ..before.lets@.items[id as int] },
            )[i] by {
                if i != id {
                    assert(context.lets.items@[i] == before.lets.items@[i]);
                }
            }
        }
        assert(let_bodies(context.lets.items@) =~= let_bodies(before.lets.items@).update(
            id as int,
            body@,
        )) by {
            assert forall|i: int|
                0 <= i < context.lets.items@.len() implies let_bodies(context.lets.items@)[i]
                == let_bodies(before.lets.items@).update(id as int, body@)[i] by {
                if i != id {
                    assert(context.lets.items@[i] == before.lets.items@[i]);
                }
            }
        }
    }
}

/// Analyses the bodies of the lets of one scope, in order.
fn analyse_let_bodies(lets: &Vec<LetStatement>, path: &str, context: &mut SemanticContext) -> (r:
    CResult<()>)
    requires
        old(context).closed(),
    ensures
        ends_as(
            r,
            final(context)@,
            folded(lets@, lets@.len() as int, old(context)@, body_step(path@)),
        ),
        r is Ok ==> {
            &&& final(context).interfaces == old(context).interfaces
            &&& final(context).traits == old(context).traits
            &&& final(context).classes == old(context).classes
            &&& final(context).structs == old(context).structs
            &&& final(context).signatures() == old(context).signatures()
            &&& final(context).closed()
            &&& let_bodies(final(context).lets.items@) == applied(
                body_writes(lets@, path@, old(context).signatures()),
                lets@.len() as int,
                let_bodies(old(context).lets.items@),
            )
        },
{
    let ghost first = context@;
    let ghost step = body_step(path@);
    let ghost sig = context.signatures();
    let ghost start = let_bodies(context.lets.items@);
    let ghost writes = body_writes(lets@, path@, sig);
    let mut l: usize = 0;
    while l < lets.len()
        invariant
            l <= lets.len(),
            context.interfaces == old(context).interfaces,
            context.traits == old(context).traits,
            context.classes == old(context).classes,
            context.structs == old(context).structs,
            context.signatures() == sig,
            sig == old(context).signatures(),
            context.closed(),
            writes == body_writes(lets@, path@, sig),
            start == let_bodies(old(context).lets.items@),
            let_bodies(context.lets.items@).len() == start.len(),
            let_bodies(context.lets.items@) == applied(writes, l as int, start),
            first == old(context)@,
            step == body_step(path@),
            folded(lets@, l as int, first, step) == Ok::<ContextView, ErrorView>(context@),
        decreases lets.len() - l,
    {
        proof {
            lemma_folded_next(lets@, l as int, lets@.len() as int, first, step);
        }
        let id = context.lets.resolve(lets[l].name.as_str(), path)?;
        let body = Let::analyse_body(&lets[l], context, path, id)?;
        proof {
            assert(body_write(lets@[l as int], path@, sig) == Ok::<
                (int, EvaluationView),
                ErrorView,
            >((id as int, body@)));
            assert(writes[l as int] == (id as int, body@));
        }
        set_body(context, id, body);
        l += 1;
    }
    Ok(())
}

/// Analyses the struct of a module and puts it at its place.
fn analyse_struct_at(module: &ModuleStatement, context: &mut SemanticContext, slot: usize) -> (r:
    CResult<()>)
    requires
        old(context).closed(),
        module.strukt is Some,
        slot < old(context).structs@.len(),
        old(context).interfaces.resolved(module.name@, ""@) matches Some(iface) ==> old(context).structs@[slot as int].interface == module_type(old(context).signatures(), iface),
    ensures
        r is Ok ==> {
            &&& final(context).interfaces == old(context).interfaces
            &&& final(context).traits == old(context).traits
            &&& final(context).lets == old(context).lets
            &&& final(context).classes == old(context).classes
            &&& final(context).bounds() == old(context).bounds()
            &&& final(context).signatures() == old(context).signatures()
            &&& final(context).closed()
            &&& analysed_struct(*module, old(context).signatures(), slot) matches Ok(view)
                && struct_views(final(context).structs@) == struct_views(
                old(context).structs@,
            ).update(slot as int, view)
        },
        r matches Err(e) ==> analysed_struct(*module, old(context).signatures(), slot) == Err::<
            StructView,
            ErrorView,
        >(e@),
{
    let strukt = Struct::analyse(module, context, slot)?;
    let ghost before = *context;
    let ghost view = strukt@;
    context.structs.set(slot, strukt);
    proof {
        assert forall|c: int| 0 <= c < context.structs@.len() implies (
        #[trigger] context.structs@[c]).id == c && definitions_within(
            context.structs@[c].definitions@,
            context.bounds(),
        ) && all_below(context.structs@[c].defaults@, context.bounds().traits as int) by {
            if c != slot {
                assert(context.structs@[c] == before.structs@[c]);
            } else {
                assert forall|t: int| 0 <= t < context.structs@[c].defaults@.len() implies (
                #[trigger] context.structs@[c].defaults@[t]) < context.bounds().traits by {}
            }
        }
        assert(context.signatures().structs =~= before.signatures().structs) by {
            assert forall|c: int|
                0 <= c < context.structs@.len() implies context.signatures().structs[c]
                == before.signatures().structs[c] by {
                if c != slot {
                    assert(context.structs@[c] == before.structs@[c]);
                }
            }
        }
        assert(struct_views(context.structs@) =~= struct_views(before.structs@).update(
            slot as int,
            view,
        ));
    }
    Ok(())
}

/// Analyses the class of a module and puts it at its place.
fn analyse_class_at(module: &ModuleStatement, context: &mut SemanticContext, slot: usize) -> (r:
    CResult<()>)
    requires
        old(context).closed(),
        module.class is Some,
        slot < old(context).classes@.len(),
        old(context).interfaces.resolved(module.name@, ""@) matches Some(iface) ==> old(context).classes@[slot as int].interface == module_type(old(context).signatures(), iface),
    ensures
        r is Ok ==> {
            &&& final(context).interfaces == old(context).interfaces
            &&& final(context).traits == old(context).traits
            &&& final(context).lets == old(context).lets
            &&& final(context).structs == old(context).structs
            &&& final(context).bounds() == old(context).bounds()
            &&& final(context).signatures() == old(context).signatures()
            &&& final(context).closed()
            &&& analysed_class(*module, old(context).signatures(), slot) matches Ok(view)
                && class_views(final(context).classes@) == class_views(
                old(context).classes@,
            ).update(slot as int, view)
        },
        r matches Err(e) ==> analysed_class(*module, old(context).signatures(), slot) == Err::<
            ClassView,
            ErrorView,
        >(e@),
{
    let class = Class::analyse(module, context, slot)?;
    let ghost before = *context;
    let ghost view = class@;
    context.classes.set(slot, class);
    proof {
        assert forall|c: int| 0 <= c < context.classes@.len() implies (
        #[trigger] context.classes@[c]).id == c && definitions_within(
            context.classes@[c].definitions@,
            context.bounds(),
        ) && all_below(context.classes@[c].defaults@, context.bounds().traits as int) by {
            if c != slot {
                assert(context.classes@[c] == before.classes@[c]);
            } else {
                assert forall|t: int| 0 <= t < context.classes@[c].defaults@.len() implies (
                #[trigger] context.classes@[c].defaults@[t]) < context.bounds().traits by {}
            }
        }
        assert(context.signatures().classes =~= before.signatures().classes) by {
            assert forall|c: int|
                0 <= c < context.classes@.len() implies context.signatures().classes[c]
                == before.signatures().classes[c] by {
                if c != slot {
                    assert(context.classes@[c] == before.classes@[c]);
                }
            }
        }
        assert(class_views(context.classes@) =~= class_views(before.classes@).update(
            slot as int,
            view,
        ));
    }
    Ok(())
}

/// Analyses the bodies of the lets of a module, and the definitions of
/// its struct or class, which stands at `slot`.
fn analyse_module_bodies(module: &ModuleStatement, context: &mut SemanticContext, slot: usize) -> (r:
    CResult<()>)
    requires
        old(context).closed(),
        module.strukt is Some ==> slot < old(context).structs@.len() && (old(context).interfaces.resolved(module.name@, ""@) matches Some(iface) ==> old(context).structs@[slot as int].interface == module_type(old(context).signatures(), iface)),
        module.strukt is None && module.class is Some ==> slot < old(context).classes@.len() && (
        old(context).interfaces.resolved(module.name@, ""@) matches Some(iface) ==> old(context).classes@[slot as int].interface == module_type(old(context).signatures(), iface)),
    ensures
        ends_as(r, final(context)@, module_bodies(old(context)@, *module, slot)),
        r is Ok ==> {
            &&& final(context).interfaces == old(context).interfaces
            &&& final(context).traits == old(context).traits
            &&& final(context).bounds() == old(context).bounds()
            &&& final(context).signatures() == old(context).signatures()
            &&& final(context).closed()
            &&& let_bodies(final(context).lets.items@) == applied(
                body_writes(module.lets@, module.name@, old(context).signatures()),
                module.lets@.len() as int,
                let_bodies(old(context).lets.items@),
            )
            &&& if module.strukt is Some {
                analysed_struct(*module, old(context).signatures(), slot) matches Ok(view)
                    && struct_views(final(context).structs@) == struct_views(
                    old(context).structs@,
                ).update(slot as int, view) && final(context).classes == old(context).classes
            } else if module.class is Some {
                analysed_class(*module, old(context).signatures(), slot) matches Ok(view)
                    && class_views(final(context).classes@) == class_views(
                    old(context).classes@,
                ).update(slot as int, view) && final(context).structs == old(context).structs
            } else {
                final(context).classes == old(context).classes && final(context).structs == old(context).structs
            }
        },
{
    // Analyse module let expressions.
    analyse_let_bodies(&module.lets, module.name.as_str(), context)?;

    // Analyse struct and class constructor and def expressions.
    if module.strukt.is_some() {
        analyse_struct_at(module, context, slot)?;
    } else if module.class.is_some() {
        analyse_class_at(module, context, slot)?;
    }
    Ok(())
}

/// Analyses the body of every let, and the definitions of the struct or
/// class of every module that has one. The signatures stay as they are.
#[verifier::rlimit(60)]
pub fn analyse_bodies(ast: &AbstractSyntaxTree, context: &mut SemanticContext, slots: &Vec<usize>)
    -> (r: CResult<()>)
    requires
        old(context).closed(),
        slots_valid(
            ast.mods@,
            slots@,
            old(context).classes@.len() as int,
            old(context).structs@.len() as int,
        ),
        slots_typed(ast.mods@, slots@, old(context).signatures()),
    ensures
        ends_as(r, final(context)@, with_bodies(*ast, slots@, old(context)@)),
        r is Ok ==> {
            &&& final(context).interfaces == old(context).interfaces
            &&& final(context).traits == old(context).traits
            &&& final(context).closed()
            &&& settled_from(*ast, slots@, *old(context), *final(context))
        },
{
    let ghost sig = context.signatures();
    let ghost bounds = context.bounds();
    let ghost bodies0 = let_bodies(context.lets.items@);
    let ghost classes0 = class_views(context.classes@);
    let ghost structs0 = struct_views(context.structs@);

    // Analyse global let expressions.
    analyse_let_bodies(&ast.lets, "", context)?;
    let ghost globals = body_writes(ast.lets@, ""@, sig);
    let ghost bodies1 = let_bodies(context.lets.items@);
    let ghost first = context@;

    let mut m: usize = 0;
    while m < ast.mods.len()
        invariant
            m <= ast.mods.len(),
            context.interfaces == old(context).interfaces,
            context.traits == old(context).traits,
            context.bounds() == bounds,
            context.signatures() == sig,
            sig == old(context).signatures(),
            context.closed(),
            slots_valid(ast.mods@, slots@, bounds.classes as int, bounds.structs as int),
            slots_typed(ast.mods@, slots@, sig),
            globals == body_writes(ast.lets@, ""@, sig),
            bodies1 == applied(globals, globals.len() as int, bodies0),
            bodies0 == let_bodies(old(context).lets.items@),
            classes0 == class_views(old(context).classes@),
            structs0 == struct_views(old(context).structs@),
            let_bodies(context.lets.items@) == applied(
                module_body_writes(ast.mods@, m as int, sig),
                module_body_writes(ast.mods@, m as int, sig).len() as int,
                bodies1,
            ),
            class_views(context.classes@) == applied(
                class_writes(ast.mods@, slots@, m as int, sig),
                class_writes(ast.mods@, slots@, m as int, sig).len() as int,
                classes0,
            ),
            struct_views(context.structs@) == applied(
                struct_writes(ast.mods@, slots@, m as int, sig),
                struct_writes(ast.mods@, slots@, m as int, sig).len() as int,
                structs0,
            ),
            folded(ast.lets@, ast.lets@.len() as int, old(context)@, body_step(""@)) == Ok::<
                ContextView,
                ErrorView,
            >(first),
            folded(ast.mods@, m as int, first, module_bodies_step(slots@)) == Ok::<
                ContextView,
                ErrorView,
            >(context@),
        decreases ast.mods.len() - m,
    {
        proof {
            lemma_folded_next(
                ast.mods@,
                m as int,
                ast.mods@.len() as int,
                first,
                module_bodies_step(slots@),
            );
        }
        let module = &ast.mods[m];
        let ghost done = module_body_writes(ast.mods@, m as int, sig);
        let ghost class_done = class_writes(ast.mods@, slots@, m as int, sig);
        let ghost struct_done = struct_writes(ast.mods@, slots@, m as int, sig);
        let slot = slots[m];
        proof {
            assert(ast.mods@[m as int] == *module);
        }

        analyse_module_bodies(module, context, slot)?;

        proof {
            let more = body_writes(module.lets@, module.name@, sig);
            lemma_applied_concat(done, more, more.len() as int, bodies1);
            assert(module_body_writes(ast.mods@, m + 1, sig) == done + more);
            if module.strukt is Some {
                let view = analysed_struct(*module, sig, slot)->Ok_0;
                let writes = struct_writes(ast.mods@, slots@, m + 1, sig);
                assert(writes == struct_done.push((slot as int, view)));
                assert(writes.drop_last() == struct_done);
                crate::sem::settle::lemma_applied_prefix(
                    writes,
                    struct_done,
                    struct_done.len() as int,
                    structs0,
                );
            } else if module.class is Some {
                let view = analysed_class(*module, sig, slot)->Ok_0;
                let writes = class_writes(ast.mods@, slots@, m + 1, sig);
                assert(writes == class_done.push((slot as int, view)));
                assert(writes.drop_last() == class_done);
                crate::sem::settle::lemma_applied_prefix(
                    writes,
                    class_done,
                    class_done.len() as int,
                    classes0,
                );
            }
        }
        m += 1;
    }
    proof {
        let modules = module_body_writes(ast.mods@, ast.mods@.len() as int, sig);
        lemma_applied_concat(globals, modules, modules.len() as int, bodies0);
    }
    Ok(())
}

/// Interfaces that hold traits of the table only, none of them twice, hold
/// at most as many traits as the table.
proof fn lemma_interfaces_bounded(context: SemanticContext)
    requires
        interfaces_valid(
            interface_seqs(context.interfaces.items@),
            trait_owners(context.traits.items@),
        ),
    ensures
        forall|m: int|
            0 <= m < context.interfaces.items@.len() ==> (
            #[trigger] context.interfaces.items@[m]).1@.len() <= context.traits.items@.len(),
{
    let interfaces = interface_seqs(context.interfaces.items@);
    let owners = trait_owners(context.traits.items@);
    assert forall|m: int| 0 <= m < context.interfaces.items@.len() implies (
    #[trigger] context.interfaces.items@[m]).1@.len() <= context.traits.items@.len() by {
        assert(interfaces[m] == context.interfaces.items@[m].1@);
        assert(forall|k: int|
            0 <= k < interfaces[m].len() ==> #[trigger] interfaces[m][k] < owners.len());
        assert(owners.len() == context.traits.items@.len());
        assert(interfaces[m].no_duplicates());
        assert(context.traits.items.len() == context.traits.items@.len());
        crate::sem::trayt::lemma_interface_bound(interfaces[m], context.traits.items.len());
    }
}

/// Analyses the semantics of a complete AST, and returns the global semantic context.
///
/// First the names of traits and interfaces are declared, the interfaces
/// are filled and automatic definitions are propagated through them. Then
/// the signatures of all lets and traits are resolved, and the default
/// definitions of the traits. Last the bodies of the lets and the
/// definitions of structs and classes are analysed.
pub fn analyse_ast(ast: AbstractSyntaxTree) -> (r: CResult<SemanticContext>)
    ensures
        match analysed_program(ast) {
            Ok(context) => r matches Ok(found) && found@ == context,
            Err(error) => r matches Err(found) && found@ == error,
        },
        r matches Ok(context) ==> {
            &&& context.interfaces.items@.len() == ast.mods@.len()
            &&& interfaces_valid(
                interface_seqs(context.interfaces.items@),
                trait_owners(context.traits.items@),
            )
            &&& propagated(
                interface_seqs(context.interfaces.items@),
                trait_owners(context.traits.items@),
            )
            &&& forall|m: int|
                0 <= m < context.interfaces.items@.len() ==> (
                #[trigger] context.interfaces.items@[m]).1@.len() <= context.traits.items@.len()
            &&& context.closed()
            &&& exists|slots: Seq<usize>, before: SemanticContext|
                settled_from(ast, slots, before, context)
        },
{
    let mut context = SemanticContext::new();

    // STEP 1: Populate trait and interface identifiers.
    declare_identifiers(&ast, &mut context)?;
    fill_interfaces(&ast, &mut context)?;
    proof {
        let interfaces = interface_seqs(context.interfaces.items@);
        let owners = trait_owners(context.traits.items@);
        assert(interfaces_valid(interfaces, owners)) by {
            assert forall|m: int, k: int|
                0 <= m < interfaces.len() && 0 <= k < interfaces[m].len() implies (
            #[trigger] interfaces[m][k]) < owners.len() by {
                assert(all_below(interfaces[m], context.traits.items@.len() as int));
            }
        }
    }
    propagate(&context.traits, &mut context.interfaces);
    name_interfaces(&ast, &mut context)?;

    // STEP 2: Analyse trait, let and def input and output types.
    let slots = declare_signatures(&ast, &mut context)?;
    proof {
        lemma_placeholders_closed(context);
    }
    let ghost declared = context.signatures();
    analyse_defaults(&ast, &mut context)?;
    proof {
        let sig = context.signatures();
        assert(sig.classes =~= declared.classes);
        assert(sig.structs =~= declared.structs);
        assert(slots_typed(ast.mods@, slots@, sig));
    }

    // STEP 3: Analyse let and def expressions.
    let ghost signed = context;
    analyse_bodies(&ast, &mut context, &slots)?;
    assert(settled_from(ast, slots@, signed, context));
    proof {
        assert(interfaces_valid(
            interface_seqs(context.interfaces.items@),
            trait_owners(context.traits.items@),
        ));
        lemma_interfaces_bounded(context);
    }

    Ok(context)
}

} // verus!
