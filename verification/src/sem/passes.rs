//! What the passes of the analysis make of a program, as mathematical
//! values.

use crate::ast::abstract_syntax_tree::AbstractSyntaxTree;
use crate::ast::def_statement::DefStatement;
use crate::ast::let_statement::LetStatement;
use crate::ast::module_statement::ModuleStatement;
use crate::ast::trait_statement::TraitStatement;
use crate::error::CResult;
use crate::error::ErrorView;
use crate::ast::view::fields_view;
use crate::sem::class::analysed_class;
use crate::sem::class::module_type;
use crate::sem::class::ClassView;
use crate::sem::evaluation::EvaluationView;
use crate::sem::fold::folded;
use crate::sem::lett::declared_let;
use crate::sem::lett::LetView;
use crate::sem::semantic_analyser::body_write;
use crate::sem::semantic_analyser::Signatures;
use crate::sem::strukt::analysed_struct;
use crate::sem::strukt::raw_inputs;
use crate::sem::strukt::StructView;
use crate::sem::table::TableView;
use crate::sem::trayt::analysed_trait;
use crate::sem::trayt::qualified;
use crate::sem::trayt::spread_all;
use crate::sem::trayt::trait_types;
use crate::sem::trayt::with_trait;
use crate::sem::trayt::TraitView;
use crate::sem::typ::analysed_signature;
use crate::sem::typ::combined;
use crate::sem::typ::Type;
use vstd::prelude::*;

verus! {

/// A semantic context as a mathematical value.
pub struct ContextView {
    pub traits: TableView<TraitView>,
    pub lets: TableView<LetView>,
    pub interfaces: TableView<Seq<usize>>,
    pub classes: Seq<ClassView>,
    pub structs: Seq<StructView>,
}

impl ContextView {
    /// The context that holds nothing.
    pub open spec fn empty() -> ContextView {
        ContextView {
            traits: TableView::empty("Trait"@),
            lets: TableView::empty("Let"@),
            interfaces: TableView::empty("Interface"@),
            classes: Seq::empty(),
            structs: Seq::empty(),
        }
    }

    /// What the analysis of an expression reads of the context.
    pub open spec fn signatures(self) -> Signatures {
        Signatures {
            traits: self.traits,
            interfaces: self.interfaces,
            lets: TableView {
                name: self.lets.name,
                paths: self.lets.paths,
                items: Seq::new(
                    self.lets.items.len(),
                    |i: int| (self.lets.items[i].inputs, self.lets.items[i].output),
                ),
            },
            classes: Seq::new(self.classes.len(), |i: int| self.classes[i].interface),
            structs: Seq::new(self.structs.len(), |i: int| self.structs[i].interface),
        }
    }
}

/// Whether a pass ended as expected: with the context that is expected, or
/// with the error that is.
pub open spec fn ends_as(r: CResult<()>, after: ContextView, expected: Result<ContextView, ErrorView>)
    -> bool {
    match expected {
        Ok(context) => r is Ok && after == context,
        Err(error) => r matches Err(found) && found@ == error,
    }
}

/// The trait that stands in the table until the signature of a trait is
/// known: it takes no inputs and gives `?`.
pub open spec fn placeholder(name: Seq<char>, interface: usize) -> TraitView {
    TraitView {
        full_name: name,
        interface,
        inputs: Seq::empty(),
        output: Type::Void,
        default_definition: None,
    }
}

/// Declares the name of a trait of a module, owned by the interface.
pub open spec fn trait_name_step(module: Seq<char>, interface: usize) -> spec_fn(
    TableView<TraitView>,
    int,
    TraitStatement,
) -> Result<TableView<TraitView>, ErrorView> {
    |traits: TableView<TraitView>, place: int, statement: TraitStatement|
        {
            let name = qualified(module, statement.name@);
            traits.declared(name, placeholder(name, interface))
        }
}

/// Declares the names of a module: its interface, still empty, each of its
/// traits, and the trait of the module's own name.
pub open spec fn module_names_step() -> spec_fn(ContextView, int, ModuleStatement) -> Result<
    ContextView,
    ErrorView,
> {
    |context: ContextView, place: int, module: ModuleStatement|
        match context.interfaces.declared(module.name@, Seq::empty()) {
            Err(error) => Err(error),
            Ok(interfaces) => {
                let owner = context.interfaces.items.len() as usize;
                match folded(
                    module.traits@,
                    module.traits@.len() as int,
                    context.traits,
                    trait_name_step(module.name@, owner),
                ) {
                    Err(error) => Err(error),
                    Ok(traits) => match traits.declared(
                        module.name@,
                        placeholder(module.name@, owner),
                    ) {
                        Err(error) => Err(error),
                        Ok(traits) => Ok(ContextView { traits, interfaces, ..context }),
                    },
                }
            },
        }
}

/// The context after the names of all modules were declared.
pub open spec fn declared_names(mods: Seq<ModuleStatement>, context: ContextView) -> Result<
    ContextView,
    ErrorView,
> {
    folded(mods, mods.len() as int, context, module_names_step())
}

/// Adds to an interface the trait that the name resolves to from the module.
pub open spec fn named_trait(
    traits: TableView<TraitView>,
    module: Seq<char>,
    interface: Seq<usize>,
    name: Seq<char>,
) -> Result<Seq<usize>, ErrorView> {
    match traits.resolved(name, module) {
        None => Err(traits.no_resolution(name)),
        Some(trayt) => Ok(with_trait(interface, trayt as usize)),
    }
}

/// Adds a trait that the module declares to its interface.
pub open spec fn own_trait_step(traits: TableView<TraitView>, module: Seq<char>) -> spec_fn(
    Seq<usize>,
    int,
    TraitStatement,
) -> Result<Seq<usize>, ErrorView> {
    |interface: Seq<usize>, place: int, statement: TraitStatement|
        named_trait(traits, module, interface, statement.name@)
}

/// Adds the trait that a def of the module is written for to its interface.
pub open spec fn def_trait_step(traits: TableView<TraitView>, module: Seq<char>) -> spec_fn(
    Seq<usize>,
    int,
    DefStatement,
) -> Result<Seq<usize>, ErrorView> {
    |interface: Seq<usize>, place: int, statement: DefStatement|
        named_trait(traits, module, interface, statement.name@)
}

/// The interface of a module before automatic definitions are propagated:
/// the traits that it declares, then those that its defs are written for,
/// each once.
pub open spec fn module_interface(traits: TableView<TraitView>, module: ModuleStatement) -> Result<
    Seq<usize>,
    ErrorView,
> {
    match folded(
        module.traits@,
        module.traits@.len() as int,
        Seq::empty(),
        own_trait_step(traits, module.name@),
    ) {
        Err(error) => Err(error),
        Ok(own) => folded(
            module.defs@,
            module.defs@.len() as int,
            own,
            def_trait_step(traits, module.name@),
        ),
    }
}

/// The trait of a module's own name: it takes no inputs and gives a value
/// of the module's interface.
pub open spec fn eponymous(name: Seq<char>, owner: usize, interface: Seq<usize>) -> TraitView {
    TraitView {
        full_name: name,
        interface: owner,
        inputs: Seq::empty(),
        output: combined(trait_types(interface)),
        default_definition: None,
    }
}

/// Fills the interface of a module.
pub open spec fn fill_step() -> spec_fn(ContextView, int, ModuleStatement) -> Result<
    ContextView,
    ErrorView,
> {
    |context: ContextView, place: int, module: ModuleStatement|
        match module_interface(context.traits, module) {
            Err(error) => Err(error),
            Ok(interface) => Ok(
                ContextView {
                    interfaces: context.interfaces.replaced(place, interface),
                    ..context
                },
            ),
        }
}

/// Gives the trait of a module's own name the interface of the module as
/// its output type.
pub open spec fn eponymous_step() -> spec_fn(ContextView, int, ModuleStatement) -> Result<
    ContextView,
    ErrorView,
> {
    |context: ContextView, place: int, module: ModuleStatement|
        match context.traits.resolved(module.name@, ""@) {
            None => Err(context.traits.no_resolution(module.name@)),
            Some(own) => Ok(
                ContextView {
                    traits: context.traits.replaced(
                        own,
                        eponymous(
                            module.name@,
                            context.traits.items[own].interface,
                            context.interfaces.items[place],
                        ),
                    ),
                    ..context
                },
            ),
        }
}

/// The context after the trait of each module's own name got the interface
/// of its module as its output type.
pub open spec fn with_eponymous(mods: Seq<ModuleStatement>, context: ContextView) -> Result<
    ContextView,
    ErrorView,
> {
    folded(mods, mods.len() as int, context, eponymous_step())
}

/// The context after the interfaces of all modules were filled.
pub open spec fn filled_interfaces(mods: Seq<ModuleStatement>, context: ContextView) -> Result<
    ContextView,
    ErrorView,
> {
    folded(mods, mods.len() as int, context, fill_step())
}

/// The interface that owns each trait of a table.
pub open spec fn owners_of(traits: TableView<TraitView>) -> Seq<usize> {
    Seq::new(traits.items.len(), |t: int| traits.items[t].interface)
}

/// The interfaces after automatic definitions were propagated through
/// them.
pub open spec fn propagated_interfaces(
    traits: TableView<TraitView>,
    interfaces: TableView<Seq<usize>>,
) -> TableView<Seq<usize>> {
    TableView {
        name: interfaces.name,
        paths: interfaces.paths,
        items: spread_all(interfaces.items, owners_of(traits)),
    }
}

/// Declares the signature of a let of the scope `path`, under its own
/// name or under its name in the scope.
pub open spec fn let_step(path: Seq<char>, qualify: bool) -> spec_fn(
    ContextView,
    int,
    LetStatement,
) -> Result<ContextView, ErrorView> {
    |context: ContextView, place: int, statement: LetStatement|
        match declared_let(statement, context.signatures(), path) {
            Err(error) => Err(error),
            Ok(lett) => match context.lets.declared(
                if qualify {
                    qualified(path, statement.name@)
                } else {
                    statement.name@
                },
                lett,
            ) {
                Err(error) => Err(error),
                Ok(lets) => Ok(ContextView { lets, ..context }),
            },
        }
}

/// Puts the analysed form of a trait of a module in the place of the trait
/// that its name resolves to from the module; the owning interface stays.
pub open spec fn trait_step(module: ModuleStatement, with_default_definition: bool) -> spec_fn(
    ContextView,
    int,
    TraitStatement,
) -> Result<ContextView, ErrorView> {
    |context: ContextView, place: int, statement: TraitStatement|
        match analysed_trait(statement, module, context.signatures(), with_default_definition) {
            Err(error) => Err(error),
            Ok(trayt) => match context.traits.resolved(statement.name@, module.name@) {
                None => Err(context.traits.no_resolution(statement.name@)),
                Some(id) => Ok(
                    ContextView {
                        traits: context.traits.replaced(
                            id,
                            TraitView { interface: context.traits.items[id].interface, ..trayt },
                        ),
                        ..context
                    },
                ),
            },
        }
}

/// The context after the let that makes the values of a module was
/// declared, with the place that the struct or class of the module takes
/// in the context: a module with a struct gets a struct with its fields, one
/// with a class and no struct gets a class with its dependencies, both
/// without definitions yet, and another module gets nothing.
pub open spec fn with_constructor(context: ContextView, module: ModuleStatement) -> Result<
    (ContextView, usize),
    ErrorView,
> {
    if module.strukt is Some {
        match context.interfaces.resolved(module.name@, ""@) {
            None => Err(context.interfaces.no_resolution(module.name@)),
            Some(iface) => {
                let id = context.structs.len() as usize;
                let fields = fields_view(module.strukt->0.fields@);
                let interface = module_type(context.signatures(), iface);
                match context.lets.declared(
                    module.name@,
                    LetView {
                        inputs: raw_inputs(fields),
                        output: interface,
                        evaluation: EvaluationView::StructConstructor(id),
                    },
                ) {
                    Err(error) => Err(error),
                    Ok(lets) => Ok(
                        (
                            ContextView {
                                lets,
                                structs: context.structs.push(
                                    StructView {
                                        fields,
                                        definitions: Seq::empty(),
                                        defaults: Seq::empty(),
                                        id,
                                        interface,
                                    },
                                ),
                                ..context
                            },
                            id,
                        ),
                    ),
                }
            },
        }
    } else if module.class is Some {
        match context.interfaces.resolved(module.name@, ""@) {
            None => Err(context.interfaces.no_resolution(module.name@)),
            Some(iface) => match analysed_signature(
                module.class->0.dependencies@,
                context.signatures(),
                module.name@,
            ) {
                Err(error) => Err(error),
                Ok(dependencies) => {
                    let id = context.classes.len() as usize;
                    let interface = module_type(context.signatures(), iface);
                    match context.lets.declared(
                        module.name@,
                        LetView {
                            inputs: dependencies,
                            output: interface,
                            evaluation: EvaluationView::ClassConstructor(id),
                        },
                    ) {
                        Err(error) => Err(error),
                        Ok(lets) => Ok(
                            (
                                ContextView {
                                    lets,
                                    classes: context.classes.push(
                                        ClassView {
                                            dependencies,
                                            definitions: Seq::empty(),
                                            defaults: Seq::empty(),
                                            id,
                                            interface,
                                        },
                                    ),
                                    ..context
                                },
                                id,
                            ),
                        ),
                    }
                },
            },
        }
    } else {
        Ok((context, 0))
    }
}

/// The context after the signatures of the traits of a module were
/// finished, the signatures of its lets declared, and the let that makes
/// its values; with the place of its struct or class in the context.
pub open spec fn module_signatures(context: ContextView, module: ModuleStatement) -> Result<
    (ContextView, usize),
    ErrorView,
> {
    match folded(module.traits@, module.traits@.len() as int, context, trait_step(module, false)) {
        Err(error) => Err(error),
        Ok(with_traits) => match folded(
            module.lets@,
            module.lets@.len() as int,
            with_traits,
            let_step(module.name@, true),
        ) {
            Err(error) => Err(error),
            Ok(with_lets) => with_constructor(with_lets, module),
        },
    }
}

/// A context, and the place in it of the struct or class of each module
/// that was gone through.
pub struct Placed {
    pub context: ContextView,
    pub slots: Seq<usize>,
}

/// Declares the signatures of a module, and notes the place of its struct
/// or class.
pub open spec fn module_signatures_step() -> spec_fn(Placed, int, ModuleStatement) -> Result<
    Placed,
    ErrorView,
> {
    |state: Placed, place: int, module: ModuleStatement|
        match module_signatures(state.context, module) {
            Err(error) => Err(error),
            Ok((context, slot)) => Ok(Placed { context, slots: state.slots.push(slot) }),
        }
}

/// The context after the signatures of all lets and traits were declared:
/// those of the global lets first, then module by module.
pub open spec fn declared_signatures(ast: AbstractSyntaxTree, context: ContextView) -> Result<
    Placed,
    ErrorView,
> {
    match folded(ast.lets@, ast.lets@.len() as int, context, let_step(""@, false)) {
        Err(error) => Err(error),
        Ok(globals) => folded(
            ast.mods@,
            ast.mods@.len() as int,
            Placed { context: globals, slots: Seq::empty() },
            module_signatures_step(),
        ),
    }
}

/// Gives every trait of a module for which the module writes a def that
/// can stand alone that def as its default definition.
pub open spec fn module_defaults_step() -> spec_fn(ContextView, int, ModuleStatement) -> Result<
    ContextView,
    ErrorView,
> {
    |context: ContextView, place: int, module: ModuleStatement|
        folded(module.traits@, module.traits@.len() as int, context, trait_step(module, true))
}

/// The context after the default definitions of all traits were analysed.
pub open spec fn with_defaults(mods: Seq<ModuleStatement>, context: ContextView) -> Result<
    ContextView,
    ErrorView,
> {
    folded(mods, mods.len() as int, context, module_defaults_step())
}

/// Gives the let that the statement is written for its body.
pub open spec fn body_step(path: Seq<char>) -> spec_fn(ContextView, int, LetStatement) -> Result<
    ContextView,
    ErrorView,
> {
    |context: ContextView, place: int, statement: LetStatement|
        match body_write(statement, path, context.signatures()) {
            Err(error) => Err(error),
            Ok((id, body)) => Ok(
                ContextView {
                    lets: context.lets.replaced(
                        id,
                        LetView { evaluation: body, ..context.lets.items[id] },
                    ),
                    ..context
                },
            ),
        }
}

/// The context after the bodies of the lets of a module were analysed,
/// and the definitions of its struct or class, which stands at `slot`.
pub open spec fn module_bodies(context: ContextView, module: ModuleStatement, slot: usize) -> Result<
    ContextView,
    ErrorView,
> {
    match folded(module.lets@, module.lets@.len() as int, context, body_step(module.name@)) {
        Err(error) => Err(error),
        Ok(with_lets) => if module.strukt is Some {
            match analysed_struct(module, with_lets.signatures(), slot) {
                Err(error) => Err(error),
                Ok(strukt) => Ok(
                    ContextView {
                        structs: with_lets.structs.update(slot as int, strukt),
                        ..with_lets
                    },
                ),
            }
        } else if module.class is Some {
            match analysed_class(module, with_lets.signatures(), slot) {
                Err(error) => Err(error),
                Ok(class) => Ok(
                    ContextView {
                        classes: with_lets.classes.update(slot as int, class),
                        ..with_lets
                    },
                ),
            }
        } else {
            Ok(with_lets)
        },
    }
}

/// Analyses the bodies of a module, whose struct or class stands at the
/// place that `slots` gives for it.
pub open spec fn module_bodies_step(slots: Seq<usize>) -> spec_fn(
    ContextView,
    int,
    ModuleStatement,
) -> Result<ContextView, ErrorView> {
    |context: ContextView, place: int, module: ModuleStatement|
        module_bodies(context, module, slots[place])
}

/// The context after the bodies of all lets and the definitions of all
/// structs and classes were analysed: the global lets first, then module by
/// module.
pub open spec fn with_bodies(ast: AbstractSyntaxTree, slots: Seq<usize>, context: ContextView)
    -> Result<ContextView, ErrorView> {
    match folded(ast.lets@, ast.lets@.len() as int, context, body_step(""@)) {
        Err(error) => Err(error),
        Ok(globals) => folded(
            ast.mods@,
            ast.mods@.len() as int,
            globals,
            module_bodies_step(slots),
        ),
    }
}

/// What the analysis makes of a program. The names of the traits and
/// interfaces are declared, the interfaces are filled, automatic
/// definitions are propagated through them, and the trait of each module's
/// own name gets the interface as its output type. Then the signatures of all
/// lets and traits are declared, and the default definitions of the traits
/// are analysed. Last the bodies of the lets and the definitions of the
/// structs and classes are analysed. The first step that fails gives its
/// error.
pub open spec fn analysed_program(ast: AbstractSyntaxTree) -> Result<ContextView, ErrorView> {
    match declared_names(ast.mods@, ContextView::empty()) {
        Err(error) => Err(error),
        Ok(named) => match filled_interfaces(ast.mods@, named) {
            Err(error) => Err(error),
            Ok(filled) => match with_eponymous(
                ast.mods@,
                ContextView {
                    interfaces: propagated_interfaces(filled.traits, filled.interfaces),
                    ..filled
                },
            ) {
                Err(error) => Err(error),
                Ok(spread) => match declared_signatures(ast, spread) {
                    Err(error) => Err(error),
                    Ok(placed) => match with_defaults(ast.mods@, placed.context) {
                        Err(error) => Err(error),
                        Ok(signed) => with_bodies(ast, placed.slots, signed),
                    },
                },
            },
        },
    }
}

} // verus!
