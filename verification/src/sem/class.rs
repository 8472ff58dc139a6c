//! Classes: values made of dependencies.

use crate::ast::module_statement::ModuleStatement;
use crate::ast::type_statement::RawType;
use crate::error::CResult;
use crate::ast::def_statement::DefStatement;
use crate::ast::view::FieldsView;
use crate::error::ErrorView;
use crate::sem::evaluation::analysed;
use crate::sem::evaluation::eval_view;
use crate::sem::evaluation::Bounds;
use crate::sem::evaluation::EvaluationView;
use crate::sem::semantic_analyser::locals_view;
use crate::sem::semantic_analyser::LocalsView;
use crate::sem::semantic_analyser::ScopeView;
use crate::sem::semantic_analyser::Signatures;
use crate::sem::typ::analysed_signature;
use crate::sem::type_checking::contains;
use crate::sem::type_coercion::fit_type;
use crate::sem::type_coercion::fitted;
use crate::sem::evaluation::typed;
use crate::sem::typ::resolve_self_types;
use crate::sem::typ::with_self;
use crate::sem::type_checking::fits;
use crate::sem::evaluation::Evaluation;
use crate::sem::lett::Let;
use crate::sem::semantic_analyser::copy_locals;
use crate::sem::semantic_analyser::SemanticContext;
use crate::sem::semantic_analyser::SemanticScope;
use crate::sem::trayt::holds;
use crate::sem::trayt::interface_type;
use crate::sem::trayt::trait_types;
use crate::sem::trayt::Interface;
use crate::sem::typ::analyse_parameters;
use crate::sem::typ::analysed_parameters;
use crate::sem::typ::typed_parameters;
use crate::sem::type_checking::type_contains;
use crate::text::same_text;
use vstd::string::StringExecFns;
use crate::sem::typ::combined;
use crate::sem::typ::Type;
use vstd::prelude::*;

verus! {

// A class has a set of dependencies of certain types, and a set of trait definitions.
#[derive(Debug)]
pub struct Class {
    pub dependencies: Vec<(String, Type)>,
    /// The definitions that the module gives, each with its trait.
    pub definitions: Vec<(usize, Evaluation)>,
    /// The traits that the class has by their default definition.
    pub defaults: Vec<usize>,
    /// The place of the class among the classes of its context.
    pub id: usize,
    /// The type of the values of the class: the interface of its module.
    pub interface: Type,
}

/// The traits that have a definition, given or by default, in the order in
/// which a call looks for them.
pub open spec fn defined_traits(definitions: Seq<(usize, Evaluation)>, defaults: Seq<usize>) -> Seq<
    usize,
> {
    Seq::new(definitions.len(), |i: int| definitions[i].0) + defaults
}

/// The traits that have a definition, given or by default.
pub fn defined_traits_of(definitions: &Vec<(usize, Evaluation)>, defaults: &Vec<usize>) -> (r: Vec<
    usize,
>)
    ensures
        r@ == defined_traits(definitions@, defaults@),
{
    let mut out: Vec<usize> = Vec::new();
    let mut i: usize = 0;
    while i < definitions.len()
        invariant
            i <= definitions.len(),
            out@ == Seq::new(i as nat, |k: int| definitions@[k].0),
        decreases definitions.len() - i,
    {
        out.push(definitions[i].0);
        assert(out@ =~= Seq::new((i + 1) as nat, |k: int| definitions@[k].0));
        i += 1;
    }
    let mut j: usize = 0;
    while j < defaults.len()
        invariant
            j <= defaults.len(),
            out@ == Seq::new(definitions@.len(), |k: int| definitions@[k].0) + defaults@.subrange(
                0,
                j as int,
            ),
        decreases defaults.len() - j,
    {
        out.push(defaults[j]);
        assert(out@ =~= Seq::new(definitions@.len(), |k: int| definitions@[k].0)
            + defaults@.subrange(0, j + 1));
        j += 1;
    }
    assert(defaults@.subrange(0, j as int) == defaults@);
    out
}

/// Every definition is for a trait of the context, and its body lies
/// within the bounds.
pub open spec fn definitions_within(definitions: Seq<(usize, Evaluation)>, bounds: Bounds) -> bool {
    forall|i: int|
        0 <= i < definitions.len() ==> (#[trigger] definitions[i]).0 < bounds.traits
            && definitions[i].1.within(bounds)
}

/// Whether a definition is given for the trait.
pub open spec fn defines(definitions: Seq<(usize, Evaluation)>, trayt: usize) -> bool {
    exists|i: int| 0 <= i < definitions.len() && (#[trigger] definitions[i]).0 == trayt
}

/// Whether a definition is given for the trait.
pub fn is_defined(definitions: &Vec<(usize, Evaluation)>, trayt: usize) -> (r: bool)
    ensures
        r == defines(definitions@, trayt),
{
    let mut i: usize = 0;
    while i < definitions.len()
        invariant
            i <= definitions.len(),
            forall|k: int| 0 <= k < i ==> (#[trigger] definitions@[k]).0 != trayt,
        decreases definitions.len() - i,
    {
        if definitions[i].0 == trayt {
            return true;
        }
        i += 1;
    }
    false
}

/// The traits of the first `upto` of the interface that a value gets by
/// default, in the order of the interface: those for which no definition is
/// given and that have a default definition.
pub open spec fn default_list(
    context: Signatures,
    interface: Seq<usize>,
    definitions: Seq<(usize, EvaluationView)>,
    upto: int,
) -> Seq<usize>
    decreases upto,
{
    if upto <= 0 {
        Seq::empty()
    } else {
        let rest = default_list(context, interface, definitions, upto - 1);
        let trayt = interface[upto - 1];
        if !defines_view(definitions, trayt) && trayt < context.traits.items.len()
            && context.traits.items[trayt as int].default_definition is Some {
            rest.push(trayt)
        } else {
            rest
        }
    }
}

/// Whether a definition is given for the trait.
pub open spec fn defines_view(definitions: Seq<(usize, EvaluationView)>, trayt: usize) -> bool {
    exists|i: int| 0 <= i < definitions.len() && (#[trigger] definitions[i]).0 == trayt
}

/// Definitions as mathematical values.
pub open spec fn definitions_view(definitions: Seq<(usize, Evaluation)>) -> Seq<
    (usize, EvaluationView),
> {
    Seq::new(definitions.len(), |i: int| (definitions[i].0, eval_view(definitions[i].1)))
}

/// The traits of the interface that a value gets by default, in the order
/// of the interface.
pub fn default_traits(
    context: &SemanticContext,
    interface: &Interface,
    definitions: &Vec<(usize, Evaluation)>,
) -> (r: Vec<usize>)
    ensures
        r@ == default_list(
            context.signatures(),
            interface@,
            definitions_view(definitions@),
            interface@.len() as int,
        ),
        all_defaults(r@, *context, definitions@),
{
    let mut out: Vec<usize> = Vec::new();
    let mut i: usize = 0;
    while i < interface.len()
        invariant
            i <= interface.len(),
            out@ == default_list(
                context.signatures(),
                interface@,
                definitions_view(definitions@),
                i as int,
            ),
            all_defaults(out@, *context, definitions@),
        decreases interface.len() - i,
    {
        let trayt = interface[i];
        proof {
            if defines(definitions@, trayt) {
                let k = choose|k: int|
                    0 <= k < definitions@.len() && (#[trigger] definitions@[k]).0 == trayt;
                assert(definitions_view(definitions@)[k].0 == trayt);
            }
            if defines_view(definitions_view(definitions@), trayt) {
                let k = choose|k: int|
                    0 <= k < definitions_view(definitions@).len() && (
                    #[trigger] definitions_view(definitions@)[k]).0 == trayt;
                assert(definitions@[k].0 == trayt);
            }
        }
        // Skip if the trait has already been defined.
        if !is_defined(definitions, trayt) && trayt < context.traits.len()
            && context.traits.get(trayt).default_definition.is_some() {
            out.push(trayt);
        }
        i += 1;
    }
    out
}

/// Every trait of the list is a trait of the context that has a default
/// definition and for which no definition is given.
pub open spec fn all_defaults(
    defaults: Seq<usize>,
    context: SemanticContext,
    definitions: Seq<(usize, Evaluation)>,
) -> bool {
    forall|k: int|
        0 <= k < defaults.len() ==> (#[trigger] defaults[k]) < context.traits.items@.len()
            && context.traits.items@[defaults[k] as int].1.default_definition is Some && !defines(
            definitions,
            defaults[k],
        )
}

/// The locals through which a def reaches the fields of a local of its
/// own struct: for each field, a local named by the name of the local, a
/// dot and the name of the field, of the field's raw type.
pub open spec fn field_locals(local: Seq<char>, fields: FieldsView, upto: int) -> LocalsView {
    Seq::new(upto as nat, |f: int| (local + "."@ + fields[f].0, Type::Raw(fields[f].1)))
}

/// Whether a later local has the name of the local at `at`.
pub open spec fn later_named(locals: LocalsView, at: int) -> bool {
    exists|j: int| at < j < locals.len() && (#[trigger] locals[j]).0 == locals[at].0
}

/// The locals through which a def reaches the fields of other values of
/// its own struct, for the first `upto` locals: the field locals of each
/// local that counts for its name and whose type holds `Self`.
pub open spec fn friendly(locals: LocalsView, fields: FieldsView, upto: int) -> LocalsView
    decreases upto,
{
    if upto <= 0 {
        Seq::empty()
    } else {
        let rest = friendly(locals, fields, upto - 1);
        if !later_named(locals, upto - 1) && contains(locals[upto - 1].1, Type::Zelf) {
            rest + field_locals(locals[upto - 1].0, fields, fields.len() as int)
        } else {
            rest
        }
    }
}

/// The locals through which a def reaches the fields of another value of
/// its own struct: for each local whose type holds `Self`, and each field, a
/// local named by the two names with a dot between them, of the field's raw
/// type.
pub fn friendly_locals(locals: &Vec<(String, Type)>, fields: &Vec<(String, RawType)>) -> (r: Vec<
    (String, Type),
>)
    ensures
        locals_view(r@) == friendly(
            locals_view(locals@),
            crate::ast::view::fields_view(fields@),
            locals@.len() as int,
        ),
{
    let ghost names = locals_view(locals@);
    let ghost raws = crate::ast::view::fields_view(fields@);
    let mut out: Vec<(String, Type)> = Vec::new();
    let mut i: usize = 0;
    assert(locals_view(out@) =~= friendly(names, raws, 0));
    while i < locals.len()
        invariant
            i <= locals.len(),
            names == locals_view(locals@),
            raws == crate::ast::view::fields_view(fields@),
            locals_view(out@) == friendly(names, raws, i as int),
        decreases locals.len() - i,
    {
        // Only the entry that counts for its name is looked at.
        let mut shadowed = false;
        let mut j: usize = i + 1;
        while j < locals.len()
            invariant
                i < j <= locals.len(),
                names == locals_view(locals@),
                shadowed == exists|k: int| i < k < j && (#[trigger] names[k]).0 == names[i as int].0,
            decreases locals.len() - j,
        {
            if same_text(locals[j].0.as_str(), locals[i].0.as_str()) {
                assert(names[j as int].0 == names[i as int].0);
                shadowed = true;
            }
            j += 1;
        }
        if !shadowed && type_contains(&locals[i].1, &Type::Zelf) {
            let ghost before = locals_view(out@);
            let mut f: usize = 0;
            assert(before + field_locals(names[i as int].0, raws, 0) =~= before);
            while f < fields.len()
                invariant
                    f <= fields.len(),
                    i < locals.len(),
                    names == locals_view(locals@),
                    raws == crate::ast::view::fields_view(fields@),
                    locals_view(out@) == before + field_locals(names[i as int].0, raws, f as int),
                decreases fields.len() - f,
            {
                let mut name = locals[i].0.clone();
                name.append(".");
                name.append(fields[f].0.as_str());
                let ghost entry = (name@, Type::Raw(fields@[f as int].1));
                let ghost done = locals_view(out@);
                out.push((name, Type::Raw(fields[f].1)));
                proof {
                    assert(names[i as int].0 == locals@[i as int].0@);
                    assert(raws[f as int] == (fields@[f as int].0@, fields@[f as int].1));
                    assert(entry.0 == names[i as int].0 + "."@ + raws[f as int].0);
                    assert(field_locals(names[i as int].0, raws, f + 1) =~= field_locals(
                        names[i as int].0,
                        raws,
                        f as int,
                    ).push(entry));
                    assert(locals_view(out@) =~= done.push(entry));
                    assert(done.push(entry) =~= before + field_locals(
                        names[i as int].0,
                        raws,
                        f as int,
                    ).push(entry));
                }
                f += 1;
            }
        }
        i += 1;
    }
    out
}

/// The locals among which a def is analysed: the fields or dependencies of
/// the value, the inputs of the trait and, for a struct, the locals that
/// reach the fields of other values of the struct.
pub open spec fn def_locals(members: LocalsView, inputs: LocalsView, fields: Option<FieldsView>)
    -> LocalsView {
    let base = members + inputs;
    match fields {
        Some(fields) => base + friendly(base, fields, base.len() as int),
        None => base,
    }
}

/// The type of the values of a module: its interface.
pub open spec fn module_type(context: Signatures, iface: int) -> Type {
    combined(trait_types(context.interfaces.items[iface]))
}

/// The scope in which a def is analysed.
pub open spec fn def_scope(
    context: Signatures,
    path: Seq<char>,
    members: LocalsView,
    fields: Option<FieldsView>,
    iface: int,
    trayt: int,
) -> ScopeView {
    ScopeView {
        context,
        path,
        locals: def_locals(members, context.traits.items[trayt].inputs, fields),
        zelf: Some(module_type(context, iface)),
    }
}

/// The type that a definition of the trait must have in a module: the
/// output type of the trait, with the module's interface in the place of
/// `Self`.
pub open spec fn def_output(context: Signatures, iface: int, trayt: int) -> Type {
    with_self(context.traits.items[trayt].output, module_type(context, iface))
}

/// The definition that a def stands for in its module: the trait that its
/// name resolves to from the module, and its expression analysed among the
/// locals of the def, inside the module's interface as `Self`, and coerced
/// to the type that a definition of the trait must have. An expression whose
/// type does not fit that type even then is a mismatch, reported over the
/// expression under the name of the def.
pub open spec fn analysed_definition(
    def: DefStatement,
    context: Signatures,
    path: Seq<char>,
    members: LocalsView,
    fields: Option<FieldsView>,
    iface: int,
) -> Result<(usize, EvaluationView), ErrorView> {
    match context.traits.resolved(def.name@, path) {
        None => Err(context.traits.no_resolution(def.name@)),
        Some(trayt) => {
            let scope = def_scope(context, path, members, fields, iface, trayt);
            let expected = def_output(context, iface, trayt);
            match analysed(def.expr, scope) {
                Err(error) => Err(error),
                Ok(eval) => match fitted(def.name@, def.expr.token_range, expected, eval, scope) {
                    Err(error) => Err(error),
                    Ok(eval) => Ok((trayt as usize, eval)),
                },
            }
        },
    }
}

/// Every definition fits: the expression that is stored for a def has a
/// type, and that type fits the output type of the trait that the def is
/// written for, with the module's interface in the place of `Self`.
pub proof fn lemma_fitting_definition(
    def: DefStatement,
    context: Signatures,
    path: Seq<char>,
    members: LocalsView,
    fields: Option<FieldsView>,
    iface: int,
)
    requires
        analysed_definition(def, context, path, members, fields, iface) is Ok,
    ensures
        ({
            let definition = analysed_definition(def, context, path, members, fields, iface)->Ok_0;
            let trayt = context.traits.resolved(def.name@, path);
            let given = typed(
                definition.1,
                context,
                def_scope(context, path, members, fields, iface, trayt->0).locals,
                Some(module_type(context, iface)),
            );
            &&& trayt is Some
            &&& definition.0 == trayt->0 as usize
            &&& given is Ok
            &&& fits(given->Ok_0, def_output(context, iface, trayt->0))
        }),
{
}

/// Every definition of a module fits: each of the definitions that the
/// defs stand for is the definition of the def at its place.
pub proof fn lemma_definitions_fit(
    defs: Seq<DefStatement>,
    context: Signatures,
    path: Seq<char>,
    members: LocalsView,
    fields: Option<FieldsView>,
    iface: int,
    k: int,
)
    requires
        analysed_definitions(defs, context, path, members, fields, iface) is Ok,
        0 <= k < defs.len(),
    ensures
        ({
            let definitions = analysed_definitions(defs, context, path, members, fields, iface)->Ok_0;
            let trayt = context.traits.resolved(defs[k].name@, path);
            let given = typed(
                definitions[k].1,
                context,
                def_scope(context, path, members, fields, iface, trayt->0).locals,
                Some(module_type(context, iface)),
            );
            &&& definitions.len() == defs.len()
            &&& trayt is Some
            &&& definitions[k].0 == trayt->0 as usize
            &&& given is Ok
            &&& fits(given->Ok_0, def_output(context, iface, trayt->0))
        }),
    decreases defs.len(),
{
    lemma_definitions_len(defs, context, path, members, fields, iface);
    if k == defs.len() - 1 {
        lemma_fitting_definition(defs.last(), context, path, members, fields, iface);
    } else {
        lemma_definitions_len(defs.drop_last(), context, path, members, fields, iface);
        lemma_definitions_fit(defs.drop_last(), context, path, members, fields, iface, k);
    }
}

/// There is one definition for each def.
pub proof fn lemma_definitions_len(
    defs: Seq<DefStatement>,
    context: Signatures,
    path: Seq<char>,
    members: LocalsView,
    fields: Option<FieldsView>,
    iface: int,
)
    requires
        analysed_definitions(defs, context, path, members, fields, iface) is Ok,
    ensures
        analysed_definitions(defs, context, path, members, fields, iface)->Ok_0.len() == defs.len(),
    decreases defs.len(),
{
    if defs.len() > 0 {
        lemma_definitions_len(defs.drop_last(), context, path, members, fields, iface);
    }
}

/// The definitions that the defs stand for, in order; the first def that
/// cannot be analysed gives the error.
pub open spec fn analysed_definitions(
    defs: Seq<DefStatement>,
    context: Signatures,
    path: Seq<char>,
    members: LocalsView,
    fields: Option<FieldsView>,
    iface: int,
) -> Result<Seq<(usize, EvaluationView)>, ErrorView>
    decreases defs.len(),
{
    if defs.len() == 0 {
        Ok(Seq::empty())
    } else {
        match analysed_definitions(defs.drop_last(), context, path, members, fields, iface) {
            Err(error) => Err(error),
            Ok(done) => match analysed_definition(
                defs.last(),
                context,
                path,
                members,
                fields,
                iface,
            ) {
                Err(error) => Err(error),
                Ok(definition) => Ok(done.push(definition)),
            },
        }
    }
}

/// An error among the first defs is the error of all defs.
pub proof fn lemma_definitions_error(
    defs: Seq<DefStatement>,
    context: Signatures,
    path: Seq<char>,
    members: LocalsView,
    fields: Option<FieldsView>,
    iface: int,
    upto: int,
)
    requires
        0 <= upto <= defs.len(),
        analysed_definitions(defs.subrange(0, upto), context, path, members, fields, iface) is Err,
    ensures
        analysed_definitions(defs, context, path, members, fields, iface) == analysed_definitions(
            defs.subrange(0, upto),
            context,
            path,
            members,
            fields,
            iface,
        ),
    decreases defs.len() - upto,
{
    if upto < defs.len() {
        assert(defs.subrange(0, upto + 1).drop_last() == defs.subrange(0, upto));
        lemma_definitions_error(defs, context, path, members, fields, iface, upto + 1);
    } else {
        assert(defs.subrange(0, upto) == defs);
    }
}

/// The definitions of the value of a module and the traits that it gets
/// by default.
pub open spec fn module_definitions(
    module: ModuleStatement,
    context: Signatures,
    members: LocalsView,
    fields: Option<FieldsView>,
) -> Result<(Seq<(usize, EvaluationView)>, Seq<usize>), ErrorView> {
    match context.interfaces.resolved(module.name@, ""@) {
        None => Err(context.interfaces.no_resolution(module.name@)),
        Some(iface) => match analysed_definitions(
            module.defs@,
            context,
            module.name@,
            members,
            fields,
            iface,
        ) {
            Err(error) => Err(error),
            Ok(definitions) => Ok(
                (
                    definitions,
                    default_list(
                        context,
                        context.interfaces.items[iface],
                        definitions,
                        context.interfaces.items[iface].len() as int,
                    ),
                ),
            ),
        },
    }
}

/// The fields that may be there as mathematical values.
pub open spec fn option_fields(fields: Option<&Vec<(String, RawType)>>) -> Option<FieldsView> {
    match fields {
        Some(fields) => Some(crate::ast::view::fields_view(fields@)),
        None => None,
    }
}

/// Analyses the defs of a module for a value with the given fields or
/// dependencies as locals: each def among these locals, the inputs of its
/// trait and, for a struct, the fields of other values of the struct, inside
/// the module's interface as `Self`, its result coerced to the output type
/// of the trait. Gives the definitions in the order of the defs, and the
/// traits that the value gets by default.
#[verifier::rlimit(50)]
pub fn analyse_definitions(
    module_statement: &ModuleStatement,
    context: &SemanticContext,
    members: &Vec<(String, Type)>,
    fields: Option<&Vec<(String, RawType)>>,
) -> (r: CResult<(Vec<(usize, Evaluation)>, Vec<usize>)>)
    ensures
        match module_definitions(
            *module_statement,
            context.signatures(),
            locals_view(members@),
            option_fields(fields),
        ) {
            Ok((definitions, defaults)) => r matches Ok(found) && definitions_view(found.0@)
                == definitions && found.1@ == defaults,
            Err(error) => r matches Err(e) && e@ == error,
        },
        r matches Ok((definitions, defaults)) ==> {
            &&& definitions@.len() == module_statement.defs@.len()
            &&& definitions_within(definitions@, context.bounds())
            &&& all_defaults(defaults@, *context, definitions@)
        },
{
    let ghost sig = context.signatures();
    let path = module_statement.name.as_str();
    let interface = context.interfaces.resolve(path, "")?;
    let self_type = interface_type(context.interfaces.get(interface));

    let mut definitions: Vec<(usize, Evaluation)> = Vec::new();
    let mut d: usize = 0;
    assert(module_statement.defs@.subrange(0, 0) == Seq::<DefStatement>::empty());
    assert(definitions_view(definitions@) =~= Seq::<(usize, EvaluationView)>::empty());
    while d < module_statement.defs.len()
        invariant
            d <= module_statement.defs.len(),
            definitions@.len() == d,
            definitions_within(definitions@, context.bounds()),
            path@ == module_statement.name@,
            sig == context.signatures(),
            interface < context.interfaces.items@.len(),
            context.interfaces.resolved(module_statement.name@, ""@) == Some(interface as int),
            self_type == module_type(sig, interface as int),
            analysed_definitions(
                module_statement.defs@.subrange(0, d as int),
                sig,
                path@,
                locals_view(members@),
                option_fields(fields),
                interface as int,
            ) == Ok::<Seq<(usize, EvaluationView)>, ErrorView>(definitions_view(definitions@)),
        decreases module_statement.defs.len() - d,
    {
        let def_statement = &module_statement.defs[d];
        proof {
            assert(module_statement.defs@.subrange(0, d + 1).drop_last()
                == module_statement.defs@.subrange(0, d as int));
        }
        let ghost done = definitions_view(definitions@);
        match analyse_definition(def_statement, context, path, members, fields, interface) {
            Ok((trayt, evaluation)) => {
                let ghost view = (trayt, eval_view(evaluation));
                definitions.push((trayt, evaluation));
                assert(definitions_view(definitions@) =~= done.push(view));
            },
            Err(e) => {
                proof {
                    lemma_definitions_error(
                        module_statement.defs@,
                        sig,
                        path@,
                        locals_view(members@),
                        option_fields(fields),
                        interface as int,
                        d + 1,
                    );
                }
                return Err(e);
            },
        }
        d += 1;
    }
    assert(module_statement.defs@.subrange(0, d as int) == module_statement.defs@);

    // Add automatic definitions from other modules.
    let defaults = default_traits(context, context.interfaces.get(interface), &definitions);

    Ok((definitions, defaults))
}

/// Analyses one def of a module.
fn analyse_definition(
    def_statement: &DefStatement,
    context: &SemanticContext,
    path: &str,
    members: &Vec<(String, Type)>,
    fields: Option<&Vec<(String, RawType)>>,
    interface: usize,
) -> (r: CResult<(usize, Evaluation)>)
    requires
        interface < context.interfaces.items@.len(),
    ensures
        match analysed_definition(
            *def_statement,
            context.signatures(),
            path@,
            locals_view(members@),
            option_fields(fields),
            interface as int,
        ) {
            Ok((trayt, eval)) => r matches Ok(found) && found.0 == trayt && eval_view(found.1)
                == eval,
            Err(error) => r matches Err(e) && e@ == error,
        },
        r matches Ok(found) ==> found.0 < context.traits.items@.len() && found.1.within(
            context.bounds(),
        ),
{
    let trayt = context.traits.resolve(def_statement.name.as_str(), path)?;

    let mut locals = copy_locals(members);
    let mut inputs = copy_locals(&context.traits.get(trayt).inputs);
    let ghost base = locals_view(members@) + locals_view(inputs@);
    locals.append(&mut inputs);
    assert(locals_view(locals@) =~= base);

    // Add friendly fields to locals, by checking all locals that are of the Self type.
    match fields {
        Some(fields) => {
            let mut friendly = friendly_locals(&locals, fields);
            let ghost more = locals_view(friendly@);
            locals.append(&mut friendly);
            assert(locals_view(locals@) =~= base + more);
        },
        None => {},
    }

    let self_type = interface_type(context.interfaces.get(interface));
    let expected = resolve_self_types(context.traits.get(trayt).output.clone(), &self_type);
    let scope = SemanticScope { context, path, locals, zelf: Some(self_type) };

    let evaluation = Evaluation::analyse(&def_statement.expr, &scope)?;
    // What the def gives must be what the trait promises.
    let evaluation = fit_type(
        def_statement.name.as_str(),
        def_statement.expr.token_range,
        &expected,
        evaluation,
        &scope,
    )?;

    Ok((trayt, evaluation))
}

/// A class as a mathematical value.
pub struct ClassView {
    pub dependencies: LocalsView,
    pub definitions: Seq<(usize, EvaluationView)>,
    pub defaults: Seq<usize>,
    pub id: usize,
    pub interface: Type,
}

impl View for Class {
    type V = ClassView;

    open spec fn view(&self) -> ClassView {
        ClassView {
            dependencies: locals_view(self.dependencies@),
            definitions: definitions_view(self.definitions@),
            defaults: self.defaults@,
            id: self.id,
            interface: self.interface,
        }
    }
}

/// The class that a module with a class stands for: the dependencies with
/// their types, the definitions that the module gives, the traits that the
/// class gets by default, and the interface of the module as its type.
pub open spec fn analysed_class(module: ModuleStatement, context: Signatures, id: usize) -> Result<
    ClassView,
    ErrorView,
> {
    match analysed_signature(module.class->0.dependencies@, context, module.name@) {
        Err(error) => Err(error),
        Ok(dependencies) => match module_definitions(module, context, dependencies, None) {
            Err(error) => Err(error),
            Ok((definitions, defaults)) => Ok(
                ClassView {
                    dependencies,
                    definitions,
                    defaults,
                    id,
                    interface: module_type(
                        context,
                        context.interfaces.resolved(module.name@, ""@)->0,
                    ),
                },
            ),
        },
    }
}

impl Class {
    /// The inputs of the constructor: the dependencies with their types.
    pub fn constructor_inputs(module_statement: &ModuleStatement, context: &SemanticContext) -> (r:
        CResult<Vec<(String, Type)>>)
        requires
            module_statement.class is Some,
        ensures
            match analysed_parameters(
                module_statement.class->0.dependencies@,
                context.signatures(),
                module_statement.name@,
            ) {
                Ok(types) => r matches Ok(out) && typed_parameters(
                    module_statement.class->0.dependencies@,
                    types,
                    out@,
                ),
                Err(fault) => r matches Err(e) && fault.reported_by(e),
            },
            match analysed_signature(
                module_statement.class->0.dependencies@,
                context.signatures(),
                module_statement.name@,
            ) {
                Ok(inputs) => r matches Ok(out) && locals_view(out@) == inputs,
                Err(error) => r matches Err(e) && e@ == error,
            },
    {
        match &module_statement.class {
            Some(class) => analyse_parameters(
                &class.dependencies,
                context,
                module_statement.name.as_str(),
            ),
            None => vstd::pervasive::unreached(),
        }
    }

    /// Analyses the class of a module: its dependencies, the definitions
    /// that the module gives and the traits that it gets by default. `id` is
    /// the place that the class takes among the classes of the context.
    pub fn analyse(module_statement: &ModuleStatement, context: &SemanticContext, id: usize) -> (r:
        CResult<Self>)
        requires
            module_statement.class is Some,
        ensures
            r matches Ok(class) ==> {
                &&& class.id == id
                &&& context.interfaces.resolved(module_statement.name@, ""@) matches Some(iface)
                    && class.interface == combined(
                    trait_types(context.interfaces.items@[iface].1@),
                )
                &&& analysed_parameters(
                    module_statement.class->0.dependencies@,
                    context.signatures(),
                    module_statement.name@,
                ) matches Ok(types) && typed_parameters(
                    module_statement.class->0.dependencies@,
                    types,
                    class.dependencies@,
                )
                &&& class.definitions@.len() == module_statement.defs@.len()
                &&& definitions_within(class.definitions@, context.bounds())
                &&& all_defaults(class.defaults@, *context, class.definitions@)
            },
            match analysed_class(*module_statement, context.signatures(), id) {
                Ok(class) => r matches Ok(found) && found@ == class,
                Err(error) => r matches Err(e) && e@ == error,
            },
    {
        let dependencies = Self::constructor_inputs(module_statement, context)?;

        let (definitions, defaults) = analyse_definitions(
            module_statement,
            context,
            &dependencies,
            None,
        )?;

        let interface = context.interfaces.resolve(module_statement.name.as_str(), "")?;
        let class = Class {
            dependencies,
            definitions,
            defaults,
            id,
            interface: interface_type(context.interfaces.get(interface)),
        };

        Ok(class)
    }

    /// The let that makes a value of the class from its dependencies; its
    /// output type is that of the given interface.
    pub fn constructor(&self) -> (r: Let)
        ensures
            r.inputs@ == self.dependencies@,
            r.output == self.interface,
            r.evaluation == Evaluation::ClassConstructor(self.id),
    {
        Let {
            inputs: copy_locals(&self.dependencies),
            output: self.interface.clone(),
            evaluation: Evaluation::ClassConstructor(self.id),
        }
    }

    /// The type of the values of the class: the interface of its module.
    pub fn interface(&self) -> (r: Type)
        ensures
            r == self.interface,
    {
        self.interface.clone()
    }
}

} // verus!
