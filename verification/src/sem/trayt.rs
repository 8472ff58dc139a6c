//! Traits and interfaces.

use crate::ast::def_statement::DefStatement;
use crate::ast::module_statement::ModuleStatement;
use crate::ast::trait_statement::TraitStatement;
use crate::error::CResult;
use crate::error::ErrorView;
use crate::sem::evaluation::analysed;
use crate::sem::evaluation::EvaluationView;
use crate::sem::semantic_analyser::locals_view;
use crate::sem::semantic_analyser::LocalsView;
use crate::sem::semantic_analyser::ScopeView;
use crate::sem::typ::analysed_signature;
use crate::sem::evaluation::Evaluation;
use crate::sem::semantic_analyser::copy_locals;
use crate::sem::semantic_analyser::SemanticContext;
use crate::sem::semantic_analyser::Signatures;
use crate::sem::semantic_analyser::SemanticScope;
use crate::sem::typ::analyse_parameters;
use crate::sem::typ::analysed_parameters;
use crate::sem::typ::analysed_type;
use crate::sem::typ::typed_parameters;
use crate::sem::typ::TypeFault;
use crate::sem::evaluation::typed;
use crate::sem::typ::resolve_self_types;
use crate::sem::typ::with_self;
use crate::sem::type_checking::fits;
use crate::sem::type_coercion::fit_type;
use crate::sem::type_coercion::fitted;
use crate::text::same_text;
use crate::sem::typ::combine_types;
use crate::sem::typ::combined;
use crate::sem::typ::Type;
use vstd::pervasive::VecAdditionalExecFns;
use vstd::prelude::*;
use vstd::string::StringExecFns;

verus! {

/// A trait has input types and an output type. It can be defined on classes and structs.
#[derive(Debug)]
pub struct Trait {
    /// Used for raw operations and in messages.
    pub full_name: String,
    /// The interface of the module that declares the trait, by its place in
    /// the table of interfaces. Used to do automatic traits.
    pub interface: usize,
    pub inputs: Vec<(String, Type)>,
    pub output: Type,
    pub default_definition: Option<Evaluation>,
}

/// An interface is a set of traits, each named by its place in the table of
/// traits; no trait occurs twice.
pub type Interface = Vec<usize>;

/// The traits as types, in the same order.
pub open spec fn trait_types(interface: Seq<usize>) -> Seq<Type> {
    Seq::new(interface.len(), |i: int| Type::Trait(interface[i]))
}

/// The type of a value that has all traits of the interface.
pub fn interface_type(interface: &Interface) -> (r: Type)
    ensures
        r == combined(trait_types(interface@)),
{
    let mut types: Vec<Type> = Vec::new();
    let mut i: usize = 0;
    while i < interface.len()
        invariant
            i <= interface.len(),
            types@ == trait_types(interface@.subrange(0, i as int)),
        decreases interface.len() - i,
    {
        types.push(Type::Trait(interface[i]));
        assert(types@ =~= trait_types(interface@.subrange(0, i + 1)));
        i += 1;
    }
    assert(interface@.subrange(0, i as int) == interface@);
    combine_types(types)
}

/// The name of a trait or let of a module: the module's name, a backslash
/// and the short name.
pub open spec fn qualified(module: Seq<char>, name: Seq<char>) -> Seq<char> {
    module + "\\"@ + name
}

/// The name of a trait or let of a module.
pub fn qualified_name(module: &str, name: &str) -> (r: String)
    ensures
        r@ == qualified(module@, name@),
{
    let mut full = String::from_str(module);
    full.append("\\");
    full.append(name);
    full
}

/// Index of the first def that is written for the trait, by its short or
/// its full name, from `from` on.
pub open spec fn first_def(defs: Seq<DefStatement>, short: Seq<char>, full: Seq<char>, from: int)
    -> Option<int>
    decreases defs.len() - from,
{
    if !(0 <= from < defs.len()) {
        None
    } else if defs[from].name@ == short || defs[from].name@ == full {
        Some(from)
    } else {
        first_def(defs, short, full, from + 1)
    }
}

/// Looks for the def that is written for a trait.
pub fn find_def(defs: &Vec<DefStatement>, short: &str, full: &str) -> (r: Option<usize>)
    ensures
        match r {
            Some(i) => first_def(defs@, short@, full@, 0) == Some(i as int) && i < defs@.len(),
            None => first_def(defs@, short@, full@, 0) is None,
        },
{
    let mut i: usize = 0;
    while i < defs.len()
        invariant
            i <= defs.len(),
            first_def(defs@, short@, full@, 0) == first_def(defs@, short@, full@, i as int),
        decreases defs.len() - i,
    {
        if same_text(defs[i].name.as_str(), short) || same_text(defs[i].name.as_str(), full) {
            return Some(i);
        }
        i += 1;
    }
    None
}

/// A trait as a mathematical value.
pub struct TraitView {
    pub full_name: Seq<char>,
    pub interface: usize,
    pub inputs: LocalsView,
    pub output: Type,
    pub default_definition: Option<EvaluationView>,
}

impl View for Trait {
    type V = TraitView;

    open spec fn view(&self) -> TraitView {
        TraitView {
            full_name: self.full_name@,
            interface: self.interface,
            inputs: locals_view(self.inputs@),
            output: self.output,
            default_definition: match self.default_definition {
                Some(eval) => Some(eval@),
                None => None,
            },
        }
    }
}

/// The default definition of a trait: the def that its module writes for
/// it, by its short or its full name, analysed among the inputs of the trait
/// alone, inside the module's interface as `Self`, and coerced to the output
/// type of the trait, with the module's interface in the place of `Self`.
/// There is none where the module writes no def for the trait or the def
/// cannot be analysed so; a def that can, and whose type does not fit the
/// output type even when coerced, is a mismatch.
pub open spec fn default_of(
    statement: TraitStatement,
    module: ModuleStatement,
    context: Signatures,
    inputs: LocalsView,
    output: Type,
    iface: int,
) -> Result<Option<EvaluationView>, ErrorView> {
    match first_def(
        module.defs@,
        statement.name@,
        qualified(module.name@, statement.name@),
        0,
    ) {
        Some(i) => {
            let self_type = combined(trait_types(context.interfaces.items[iface]));
            let scope = ScopeView {
                context,
                path: module.name@,
                locals: inputs,
                zelf: Some(self_type),
            };
            match analysed(module.defs@[i].expr, scope) {
                Ok(eval) => match fitted(
                    module.defs@[i].name@,
                    module.defs@[i].expr.token_range,
                    with_self(output, self_type),
                    eval,
                    scope,
                ) {
                    Ok(eval) => Ok(Some(eval)),
                    Err(error) => Err(error),
                },
                Err(_) => Ok(None),
            }
        },
        None => Ok(None),
    }
}

/// The trait that a statement of a module stands for: the full name, the
/// module's interface as owner, the inputs, the output type, and the
/// default definition where one is asked for.
pub open spec fn analysed_trait(
    statement: TraitStatement,
    module: ModuleStatement,
    context: Signatures,
    with_default_definition: bool,
) -> Result<TraitView, ErrorView> {
    match analysed_signature(statement.parameters@, context, module.name@) {
        Err(error) => Err(error),
        Ok(inputs) => match context.interfaces.resolved(module.name@, ""@) {
            None => Err(context.interfaces.no_resolution(module.name@)),
            Some(iface) => match analysed_type(statement.output, context, module.name@) {
                Err(fault) => Err(fault.error()),
                Ok(output) => match (if with_default_definition {
                    default_of(statement, module, context, inputs, output, iface)
                } else {
                    Ok(None)
                }) {
                    Err(error) => Err(error),
                    Ok(default_definition) => Ok(
                        TraitView {
                            full_name: qualified(module.name@, statement.name@),
                            interface: iface as usize,
                            inputs,
                            output,
                            default_definition,
                        },
                    ),
                },
            },
        },
    }
}

/// Every default definition fits: it has a type, and that type fits the
/// output type of its trait, with the module's interface in the place of
/// `Self`.
pub proof fn lemma_fitting_default(
    statement: TraitStatement,
    module: ModuleStatement,
    context: Signatures,
    inputs: LocalsView,
    output: Type,
    iface: int,
)
    requires
        default_of(statement, module, context, inputs, output, iface) matches Ok(Some(_)),
    ensures
        ({
            let self_type = combined(trait_types(context.interfaces.items[iface]));
            let stored = default_of(statement, module, context, inputs, output, iface)->Ok_0->0;
            let given = typed(stored, context, inputs, Some(self_type));
            given is Ok && fits(given->Ok_0, with_self(output, self_type))
        }),
{
}

impl Trait {
    /// Whether this trait has the signature that the statement declares in
    /// the module: the full name, the module's interface as owner, the names
    /// of the parameters with the types that the written types stand for,
    /// and the output type.
    pub open spec fn declares(
        &self,
        statement: TraitStatement,
        module: ModuleStatement,
        context: Signatures,
    ) -> bool {
        &&& self.full_name@ == qualified(module.name@, statement.name@)
        &&& context.interfaces.resolved(module.name@, ""@) == Some(self.interface as int)
        &&& analysed_parameters(statement.parameters@, context, module.name@) matches Ok(types)
            && typed_parameters(statement.parameters@, types, self.inputs@)
        &&& analysed_type(statement.output, context, module.name@) == Ok::<Type, TypeFault>(
            self.output,
        )
    }

    /// Resolves the signature of a trait of a module. Where a default
    /// definition is asked for and the module gives a def for the trait that
    /// can be analysed among the trait's inputs alone, inside the module's
    /// interface as `Self`, that def becomes the trait's default definition.
    pub fn analyse(
        statement: &TraitStatement,
        module: &ModuleStatement,
        context: &SemanticContext,
        with_default_definition: bool,
    ) -> (r: CResult<Self>)
        ensures
            r matches Ok(trayt) ==> trayt.declares(*statement, *module, context.signatures()) && (
            trayt.default_definition matches Some(eval) ==> with_default_definition && eval.within(
                context.bounds(),
            ) && first_def(
                module.defs@,
                statement.name@,
                qualified(module.name@, statement.name@),
                0,
            ) is Some),
            analysed_parameters(statement.parameters@, context.signatures(), module.name@) matches Err(fault)
                ==> r matches Err(e) && fault.reported_by(e),
            match analysed_trait(
                *statement,
                *module,
                context.signatures(),
                with_default_definition,
            ) {
                Ok(trayt) => r matches Ok(found) && found@ == trayt,
                Err(error) => r matches Err(e) && e@ == error,
            },
    {
        let path = module.name.as_str();

        let inputs = analyse_parameters(&statement.parameters, context, path)?;

        let full_name = qualified_name(path, statement.name.as_str());

        let interface = context.interfaces.resolve(path, "")?;

        let output = Type::analyse(&statement.output, context, path)?;

        // Analyse default def, if provided.
        let default_definition = if with_default_definition {
            match find_def(&module.defs, statement.name.as_str(), full_name.as_str()) {
                Some(i) => {
                    let self_type = interface_type(context.interfaces.get(interface));
                    let expected = resolve_self_types(output.clone(), &self_type);
                    let scope = SemanticScope {
                        context,
                        path,
                        locals: copy_locals(&inputs),
                        zelf: Some(self_type),
                    };

                    match Evaluation::analyse(&module.defs[i].expr, &scope) {
                        // What the def gives must be what the trait promises.
                        Ok(eval) => Some(
                            fit_type(
                                module.defs[i].name.as_str(),
                                module.defs[i].expr.token_range,
                                &expected,
                                eval,
                                &scope,
                            )?,
                        ),
                        // If the evaluation can't be analysed without the context of a struct or class,
                        // then it isn't suitable as a default definition of the trait.
                        Err(_) => None,
                    }
                },
                None => None,
            }
        } else {
            None
        };

        let trayt = Trait { full_name, interface, inputs, output, default_definition };

        Ok(trayt)
    }

    /// A trait of the given name that belongs to the given interface, takes
    /// no inputs and gives `?`.
    pub fn dummy(name: &str, interface: usize) -> (r: Self)
        ensures
            r.full_name@ == name@,
            r.interface == interface,
            r.inputs@.len() == 0,
            r.output == Type::Void,
            r.default_definition is None,
    {
        Trait {
            full_name: String::from_str(name),
            interface,
            inputs: Vec::new(),
            output: Type::Void,
            default_definition: None,
        }
    }
}

/// The interfaces as sequences of traits.
pub open spec fn interface_views(interfaces: Seq<Vec<usize>>) -> Seq<Seq<usize>> {
    Seq::new(interfaces.len(), |m: int| interfaces[m]@)
}

/// Every trait is owned by one of the interfaces, no interface holds a
/// trait twice, and the interfaces hold traits only.
pub open spec fn interfaces_valid(interfaces: Seq<Seq<usize>>, owners: Seq<usize>) -> bool {
    &&& forall|t: int| 0 <= t < owners.len() ==> #[trigger] owners[t] < interfaces.len()
    &&& forall|m: int|
        0 <= m < interfaces.len() ==> (#[trigger] interfaces[m]).no_duplicates()
    &&& forall|m: int, k: int|
        0 <= m < interfaces.len() && 0 <= k < interfaces[m].len() ==> #[trigger] interfaces[m][k]
            < owners.len()
}

/// `own` holds every trait of `other`.
pub open spec fn holds_all(own: Seq<usize>, other: Seq<usize>) -> bool {
    forall|l: int| 0 <= l < other.len() ==> own.contains(#[trigger] other[l])
}

/// The interface at `m` holds, for each of its traits, every trait of the
/// interface that owns it.
pub open spec fn closed_at(interfaces: Seq<Seq<usize>>, owners: Seq<usize>, m: int) -> bool {
    forall|k: int|
        0 <= k < interfaces[m].len() ==> holds_all(
            interfaces[m],
            interfaces[owners[(#[trigger] interfaces[m][k]) as int] as int],
        )
}

/// Propagation has nothing left to add: every interface holds, for each of
/// its traits, every trait of the interface that owns it.
pub open spec fn propagated(interfaces: Seq<Seq<usize>>, owners: Seq<usize>) -> bool {
    forall|m: int| 0 <= m < interfaces.len() ==> closed_at(interfaces, owners, m)
}

/// Each interface of `after` starts with the interface of `before` at the
/// same place.
pub open spec fn grown_from(before: Seq<Seq<usize>>, after: Seq<Seq<usize>>) -> bool {
    &&& before.len() == after.len()
    &&& forall|m: int| 0 <= m < before.len() ==> (#[trigger] before[m]).is_prefix_of(after[m])
}

/// Traits below `traits`, none of them twice, are at most `traits` many.
pub proof fn lemma_interface_bound(interface: Seq<usize>, traits: usize)
    requires
        interface.no_duplicates(),
        forall|k: int| 0 <= k < interface.len() ==> #[trigger] interface[k] < traits,
    ensures
        interface.len() <= traits,
{
    let all = Set::<usize>::range(0usize, traits);
    vstd::set_lib::range_set_properties::<usize>(0usize, traits);
    interface.unique_seq_to_set();
    assert(interface.to_set().subset_of(all)) by {
        assert forall|t: usize| interface.to_set().contains(t) implies all.contains(t) by {
            let k = choose|k: int| 0 <= k < interface.len() && interface[k] == t;
            assert(interface[k] < traits);
        }
    }
    vstd::set_lib::lemma_len_subset(interface.to_set(), all);
}

/// The interface with the trait added unless it is there.
pub open spec fn with_trait(interface: Seq<usize>, trayt: usize) -> Seq<usize> {
    if interface.contains(trayt) {
        interface
    } else {
        interface.push(trayt)
    }
}

/// `own`, then those of the first `upto` traits of `other` that it does not
/// hold, each once.
pub open spec fn merged(own: Seq<usize>, other: Seq<usize>, upto: int) -> Seq<usize>
    decreases upto,
{
    if upto <= 0 {
        own
    } else {
        with_trait(merged(own, other, upto - 1), other[upto - 1])
    }
}

/// The interface `own` after the interfaces that own its traits from the
/// place `k` on were merged into it, one trait after the other, the traits
/// that come in on the way too. `filled` holds the interfaces as they were
/// filled, and `fuel` bounds the steps.
pub open spec fn worked(
    own: Seq<usize>,
    filled: Seq<Seq<usize>>,
    owners: Seq<usize>,
    k: int,
    fuel: nat,
) -> Seq<usize>
    decreases fuel,
{
    if fuel == 0 || !(0 <= k < own.len()) {
        own
    } else {
        let other = filled[owners[own[k] as int] as int];
        worked(
            merged(own, other, other.len() as int),
            filled,
            owners,
            k + 1,
            (fuel - 1) as nat,
        )
    }
}

/// The interface at `m` after automatic definitions were propagated into
/// it: for each of its traits, those that come in on the way too, the
/// filled interface that owns the trait is merged into it. One step is taken
/// for each trait that it holds in the end, and these are at most as many as
/// there are traits.
pub open spec fn closure_of(filled: Seq<Seq<usize>>, owners: Seq<usize>, m: int) -> Seq<usize> {
    worked(filled[m], filled, owners, 0, owners.len())
}

/// The interfaces after automatic definitions were propagated through
/// them.
pub open spec fn spread_all(filled: Seq<Seq<usize>>, owners: Seq<usize>) -> Seq<Seq<usize>> {
    Seq::new(filled.len(), |m: int| closure_of(filled, owners, m))
}

/// Merging keeps an interface free of doubles and below a bound that the
/// other interface is below.
pub proof fn lemma_merged_valid(own: Seq<usize>, other: Seq<usize>, upto: int, bound: int)
    requires
        own.no_duplicates(),
        forall|j: int| 0 <= j < own.len() ==> #[trigger] own[j] < bound,
        forall|j: int| 0 <= j < other.len() ==> #[trigger] other[j] < bound,
        0 <= upto <= other.len(),
    ensures
        merged(own, other, upto).no_duplicates(),
        forall|j: int| 0 <= j < merged(own, other, upto).len() ==> #[trigger] merged(
            own,
            other,
            upto,
        )[j] < bound,
    decreases upto,
{
    if upto > 0 {
        lemma_merged_valid(own, other, upto - 1, bound);
        let before = merged(own, other, upto - 1);
        let after = merged(own, other, upto);
        if !before.contains(other[upto - 1]) {
            assert(after == before.push(other[upto - 1]));
            assert forall|i: int, j: int| 0 <= i < after.len() && 0 <= j < after.len() && i != j implies after[i] != after[j] by {
                if i < before.len() && j < before.len() {
                    assert(before[i] != before[j]);
                } else if i < before.len() {
                    assert(before.contains(before[i]));
                } else {
                    assert(before.contains(before[j]));
                }
            }
        }
    }
}

/// Propagation keeps an interface free of doubles and among the traits.
pub proof fn lemma_worked_valid(
    own: Seq<usize>,
    filled: Seq<Seq<usize>>,
    owners: Seq<usize>,
    k: int,
    fuel: nat,
)
    requires
        interfaces_valid(filled, owners),
        own.no_duplicates(),
        forall|j: int| 0 <= j < own.len() ==> #[trigger] own[j] < owners.len(),
    ensures
        worked(own, filled, owners, k, fuel).no_duplicates(),
        forall|j: int|
            0 <= j < worked(own, filled, owners, k, fuel).len() ==> #[trigger] worked(
                own,
                filled,
                owners,
                k,
                fuel,
            )[j] < owners.len(),
    decreases fuel,
{
    if fuel > 0 && 0 <= k < own.len() {
        let owner = owners[own[k] as int] as int;
        let other = filled[owner];
        assert(forall|j: int| 0 <= j < other.len() ==> #[trigger] filled[owner][j] < owners.len());
        lemma_merged_valid(own, other, other.len() as int, owners.len() as int);
        lemma_worked_valid(
            merged(own, other, other.len() as int),
            filled,
            owners,
            k + 1,
            (fuel - 1) as nat,
        );
    }
}

/// Propagation reaches its fixed point within as many steps as there are
/// traits: an interface takes one step for each trait that it holds in the
/// end, it holds no trait twice, and so it holds, and takes, at most as many
/// as there are traits.
pub proof fn lemma_propagation_is_bounded(filled: Seq<Seq<usize>>, owners: Seq<usize>, m: int)
    requires
        interfaces_valid(filled, owners),
        0 <= m < filled.len(),
        owners.len() <= usize::MAX,
    ensures
        closure_of(filled, owners, m).no_duplicates(),
        closure_of(filled, owners, m).len() <= owners.len(),
{
    assert(forall|j: int| 0 <= j < filled[m].len() ==> #[trigger] filled[m][j] < owners.len());
    lemma_worked_valid(filled[m], filled, owners, 0, owners.len());
    lemma_interface_bound(closure_of(filled, owners, m), owners.len() as usize);
}

/// The interface holds, for each of its traits, every trait of the filled
/// interface that owns it.
pub open spec fn holds_owned(own: Seq<usize>, filled: Seq<Seq<usize>>, owners: Seq<usize>, upto: int)
    -> bool {
    forall|j: int|
        0 <= j < upto && j < own.len() ==> holds_all(
            own,
            filled[owners[(#[trigger] own[j]) as int] as int],
        )
}

/// Whether the trait at `j` came in for the trait at `i`: that trait
/// stands before it, and the filled interface that owns it holds the trait
/// at `j`.
pub open spec fn came_for(own: Seq<usize>, filled: Seq<Seq<usize>>, owners: Seq<usize>, i: int, j: int)
    -> bool {
    0 <= i < j && filled[owners[own[i] as int] as int].contains(own[j])
}

/// Whether the trait at `j` came in for a trait that stands before it.
pub open spec fn has_source(own: Seq<usize>, filled: Seq<Seq<usize>>, owners: Seq<usize>, j: int)
    -> bool {
    exists|i: int| came_for(own, filled, owners, i, j)
}

/// Every trait of the interface from the place `first` on came in for a
/// trait that stands before it.
pub open spec fn derived(own: Seq<usize>, first: int, filled: Seq<Seq<usize>>, owners: Seq<usize>)
    -> bool {
    forall|j: int| first <= j < own.len() ==> #[trigger] has_source(own, filled, owners, j)
}

/// An interface that holds, for each of its traits, the filled interface
/// that owns it, holds every trait of an interface that was derived from
/// traits that it holds.
pub proof fn lemma_derived_is_held(
    big: Seq<usize>,
    own: Seq<usize>,
    first: int,
    filled: Seq<Seq<usize>>,
    owners: Seq<usize>,
    j: int,
)
    requires
        holds_owned(big, filled, owners, big.len() as int),
        0 <= first <= own.len(),
        forall|i: int| 0 <= i < first ==> big.contains(#[trigger] own[i]),
        derived(own, first, filled, owners),
        0 <= j < own.len(),
    ensures
        big.contains(own[j]),
    decreases j,
{
    if j >= first {
        assert(has_source(own, filled, owners, j));
        let i = choose|i: int| came_for(own, filled, owners, i, j);
        lemma_derived_is_held(big, own, first, filled, owners, i);
        let at = choose|at: int| 0 <= at < big.len() && big[at] == own[i];
        let other = filled[owners[big[at] as int] as int];
        assert(holds_all(big, other));
        let l = choose|l: int| 0 <= l < other.len() && other[l] == own[j];
        assert(big.contains(other[l]));
    }
}

/// Whether the interface holds the trait.
pub fn holds(interface: &Vec<usize>, trayt: usize) -> (r: bool)
    ensures
        r == interface@.contains(trayt),
{
    let mut i: usize = 0;
    while i < interface.len()
        invariant
            i <= interface.len(),
            forall|k: int| 0 <= k < i ==> interface@[k] != trayt,
        decreases interface.len() - i,
    {
        if interface[i] == trayt {
            return true;
        }
        i += 1;
    }
    false
}

/// Adds to `own` the traits of `other` that it does not hold yet, and says
/// how many they were.
pub fn merge_interface(own: &mut Vec<usize>, other: &Vec<usize>) -> (added: usize)
    requires
        old(own)@.no_duplicates(),
    ensures
        final(own)@.no_duplicates(),
        old(own)@.is_prefix_of(final(own)@),
        holds_all(final(own)@, other@),
        final(own)@.len() == old(own)@.len() + added,
        forall|k: int|
            0 <= k < final(own)@.len() ==> old(own)@.contains(#[trigger] final(own)@[k])
                || other@.contains(final(own)@[k]),
        forall|k: int|
            old(own)@.len() <= k < final(own)@.len() ==> other@.contains(#[trigger] final(own)@[k]),
        final(own)@ == merged(old(own)@, other@, other@.len() as int),
{
    let mut added: usize = 0;
    let mut l: usize = 0;
    while l < other.len()
        invariant
            l <= other.len(),
            own@ == merged(old(own)@, other@, l as int),
            own@.no_duplicates(),
            old(own)@.is_prefix_of(own@),
            forall|j: int| 0 <= j < l ==> own@.contains(#[trigger] other@[j]),
            own@.len() == old(own)@.len() + added,
            added <= l,
            forall|k: int|
                0 <= k < own@.len() ==> old(own)@.contains(#[trigger] own@[k]) || other@.contains(
                    own@[k],
                ),
            forall|k: int|
                old(own)@.len() <= k < own@.len() ==> other@.contains(#[trigger] own@[k]),
        decreases other.len() - l,
    {
        let trayt = other[l];
        if !holds(own, trayt) {
            let ghost before = own@;
            own.push(trayt);
            added += 1;
            assert(own@[own@.len() - 1] == trayt);
            assert forall|j: int| 0 <= j < l + 1 implies own@.contains(#[trigger] other@[j]) by {
                if j < l {
                    let k = choose|k: int| 0 <= k < before.len() && before[k] == other@[j];
                    assert(own@[k] == other@[j]);
                }
            }
            assert forall|k: int| 0 <= k < own@.len() implies old(own)@.contains(
                #[trigger] own@[k],
            ) || other@.contains(own@[k]) by {
                if k < before.len() {
                    assert(own@[k] == before[k]);
                }
            }
            assert forall|k: int| old(own)@.len() <= k < own@.len() implies other@.contains(
                #[trigger] own@[k],
            ) by {
                if k < before.len() {
                    assert(own@[k] == before[k]);
                }
            }
        }
        l += 1;
    }
    added
}

/// Traits merged in from an interface of traits below a bound are below
/// it.
proof fn lemma_merged_below(before: Seq<usize>, after: Seq<usize>, other: Seq<usize>, bound: int)
    requires
        before.is_prefix_of(after),
        forall|j: int| 0 <= j < before.len() ==> #[trigger] before[j] < bound,
        forall|j: int| 0 <= j < other.len() ==> #[trigger] other[j] < bound,
        forall|j: int| before.len() <= j < after.len() ==> other.contains(#[trigger] after[j]),
    ensures
        forall|j: int| 0 <= j < after.len() ==> #[trigger] after[j] < bound,
{
    assert forall|j: int| 0 <= j < after.len() implies #[trigger] after[j] < bound by {
        if j < before.len() {
            assert(after[j] == before[j]);
        } else {
            let i = choose|i: int| 0 <= i < other.len() && other[i] == after[j];
            assert(other[i] < bound);
        }
    }
}

/// What an interface holds, it holds after it has grown.
proof fn lemma_grown_holds(before: Seq<usize>, after: Seq<usize>, held: Seq<usize>)
    requires
        before.is_prefix_of(after),
        holds_all(before, held),
    ensures
        holds_all(after, held),
{
    assert forall|l: int| 0 <= l < held.len() implies after.contains(#[trigger] held[l]) by {
        let at = choose|at: int| 0 <= at < before.len() && before[at] == held[l];
        assert(after[at] == held[l]);
    }
}

/// After the interface that owns the trait at `k` was merged in, the
/// interface holds the owners' interfaces of its first `k + 1` traits.
proof fn lemma_merged_holds(
    before: Seq<usize>,
    after: Seq<usize>,
    filled: Seq<Seq<usize>>,
    owners: Seq<usize>,
    k: int,
)
    requires
        0 <= k < before.len(),
        before.is_prefix_of(after),
        holds_owned(before, filled, owners, k),
        holds_all(after, filled[owners[before[k] as int] as int]),
    ensures
        holds_owned(after, filled, owners, k + 1),
{
    assert forall|j: int| 0 <= j < k + 1 && j < after.len() implies holds_all(
        after,
        filled[owners[(#[trigger] after[j]) as int] as int],
    ) by {
        assert(after[j] == before[j]);
        if j < k {
            lemma_grown_holds(before, after, filled[owners[before[j] as int] as int]);
        }
    }
}

/// After the interface that owns the trait at `k` was merged in, every
/// trait that came in stands behind a trait for which it came.
proof fn lemma_merged_derived(
    before: Seq<usize>,
    after: Seq<usize>,
    first: int,
    filled: Seq<Seq<usize>>,
    owners: Seq<usize>,
    k: int,
)
    requires
        0 <= k < before.len(),
        before.is_prefix_of(after),
        derived(before, first, filled, owners),
        forall|j: int|
            before.len() <= j < after.len() ==> filled[owners[before[k] as int] as int].contains(
                #[trigger] after[j],
            ),
    ensures
        derived(after, first, filled, owners),
{
    assert forall|j: int| first <= j < after.len() implies #[trigger] has_source(
        after,
        filled,
        owners,
        j,
    ) by {
        if j < before.len() {
            assert(has_source(before, filled, owners, j));
            let i = choose|i: int| came_for(before, filled, owners, i, j);
            assert(after[i] == before[i]);
            assert(after[j] == before[j]);
            assert(came_for(after, filled, owners, i, j));
        } else {
            assert(after[k] == before[k]);
            assert(came_for(after, filled, owners, k, j));
        }
    }
}

/// Propagates automatic definitions into the interface at `m`: for each of
/// its traits, those that come in on the way too, the filled interface that
/// owns the trait is merged into it. Gives the interface and the number of
/// steps taken, one for each trait that it holds in the end.
pub fn close_interface(filled: &Vec<Vec<usize>>, owners: &Vec<usize>, m: usize) -> (r: (
    Vec<usize>,
    usize,
))
    requires
        interfaces_valid(interface_views(filled@), owners@),
        m < filled@.len(),
    ensures
        r.0@ == closure_of(interface_views(filled@), owners@, m as int),
        r.0@.no_duplicates(),
        forall|j: int| 0 <= j < r.0@.len() ==> #[trigger] r.0@[j] < owners@.len(),
        interface_views(filled@)[m as int].is_prefix_of(r.0@),
        holds_owned(r.0@, interface_views(filled@), owners@, r.0@.len() as int),
        derived(
            r.0@,
            interface_views(filled@)[m as int].len() as int,
            interface_views(filled@),
            owners@,
        ),
        r.1 == r.0@.len(),
        r.1 <= owners@.len(),
{
    let ghost views = interface_views(filled@);
    let ghost traits = owners@.len();
    let mut own = filled[m].clone();
    assert(own@ == views[m as int]);
    proof {
        assert(owners@.len() == owners.len());
        lemma_interface_bound(own@, owners.len());
    }
    let mut k: usize = 0;
    while k < own.len()
        invariant
            k <= own.len(),
            traits == owners@.len(),
            m < filled@.len(),
            views == interface_views(filled@),
            interfaces_valid(views, owners@),
            own@.no_duplicates(),
            forall|j: int| 0 <= j < own@.len() ==> #[trigger] own@[j] < owners@.len(),
            own@.len() <= traits,
            views[m as int].is_prefix_of(own@),
            holds_owned(own@, views, owners@, k as int),
            derived(own@, views[m as int].len() as int, views, owners@),
            closure_of(views, owners@, m as int) == worked(
                own@,
                views,
                owners@,
                k as int,
                (traits - k) as nat,
            ),
        decreases traits - k,
    {
        let trayt = own[k];
        let owner = owners[trayt];
        let ghost before = own@;
        assert(filled@[owner as int]@ == views[owner as int]);
        merge_interface(&mut own, &filled[owner]);
        proof {
            let other = views[owner as int];
            assert(forall|i: int| 0 <= i < other.len() ==> #[trigger] other[i] < owners@.len());
            lemma_merged_below(before, own@, other, owners@.len() as int);
            assert(owners@.len() == owners.len());
            lemma_interface_bound(own@, owners.len());
            lemma_merged_holds(before, own@, views, owners@, k as int);
            lemma_merged_derived(before, own@, views[m as int].len() as int, views, owners@, k as int);
            assert(views[m as int].is_prefix_of(own@)) by {
                assert(views[m as int].is_prefix_of(before));
                assert(before.is_prefix_of(own@));
            }
        }
        k += 1;
    }
    (own, k)
}

/// Propagates automatic definitions: every interface gets, for each of its
/// traits, those that come in on the way too, the traits of the filled
/// interface that owns it, until nothing is left to add. `owners` gives the
/// owning interface of each trait. Returns the largest number of steps that
/// an interface took: one for each trait that it holds in the end, and so
/// never more than there are traits.
pub fn propagate_interfaces(interfaces: &mut Vec<Vec<usize>>, owners: &Vec<usize>) -> (steps:
    usize)
    requires
        interfaces_valid(interface_views(old(interfaces)@), owners@),
    ensures
        interfaces_valid(interface_views(final(interfaces)@), owners@),
        grown_from(interface_views(old(interfaces)@), interface_views(final(interfaces)@)),
        propagated(interface_views(final(interfaces)@), owners@),
        steps <= owners@.len(),
        forall|m: int|
            0 <= m < final(interfaces)@.len() ==> (#[trigger] final(interfaces)@[m])@.len() <= steps,
        interface_views(final(interfaces)@) == spread_all(interface_views(old(interfaces)@), owners@),
{
    let ghost start = interface_views(interfaces@);
    let mut closed: Vec<Vec<usize>> = Vec::new();
    let mut steps: usize = 0;
    let mut m: usize = 0;
    while m < interfaces.len()
        invariant
            m <= interfaces@.len(),
            *interfaces == *old(interfaces),
            start == interface_views(interfaces@),
            interfaces_valid(start, owners@),
            closed@.len() == m,
            steps <= owners@.len(),
            forall|j: int|
                0 <= j < m ==> {
                    &&& (#[trigger] closed@[j])@ == closure_of(start, owners@, j)
                    &&& closed@[j]@.no_duplicates()
                    &&& closed@[j]@.len() <= steps
                    &&& start[j].is_prefix_of(closed@[j]@)
                    &&& holds_owned(closed@[j]@, start, owners@, closed@[j]@.len() as int)
                    &&& derived(closed@[j]@, start[j].len() as int, start, owners@)
                    &&& forall|k: int|
                        0 <= k < closed@[j]@.len() ==> #[trigger] closed@[j]@[k] < owners@.len()
                },
        decreases interfaces@.len() - m,
    {
        let (own, took) = close_interface(interfaces, owners, m);
        if took > steps {
            steps = took;
        }
        closed.push(own);
        m += 1;
    }
    *interfaces = closed;
    proof {
        let after = interface_views(interfaces@);
        assert(after =~= spread_all(start, owners@));
        assert forall|i: int, k: int|
            0 <= i < after.len() && 0 <= k < after[i].len() implies holds_all(
            after[i],
            after[owners@[(#[trigger] after[i][k]) as int] as int],
        ) by {
            let o = owners@[after[i][k] as int] as int;
            assert(holds_all(after[i], start[o]));
            assert forall|l: int| 0 <= l < after[o].len() implies after[i].contains(
                #[trigger] after[o][l],
            ) by {
                assert forall|x: int| 0 <= x < start[o].len() implies after[i].contains(
                    #[trigger] after[o][x],
                ) by {
                    assert(after[o][x] == start[o][x]);
                    assert(after[i].contains(start[o][x]));
                }
                lemma_derived_is_held(after[i], after[o], start[o].len() as int, start, owners@, l);
            }
        }
        assert forall|i: int| 0 <= i < after.len() implies closed_at(after, owners@, i) by {}
    }
    steps
}

} // verus!
