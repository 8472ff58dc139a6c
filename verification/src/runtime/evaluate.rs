//! Evaluation: what an evaluation gives among named values, and the tree
//! walk that computes it.

use crate::ast::raw_value::RawValue;
use crate::ast::raw_value::RawView;
use crate::ast::type_statement::RawType;
use crate::runtime::class_instance::ClassInstance;
use crate::runtime::instance::copy_members;
use crate::runtime::instance::fields_view;
use crate::runtime::instance::lemma_members_view;
use crate::runtime::instance::members_view;
use crate::runtime::instance::Instance;
use crate::runtime::instance::InstanceView;
use crate::runtime::instance::RuntimeError;
use crate::runtime::raw_operation::find_member;
use crate::runtime::raw_operation::member_named;
use crate::runtime::raw_operation::raw_kind;
use crate::runtime::raw_operation::raw_result;
use crate::runtime::struct_instance::field_named;
use crate::runtime::struct_instance::fields_as_members;
use crate::runtime::struct_instance::StructInstance;
use crate::sem::class::defined_traits;
use crate::sem::evaluation::Evaluation;
use crate::sem::semantic_analyser::SemanticContext;
use crate::sem::typ::Type;
use crate::text::same_text;
use vstd::prelude::*;

verus! {

/// Named values, as the evaluator sees them; where a name occurs twice, the
/// later entry counts.
pub type Env = Seq<(Seq<char>, InstanceView)>;

/// The view of a value that may be absent.
pub open spec fn option_view(value: Option<Instance>) -> Option<InstanceView> {
    match value {
        Some(v) => Some(v@),
        None => None,
    }
}

/// Whether two values are of the same type: both of the same struct, both
/// of the same class, both raw of the same kind, or both void.
pub open spec fn same_type(a: InstanceView, b: InstanceView) -> bool {
    match (a, b) {
        (InstanceView::Class(x, _), InstanceView::Class(y, _)) => x == y,
        (InstanceView::Struct(x, _), InstanceView::Struct(y, _)) => x == y,
        (InstanceView::Raw(x), InstanceView::Raw(y)) => raw_kind(x) == raw_kind(y),
        (InstanceView::Void, InstanceView::Void) => true,
        _ => false,
    }
}

/// The traits that a value has a definition for, if it is of a class or
/// struct that the context holds.
pub open spec fn traits_of(context: SemanticContext, value: InstanceView) -> Seq<usize> {
    match value {
        InstanceView::Class(id, _) => if id < context.classes@.len() {
            defined_traits(
                context.classes@[id as int].definitions@,
                context.classes@[id as int].defaults@,
            )
        } else {
            Seq::empty()
        },
        InstanceView::Struct(id, _) => if id < context.structs@.len() {
            defined_traits(
                context.structs@[id as int].definitions@,
                context.structs@[id as int].defaults@,
            )
        } else {
            Seq::empty()
        },
        _ => Seq::empty(),
    }
}

/// Whether a value satisfies a type: a trait, if the value has a definition
/// for it; a raw type, if the value is raw of that kind; `Self`, if the
/// value is of the type of the enclosing value, as `is_self` says; `?`
/// always.
pub open spec fn satisfies(context: SemanticContext, value: InstanceView, typ: Type, is_self: bool)
    -> bool
    decreases typ,
{
    match typ {
        Type::Trait(id) => traits_of(context, value).contains(id),
        Type::Raw(raw) => value matches InstanceView::Raw(v) && raw_kind(v) == raw,
        Type::And(a, b) => satisfies(context, value, *a, is_self) && satisfies(
            context,
            value,
            *b,
            is_self,
        ),
        Type::Or(a, b) => satisfies(context, value, *a, is_self) || satisfies(
            context,
            value,
            *b,
            is_self,
        ),
        Type::Zelf => is_self,
        Type::Void => true,
    }
}

/// Index of the first branch, from `from` on, whose type the value
/// satisfies.
pub open spec fn first_branch(
    context: SemanticContext,
    branches: Seq<(Type, Evaluation)>,
    value: InstanceView,
    is_self: bool,
    from: int,
) -> Option<int>
    decreases branches.len() - from,
{
    if !(0 <= from < branches.len()) {
        None
    } else if satisfies(context, value, branches[from].0, is_self) {
        Some(from)
    } else {
        first_branch(context, branches, value, is_self, from + 1)
    }
}

/// Whether a later entry has the name of the entry at `at`.
pub open spec fn shadowed(env: Env, at: int) -> bool {
    exists|j: int| at < j < env.len() && (#[trigger] env[j]).0 == env[at].0
}

/// The entries that count among the first `upto`: those whose name no
/// later entry has.
pub open spec fn effective(env: Env, upto: int) -> Env
    decreases upto,
{
    if upto <= 0 {
        Seq::empty()
    } else if shadowed(env, upto - 1) {
        effective(env, upto - 1)
    } else {
        effective(env, upto - 1).push(env[upto - 1])
    }
}

/// The named values as raw fields, if all of them are raw.
pub open spec fn raw_fields(env: Env) -> Option<Seq<(Seq<char>, RawView)>>
    decreases env.len(),
{
    if env.len() == 0 {
        Some(Seq::empty())
    } else {
        match (raw_fields(env.drop_last()), env.last().1) {
            (Some(fields), InstanceView::Raw(value)) => Some(fields.push((env.last().0, value))),
            _ => None,
        }
    }
}

/// Index of the first definition for the trait, from `from` on.
pub open spec fn definition_at(definitions: Seq<(usize, Evaluation)>, trayt: usize, from: int)
    -> Option<int>
    decreases definitions.len() - from,
{
    if !(0 <= from < definitions.len()) {
        None
    } else if definitions[from].0 == trayt {
        Some(from)
    } else {
        definition_at(definitions, trayt, from + 1)
    }
}

/// The body that a call of the trait runs on a value with the given
/// definitions and defaults: the first definition for the trait, else the
/// default definition of the trait if the value has it by default.
pub open spec fn body_of(
    context: SemanticContext,
    definitions: Seq<(usize, Evaluation)>,
    defaults: Seq<usize>,
    trayt: usize,
) -> Option<Evaluation> {
    match definition_at(definitions, trayt, 0) {
        Some(i) => Some(definitions[i].1),
        None => if defaults.contains(trayt) && trayt < context.traits.items@.len() {
            context.traits.items@[trayt as int].1.default_definition
        } else {
            None
        },
    }
}

/// The values of the inputs, each by its name, in the order in which they
/// are written; the first input that gives no value gives the error.
pub open spec fn evaluated_inputs(
    context: SemanticContext,
    inputs: Seq<(String, Evaluation)>,
    locals: Env,
    zelf: Option<InstanceView>,
    fuel: nat,
) -> Result<Env, RuntimeError>
    decreases fuel, inputs.len() + 1,
{
    if inputs.len() == 0 {
        Ok(Seq::empty())
    } else {
        match evaluated_inputs(context, inputs.drop_last(), locals, zelf, fuel) {
            Err(e) => Err(e),
            Ok(env) => match evaluated(context, inputs.last().1, locals, zelf, fuel) {
                Err(e) => Err(e),
                Ok(value) => Ok(env.push((inputs.last().0@, value))),
            },
        }
    }
}

/// What a call of a trait on a value gives. On a raw value the built-in
/// operation of the trait's full name runs. On a value of a struct or class
/// the body that the value has for the trait runs, among the inputs and the
/// fields or dependencies of the value, with the value as `Self`.
pub open spec fn called(
    context: SemanticContext,
    subject: InstanceView,
    trayt: usize,
    inputs: Env,
    fuel: nat,
) -> Result<InstanceView, RuntimeError>
    decreases fuel, 1nat,
{
    match subject {
        InstanceView::Raw(value) => if trayt < context.traits.items@.len() {
            match raw_result(value, context.traits.items@[trayt as int].1.full_name@, inputs) {
                Ok(result) => Ok(InstanceView::Raw(result)),
                Err(e) => Err(e),
            }
        } else {
            Err(RuntimeError::BrokenReference)
        },
        InstanceView::Void => Err(RuntimeError::UndefinedTrait),
        InstanceView::Class(id, dependencies) => if id < context.classes@.len() {
            match body_of(
                context,
                context.classes@[id as int].definitions@,
                context.classes@[id as int].defaults@,
                trayt,
            ) {
                Some(body) => evaluated(context, body, inputs + dependencies, Some(subject), fuel),
                None => Err(RuntimeError::UndefinedTrait),
            }
        } else {
            Err(RuntimeError::BrokenReference)
        },
        InstanceView::Struct(id, fields) => if id < context.structs@.len() {
            match body_of(
                context,
                context.structs@[id as int].definitions@,
                context.structs@[id as int].defaults@,
                trayt,
            ) {
                Some(body) => evaluated(
                    context,
                    body,
                    inputs + fields_as_members(fields),
                    Some(subject),
                    fuel,
                ),
                None => Err(RuntimeError::UndefinedTrait),
            }
        } else {
            Err(RuntimeError::BrokenReference)
        },
    }
}

/// Whether the value is of a struct whose first field is `value` of the
/// given raw type: such a value stands for the raw value of that field.
pub open spec fn wraps(context: SemanticContext, value: InstanceView, raw: RawType) -> bool {
    value matches InstanceView::Struct(id, _) && id < context.structs@.len()
        && context.structs@[id as int].fields@.len() > 0
        && context.structs@[id as int].fields@[0].0@ == "value"@
        && context.structs@[id as int].fields@[0].1 == raw
}

/// The boolean that a value stands for: a raw boolean itself; a struct
/// whose first field is `value` of the raw type bool, that field; any other
/// value, what the trait `Bool` gives for it, looked at in the same way.
/// Depth is needed for the call of the trait only.
pub open spec fn as_bool(context: SemanticContext, value: InstanceView, fuel: nat) -> Result<
    bool,
    RuntimeError,
>
    decreases fuel, 2nat,
{
    match value {
        InstanceView::Raw(RawView::Bool(b)) => Ok(b),
        InstanceView::Raw(_) => Err(RuntimeError::RawTypeMismatch),
        _ => {
            if wraps(context, value, RawType::Bool) && (field_named(
                value->Struct_1,
                "value"@,
            ) matches Some(RawView::Bool(_))) {
                Ok(field_named(value->Struct_1, "value"@)->0->Bool_0)
            } else if fuel == 0 {
                Err(RuntimeError::DepthExceeded)
            } else {
                match context.traits.resolved("Bool"@, ""@) {
                    None => Err(RuntimeError::UndefinedTrait),
                    Some(id) => match called(
                        context,
                        value,
                        id as usize,
                        Seq::empty(),
                        (fuel - 1) as nat,
                    ) {
                        Err(e) => Err(e),
                        Ok(result) => as_bool(context, result, (fuel - 1) as nat),
                    },
                }
            }
        },
    }
}

/// What an evaluation gives among the named values `locals`, with `zelf` as
/// `Self` if there is one, where calls may be nested `fuel` deep. Inputs
/// are evaluated in the order in which they are written, the subject of a
/// call before the inputs.
pub open spec fn evaluated(
    context: SemanticContext,
    eval: Evaluation,
    locals: Env,
    zelf: Option<InstanceView>,
    fuel: nat,
) -> Result<InstanceView, RuntimeError>
    decreases fuel, 0nat,
{
    if fuel == 0 {
        Err(RuntimeError::DepthExceeded)
    } else {
        let less = (fuel - 1) as nat;
        match eval {
            Evaluation::Let(call) => match evaluated_inputs(
                context,
                call.inputs@,
                locals,
                zelf,
                less,
            ) {
                Err(e) => Err(e),
                Ok(inputs) => if call.lett < context.lets.items@.len() {
                    evaluated(
                        context,
                        context.lets.items@[call.lett as int].1.evaluation,
                        inputs,
                        None,
                        less,
                    )
                } else {
                    Err(RuntimeError::BrokenReference)
                },
            },
            Evaluation::Trait(call) => match evaluated(context, *call.subject, locals, zelf, less) {
                Err(e) => Err(e),
                Ok(subject) => match evaluated_inputs(context, call.inputs@, locals, zelf, less) {
                    Err(e) => Err(e),
                    Ok(inputs) => called(context, subject, call.trayt, inputs, less),
                },
            },
            Evaluation::Literal(value) => Ok(InstanceView::Raw(value@)),
            Evaluation::Local(name) => match member_named(locals, name@) {
                Some(value) => Ok(value),
                None => Err(RuntimeError::MissingInput),
            },
            Evaluation::FriendlyField(field) => match member_named(locals, field.local_name@) {
                Some(InstanceView::Struct(_, fields)) => match field_named(
                    fields,
                    field.field_name@,
                ) {
                    Some(value) => Ok(InstanceView::Raw(value)),
                    None => Err(RuntimeError::NoField),
                },
                Some(_) => Err(RuntimeError::NoField),
                None => Err(RuntimeError::MissingInput),
            },
            Evaluation::Match(call) => match evaluated(context, *call.subject, locals, zelf, less) {
                Err(e) => Err(e),
                Ok(subject) => {
                    let is_self = zelf matches Some(enclosing) && same_type(enclosing, subject);
                    match first_branch(context, call.branches@, subject, is_self, 0) {
                        Some(i) => evaluated(
                            context,
                            call.branches@[i].1,
                            locals.push((call.local_name@, subject)),
                            zelf,
                            less,
                        ),
                        None => Err(RuntimeError::UnmatchedMatch),
                    }
                },
            },
            Evaluation::IfElse(call) => match evaluated(
                context,
                *call.condition,
                locals,
                zelf,
                less,
            ) {
                Err(e) => Err(e),
                Ok(condition) => match as_bool(context, condition, less) {
                    Err(e) => Err(e),
                    Ok(true) => evaluated(context, *call.iff, locals, zelf, less),
                    Ok(false) => evaluated(context, *call.els, locals, zelf, less),
                },
            },
            Evaluation::Zelf => match zelf {
                Some(value) => Ok(value),
                None => Err(RuntimeError::NoSelf),
            },
            Evaluation::Void => Ok(InstanceView::Void),
            Evaluation::ClassConstructor(id) => Ok(
                InstanceView::Class(id, effective(locals, locals.len() as int)),
            ),
            Evaluation::StructConstructor(id) => match raw_fields(
                effective(locals, locals.len() as int),
            ) {
                Some(fields) => Ok(InstanceView::Struct(id, fields)),
                None => Err(RuntimeError::RawTypeMismatch),
            },
        }
    }
}

/// The string that a value stands for: a raw value as a string; a struct
/// whose first field is `value` of the raw type string, that field; any
/// other value, what the trait `String` gives for it, looked at in the same
/// way. Depth is needed for the call of the trait only.
pub open spec fn shown(context: SemanticContext, value: InstanceView, fuel: nat) -> Result<
    Seq<char>,
    RuntimeError,
>
    decreases fuel, 2nat,
{
    match value {
        InstanceView::Raw(raw) => Ok(crate::runtime::raw_operation::raw_text(raw)),
        _ => {
            if wraps(context, value, RawType::String) && (field_named(
                value->Struct_1,
                "value"@,
            ) matches Some(RawView::Text(_))) {
                Ok(field_named(value->Struct_1, "value"@)->0->Text_0)
            } else if fuel == 0 {
                Err(RuntimeError::DepthExceeded)
            } else {
                match context.traits.resolved("String"@, ""@) {
                    None => Err(RuntimeError::UndefinedTrait),
                    Some(id) => match called(
                        context,
                        value,
                        id as usize,
                        Seq::empty(),
                        (fuel - 1) as nat,
                    ) {
                        Err(e) => Err(e),
                        Ok(result) => shown(context, result, (fuel - 1) as nat),
                    },
                }
            }
        },
    }
}

/// Whether `r` is the value or the error that is expected.
pub open spec fn gives(r: Result<Instance, RuntimeError>, expected: Result<
    InstanceView,
    RuntimeError,
>) -> bool {
    match expected {
        Ok(value) => r matches Ok(found) && found@ == value,
        Err(e) => r matches Err(found) && found == e,
    }
}

/// Whether `r` holds the named values or the error that is expected.
pub open spec fn gives_all(r: Result<Vec<(String, Instance)>, RuntimeError>, expected: Result<
    Env,
    RuntimeError,
>) -> bool {
    match expected {
        Ok(env) => r matches Ok(found) && members_view(found@) == env,
        Err(e) => r matches Err(found) && found == e,
    }
}

/// An error among the first inputs is the error of all inputs.
pub proof fn lemma_input_error(
    context: SemanticContext,
    inputs: Seq<(String, Evaluation)>,
    locals: Env,
    zelf: Option<InstanceView>,
    fuel: nat,
    upto: int,
)
    requires
        0 <= upto <= inputs.len(),
        evaluated_inputs(context, inputs.subrange(0, upto), locals, zelf, fuel) is Err,
    ensures
        evaluated_inputs(context, inputs, locals, zelf, fuel) == evaluated_inputs(
            context,
            inputs.subrange(0, upto),
            locals,
            zelf,
            fuel,
        ),
    decreases inputs.len() - upto,
{
    if upto < inputs.len() {
        assert(inputs.subrange(0, upto + 1).drop_last() == inputs.subrange(0, upto));
        lemma_input_error(context, inputs, locals, zelf, fuel, upto + 1);
    } else {
        assert(inputs.subrange(0, upto) == inputs);
    }
}

/// The view of named values followed by others is the view of the first
/// followed by the view of the others.
pub proof fn lemma_members_concat(a: Seq<(String, Instance)>, b: Seq<(String, Instance)>)
    ensures
        members_view(a + b) == members_view(a) + members_view(b),
    decreases b.len(),
{
    if b.len() == 0 {
        assert(a + b == a);
        assert(members_view(a) + members_view(b) == members_view(a));
    } else {
        lemma_members_concat(a, b.drop_last());
        assert((a + b).drop_last() == a + b.drop_last());
        assert((a + b).last() == b.last());
        assert(members_view(a + b) == members_view(a + b.drop_last()).push(
            (b.last().0@, b.last().1@),
        ));
        assert(members_view(b) == members_view(b.drop_last()).push((b.last().0@, b.last().1@)));
        assert((members_view(a) + members_view(b.drop_last())).push((b.last().0@, b.last().1@))
            == members_view(a) + members_view(b.drop_last()).push((b.last().0@, b.last().1@)));
    }
}

/// The named values that count: those whose name no later entry has.
pub fn effective_members(locals: &Vec<(String, Instance)>) -> (r: Vec<(String, Instance)>)
    ensures
        members_view(r@) == effective(members_view(locals@), locals@.len() as int),
{
    let ghost env = members_view(locals@);
    proof {
        lemma_members_view(locals@);
    }
    let mut out: Vec<(String, Instance)> = Vec::new();
    let mut i: usize = 0;
    while i < locals.len()
        invariant
            i <= locals.len(),
            env == members_view(locals@),
            env.len() == locals@.len(),
            forall|k: int|
                0 <= k < locals@.len() ==> (#[trigger] env[k]) == (locals@[k].0@, locals@[k].1@),
            members_view(out@) == effective(env, i as int),
        decreases locals.len() - i,
    {
        let mut later = false;
        let mut j: usize = i + 1;
        while j < locals.len()
            invariant
                i < j <= locals.len(),
                env.len() == locals@.len(),
                forall|k: int|
                    0 <= k < locals@.len() ==> (#[trigger] env[k]) == (
                        locals@[k].0@,
                        locals@[k].1@,
                    ),
                later == exists|k: int| i < k < j && (#[trigger] env[k]).0 == env[i as int].0,
            decreases locals.len() - j,
        {
            if same_text(locals[j].0.as_str(), locals[i].0.as_str()) {
                assert(env[j as int].0 == env[i as int].0);
                later = true;
            }
            j += 1;
        }
        if !later {
            let ghost done = out@;
            out.push((locals[i].0.clone(), locals[i].1.duplicate()));
            assert(out@.drop_last() == done);
        }
        i += 1;
    }
    out
}

/// The named values as raw fields, unless one of them is not raw.
pub fn raw_fields_of(members: &Vec<(String, Instance)>) -> (r: Option<Vec<(String, RawValue)>>)
    ensures
        match raw_fields(members_view(members@)) {
            Some(fields) => r matches Some(found) && fields_view(found@) == fields,
            None => r is None,
        },
{
    let ghost env = members_view(members@);
    proof {
        lemma_members_view(members@);
    }
    let mut out: Vec<(String, RawValue)> = Vec::new();
    let mut i: usize = 0;
    assert(env.subrange(0, 0) == Env::empty());
    assert(fields_view(out@) =~= Seq::<(Seq<char>, RawView)>::empty());
    while i < members.len()
        invariant
            i <= members.len(),
            env == members_view(members@),
            env.len() == members@.len(),
            forall|k: int|
                0 <= k < members@.len() ==> (#[trigger] env[k]) == (
                    members@[k].0@,
                    members@[k].1@,
                ),
            raw_fields(env.subrange(0, i as int)) == Some(fields_view(out@)),
        decreases members.len() - i,
    {
        assert(env.subrange(0, i + 1).drop_last() == env.subrange(0, i as int));
        assert(env.subrange(0, i + 1).last() == env[i as int]);
        match &members[i].1 {
            Instance::Raw(value) => {
                let ghost done = fields_view(out@);
                out.push((members[i].0.clone(), value.duplicate()));
                assert(fields_view(out@) =~= done.push((members@[i as int].0@, value@)));
            },
            _ => {
                proof {
                    lemma_not_raw(env, i + 1);
                }
                return None;
            },
        }
        i += 1;
    }
    assert(env.subrange(0, i as int) == env);
    Some(out)
}

/// Where the first values are not all raw, the values are not all raw.
pub proof fn lemma_not_raw(env: Env, upto: int)
    requires
        0 <= upto <= env.len(),
        raw_fields(env.subrange(0, upto)) is None,
    ensures
        raw_fields(env) is None,
    decreases env.len() - upto,
{
    if upto < env.len() {
        assert(env.subrange(0, upto + 1).drop_last() == env.subrange(0, upto));
        lemma_not_raw(env, upto + 1);
    } else {
        assert(env.subrange(0, upto) == env);
    }
}

/// Evaluation is deterministic: whatever evaluating the same evaluation
/// among the same locals, inside the same `Self`, in the same context and
/// for the same depth gives, it is the same value or the same error.
pub proof fn lemma_evaluation_is_deterministic(
    context: SemanticContext,
    eval: Evaluation,
    locals: Env,
    zelf: Option<InstanceView>,
    fuel: nat,
    a: Result<Instance, RuntimeError>,
    b: Result<Instance, RuntimeError>,
)
    requires
        gives(a, evaluated(context, eval, locals, zelf, fuel)),
        gives(b, evaluated(context, eval, locals, zelf, fuel)),
    ensures
        match (a, b) {
            (Ok(x), Ok(y)) => x@ == y@,
            (Err(x), Err(y)) => x == y,
            _ => false,
        },
{
}

/// Evaluates the inputs one after the other.
pub fn evaluate_inputs(
    inputs: &Vec<(String, Evaluation)>,
    locals: &Vec<(String, Instance)>,
    zelf: &Option<Instance>,
    context: &SemanticContext,
    fuel: usize,
) -> (r: Result<Vec<(String, Instance)>, RuntimeError>)
    ensures
        gives_all(
            r,
            evaluated_inputs(
                *context,
                inputs@,
                members_view(locals@),
                option_view(*zelf),
                fuel as nat,
            ),
        ),
    decreases fuel, inputs@.len() + 1,
{
    let mut out: Vec<(String, Instance)> = Vec::new();
    let mut i: usize = 0;
    assert(inputs@.subrange(0, 0) == Seq::<(String, Evaluation)>::empty());
    while i < inputs.len()
        invariant
            i <= inputs.len(),
            evaluated_inputs(
                *context,
                inputs@.subrange(0, i as int),
                members_view(locals@),
                option_view(*zelf),
                fuel as nat,
            ) == Ok::<Env, RuntimeError>(members_view(out@)),
        decreases inputs.len() - i,
    {
        assert(inputs@.subrange(0, i + 1).drop_last() == inputs@.subrange(0, i as int));
        match evaluate(&inputs[i].1, locals, zelf, context, fuel) {
            Ok(value) => {
                let ghost done = out@;
                out.push((inputs[i].0.clone(), value));
                assert(out@.drop_last() == done);
            },
            Err(e) => {
                proof {
                    lemma_input_error(
                        *context,
                        inputs@,
                        members_view(locals@),
                        option_view(*zelf),
                        fuel as nat,
                        i + 1,
                    );
                }
                return Err(e);
            },
        }
        i += 1;
    }
    assert(inputs@.subrange(0, i as int) == inputs@);
    Ok(out)
}

/// Index of the first branch whose type the value satisfies.
fn find_branch(
    branches: &Vec<(Type, Evaluation)>,
    subject: &Instance,
    is_self: bool,
    context: &SemanticContext,
) -> (r: Option<usize>)
    ensures
        match r {
            Some(i) => first_branch(*context, branches@, subject@, is_self, 0) == Some(i as int)
                && i < branches@.len(),
            None => first_branch(*context, branches@, subject@, is_self, 0) is None,
        },
{
    let mut i: usize = 0;
    while i < branches.len()
        invariant
            i <= branches.len(),
            first_branch(*context, branches@, subject@, is_self, 0) == first_branch(
                *context,
                branches@,
                subject@,
                is_self,
                i as int,
            ),
        decreases branches.len() - i,
    {
        if subject.satisfies_type(&branches[i].0, is_self, context) {
            return Some(i);
        }
        i += 1;
    }
    None
}

/// Evaluate an evaluation into an instance. `fuel` says how deep calls may
/// be nested.
pub fn evaluate(
    eval: &Evaluation,
    locals: &Vec<(String, Instance)>,
    zelf: &Option<Instance>,
    context: &SemanticContext,
    fuel: usize,
) -> (r: Result<Instance, RuntimeError>)
    ensures
        gives(
            r,
            evaluated(*context, *eval, members_view(locals@), option_view(*zelf), fuel as nat),
        ),
    decreases fuel, 0nat,
{
    if fuel == 0 {
        return Err(RuntimeError::DepthExceeded);
    }
    let less = fuel - 1;
    match eval {
        Evaluation::Let(call) => {
            let inputs = evaluate_inputs(&call.inputs, locals, zelf, context, less)?;

            if call.lett < context.lets.len() {
                let body = &context.lets.get(call.lett).evaluation;
                return evaluate(body, &inputs, &None, context, less);
            } else {
                return Err(RuntimeError::BrokenReference);
            }
        },
        Evaluation::Trait(call) => {
            let subject = evaluate(&call.subject, locals, zelf, context, less)?;

            let inputs = evaluate_inputs(&call.inputs, locals, zelf, context, less)?;

            return subject.call(call.trayt, inputs, context, less);
        },
        Evaluation::Literal(value) => {
            return Ok(Instance::Raw(value.duplicate()));
        },
        Evaluation::Local(name) => match find_member(locals, name.as_str()) {
            Some(value) => {
                return Ok(value.duplicate());
            },
            None => {
                return Err(RuntimeError::MissingInput);
            },
        },
        Evaluation::FriendlyField(ff) => {
            match find_member(locals, ff.local_name.as_str()) {
                Some(Instance::Struct(strukt)) => match strukt.field(ff.field_name.as_str()) {
                    Some(value) => {
                        return Ok(Instance::Raw(value.duplicate()));
                    },
                    None => {
                        return Err(RuntimeError::NoField);
                    },
                },
                Some(_) => {
                    return Err(RuntimeError::NoField);
                },
                None => {
                    return Err(RuntimeError::MissingInput);
                },
            }
        },
        Evaluation::Match(call) => {
            let subject = evaluate(&call.subject, locals, zelf, context, less)?;

            // Check if the subject is of the same type as 'self' in this scope
            let is_self = match zelf {
                Some(zelf) => zelf.is_of_same_type(&subject),
                None => false,
            };

            // Find the matching branch.
            match find_branch(&call.branches, &subject, is_self, context) {
                Some(i) => {
                    // Add the subject to scope.
                    let mut branch_locals = copy_members(locals);
                    let ghost copied = branch_locals@;
                    let ghost bound = subject@;
                    branch_locals.push((call.local_name.clone(), subject));
                    assert(branch_locals@.drop_last() == copied);
                    assert(members_view(branch_locals@) == members_view(locals@).push(
                        (call.local_name@, bound),
                    ));
                    return evaluate(&call.branches[i].1, &branch_locals, zelf, context, less);
                },
                None => {
                    return Err(RuntimeError::UnmatchedMatch);
                },
            }
        },
        Evaluation::IfElse(call) => {
            let condition = evaluate(&call.condition, locals, zelf, context, less)?;

            if condition.to_bool(context, less)? {
                return evaluate(&call.iff, locals, zelf, context, less);
            } else {
                return evaluate(&call.els, locals, zelf, context, less);
            }
        },
        Evaluation::Zelf => match zelf {
            Some(value) => {
                return Ok(value.duplicate());
            },
            None => {
                return Err(RuntimeError::NoSelf);
            },
        },
        Evaluation::Void => {
            return Ok(Instance::Void);
        },
        Evaluation::ClassConstructor(class) => {
            proof {
                lemma_members_view(locals@);
            }
            let instance = ClassInstance::new(*class, effective_members(locals));

            return Ok(Instance::Class(instance));
        },
        Evaluation::StructConstructor(strukt) => {
            proof {
                lemma_members_view(locals@);
            }
            match raw_fields_of(&effective_members(locals)) {
                Some(fields) => {
                    return Ok(Instance::Struct(StructInstance::new(*strukt, fields)));
                },
                None => {
                    return Err(RuntimeError::RawTypeMismatch);
                },
            }
        },
    }
}

} // verus!
