//! Runtime values.

use crate::ast::raw_value::RawValue;
use crate::ast::raw_value::RawView;
use crate::ast::type_statement::RawType;
use crate::runtime::class_instance::ClassInstance;
use crate::runtime::evaluate::as_bool;
use crate::runtime::evaluate::body_of;
use crate::runtime::evaluate::called;
use crate::runtime::evaluate::definition_at;
use crate::runtime::evaluate::evaluate;
use crate::runtime::evaluate::gives;
use crate::runtime::evaluate::lemma_members_concat;
use crate::runtime::evaluate::same_type;
use crate::runtime::evaluate::satisfies;
use crate::runtime::evaluate::shown;
use crate::runtime::evaluate::wraps;
use crate::runtime::raw_operation::raw_operation;
use crate::runtime::raw_operation::raw_text_of;
use crate::runtime::struct_instance::StructInstance;
use crate::sem::class::defined_traits;
use crate::sem::evaluation::Evaluation;
use crate::sem::semantic_analyser::SemanticContext;
use crate::sem::trayt::holds;
use crate::sem::typ::Type;
use crate::text::same_text;
use vstd::prelude::*;

verus! {

/// An instantiated class or struct, or a raw value.
#[derive(Debug)]
pub enum Instance {
    Class(ClassInstance),
    Struct(StructInstance),
    Raw(RawValue),
    Void,
}

/// A runtime value as a mathematical value: a class or struct by its
/// number, with its members by name.
pub enum InstanceView {
    Class(usize, Seq<(Seq<char>, InstanceView)>),
    Struct(usize, Seq<(Seq<char>, RawView)>),
    Raw(RawView),
    Void,
}

/// Why an evaluation gives no value.
#[derive(Debug, Clone, Copy, PartialEq, Eq)]
pub enum RuntimeError {
    /// A raw operation met a value of the wrong raw kind, or a value that
    /// is not raw.
    RawTypeMismatch,
    /// An input or local that is asked for is not there.
    MissingInput,
    /// No branch of a match fits the value.
    UnmatchedMatch,
    /// The value has no definition of the trait that is called on it.
    UndefinedTrait,
    /// `Self` is used where there is none.
    NoSelf,
    /// A field is asked of a value that is no struct or has no such field.
    NoField,
    /// A number does not fit.
    Overflow,
    /// A number is divided by zero.
    DivisionByZero,
    /// The calls are nested deeper than the limit that was given.
    DepthExceeded,
    /// A let, trait, class or struct is named that the context does not
    /// hold.
    BrokenReference,
}

/// Named values as mathematical values.
pub open spec fn members_view(members: Seq<(String, Instance)>) -> Seq<(Seq<char>, InstanceView)>
    decreases members,
{
    if members.len() == 0 {
        Seq::empty()
    } else {
        members_view(members.drop_last()).push((members.last().0@, members.last().1.view()))
    }
}

/// Named raw values as mathematical values.
pub open spec fn fields_view(fields: Seq<(String, RawValue)>) -> Seq<(Seq<char>, RawView)> {
    Seq::new(fields.len(), |i: int| (fields[i].0@, fields[i].1@))
}

impl View for Instance {
    type V = InstanceView;

    open spec fn view(&self) -> InstanceView
        decreases self,
    {
        match self {
            Instance::Class(instance) => InstanceView::Class(
                instance.class,
                members_view(instance.dependencies@),
            ),
            Instance::Struct(instance) => InstanceView::Struct(
                instance.strukt,
                fields_view(instance.fields@),
            ),
            Instance::Raw(value) => InstanceView::Raw(value@),
            Instance::Void => InstanceView::Void,
        }
    }
}

/// The view of named values has as many entries, each the view of the
/// entry at its place.
pub proof fn lemma_members_view(members: Seq<(String, Instance)>)
    ensures
        members_view(members).len() == members.len(),
        forall|i: int|
            0 <= i < members.len() ==> (#[trigger] members_view(members)[i]) == (
                members[i].0@,
                members[i].1@,
            ),
    decreases members.len(),
{
    if members.len() > 0 {
        lemma_members_view(members.drop_last());
        assert(members_view(members) == members_view(members.drop_last()).push(
            (members.last().0@, members.last().1@),
        ));
        assert forall|i: int| 0 <= i < members.len() implies (#[trigger] members_view(
            members,
        )[i]) == (members[i].0@, members[i].1@) by {
            if i < members.len() - 1 {
                assert(members.drop_last()[i] == members[i]);
            }
        }
    }
}

/// A copy of named raw values.
pub fn copy_raw_fields(fields: &Vec<(String, RawValue)>) -> (r: Vec<(String, RawValue)>)
    ensures
        r@ == fields@,
{
    let mut out: Vec<(String, RawValue)> = Vec::new();
    let mut i: usize = 0;
    while i < fields.len()
        invariant
            i <= fields.len(),
            out@ == fields@.subrange(0, i as int),
        decreases fields.len() - i,
    {
        out.push((fields[i].0.clone(), fields[i].1.duplicate()));
        i += 1;
    }
    assert(fields@.subrange(0, i as int) == fields@);
    out
}

/// A copy of named values.
pub fn copy_members(members: &Vec<(String, Instance)>) -> (r: Vec<(String, Instance)>)
    ensures
        members_view(r@) == members_view(members@),
        r@.len() == members@.len(),
    decreases members,
{
    let mut out: Vec<(String, Instance)> = Vec::new();
    let mut i: usize = 0;
    assert(members@.subrange(0, 0) == Seq::<(String, Instance)>::empty());
    while i < members.len()
        invariant
            i <= members.len(),
            out@.len() == i,
            members_view(out@) == members_view(members@.subrange(0, i as int)),
        decreases members.len() - i,
    {
        let ghost done = out@;
        let copy = members[i].1.duplicate();
        out.push((members[i].0.clone(), copy));
        assert(out@.drop_last() == done);
        assert(members@.subrange(0, i + 1).drop_last() == members@.subrange(0, i as int));
        i += 1;
    }
    assert(members@.subrange(0, i as int) == members@);
    out
}

impl Instance {
    /// A copy of this value.
    pub fn duplicate(&self) -> (r: Instance)
        ensures
            r@ == self@,
        decreases self,
    {
        match self {
            Instance::Class(instance) => Instance::Class(
                ClassInstance {
                    class: instance.class,
                    dependencies: copy_members(&instance.dependencies),
                },
            ),
            Instance::Struct(instance) => Instance::Struct(
                StructInstance {
                    strukt: instance.strukt,
                    fields: copy_raw_fields(&instance.fields),
                },
            ),
            Instance::Raw(value) => Instance::Raw(value.duplicate()),
            Instance::Void => Instance::Void,
        }
    }
}

/// Whether one of the definitions, or one of the defaults, is for the
/// trait.
fn defines_trait(definitions: &Vec<(usize, Evaluation)>, defaults: &Vec<usize>, trayt: usize) -> (r:
    bool)
    ensures
        r == defined_traits(definitions@, defaults@).contains(trayt),
{
    let ghost all = defined_traits(definitions@, defaults@);
    let mut i: usize = 0;
    while i < definitions.len()
        invariant
            i <= definitions.len(),
            all == defined_traits(definitions@, defaults@),
            forall|k: int| 0 <= k < i ==> all[k] != trayt,
        decreases definitions.len() - i,
    {
        if definitions[i].0 == trayt {
            assert(all[i as int] == trayt);
            return true;
        }
        i += 1;
    }
    if holds(defaults, trayt) {
        let ghost k = choose|k: int| 0 <= k < defaults@.len() && defaults@[k] == trayt;
        assert(all[definitions@.len() + k] == trayt);
        true
    } else {
        assert forall|k: int| 0 <= k < all.len() implies all[k] != trayt by {
            if k >= definitions@.len() {
                assert(all[k] == defaults@[k - definitions@.len()]);
            }
        }
        false
    }
}

/// The body that a call of the trait runs, if there is one.
fn find_body<'a>(
    context: &'a SemanticContext,
    definitions: &'a Vec<(usize, Evaluation)>,
    defaults: &Vec<usize>,
    trayt: usize,
) -> (r: Option<&'a Evaluation>)
    ensures
        match body_of(*context, definitions@, defaults@, trayt) {
            Some(body) => r matches Some(found) && *found == body,
            None => r is None,
        },
{
    let mut i: usize = 0;
    while i < definitions.len()
        invariant
            i <= definitions.len(),
            definition_at(definitions@, trayt, 0) == definition_at(definitions@, trayt, i as int),
        decreases definitions.len() - i,
    {
        if definitions[i].0 == trayt {
            return Some(&definitions[i].1);
        }
        i += 1;
    }
    if holds(defaults, trayt) && trayt < context.traits.len() {
        match &context.traits.get(trayt).default_definition {
            Some(body) => Some(body),
            None => None,
        }
    } else {
        None
    }
}

impl Instance {
    /// Calls a trait on this value with the given inputs.
    pub fn call(
        &self,
        trayt: usize,
        inputs: Vec<(String, Instance)>,
        context: &SemanticContext,
        fuel: usize,
    ) -> (r: Result<Instance, RuntimeError>)
        ensures
            gives(r, called(*context, self@, trayt, members_view(inputs@), fuel as nat)),
        decreases fuel, 1nat,
    {
        let mut locals = inputs;
        let ghost given = locals@;
        let (definitions, defaults) = match self {
            Instance::Struct(instance) => {
                if instance.strukt < context.structs.len() {
                    let mut fields = instance.fields();
                    proof {
                        lemma_members_concat(given, fields@);
                    }
                    locals.append(&mut fields);
                    (
                        &context.structs[instance.strukt].definitions,
                        &context.structs[instance.strukt].defaults,
                    )
                } else {
                    return Err(RuntimeError::BrokenReference);
                }
            },
            Instance::Class(instance) => {
                if instance.class < context.classes.len() {
                    let mut dependencies = instance.dependencies();
                    proof {
                        lemma_members_concat(given, dependencies@);
                    }
                    locals.append(&mut dependencies);
                    (
                        &context.classes[instance.class].definitions,
                        &context.classes[instance.class].defaults,
                    )
                } else {
                    return Err(RuntimeError::BrokenReference);
                }
            },
            Instance::Raw(value) => {
                if trayt < context.traits.len() {
                    let result = raw_operation(
                        value,
                        context.traits.get(trayt).full_name.as_str(),
                        &locals,
                    )?;
                    return Ok(Instance::Raw(result));
                } else {
                    return Err(RuntimeError::BrokenReference);
                }
            },
            Instance::Void => {
                return Err(RuntimeError::UndefinedTrait);
            },
        };

        match find_body(context, definitions, defaults, trayt) {
            Some(body) => evaluate(body, &locals, &Some(self.duplicate()), context, fuel),
            None => Err(RuntimeError::UndefinedTrait),
        }
    }

    /// Whether the current instance satisfies the given type.
    pub fn satisfies_type(&self, typ: &Type, is_self: bool, context: &SemanticContext) -> (r: bool)
        ensures
            r == satisfies(*context, self@, *typ, is_self),
        decreases typ,
    {
        match typ {
            Type::Trait(trayt) => match self {
                Instance::Class(instance) => {
                    if instance.class < context.classes.len() {
                        defines_trait(
                            &context.classes[instance.class].definitions,
                            &context.classes[instance.class].defaults,
                            *trayt,
                        )
                    } else {
                        false
                    }
                },
                Instance::Struct(instance) => {
                    if instance.strukt < context.structs.len() {
                        defines_trait(
                            &context.structs[instance.strukt].definitions,
                            &context.structs[instance.strukt].defaults,
                            *trayt,
                        )
                    } else {
                        false
                    }
                },
                _ => false,
            },
            Type::Raw(raw_type) => match self {
                Instance::Raw(val) => match (raw_type, val) {
                    (RawType::Int, crate::ast::raw_value::RawValue::Int(_)) => true,
                    (RawType::String, crate::ast::raw_value::RawValue::String(_)) => true,
                    (RawType::Bool, crate::ast::raw_value::RawValue::Bool(_)) => true,
                    _ => false,
                },
                _ => false,
            },
            Type::And(a, b) => self.satisfies_type(a, is_self, context) && self.satisfies_type(
                b,
                is_self,
                context,
            ),
            Type::Or(a, b) => self.satisfies_type(a, is_self, context) || self.satisfies_type(
                b,
                is_self,
                context,
            ),
            Type::Zelf => is_self,
            Type::Void => true,
        }
    }

    /// Whether the current instance is of the same type as the given instance.
    /// This is used to match the 'Self' type in match statements during runtime.
    pub fn is_of_same_type(&self, other: &Self) -> (r: bool)
        ensures
            r == same_type(self@, other@),
    {
        match (self, other) {
            (Instance::Class(klass), Instance::Class(other)) => klass.class() == other.class(),
            (Instance::Struct(strukt), Instance::Struct(other)) => strukt.strukt()
                == other.strukt(),
            (Instance::Raw(raw_value), Instance::Raw(other)) => match (raw_value, other) {
                (
                    crate::ast::raw_value::RawValue::Int(_),
                    crate::ast::raw_value::RawValue::Int(_),
                ) => true,
                (
                    crate::ast::raw_value::RawValue::String(_),
                    crate::ast::raw_value::RawValue::String(_),
                ) => true,
                (
                    crate::ast::raw_value::RawValue::Bool(_),
                    crate::ast::raw_value::RawValue::Bool(_),
                ) => true,
                _ => false,
            },
            (Instance::Void, Instance::Void) => true,
            _ => false,
        }
    }

    /// Whether this value is of a struct whose first field is `value` of
    /// the given raw type.
    fn wraps_raw(&self, raw: RawType, context: &SemanticContext) -> (r: bool)
        ensures
            r == wraps(*context, self@, raw),
    {
        match self {
            Instance::Struct(instance) => {
                if instance.strukt < context.structs.len() {
                    let fields = &context.structs[instance.strukt].fields;
                    if fields.len() > 0 && same_text(fields[0].0.as_str(), "value") {
                        match (fields[0].1, raw) {
                            (RawType::Int, RawType::Int) => true,
                            (RawType::String, RawType::String) => true,
                            (RawType::Bool, RawType::Bool) => true,
                            _ => false,
                        }
                    } else {
                        false
                    }
                } else {
                    false
                }
            },
            _ => false,
        }
    }

    /// The boolean that this value stands for.
    pub fn to_bool(&self, context: &SemanticContext, fuel: usize) -> (r: Result<bool, RuntimeError>)
        ensures
            r == as_bool(*context, self@, fuel as nat),
        decreases fuel, 2nat,
    {
        match self {
            Instance::Raw(crate::ast::raw_value::RawValue::Bool(value)) => {
                return Ok(*value);
            },
            Instance::Raw(_) => {
                return Err(RuntimeError::RawTypeMismatch);
            },
            Instance::Struct(strukt) => {
                if self.wraps_raw(RawType::Bool, context) {
                    match strukt.field("value") {
                        Some(crate::ast::raw_value::RawValue::Bool(value)) => {
                            return Ok(*value);
                        },
                        _ => {},
                    }
                }
            },
            _ => {},
        }

        // Call the Bool trait on self recursively until hitting a boolean.
        if fuel == 0 {
            return Err(RuntimeError::DepthExceeded);
        }
        let bool_trait = match context.traits.resolve("Bool", "") {
            Ok(id) => id,
            Err(_) => {
                return Err(RuntimeError::UndefinedTrait);
            },
        };

        let inputs: Vec<(String, Instance)> = Vec::new();
        assert(members_view(inputs@) == Seq::<(Seq<char>, InstanceView)>::empty());
        self.call(bool_trait, inputs, context, fuel - 1)?.to_bool(context, fuel - 1)
    }

    /// The string that this value stands for: the output of a program.
    pub fn to_string(&self, context: &SemanticContext, fuel: usize) -> (r: Result<
        String,
        RuntimeError,
    >)
        ensures
            match shown(*context, self@, fuel as nat) {
                Ok(text) => r matches Ok(found) && found@ == text,
                Err(e) => r matches Err(found) && found == e,
            },
        decreases fuel, 2nat,
    {
        match self {
            Instance::Raw(raw_value) => {
                return Ok(raw_text_of(raw_value));
            },
            Instance::Struct(strukt) => {
                if self.wraps_raw(RawType::String, context) {
                    match strukt.field("value") {
                        Some(crate::ast::raw_value::RawValue::String(value)) => {
                            return Ok(value.clone());
                        },
                        _ => {},
                    }
                }
            },
            _ => {},
        }

        // Call the String trait on self recursively until hitting a String.
        if fuel == 0 {
            return Err(RuntimeError::DepthExceeded);
        }
        let string_trait = match context.traits.resolve("String", "") {
            Ok(id) => id,
            Err(_) => {
                return Err(RuntimeError::UndefinedTrait);
            },
        };

        let inputs: Vec<(String, Instance)> = Vec::new();
        assert(members_view(inputs@) == Seq::<(Seq<char>, InstanceView)>::empty());
        self.call(string_trait, inputs, context, fuel - 1)?.to_string(context, fuel - 1)
    }
}

} // verus!
