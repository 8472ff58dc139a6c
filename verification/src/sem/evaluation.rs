//! Evaluations: expressions whose names have been resolved.

use crate::ast::expression::BinaryOp;
use crate::ast::expression::Expression;
use crate::ast::expression::ExpressionStatement;
use crate::ast::expression::FriendlyField;
use crate::ast::expression::UnaryOp;
use crate::ast::type_statement::TypeStatement;
use crate::error::error_at;
use crate::error::ErrorContext;
use crate::error::Span;
use crate::sem::table::declared_all;
use crate::sem::table::name_table;
use crate::sem::table::resolved_in;
use crate::sem::typ::analysed_type;
use crate::sem::typ::callable;
use crate::sem::typ::callable_list;
use crate::sem::typ::names_of;
use crate::sem::typ::type_text;
use crate::sem::type_checking::check_error;
use crate::sem::type_coercion::coerced;
use crate::sem::type_coercion::coerced_inputs;
use crate::sem::type_coercion::yields;
use crate::sem::type_coercion::yields_inputs;
use crate::sem::type_checking::check_types;
use crate::sem::type_coercion::coerce_type;
use crate::sem::type_coercion::coerce_types;
use crate::ast::raw_value::RawValue;
use crate::ast::type_statement::RawType;
use crate::error::error;
use crate::error::CResult;
use crate::error::CompilationError;
use crate::error::ErrorMessage;
use crate::error::ErrorView;
use crate::error::MessageView;
use crate::sem::semantic_analyser::copy_locals;
use crate::sem::semantic_analyser::find_local;
use crate::sem::semantic_analyser::local_type;
use crate::sem::semantic_analyser::locals_view;
use crate::sem::semantic_analyser::LocalsView;
use crate::sem::semantic_analyser::ScopeView;
use crate::sem::semantic_analyser::SemanticContext;
use crate::sem::semantic_analyser::Signatures;
use crate::sem::semantic_analyser::SemanticScope;
use crate::sem::typ::unite_types;
use crate::sem::typ::united;
use crate::sem::typ::resolve_self_types;
use crate::sem::typ::with_self;
use crate::sem::typ::Type;
use crate::text::same_text;
use vstd::prelude::*;
use vstd::string::StringExecFns;

verus! {

/// A semantically analysed expression that can be evaluated. Lets, traits,
/// classes and structs are named by their place in the semantic context.
#[derive(Debug)]
pub enum Evaluation {
    Let(LetEvaluation),
    Trait(TraitEvaluation),
    Literal(RawValue),
    Local(String),
    FriendlyField(FriendlyField),
    Match(MatchEvaluation),
    IfElse(IfElseEvaluation),
    Zelf,
    Void,
    // only for internal use
    ClassConstructor(usize),
    StructConstructor(usize),
}

#[derive(Debug)]
pub struct LetEvaluation {
    pub lett: usize,
    pub inputs: Vec<(String, Evaluation)>,
}

#[derive(Debug)]
pub struct TraitEvaluation {
    pub trayt: usize,
    pub subject: Box<Evaluation>,
    pub inputs: Vec<(String, Evaluation)>,
}

#[derive(Debug)]
pub struct MatchEvaluation {
    pub local_name: String,
    pub subject: Box<Evaluation>,
    pub branches: Vec<(Type, Evaluation)>,
}

#[derive(Debug)]
pub struct IfElseEvaluation {
    pub condition: Box<Evaluation>,
    pub iff: Box<Evaluation>,
    pub els: Box<Evaluation>,
}

/// Named inputs of a call as mathematical values.
pub type EvalInputs = Seq<(Seq<char>, EvaluationView)>;

/// An evaluation as a mathematical value.
pub enum EvaluationView {
    /// The let and the inputs.
    Let(usize, EvalInputs),
    /// The trait, the subject and the inputs.
    Trait(usize, Box<EvaluationView>, EvalInputs),
    Literal(crate::ast::raw_value::RawView),
    Local(Seq<char>),
    /// The names of the local and of the field.
    FriendlyField(Seq<char>, Seq<char>),
    /// The name that the subject is bound to, the subject and the branches.
    Match(Seq<char>, Box<EvaluationView>, Seq<(Type, EvaluationView)>),
    /// The condition and the two arms.
    IfElse(Box<EvaluationView>, Box<EvaluationView>, Box<EvaluationView>),
    Zelf,
    Void,
    ClassConstructor(usize),
    StructConstructor(usize),
}

/// Named inputs as mathematical values.
pub open spec fn eval_inputs_view(inputs: Seq<(String, Evaluation)>) -> EvalInputs
    decreases inputs,
{
    if inputs.len() == 0 {
        Seq::empty()
    } else {
        eval_inputs_view(inputs.drop_last()).push((inputs.last().0@, eval_view(inputs.last().1)))
    }
}

/// Branches as mathematical values.
pub open spec fn eval_branches_view(branches: Seq<(Type, Evaluation)>) -> Seq<
    (Type, EvaluationView),
>
    decreases branches,
{
    if branches.len() == 0 {
        Seq::empty()
    } else {
        eval_branches_view(branches.drop_last()).push(
            (branches.last().0, eval_view(branches.last().1)),
        )
    }
}

/// An evaluation as a mathematical value.
pub open spec fn eval_view(eval: Evaluation) -> EvaluationView
    decreases eval,
{
    match eval {
        Evaluation::Let(call) => EvaluationView::Let(call.lett, eval_inputs_view(call.inputs@)),
        Evaluation::Trait(call) => EvaluationView::Trait(
            call.trayt,
            Box::new(eval_view(*call.subject)),
            eval_inputs_view(call.inputs@),
        ),
        Evaluation::Literal(value) => EvaluationView::Literal(value@),
        Evaluation::Local(name) => EvaluationView::Local(name@),
        Evaluation::FriendlyField(field) => EvaluationView::FriendlyField(
            field.local_name@,
            field.field_name@,
        ),
        Evaluation::Match(call) => EvaluationView::Match(
            call.local_name@,
            Box::new(eval_view(*call.subject)),
            eval_branches_view(call.branches@),
        ),
        Evaluation::IfElse(call) => EvaluationView::IfElse(
            Box::new(eval_view(*call.condition)),
            Box::new(eval_view(*call.iff)),
            Box::new(eval_view(*call.els)),
        ),
        Evaluation::Zelf => EvaluationView::Zelf,
        Evaluation::Void => EvaluationView::Void,
        Evaluation::ClassConstructor(id) => EvaluationView::ClassConstructor(id),
        Evaluation::StructConstructor(id) => EvaluationView::StructConstructor(id),
    }
}

impl View for Evaluation {
    type V = EvaluationView;

    open spec fn view(&self) -> EvaluationView {
        eval_view(*self)
    }
}

/// The view of named inputs has as many entries, each the view of the
/// entry at its place.
pub proof fn lemma_eval_inputs_view(inputs: Seq<(String, Evaluation)>)
    ensures
        eval_inputs_view(inputs).len() == inputs.len(),
        forall|i: int|
            0 <= i < inputs.len() ==> (#[trigger] eval_inputs_view(inputs)[i]) == (
                inputs[i].0@,
                eval_view(inputs[i].1),
            ),
    decreases inputs.len(),
{
    if inputs.len() > 0 {
        lemma_eval_inputs_view(inputs.drop_last());
        assert(eval_inputs_view(inputs) == eval_inputs_view(inputs.drop_last()).push(
            (inputs.last().0@, eval_view(inputs.last().1)),
        ));
        assert forall|i: int| 0 <= i < inputs.len() implies (#[trigger] eval_inputs_view(
            inputs,
        )[i]) == (inputs[i].0@, eval_view(inputs[i].1)) by {
            if i < inputs.len() - 1 {
                assert(inputs.drop_last()[i] == inputs[i]);
            }
        }
    }
}

/// The view of branches has as many entries, each the view of the entry
/// at its place.
pub proof fn lemma_eval_branches_view(branches: Seq<(Type, Evaluation)>)
    ensures
        eval_branches_view(branches).len() == branches.len(),
        forall|i: int|
            0 <= i < branches.len() ==> (#[trigger] eval_branches_view(branches)[i]) == (
                branches[i].0,
                eval_view(branches[i].1),
            ),
    decreases branches.len(),
{
    if branches.len() > 0 {
        lemma_eval_branches_view(branches.drop_last());
        assert(eval_branches_view(branches) == eval_branches_view(branches.drop_last()).push(
            (branches.last().0, eval_view(branches.last().1)),
        ));
        assert forall|i: int| 0 <= i < branches.len() implies (#[trigger] eval_branches_view(
            branches,
        )[i]) == (branches[i].0, eval_view(branches[i].1)) by {
            if i < branches.len() - 1 {
                assert(branches.drop_last()[i] == branches[i]);
            }
        }
    }
}

/// The limits of a semantic context: how many lets, traits, classes and
/// structs it holds.
pub struct Bounds {
    pub lets: nat,
    pub traits: nat,
    pub classes: nat,
    pub structs: nat,
}

/// Every input lies within the bounds.
pub open spec fn inputs_within(inputs: Seq<(String, Evaluation)>, bounds: Bounds) -> bool
    decreases inputs,
{
    inputs.len() > 0 ==> inputs.last().1.within(bounds) && inputs_within(
        inputs.drop_last(),
        bounds,
    )
}

/// Every branch lies within the bounds.
pub open spec fn branches_within(branches: Seq<(Type, Evaluation)>, bounds: Bounds) -> bool
    decreases branches,
{
    branches.len() > 0 ==> branches.last().1.within(bounds) && branches_within(
        branches.drop_last(),
        bounds,
    )
}

impl Evaluation {
    /// Every let, trait, class and struct that the evaluation names lies
    /// within the bounds.
    pub open spec fn within(self, bounds: Bounds) -> bool
        decreases self,
    {
        match self {
            Evaluation::Let(call) => call.lett < bounds.lets && inputs_within(
                call.inputs@,
                bounds,
            ),
            Evaluation::Trait(call) => call.trayt < bounds.traits && call.subject.within(bounds)
                && inputs_within(call.inputs@, bounds),
            Evaluation::Match(call) => call.subject.within(bounds) && branches_within(
                call.branches@,
                bounds,
            ),
            Evaluation::IfElse(call) => call.condition.within(bounds) && call.iff.within(bounds)
                && call.els.within(bounds),
            Evaluation::ClassConstructor(id) => id < bounds.classes,
            Evaluation::StructConstructor(id) => id < bounds.structs,
            _ => true,
        }
    }
}

/// Every input of a list within the bounds is within the bounds.
pub proof fn lemma_inputs_within(inputs: Seq<(String, Evaluation)>, bounds: Bounds, i: int)
    requires
        inputs_within(inputs, bounds),
        0 <= i < inputs.len(),
    ensures
        inputs[i].1.within(bounds),
    decreases inputs.len(),
{
    if i < inputs.len() - 1 {
        lemma_inputs_within(inputs.drop_last(), bounds, i);
    }
}

/// Every branch of a list within the bounds is within the bounds.
pub proof fn lemma_branches_within(branches: Seq<(Type, Evaluation)>, bounds: Bounds, i: int)
    requires
        branches_within(branches, bounds),
        0 <= i < branches.len(),
    ensures
        branches[i].1.within(bounds),
    decreases branches.len(),
{
    if i < branches.len() - 1 {
        lemma_branches_within(branches.drop_last(), bounds, i);
    }
}

/// Why an evaluation has no type.
pub enum TypFault {
    /// `Self` is used where there is no enclosing type.
    NoSelf,
    /// No local has the name.
    NoLocal(Seq<char>),
    /// Raw values do not have the trait of the name.
    UndefinedTrait(Seq<char>),
}

impl TypFault {
    /// The error that reports this fault, without a location.
    pub open spec fn error(self) -> ErrorView {
        ErrorView::of(
            match self {
                TypFault::NoSelf => MessageView::NoSelf,
                TypFault::NoLocal(name) => MessageView::NoResolution("local variable"@, name),
                TypFault::UndefinedTrait(name) => MessageView::UndefinedTrait(name),
            },
        )
    }

    /// Whether `e` reports this fault.
    pub open spec fn reported_by(self, e: CompilationError) -> bool {
        e@ == self.error()
    }
}

/// The kind of raw value that a raw operation gives: arithmetic keeps the
/// kind of its subject, comparisons and the logical operations give a
/// boolean, `String` gives a string. No other trait is defined on raw
/// values.
pub open spec fn raw_output(input: RawType, trayt: Seq<char>) -> Option<RawType> {
    if trayt == "Op\\Add"@ || trayt == "Op\\Sub"@ || trayt == "Op\\Mul"@ || trayt
        == "Op\\Div"@ || trayt == "Op\\Neg"@ {
        Some(input)
    } else if trayt == "Op\\Eq"@ || trayt == "Op\\Lt"@ || trayt == "Op\\Gt"@ || trayt
        == "Op\\And"@ || trayt == "Op\\Or"@ {
        Some(RawType::Bool)
    } else if trayt == "String"@ {
        Some(RawType::String)
    } else {
        None
    }
}

pub fn raw_operation_output_type(input: &RawType, trayt: &str) -> (r: CResult<RawType>)
    ensures
        match raw_output(*input, trayt@) {
            Some(raw) => r == Ok::<RawType, CompilationError>(raw),
            None => r matches Err(e) && TypFault::UndefinedTrait(trayt@).reported_by(e),
        },
{
    if same_text(trayt, "Op\\Add") || same_text(trayt, "Op\\Sub") || same_text(trayt, "Op\\Mul")
        || same_text(trayt, "Op\\Div") || same_text(trayt, "Op\\Neg") {
        Ok(*input)
    } else if same_text(trayt, "Op\\Eq") || same_text(trayt, "Op\\Lt") || same_text(
        trayt,
        "Op\\Gt",
    ) || same_text(trayt, "Op\\And") || same_text(trayt, "Op\\Or") {
        Ok(RawType::Bool)
    } else if same_text(trayt, "String") {
        Ok(RawType::String)
    } else {
        error(ErrorMessage::UndefinedTrait(String::from_str(trayt)))
    }
}

/// The name under which the field of a local of the enclosing type is
/// known among the locals.
pub open spec fn friendly_name(local: Seq<char>, field: Seq<char>) -> Seq<char> {
    local + "."@ + field
}

/// The types of the branches, each with the matched value bound to
/// `local_name` at the type of the branch.
pub open spec fn branch_types(
    branches: Seq<(Type, EvaluationView)>,
    local_name: Seq<char>,
    context: Signatures,
    locals: LocalsView,
    zelf: Option<Type>,
) -> Result<Seq<Type>, TypFault>
    decreases branches,
{
    if branches.len() == 0 {
        Ok(Seq::empty())
    } else {
        match branch_types(branches.drop_last(), local_name, context, locals, zelf) {
            Err(fault) => Err(fault),
            Ok(types) => match typed(
                branches.last().1,
                context,
                locals.push((local_name, branches.last().0)),
                zelf,
            ) {
                Err(fault) => Err(fault),
                Ok(typ) => Ok(types.push(typ)),
            },
        }
    }
}

/// The type of an evaluation before `Self` is replaced.
pub open spec fn typed_open(
    eval: EvaluationView,
    context: Signatures,
    locals: LocalsView,
    zelf: Option<Type>,
) -> Result<Type, TypFault>
    decreases eval, 0nat,
{
    match eval {
        EvaluationView::Let(lett, _) => Ok(context.lets.items[lett as int].1),
        EvaluationView::Trait(trayt, subject, _) => match typed(*subject, context, locals, zelf) {
            Err(fault) => Err(fault),
            Ok(Type::Raw(raw)) => {
                let name = context.traits.items[trayt as int].full_name;
                match raw_output(raw, name) {
                    Some(output) => Ok(Type::Raw(output)),
                    None => Err(TypFault::UndefinedTrait(name)),
                }
            },
            Ok(subject) => {
                let output = context.traits.items[trayt as int].output;
                if output is Zelf {
                    Ok(subject)
                } else {
                    Ok(output)
                }
            },
        },
        EvaluationView::Literal(value) => Ok(
            Type::Raw(crate::runtime::raw_operation::raw_kind(value)),
        ),
        EvaluationView::Local(name) => match local_type(locals, name) {
            Some(typ) => Ok(typ),
            None => Err(TypFault::NoLocal(name)),
        },
        EvaluationView::FriendlyField(local, field) => match local_type(
            locals,
            friendly_name(local, field),
        ) {
            Some(typ) => Ok(typ),
            None => Err(TypFault::NoLocal(friendly_name(local, field))),
        },
        EvaluationView::Match(local_name, _, branches) => match branch_types(
            branches,
            local_name,
            context,
            locals,
            zelf,
        ) {
            Ok(types) => Ok(united(types)),
            Err(fault) => Err(fault),
        },
        EvaluationView::IfElse(_, iff, els) => match typed(*iff, context, locals, zelf) {
            Err(fault) => Err(fault),
            Ok(iff) => match typed(*els, context, locals, zelf) {
                Err(fault) => Err(fault),
                Ok(els) => Ok(Type::Or(Box::new(iff), Box::new(els))),
            },
        },
        EvaluationView::Zelf => match zelf {
            Some(typ) => Ok(typ),
            None => Err(TypFault::NoSelf),
        },
        EvaluationView::Void => Ok(Type::Void),
        EvaluationView::ClassConstructor(id) => Ok(context.classes[id as int]),
        EvaluationView::StructConstructor(id) => Ok(context.structs[id as int]),
    }
}

/// The type of the result of an evaluation, among the given locals and
/// inside the enclosing type `zelf`, if there is one: a call of a let has
/// the output type of the let; a call of a trait on a raw value has the raw
/// type that the operation gives, on another value the output type of the
/// trait, or the type of the subject where that is `Self`; a match has the
/// types of its branches united by `|`, and so has an if-else those of its
/// arms. In the end the enclosing type takes the place of `Self`.
pub open spec fn typed(
    eval: EvaluationView,
    context: Signatures,
    locals: LocalsView,
    zelf: Option<Type>,
) -> Result<Type, TypFault>
    decreases eval, 1nat,
{
    match typed_open(eval, context, locals, zelf) {
        Err(fault) => Err(fault),
        Ok(typ) => match zelf {
            Some(self_type) => Ok(with_self(typ, self_type)),
            None => Ok(typ),
        },
    }
}

/// A copy of a type that may be absent.
pub fn copy_self(zelf: &Option<Type>) -> (r: Option<Type>)
    ensures
        r == *zelf,
{
    match zelf {
        Some(typ) => Some(typ.clone()),
        None => None,
    }
}

impl Evaluation {
    /// Returns the type of the result of this evaluation.
    pub fn typ(&self, scope: &SemanticScope) -> (r: CResult<Type>)
        requires
            self.within(scope.context.bounds()),
        ensures
            match typed(self@, scope.context.signatures(), locals_view(scope.locals@), scope.zelf) {
                Ok(typ) => r == Ok::<Type, CompilationError>(typ),
                Err(fault) => r matches Err(e) && fault.reported_by(e),
            },
    {
        self.typ_among(scope.context, &scope.locals, &scope.zelf)
    }

    /// The type of the result of this evaluation among the given locals.
    pub fn typ_among(
        &self,
        context: &SemanticContext,
        locals: &Vec<(String, Type)>,
        zelf: &Option<Type>,
    ) -> (r: CResult<Type>)
        requires
            self.within(context.bounds()),
        ensures
            match typed(self@, context.signatures(), locals_view(locals@), *zelf) {
                Ok(typ) => r == Ok::<Type, CompilationError>(typ),
                Err(fault) => r matches Err(e) && fault.reported_by(e),
            },
        decreases self,
    {
        let typ = match self {
            Evaluation::Let(call) => context.lets.get(call.lett).output.clone(),
            Evaluation::Trait(call) => {
                let subject = call.subject.typ_among(context, locals, zelf)?;
                let trayt = context.traits.get(call.trayt);
                match subject {
                    Type::Raw(raw) => Type::Raw(
                        raw_operation_output_type(&raw, trayt.full_name.as_str())?,
                    ),
                    _ => match &trayt.output {
                        // If the trait returns a Self type, the output type is identical to the subject's type.
                        Type::Zelf => subject,
                        output => output.clone(),
                    },
                }
            },
            Evaluation::Literal(raw_value) => Type::Raw(RawType::from(raw_value)),
            Evaluation::Local(name) => match find_local(locals, name.as_str()) {
                Some(typ) => typ.clone(),
                None => {
                    return error(ErrorMessage::NoResolution("local variable", name.clone()));
                },
            },
            Evaluation::FriendlyField(ff) => {
                let mut name = ff.local_name.clone();
                name.append(".");
                name.append(ff.field_name.as_str());
                match find_local(locals, name.as_str()) {
                    Some(typ) => typ.clone(),
                    None => {
                        return error(ErrorMessage::NoResolution("local variable", name));
                    },
                }
            },
            Evaluation::Match(call) => {
                let mut types: Vec<Type> = Vec::new();
                let mut i: usize = 0;
                let ghost views = eval_branches_view(call.branches@);
                proof {
                    lemma_eval_branches_view(call.branches@);
                }
                assert(views.subrange(0, 0) == Seq::<(Type, EvaluationView)>::empty());
                while i < call.branches.len()
                    invariant
                        i <= call.branches.len(),
                        *self == Evaluation::Match(*call),
                        self.within(context.bounds()),
                        views == eval_branches_view(call.branches@),
                        views.len() == call.branches@.len(),
                        forall|k: int|
                            0 <= k < call.branches@.len() ==> (#[trigger] views[k]) == (
                                call.branches@[k].0,
                                eval_view(call.branches@[k].1),
                            ),
                        branch_types(
                            views.subrange(0, i as int),
                            call.local_name@,
                            context.signatures(),
                            locals_view(locals@),
                            *zelf,
                        ) == Ok::<Seq<Type>, TypFault>(types@),
                    decreases call.branches.len() - i,
                {
                    // Add matched type to scope for each branch to determine the output type.
                    let mut branch_locals = copy_locals(locals);
                    branch_locals.push((call.local_name.clone(), call.branches[i].0.clone()));
                    proof {
                        lemma_branches_within(call.branches@, context.bounds(), i as int);
                        assert(views.subrange(0, i + 1).drop_last() == views.subrange(0, i as int));
                        assert(views.subrange(0, i + 1).last() == views[i as int]);
                        assert(locals_view(branch_locals@) =~= locals_view(locals@).push(
                            (call.local_name@, call.branches@[i as int].0),
                        ));
                    }
                    let branch = &call.branches[i].1;
                    match branch.typ_among(context, &branch_locals, zelf) {
                        Ok(typ) => types.push(typ),
                        Err(e) => {
                            proof {
                                lemma_branch_fault(
                                    views,
                                    call.local_name@,
                                    context.signatures(),
                                    locals_view(locals@),
                                    *zelf,
                                    i + 1,
                                );
                            }
                            return Err(e);
                        },
                    }
                    i += 1;
                }
                assert(views.subrange(0, i as int) == views);
                unite_types(types)
            },
            Evaluation::IfElse(call) => {
                let iff = call.iff.typ_among(context, locals, zelf)?;
                let els = call.els.typ_among(context, locals, zelf)?;
                Type::Or(Box::new(iff), Box::new(els))
            },
            Evaluation::Zelf => match zelf {
                Some(typ) => typ.clone(),
                None => {
                    return error(ErrorMessage::NoSelf);
                },
            },
            Evaluation::Void => Type::Void,
            Evaluation::ClassConstructor(id) => context.classes[*id].interface(),
            Evaluation::StructConstructor(id) => context.structs[*id].interface(),
        };

        // Substitute 'Self' for actual type if possible
        let typ = match zelf {
            Some(self_typ) => resolve_self_types(typ, self_typ),
            None => typ,
        };

        Ok(typ)
    }
}

/// A fault among the first branches is the fault of all branches.
pub proof fn lemma_branch_fault(
    branches: Seq<(Type, EvaluationView)>,
    local_name: Seq<char>,
    context: Signatures,
    locals: LocalsView,
    zelf: Option<Type>,
    upto: int,
)
    requires
        0 <= upto <= branches.len(),
        branch_types(branches.subrange(0, upto), local_name, context, locals, zelf) is Err,
    ensures
        branch_types(branches, local_name, context, locals, zelf) == branch_types(
            branches.subrange(0, upto),
            local_name,
            context,
            locals,
            zelf,
        ),
    decreases branches.len() - upto,
{
    if upto < branches.len() {
        assert(branches.subrange(0, upto + 1).drop_last() == branches.subrange(0, upto));
        lemma_branch_fault(branches, local_name, context, locals, zelf, upto + 1);
    } else {
        assert(branches.subrange(0, upto) == branches);
    }
}

/// The full name of the trait that a binary operator calls.
pub open spec fn binary_trait(op: BinaryOp) -> Seq<char> {
    match op {
        BinaryOp::Add => "Op\\Add"@,
        BinaryOp::Sub => "Op\\Sub"@,
        BinaryOp::Mul => "Op\\Mul"@,
        BinaryOp::Div => "Op\\Div"@,
        BinaryOp::Eq => "Op\\Eq"@,
        BinaryOp::Lt => "Op\\Lt"@,
        BinaryOp::Gt => "Op\\Gt"@,
        BinaryOp::And => "Op\\And"@,
        BinaryOp::Or => "Op\\Or"@,
    }
}

/// The full name of the trait that a binary operator calls.
pub fn binary_trait_of(op: BinaryOp) -> (r: &'static str)
    ensures
        r@ == binary_trait(op),
{
    match op {
        BinaryOp::Add => "Op\\Add",
        BinaryOp::Sub => "Op\\Sub",
        BinaryOp::Mul => "Op\\Mul",
        BinaryOp::Div => "Op\\Div",
        BinaryOp::Eq => "Op\\Eq",
        BinaryOp::Lt => "Op\\Lt",
        BinaryOp::Gt => "Op\\Gt",
        BinaryOp::And => "Op\\And",
        BinaryOp::Or => "Op\\Or",
    }
}

/// The full name of the trait that a unary operator calls.
pub open spec fn unary_trait(op: UnaryOp) -> Seq<char> {
    match op {
        UnaryOp::Neg => "Op\\Neg"@,
        UnaryOp::Not => "Op\\Not"@,
    }
}

/// The full name of the trait that a unary operator calls.
pub fn unary_trait_of(op: UnaryOp) -> (r: &'static str)
    ensures
        r@ == unary_trait(op),
{
    match op {
        UnaryOp::Neg => "Op\\Neg",
        UnaryOp::Not => "Op\\Not",
    }
}

/// The result, with an error moved to the given range of tokens.
pub fn at_range<T>(result: CResult<T>, range: Span) -> (r: CResult<T>)
    ensures
        match result {
            Ok(value) => r == Ok::<T, CompilationError>(value),
            Err(e) => r matches Err(moved) && moved.message == e.message && moved.context == Some(
                ErrorContext::TokenRange(range),
            ) && moved@ == e@.at(range),
        },
{
    match result {
        Ok(value) => Ok(value),
        Err(e) => Err(e.context(ErrorContext::TokenRange(range))),
    }
}

/// The input types with the subject's type in the place of `Self`.
pub open spec fn self_inputs(inputs: LocalsView, subject: Type) -> LocalsView {
    Seq::new(inputs.len(), |i: int| (inputs[i].0, with_self(inputs[i].1, subject)))
}

/// The error that says that no local has the name, over the range.
pub open spec fn no_local(name: Seq<char>, range: Span) -> ErrorView {
    ErrorView::of(MessageView::NoResolution("local variable"@, name)).at(range)
}

/// The scope with one more local.
pub open spec fn with_local(scope: ScopeView, name: Seq<char>, typ: Type) -> ScopeView {
    ScopeView { locals: scope.locals.push((name, typ)), ..scope }
}

/// The named inputs analysed one after the other; the first that cannot be
/// analysed gives the error.
pub open spec fn analysed_inputs(inputs: Seq<(String, ExpressionStatement)>, scope: ScopeView)
    -> Result<EvalInputs, ErrorView>
    decreases inputs, 0nat,
{
    if inputs.len() == 0 {
        Ok(Seq::empty())
    } else {
        match analysed_inputs(inputs.drop_last(), scope) {
            Err(error) => Err(error),
            Ok(done) => match analysed(inputs.last().1, scope) {
                Err(error) => Err(error),
                Ok(eval) => Ok(done.push((inputs.last().0@, eval))),
            },
        }
    }
}

/// The branches analysed one after the other, each with the matched value
/// bound to `local_name` at the type of the branch; the first that cannot
/// be analysed gives the error.
pub open spec fn analysed_branches(
    branches: Seq<(TypeStatement, ExpressionStatement)>,
    local_name: Seq<char>,
    scope: ScopeView,
) -> Result<Seq<(Type, EvaluationView)>, ErrorView>
    decreases branches, 0nat,
{
    if branches.len() == 0 {
        Ok(Seq::empty())
    } else {
        match analysed_branches(branches.drop_last(), local_name, scope) {
            Err(error) => Err(error),
            Ok(done) => match analysed_type(branches.last().0, scope.context, scope.path) {
                Err(fault) => Err(fault.error()),
                Ok(typ) => match analysed(
                    branches.last().1,
                    with_local(scope, local_name, typ),
                ) {
                    Err(error) => Err(error),
                    Ok(eval) => Ok(done.push((typ, eval))),
                },
            },
        }
    }
}

/// The call of a let or trait with the inputs coerced to the input types
/// and checked against them; an error covers the range.
pub open spec fn checked_inputs(
    types: LocalsView,
    inputs: EvalInputs,
    scope: ScopeView,
    range: Span,
) -> Result<EvalInputs, ErrorView> {
    match coerced_inputs(types, inputs, scope, 0, Seq::empty()) {
        Err(error) => Err(error.at(range)),
        Ok(coerced) => match check_error(types, coerced, scope) {
            Some(error) => Err(error.at(range)),
            None => Ok(coerced),
        },
    }
}

/// What the analysis of an expression in a scope gives. An operator is a
/// call of its trait on the left operand with the right operand as the
/// input `rhs`; where one operand is raw and the other is not, the raw one
/// is coerced to the type of the other. A call by a dot is resolved by its
/// name among the traits that can be called on the subject's type, and the
/// trait of that full name is called; a call by a name is resolved among
/// the lets from the scope. The inputs of a call are coerced to the input
/// types and then checked against them. A local must be there. The
/// condition of an if-else must be a raw boolean or a value on which the
/// trait `Bool` can be called. An error that comes from a name, from the
/// inputs of a call or from the condition covers the whole expression.
pub open spec fn analysed(statement: ExpressionStatement, scope: ScopeView) -> Result<
    EvaluationView,
    ErrorView,
>
    decreases statement, 1nat,
{
    let range = statement.token_range;
    let context = scope.context;
    match statement.expression {
        Expression::Binary(call) => match context.traits.resolved(binary_trait(call.op), ""@) {
            None => Err(context.traits.no_resolution(binary_trait(call.op)).at(range)),
            Some(trayt) => match analysed(*call.lhs, scope) {
                Err(error) => Err(error),
                Ok(lhs) => match analysed(*call.rhs, scope) {
                    Err(error) => Err(error),
                    Ok(rhs) => match typed(lhs, context, scope.locals, scope.zelf) {
                        Err(fault) => Err(fault.error()),
                        Ok(left) => match typed(rhs, context, scope.locals, scope.zelf) {
                            Err(fault) => Err(fault.error()),
                            Ok(right) => if left is Raw && !(right is Raw) {
                                match coerced(right, lhs, scope) {
                                    Err(error) => Err(error),
                                    Ok(lhs) => Ok(
                                        EvaluationView::Trait(
                                            trayt as usize,
                                            Box::new(lhs),
                                            seq![("rhs"@, rhs)],
                                        ),
                                    ),
                                }
                            } else if right is Raw && !(left is Raw) {
                                match coerced(left, rhs, scope) {
                                    Err(error) => Err(error),
                                    Ok(rhs) => Ok(
                                        EvaluationView::Trait(
                                            trayt as usize,
                                            Box::new(lhs),
                                            seq![("rhs"@, rhs)],
                                        ),
                                    ),
                                }
                            } else {
                                Ok(
                                    EvaluationView::Trait(
                                        trayt as usize,
                                        Box::new(lhs),
                                        seq![("rhs"@, rhs)],
                                    ),
                                )
                            },
                        },
                    },
                },
            },
        },
        Expression::Unary(call) => match context.traits.resolved(unary_trait(call.op), ""@) {
            None => Err(context.traits.no_resolution(unary_trait(call.op)).at(range)),
            Some(trayt) => match analysed(*call.subject, scope) {
                Err(error) => Err(error),
                Ok(subject) => Ok(
                    EvaluationView::Trait(trayt as usize, Box::new(subject), Seq::empty()),
                ),
            },
        },
        Expression::Def(call) => match analysed(*call.subject, scope) {
            Err(error) => Err(error),
            Ok(subject) => match typed(subject, context, scope.locals, scope.zelf) {
                Err(fault) => Err(fault.error()),
                Ok(subject_type) => {
                    let names = callable_list(subject_type, context, scope.zelf);
                    match declared_all(names, names.len() as int) {
                        Err(twice) => Err(
                            ErrorView::of(MessageView::DoubleDeclaration("Trait"@, names[twice])),
                        ),
                        Ok(paths) => match resolved_in(paths, call.name@, ""@) {
                            None => Err(
                                ErrorView::of(
                                    MessageView::NoResolution("Trait"@, call.name@),
                                ).at(range),
                            ),
                            Some(short) => match context.traits.resolved(names[short], ""@) {
                                None => Err(context.traits.no_resolution(names[short]).at(range)),
                                Some(trayt) => match analysed_inputs(call.inputs@, scope) {
                                    Err(error) => Err(error),
                                    Ok(inputs) => match checked_inputs(
                                        self_inputs(
                                            context.traits.items[trayt].inputs,
                                            subject_type,
                                        ),
                                        inputs,
                                        scope,
                                        range,
                                    ) {
                                        Err(error) => Err(error),
                                        Ok(inputs) => Ok(
                                            EvaluationView::Trait(
                                                trayt as usize,
                                                Box::new(subject),
                                                inputs,
                                            ),
                                        ),
                                    },
                                },
                            },
                        },
                    }
                },
            },
        },
        Expression::Let(call) => match context.lets.resolved(call.name@, scope.path) {
            None => Err(context.lets.no_resolution(call.name@).at(range)),
            Some(lett) => match analysed_inputs(call.inputs@, scope) {
                Err(error) => Err(error),
                Ok(inputs) => match checked_inputs(
                    context.lets.items[lett].0,
                    inputs,
                    scope,
                    range,
                ) {
                    Err(error) => Err(error),
                    Ok(inputs) => Ok(EvaluationView::Let(lett as usize, inputs)),
                },
            },
        },
        Expression::Literal(value) => Ok(EvaluationView::Literal(value@)),
        Expression::Local(name) => if local_type(scope.locals, name@) is None {
            Err(no_local(name@, range))
        } else {
            Ok(EvaluationView::Local(name@))
        },
        Expression::FriendlyField(field) => if local_type(scope.locals, field.local_name@)
            is None {
            Err(no_local(field.local_name@, range))
        } else {
            Ok(EvaluationView::FriendlyField(field.local_name@, field.field_name@))
        },
        Expression::Match(call) => match analysed_branches(
            call.branches@,
            call.local_name@,
            scope,
        ) {
            Err(error) => Err(error),
            Ok(branches) => match analysed(*call.subject, scope) {
                Err(error) => Err(error),
                Ok(subject) => Ok(
                    EvaluationView::Match(call.local_name@, Box::new(subject), branches),
                ),
            },
        },
        Expression::IfElse(call) => match analysed(*call.condition, scope) {
            Err(error) => Err(error),
            Ok(condition) => match typed(condition, context, scope.locals, scope.zelf) {
                Err(fault) => Err(fault.error()),
                Ok(condition_type) => if condition_type != Type::Raw(RawType::Bool) && !callable(
                    condition_type,
                    names_of(context.traits),
                    scope.zelf,
                    true,
                ).contains("Bool"@) {
                    Err(
                        ErrorView::of(
                            MessageView::TypeMismatch(
                                "if condition"@,
                                type_text(Type::Raw(RawType::Bool), names_of(context.traits)),
                                type_text(condition_type, names_of(context.traits)),
                            ),
                        ).at(range),
                    )
                } else {
                    match analysed(*call.iff, scope) {
                        Err(error) => Err(error),
                        Ok(iff) => match analysed(*call.els, scope) {
                            Err(error) => Err(error),
                            Ok(els) => Ok(
                                EvaluationView::IfElse(
                                    Box::new(condition),
                                    Box::new(iff),
                                    Box::new(els),
                                ),
                            ),
                        },
                    }
                },
            },
        },
        Expression::Zelf => Ok(EvaluationView::Zelf),
        Expression::Void => Ok(EvaluationView::Void),
    }
}

/// The input types of a trait with the subject's type in the place of
/// `Self`.
pub fn input_types_for(inputs: &Vec<(String, Type)>, subject: &Type) -> (r: Vec<(String, Type)>)
    ensures
        r@.len() == inputs@.len(),
        forall|i: int|
            0 <= i < r@.len() ==> (#[trigger] r@[i]).0 == inputs@[i].0 && r@[i].1 == with_self(
                inputs@[i].1,
                *subject,
            ),
        locals_view(r@) == self_inputs(locals_view(inputs@), *subject),
{
    let mut out: Vec<(String, Type)> = Vec::new();
    let mut i: usize = 0;
    while i < inputs.len()
        invariant
            i <= inputs.len(),
            out@.len() == i,
            forall|k: int|
                0 <= k < i ==> (#[trigger] out@[k]).0 == inputs@[k].0 && out@[k].1 == with_self(
                    inputs@[k].1,
                    *subject,
                ),
        decreases inputs.len() - i,
    {
        out.push((inputs[i].0.clone(), resolve_self_types(inputs[i].1.clone(), subject)));
        i += 1;
    }
    assert(locals_view(out@) =~= self_inputs(locals_view(inputs@), *subject));
    out
}

/// Whether one of the sorted names is the given one.
pub fn has_name(names: &Vec<String>, name: &str) -> (r: bool)
    ensures
        r == crate::text::text_set(names@).contains(name@),
{
    let mut i: usize = 0;
    while i < names.len()
        invariant
            i <= names.len(),
            forall|k: int| 0 <= k < i ==> (#[trigger] names@[k])@ != name@,
        decreases names.len() - i,
    {
        if same_text(names[i].as_str(), name) {
            assert(crate::text::holds_text(names@, name@));
            return true;
        }
        i += 1;
    }
    assert(!crate::text::holds_text(names@, name@));
    false
}

/// An error among the first inputs is the error of all inputs.
pub proof fn lemma_analysed_inputs_error(
    inputs: Seq<(String, ExpressionStatement)>,
    scope: ScopeView,
    upto: int,
)
    requires
        0 <= upto <= inputs.len(),
        analysed_inputs(inputs.subrange(0, upto), scope) is Err,
    ensures
        analysed_inputs(inputs, scope) == analysed_inputs(inputs.subrange(0, upto), scope),
    decreases inputs.len() - upto,
{
    if upto < inputs.len() {
        assert(inputs.subrange(0, upto + 1).drop_last() == inputs.subrange(0, upto));
        lemma_analysed_inputs_error(inputs, scope, upto + 1);
    } else {
        assert(inputs.subrange(0, upto) == inputs);
    }
}

/// An error among the first branches is the error of all branches.
pub proof fn lemma_analysed_branches_error(
    branches: Seq<(TypeStatement, ExpressionStatement)>,
    local_name: Seq<char>,
    scope: ScopeView,
    upto: int,
)
    requires
        0 <= upto <= branches.len(),
        analysed_branches(branches.subrange(0, upto), local_name, scope) is Err,
    ensures
        analysed_branches(branches, local_name, scope) == analysed_branches(
            branches.subrange(0, upto),
            local_name,
            scope,
        ),
    decreases branches.len() - upto,
{
    if upto < branches.len() {
        assert(branches.subrange(0, upto + 1).drop_last() == branches.subrange(0, upto));
        lemma_analysed_branches_error(branches, local_name, scope, upto + 1);
    } else {
        assert(branches.subrange(0, upto) == branches);
    }
}

/// Analyses named inputs one after the other.
pub fn analyse_inputs(inputs: &Vec<(String, ExpressionStatement)>, scope: &SemanticScope) -> (r:
    CResult<Vec<(String, Evaluation)>>)
    ensures
        yields_inputs(r, analysed_inputs(inputs@, scope@)),
        r matches Ok(out) ==> inputs_within(out@, scope.context.bounds()),
    decreases inputs,
{
    let mut out: Vec<(String, Evaluation)> = Vec::new();
    let mut i: usize = 0;
    assert(inputs@.subrange(0, 0) == Seq::<(String, ExpressionStatement)>::empty());
    while i < inputs.len()
        invariant
            i <= inputs.len(),
            out@.len() == i,
            inputs_within(out@, scope.context.bounds()),
            analysed_inputs(inputs@.subrange(0, i as int), scope@) == Ok::<EvalInputs, ErrorView>(
                eval_inputs_view(out@),
            ),
        decreases inputs.len() - i,
    {
        let ghost done = out@;
        assert(inputs@.subrange(0, i + 1).drop_last() == inputs@.subrange(0, i as int));
        match Evaluation::analyse(&inputs[i].1, scope) {
            Ok(eval) => {
                out.push((inputs[i].0.clone(), eval));
                assert(out@.drop_last() == done);
            },
            Err(e) => {
                proof {
                    lemma_analysed_inputs_error(inputs@, scope@, i + 1);
                }
                return Err(e);
            },
        }
        i += 1;
    }
    assert(inputs@.subrange(0, i as int) == inputs@);
    Ok(out)
}

/// Analyses the branches of a match one after the other, each with the
/// matched value bound to `local_name` at the type of the branch.
pub fn analyse_branches(
    branches: &Vec<(TypeStatement, ExpressionStatement)>,
    local_name: &String,
    scope: &SemanticScope,
) -> (r: CResult<Vec<(Type, Evaluation)>>)
    ensures
        match analysed_branches(branches@, local_name@, scope@) {
            Ok(expected) => r matches Ok(out) && eval_branches_view(out@) == expected,
            Err(error) => r matches Err(e) && e@ == error,
        },
        r matches Ok(out) ==> branches_within(out@, scope.context.bounds()),
    decreases branches,
{
    let mut out: Vec<(Type, Evaluation)> = Vec::new();
    let mut i: usize = 0;
    assert(branches@.subrange(0, 0) == Seq::<(TypeStatement, ExpressionStatement)>::empty());
    while i < branches.len()
        invariant
            i <= branches.len(),
            out@.len() == i,
            branches_within(out@, scope.context.bounds()),
            analysed_branches(branches@.subrange(0, i as int), local_name@, scope@) == Ok::<
                Seq<(Type, EvaluationView)>,
                ErrorView,
            >(eval_branches_view(out@)),
        decreases branches.len() - i,
    {
        let ghost done = out@;
        assert(branches@.subrange(0, i + 1).drop_last() == branches@.subrange(0, i as int));
        let typ = match Type::analyse(&branches[i].0, scope.context, scope.path) {
            Ok(typ) => typ,
            Err(e) => {
                proof {
                    lemma_analysed_branches_error(branches@, local_name@, scope@, i + 1);
                }
                return Err(e);
            },
        };

        // Add the matched local to the scope for this branch.
        let mut locals = copy_locals(&scope.locals);
        locals.push((local_name.clone(), typ.clone()));
        let branch_scope = SemanticScope {
            context: scope.context,
            path: scope.path,
            locals,
            zelf: copy_self(&scope.zelf),
        };
        proof {
            assert(locals_view(branch_scope.locals@) =~= locals_view(scope.locals@).push(
                (local_name@, typ),
            ));
            assert(branch_scope@ == with_local(scope@, local_name@, typ));
        }

        match Evaluation::analyse(&branches[i].1, &branch_scope) {
            Ok(eval) => {
                out.push((typ, eval));
                assert(out@.drop_last() == done);
            },
            Err(e) => {
                proof {
                    lemma_analysed_branches_error(branches@, local_name@, scope@, i + 1);
                }
                return Err(e);
            },
        }
        i += 1;
    }
    assert(branches@.subrange(0, i as int) == branches@);
    Ok(out)
}

impl Evaluation {
    /// Resolves the names of an expression in a scope. An operator becomes
    /// a call of its trait on the left operand; where one operand is raw and
    /// the other is not, the raw one is coerced. A call by a dot is resolved
    /// among the traits that can be called on the subject's type; a call by
    /// a name, among the lets. The inputs of a call are coerced to and then
    /// checked against the input types. An error that comes from a name or
    /// from the inputs of a call covers the whole expression.
    #[verifier::rlimit(60)]
    pub fn analyse(statement: &ExpressionStatement, scope: &SemanticScope) -> (r: CResult<Self>)
        ensures
            yields(r, analysed(*statement, scope@)),
            r matches Ok(eval) ==> eval.within(scope.context.bounds()),
        decreases statement,
    {
        let range = statement.token_range;

        let eval = match &statement.expression {
            Expression::Binary(call) => {
                let trayt = at_range(
                    scope.context.traits.resolve(binary_trait_of(call.op), ""),
                    range,
                )?;

                let lhs = Evaluation::analyse(&call.lhs, scope)?;
                let rhs = Evaluation::analyse(&call.rhs, scope)?;

                let left_type = lhs.typ(scope)?;
                let right_type = rhs.typ(scope)?;

                let left_is_raw = match left_type {
                    Type::Raw(_) => true,
                    _ => false,
                };
                let right_is_raw = match right_type {
                    Type::Raw(_) => true,
                    _ => false,
                };

                // If one is raw and the other is not, coerce one side into a struct.
                let (lhs, rhs) = if left_is_raw && !right_is_raw {
                    (coerce_type(&right_type, lhs, scope)?, rhs)
                } else if right_is_raw && !left_is_raw {
                    (lhs, coerce_type(&left_type, rhs, scope)?)
                } else {
                    (lhs, rhs)
                };

                let ghost view = rhs@;
                let mut inputs: Vec<(String, Evaluation)> = Vec::new();
                inputs.push((String::from_str("rhs"), rhs));
                assert(inputs@.drop_last() == Seq::<(String, Evaluation)>::empty());
                assert(inputs_within(inputs@.drop_last(), scope.context.bounds()));
                assert(inputs_within(inputs@, scope.context.bounds()));
                assert(eval_inputs_view(inputs@) == seq![("rhs"@, view)]) by {
                    assert(eval_inputs_view(inputs@.drop_last()) == EvalInputs::empty());
                    assert(EvalInputs::empty().push(("rhs"@, view)) =~= seq![("rhs"@, view)]);
                }

                Evaluation::Trait(TraitEvaluation { trayt, subject: Box::new(lhs), inputs })
            },
            Expression::Unary(call) => {
                let trayt = at_range(
                    scope.context.traits.resolve(unary_trait_of(call.op), ""),
                    range,
                )?;

                let subject = Evaluation::analyse(&call.subject, scope)?;
                let inputs: Vec<(String, Evaluation)> = Vec::new();
                assert(inputs_within(inputs@, scope.context.bounds()));
                assert(eval_inputs_view(inputs@) == EvalInputs::empty());

                Evaluation::Trait(TraitEvaluation { trayt, subject: Box::new(subject), inputs })
            },
            Expression::Def(call) => {
                let subject = Evaluation::analyse(&call.subject, scope)?;
                let subject_type = subject.typ(scope)?;

                // Make a temporary trait table using only traits defined on the subject.
                let callable = subject_type.callable_traits(scope);
                let trait_name_table = name_table(&callable)?;
                let short = at_range(trait_name_table.resolve(call.name.as_str(), ""), range)?;
                let trait_name = trait_name_table.get(short);
                assert(trait_name@ == crate::text::texts(callable@)[short as int]);

                let trayt = at_range(scope.context.traits.resolve(trait_name.as_str(), ""), range)?;

                // Resolve all 'Self' types within input types with the current subject.
                let input_types = input_types_for(
                    &scope.context.traits.get(trayt).inputs,
                    &subject_type,
                );

                let inputs = analyse_inputs(&call.inputs, scope)?;

                let inputs = at_range(coerce_types(&input_types, inputs, scope), range)?;
                at_range(check_types(&input_types, &inputs, scope), range)?;

                Evaluation::Trait(TraitEvaluation { trayt, subject: Box::new(subject), inputs })
            },
            Expression::Let(call) => {
                let lett = at_range(
                    scope.context.lets.resolve(call.name.as_str(), scope.path),
                    range,
                )?;

                let inputs = analyse_inputs(&call.inputs, scope)?;

                let input_types = &scope.context.lets.get(lett).inputs;
                let inputs = at_range(coerce_types(input_types, inputs, scope), range)?;
                at_range(check_types(input_types, &inputs, scope), range)?;

                Evaluation::Let(LetEvaluation { lett, inputs })
            },
            Expression::Literal(value) => Evaluation::Literal(value.duplicate()),
            Expression::Local(name) => {
                if find_local(&scope.locals, name.as_str()).is_none() {
                    return error_at(
                        range,
                        ErrorMessage::NoResolution("local variable", name.clone()),
                    );
                }

                Evaluation::Local(name.clone())
            },
            Expression::FriendlyField(ff) => {
                if find_local(&scope.locals, ff.local_name.as_str()).is_none() {
                    return error_at(
                        range,
                        ErrorMessage::NoResolution("local variable", ff.local_name.clone()),
                    );
                }

                Evaluation::FriendlyField(
                    FriendlyField {
                        local_name: ff.local_name.clone(),
                        field_name: ff.field_name.clone(),
                    },
                )
            },
            Expression::Match(call) => {
                let branches = analyse_branches(&call.branches, &call.local_name, scope)?;

                let subject = Evaluation::analyse(&call.subject, scope)?;
                let match_eval = MatchEvaluation {
                    local_name: call.local_name.clone(),
                    subject: Box::new(subject),
                    branches,
                };

                Evaluation::Match(match_eval)
            },
            Expression::IfElse(call) => {
                let condition = Evaluation::analyse(&call.condition, scope)?;

                let condition_type = condition.typ(scope)?;

                // Verify that the condition expression returns a boolean.
                let is_raw_bool = match condition_type {
                    Type::Raw(RawType::Bool) => true,
                    _ => false,
                };
                if !is_raw_bool && !has_name(&condition_type.callable_traits(scope), "Bool") {
                    return error_at(
                        range,
                        ErrorMessage::TypeMismatch(
                            String::from_str("if condition"),
                            Type::Raw(RawType::Bool).describe(&scope.context.traits),
                            condition_type.describe(&scope.context.traits),
                        ),
                    );
                }

                let iff = Evaluation::analyse(&call.iff, scope)?;
                let els = Evaluation::analyse(&call.els, scope)?;

                let if_else_eval = IfElseEvaluation {
                    condition: Box::new(condition),
                    iff: Box::new(iff),
                    els: Box::new(els),
                };

                Evaluation::IfElse(if_else_eval)
            },
            Expression::Zelf => Evaluation::Zelf,
            Expression::Void => Evaluation::Void,
        };
        Ok(eval)
    }
}

} // verus!
