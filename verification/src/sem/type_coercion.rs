//! The one implicit conversion: a raw value becomes the struct of the same
//! raw kind where its own type does not fit.

use crate::ast::type_statement::RawType;
use crate::error::CResult;
use crate::error::error_at;
use crate::error::ErrorMessage;
use crate::error::ErrorView;
use crate::error::MessageView;
use crate::error::Span;
use crate::sem::typ::names_of;
use crate::sem::typ::type_text;
use crate::sem::evaluation::eval_inputs_view;
use crate::sem::evaluation::eval_view;
use crate::sem::evaluation::inputs_within;
use crate::sem::evaluation::lemma_eval_inputs_view;
use crate::sem::evaluation::lemma_inputs_within;
use crate::sem::evaluation::typed;
use crate::sem::evaluation::EvalInputs;
use crate::sem::evaluation::Evaluation;
use crate::sem::evaluation::EvaluationView;
use crate::sem::evaluation::LetEvaluation;
use crate::sem::semantic_analyser::locals_view;
use crate::sem::semantic_analyser::LocalsView;
use crate::sem::semantic_analyser::ScopeView;
use crate::sem::semantic_analyser::SemanticScope;
use crate::sem::typ::Type;
use crate::sem::type_checking::check_type_fits;
use crate::sem::type_checking::fits;
use crate::text::same_text;
use vstd::prelude::*;
use vstd::string::StringExecFns;

verus! {

/// The name of the let that makes a struct of a raw value.
pub open spec fn raw_let_name(raw: RawType) -> Seq<char> {
    match raw {
        RawType::Int => "Int"@,
        RawType::String => "String"@,
        RawType::Bool => "Bool"@,
    }
}

/// The type of the first entry with the given name, from `from` on.
pub open spec fn first_type(types: LocalsView, name: Seq<char>, from: int) -> Option<Type>
    decreases types.len() - from,
{
    if !(0 <= from < types.len()) {
        None
    } else if types[from].0 == name {
        Some(types[from].1)
    } else {
        first_type(types, name, from + 1)
    }
}

/// Whether `r` is the evaluation or the error that is expected.
pub open spec fn yields(r: CResult<Evaluation>, expected: Result<EvaluationView, ErrorView>)
    -> bool {
    match expected {
        Ok(eval) => r matches Ok(found) && found@ == eval,
        Err(error) => r matches Err(found) && found@ == error,
    }
}

/// Whether `r` holds the inputs or the error that is expected.
pub open spec fn yields_inputs(
    r: CResult<Vec<(String, Evaluation)>>,
    expected: Result<EvalInputs, ErrorView>,
) -> bool {
    match expected {
        Ok(inputs) => r matches Ok(found) && eval_inputs_view(found@) == inputs,
        Err(error) => r matches Err(found) && found@ == error,
    }
}

/// What coercing an evaluation to a type gives. An evaluation whose type
/// fits, or is not raw, stays as it is. A raw one becomes the input `value`
/// of a call of the let `Int`, `String` or `Bool`, as found from the scope.
pub open spec fn coerced(typ: Type, before: EvaluationView, scope: ScopeView) -> Result<
    EvaluationView,
    ErrorView,
> {
    match typed(before, scope.context, scope.locals, scope.zelf) {
        Err(fault) => Err(fault.error()),
        Ok(Type::Raw(raw)) => if fits(Type::Raw(raw), typ) {
            Ok(before)
        } else {
            match scope.context.lets.resolved(raw_let_name(raw), scope.path) {
                Some(id) => Ok(EvaluationView::Let(id as usize, seq![("value"@, before)])),
                None => Err(scope.context.lets.no_resolution(raw_let_name(raw))),
            }
        },
        Ok(_) => Ok(before),
    }
}

/// An evaluation whose type fits is kept as it is, and what coercion gives
/// then has a type that fits.
pub proof fn lemma_fitting_is_kept(typ: Type, eval: EvaluationView, scope: ScopeView)
    requires
        typed(eval, scope.context, scope.locals, scope.zelf) matches Ok(given) && fits(given, typ),
    ensures
        coerced(typ, eval, scope) == Ok::<EvaluationView, ErrorView>(eval),
        coerced(typ, eval, scope) matches Ok(kept) && (typed(
            kept,
            scope.context,
            scope.locals,
            scope.zelf,
        ) matches Ok(given) && fits(given, typ)),
{
}

/// What is stored for an expression that must give a value of a type: the
/// evaluation coerced to the type. One whose type does not fit even then is
/// a mismatch, reported over the range under the name.
pub open spec fn fitted(
    name: Seq<char>,
    range: Span,
    expected: Type,
    before: EvaluationView,
    scope: ScopeView,
) -> Result<EvaluationView, ErrorView> {
    match coerced(expected, before, scope) {
        Err(error) => Err(error),
        Ok(eval) => match typed(eval, scope.context, scope.locals, scope.zelf) {
            Err(fault) => Err(fault.error()),
            Ok(given) => if fits(given, expected) {
                Ok(eval)
            } else {
                Err(
                    ErrorView::of(
                        MessageView::TypeMismatch(
                            name,
                            type_text(expected, names_of(scope.context.traits)),
                            type_text(given, names_of(scope.context.traits)),
                        ),
                    ).at(range),
                )
            },
        },
    }
}

/// What is stored has a type, and the type fits.
pub proof fn lemma_fitted_fits(
    name: Seq<char>,
    range: Span,
    expected: Type,
    before: EvaluationView,
    scope: ScopeView,
)
    requires
        fitted(name, range, expected, before, scope) is Ok,
    ensures
        typed(
            fitted(name, range, expected, before, scope)->Ok_0,
            scope.context,
            scope.locals,
            scope.zelf,
        ) matches Ok(given) && fits(given, expected),
{
}

/// `done`, then the inputs from index `from` on, each coerced to the type
/// that `types` gives for its name, if it gives one. The first input that
/// cannot be coerced gives the error.
pub open spec fn coerced_inputs(
    types: LocalsView,
    inputs: EvalInputs,
    scope: ScopeView,
    from: int,
    done: EvalInputs,
) -> Result<EvalInputs, ErrorView>
    decreases inputs.len() - from,
{
    if !(0 <= from < inputs.len()) {
        Ok(done)
    } else {
        match first_type(types, inputs[from].0, 0) {
            Some(typ) => match coerced(typ, inputs[from].1, scope) {
                Ok(eval) => coerced_inputs(
                    types,
                    inputs,
                    scope,
                    from + 1,
                    done.push((inputs[from].0, eval)),
                ),
                Err(error) => Err(error),
            },
            None => coerced_inputs(types, inputs, scope, from + 1, done.push(inputs[from])),
        }
    }
}

/// Looks the type of a name up among the given types.
pub fn find_type<'a>(types: &'a Vec<(String, Type)>, name: &str) -> (r: Option<&'a Type>)
    ensures
        match r {
            Some(typ) => first_type(locals_view(types@), name@, 0) == Some(*typ),
            None => first_type(locals_view(types@), name@, 0) is None,
        },
{
    let mut i: usize = 0;
    while i < types.len()
        invariant
            i <= types.len(),
            first_type(locals_view(types@), name@, 0) == first_type(
                locals_view(types@),
                name@,
                i as int,
            ),
        decreases types.len() - i,
    {
        if same_text(types[i].0.as_str(), name) {
            return Some(&types[i].1);
        }
        i += 1;
    }
    None
}

/// Coerces raw literals into stdlib structs where possible.
pub fn coerce_types(
    types: &Vec<(String, Type)>,
    inputs: Vec<(String, Evaluation)>,
    scope: &SemanticScope,
) -> (r: CResult<Vec<(String, Evaluation)>>)
    requires
        inputs_within(inputs@, scope.context.bounds()),
    ensures
        yields_inputs(
            r,
            coerced_inputs(
                locals_view(types@),
                eval_inputs_view(inputs@),
                scope@,
                0,
                Seq::empty(),
            ),
        ),
        r matches Ok(out) ==> inputs_within(out@, scope.context.bounds()),
{
    let ghost all = inputs@;
    let ghost views = eval_inputs_view(inputs@);
    proof {
        lemma_eval_inputs_view(all);
    }
    let mut rest = inputs;
    let mut out: Vec<(String, Evaluation)> = Vec::new();
    while rest.len() > 0
        invariant
            out@.len() + rest@.len() == all.len(),
            rest@ == all.subrange(out@.len() as int, all.len() as int),
            inputs_within(all, scope.context.bounds()),
            inputs_within(out@, scope.context.bounds()),
            views == eval_inputs_view(all),
            all == inputs@,
            views.len() == all.len(),
            forall|k: int|
                0 <= k < all.len() ==> (#[trigger] views[k]) == (all[k].0@, eval_view(all[k].1)),
            coerced_inputs(locals_view(types@), views, scope@, 0, Seq::empty()) == coerced_inputs(
                locals_view(types@),
                views,
                scope@,
                out@.len() as int,
                eval_inputs_view(out@),
            ),
        decreases rest@.len(),
    {
        let ghost done = out@;
        let ghost at = out@.len() as int;
        let (name, eval) = rest.remove(0);
        proof {
            lemma_inputs_within(all, scope.context.bounds(), at);
            assert(rest@ == all.subrange(at + 1, all.len() as int));
            assert(views[at] == (name@, eval_view(eval)));
        }
        let coerced = match find_type(types, name.as_str()) {
            Some(typ) => coerce_type(typ, eval, scope)?,
            None => eval,
        };
        out.push((name, coerced));
        assert(out@.drop_last() == done);
    }

    Ok(out)
}

/// Coerces raw literals into stdlib structs where possible.
pub fn coerce_type(typ: &Type, eval: Evaluation, scope: &SemanticScope) -> (r: CResult<Evaluation>)
    requires
        eval.within(scope.context.bounds()),
    ensures
        yields(r, coerced(*typ, eval@, scope@)),
        r matches Ok(out) ==> out.within(scope.context.bounds()),
{
    let eval_type = eval.typ(scope)?;

    if check_type_fits(&eval_type, typ).is_ok() {
        // If the type already fits, don't do anything.
        return Ok(eval);
    }
    match eval_type {
        // If the type is raw, turn int into a struct constructor.
        Type::Raw(raw_type) => coerce_raw_to_struct(&raw_type, eval, scope),
        _ => Ok(eval),
    }
}

/// Coerces the evaluation to the type and makes sure that it fits then.
pub fn fit_type(name: &str, range: Span, expected: &Type, eval: Evaluation, scope: &SemanticScope)
    -> (r: CResult<Evaluation>)
    requires
        eval.within(scope.context.bounds()),
    ensures
        yields(r, fitted(name@, range, *expected, eval@, scope@)),
        r matches Ok(out) ==> out.within(scope.context.bounds()),
{
    let evaluation = coerce_type(expected, eval, scope)?;
    let given = evaluation.typ(scope)?;
    if check_type_fits(&given, expected).is_err() {
        return error_at(
            range,
            ErrorMessage::TypeMismatch(
                String::from_str(name),
                expected.describe(&scope.context.traits),
                given.describe(&scope.context.traits),
            ),
        );
    }
    Ok(evaluation)
}

/// Wraps the evaluation in a call of the let that makes a struct of a raw
/// value of the given kind.
fn coerce_raw_to_struct(raw_type: &RawType, eval: Evaluation, scope: &SemanticScope) -> (r:
    CResult<Evaluation>)
    requires
        eval.within(scope.context.bounds()),
    ensures
        yields(
            r,
            match scope.context.lets.resolved(raw_let_name(*raw_type), scope.path@) {
                Some(id) => Ok(EvaluationView::Let(id as usize, seq![("value"@, eval@)])),
                None => Err(scope.context.lets.no_resolution(raw_let_name(*raw_type))),
            },
        ),
        r matches Ok(out) ==> out.within(scope.context.bounds()),
{
    let lett_name = match raw_type {
        RawType::Int => "Int",
        RawType::String => "String",
        RawType::Bool => "Bool",
    };

    let lett = scope.context.lets.resolve(lett_name, scope.path)?;

    let ghost view = eval@;
    let mut inputs: Vec<(String, Evaluation)> = Vec::new();
    inputs.push((String::from_str("value"), eval));
    assert(inputs@.drop_last() == Seq::<(String, Evaluation)>::empty());
    assert(inputs_within(inputs@.drop_last(), scope.context.bounds()));
    assert(inputs_within(inputs@, scope.context.bounds()));
    assert(eval_inputs_view(inputs@) == seq![("value"@, view)]) by {
        assert(eval_inputs_view(inputs@.drop_last()) == EvalInputs::empty());
        assert(EvalInputs::empty().push(("value"@, view)) =~= seq![("value"@, view)]);
    }

    Ok(Evaluation::Let(LetEvaluation { lett, inputs }))
}

} // verus!
