//! Whether a given type can stand where another is expected.

use crate::error::error;
use crate::error::CResult;
use crate::error::CompilationError;
use crate::error::ErrorMessage;
use crate::error::ErrorView;
use crate::error::MessageView;
use crate::sem::evaluation::eval_inputs_view;
use crate::sem::evaluation::eval_view;
use crate::sem::evaluation::inputs_within;
use crate::sem::evaluation::lemma_eval_inputs_view;
use crate::sem::evaluation::EvalInputs;
use crate::sem::semantic_analyser::locals_view;
use crate::sem::semantic_analyser::LocalsView;
use crate::sem::semantic_analyser::ScopeView;
use crate::sem::evaluation::lemma_inputs_within;
use crate::sem::evaluation::typed;
use crate::sem::evaluation::Evaluation;
use crate::sem::evaluation::TypFault;
use crate::sem::semantic_analyser::SemanticScope;
use crate::sem::typ::names_of;
use crate::sem::typ::type_text;
use crate::sem::typ::Type;
use crate::text::same_text;
use vstd::prelude::*;

verus! {

/// Whether `given` holds `contained` along its `&` chain. `?` is held by
/// every type.
pub open spec fn contains(given: Type, contained: Type) -> bool
    decreases given,
{
    given == contained || contained == Type::Void || match given {
        Type::And(a, b) => contains(*a, contained) || contains(*b, contained),
        _ => false,
    }
}

/// Whether `given` is suitable where `expected` is required. A given union
/// fits where one of its branches does. Of another given type: anything
/// fits `?`; an atom must be held by `given`; `a & b` asks for both, `a | b`
/// for one of the two.
pub open spec fn fits(given: Type, expected: Type) -> bool
    decreases given, expected,
{
    match given {
        Type::Or(left, right) => fits(*left, expected) || fits(*right, expected),
        _ => match expected {
            Type::Void => true,
            Type::Raw(_) | Type::Zelf | Type::Trait(_) => contains(given, expected),
            Type::Or(a, b) => fits(given, *a) || fits(given, *b),
            Type::And(a, b) => fits(given, *a) && fits(given, *b),
        },
    }
}

/// Index of the first input with the given name, from `from` on.
pub open spec fn first_input(inputs: EvalInputs, name: Seq<char>, from: int) -> Option<int>
    decreases inputs.len() - from,
{
    if !(0 <= from < inputs.len()) {
        None
    } else if inputs[from].0 == name {
        Some(from)
    } else {
        first_input(inputs, name, from + 1)
    }
}

/// Why inputs do not satisfy the types that are asked of them.
pub enum CheckFault {
    /// No input has the name.
    Missing(Seq<char>),
    /// The input of the name has the second type, which does not fit the
    /// first.
    Mismatch(Seq<char>, Type, Type),
    /// An input has no type.
    Untyped(TypFault),
}

impl CheckFault {
    /// The error that reports this fault, without a location; types are
    /// written with the given names of traits.
    pub open spec fn error(self, names: Seq<Seq<char>>) -> ErrorView {
        match self {
            CheckFault::Missing(name) => ErrorView::of(MessageView::MissingInput(name)),
            CheckFault::Mismatch(name, expected, given) => ErrorView::of(
                MessageView::TypeMismatch(
                    name,
                    type_text(expected, names),
                    type_text(given, names),
                ),
            ),
            CheckFault::Untyped(fault) => fault.error(),
        }
    }

    /// Whether `e` reports this fault.
    pub open spec fn reported_by(self, e: CompilationError, names: Seq<Seq<char>>) -> bool {
        e@ == self.error(names)
    }
}

/// Whether the inputs satisfy the expected types from index `from` on: for
/// each expected name, in order, the first input of that name has a type
/// that fits. The first name that fails gives the fault.
pub open spec fn checked(types: LocalsView, inputs: EvalInputs, scope: ScopeView, from: int)
    -> Result<(), CheckFault>
    decreases types.len() - from,
{
    if !(0 <= from < types.len()) {
        Ok(())
    } else {
        let name = types[from].0;
        match first_input(inputs, name, 0) {
            None => Err(CheckFault::Missing(name)),
            Some(i) => match typed(inputs[i].1, scope.context, scope.locals, scope.zelf) {
                Err(fault) => Err(CheckFault::Untyped(fault)),
                Ok(given) => if fits(given, types[from].1) {
                    checked(types, inputs, scope, from + 1)
                } else {
                    Err(CheckFault::Mismatch(name, types[from].1, given))
                },
            },
        }
    }
}

/// The error, if there is one, that checking the inputs gives.
pub open spec fn check_error(types: LocalsView, inputs: EvalInputs, scope: ScopeView) -> Option<
    ErrorView,
> {
    match checked(types, inputs, scope, 0) {
        Ok(()) => None,
        Err(fault) => Some(fault.error(names_of(scope.context.traits))),
    }
}

/// Looks an input up by its name.
pub fn find_input<'a>(inputs: &'a Vec<(String, Evaluation)>, name: &str) -> (r: Option<usize>)
    ensures
        match r {
            Some(i) => first_input(eval_inputs_view(inputs@), name@, 0) == Some(i as int) && i
                < inputs@.len(),
            None => first_input(eval_inputs_view(inputs@), name@, 0) is None,
        },
{
    let ghost views = eval_inputs_view(inputs@);
    proof {
        lemma_eval_inputs_view(inputs@);
    }
    let mut i: usize = 0;
    while i < inputs.len()
        invariant
            i <= inputs.len(),
            views == eval_inputs_view(inputs@),
            views.len() == inputs@.len(),
            forall|k: int|
                0 <= k < inputs@.len() ==> (#[trigger] views[k]) == (
                    inputs@[k].0@,
                    eval_view(inputs@[k].1),
                ),
            first_input(views, name@, 0) == first_input(views, name@, i as int),
        decreases inputs.len() - i,
    {
        if same_text(inputs[i].0.as_str(), name) {
            return Some(i);
        }
        i += 1;
    }
    None
}

/// Checks if a set of inputed evaluations satisfies a set of expected types.
pub fn check_types(
    types: &Vec<(String, Type)>,
    inputs: &Vec<(String, Evaluation)>,
    scope: &SemanticScope,
) -> (r: CResult<()>)
    requires
        inputs_within(inputs@, scope.context.bounds()),
    ensures
        match check_error(locals_view(types@), eval_inputs_view(inputs@), scope@) {
            None => r is Ok,
            Some(error) => r matches Err(e) && e@ == error,
        },
{
    proof {
        lemma_eval_inputs_view(inputs@);
    }
    let mut k: usize = 0;
    while k < types.len()
        invariant
            k <= types.len(),
            inputs_within(inputs@, scope.context.bounds()),
            eval_inputs_view(inputs@).len() == inputs@.len(),
            forall|j: int|
                0 <= j < inputs@.len() ==> (#[trigger] eval_inputs_view(inputs@)[j]) == (
                    inputs@[j].0@,
                    eval_view(inputs@[j].1),
                ),
            checked(locals_view(types@), eval_inputs_view(inputs@), scope@, 0) == checked(
                locals_view(types@),
                eval_inputs_view(inputs@),
                scope@,
                k as int,
            ),
        decreases types.len() - k,
    {
        let name = &types[k].0;
        let typ = &types[k].1;
        match find_input(inputs, name.as_str()) {
            Some(i) => {
                proof {
                    lemma_inputs_within(inputs@, scope.context.bounds(), i as int);
                }
                let given = inputs[i].1.typ(scope)?;
                if check_type_fits(&given, typ).is_err() {
                    return error(
                        ErrorMessage::TypeMismatch(
                            name.clone(),
                            typ.describe(&scope.context.traits),
                            given.describe(&scope.context.traits),
                        ),
                    );
                }
            },
            None => {
                return error(ErrorMessage::MissingInput(name.clone()));
            },
        }
        k += 1;
    }
    Ok(())
}

/// Checks whether the given type is suitable to be used where the expected type is required.
pub fn check_type_fits(given: &Type, expected: &Type) -> (r: Result<(), ()>)
    ensures
        r is Ok == fits(*given, *expected),
    decreases given, expected,
{
    match given {
        Type::Or(left, right) => {
            return match check_type_fits(left, expected) {
                Ok(()) => Ok(()),
                Err(_) => check_type_fits(right, expected),
            };
        },
        _ => {},
    }
    match expected {
        Type::Void => Ok(()),
        Type::Raw(_) | Type::Zelf | Type::Trait(_) => {
            if type_contains(given, expected) {
                Ok(())
            } else {
                Err(())
            }
        },
        Type::Or(a, b) => match check_type_fits(given, a) {
            Ok(()) => Ok(()),
            Err(_) => check_type_fits(given, b),
        },
        Type::And(a, b) => {
            check_type_fits(given, a)?;
            check_type_fits(given, b)
        },
    }
}

/// Checks whether the given types contains a certain other type within an & chain.
pub fn type_contains(given: &Type, contained: &Type) -> (r: bool)
    ensures
        r == contains(*given, *contained),
    decreases given,
{
    if given.same(contained) {
        return true;
    }
    match contained {
        Type::Void => {
            return true;
        },
        _ => {},
    }
    match given {
        Type::And(a, b) => type_contains(a, contained) || type_contains(b, contained),
        _ => false,
    }
}

/// Every type fits `?`.
pub proof fn lemma_void_is_top(given: Type)
    ensures
        fits(given, Type::Void),
    decreases given,
{
    match given {
        Type::Or(left, right) => {
            lemma_void_is_top(*left);
        },
        _ => {},
    }
}

/// A type in which no `|` occurs fits every type in which none occurs and
/// whose atoms it holds.
pub proof fn lemma_holds_fits(given: Type, part: Type)
    requires
        given.is_or_free(),
        part.is_or_free(),
        forall|atom: Type| atom.is_atomic() && #[trigger] contains(part, atom) ==> contains(given, atom),
    ensures
        fits(given, part),
    decreases part,
{
    match part {
        Type::And(a, b) => {
            assert forall|atom: Type| atom.is_atomic() && #[trigger] contains(*a, atom) implies contains(given, atom) by {
                assert(contains(part, atom));
            }
            assert forall|atom: Type| atom.is_atomic() && #[trigger] contains(*b, atom) implies contains(given, atom) by {
                assert(contains(part, atom));
            }
            lemma_holds_fits(given, *a);
            lemma_holds_fits(given, *b);
        },
        Type::Or(_, _) => {},
        _ => {
            assert(contains(part, part));
        },
    }
}

/// The fit relation is reflexive on every type in which no `|` occurs; the
/// atomic types are among them.
pub proof fn lemma_fits_reflexive(t: Type)
    requires
        t.is_or_free(),
    ensures
        fits(t, t),
{
    lemma_holds_fits(t, t);
}

/// The fit relation is transitive through an atomic type: what fits an
/// atomic type fits everything that the atomic type fits.
pub proof fn lemma_fits_transitive(given: Type, middle: Type, expected: Type)
    requires
        middle.is_atomic(),
        fits(given, middle),
        fits(middle, expected),
    ensures
        fits(given, expected),
    decreases given, expected,
{
    match given {
        Type::Or(left, right) => {
            if fits(*left, middle) {
                lemma_fits_transitive(*left, middle, expected);
            } else {
                lemma_fits_transitive(*right, middle, expected);
            }
        },
        _ => match expected {
            Type::Or(a, b) => {
                if fits(middle, *a) {
                    lemma_fits_transitive(given, middle, *a);
                } else {
                    lemma_fits_transitive(given, middle, *b);
                }
            },
            Type::And(a, b) => {
                lemma_fits_transitive(given, middle, *a);
                lemma_fits_transitive(given, middle, *b);
            },
            _ => {},
        },
    }
}

/// A union fits what one of its branches fits, and nothing else.
pub proof fn lemma_union_fits(left: Type, right: Type, expected: Type)
    ensures
        fits(Type::Or(Box::new(left), Box::new(right)), expected) == (fits(left, expected) || fits(
            right,
            expected,
        )),
{
}

} // verus!
