//! Lets: named values and functions.

use crate::ast::let_statement::LetStatement;
use crate::error::CResult;
use crate::error::ErrorView;
use crate::sem::evaluation::analysed;
use crate::sem::evaluation::EvaluationView;
use crate::sem::semantic_analyser::locals_view;
use crate::sem::semantic_analyser::LocalsView;
use crate::sem::semantic_analyser::ScopeView;
use crate::sem::typ::analysed_signature;
use crate::sem::type_coercion::coerced;
use crate::sem::evaluation::Evaluation;
use crate::sem::semantic_analyser::copy_locals;
use crate::sem::semantic_analyser::SemanticContext;
use crate::sem::semantic_analyser::Signatures;
use crate::sem::semantic_analyser::SemanticScope;
use crate::sem::typ::analyse_parameters;
use crate::sem::typ::analysed_parameters;
use crate::sem::typ::analysed_type;
use crate::sem::typ::typed_parameters;
use crate::sem::typ::Type;
use crate::sem::typ::TypeFault;
use crate::sem::type_coercion::coerce_type;
use vstd::prelude::*;

verus! {

// A 'let' defines a constant instance or a function.
#[derive(Debug)]
pub struct Let {
    pub inputs: Vec<(String, Type)>,
    pub output: Type,
    pub evaluation: Evaluation,
}

/// The first fault among the parameter types and the output type of a
/// signature, if there is one.
pub open spec fn signature_fault(
    parameters: Result<Seq<Type>, TypeFault>,
    output: Result<Type, TypeFault>,
) -> Option<TypeFault> {
    match parameters {
        Err(fault) => Some(fault),
        Ok(_) => match output {
            Err(fault) => Some(fault),
            Ok(_) => None,
        },
    }
}

/// A let as a mathematical value: the inputs, the output type and the
/// body.
pub struct LetView {
    pub inputs: LocalsView,
    pub output: Type,
    pub evaluation: EvaluationView,
}

impl View for Let {
    type V = LetView;

    open spec fn view(&self) -> LetView {
        LetView {
            inputs: locals_view(self.inputs@),
            output: self.output,
            evaluation: self.evaluation@,
        }
    }
}

/// The scope in which the body of a let is analysed: the inputs as locals,
/// without `Self`.
pub open spec fn let_scope(context: Signatures, path: Seq<char>, inputs: LocalsView)
    -> ScopeView {
    ScopeView { context, path, locals: inputs, zelf: None }
}

/// The body of a let: its expression analysed among the inputs and
/// coerced to the output type.
pub open spec fn analysed_body(
    statement: LetStatement,
    context: Signatures,
    path: Seq<char>,
    inputs: LocalsView,
    output: Type,
) -> Result<EvaluationView, ErrorView> {
    match analysed(statement.expr, let_scope(context, path, inputs)) {
        Err(error) => Err(error),
        Ok(eval) => coerced(output, eval, let_scope(context, path, inputs)),
    }
}

/// The signature of a let: the inputs and the output type, with `Self` as
/// the placeholder of the body.
pub open spec fn declared_let(statement: LetStatement, context: Signatures, path: Seq<char>)
    -> Result<LetView, ErrorView> {
    match analysed_signature(statement.parameters@, context, path) {
        Err(error) => Err(error),
        Ok(inputs) => match analysed_type(statement.output, context, path) {
            Err(fault) => Err(fault.error()),
            Ok(output) => Ok(LetView { inputs, output, evaluation: EvaluationView::Zelf }),
        },
    }
}

/// The let that a statement stands for in the scope `path`.
pub open spec fn analysed_let(statement: LetStatement, context: Signatures, path: Seq<char>)
    -> Result<LetView, ErrorView> {
    match declared_let(statement, context, path) {
        Err(error) => Err(error),
        Ok(lett) => match analysed_body(statement, context, path, lett.inputs, lett.output) {
            Err(error) => Err(error),
            Ok(evaluation) => Ok(LetView { evaluation, ..lett }),
        },
    }
}

/// Whether `r` is the let or the error that is expected.
pub open spec fn yields_let(r: CResult<Let>, expected: Result<LetView, ErrorView>) -> bool {
    match expected {
        Ok(lett) => r matches Ok(found) && found@ == lett,
        Err(error) => r matches Err(found) && found@ == error,
    }
}

impl Let {
    /// Whether this let has the signature that the statement declares in the
    /// scope `path`: the names of the parameters with the types that the
    /// written types stand for, and the output type.
    pub open spec fn declares(
        &self,
        statement: LetStatement,
        context: Signatures,
        path: Seq<char>,
    ) -> bool {
        &&& analysed_parameters(statement.parameters@, context, path) matches Ok(types)
            && typed_parameters(statement.parameters@, types, self.inputs@)
        &&& analysed_type(statement.output, context, path) == Ok::<Type, TypeFault>(self.output)
    }

    /// An earlier stage analysis that analyses only the inputs and output.
    pub fn analyse_just_types(statement: &LetStatement, context: &SemanticContext, path: &str) -> (r:
        CResult<Self>)
        ensures
            match signature_fault(
                analysed_parameters(statement.parameters@, context.signatures(), path@),
                analysed_type(statement.output, context.signatures(), path@),
            ) {
                None => r matches Ok(lett) && lett.declares(*statement, context.signatures(), path@)
                    && lett.evaluation is Zelf,
                Some(fault) => r matches Err(e) && fault.reported_by(e),
            },
            yields_let(r, declared_let(*statement, context.signatures(), path@)),
    {
        let inputs = analyse_parameters(&statement.parameters, context, path)?;

        let output = Type::analyse(&statement.output, context, path)?;

        let lett = Let { inputs, output, evaluation: Evaluation::Zelf };

        Ok(lett)
    }

    /// The body of the let with the given number, analysed among the inputs
    /// that the context holds for it, without `Self`, and coerced to its
    /// output type.
    pub fn analyse_body(
        statement: &LetStatement,
        context: &SemanticContext,
        path: &str,
        id: usize,
    ) -> (r: CResult<Evaluation>)
        requires
            id < context.lets.items@.len(),
        ensures
            crate::sem::type_coercion::yields(
                r,
                analysed_body(
                    *statement,
                    context.signatures(),
                    path@,
                    context.signatures().lets.items[id as int].0,
                    context.signatures().lets.items[id as int].1,
                ),
            ),
            r matches Ok(body) ==> body.within(context.bounds()),
    {
        let lett = context.lets.get(id);
        let scope = SemanticScope { context, path, locals: copy_locals(&lett.inputs), zelf: None };

        let evaluation = Evaluation::analyse(&statement.expr, &scope)?;
        coerce_type(&lett.output, evaluation, &scope)
    }

    /// The final analysis: the signature, and the body analysed among the
    /// inputs, without `Self`, and coerced to the output type.
    pub fn analyse(statement: &LetStatement, context: &SemanticContext, path: &str) -> (r: CResult<
        Self,
    >)
        ensures
            r matches Ok(lett) ==> lett.declares(*statement, context.signatures(), path@)
                && lett.evaluation.within(context.bounds()),
            signature_fault(
                analysed_parameters(statement.parameters@, context.signatures(), path@),
                analysed_type(statement.output, context.signatures(), path@),
            ) matches Some(fault) ==> r matches Err(e) && fault.reported_by(e),
            yields_let(r, analysed_let(*statement, context.signatures(), path@)),
    {
        let lett = Self::analyse_just_types(statement, context, path)?;

        let scope = SemanticScope { context, path, locals: copy_locals(&lett.inputs), zelf: None };

        let evaluation = Evaluation::analyse(&statement.expr, &scope)?;
        let evaluation = coerce_type(&lett.output, evaluation, &scope)?;

        let lett = Let { inputs: lett.inputs, output: lett.output, evaluation };

        Ok(lett)
    }
}

} // verus!
