//! The whole pipeline: from source text to the output of `Main`.

use crate::ast::abstract_syntax_tree::AbstractSyntaxTree;
use crate::error::CompilationError;
use crate::error::ErrorContext;
use crate::error::ErrorMessage;
use crate::ast::abstract_syntax_tree::spec_program;
use crate::lex::tokenizer::spec_tokenize;
use crate::runtime::evaluate::evaluated;
use crate::runtime::evaluate::shown;
use crate::sem::passes::analysed_program;
use crate::sem::semantic_analyser::SemanticContext;
use crate::lex::tokenizer::tokenize;
use crate::runtime::evaluate::evaluate;
use crate::runtime::instance::members_view;
use crate::runtime::instance::Instance;
use crate::runtime::instance::RuntimeError;
use crate::sem::semantic_analyser::analyse_ast;
use crate::text::concat_text;
use vstd::prelude::*;
use vstd::string::StringExecFns;

verus! {

/// Why a program gives no output.
#[derive(Debug)]
pub enum RunError {
    /// The program is not a program: it cannot be tokenized, parsed or
    /// analysed.
    Compilation(CompilationError),
    /// The evaluation of `Main` fails.
    Runtime(RuntimeError),
}

impl RuntimeError {
    /// The error in words.
    pub open spec fn spec_text(self) -> Seq<char> {
        match self {
            RuntimeError::RawTypeMismatch => "Raw operation on a value of the wrong kind"@,
            RuntimeError::MissingInput => "Missing input"@,
            RuntimeError::UnmatchedMatch => "None of the branches matched"@,
            RuntimeError::UndefinedTrait => "Trait is not defined on the value"@,
            RuntimeError::NoSelf => "Can't use 'Self' in global scope"@,
            RuntimeError::NoField => "Friendly field does not exist"@,
            RuntimeError::Overflow => "Number does not fit"@,
            RuntimeError::DivisionByZero => "Division by zero"@,
            RuntimeError::DepthExceeded => "Calls are nested too deep"@,
            RuntimeError::BrokenReference => "Reference to nothing"@,
        }
    }

    /// The error in words.
    pub fn text(&self) -> (r: &'static str)
        ensures
            r@ == self.spec_text(),
    {
        match self {
            RuntimeError::RawTypeMismatch => "Raw operation on a value of the wrong kind",
            RuntimeError::MissingInput => "Missing input",
            RuntimeError::UnmatchedMatch => "None of the branches matched",
            RuntimeError::UndefinedTrait => "Trait is not defined on the value",
            RuntimeError::NoSelf => "Can't use 'Self' in global scope",
            RuntimeError::NoField => "Friendly field does not exist",
            RuntimeError::Overflow => "Number does not fit",
            RuntimeError::DivisionByZero => "Division by zero",
            RuntimeError::DepthExceeded => "Calls are nested too deep",
            RuntimeError::BrokenReference => "Reference to nothing",
        }
    }
}

/// Whether `e` reports that the character `c` at the byte `offset` starts
/// no token.
pub open spec fn reports_char(e: CompilationError, c: char, offset: nat) -> bool {
    &&& e.context == Some(ErrorContext::Character(offset as usize))
    &&& e.message matches ErrorMessage::UnexpectedChar(text) && text@ == seq![c]
}

/// Whether `r` is what an analysed program gives: the string that the
/// value of the let `Main`, evaluated without inputs, stands for; the error
/// of the evaluation where it fails; the error that says that `Main`
/// resolves to nothing where no such let is declared.
pub open spec fn outcome_of(r: Result<String, RunError>, context: SemanticContext, fuel: nat)
    -> bool {
    match context.lets.resolved("Main"@, ""@) {
        None => r matches Err(RunError::Compilation(e)) && e@ == context.lets.no_resolution(
            "Main"@,
        ),
        Some(id) => match evaluated(
            context,
            context.lets.items@[id].1.evaluation,
            Seq::empty(),
            None,
            fuel,
        ) {
            Err(error) => r matches Err(RunError::Runtime(e)) && e == error,
            Ok(value) => match shown(context, value, fuel) {
                Err(error) => r matches Err(RunError::Runtime(e)) && e == error,
                Ok(text) => r matches Ok(found) && found@ == text,
            },
        },
    }
}

/// Evaluation of `Main` is deterministic: whatever an analysed program
/// gives for the same depth, it is the same output or the same error.
pub proof fn lemma_outcome_is_deterministic(
    context: SemanticContext,
    fuel: nat,
    a: Result<String, RunError>,
    b: Result<String, RunError>,
)
    requires
        outcome_of(a, context, fuel),
        outcome_of(b, context, fuel),
    ensures
        match (a, b) {
            (Ok(x), Ok(y)) => x@ == y@,
            (Err(RunError::Runtime(x)), Err(RunError::Runtime(y))) => x == y,
            (Err(RunError::Compilation(x)), Err(RunError::Compilation(y))) => x@ == y@,
            _ => false,
        },
{
}

/// Whether `r` is what a parsed program gives: the error of its analysis,
/// or what the analysed program gives.
pub open spec fn analysed_outcome(r: Result<String, RunError>, ast: AbstractSyntaxTree, fuel: nat)
    -> bool {
    match analysed_program(ast) {
        Err(error) => r matches Err(RunError::Compilation(e)) && e@ == error,
        Ok(analysed) => exists|context: SemanticContext|
            #[trigger] context@ == analysed && outcome_of(r, context, fuel),
    }
}

/// Whether `r` is what running the code gives: the error of the first of
/// tokenizing, parsing and analysis that fails, or what the analysed program
/// gives.
pub open spec fn runs_as(r: Result<String, RunError>, code: Seq<char>, fuel: nat) -> bool {
    match spec_tokenize(code) {
        Err((c, offset)) => r matches Err(RunError::Compilation(e)) && reports_char(e, c, offset),
        Ok(tokens) => match spec_program(tokens, 0) {
            Err(fault) => r matches Err(RunError::Compilation(e)) && fault.reported_by(e, tokens),
            Ok((program, _)) => exists|ast: AbstractSyntaxTree|
                #[trigger] ast@ == program && analysed_outcome(r, ast, fuel),
        },
    }
}

/// What is shown for the outcome of a run: the output, or the error in
/// words, with its place in lines of the code behind the prelude.
pub open spec fn reported(outcome: Result<String, RunError>, std_code: Seq<char>, code: Seq<char>)
    -> Seq<char> {
    match outcome {
        Ok(output) => output@,
        Err(RunError::Compilation(error)) => error.spec_to_string(std_code, std_code + code),
        Err(RunError::Runtime(error)) => error.spec_text(),
    }
}

/// Runs a program: tokenizes, parses and analyses the code, evaluates the
/// let `Main` without inputs and gives the string that its value stands
/// for. `fuel` says how deep calls may be nested.
pub fn run(code: &str, fuel: usize) -> (r: Result<String, RunError>)
    ensures
        runs_as(r, code@, fuel as nat),
{
    let mut tokens = match tokenize(code) {
        Ok(tokens) => tokens,
        Err(e) => {
            return Err(RunError::Compilation(e));
        },
    };

    let ast = match AbstractSyntaxTree::parse(&mut tokens) {
        Ok(ast) => ast,
        Err(e) => {
            return Err(RunError::Compilation(e));
        },
    };

    let r = run_program(ast, fuel);
    assert(ast@ == spec_program(spec_tokenize(code@)->Ok_0, 0)->Ok_0.0);
    r
}

/// Analyses a parsed program, evaluates the let `Main` without inputs and
/// gives the string that its value stands for.
pub fn run_program(ast: AbstractSyntaxTree, fuel: usize) -> (r: Result<String, RunError>)
    ensures
        analysed_outcome(r, ast, fuel as nat),
{
    let context = match analyse_ast(ast) {
        Ok(context) => context,
        Err(e) => {
            return Err(RunError::Compilation(e));
        },
    };

    let r = run_main(&context, fuel);
    assert(context@ == analysed_program(ast)->Ok_0);
    r
}

/// Evaluates the let `Main` of an analysed program without inputs and
/// gives the string that its value stands for.
pub fn run_main(context: &SemanticContext, fuel: usize) -> (r: Result<String, RunError>)
    ensures
        outcome_of(r, *context, fuel as nat),
{
    let main_let = match context.lets.resolve("Main", "") {
        Ok(id) => id,
        Err(e) => {
            return Err(RunError::Compilation(e));
        },
    };

    let locals: Vec<(String, Instance)> = Vec::new();
    assert(members_view(locals@) =~= Seq::empty());
    let result = match evaluate(
        &context.lets.get(main_let).evaluation,
        &locals,
        &None,
        context,
        fuel,
    ) {
        Ok(result) => result,
        Err(e) => {
            return Err(RunError::Runtime(e));
        },
    };

    match result.to_string(context, fuel) {
        Ok(string) => Ok(string),
        Err(e) => Err(RunError::Runtime(e)),
    }
}

/// Runs the code behind the prelude `std_code`, and gives the output of
/// the program, or the error in words. The place of an error is given in
/// lines of the code, not of the prelude.
pub fn run_code(std_code: &str, code: &str, fuel: usize) -> (r: String)
    ensures
        exists|outcome: Result<String, RunError>| #[trigger]
            runs_as(outcome, std_code@ + code@, fuel as nat) && r@ == reported(
                outcome,
                std_code@,
                code@,
            ),
{
    let all_code = concat_text(std_code, code);

    let outcome = run(all_code.as_str(), fuel);
    let ghost seen = outcome;
    let r = match outcome {
        Ok(result) => result,
        Err(RunError::Compilation(error)) => error.to_string(std_code, all_code.as_str()),
        Err(RunError::Runtime(error)) => String::from_str(error.text()),
    };
    assert(runs_as(seen, std_code@ + code@, fuel as nat) && r@ == reported(
        seen,
        std_code@,
        code@,
    ));
    r
}

} // verus!
