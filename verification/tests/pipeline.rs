use compost::ast::abstract_syntax_tree::AbstractSyntaxTree;
use compost::ast::raw_value::RawValue;
use compost::lex::tokenizer::tokenize;
use compost::run::{run, run_code, run_main, run_program, RunError};
use compost::runtime::evaluate::evaluate;
use compost::runtime::instance::{Instance, RuntimeError};
use compost::sem::semantic_analyser::{analyse_ast, SemanticContext};

const PRELUDE: &str = "
mod Op
    traits
        Add: (rhs: Self) -> Self
        Sub: (rhs: Self) -> Self
        Mul: (rhs: Self) -> Self
        Div: (rhs: Self) -> Self
        Neg: Self
        Eq: (rhs: Self) -> Bool
        Lt: (rhs: Self) -> Bool
        Gt: (rhs: Self) -> Bool
        And: (rhs: Self) -> Self
        Or: (rhs: Self) -> Self

mod String
    struct
        value: string
    defs
        Op\\Add: String(value: value + rhs.value)
        Op\\Eq: Bool(value: value = rhs.value)
        String: Self

mod Int
    struct
        value: int
    defs
        Op\\Add: Int(value: value + rhs.value)
        Op\\Sub: Int(value: value - rhs.value)
        Op\\Mul: Int(value: value * rhs.value)
        Op\\Div: Int(value: value / rhs.value)
        Op\\Neg: Int(value: -value)
        Op\\Eq: Bool(value: value = rhs.value)
        Op\\Lt: Bool(value: value < rhs.value)
        Op\\Gt: Bool(value: value > rhs.value)
        String: value.String

mod Bool
    struct
        value: bool
    defs
        Op\\Eq: Bool(value: value = rhs.value)
        Op\\And: Bool(value: value & rhs.value)
        Op\\Or: Bool(value: value | rhs.value)
        String: if value then String(value: 'true') else String(value: 'false')
        Bool: Self
";

fn analyse(code: &str) -> SemanticContext {
    let all = format!("{}{}", PRELUDE, code);
    let mut tokens = tokenize(&all).unwrap();
    let ast = AbstractSyntaxTree::parse(&mut tokens).unwrap();
    analyse_ast(ast).unwrap()
}

fn evaluate_main(code: &str) -> Result<Instance, RuntimeError> {
    let context = analyse(code);
    let main = context.lets.resolve("Main", "").unwrap();
    evaluate(&context.lets.get(main).evaluation, &vec![], &None, &context, 1000)
}

fn output(code: &str) -> String {
    run_code(PRELUDE, code, 1000)
}

#[test]
fn test_int_add() {
    // Int(value: 1) + Int(value: 2)
    let result = evaluate_main("
lets
    Main: Int
        Int(value: 1) + Int(value: 2)
")
    .unwrap();

    let instance = match &result {
        Instance::Struct(strukt_instance) => strukt_instance,
        _ => panic!(),
    };

    let value = match instance.field("value") {
        Some(RawValue::Int(value)) => value,
        _ => panic!(),
    };

    assert_eq!(*value, 3);
}

#[test]
fn test_int_sub() {
    // Int(value: 3) - Int(value: 2)
    let result = evaluate_main("
lets
    Main: Int
        Int(value: 3) - Int(value: 2)
")
    .unwrap();

    let instance = match &result {
        Instance::Struct(strukt_instance) => strukt_instance,
        _ => panic!(),
    };

    let value = match instance.field("value") {
        Some(RawValue::Int(value)) => value,
        _ => panic!(),
    };

    assert_eq!(*value, 1);
}

#[test]
fn output_of_a_constant() {
    assert_eq!(output("
lets
    Main: String
        'Hello'
"), "Hello");
}

#[test]
fn output_of_arithmetic_is_left_to_right() {
    // No precedence: operators chain from left to right.
    assert_eq!(output("
lets
    Main: Int
        2 + 3 * 4
"), "20");
    assert_eq!(output("
lets
    Main: Int
        10 - 4 - 3
"), "3");
    assert_eq!(output("
lets
    Main: Int
        100 / 5 / 2 - 1
"), "9");
    assert_eq!(output("
lets
    Main: Int
        -1 + 2
"), "1");
}

#[test]
fn raw_literals_are_coerced_to_structs() {
    assert_eq!(output("
lets
    Main: Int
        1 + Int(value: 2)
"), "3");
    assert_eq!(output("
lets
    Main: Int
        Int(value: 40) + 2
"), "42");
}

#[test]
fn lets_with_inputs_are_functions() {
    assert_eq!(output("
lets
    Double: (x: Int) -> Int
        x + x
    Main: Int
        Double(x: 21) + Double(x: Double(x: 2))
"), "50");
}

#[test]
fn if_chooses_an_arm() {
    assert_eq!(output("
lets
    Main: String
        if 1 < 2 then 'Yes' else 'No'
"), "Yes");
    assert_eq!(output("
lets
    Main: String
        if Int(value: 3) < Int(value: 2) then 'Yes' else 'No'
"), "No");
}

#[test]
fn classes_hold_dependencies_and_defs() {
    assert_eq!(output("
mod Point
    class
        x: Int
        y: Int
    traits
        Sum: Int
    defs
        Sum: x + y
        String: .Sum.String

lets
    Main: Point
        Point(x: 30, y: 15)
"), "45");
}

#[test]
fn automatic_definitions_come_from_the_owning_module() {
    assert_eq!(output("
mod Shape
    traits
        Width: Int
        Height: Int
        Area: Int
    defs
        Area: .Width * .Height

mod Rect
    class
        w: Int
        h: Int
    defs
        Shape\\Width: w
        Shape\\Height: h
        String: .Area.String

lets
    Main: Rect
        Rect(w: 5, h: 10)
"), "50");
}

#[test]
fn match_takes_the_first_branch_that_fits() {
    let program = "
mod Cat
    class
        name: String
    traits
        Meow: String
    defs
        Meow: name

mod Dog
    class
        name: String
    traits
        Bark: String
    defs
        Bark: name

lets
    Describe: (pet: Cat | Dog) -> String
        match p pet
            Cat 'cat ' + p.Meow
            Dog 'dog ' + p.Bark
    Main: String
        Describe(pet: Dog(name: 'Fifi')) + ', ' + Describe(pet: Cat(name: 'Bob'))
";
    assert_eq!(output(program), "dog Fifi, cat Bob");
}

#[test]
fn unmatched_match_is_a_runtime_error() {
    let result = evaluate_main("
lets
    Main: String
        match x 1
            String 'text'
");
    assert_eq!(result.unwrap_err(), RuntimeError::UnmatchedMatch);
}

#[test]
fn runtime_errors_of_raw_operations() {
    assert_eq!(
        evaluate_main("
lets
    Main: Int
        1 / 0
")
        .unwrap_err(),
        RuntimeError::DivisionByZero
    );
    assert_eq!(
        evaluate_main("
lets
    Main: Int
        9223372036854775807 + 1
")
        .unwrap_err(),
        RuntimeError::Overflow
    );
}

#[test]
fn endless_recursion_runs_out_of_depth() {
    let result = evaluate_main("
lets
    Loop: Int
        Loop
    Main: Int
        Loop
");
    assert_eq!(result.unwrap_err(), RuntimeError::DepthExceeded);
}

#[test]
fn evaluation_is_deterministic() {
    let program = "
lets
    Main: Int
        Int(value: 6) * 7 - 2
";
    assert_eq!(output(program), "40");
    assert_eq!(output(program), output(program));
}

#[test]
fn unexpected_character_is_located_in_the_user_file() {
    let code = "lets\n    Main: Int\n        1 + £\n";
    assert_eq!(
        run_code(PRELUDE, code, 1000),
        "Unexpected character £ at line 3 col 13"
    );
    match run("1 + £", 10) {
        Err(RunError::Compilation(error)) => {
            assert_eq!(
                error.message,
                compost::error::ErrorMessage::UnexpectedChar("£".to_string())
            );
            assert_eq!(
                error.context,
                Some(compost::error::ErrorContext::Character(4))
            );
        }
        _ => panic!(),
    }
}

#[test]
fn missing_main_is_reported() {
    assert_eq!(output(""), "No resolution for Let 'Main'");
}

#[test]
fn the_steps_of_a_run_agree_with_the_whole() {
    let code = "
lets
    Main: String
        Int(value: 20) + 22
";
    let all = format!("{}{}", PRELUDE, code);
    let whole = run(&all, 1000).unwrap();
    assert_eq!(whole, "42");

    let mut tokens = tokenize(&all).unwrap();
    let ast = AbstractSyntaxTree::parse(&mut tokens).unwrap();
    assert_eq!(run_program(ast, 1000).unwrap(), whole);

    let context = analyse(code);
    assert_eq!(run_main(&context, 1000).unwrap(), whole);
    // Without depth nothing is evaluated.
    assert!(matches!(
        run_main(&context, 0),
        Err(RunError::Runtime(RuntimeError::DepthExceeded))
    ));
}

#[test]
fn a_program_without_main_has_no_outcome() {
    let context = analyse("");
    match run_main(&context, 1000) {
        Err(RunError::Compilation(error)) => {
            assert_eq!(error.message.text(), "No resolution for Let 'Main'");
            assert_eq!(error.context, None);
        }
        _ => panic!("a program without Main ran"),
    }
}

#[test]
fn default_definitions_give_what_their_trait_promises() {
    // The raw number of the default definition becomes an Int.
    assert_eq!(output("
mod Shape
    traits
        Sides: Int
        Name: String
    defs
        Sides: 4

mod Square
    class
        side: Int
    defs
        Shape\\Name: 'square'

lets
    Main: Int
        Square(side: 1).Sides + 1
"), "5");
    // A default definition that gives something else is a mismatch, also
    // where no class or struct stands beside it.
    let all = format!("{}{}", PRELUDE, "
mod Shape
    traits
        Sides: Int
    defs
        Sides: ?
");
    match run(&all, 100) {
        Err(RunError::Compilation(error)) => {
            assert!(error.message.text().starts_with("Type mismatch for 'Sides'."));
        }
        _ => panic!("a def that does not fit was accepted"),
    }
}
