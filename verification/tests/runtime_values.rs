use compost::ast::abstract_syntax_tree::AbstractSyntaxTree;
use compost::ast::expression::FriendlyField;
use compost::ast::raw_value::RawValue;
use compost::ast::type_statement::RawType;
use compost::lex::tokenizer::tokenize;
use compost::runtime::class_instance::ClassInstance;
use compost::runtime::evaluate::{effective_members, evaluate, evaluate_inputs, raw_fields_of};
use compost::runtime::instance::{Instance, RuntimeError};
use compost::runtime::raw_operation::{find_member, raw_operation, raw_text_of};
use compost::runtime::struct_instance::StructInstance;
use compost::sem::evaluation::{Evaluation, LetEvaluation, MatchEvaluation, TraitEvaluation};
use compost::sem::semantic_analyser::{analyse_ast, SemanticContext};
use compost::sem::typ::Type;

const PROGRAM: &str = "
mod Op
    traits
        Add: (rhs: Self) -> Self

mod String
    struct
        value: string
    defs
        String: Self

mod Bool
    struct
        value: bool
    defs
        Bool: Self

mod Int
    struct
        value: int
    defs
        Op\\Add: Int(value: value + rhs.value)
        String: value.String

mod Flag
    class
        on: Bool
    defs
        Bool: on
        String: if Self then String(value: 'on') else String(value: 'off')

mod Silent
    class

lets
    Main: Int
        Int(value: 1)
";

fn context() -> SemanticContext {
    let mut tokens = tokenize(PROGRAM).unwrap();
    analyse_ast(AbstractSyntaxTree::parse(&mut tokens).unwrap()).unwrap()
}

fn number(value: i64) -> Instance {
    Instance::Raw(RawValue::Int(value))
}

fn text(value: &str) -> Instance {
    Instance::Raw(RawValue::String(value.to_string()))
}

fn boolean(value: bool) -> Instance {
    Instance::Raw(RawValue::Bool(value))
}

fn rhs(value: Instance) -> Vec<(String, Instance)> {
    vec![("rhs".to_string(), value)]
}

fn raw(value: &Instance) -> &RawValue {
    match value {
        Instance::Raw(raw) => raw,
        _ => panic!(),
    }
}

fn operate(value: Instance, name: &str, other: Instance) -> Result<RawValue, RuntimeError> {
    raw_operation(raw(&value), name, &rhs(other))
}

#[test]
fn raw_operations_on_integers() {
    assert_eq!(operate(number(2), "Op\\Add", number(3)), Ok(RawValue::Int(5)));
    assert_eq!(operate(number(2), "Op\\Sub", number(3)), Ok(RawValue::Int(-1)));
    assert_eq!(operate(number(-4), "Op\\Mul", number(3)), Ok(RawValue::Int(-12)));
    assert_eq!(operate(number(7), "Op\\Div", number(2)), Ok(RawValue::Int(3)));
    assert_eq!(operate(number(-7), "Op\\Div", number(2)), Ok(RawValue::Int(-3)));
    assert_eq!(operate(number(7), "Op\\Div", number(-2)), Ok(RawValue::Int(-3)));
    assert_eq!(operate(number(7), "Op\\Eq", number(7)), Ok(RawValue::Bool(true)));
    assert_eq!(operate(number(7), "Op\\Lt", number(7)), Ok(RawValue::Bool(false)));
    assert_eq!(operate(number(7), "Op\\Gt", number(-7)), Ok(RawValue::Bool(true)));
    assert_eq!(raw_operation(&RawValue::Int(5), "Op\\Neg", &vec![]), Ok(RawValue::Int(-5)));
    assert_eq!(
        raw_operation(&RawValue::Int(-12), "String", &vec![]),
        Ok(RawValue::String("-12".to_string()))
    );
}

#[test]
fn raw_operations_on_strings_and_booleans() {
    assert_eq!(
        operate(text("ab"), "Op\\Add", text("cd")),
        Ok(RawValue::String("abcd".to_string()))
    );
    assert_eq!(operate(text("ab"), "Op\\Eq", text("ab")), Ok(RawValue::Bool(true)));
    assert_eq!(operate(text("ab"), "Op\\Eq", text("ba")), Ok(RawValue::Bool(false)));
    // Strings are ordered by their length in bytes.
    assert_eq!(operate(text("zz"), "Op\\Lt", text("aaa")), Ok(RawValue::Bool(true)));
    assert_eq!(operate(text("é"), "Op\\Gt", text("z")), Ok(RawValue::Bool(true)));
    assert_eq!(
        raw_operation(&RawValue::String("s".to_string()), "String", &vec![]),
        Ok(RawValue::String("s".to_string()))
    );
    assert_eq!(operate(boolean(true), "Op\\Eq", boolean(false)), Ok(RawValue::Bool(false)));
    assert_eq!(operate(boolean(true), "Op\\And", boolean(false)), Ok(RawValue::Bool(false)));
    assert_eq!(operate(boolean(false), "Op\\Or", boolean(true)), Ok(RawValue::Bool(true)));
    assert_eq!(
        raw_operation(&RawValue::Bool(false), "String", &vec![]),
        Ok(RawValue::String("false".to_string()))
    );
    assert_eq!(raw_text_of(&RawValue::Bool(true)), "true");
}

#[test]
fn raw_operations_fail_on_the_wrong_kind() {
    assert_eq!(operate(number(1), "Op\\Add", text("a")), Err(RuntimeError::RawTypeMismatch));
    assert_eq!(operate(text("a"), "Op\\Sub", text("a")), Err(RuntimeError::RawTypeMismatch));
    assert_eq!(operate(boolean(true), "Op\\Lt", boolean(true)), Err(RuntimeError::RawTypeMismatch));
    assert_eq!(operate(boolean(false), "Op\\And", number(1)), Err(RuntimeError::RawTypeMismatch));
    assert_eq!(operate(number(1), "Op\\And", number(1)), Err(RuntimeError::RawTypeMismatch));
    assert_eq!(raw_operation(&RawValue::Bool(true), "Op\\Neg", &vec![]), Err(RuntimeError::RawTypeMismatch));
    assert_eq!(operate(number(1), "Op\\Add", Instance::Void), Err(RuntimeError::RawTypeMismatch));
    assert_eq!(raw_operation(&RawValue::Int(1), "Op\\Add", &vec![]), Err(RuntimeError::MissingInput));
    assert_eq!(operate(number(1), "Op\\Not", number(1)), Err(RuntimeError::UndefinedTrait));
    assert_eq!(operate(number(1), "Add", number(1)), Err(RuntimeError::UndefinedTrait));
    assert_eq!(operate(number(i64::MAX), "Op\\Add", number(1)), Err(RuntimeError::Overflow));
    assert_eq!(operate(number(i64::MIN), "Op\\Sub", number(1)), Err(RuntimeError::Overflow));
    assert_eq!(operate(number(i64::MAX), "Op\\Mul", number(2)), Err(RuntimeError::Overflow));
    assert_eq!(operate(number(i64::MIN), "Op\\Div", number(-1)), Err(RuntimeError::Overflow));
    assert_eq!(operate(number(1), "Op\\Div", number(0)), Err(RuntimeError::DivisionByZero));
    assert_eq!(raw_operation(&RawValue::Int(i64::MIN), "Op\\Neg", &vec![]), Err(RuntimeError::Overflow));
}

#[test]
fn the_later_entry_of_a_name_counts() {
    let members = vec![
        ("a".to_string(), number(1)),
        ("b".to_string(), number(2)),
        ("a".to_string(), number(3)),
    ];
    assert_eq!(raw(find_member(&members, "a").unwrap()), &RawValue::Int(3));
    assert_eq!(raw(find_member(&members, "b").unwrap()), &RawValue::Int(2));
    assert!(find_member(&members, "c").is_none());
    let effective = effective_members(&members);
    assert_eq!(effective.len(), 2);
    assert_eq!(effective[0].0, "b");
    assert_eq!(raw(&effective[1].1), &RawValue::Int(3));
    assert_eq!(
        raw_fields_of(&effective).unwrap(),
        vec![("b".to_string(), RawValue::Int(2)), ("a".to_string(), RawValue::Int(3))]
    );
    assert!(raw_fields_of(&vec![("v".to_string(), Instance::Void)]).is_none());
}

#[test]
fn instances_know_their_members() {
    let strukt = StructInstance::new(
        2,
        vec![
            ("value".to_string(), RawValue::Int(1)),
            ("value".to_string(), RawValue::Int(2)),
        ],
    );
    assert_eq!(strukt.strukt(), 2);
    assert_eq!(strukt.field("value"), Some(&RawValue::Int(2)));
    assert_eq!(strukt.field("other"), None);
    let fields = strukt.fields();
    assert_eq!(fields.len(), 2);
    assert_eq!(raw(&fields[0].1), &RawValue::Int(1));
    let class = ClassInstance::new(1, vec![("on".to_string(), boolean(true))]);
    assert_eq!(class.class(), 1);
    let dependencies = class.dependencies();
    assert_eq!(dependencies.len(), 1);
    assert_eq!(dependencies[0].0, "on");
    let copy = Instance::Class(class).duplicate();
    assert!(matches!(copy, Instance::Class(c) if c.class() == 1 && c.dependencies().len() == 1));
}

#[test]
fn values_of_the_same_type() {
    let struct_of = |id| Instance::Struct(StructInstance::new(id, vec![]));
    let class_of = |id| Instance::Class(ClassInstance::new(id, vec![]));
    assert!(number(1).is_of_same_type(&number(2)));
    assert!(!number(1).is_of_same_type(&text("1")));
    assert!(!boolean(true).is_of_same_type(&Instance::Void));
    assert!(Instance::Void.is_of_same_type(&Instance::Void));
    assert!(struct_of(1).is_of_same_type(&struct_of(1)));
    assert!(!struct_of(1).is_of_same_type(&struct_of(2)));
    assert!(!struct_of(1).is_of_same_type(&class_of(1)));
    assert!(class_of(0).is_of_same_type(&class_of(0)));
}

#[test]
fn values_satisfy_types() {
    let context = context();
    let add = context.traits.resolve("Op\\Add", "").unwrap();
    let string = context.traits.resolve("String", "").unwrap();
    let bool_trait = context.traits.resolve("Bool", "").unwrap();
    let main = context.lets.resolve("Main", "").unwrap();
    let one = evaluate(&context.lets.get(main).evaluation, &vec![], &None, &context, 100).unwrap();
    assert!(one.satisfies_type(&Type::Trait(add), false, &context));
    assert!(one.satisfies_type(&Type::Trait(string), false, &context));
    assert!(!one.satisfies_type(&Type::Trait(bool_trait), false, &context));
    assert!(!one.satisfies_type(&Type::Raw(RawType::Int), false, &context));
    assert!(one.satisfies_type(&Type::Void, false, &context));
    assert!(!one.satisfies_type(&Type::Zelf, false, &context));
    assert!(one.satisfies_type(&Type::Zelf, true, &context));
    let both = Type::And(Box::new(Type::Trait(add)), Box::new(Type::Trait(bool_trait)));
    let either = Type::Or(Box::new(Type::Trait(add)), Box::new(Type::Trait(bool_trait)));
    assert!(!one.satisfies_type(&both, false, &context));
    assert!(one.satisfies_type(&either, false, &context));
    assert!(number(1).satisfies_type(&Type::Raw(RawType::Int), false, &context));
    assert!(!number(1).satisfies_type(&Type::Raw(RawType::Bool), false, &context));
    assert!(!number(1).satisfies_type(&Type::Trait(add), false, &context));
    assert!(!Instance::Void.satisfies_type(&Type::Trait(add), false, &context));
}

#[test]
fn values_as_strings_and_booleans() {
    let context = context();
    let flag = context.lets.resolve("Flag", "").unwrap();
    let make = |on: bool| {
        let call = Evaluation::Let(LetEvaluation {
            lett: flag,
            inputs: vec![(
                "on".to_string(),
                Evaluation::Let(LetEvaluation {
                    lett: context.lets.resolve("Bool", "").unwrap(),
                    inputs: vec![("value".to_string(), Evaluation::Literal(RawValue::Bool(on)))],
                }),
            )],
        });
        evaluate(&call, &vec![], &None, &context, 100).unwrap()
    };
    assert_eq!(make(true).to_bool(&context, 100), Ok(true));
    assert_eq!(make(false).to_bool(&context, 100), Ok(false));
    assert_eq!(make(true).to_string(&context, 100).unwrap(), "on");
    assert_eq!(make(false).to_string(&context, 100).unwrap(), "off");
    assert_eq!(boolean(true).to_bool(&context, 1), Ok(true));
    assert_eq!(number(1).to_bool(&context, 10), Err(RuntimeError::RawTypeMismatch));
    assert_eq!(number(12).to_string(&context, 1).unwrap(), "12");
    assert_eq!(text("x").to_string(&context, 1).unwrap(), "x");
    // A raw value needs no call, and so no depth.
    assert_eq!(number(12).to_string(&context, 0).unwrap(), "12");
    assert_eq!(boolean(false).to_bool(&context, 0), Ok(false));
    assert_eq!(number(1).to_bool(&context, 0), Err(RuntimeError::RawTypeMismatch));
    // Another value is asked through its trait.
    assert_eq!(make(true).to_string(&context, 0), Err(RuntimeError::DepthExceeded));
    assert_eq!(make(true).to_string(&context, 1), Err(RuntimeError::DepthExceeded));
    // A value without the trait cannot be shown.
    let silent = context.lets.resolve("Silent", "").unwrap();
    let quiet = evaluate(
        &Evaluation::Let(LetEvaluation { lett: silent, inputs: vec![] }),
        &vec![],
        &None,
        &context,
        100,
    )
    .unwrap();
    assert_eq!(quiet.to_string(&context, 100), Err(RuntimeError::UndefinedTrait));
    assert_eq!(Instance::Void.to_bool(&context, 100), Err(RuntimeError::UndefinedTrait));
}

#[test]
fn evaluation_errors() {
    let context = context();
    let add = context.traits.resolve("Op\\Add", "").unwrap();
    let run = |eval: &Evaluation, locals: &Vec<(String, Instance)>, zelf: &Option<Instance>| {
        evaluate(eval, locals, zelf, &context, 50).err()
    };
    let none = vec![];
    assert_eq!(run(&Evaluation::Zelf, &none, &None), Some(RuntimeError::NoSelf));
    assert_eq!(run(&Evaluation::Local("x".to_string()), &none, &None), Some(RuntimeError::MissingInput));
    let field = Evaluation::FriendlyField(FriendlyField {
        local_name: "x".to_string(),
        field_name: "value".to_string(),
    });
    assert_eq!(run(&field, &none, &None), Some(RuntimeError::MissingInput));
    assert_eq!(run(&field, &vec![("x".to_string(), number(1))], &None), Some(RuntimeError::NoField));
    let other = Instance::Struct(StructInstance::new(0, vec![]));
    assert_eq!(run(&field, &vec![("x".to_string(), other)], &None), Some(RuntimeError::NoField));
    let broken = Evaluation::Let(LetEvaluation { lett: 1000, inputs: vec![] });
    assert_eq!(run(&broken, &none, &None), Some(RuntimeError::BrokenReference));
    let call = |trayt, subject| {
        Evaluation::Trait(TraitEvaluation { trayt, subject: Box::new(subject), inputs: vec![] })
    };
    assert_eq!(
        run(&call(1000, Evaluation::Literal(RawValue::Int(1))), &none, &None),
        Some(RuntimeError::BrokenReference)
    );
    assert_eq!(run(&call(add, Evaluation::Void), &none, &None), Some(RuntimeError::UndefinedTrait));
    assert_eq!(
        run(&call(add, Evaluation::ClassConstructor(1000)), &none, &None),
        Some(RuntimeError::BrokenReference)
    );
    assert_eq!(
        run(&Evaluation::StructConstructor(0), &vec![("value".to_string(), Instance::Void)], &None),
        Some(RuntimeError::RawTypeMismatch)
    );
    let no_branch = Evaluation::Match(MatchEvaluation {
        local_name: "m".to_string(),
        subject: Box::new(Evaluation::Void),
        branches: vec![(Type::Zelf, Evaluation::Void)],
    });
    assert_eq!(run(&no_branch, &none, &None), Some(RuntimeError::UnmatchedMatch));
    // With Void as Self, the branch for Self fits.
    assert_eq!(run(&no_branch, &none, &Some(Instance::Void)), None);
    assert_eq!(
        evaluate(&Evaluation::Void, &none, &None, &context, 0).err(),
        Some(RuntimeError::DepthExceeded)
    );
    assert_eq!(
        evaluate_inputs(
            &vec![
                ("a".to_string(), Evaluation::Void),
                ("b".to_string(), Evaluation::Zelf),
                ("c".to_string(), Evaluation::Local("x".to_string())),
            ],
            &none,
            &None,
            &context,
            5
        )
        .err(),
        Some(RuntimeError::NoSelf)
    );
}

#[test]
fn runtime_errors_in_words() {
    assert_eq!(RuntimeError::DivisionByZero.text(), "Division by zero");
    assert_eq!(RuntimeError::UnmatchedMatch.text(), "None of the branches matched");
    let all = [
        RuntimeError::RawTypeMismatch,
        RuntimeError::MissingInput,
        RuntimeError::UnmatchedMatch,
        RuntimeError::UndefinedTrait,
        RuntimeError::NoSelf,
        RuntimeError::NoField,
        RuntimeError::Overflow,
        RuntimeError::DivisionByZero,
        RuntimeError::DepthExceeded,
        RuntimeError::BrokenReference,
    ];
    for (i, a) in all.iter().enumerate() {
        for b in &all[i + 1..] {
            assert_ne!(a.text(), b.text());
        }
    }
}
