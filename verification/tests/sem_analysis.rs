use compost::ast::abstract_syntax_tree::AbstractSyntaxTree;
use compost::ast::type_statement::RawType;
use compost::error::{CompilationError, ErrorContext, ErrorMessage};
use compost::lex::tokenizer::tokenize;
use compost::sem::evaluation::{raw_operation_output_type, Evaluation};
use compost::sem::semantic_analyser::{
    analyse_ast, analyse_bodies, analyse_defaults, declare_identifiers, declare_signatures,
    fill_interfaces, name_interfaces, propagate, SemanticContext, SemanticScope,
};
use compost::sem::trayt::{interface_type, merge_interface, propagate_interfaces};
use compost::sem::typ::{resolve_self_types, Type};

const PRELUDE: &str = "
mod Op
    traits
        Add: (rhs: Self) -> Self
        Sub: (rhs: Self) -> Self
        Eq: (rhs: Self) -> Bool
        Lt: (rhs: Self) -> Bool
        Neg: Self

mod String
    struct
        value: string
    defs
        Op\\Add: String(value: value + rhs.value)
        String: Self

mod Int
    struct
        value: int
    defs
        Op\\Add: Int(value: value + rhs.value)
        Op\\Lt: Bool(value: value < rhs.value)
        String: value.String

mod Bool
    struct
        value: bool
    defs
        String: if value then String(value: 'true') else String(value: 'false')
        Bool: Self
";

fn ast(code: &str) -> AbstractSyntaxTree {
    let all = format!("{}{}", PRELUDE, code);
    let mut tokens = tokenize(&all).unwrap();
    AbstractSyntaxTree::parse(&mut tokens).unwrap()
}

fn analyse(code: &str) -> Result<SemanticContext, CompilationError> {
    analyse_ast(ast(code))
}

fn message(code: &str) -> ErrorMessage {
    analyse(code).err().unwrap().message
}

#[test]
fn interfaces_hold_own_traits_and_traits_of_defs() {
    let context = analyse("").unwrap();
    let op = context.interfaces.resolve("Op", "").unwrap();
    let int = context.interfaces.resolve("Int", "").unwrap();
    let add = context.traits.resolve("Op\\Add", "").unwrap();
    let sub = context.traits.resolve("Sub", "Op").unwrap();
    let string = context.traits.resolve("String", "").unwrap();
    assert_eq!(context.interfaces.get(op).len(), 5);
    let interface = context.interfaces.get(int);
    // The traits of its defs first; automatic definitions bring the other
    // traits of the modules that own them.
    assert_eq!(interface[0], add);
    assert!(interface.contains(&string));
    assert!(interface.contains(&sub));
    let mut sorted = interface.clone();
    sorted.sort();
    sorted.dedup();
    assert_eq!(sorted.len(), interface.len());
    assert_eq!(context.traits.get(add).full_name, "Op\\Add");
    assert_eq!(context.traits.get(add).interface, op);
    assert_eq!(context.traits.get(string).full_name, "String");
}

#[test]
fn propagation_reaches_a_fixed_point() {
    // Trait t is owned by interface t; interface 0 holds trait 1, interface
    // 1 holds trait 2, interface 2 holds trait 0 and itself.
    let owners = vec![0, 1, 2];
    let mut interfaces = vec![vec![1], vec![2], vec![0, 2]];
    let steps = propagate_interfaces(&mut interfaces, &owners);
    assert_eq!(interfaces, vec![vec![1, 2, 0], vec![2, 0, 1], vec![0, 2, 1]]);
    // One step for each trait of an interface: never more than there are
    // traits.
    assert_eq!(steps, 3);
    // Nothing is left to add.
    let before = interfaces.clone();
    assert_eq!(propagate_interfaces(&mut interfaces, &owners), 3);
    assert_eq!(interfaces, before);
    // A chain in the worst order is closed all the same.
    let owners = vec![0, 1, 2, 3];
    let mut chain = vec![vec![0, 1], vec![1, 2], vec![2, 3], vec![3]];
    assert_eq!(propagate_interfaces(&mut chain, &owners), 4);
    assert_eq!(
        chain,
        vec![vec![0, 1, 2, 3], vec![1, 2, 3], vec![2, 3], vec![3]]
    );
    let owners = vec![0, 1, 2];
    // For each trait of an interface, the interface holds the interface
    // that owns the trait.
    for interface in &interfaces {
        for trayt in interface {
            for other in &interfaces[owners[*trayt]] {
                assert!(interface.contains(other));
            }
        }
    }

    let mut own = vec![3, 1];
    assert_eq!(merge_interface(&mut own, &vec![1, 2, 3, 4]), 2);
    assert_eq!(own, vec![3, 1, 2, 4]);
    assert_eq!(interface_type(&vec![]), Type::Void);
    assert_eq!(
        interface_type(&vec![4, 2]),
        Type::And(Box::new(Type::Trait(4)), Box::new(Type::Trait(2)))
    );
}

#[test]
fn names_must_resolve() {
    assert_eq!(
        message("lets\n    Main: Nothing\n        1"),
        ErrorMessage::NoModuleOrTrait("Nothing".to_string())
    );
    assert_eq!(
        message("lets\n    Main: @Nothing\n        1"),
        ErrorMessage::NoTrait("Nothing".to_string())
    );
    assert_eq!(
        message("lets\n    Main: Int\n        Nothing"),
        ErrorMessage::NoResolution("Let", "Nothing".to_string())
    );
    assert_eq!(
        message("lets\n    Main: Int\n        x"),
        ErrorMessage::NoResolution("local variable", "x".to_string())
    );
    assert_eq!(
        message("lets\n    Main: Int\n        1.Nothing"),
        ErrorMessage::NoResolution("Trait", "Nothing".to_string())
    );
    // Booleans have no order, but only the evaluator finds out.
    assert!(analyse("lets\n    Main: Bool\n        true < false").is_ok());
    assert_eq!(
        message("mod Other\n    defs\n        Nothing: 1\n"),
        ErrorMessage::NoResolution("Trait", "Nothing".to_string())
    );
}

#[test]
fn errors_of_expressions_cover_the_expression() {
    let error = analyse("lets\n    Main: Int\n        1 + x\n").err().unwrap();
    assert_eq!(
        error.message,
        ErrorMessage::NoResolution("local variable", "x".to_string())
    );
    match error.context {
        Some(ErrorContext::TokenRange(range)) => assert_eq!(range.end, range.start + 1),
        other => panic!("{:?}", other),
    }
}

#[test]
fn declaring_twice_is_an_error() {
    assert_eq!(
        message("mod Int\n"),
        ErrorMessage::DoubleDeclaration("Interface", "Int".to_string())
    );
    assert_eq!(
        message("mod M\n    traits\n        T: ?\n        T: ?\n"),
        ErrorMessage::DoubleDeclaration("Trait", "M\\T".to_string())
    );
    assert_eq!(
        message("lets\n    A: Int\n        1\n    A: Int\n        2\n"),
        ErrorMessage::DoubleDeclaration("Let", "A".to_string())
    );
}

#[test]
fn inputs_are_checked_against_the_signature() {
    let lets = "lets\n    Twice: (x: Int) -> Int\n        x + x\n";
    assert_eq!(
        message(&format!("{}    Main: Int\n        Twice\n", lets)),
        ErrorMessage::MissingInput("x".to_string())
    );
    // Types are structural: strings have every trait that integers have.
    assert!(analyse(&format!("{}    Main: Int\n        Twice(x: 'text')\n", lets)).is_ok());
    let cats = "mod Cat\n    class\n    traits\n        Meow: String\n    defs\n        Meow: 'meow'\nlets\n    Hear: (pet: Cat) -> String\n        pet.Meow\n";
    match message(&format!("{}    Main: String\n        Hear(pet: 'text')\n", cats)) {
        ErrorMessage::TypeMismatch(name, expected, given) => {
            assert_eq!(name, "pet");
            assert!(expected.contains("Cat\\Meow"));
            // The raw string was coerced to the struct of strings first.
            assert!(given.contains("Op\\Add"));
            assert!(given.contains(" & "));
            assert!(!given.contains("Meow"));
        }
        other => panic!("{:?}", other),
    }
    assert!(analyse(&format!("{}    Main: String\n        Hear(pet: Cat)\n", cats)).is_ok());
    match message("lets\n    Main: Int\n        if 1 then 2 else 3\n") {
        ErrorMessage::TypeMismatch(name, expected, given) => {
            assert_eq!(name, "if condition");
            assert_eq!(expected, "bool");
            assert_eq!(given, "int");
        }
        other => panic!("{:?}", other),
    }
    assert!(analyse(&format!("{}    Main: Int\n        Twice(x: 2)\n", lets)).is_ok());
}

#[test]
fn self_needs_an_enclosing_type() {
    assert_eq!(
        message("lets\n    Main: Int\n        1 + Self\n"),
        ErrorMessage::NoSelf
    );
}

#[test]
fn raw_literals_become_structs_where_a_struct_is_asked() {
    let context = analyse("lets\n    Main: Int\n        1\n    Raw: ?\n        1\n").unwrap();
    let main = context.lets.resolve("Main", "").unwrap();
    let int = context.lets.resolve("Int", "").unwrap();
    match &context.lets.get(main).evaluation {
        Evaluation::Let(call) => {
            assert_eq!(call.lett, int);
            assert_eq!(call.inputs.len(), 1);
            assert_eq!(call.inputs[0].0, "value");
            assert!(matches!(call.inputs[0].1, Evaluation::Literal(_)));
        }
        other => panic!("{:?}", other),
    }
    // Everything fits `?`: nothing is coerced.
    let raw = context.lets.resolve("Raw", "").unwrap();
    assert!(matches!(context.lets.get(raw).evaluation, Evaluation::Literal(_)));
}

#[test]
fn types_of_evaluations() {
    let context = analyse("lets\n    Main: Int\n        1\n").unwrap();
    let scope = SemanticScope {
        context: &context,
        path: "",
        locals: vec![("x".to_string(), Type::Zelf)],
        zelf: Some(Type::Trait(0)),
    };
    let int = context.lets.resolve("Int", "").unwrap();
    let add = context.traits.resolve("Op\\Add", "").unwrap();
    let lt = context.traits.resolve("Op\\Lt", "").unwrap();
    let literal = || Evaluation::Literal(compost::ast::raw_value::RawValue::Int(1));
    assert_eq!(literal().typ(&scope).unwrap(), Type::Raw(RawType::Int));
    // Self stands for the enclosing type.
    assert_eq!(Evaluation::Local("x".to_string()).typ(&scope).unwrap(), Type::Trait(0));
    assert_eq!(Evaluation::Zelf.typ(&scope).unwrap(), Type::Trait(0));
    assert_eq!(Evaluation::Void.typ(&scope).unwrap(), Type::Void);
    assert_eq!(
        Evaluation::Local("y".to_string()).typ(&scope).unwrap_err().message,
        ErrorMessage::NoResolution("local variable", "y".to_string())
    );
    let call = |trayt| {
        Evaluation::Trait(compost::sem::evaluation::TraitEvaluation {
            trayt,
            subject: Box::new(literal()),
            inputs: vec![("rhs".to_string(), literal())],
        })
    };
    assert_eq!(call(add).typ(&scope).unwrap(), Type::Raw(RawType::Int));
    assert_eq!(call(lt).typ(&scope).unwrap(), Type::Raw(RawType::Bool));
    let made = Evaluation::Let(compost::sem::evaluation::LetEvaluation {
        lett: int,
        inputs: vec![("value".to_string(), literal())],
    });
    assert_eq!(made.typ(&scope).unwrap(), context.lets.get(int).output);
    let choice = Evaluation::IfElse(compost::sem::evaluation::IfElseEvaluation {
        condition: Box::new(literal()),
        iff: Box::new(literal()),
        els: Box::new(Evaluation::Void),
    });
    assert_eq!(
        choice.typ(&scope).unwrap(),
        Type::Or(Box::new(Type::Raw(RawType::Int)), Box::new(Type::Void))
    );
    let global = SemanticScope { context: &context, path: "", locals: vec![], zelf: None };
    assert_eq!(Evaluation::Zelf.typ(&global).unwrap_err().message, ErrorMessage::NoSelf);
}

#[test]
fn raw_operations_have_fixed_output_kinds() {
    for kind in [RawType::Int, RawType::String, RawType::Bool] {
        for name in ["Op\\Add", "Op\\Sub", "Op\\Mul", "Op\\Div", "Op\\Neg"] {
            assert_eq!(raw_operation_output_type(&kind, name).unwrap(), kind);
        }
        for name in ["Op\\Eq", "Op\\Lt", "Op\\Gt", "Op\\And", "Op\\Or"] {
            assert_eq!(raw_operation_output_type(&kind, name).unwrap(), RawType::Bool);
        }
        assert_eq!(raw_operation_output_type(&kind, "String").unwrap(), RawType::String);
        assert_eq!(
            raw_operation_output_type(&kind, "Op\\Not").unwrap_err().message,
            ErrorMessage::UndefinedTrait("Op\\Not".to_string())
        );
    }
}

#[test]
fn callable_traits_are_sorted_names() {
    let context = analyse("").unwrap();
    let int = context.interfaces.resolve("Int", "").unwrap();
    let scope = SemanticScope {
        context: &context,
        path: "",
        locals: vec![],
        zelf: Some(interface_type(context.interfaces.get(int))),
    };
    assert_eq!(
        Type::Raw(RawType::Bool).callable_traits(&scope),
        vec!["Op\\And", "Op\\Eq", "Op\\Or"]
    );
    assert_eq!(
        Type::Raw(RawType::String).callable_traits(&scope),
        vec!["Op\\Add", "Op\\Eq", "String"]
    );
    assert_eq!(Type::Raw(RawType::Int).callable_traits(&scope).len(), 9);
    assert_eq!(Type::Void.callable_traits(&scope), Vec::<String>::new());
    let add = context.traits.resolve("Op\\Add", "").unwrap();
    let neg = context.traits.resolve("Op\\Neg", "").unwrap();
    let both = Type::Or(
        Box::new(Type::Trait(neg)),
        Box::new(Type::And(Box::new(Type::Trait(add)), Box::new(Type::Trait(neg)))),
    );
    assert_eq!(both.callable_traits(&scope), vec!["Op\\Add", "Op\\Neg"]);
    // Self stands for the enclosing type.
    let of_self = Type::Zelf.callable_traits(&scope);
    assert!(of_self.contains(&"String".to_string()));
    let mut sorted = of_self.clone();
    sorted.sort();
    assert_eq!(sorted, of_self);
    assert_eq!(
        resolve_self_types(Type::And(Box::new(Type::Zelf), Box::new(Type::Void)), &Type::Trait(1)),
        Type::And(Box::new(Type::Trait(1)), Box::new(Type::Void))
    );
}

#[test]
fn default_definitions_are_given_to_values_of_other_modules() {
    let context = analyse(
        "
mod Shape
    traits
        Width: Int
        Double: Int
    defs
        Double: .Width + .Width

mod Square
    class
        side: Int
    defs
        Shape\\Width: side
",
    )
    .unwrap();
    let width = context.traits.resolve("Shape\\Width", "").unwrap();
    let double = context.traits.resolve("Shape\\Double", "").unwrap();
    assert!(context.traits.get(width).default_definition.is_none());
    assert!(context.traits.get(double).default_definition.is_some());
    assert_eq!(context.classes.len(), 1);
    let square = &context.classes[0];
    assert_eq!(square.id, 0);
    assert_eq!(square.definitions.len(), 1);
    assert_eq!(square.definitions[0].0, width);
    assert_eq!(square.defaults, vec![double]);
    assert_eq!(square.dependencies.len(), 1);
    let constructor = context.lets.resolve("Square", "").unwrap();
    assert!(matches!(
        context.lets.get(constructor).evaluation,
        Evaluation::ClassConstructor(0)
    ));
    assert_eq!(context.lets.get(constructor).output, square.interface);
}

#[test]
fn running_the_last_pass_again_changes_nothing() {
    let program = ast(
        "
mod Point
    class
        x: Int
    traits
        Twice: Int
    defs
        Twice: x + x
    lets
        Origin: Point
            Point(x: 0)

lets
    Main: Int
        Point\\Origin.Twice + 1
",
    );
    let mut context = SemanticContext::new();
    declare_identifiers(&program, &mut context).unwrap();
    fill_interfaces(&program, &mut context).unwrap();
    propagate(&context.traits, &mut context.interfaces);
    name_interfaces(&program, &mut context).unwrap();
    let slots = declare_signatures(&program, &mut context).unwrap();
    analyse_defaults(&program, &mut context).unwrap();
    analyse_bodies(&program, &mut context, &slots).unwrap();
    let show = |context: &SemanticContext| {
        format!(
            "{:?} {:?} {:?}",
            context.lets.items, context.classes, context.structs
        )
    };
    let once = show(&context);
    analyse_bodies(&program, &mut context, &slots).unwrap();
    assert_eq!(show(&context), once);
    assert!(once.contains("ClassConstructor"));
}

#[test]
fn the_first_pass_that_fails_gives_the_error() {
    // The second module of the name fails when names are declared, before
    // the type that resolves to nothing is looked at.
    assert_eq!(
        message(
            "
mod Twice
    traits
        Size: Missing

mod Twice
    traits
        Other: Int
"
        ),
        ErrorMessage::DoubleDeclaration("Interface", "Twice".to_string())
    );
    // A def for a trait that nobody declares fails when interfaces are
    // filled, before the signatures are looked at.
    assert_eq!(
        message(
            "
mod Thing
    class
        size: Missing
    defs
        Nowhere: 1
"
        ),
        ErrorMessage::NoResolution("Trait", "Nowhere".to_string())
    );
    // Signatures fail before bodies are looked at.
    assert!(matches!(
        message(
            "
lets
    First: Int
        Undeclared
    Second: Missing
        1
"
        ),
        ErrorMessage::NoModuleOrTrait(name) if name == "Missing"
    ));
}

#[test]
fn the_passes_fill_the_context_step_by_step() {
    let program = ast("
mod Shape
    traits
        Area: Int
    defs
        Area: 1

mod Square
    class
        side: Int
    defs
        Shape\\Area: side

lets
    Main: Int
        Square(side: 2).Area
");
    let mut context = SemanticContext::new();
    assert_eq!(context.traits.len(), 0);

    declare_identifiers(&program, &mut context).unwrap();
    // One interface for each module, still empty; one trait for each trait
    // and for each module.
    let prelude_interfaces = 4;
    assert_eq!(context.interfaces.len(), prelude_interfaces + 2);
    let shape = context.interfaces.resolve("Shape", "").unwrap();
    let square = context.interfaces.resolve("Square", "").unwrap();
    assert!(context.interfaces.get(shape).is_empty());
    let area = context.traits.resolve("Area", "Shape").unwrap();
    assert_eq!(context.traits.get(area).interface, shape);
    assert_eq!(context.traits.get(area).full_name, "Shape\\Area");
    assert_eq!(context.traits.get(area).output, Type::Void);
    assert_eq!(context.lets.len(), 0);

    fill_interfaces(&program, &mut context).unwrap();
    assert_eq!(context.interfaces.get(shape), &vec![area]);
    assert_eq!(context.interfaces.get(square), &vec![area]);

    // The structs of the prelude get the other operators; the steps are as
    // many as the traits of the longest interface, and never more than there
    // are traits.
    let steps = propagate(&context.traits, &mut context.interfaces);
    let longest = (0..context.interfaces.len())
        .map(|m| context.interfaces.get(m).len())
        .max()
        .unwrap();
    assert_eq!(steps, longest);
    assert!(steps <= context.traits.len());
    assert_eq!(context.interfaces.get(square), &vec![area]);

    // The trait of a module's own name gives a value of the module.
    let own = context.traits.resolve("Square", "").unwrap();
    assert_eq!(context.traits.get(own).output, Type::Void);
    name_interfaces(&program, &mut context).unwrap();
    assert_eq!(context.traits.get(own).output, Type::Trait(area));

    let slots = declare_signatures(&program, &mut context).unwrap();
    // The class of the only module with a class stands first.
    assert_eq!(slots[slots.len() - 1], 0);
    assert_eq!(slots[slots.len() - 2], 0);
    assert_eq!(context.classes.len(), 1);
    assert_eq!(context.structs.len(), 3);
    assert!(context.classes[0].definitions.is_empty());
    let make = context.lets.resolve("Square", "").unwrap();
    assert!(matches!(
        context.lets.get(make).evaluation,
        Evaluation::ClassConstructor(0)
    ));
    let main = context.lets.resolve("Main", "").unwrap();
    assert!(matches!(context.lets.get(main).evaluation, Evaluation::Zelf));
    assert!(context.traits.get(area).default_definition.is_none());
    assert_ne!(context.traits.get(area).output, Type::Void);

    analyse_defaults(&program, &mut context).unwrap();
    assert!(context.traits.get(area).default_definition.is_some());

    analyse_bodies(&program, &mut context, &slots).unwrap();
    assert!(matches!(
        context.lets.get(main).evaluation,
        Evaluation::Trait(_)
    ));
    assert_eq!(context.classes[0].definitions.len(), 1);
    assert_eq!(context.classes[0].definitions[0].0, area);
    assert!(context.classes[0].defaults.is_empty());
}

#[test]
fn a_def_must_give_what_its_trait_promises() {
    // Nothing is no number.
    assert_eq!(
        message(
            "
mod Thing
    class
        size: Int
    traits
        Size: Int
    defs
        Size: ?
"
        ),
        ErrorMessage::TypeMismatch(
            "Size".to_string(),
            "Op\\Add & Op\\Lt & String & Op\\Sub & Op\\Eq & Op\\Neg".to_string(),
            "?".to_string()
        )
    );
    // The same holds of a struct, and of `Self` as the promised type.
    assert!(matches!(
        message(
            "
mod Pair
    struct
        left: int
    traits
        Same: Self
    defs
        Same: Int(value: left)
"
        ),
        ErrorMessage::TypeMismatch(name, _, _) if name == "Same"
    ));
    // A raw value is wrapped, a value of the module is one, and an if-else
    // fits where one of its arms does.
    assert!(analyse(
        "
mod Pair
    struct
        left: int
    traits
        Same: Self
        Left: Int
        Pick: Int
    defs
        Same: Self
        Left: left
        Pick: if left < 1 then 1 else Int(value: left)
"
    )
    .is_ok());
}

#[test]
fn a_match_has_the_union_of_the_types_of_its_branches() {
    let context = analyse(
        "
lets
    Pick: (x: Int | String) -> Int | String
        match y x
            Int y
            String y
",
    )
    .unwrap();
    let pick = context.lets.resolve("Pick", "").unwrap();
    let lett = context.lets.get(pick);
    let scope = SemanticScope {
        context: &context,
        path: "",
        locals: lett.inputs.clone(),
        zelf: None,
    };
    let int = context.interfaces.resolve("Int", "").unwrap();
    let string = context.interfaces.resolve("String", "").unwrap();
    assert_eq!(
        lett.evaluation.typ(&scope).unwrap(),
        Type::Or(
            Box::new(interface_type(context.interfaces.get(int))),
            Box::new(interface_type(context.interfaces.get(string)))
        )
    );
}
