use compost::ast::abstract_syntax_tree::AbstractSyntaxTree;
use compost::ast::expression::{BinaryOp, Expression, ExpressionStatement, UnaryOp};
use compost::ast::raw_value::RawValue;
use compost::ast::type_statement::{RawType, TypeStatement, TypeStatementType};
use compost::error::{CompilationError, ErrorContext, ErrorMessage, Span};
use compost::lex::token::{Kw, Token};
use compost::lex::tokenizer::tokenize;

fn parse(code: &str) -> Result<AbstractSyntaxTree, CompilationError> {
    let mut tokens = tokenize(code).unwrap();
    AbstractSyntaxTree::parse(&mut tokens)
}

fn expression(code: &str) -> ExpressionStatement {
    let mut tokens = tokenize(code).unwrap();
    ExpressionStatement::parse(&mut tokens).unwrap()
}

fn span(start: usize, end: usize) -> Span {
    Span { start, end }
}

#[test]
fn an_empty_program_has_nothing() {
    let ast = parse("").unwrap();
    assert!(ast.mods.is_empty());
    assert!(ast.lets.is_empty());
    let ast = parse("\n\n  # only a comment\n").unwrap();
    assert!(ast.mods.is_empty());
}

#[test]
fn a_module_with_all_parts() {
    let ast = parse(
        "mod Shape
    using
        Op *
        Int
    struct
        width: int
        name: string
    traits
        Area: Int
        Scale: (by: Int) -> Self
    defs
        Area: width
    lets
        Unit: Shape
            Shape(width: 1, name: 'unit')
lets
    Main: Shape
        Shape\\Unit
",
    )
    .unwrap();
    assert_eq!(ast.mods.len(), 1);
    let module = &ast.mods[0];
    assert_eq!(module.name, "Shape");
    assert!(module.class.is_none());
    let strukt = module.strukt.as_ref().unwrap();
    assert_eq!(
        strukt.fields,
        vec![
            ("width".to_string(), RawType::Int),
            ("name".to_string(), RawType::String)
        ]
    );
    assert_eq!(module.using.len(), 2);
    assert_eq!(module.using[0].name, "Op");
    assert!(module.using[0].wildcard);
    assert_eq!(module.using[1].name, "Int");
    assert!(!module.using[1].wildcard);
    assert_eq!(module.traits.len(), 2);
    assert_eq!(module.traits[0].name, "Area");
    assert!(module.traits[0].parameters.is_empty());
    assert!(matches!(&module.traits[0].output.typ, TypeStatementType::Name(n) if n == "Int"));
    assert_eq!(module.traits[1].parameters.len(), 1);
    assert_eq!(module.traits[1].parameters[0].0, "by");
    assert!(matches!(module.traits[1].output.typ, TypeStatementType::Zelf));
    assert_eq!(module.defs.len(), 1);
    assert_eq!(module.defs[0].name, "Area");
    assert!(matches!(&module.defs[0].expr.expression, Expression::Local(n) if n == "width"));
    assert_eq!(module.lets.len(), 1);
    assert_eq!(module.lets[0].name, "Unit");
    assert_eq!(ast.lets.len(), 1);
    assert_eq!(ast.lets[0].name, "Main");
    assert!(matches!(&ast.lets[0].expr.expression, Expression::Let(call) if call.name == "Shape\\Unit"));

    // The ranges of the parts lie in the range of the module, one after
    // the other.
    assert_eq!(module.token_range.start, 0);
    assert!(strukt.token_range.start >= 2);
    assert_eq!(strukt.token_range.end, strukt.token_range.start + 1 + 2 * 2);
    assert!(module.traits[0].token_range.end <= module.traits[1].token_range.start);
    assert!(module.lets[0].token_range.end <= module.token_range.end);
    assert!(module.token_range.end <= ast.lets[0].token_range.start);
}

#[test]
fn operators_chain_from_left_to_right() {
    let statement = expression("1 + 2 * 3");
    assert_eq!(statement.token_range, span(0, 5));
    match &statement.expression {
        Expression::Binary(call) => {
            assert_eq!(call.op, BinaryOp::Mul);
            assert!(matches!(call.rhs.expression, Expression::Literal(RawValue::Int(3))));
            // Each side covers its own tokens; the operator stands between.
            assert_eq!(call.lhs.token_range, span(0, 3));
            assert_eq!(call.rhs.token_range, span(4, 5));
            match &call.lhs.expression {
                Expression::Binary(inner) => {
                    assert_eq!(inner.op, BinaryOp::Add);
                    assert!(matches!(inner.lhs.expression, Expression::Literal(RawValue::Int(1))));
                    assert!(matches!(inner.rhs.expression, Expression::Literal(RawValue::Int(2))));
                    assert_eq!(inner.lhs.token_range, span(0, 1));
                    assert_eq!(inner.rhs.token_range, span(2, 3));
                }
                _ => panic!(),
            }
        }
        _ => panic!(),
    }
}

#[test]
fn subtraction_nests_to_the_left() {
    let statement = expression("1 - 2 - 3");
    assert_eq!(statement.token_range, span(0, 5));
    match &statement.expression {
        Expression::Binary(call) => {
            assert_eq!(call.op, BinaryOp::Sub);
            assert!(matches!(call.rhs.expression, Expression::Literal(RawValue::Int(3))));
            match &call.lhs.expression {
                Expression::Binary(inner) => {
                    assert_eq!(inner.op, BinaryOp::Sub);
                    assert!(matches!(inner.lhs.expression, Expression::Literal(RawValue::Int(1))));
                    assert!(matches!(inner.rhs.expression, Expression::Literal(RawValue::Int(2))));
                }
                _ => panic!(),
            }
        }
        _ => panic!(),
    }
}

#[test]
fn a_leading_minus_takes_one_operand() {
    match &expression("-x.Size + 2").expression {
        Expression::Binary(call) => {
            assert_eq!(call.op, BinaryOp::Add);
            assert_eq!(call.lhs.token_range, span(0, 4));
            match &call.lhs.expression {
                Expression::Unary(neg) => {
                    assert_eq!(neg.op, UnaryOp::Neg);
                    assert!(matches!(neg.subject.expression, Expression::Def(_)));
                    assert_eq!(neg.subject.token_range, span(1, 4));
                }
                _ => panic!(),
            }
            assert!(matches!(call.rhs.expression, Expression::Literal(RawValue::Int(2))));
        }
        _ => panic!(),
    }
}

#[test]
fn the_right_side_is_one_operand_with_its_calls() {
    match &expression("value + rhs.value + x.Area(by: 1 + 2)").expression {
        Expression::Binary(call) => {
            assert_eq!(call.op, BinaryOp::Add);
            match &call.rhs.expression {
                Expression::Def(def) => {
                    assert_eq!(def.name, "Area");
                    // An input is a whole expression.
                    assert!(matches!(def.inputs[0].1.expression, Expression::Binary(_)));
                }
                _ => panic!(),
            }
            match &call.lhs.expression {
                Expression::Binary(inner) => {
                    assert!(matches!(&inner.lhs.expression, Expression::Local(n) if n == "value"));
                    assert!(matches!(inner.rhs.expression, Expression::FriendlyField(_)));
                }
                _ => panic!(),
            }
        }
        _ => panic!(),
    }
}

#[test]
fn deeper_levels_bind_tighter() {
    // The parenthesis puts `1 + 2` on a deeper level: the expression ends
    // where the level falls below that of its first token.
    let statement = expression("(1 + 2) * 3");
    match &statement.expression {
        Expression::Binary(call) => {
            assert_eq!(call.op, BinaryOp::Add);
            match &call.rhs.expression {
                Expression::Literal(RawValue::Int(2)) => {}
                _ => panic!(),
            }
        }
        _ => panic!(),
    }
}

#[test]
fn primaries() {
    assert!(matches!(expression("Self").expression, Expression::Zelf));
    assert!(matches!(expression("?").expression, Expression::Void));
    assert!(matches!(expression("true").expression, Expression::Literal(RawValue::Bool(true))));
    assert!(matches!(&expression("'s'").expression, Expression::Literal(RawValue::String(s)) if s == "s"));
    assert!(matches!(&expression("x").expression, Expression::Local(n) if n == "x"));
    match &expression("-x").expression {
        Expression::Unary(call) => {
            assert_eq!(call.op, UnaryOp::Neg);
            assert!(matches!(&call.subject.expression, Expression::Local(n) if n == "x"));
            assert_eq!(call.subject.token_range, span(1, 2));
        }
        _ => panic!(),
    }
}

#[test]
fn calls_by_name_and_by_dot() {
    match &expression("Make(a: 1, b: x.y)").expression {
        Expression::Let(call) => {
            assert_eq!(call.name, "Make");
            assert_eq!(call.inputs.len(), 2);
            assert_eq!(call.inputs[0].0, "a");
            assert_eq!(call.inputs[1].0, "b");
            match &call.inputs[1].1.expression {
                Expression::FriendlyField(field) => {
                    assert_eq!(field.local_name, "x");
                    assert_eq!(field.field_name, "y");
                }
                _ => panic!(),
            }
        }
        _ => panic!(),
    }
    match &expression("x.Scale(by: 2).Area").expression {
        Expression::Def(outer) => {
            assert_eq!(outer.name, "Area");
            assert!(outer.inputs.is_empty());
            match &outer.subject.expression {
                Expression::Def(inner) => {
                    assert_eq!(inner.name, "Scale");
                    assert_eq!(inner.inputs.len(), 1);
                    assert!(matches!(&inner.subject.expression, Expression::Local(n) if n == "x"));
                    // The subject ends before the dot.
                    assert_eq!(inner.subject.token_range, span(0, 1));
                }
                _ => panic!(),
            }
        }
        _ => panic!(),
    }
    // A leading dot calls on Self.
    match &expression(".Area").expression {
        Expression::Def(call) => {
            assert!(matches!(call.subject.expression, Expression::Zelf));
            // The dot itself stands for Self.
            assert_eq!(call.subject.token_range, span(0, 1));
        }
        _ => panic!(),
    }
}

#[test]
fn match_and_if_else() {
    match &expression("match p pet\n    Cat 1\n    Dog | ? 2").expression {
        Expression::Match(call) => {
            assert_eq!(call.local_name, "p");
            assert!(matches!(&call.subject.expression, Expression::Local(n) if n == "pet"));
            assert_eq!(call.branches.len(), 2);
            assert!(matches!(&call.branches[0].0.typ, TypeStatementType::Name(n) if n == "Cat"));
            assert!(matches!(&call.branches[1].0.typ, TypeStatementType::Or(_, _)));
            assert!(matches!(call.branches[1].1.expression, Expression::Literal(RawValue::Int(2))));
        }
        _ => panic!(),
    }
    match &expression("if a then b else c").expression {
        Expression::IfElse(call) => {
            assert!(matches!(&call.condition.expression, Expression::Local(n) if n == "a"));
            assert!(matches!(&call.iff.expression, Expression::Local(n) if n == "b"));
            assert!(matches!(&call.els.expression, Expression::Local(n) if n == "c"));
        }
        _ => panic!(),
    }
}

#[test]
fn types_combine_to_the_right() {
    let mut tokens = tokenize("A & @B | Self").unwrap();
    let typ = TypeStatement::parse(&mut tokens).unwrap();
    assert_eq!(typ.token_range, span(0, 6));
    match &typ.typ {
        TypeStatementType::And(left, right) => {
            assert!(matches!(&left.typ, TypeStatementType::Name(n) if n == "A"));
            // Each side covers its own tokens.
            assert_eq!(left.token_range, span(0, 1));
            assert_eq!(right.token_range, span(2, 6));
            match &right.typ {
                TypeStatementType::Or(at, zelf) => {
                    assert_eq!(at.token_range, span(2, 4));
                    assert_eq!(zelf.token_range, span(5, 6));
                    assert!(matches!(&at.typ, TypeStatementType::AtName(n) if n == "B"));
                    assert!(matches!(zelf.typ, TypeStatementType::Zelf));
                }
                _ => panic!(),
            }
        }
        _ => panic!(),
    }
}

fn unexpected(code: &str) -> (Token, Option<String>, usize) {
    let error = parse(code).err().unwrap();
    match (error.message, error.context) {
        (ErrorMessage::UnexpectedToken(token, expected), Some(ErrorContext::Token(at))) => {
            (token, expected, at)
        }
        other => panic!("{:?}", other),
    }
}

#[test]
fn unexpected_tokens_are_reported_where_they_stand() {
    assert_eq!(
        unexpected("class"),
        (Token::Kw(Kw::Class), Some("'mod' or 'lets'".to_string()), 0)
    );
    assert_eq!(
        unexpected("mod a"),
        (Token::Local("a".to_string()), None, 1)
    );
    assert_eq!(
        unexpected("mod A\n    x"),
        (
            Token::Local("x".to_string()),
            Some("class, struct, traits, defs, lets or using".to_string()),
            2
        )
    );
    // A let without an output type.
    assert_eq!(unexpected("lets\n    Main").0, Token::Eof);
    // An if without else.
    let (token, _, at) = unexpected("lets\n    Main: Int\n        if a then b");
    assert_eq!((token, at), (Token::Eof, 7));
    // A number that does not fit an integer.
    let (token, _, _) = unexpected("lets\n    Main: Int\n        9223372036854775808");
    assert!(matches!(token, Token::Lit(_)));
}

#[test]
fn a_module_has_at_most_one_class_or_struct() {
    let error = parse("mod A\n    class\n        x: Int\n    class\n").err().unwrap();
    assert_eq!(error.message, ErrorMessage::DuplicateClass("A".to_string()));
    assert_eq!(error.context, Some(ErrorContext::TokenRange(span(5, 6))));
    let error = parse("mod A\n    struct\n    struct\n        x: int").err().unwrap();
    assert_eq!(error.message, ErrorMessage::DuplicateStruct("A".to_string()));
    assert_eq!(error.context, Some(ErrorContext::TokenRange(span(3, 6))));
    let error = parse("mod A\n    struct\n    class\n").err().unwrap();
    assert_eq!(error.message, ErrorMessage::ClassAndStruct("A".to_string()));
    let error = parse("mod A\n    class\n    struct\n").err().unwrap();
    assert_eq!(error.message, ErrorMessage::ClassAndStruct("A".to_string()));
}

#[test]
fn unknown_raw_type_is_reported() {
    let error = parse("mod A\n    struct\n        x: float").err().unwrap();
    assert_eq!(error.message, ErrorMessage::UnknownRawType("float".to_string()));
    assert_eq!(error.context, Some(ErrorContext::Token(4)));
}
