use compost::ast::class_statement::ClassStatement;
use compost::ast::expression::ExpressionStatement;
use compost::ast::parser::{parse_global, parse_local, Parse};
use compost::ast::using_statement::parse_wildcard;
use compost::error::{CompilationError, ErrorContext, ErrorMessage};
use compost::lex::token::{Kw, Lit, Op, Token};
use compost::lex::tokens::Tokens;

fn cursor() -> Tokens {
    Tokens::new(vec![
        (Token::Kw(Kw::Class), 0),
        (Token::Local("a".to_string()), 1),
        (Token::Global("B".to_string()), 2),
        (Token::Op(Op::Mul), 0),
        (Token::Eof, 0),
    ])
}

#[test]
fn the_cursor_walks_over_the_tokens() {
    let mut tokens = cursor();
    assert_eq!(tokens.position(), 0);
    assert!(tokens.still_more());
    assert_eq!(tokens.token(), &Token::Kw(Kw::Class));
    assert_eq!(tokens.level(), 0);
    assert!(!tokens.deeper_than(0));
    assert!(tokens.deeper_than_or_eq(0));
    tokens.step();
    assert_eq!(tokens.position(), 1);
    assert!(tokens.deeper_than(0));
    assert!(!tokens.deeper_than(1));
    assert!(tokens.deeper_than_or_eq(1));
    assert_eq!(tokens.remaining().len(), 4);
    assert_eq!(tokens.token_and_step(), Token::Local("a".to_string()));
    assert_eq!(tokens.token(), &Token::Global("B".to_string()));
    tokens.step();
    tokens.step();
    tokens.step();
    assert!(!tokens.still_more());
    assert!(!tokens.deeper_than_or_eq(0));
    assert_eq!(tokens.remaining().len(), 0);
    let same: Tokens = vec![(Token::Eof, 0)].into();
    assert_eq!(same.position(), 0);
}

#[test]
fn expectations_are_joined_and_forgotten_after_a_step() {
    let mut tokens = cursor();
    let error: CompilationError = tokens.unexpected_token_error::<()>().unwrap_err();
    assert_eq!(
        error.message,
        ErrorMessage::UnexpectedToken(Token::Kw(Kw::Class), None)
    );
    assert_eq!(error.context, Some(ErrorContext::Token(0)));
    tokens.expect("one thing");
    assert_eq!(tokens.expectation(), Some("one thing".to_string()));
    tokens.expect("another");
    let error = tokens.unexpected_token_error::<()>().unwrap_err();
    assert_eq!(
        error.message,
        ErrorMessage::UnexpectedToken(
            Token::Kw(Kw::Class),
            Some("one thing OR another".to_string())
        )
    );
    tokens.step();
    assert_eq!(tokens.expectation(), None);
    let error = tokens.error::<()>(ErrorMessage::NoSelf).unwrap_err();
    assert_eq!(error.message, ErrorMessage::NoSelf);
    assert_eq!(error.context, Some(ErrorContext::Token(1)));
}

#[test]
fn names_are_parsed_where_they_stand() {
    let mut tokens = cursor();
    assert!(parse_local(&mut tokens).is_err());
    assert_eq!(tokens.position(), 0);
    tokens.step();
    assert!(parse_global(&mut tokens).is_err());
    assert_eq!(parse_local(&mut tokens).unwrap(), "a");
    assert!(!parse_wildcard(&mut tokens));
    assert_eq!(parse_global(&mut tokens).unwrap(), "B");
    assert!(parse_wildcard(&mut tokens));
    assert_eq!(tokens.token(), &Token::Eof);
}

#[test]
fn parsers_say_whether_they_match() {
    let mut tokens = cursor();
    assert!(<ClassStatement as Parse>::matches(&tokens));
    assert!(<ExpressionStatement as Parse>::matches(&tokens));
    let class = <ClassStatement as Parse>::maybe_parse(&mut tokens)
        .unwrap()
        .unwrap();
    assert_eq!(class.dependencies.len(), 1);
    assert_eq!(class.dependencies[0].0, "a");
    assert_eq!(tokens.position(), 3);
    assert!(<ClassStatement as Parse>::maybe_parse(&mut tokens)
        .unwrap()
        .is_none());
    assert_eq!(tokens.position(), 3);

    let mut tokens = Tokens::new(vec![(Token::Lit(Lit::Number(4)), 0), (Token::Eof, 0)]);
    let statement = <ExpressionStatement as Parse>::parse(&mut tokens).unwrap();
    assert_eq!(statement.token_range.end, 1);
}
