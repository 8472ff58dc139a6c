use compost::error::{
    error, error_at, token_text_of, get_line_and_col_number, CompilationError, ErrorContext, ErrorMessage, Span,
};
use compost::lex::token::{Kw, Level, Lit, Next, Op, Token};
use compost::text::{decimal_of, int_text_of, text_order, TextOrder};

#[test]
fn line_and_column_count_from_one() {
    assert_eq!(get_line_and_col_number("", "abc", 0), (1, 1));
    assert_eq!(get_line_and_col_number("", "abc", 2), (1, 3));
    assert_eq!(get_line_and_col_number("", "a\nbc\nd", 2), (2, 1));
    assert_eq!(get_line_and_col_number("", "a\nbc\nd", 3), (2, 2));
    assert_eq!(get_line_and_col_number("", "a\nbc\nd", 5), (3, 1));
    // Behind the text: the place behind its last character.
    assert_eq!(get_line_and_col_number("", "ab", 10), (1, 3));
}

#[test]
fn lines_of_the_prelude_are_subtracted() {
    let prelude = "one\ntwo\n";
    let all = "one\ntwo\nuser £\nnext";
    assert_eq!(get_line_and_col_number(prelude, all, 8), (1, 1));
    assert_eq!(get_line_and_col_number(prelude, all, 13), (1, 6));
    // Columns count characters, offsets count bytes.
    assert_eq!(get_line_and_col_number(prelude, all, 16), (2, 1));
    // A place inside the prelude is not before its own first line.
    assert_eq!(get_line_and_col_number(prelude, all, 0), (0, 1));
}

#[test]
fn positions_of_contexts() {
    let code = "ab cd\n  ef";
    assert_eq!(ErrorContext::Character(4).get_position_in_code(code), 4);
    assert_eq!(ErrorContext::Token(1).get_position_in_code(code), 3);
    assert_eq!(
        ErrorContext::TokenRange(Span { start: 2, end: 3 }).get_position_in_code(code),
        8
    );
}

#[test]
fn errors_are_shown_with_their_place() {
    let located = CompilationError {
        message: ErrorMessage::NoTrait("Thing".to_string()),
        context: Some(ErrorContext::Token(2)),
    };
    assert_eq!(
        located.to_string("std\n", "std\nab cd\n  ef"),
        "'Thing' is not a trait at line 1 col 4"
    );
    let nowhere: Result<(), CompilationError> = error(ErrorMessage::NoSelf);
    let nowhere = nowhere.unwrap_err();
    assert_eq!(nowhere.context, None);
    assert_eq!(nowhere.to_string("", "x"), "Can't use 'Self' in global scope");
    let moved = nowhere.context(ErrorContext::Character(0));
    assert_eq!(moved.context, Some(ErrorContext::Character(0)));
    assert_eq!(moved.message, ErrorMessage::NoSelf);
    let ranged: Result<u8, CompilationError> =
        error_at(Span { start: 1, end: 4 }, ErrorMessage::NoSelf);
    assert_eq!(
        ranged.unwrap_err().context,
        Some(ErrorContext::TokenRange(Span { start: 1, end: 4 }))
    );
}

#[test]
fn messages_in_words() {
    let name = || "N".to_string();
    let cases = vec![
        (ErrorMessage::UnexpectedChar("£".to_string()), "Unexpected character £"),
        (
            ErrorMessage::UnexpectedToken(Token::Kw(Kw::Mod), None),
            "Unexpected token Kw(Mod)",
        ),
        (
            ErrorMessage::UnexpectedToken(
                Token::Global("Op\\Add".to_string()),
                Some("a or b".to_string()),
            ),
            "Unexpected token Global(\"Op\\\\Add\"), expecting a or b",
        ),
        (ErrorMessage::NoSelf, "Can't use 'Self' in global scope"),
        (
            ErrorMessage::NoResolution("Trait", name()),
            "No resolution for Trait 'N'",
        ),
        (
            ErrorMessage::DoubleDeclaration("Let", name()),
            "Let 'N' was declared twice",
        ),
        (ErrorMessage::NoModuleOrTrait(name()), "'N' is not a module or a trait"),
        (ErrorMessage::NoTrait(name()), "'N' is not a trait"),
        (
            ErrorMessage::DuplicateClass(name()),
            "Unexpected class in module 'N' which already has a class",
        ),
        (
            ErrorMessage::DuplicateStruct(name()),
            "Unexpected struct in module 'N' which already has a struct",
        ),
        (
            ErrorMessage::ClassAndStruct(name()),
            "Module 'N' has both a class and a struct. A module can only have one of the two.",
        ),
        (ErrorMessage::UnknownRawType(name()), "Unknown raw type 'N'"),
        (
            ErrorMessage::UndefinedTrait(name()),
            "Trait 'N' is not available for this type",
        ),
        (ErrorMessage::MissingInput(name()), "Missing input for 'N'"),
        (
            ErrorMessage::TypeMismatch(name(), "A & B".to_string(), "int".to_string()),
            "Type mismatch for 'N'.\n  Expected: A & B\n  Got: int\n",
        ),
    ];
    for (message, text) in cases {
        assert_eq!(message.text(), text);
    }
}

#[test]
fn tokens_in_messages() {
    let cases = vec![
        (Token::Down(Level::Colon), "Down(Colon)"),
        (Token::Down(Level::Paren), "Down(Paren)"),
        (Token::Up(Level::Paren), "Up(Paren)"),
        (Token::Next(Next::Comma), "Next(Comma)"),
        (Token::Next(Next::Line), "Next(Line)"),
        (Token::Eof, "Eof"),
        (Token::Kw(Kw::Zelf), "Kw(Zelf)"),
        (Token::Kw(Kw::Then), "Kw(Then)"),
        (Token::Local("x".into()), "Local(\"x\")"),
        (Token::Op(Op::Question), "Op(Question)"),
        (Token::Op(Op::At), "Op(At)"),
        (Token::Lit(Lit::String("s".into())), "Lit(String(\"s\"))"),
        // Backslashes, quotes and line feeds are escaped.
        (Token::Global("Mod\\Thing".into()), "Global(\"Mod\\\\Thing\")"),
        (
            Token::Lit(Lit::String("say \"hi\"\n".into())),
            "Lit(String(\"say \\\"hi\\\"\\n\"))",
        ),
        (Token::Lit(Lit::Number(120)), "Lit(Number(120))"),
        (Token::Lit(Lit::Boolean(false)), "Lit(Boolean(false))"),
        (Token::Space, "Space"),
    ];
    for (token, text) in cases {
        assert_eq!(token_text_of(&token), text);
    }
}

#[test]
fn numbers_in_decimal() {
    assert_eq!(decimal_of(0), "0");
    assert_eq!(decimal_of(7), "7");
    assert_eq!(decimal_of(1203), "1203");
    assert_eq!(decimal_of(u64::MAX), "18446744073709551615");
    assert_eq!(int_text_of(0), "0");
    assert_eq!(int_text_of(-1), "-1");
    assert_eq!(int_text_of(i64::MAX), "9223372036854775807");
    assert_eq!(int_text_of(i64::MIN), "-9223372036854775808");
}

#[test]
fn texts_in_the_order_of_dictionaries() {
    assert_eq!(text_order("", ""), TextOrder::Same);
    assert_eq!(text_order("a", "a"), TextOrder::Same);
    assert_eq!(text_order("", "a"), TextOrder::Before);
    assert_eq!(text_order("a", "ab"), TextOrder::Before);
    assert_eq!(text_order("ab", "b"), TextOrder::Before);
    assert_eq!(text_order("Op\\Sub", "Op\\Add"), TextOrder::After);
    assert_eq!(text_order("String", "Op\\Add"), TextOrder::After);
}
