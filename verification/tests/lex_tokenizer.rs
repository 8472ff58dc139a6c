use compost::error::{ErrorContext, ErrorMessage};
use compost::lex::token::{Kw, Lit, Op, Token};
use compost::lex::tokenizer::{get_position_of_token, tokenize};

#[test]
fn tokenizer_test_levels() {
    let code = r#"
            mod Module
                class
                    value: Int
                traits
                    Value: Int
        "#;

    let tokens = tokenize(code).unwrap();

    let expected = vec![
        (Token::Kw(Kw::Mod), 12),
        (Token::Global("Module".into()), 12),
        (Token::Kw(Kw::Class), 16),
        (Token::Local("value".into()), 20),
        (Token::Global("Int".into()), 21),
        (Token::Kw(Kw::Traits), 16),
        (Token::Global("Value".into()), 20),
        (Token::Global("Int".into()), 21),
        (Token::Eof, 0),
    ];

    assert_eq!(tokens.remaining(), &expected)
}

fn leveled(code: &str) -> Vec<(Token, usize)> {
    tokenize(code).unwrap().remaining().to_vec()
}

#[test]
fn levels_of_a_small_module() {
    let tokens = leveled("mod Module\n    class\n        value: Int\n");
    assert_eq!(
        tokens,
        vec![
            (Token::Kw(Kw::Mod), 0),
            (Token::Global("Module".into()), 0),
            (Token::Kw(Kw::Class), 4),
            (Token::Local("value".into()), 8),
            (Token::Global("Int".into()), 9),
            (Token::Eof, 0),
        ]
    );
    // Nesting only grows along the sample, and the stream ends at level 0.
    let levels: Vec<usize> = tokens.iter().map(|t| t.1).collect();
    assert!(levels[..5].windows(2).all(|w| w[0] <= w[1]));
    assert_eq!(tokens.last(), Some(&(Token::Eof, 0)));
}

#[test]
fn parentheses_and_colons_open_levels() {
    let tokens = leveled("A(b: 1, c: (2)) d");
    assert_eq!(
        tokens,
        vec![
            (Token::Global("A".into()), 0),
            (Token::Local("b".into()), 1),
            (Token::Lit(Lit::Number(1)), 2),
            // The comma closes the colon only.
            (Token::Local("c".into()), 1),
            (Token::Lit(Lit::Number(2)), 3),
            // The first closing parenthesis closes the inner one, the
            // second everything down to the outer one.
            (Token::Local("d".into()), 0),
            (Token::Eof, 0),
        ]
    );
    let tokens = leveled("a: b\nc + 1");
    assert_eq!(
        tokens,
        vec![
            (Token::Local("a".into()), 0),
            (Token::Local("b".into()), 1),
            // A new line removes the colons and the indentation.
            (Token::Local("c".into()), 0),
            (Token::Op(Op::Add), 0),
            (Token::Lit(Lit::Number(1)), 0),
            (Token::Eof, 0),
        ]
    );
}

#[test]
fn only_leading_spaces_indent() {
    let tokens = leveled("  a  b\r\n c");
    assert_eq!(
        tokens,
        vec![
            (Token::Local("a".into()), 2),
            (Token::Local("b".into()), 2),
            (Token::Local("c".into()), 1),
            (Token::Eof, 0),
        ]
    );
    // A closing parenthesis without an opening one, and a closing of a
    // colon that is not there, change nothing.
    assert_eq!(leveled(") a, b")[0], (Token::Local("a".into()), 0));
}

#[test]
fn comments_are_skipped() {
    let tokens = leveled("a # b c\n# d\ne");
    assert_eq!(
        tokens,
        vec![
            (Token::Local("a".into()), 0),
            (Token::Local("e".into()), 0),
            (Token::Eof, 0),
        ]
    );
}

#[test]
fn tokenize_reports_the_byte_offset_of_an_unexpected_character() {
    let error = tokenize("a 'é' £ b").err().unwrap();
    assert_eq!(error.message, ErrorMessage::UnexpectedChar("£".to_string()));
    // 'é' takes two bytes.
    assert_eq!(error.context, Some(ErrorContext::Character(7)));
    let error = tokenize("  ~").err().unwrap();
    assert_eq!(error.message, ErrorMessage::UnexpectedChar("~".to_string()));
    assert_eq!(error.context, Some(ErrorContext::Character(2)));
}

#[test]
fn tokenizing_is_a_function_of_the_text() {
    let code = "mod A\n    traits\n        T: (x: Self) -> ?\n";
    assert_eq!(leveled(code), leveled(&code.to_string()));
    assert_eq!(leveled(""), vec![(Token::Eof, 0)]);
}

#[test]
fn position_of_token_counts_retained_tokens() {
    let code = "ab (cd: 'é') # x\n  ef";
    assert_eq!(get_position_of_token(code, 0), 0);
    assert_eq!(get_position_of_token(code, 1), 4);
    assert_eq!(get_position_of_token(code, 2), 8);
    assert_eq!(get_position_of_token(code, 3), 20);
    // The end of input, and everything behind it.
    assert_eq!(get_position_of_token(code, 4), 22);
    assert_eq!(get_position_of_token(code, 40), 22);
    // A character that starts no token stops the count.
    assert_eq!(get_position_of_token("a £ b", 1), 2);
}
