use compost::error::ErrorMessage;
use compost::lex::token::{next_token, Kw, Level, Lit, Next, Op, Token};

#[test]
fn token_test_operators() {
    assert_eq!(next_token("+ 1"), Ok((Some(Token::Op(Op::Add)), 1)));
    assert_eq!(next_token("- 1"), Ok((Some(Token::Op(Op::Sub)), 1)));
    assert_eq!(next_token("/ 1"), Ok((Some(Token::Op(Op::Div)), 1)));
    assert_eq!(next_token("* 1"), Ok((Some(Token::Op(Op::Mul)), 1)));
    assert_eq!(next_token(".Add"), Ok((Some(Token::Op(Op::Dot)), 1)));
    assert_eq!(next_token("< 1"), Ok((Some(Token::Op(Op::Lt)), 1)));
    assert_eq!(next_token("> 1"), Ok((Some(Token::Op(Op::Gt)), 1)));
    assert_eq!(next_token("= 1"), Ok((Some(Token::Op(Op::Eq)), 1)));
    assert_eq!(next_token("& 1"), Ok((Some(Token::Op(Op::And)), 1)));
    assert_eq!(next_token("| 1"), Ok((Some(Token::Op(Op::Or)), 1)));
    assert_eq!(next_token("? 1"), Ok((Some(Token::Op(Op::Question)), 1)));
}

#[test]
fn token_test_comments() {
    assert_eq!(next_token("# A comment\n1 + 1"), Ok((None, 11)));
    assert_eq!(
        next_token("# A comment\n# Next comment\n1 + 1"),
        Ok((None, 11))
    );
}

#[test]
fn token_test_whitespace() {
    assert_eq!(next_token(" 1 + 1"), Ok((Some(Token::Space), 1)));
    assert_eq!(next_token(""), Ok((Some(Token::Eof), 1)));
}

#[test]
fn token_test_levels() {
    assert_eq!(
        next_token("\n1 + 1"),
        Ok((Some(Token::Next(Next::Line)), 1))
    );
    assert_eq!(
        next_token(",1 + 1"),
        Ok((Some(Token::Next(Next::Comma)), 1))
    );
    assert_eq!(
        next_token(": 1 + 1"),
        Ok((Some(Token::Down(Level::Colon)), 1))
    );
    assert_eq!(
        next_token("(1 + 1)"),
        Ok((Some(Token::Down(Level::Paren)), 1))
    );
    assert_eq!(next_token(")1 + 1"), Ok((Some(Token::Up(Level::Paren)), 1)));
}

#[test]
fn token_test_literals() {
    assert_eq!(
        next_token("123 "),
        Ok((Some(Token::Lit(Lit::Number(123))), 3))
    );
    assert_eq!(
        next_token("'Bla' "),
        Ok((Some(Token::Lit(Lit::String("Bla".into()))), 5))
    );
}

#[test]
fn token_test_keywords() {
    assert_eq!(next_token("mod "), Ok((Some(Token::Kw(Kw::Mod)), 3)));
    assert_eq!(next_token("class "), Ok((Some(Token::Kw(Kw::Class)), 5)));
    assert_eq!(next_token("struct "), Ok((Some(Token::Kw(Kw::Struct)), 6)));
    assert_eq!(next_token("traits "), Ok((Some(Token::Kw(Kw::Traits)), 6)));
    assert_eq!(next_token("defs "), Ok((Some(Token::Kw(Kw::Defs)), 4)));
    assert_eq!(next_token("lets "), Ok((Some(Token::Kw(Kw::Lets)), 4)));
    assert_eq!(next_token("Self "), Ok((Some(Token::Kw(Kw::Zelf)), 4)));
}

#[test]
fn token_test_local() {
    assert_eq!(
        next_token("local "),
        Ok((Some(Token::Local("local".into())), 5))
    );
    assert_eq!(
        next_token("aLocalField "),
        Ok((Some(Token::Local("aLocalField".into())), 11))
    );
}

#[test]
fn token_test_global() {
    assert_eq!(
        next_token("Global "),
        Ok((Some(Token::Global("Global".into())), 6))
    );
    assert_eq!(
        next_token("AGlobalField "),
        Ok((Some(Token::Global("AGlobalField".into())), 12))
    );
    assert_eq!(
        next_token("\\Global "),
        Ok((Some(Token::Global("\\Global".into())), 7))
    );
    assert_eq!(
        next_token("Module\\Global.Trait"),
        Ok((Some(Token::Global("Module\\Global".into())), 13))
    );
}

#[test]
fn test_unexpected() {
    assert_eq!(
        next_token("£"),
        Err(ErrorMessage::UnexpectedChar("£".to_string()))
    )
}

#[test]
fn more_keywords_booleans_and_the_at_sign() {
    assert_eq!(next_token("using "), Ok((Some(Token::Kw(Kw::Using)), 5)));
    assert_eq!(next_token("match x"), Ok((Some(Token::Kw(Kw::Match)), 5)));
    assert_eq!(next_token("if"), Ok((Some(Token::Kw(Kw::If)), 2)));
    assert_eq!(next_token("then"), Ok((Some(Token::Kw(Kw::Then)), 4)));
    assert_eq!(next_token("else"), Ok((Some(Token::Kw(Kw::Else)), 4)));
    assert_eq!(next_token("true"), Ok((Some(Token::Lit(Lit::Boolean(true))), 4)));
    assert_eq!(next_token("false "), Ok((Some(Token::Lit(Lit::Boolean(false))), 5)));
    assert_eq!(next_token("@Trait"), Ok((Some(Token::Op(Op::At)), 1)));
    // Only whole words are keywords.
    assert_eq!(next_token("iffy"), Ok((Some(Token::Local("iffy".into())), 4)));
    assert_eq!(next_token("Selfish"), Ok((Some(Token::Global("Selfish".into())), 7)));
    assert_eq!(next_token("\r"), Ok((Some(Token::Next(Next::Line)), 1)));
}

#[test]
fn names_are_ascii() {
    assert_eq!(next_token("ab_c"), Ok((Some(Token::Local("ab".into())), 2)));
    assert_eq!(next_token("aé"), Ok((Some(Token::Local("a".into())), 1)));
    assert_eq!(
        next_token("é"),
        Err(ErrorMessage::UnexpectedChar("é".to_string()))
    );
}

#[test]
fn string_literals_end_with_the_next_quote_or_the_text() {
    assert_eq!(next_token("''"), Ok((Some(Token::Lit(Lit::String("".into()))), 2)));
    assert_eq!(
        next_token("'a b' 'c'"),
        Ok((Some(Token::Lit(Lit::String("a b".into()))), 5))
    );
    // Sizes are in bytes.
    assert_eq!(
        next_token("'é£'x"),
        Ok((Some(Token::Lit(Lit::String("é£".into()))), 6))
    );
    assert_eq!(
        next_token("'open"),
        Ok((Some(Token::Lit(Lit::String("open".into()))), 5))
    );
}

#[test]
fn numbers_that_do_not_fit_are_rejected() {
    assert_eq!(next_token("0"), Ok((Some(Token::Lit(Lit::Number(0))), 1)));
    assert_eq!(next_token("007"), Ok((Some(Token::Lit(Lit::Number(7))), 3)));
    let max = usize::MAX.to_string();
    assert_eq!(
        next_token(&max),
        Ok((Some(Token::Lit(Lit::Number(usize::MAX))), max.len()))
    );
    assert_eq!(
        next_token("340282366920938463463374607431768211456"),
        Err(ErrorMessage::UnexpectedChar("3".to_string()))
    );
}

#[test]
fn comments_run_to_the_end_of_the_line_or_the_text() {
    assert_eq!(next_token("#"), Ok((None, 1)));
    assert_eq!(next_token("# é"), Ok((None, 4)));
    assert_eq!(next_token("#\nx"), Ok((None, 1)));
}
