//! The one error type of the front end, and where in the source an error lies.

use crate::lex::token::Kw;
use crate::lex::token::Level;
use crate::lex::token::Next;
use crate::lex::token::Op;
use crate::lex::token::Token;
use crate::lex::token::TokenView;
use crate::lex::tokenizer::get_position_of_token;
use crate::lex::tokenizer::spec_position_of_token;
use crate::text::byte_len;
use crate::text::chars_of;
use crate::text::debug_text;
use crate::text::decimal;
use crate::text::quoted;
use crate::text::decimal_of;
use crate::text::lemma_byte_len_push;
use crate::text::width_of;
use vstd::prelude::*;
use vstd::string::StringExecFns;

verus! {

/// An error during compilation.
#[derive(Debug, PartialEq)]
pub struct CompilationError {
    pub message: ErrorMessage,
    pub context: Option<ErrorContext>,
}

/// A compilation error message.
#[derive(Debug, PartialEq)]
pub enum ErrorMessage {
    UnexpectedChar(String),
    UnexpectedToken(Token, Option<String>),
    NoSelf,
    NoResolution(&'static str, String),
    DoubleDeclaration(&'static str, String),
    NoModuleOrTrait(String),
    NoTrait(String),
    DuplicateClass(String),
    DuplicateStruct(String),
    ClassAndStruct(String),
    UnknownRawType(String),
    UndefinedTrait(String),
    MissingInput(String),
    /// Slot name, then the expected and the given type as written in source.
    TypeMismatch(String, String, String),
}

/// A half-open range `start..end` of retained tokens.
#[derive(Debug, Eq, PartialEq, Clone, Copy)]
pub struct Span {
    pub start: usize,
    pub end: usize,
}

/// Where the error occurred.
#[derive(Debug, Eq, PartialEq, Clone, Copy)]
pub enum ErrorContext {
    /// Byte offset into the source.
    Character(usize),
    /// Index of a retained token.
    Token(usize),
    /// Half-open range of retained tokens.
    TokenRange(Span),
}

/// A message as a mathematical value.
pub enum MessageView {
    UnexpectedChar(Seq<char>),
    UnexpectedToken(TokenView, Option<Seq<char>>),
    NoSelf,
    NoResolution(Seq<char>, Seq<char>),
    DoubleDeclaration(Seq<char>, Seq<char>),
    NoModuleOrTrait(Seq<char>),
    NoTrait(Seq<char>),
    DuplicateClass(Seq<char>),
    DuplicateStruct(Seq<char>),
    ClassAndStruct(Seq<char>),
    UnknownRawType(Seq<char>),
    UndefinedTrait(Seq<char>),
    MissingInput(Seq<char>),
    TypeMismatch(Seq<char>, Seq<char>, Seq<char>),
}

impl View for ErrorMessage {
    type V = MessageView;

    open spec fn view(&self) -> MessageView {
        match *self {
            ErrorMessage::UnexpectedChar(c) => MessageView::UnexpectedChar(c@),
            ErrorMessage::UnexpectedToken(token, Some(expectation)) => MessageView::UnexpectedToken(
                token@,
                Some(expectation@),
            ),
            ErrorMessage::UnexpectedToken(token, None) => MessageView::UnexpectedToken(
                token@,
                None,
            ),
            ErrorMessage::NoSelf => MessageView::NoSelf,
            ErrorMessage::NoResolution(kind, name) => MessageView::NoResolution(kind@, name@),
            ErrorMessage::DoubleDeclaration(kind, name) => MessageView::DoubleDeclaration(
                kind@,
                name@,
            ),
            ErrorMessage::NoModuleOrTrait(name) => MessageView::NoModuleOrTrait(name@),
            ErrorMessage::NoTrait(name) => MessageView::NoTrait(name@),
            ErrorMessage::DuplicateClass(name) => MessageView::DuplicateClass(name@),
            ErrorMessage::DuplicateStruct(name) => MessageView::DuplicateStruct(name@),
            ErrorMessage::ClassAndStruct(name) => MessageView::ClassAndStruct(name@),
            ErrorMessage::UnknownRawType(name) => MessageView::UnknownRawType(name@),
            ErrorMessage::UndefinedTrait(name) => MessageView::UndefinedTrait(name@),
            ErrorMessage::MissingInput(name) => MessageView::MissingInput(name@),
            ErrorMessage::TypeMismatch(name, expected, given) => MessageView::TypeMismatch(
                name@,
                expected@,
                given@,
            ),
        }
    }
}

/// An error as a mathematical value.
pub struct ErrorView {
    pub message: MessageView,
    pub context: Option<ErrorContext>,
}

impl View for CompilationError {
    type V = ErrorView;

    open spec fn view(&self) -> ErrorView {
        ErrorView { message: self.message@, context: self.context }
    }
}

impl ErrorView {
    /// The same message over the given range of tokens.
    pub open spec fn at(self, range: Span) -> ErrorView {
        ErrorView { context: Some(ErrorContext::TokenRange(range)), ..self }
    }

    /// An error without a location.
    pub open spec fn of(message: MessageView) -> ErrorView {
        ErrorView { message, context: None }
    }
}

pub type CResult<T> = Result<T, CompilationError>;

/// An error without a location.
pub fn error<T>(message: ErrorMessage) -> (r: CResult<T>)
    ensures
        r == Err::<T, CompilationError>(CompilationError { message, context: None }),
{
    Err(CompilationError { message, context: None })
}

/// An error that covers the given range of tokens.
pub fn error_at<T>(range: Span, message: ErrorMessage) -> (r: CResult<T>)
    ensures
        r == Err::<T, CompilationError>(
            CompilationError { message, context: Some(ErrorContext::TokenRange(range)) },
        ),
{
    Err(CompilationError { message, context: Some(ErrorContext::TokenRange(range)) })
}

impl CompilationError {
    /// The same message at the given location.
    pub fn context(self, context: ErrorContext) -> (r: Self)
        ensures
            r.message == self.message,
            r.context == Some(context),
    {
        CompilationError { message: self.message, context: Some(context) }
    }
}

/// How a keyword is shown in messages.
pub open spec fn kw_text(kw: Kw) -> Seq<char> {
    match kw {
        Kw::Mod => "Kw(Mod)"@,
        Kw::Class => "Kw(Class)"@,
        Kw::Struct => "Kw(Struct)"@,
        Kw::Traits => "Kw(Traits)"@,
        Kw::Defs => "Kw(Defs)"@,
        Kw::Lets => "Kw(Lets)"@,
        Kw::Using => "Kw(Using)"@,
        Kw::Match => "Kw(Match)"@,
        Kw::If => "Kw(If)"@,
        Kw::Then => "Kw(Then)"@,
        Kw::Else => "Kw(Else)"@,
        Kw::Zelf => "Kw(Zelf)"@,
    }
}

/// How an operator is shown in messages.
pub open spec fn op_text(op: Op) -> Seq<char> {
    match op {
        Op::Dot => "Op(Dot)"@,
        Op::Add => "Op(Add)"@,
        Op::Sub => "Op(Sub)"@,
        Op::Div => "Op(Div)"@,
        Op::Mul => "Op(Mul)"@,
        Op::Eq => "Op(Eq)"@,
        Op::Lt => "Op(Lt)"@,
        Op::Gt => "Op(Gt)"@,
        Op::And => "Op(And)"@,
        Op::Or => "Op(Or)"@,
        Op::Question => "Op(Question)"@,
        Op::At => "Op(At)"@,
    }
}

/// How a token is shown in messages: the variant, with its payload in
/// brackets; names and string literals stand as the standard library writes
/// a text in its `Debug` form.
pub open spec fn token_text(token: TokenView) -> Seq<char> {
    match token {
        TokenView::Down(Level::Colon) => "Down(Colon)"@,
        TokenView::Down(Level::Paren) => "Down(Paren)"@,
        TokenView::Up(Level::Colon) => "Up(Colon)"@,
        TokenView::Up(Level::Paren) => "Up(Paren)"@,
        TokenView::Next(Next::Comma) => "Next(Comma)"@,
        TokenView::Next(Next::Line) => "Next(Line)"@,
        TokenView::Eof => "Eof"@,
        TokenView::Kw(kw) => kw_text(kw),
        TokenView::Local(name) => "Local("@ + debug_text(name) + ")"@,
        TokenView::Global(name) => "Global("@ + debug_text(name) + ")"@,
        TokenView::Op(op) => op_text(op),
        TokenView::Text(text) => "Lit(String("@ + debug_text(text) + "))"@,
        TokenView::Number(n) => "Lit(Number("@ + decimal(n as nat) + "))"@,
        TokenView::Boolean(true) => "Lit(Boolean(true))"@,
        TokenView::Boolean(false) => "Lit(Boolean(false))"@,
        TokenView::Space => "Space"@,
    }
}

/// `open`, then `inner`, then `close`.
pub fn bracketed(open: &str, inner: &str, close: &str) -> (out: String)
    ensures
        out@ == open@ + inner@ + close@,
{
    let mut out = String::from_str(open);
    out.append(inner);
    out.append(close);
    out
}

fn kw_text_of(kw: Kw) -> (out: &'static str)
    ensures
        out@ == kw_text(kw),
{
    match kw {
        Kw::Mod => "Kw(Mod)",
        Kw::Class => "Kw(Class)",
        Kw::Struct => "Kw(Struct)",
        Kw::Traits => "Kw(Traits)",
        Kw::Defs => "Kw(Defs)",
        Kw::Lets => "Kw(Lets)",
        Kw::Using => "Kw(Using)",
        Kw::Match => "Kw(Match)",
        Kw::If => "Kw(If)",
        Kw::Then => "Kw(Then)",
        Kw::Else => "Kw(Else)",
        Kw::Zelf => "Kw(Zelf)",
    }
}

fn op_text_of(op: Op) -> (out: &'static str)
    ensures
        out@ == op_text(op),
{
    match op {
        Op::Dot => "Op(Dot)",
        Op::Add => "Op(Add)",
        Op::Sub => "Op(Sub)",
        Op::Div => "Op(Div)",
        Op::Mul => "Op(Mul)",
        Op::Eq => "Op(Eq)",
        Op::Lt => "Op(Lt)",
        Op::Gt => "Op(Gt)",
        Op::And => "Op(And)",
        Op::Or => "Op(Or)",
        Op::Question => "Op(Question)",
        Op::At => "Op(At)",
    }
}

/// The text that stands for a token in messages.
pub fn token_text_of(token: &Token) -> (out: String)
    ensures
        out@ == token_text(token@),
{
    match token {
        Token::Down(Level::Colon) => String::from_str("Down(Colon)"),
        Token::Down(Level::Paren) => String::from_str("Down(Paren)"),
        Token::Up(Level::Colon) => String::from_str("Up(Colon)"),
        Token::Up(Level::Paren) => String::from_str("Up(Paren)"),
        Token::Next(Next::Comma) => String::from_str("Next(Comma)"),
        Token::Next(Next::Line) => String::from_str("Next(Line)"),
        Token::Eof => String::from_str("Eof"),
        Token::Kw(kw) => String::from_str(kw_text_of(*kw)),
        Token::Local(name) => bracketed("Local(", quoted(name.as_str()).as_str(), ")"),
        Token::Global(name) => bracketed("Global(", quoted(name.as_str()).as_str(), ")"),
        Token::Op(op) => String::from_str(op_text_of(*op)),
        Token::Lit(crate::lex::token::Lit::String(text)) => bracketed(
            "Lit(String(",
            quoted(text.as_str()).as_str(),
            "))",
        ),
        Token::Lit(crate::lex::token::Lit::Number(n)) => bracketed(
            "Lit(Number(",
            decimal_of(*n as u64).as_str(),
            "))",
        ),
        Token::Lit(crate::lex::token::Lit::Boolean(true)) => String::from_str(
            "Lit(Boolean(true))",
        ),
        Token::Lit(crate::lex::token::Lit::Boolean(false)) => String::from_str(
            "Lit(Boolean(false))",
        ),
        Token::Space => String::from_str("Space"),
    }
}

impl ErrorMessage {
    /// The message in words.
    pub open spec fn spec_text(self) -> Seq<char> {
        match self {
            ErrorMessage::UnexpectedChar(c) => "Unexpected character "@ + c@,
            ErrorMessage::UnexpectedToken(token, Some(expectation)) => "Unexpected token "@
                + token_text(token@) + ", expecting "@ + expectation@,
            ErrorMessage::UnexpectedToken(token, None) => "Unexpected token "@ + token_text(
                token@,
            ),
            ErrorMessage::NoSelf => "Can't use 'Self' in global scope"@,
            ErrorMessage::NoResolution(kind, name) => "No resolution for "@ + kind@ + " '"@
                + name@ + "'"@,
            ErrorMessage::DoubleDeclaration(kind, name) => kind@ + " '"@ + name@
                + "' was declared twice"@,
            ErrorMessage::NoModuleOrTrait(name) => "'"@ + name@ + "' is not a module or a trait"@,
            ErrorMessage::NoTrait(name) => "'"@ + name@ + "' is not a trait"@,
            ErrorMessage::DuplicateClass(name) => "Unexpected class in module '"@ + name@
                + "' which already has a class"@,
            ErrorMessage::DuplicateStruct(name) => "Unexpected struct in module '"@ + name@
                + "' which already has a struct"@,
            ErrorMessage::ClassAndStruct(name) => "Module '"@ + name@
                + "' has both a class and a struct. A module can only have one of the two."@,
            ErrorMessage::UnknownRawType(name) => "Unknown raw type '"@ + name@ + "'"@,
            ErrorMessage::UndefinedTrait(name) => "Trait '"@ + name@
                + "' is not available for this type"@,
            ErrorMessage::MissingInput(name) => "Missing input for '"@ + name@ + "'"@,
            ErrorMessage::TypeMismatch(name, expected, given) => "Type mismatch for '"@ + name@
                + "'.\n  Expected: "@ + expected@ + "\n  Got: "@ + given@ + "\n"@,
        }
    }

    /// The message in words.
    pub fn text(&self) -> (out: String)
        ensures
            out@ == self.spec_text(),
    {
        match self {
            ErrorMessage::UnexpectedChar(c) => crate::text::concat_text(
                "Unexpected character ",
                c.as_str(),
            ),
            ErrorMessage::UnexpectedToken(token, Some(expectation)) => {
                let mut out = bracketed(
                    "Unexpected token ",
                    token_text_of(token).as_str(),
                    ", expecting ",
                );
                out.append(expectation.as_str());
                out
            },
            ErrorMessage::UnexpectedToken(token, None) => crate::text::concat_text(
                "Unexpected token ",
                token_text_of(token).as_str(),
            ),
            ErrorMessage::NoSelf => String::from_str("Can't use 'Self' in global scope"),
            ErrorMessage::NoResolution(kind, name) => {
                let mut out = bracketed("No resolution for ", kind, " '");
                out.append(name.as_str());
                out.append("'");
                out
            },
            ErrorMessage::DoubleDeclaration(kind, name) => {
                let mut out = bracketed(kind, " '", name.as_str());
                out.append("' was declared twice");
                out
            },
            ErrorMessage::NoModuleOrTrait(name) => bracketed(
                "'",
                name.as_str(),
                "' is not a module or a trait",
            ),
            ErrorMessage::NoTrait(name) => bracketed("'", name.as_str(), "' is not a trait"),
            ErrorMessage::DuplicateClass(name) => bracketed(
                "Unexpected class in module '",
                name.as_str(),
                "' which already has a class",
            ),
            ErrorMessage::DuplicateStruct(name) => bracketed(
                "Unexpected struct in module '",
                name.as_str(),
                "' which already has a struct",
            ),
            ErrorMessage::ClassAndStruct(name) => bracketed(
                "Module '",
                name.as_str(),
                "' has both a class and a struct. A module can only have one of the two.",
            ),
            ErrorMessage::UnknownRawType(name) => bracketed(
                "Unknown raw type '",
                name.as_str(),
                "'",
            ),
            ErrorMessage::UndefinedTrait(name) => bracketed(
                "Trait '",
                name.as_str(),
                "' is not available for this type",
            ),
            ErrorMessage::MissingInput(name) => bracketed(
                "Missing input for '",
                name.as_str(),
                "'",
            ),
            ErrorMessage::TypeMismatch(name, expected, given) => {
                let mut out = bracketed("Type mismatch for '", name.as_str(), "'.\n  Expected: ");
                out.append(expected.as_str());
                out.append("\n  Got: ");
                out.append(given.as_str());
                out.append("\n");
                out
            },
        }
    }
}

impl ErrorContext {
    /// The byte offset into `code` that this location stands for.
    pub open spec fn spec_position_in_code(self, code: Seq<char>) -> nat {
        match self {
            ErrorContext::Character(position) => position as nat,
            ErrorContext::Token(token_number) => spec_position_of_token(code, token_number as nat),
            ErrorContext::TokenRange(range) => spec_position_of_token(code, range.start as nat),
        }
    }

    pub fn get_position_in_code(&self, code: &str) -> (r: usize)
        ensures
            r == self.spec_position_in_code(code@),
    {
        match self {
            ErrorContext::Character(position) => *position,
            ErrorContext::Token(token_number) => get_position_of_token(code, *token_number),
            ErrorContext::TokenRange(range) => get_position_of_token(code, range.start),
        }
    }
}

/// Number of line feeds in a text.
pub open spec fn line_feeds(s: Seq<char>) -> nat
    decreases s.len(),
{
    if s.len() == 0 {
        0
    } else {
        line_feeds(s.drop_last()) + if s.last() == '\n' {
            1nat
        } else {
            0nat
        }
    }
}

/// One more than the number of characters after the last line feed.
pub open spec fn column_after(s: Seq<char>) -> nat
    decreases s.len(),
{
    if s.len() == 0 || s.last() == '\n' {
        1
    } else {
        column_after(s.drop_last()) + 1
    }
}

/// Number of characters, from index `j` on, that start before the byte
/// offset `position`, added to `j`.
pub open spec fn char_index_at(s: Seq<char>, j: int, position: nat) -> int
    decreases s.len() - j,
{
    if 0 <= j < s.len() && byte_len(s.subrange(0, j)) < position {
        char_index_at(s, j + 1, position)
    } else {
        j
    }
}

/// `n`, or the largest machine number where `n` does not fit.
pub open spec fn clamped(n: int) -> usize {
    if n < 0 {
        0
    } else if n > usize::MAX {
        usize::MAX
    } else {
        n as usize
    }
}

/// Line and column, both from 1, of the byte offset `position` in
/// `all_code`, the line counted from the end of the prelude `std_code`.
pub open spec fn spec_line_and_col(std_code: Seq<char>, all_code: Seq<char>, position: nat) -> (
    usize,
    usize,
) {
    let before = all_code.subrange(0, char_index_at(all_code, 0, position));
    (
        clamped(clamped(line_feeds(before) as int + 1) - clamped(line_feeds(std_code) as int)),
        clamped(column_after(before) as int),
    )
}

/// The next number, unless it does not fit.
fn bump(n: usize) -> (r: usize)
    ensures
        r == clamped(n + 1),
{
    if n < usize::MAX {
        n + 1
    } else {
        n
    }
}

/// Number of line feeds in a text, as far as it can be counted.
fn count_line_feeds(code: &str) -> (r: usize)
    ensures
        r == clamped(line_feeds(code@) as int),
{
    let chars = chars_of(code);
    let mut count: usize = 0;
    let mut i: usize = 0;
    assert(chars@.subrange(0, 0) == Seq::<char>::empty());
    while i < chars.len()
        invariant
            i <= chars.len(),
            chars@ == code@,
            count == clamped(line_feeds(chars@.subrange(0, i as int)) as int),
        decreases chars.len() - i,
    {
        assert(chars@.subrange(0, i + 1).drop_last() == chars@.subrange(0, i as int));
        if chars[i] == '\n' {
            count = bump(count);
        }
        i += 1;
    }
    assert(chars@.subrange(0, i as int) == chars@);
    count
}

pub fn get_line_and_col_number(std_code: &str, all_code: &str, position: usize) -> (r: (
    usize,
    usize,
))
    ensures
        r == spec_line_and_col(std_code@, all_code@, position as nat),
{
    let lines_in_std_code = count_line_feeds(std_code);
    let chars = chars_of(all_code);
    let total = all_code.as_bytes().len();
    assert(byte_len(chars@) == total);
    let mut line: usize = 1;
    let mut col: usize = 1;
    let mut offset: usize = 0;
    let mut j: usize = 0;
    assert(chars@.subrange(0, 0) == Seq::<char>::empty());
    while j < chars.len() && offset < position
        invariant
            j <= chars.len(),
            chars@ == all_code@,
            byte_len(chars@) <= usize::MAX,
            offset == byte_len(chars@.subrange(0, j as int)),
            char_index_at(chars@, 0, position as nat) == char_index_at(
                chars@,
                j as int,
                position as nat,
            ),
            line == clamped(line_feeds(chars@.subrange(0, j as int)) as int + 1),
            col == clamped(column_after(chars@.subrange(0, j as int)) as int),
        decreases chars.len() - j,
    {
        let c = chars[j];
        proof {
            let before = chars@.subrange(0, j as int);
            assert(chars@.subrange(0, j + 1).drop_last() == before);
            assert(chars@.subrange(0, j + 1) == before.push(c));
            lemma_byte_len_push(before, c);
            crate::text::lemma_byte_len_prefix(chars@, 0, j + 1);
        }
        if c == '\n' {
            line = bump(line);
            col = 1;
        } else {
            col = bump(col);
        }
        offset = offset + width_of(c);
        j += 1;
    }
    let shown = if line >= lines_in_std_code {
        line - lines_in_std_code
    } else {
        0
    };
    (shown, col)
}

impl CompilationError {
    /// The message, followed by line and column where the error has a
    /// location.
    pub open spec fn spec_to_string(self, std_code: Seq<char>, all_code: Seq<char>) -> Seq<char> {
        match self.context {
            Some(context) => {
                let position = context.spec_position_in_code(all_code);
                let (line, col) = spec_line_and_col(std_code, all_code, position);
                self.message.spec_text() + " at line "@ + decimal(line as nat) + " col "@
                    + decimal(col as nat)
            },
            None => self.message.spec_text(),
        }
    }

    pub fn to_string(&self, std_code: &str, all_code: &str) -> (out: String)
        ensures
            out@ == self.spec_to_string(std_code@, all_code@),
    {
        let mut message = self.message.text();
        match &self.context {
            Some(context) => {
                let position = context.get_position_in_code(all_code);
                let (line, col) = get_line_and_col_number(std_code, all_code, position);
                message.append(" at line ");
                message.append(decimal_of(line as u64).as_str());
                message.append(" col ");
                message.append(decimal_of(col as u64).as_str());
                message
            },
            None => message,
        }
    }
}

} // verus!
