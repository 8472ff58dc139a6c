//! Tokens and the recognition of one token at the start of a text.

use crate::error::ErrorMessage;
use crate::text::byte_len;
use crate::text::byte_len_of;
use crate::text::char_is_alphanumeric;
use crate::text::char_is_digit;
use crate::text::char_is_lower;
use crate::text::char_is_upper;
use crate::text::chars_of;
use crate::text::digits_value;
use crate::text::is_alphanumeric;
use crate::text::is_digit;
use crate::text::is_lower;
use crate::text::is_upper;
use crate::text::number_of;
use crate::text::string_of;
use vstd::prelude::*;

verus! {

/// Represents a single token.
#[derive(Eq, PartialEq, Debug, Clone)]
pub enum Token {
    Down(Level),
    Up(Level),
    Next(Next),
    Eof,
    Kw(Kw),
    Local(String),
    Global(String),
    Op(Op),
    Lit(Lit),
    Space,
}

/// Keywords
#[derive(Eq, PartialEq, Debug, Clone, Copy)]
pub enum Kw {
    Mod,
    Class,
    Struct,
    Traits,
    Defs,
    Lets,
    Using,
    Match,
    If,
    Then,
    Else,
    Zelf,
}

/// Operators.
#[derive(Eq, PartialEq, Debug, Clone, Copy)]
pub enum Op {
    Dot,
    Add,
    Sub,
    Div,
    Mul,
    Eq,
    Lt,
    Gt,
    And,
    Or,
    Question,
    At,
}

/// Literals.
#[derive(Eq, PartialEq, Debug, Clone)]
pub enum Lit {
    String(String),
    Number(usize),
    Boolean(bool),
}

/// The type of level syntax.
#[derive(Eq, PartialEq, Debug, Clone, Copy)]
pub enum Level {
    Colon,
    Paren,
}

/// Used to separate levels.
#[derive(Eq, PartialEq, Debug, Clone, Copy)]
pub enum Next {
    Comma,
    Line,
}

/// A token as a mathematical value: names and string literals are character
/// sequences.
pub enum TokenView {
    Down(Level),
    Up(Level),
    Next(Next),
    Eof,
    Kw(Kw),
    Local(Seq<char>),
    Global(Seq<char>),
    Op(Op),
    Text(Seq<char>),
    Number(usize),
    Boolean(bool),
    Space,
}

impl View for Token {
    type V = TokenView;

    open spec fn view(&self) -> TokenView {
        match *self {
            Token::Down(l) => TokenView::Down(l),
            Token::Up(l) => TokenView::Up(l),
            Token::Next(n) => TokenView::Next(n),
            Token::Eof => TokenView::Eof,
            Token::Kw(k) => TokenView::Kw(k),
            Token::Local(s) => TokenView::Local(s@),
            Token::Global(s) => TokenView::Global(s@),
            Token::Op(o) => TokenView::Op(o),
            Token::Lit(Lit::String(s)) => TokenView::Text(s@),
            Token::Lit(Lit::Number(n)) => TokenView::Number(n),
            Token::Lit(Lit::Boolean(b)) => TokenView::Boolean(b),
            Token::Space => TokenView::Space,
        }
    }
}

impl Token {
    /// A copy of this token.
    pub fn duplicate(&self) -> (r: Token)
        ensures
            r == *self,
    {
        match self {
            Token::Down(l) => Token::Down(*l),
            Token::Up(l) => Token::Up(*l),
            Token::Next(n) => Token::Next(*n),
            Token::Eof => Token::Eof,
            Token::Kw(k) => Token::Kw(*k),
            Token::Local(s) => Token::Local(s.clone()),
            Token::Global(s) => Token::Global(s.clone()),
            Token::Op(o) => Token::Op(*o),
            Token::Lit(Lit::String(s)) => Token::Lit(Lit::String(s.clone())),
            Token::Lit(Lit::Number(n)) => Token::Lit(Lit::Number(*n)),
            Token::Lit(Lit::Boolean(b)) => Token::Lit(Lit::Boolean(*b)),
            Token::Space => Token::Space,
        }
    }
}

/// The view of a token that may be absent.
pub open spec fn view_of(token: Option<Token>) -> Option<TokenView> {
    match token {
        Some(t) => Some(t@),
        None => None,
    }
}

/// The kinds of character runs that make up the longer tokens.
#[derive(Clone, Copy)]
pub enum CharClass {
    /// Letters and digits: the body of a lower-case word.
    Word,
    /// Letters, digits and backslashes: the body of a qualified name.
    Name,
    /// Decimal digits.
    Digit,
    /// Anything up to the end of the line.
    Comment,
    /// Anything up to the closing quote.
    Quoted,
}

/// Whether a run of the given class goes on over `c`.
pub open spec fn in_class(c: char, class: CharClass) -> bool {
    match class {
        CharClass::Word => is_alphanumeric(c),
        CharClass::Name => is_alphanumeric(c) || c == '\\',
        CharClass::Digit => is_digit(c),
        CharClass::Comment => c != '\n',
        CharClass::Quoted => c != '\'',
    }
}

/// End of the longest run of `class` characters that starts at `i`.
pub open spec fn run_end(s: Seq<char>, i: int, class: CharClass) -> int
    decreases s.len() - i,
{
    if 0 <= i < s.len() && in_class(s[i], class) {
        run_end(s, i + 1, class)
    } else {
        i
    }
}

/// The run that starts at `i` stays inside the text, and all of it is of the
/// class.
pub proof fn lemma_run_end(s: Seq<char>, i: int, class: CharClass)
    requires
        0 <= i <= s.len(),
    ensures
        i <= run_end(s, i, class) <= s.len(),
        forall|k: int| i <= k < run_end(s, i, class) ==> in_class(#[trigger] s[k], class),
        run_end(s, i, class) < s.len() ==> !in_class(s[run_end(s, i, class)], class),
    decreases s.len() - i,
{
    if i < s.len() && in_class(s[i], class) {
        lemma_run_end(s, i + 1, class);
    }
}

/// The token that a lower-case word stands for.
pub open spec fn word_token(text: Seq<char>) -> TokenView {
    if text == "mod"@ {
        TokenView::Kw(Kw::Mod)
    } else if text == "class"@ {
        TokenView::Kw(Kw::Class)
    } else if text == "struct"@ {
        TokenView::Kw(Kw::Struct)
    } else if text == "traits"@ {
        TokenView::Kw(Kw::Traits)
    } else if text == "defs"@ {
        TokenView::Kw(Kw::Defs)
    } else if text == "lets"@ {
        TokenView::Kw(Kw::Lets)
    } else if text == "using"@ {
        TokenView::Kw(Kw::Using)
    } else if text == "match"@ {
        TokenView::Kw(Kw::Match)
    } else if text == "if"@ {
        TokenView::Kw(Kw::If)
    } else if text == "then"@ {
        TokenView::Kw(Kw::Then)
    } else if text == "else"@ {
        TokenView::Kw(Kw::Else)
    } else if text == "true"@ {
        TokenView::Boolean(true)
    } else if text == "false"@ {
        TokenView::Boolean(false)
    } else {
        TokenView::Local(text)
    }
}

/// The token that an upper-case or qualified name stands for.
pub open spec fn name_token(text: Seq<char>) -> TokenView {
    if text == "Self"@ {
        TokenView::Kw(Kw::Zelf)
    } else {
        TokenView::Global(text)
    }
}

/// The token that a single punctuation or operator character stands for.
pub open spec fn symbol_token(c: char) -> Option<TokenView> {
    if c == ' ' {
        Some(TokenView::Space)
    } else if c == '(' {
        Some(TokenView::Down(Level::Paren))
    } else if c == ')' {
        Some(TokenView::Up(Level::Paren))
    } else if c == ':' {
        Some(TokenView::Down(Level::Colon))
    } else if c == '\n' || c == '\r' {
        Some(TokenView::Next(Next::Line))
    } else if c == ',' {
        Some(TokenView::Next(Next::Comma))
    } else if c == '+' {
        Some(TokenView::Op(Op::Add))
    } else if c == '-' {
        Some(TokenView::Op(Op::Sub))
    } else if c == '*' {
        Some(TokenView::Op(Op::Mul))
    } else if c == '/' {
        Some(TokenView::Op(Op::Div))
    } else if c == '<' {
        Some(TokenView::Op(Op::Lt))
    } else if c == '>' {
        Some(TokenView::Op(Op::Gt))
    } else if c == '=' {
        Some(TokenView::Op(Op::Eq))
    } else if c == '&' {
        Some(TokenView::Op(Op::And))
    } else if c == '|' {
        Some(TokenView::Op(Op::Or))
    } else if c == '?' {
        Some(TokenView::Op(Op::Question))
    } else if c == '.' {
        Some(TokenView::Op(Op::Dot))
    } else if c == '@' {
        Some(TokenView::Op(Op::At))
    } else {
        None
    }
}

/// What stands at one place of a text: a token, or a comment (no token), and
/// the number of characters it takes.
pub struct Scan {
    pub token: Option<TokenView>,
    pub chars: nat,
}

/// The token that starts at index `i` of `s`. The error is the character that
/// starts no token; a number too large for the machine is reported by its
/// first digit.
pub open spec fn spec_scan(s: Seq<char>, i: int) -> Result<Scan, char> {
    if !(0 <= i < s.len()) {
        Ok(Scan { token: Some(TokenView::Eof), chars: 0 })
    } else {
        let c = s[i];
        if symbol_token(c) is Some {
            Ok(Scan { token: symbol_token(c), chars: 1 })
        } else if c == '#' {
            Ok(Scan { token: None, chars: (run_end(s, i, CharClass::Comment) - i) as nat })
        } else if is_lower(c) {
            let end = run_end(s, i, CharClass::Word);
            Ok(Scan { token: Some(word_token(s.subrange(i, end))), chars: (end - i) as nat })
        } else if is_upper(c) || c == '\\' {
            let end = run_end(s, i, CharClass::Name);
            Ok(Scan { token: Some(name_token(s.subrange(i, end))), chars: (end - i) as nat })
        } else if is_digit(c) {
            let end = run_end(s, i, CharClass::Digit);
            let value = digits_value(s.subrange(i, end));
            if value <= usize::MAX {
                Ok(Scan { token: Some(TokenView::Number(value as usize)), chars: (end - i) as nat })
            } else {
                Err(c)
            }
        } else if c == '\'' {
            let end = run_end(s, i + 1, CharClass::Quoted);
            let closed: nat = if end < s.len() {
                1
            } else {
                0
            };
            Ok(
                Scan {
                    token: Some(TokenView::Text(s.subrange(i + 1, end))),
                    chars: (end - i) as nat + closed,
                },
            )
        } else {
            Err(c)
        }
    }
}

/// Size in bytes of what was scanned at `i`: the end of input counts as one.
pub open spec fn scan_bytes(s: Seq<char>, i: int, scan: Scan) -> nat {
    if scan.token == Some(TokenView::Eof) {
        1
    } else {
        byte_len(s.subrange(i, i + scan.chars))
    }
}

/// What `next_token` returns for a text: the token, or nothing for a comment,
/// with its size in bytes.
pub open spec fn spec_next_token(code: Seq<char>) -> Result<(Option<TokenView>, nat), char> {
    match spec_scan(code, 0) {
        Ok(scan) => Ok((scan.token, scan_bytes(code, 0, scan))),
        Err(c) => Err(c),
    }
}

/// Exec form of `in_class`.
fn char_in_class(c: char, class: CharClass) -> (r: bool)
    ensures
        r == in_class(c, class),
{
    match class {
        CharClass::Word => char_is_alphanumeric(c),
        CharClass::Name => char_is_alphanumeric(c) || c == '\\',
        CharClass::Digit => char_is_digit(c),
        CharClass::Comment => c != '\n',
        CharClass::Quoted => c != '\'',
    }
}

/// Walks to the end of the run of `class` characters that starts at `start`.
fn scan_run(chars: &Vec<char>, start: usize, class: CharClass) -> (end: usize)
    requires
        start <= chars.len(),
    ensures
        end == run_end(chars@, start as int, class),
        start <= end <= chars.len(),
{
    let mut i: usize = start;
    while i < chars.len() && char_in_class(chars[i], class)
        invariant
            start <= i <= chars.len(),
            run_end(chars@, start as int, class) == run_end(chars@, i as int, class),
        decreases chars.len() - i,
    {
        i += 1;
    }
    i
}

/// Whether `chars[from..to]` spells `word`.
fn run_is(chars: &Vec<char>, from: usize, to: usize, word: &str) -> (r: bool)
    requires
        from <= to <= chars.len(),
    ensures
        r == (chars@.subrange(from as int, to as int) == word@),
{
    let n = word.unicode_len();
    if to - from != n {
        return false;
    }
    let ghost run = chars@.subrange(from as int, to as int);
    let mut k: usize = 0;
    while k < n
        invariant
            from <= to <= chars.len(),
            to - from == n,
            n == word@.len(),
            k <= n,
            run == chars@.subrange(from as int, to as int),
            forall|j: int| 0 <= j < k ==> run[j] == word@[j],
        decreases n - k,
    {
        if chars[from + k] != word.get_char(k) {
            assert(run[k as int] != word@[k as int]);
            return false;
        }
        k += 1;
    }
    assert(run =~= word@);
    true
}

/// Number of characters of the comment that starts at `i`, up to the line end.
fn comment_size(chars: &Vec<char>, i: usize) -> (size: usize)
    requires
        i <= chars.len(),
    ensures
        size == run_end(chars@, i as int, CharClass::Comment) - i,
        i + size <= chars.len(),
{
    scan_run(chars, i, CharClass::Comment) - i
}

/// The keyword, boolean or local name that starts at `i`.
fn next_local_token(chars: &Vec<char>, i: usize) -> (r: (Token, usize))
    requires
        i <= chars.len(),
    ensures
        r.1 == run_end(chars@, i as int, CharClass::Word) - i,
        i + r.1 <= chars.len(),
        r.0@ == word_token(chars@.subrange(i as int, i + r.1)),
{
    let end = scan_run(chars, i, CharClass::Word);
    let token = if run_is(chars, i, end, "mod") {
        Token::Kw(Kw::Mod)
    } else if run_is(chars, i, end, "class") {
        Token::Kw(Kw::Class)
    } else if run_is(chars, i, end, "struct") {
        Token::Kw(Kw::Struct)
    } else if run_is(chars, i, end, "traits") {
        Token::Kw(Kw::Traits)
    } else if run_is(chars, i, end, "defs") {
        Token::Kw(Kw::Defs)
    } else if run_is(chars, i, end, "lets") {
        Token::Kw(Kw::Lets)
    } else if run_is(chars, i, end, "using") {
        Token::Kw(Kw::Using)
    } else if run_is(chars, i, end, "match") {
        Token::Kw(Kw::Match)
    } else if run_is(chars, i, end, "if") {
        Token::Kw(Kw::If)
    } else if run_is(chars, i, end, "then") {
        Token::Kw(Kw::Then)
    } else if run_is(chars, i, end, "else") {
        Token::Kw(Kw::Else)
    } else if run_is(chars, i, end, "true") {
        Token::Lit(Lit::Boolean(true))
    } else if run_is(chars, i, end, "false") {
        Token::Lit(Lit::Boolean(false))
    } else {
        Token::Local(string_of(chars, i, end))
    };
    (token, end - i)
}

/// The `Self` keyword or global name that starts at `i`.
fn next_global_token(chars: &Vec<char>, i: usize) -> (r: (Token, usize))
    requires
        i <= chars.len(),
    ensures
        r.1 == run_end(chars@, i as int, CharClass::Name) - i,
        i + r.1 <= chars.len(),
        r.0@ == name_token(chars@.subrange(i as int, i + r.1)),
{
    let end = scan_run(chars, i, CharClass::Name);
    let token = if run_is(chars, i, end, "Self") {
        Token::Kw(Kw::Zelf)
    } else {
        Token::Global(string_of(chars, i, end))
    };
    (token, end - i)
}

/// The number that starts at `i`, unless it is too large for the machine.
fn next_number_token(chars: &Vec<char>, i: usize) -> (r: Option<(Token, usize)>)
    requires
        i <= chars.len(),
    ensures
        ({
            let end = run_end(chars@, i as int, CharClass::Digit);
            let value = digits_value(chars@.subrange(i as int, end));
            match r {
                Some((token, size)) => value <= usize::MAX && token@ == TokenView::Number(
                    value as usize,
                ) && size == end - i && i + size <= chars.len(),
                None => value > usize::MAX,
            }
        }),
{
    let end = scan_run(chars, i, CharClass::Digit);
    proof {
        lemma_run_end(chars@, i as int, CharClass::Digit);
    }
    match number_of(chars, i, end) {
        Some(value) => Some((Token::Lit(Lit::Number(value)), end - i)),
        None => None,
    }
}

/// The string literal whose opening quote stands at `i`. It ends with the
/// next quote, or with the text.
fn next_string_token(chars: &Vec<char>, i: usize) -> (r: (Token, usize))
    requires
        i < chars.len(),
    ensures
        ({
            let end = run_end(chars@, i + 1, CharClass::Quoted);
            &&& i < end <= chars.len()
            &&& r.0@ == TokenView::Text(chars@.subrange(i + 1, end))
            &&& r.1 == end - i + if end < chars@.len() {
                1int
            } else {
                0int
            }
            &&& i + r.1 <= chars.len()
        }),
{
    let end = scan_run(chars, i + 1, CharClass::Quoted);
    let token = Token::Lit(Lit::String(string_of(chars, i + 1, end)));
    if end < chars.len() {
        (token, end - i + 1)
    } else {
        (token, end - i)
    }
}

/// The token for a single punctuation or operator character.
fn next_symbol_token(c: char) -> (r: Option<Token>)
    ensures
        view_of(r) == symbol_token(c),
{
    match c {
        ' ' => Some(Token::Space),
        '(' => Some(Token::Down(Level::Paren)),
        ')' => Some(Token::Up(Level::Paren)),
        ':' => Some(Token::Down(Level::Colon)),
        '\n' | '\r' => Some(Token::Next(Next::Line)),
        ',' => Some(Token::Next(Next::Comma)),
        '+' => Some(Token::Op(Op::Add)),
        '-' => Some(Token::Op(Op::Sub)),
        '*' => Some(Token::Op(Op::Mul)),
        '/' => Some(Token::Op(Op::Div)),
        '<' => Some(Token::Op(Op::Lt)),
        '>' => Some(Token::Op(Op::Gt)),
        '=' => Some(Token::Op(Op::Eq)),
        '&' => Some(Token::Op(Op::And)),
        '|' => Some(Token::Op(Op::Or)),
        '?' => Some(Token::Op(Op::Question)),
        '.' => Some(Token::Op(Op::Dot)),
        '@' => Some(Token::Op(Op::At)),
        _ => None,
    }
}

/// Recognises what starts at index `i` of the text: a token, or a comment
/// (no token), and the number of characters it takes.
pub fn scan_token(chars: &Vec<char>, i: usize) -> (r: Result<(Option<Token>, usize), char>)
    requires
        i <= chars.len(),
    ensures
        match spec_scan(chars@, i as int) {
            Ok(scan) => r matches Ok(found) && view_of(found.0) == scan.token && found.1
                == scan.chars && i + found.1 <= chars.len(),
            Err(c) => r == Err::<(Option<Token>, usize), char>(c),
        },
{
    if i >= chars.len() {
        return Ok((Some(Token::Eof), 0));
    }
    let c = chars[i];
    if let Some(token) = next_symbol_token(c) {
        Ok((Some(token), 1))
    } else if c == '#' {
        Ok((None, comment_size(chars, i)))
    } else if char_is_lower(c) {
        let (token, size) = next_local_token(chars, i);
        Ok((Some(token), size))
    } else if char_is_upper(c) || c == '\\' {
        let (token, size) = next_global_token(chars, i);
        Ok((Some(token), size))
    } else if char_is_digit(c) {
        match next_number_token(chars, i) {
            Some((token, size)) => Ok((Some(token), size)),
            None => Err(c),
        }
    } else if c == '\'' {
        let (token, size) = next_string_token(chars, i);
        Ok((Some(token), size))
    } else {
        Err(c)
    }
}

/// A token, or nothing for a comment, with its size in bytes.
pub type SizedToken = (Option<Token>, usize);

/// The text of one character.
pub fn char_text(c: char) -> (text: String)
    ensures
        text@ == seq![c],
{
    let mut text = String::new();
    text.push(c);
    assert(text@ == seq![c]);
    text
}

/// Gets the next sized token at the beginning of the given code.
pub fn next_token(code: &str) -> (r: Result<SizedToken, ErrorMessage>)
    ensures
        match spec_next_token(code@) {
            Ok((token, size)) => r matches Ok(sized) && view_of(sized.0) == token && sized.1
                == size,
            Err(c) => r matches Err(ErrorMessage::UnexpectedChar(text)) && text@ == seq![c],
        },
{
    let chars = chars_of(code);
    let total = code.as_bytes().len();
    assert(byte_len(chars@) == total);
    match scan_token(&chars, 0) {
        Ok((token, size)) => {
            let bytes = match token {
                Some(Token::Eof) => 1,
                _ => byte_len_of(&chars, 0, size),
            };
            Ok((token, bytes))
        },
        Err(c) => Err(ErrorMessage::UnexpectedChar(char_text(c))),
    }
}

} // verus!
