//! The tokenizer: walks the source once, keeps the stack of open scopes and
//! the indentation of the current line, and gives every retained token the
//! level it stands at.

use crate::error::CResult;
use crate::error::CompilationError;
use crate::error::ErrorContext;
use crate::error::ErrorMessage;
use crate::lex::token::char_text;
use crate::lex::token::scan_token;
use crate::lex::token::spec_scan;
use crate::lex::token::CharClass;
use crate::lex::token::lemma_run_end;
use crate::lex::token::Level;
use crate::lex::token::Next;
use crate::lex::token::Token;
use crate::lex::token::TokenView;
use crate::lex::tokens::leveled_view;
use crate::lex::tokens::LeveledToken;
use crate::lex::tokens::Tokens;
use crate::text::byte_len;
use crate::text::byte_len_of;
use crate::text::chars_of;
use crate::text::lemma_byte_len_prefix;
use vstd::prelude::*;

verus! {

/// The open scopes without the colons among them.
pub open spec fn without_colons(levels: Seq<Level>) -> Seq<Level>
    decreases levels.len(),
{
    if levels.len() == 0 {
        levels
    } else if levels.last() == Level::Colon {
        without_colons(levels.drop_last())
    } else {
        without_colons(levels.drop_last()).push(levels.last())
    }
}

/// The open scopes after a closing parenthesis: everything down to and
/// including the innermost parenthesis goes.
pub open spec fn closed_paren(levels: Seq<Level>) -> Seq<Level>
    decreases levels.len(),
{
    if levels.len() == 0 {
        levels
    } else if levels.last() == Level::Paren {
        levels.drop_last()
    } else {
        closed_paren(levels.drop_last())
    }
}

/// The open scopes after the end of a colon scope: an innermost colon goes,
/// anything else stays.
pub open spec fn closed_colon(levels: Seq<Level>) -> Seq<Level> {
    if levels.len() > 0 && levels.last() == Level::Colon {
        levels.drop_last()
    } else {
        levels
    }
}

/// The open scopes after closing a scope of the given kind.
pub open spec fn closed(levels: Seq<Level>, level: Level) -> Seq<Level> {
    match level {
        Level::Paren => closed_paren(levels),
        Level::Colon => closed_colon(levels),
    }
}

/// Removing scopes never adds any.
pub proof fn lemma_closing_shrinks(levels: Seq<Level>)
    ensures
        without_colons(levels).len() <= levels.len(),
        closed_paren(levels).len() <= levels.len(),
        closed_colon(levels).len() <= levels.len(),
    decreases levels.len(),
{
    if levels.len() > 0 {
        lemma_closing_shrinks(levels.drop_last());
    }
}

/// Utility to keep track of the depth level of our code.
pub struct LevelStack {
    pub levels: Vec<Level>,
    pub indentation: usize,
}

impl LevelStack {
    /// The level that a token gets now: open scopes plus indentation.
    pub open spec fn depth(&self) -> nat {
        self.levels@.len() + self.indentation as nat
    }

    pub fn new() -> (r: Self)
        ensures
            r.levels@ == Seq::<Level>::empty(),
            r.indentation == 0,
    {
        LevelStack { levels: Vec::new(), indentation: 0 }
    }

    /// Go deeper.
    pub fn push(&mut self, level: Level)
        ensures
            final(self).levels@ == old(self).levels@.push(level),
            final(self).indentation == old(self).indentation,
    {
        self.levels.push(level)
    }

    /// Go up to a specific type of level.
    pub fn pop(&mut self, level: &Level)
        ensures
            final(self).levels@ == closed(old(self).levels@, *level),
            final(self).indentation == old(self).indentation,
        decreases old(self).levels@.len(),
    {
        if let Some(popped_level) = self.levels.pop() {
            match level {
                Level::Paren => {
                    // Keep popping until we're at an opening parenthesis
                    match popped_level {
                        Level::Paren => {},
                        Level::Colon => self.pop(level),
                    }
                },
                Level::Colon => {
                    // If the last level wasn't a colon, push it back
                    match popped_level {
                        Level::Colon => {},
                        Level::Paren => {
                            self.levels.push(popped_level);
                            assert(self.levels@ == old(self).levels@);
                        },
                    }
                },
            }
        }
    }

    /// Add one indentation level.
    pub fn indent(&mut self)
        requires
            old(self).indentation < usize::MAX,
        ensures
            final(self).levels@ == old(self).levels@,
            final(self).indentation == old(self).indentation + 1,
    {
        self.indentation += 1
    }

    /// Process a 'Next' token.
    pub fn next(&mut self, next: &Next)
        ensures
            final(self).levels@ == match *next {
                Next::Line => without_colons(old(self).levels@),
                Next::Comma => closed_colon(old(self).levels@),
            },
            final(self).indentation == match *next {
                Next::Line => 0,
                Next::Comma => old(self).indentation,
            },
    {
        match next {
            Next::Line => {
                let mut kept: Vec<Level> = Vec::new();
                let mut i: usize = 0;
                assert(self.levels@.subrange(0, 0) == Seq::<Level>::empty());
                while i < self.levels.len()
                    invariant
                        i <= self.levels.len(),
                        self.levels@ == old(self).levels@,
                        kept@ == without_colons(self.levels@.subrange(0, i as int)),
                    decreases self.levels.len() - i,
                {
                    assert(self.levels@.subrange(0, i + 1).drop_last() == self.levels@.subrange(
                        0,
                        i as int,
                    ));
                    match self.levels[i] {
                        Level::Colon => {},
                        Level::Paren => kept.push(Level::Paren),
                    }
                    i += 1;
                }
                assert(self.levels@.subrange(0, i as int) == self.levels@);
                self.levels = kept;
                self.indentation = 0;
            },
            Next::Comma => self.pop(&Level::Colon),
        }
    }

    /// Gets the current level.
    pub fn level(&self) -> (r: usize)
        requires
            self.depth() <= usize::MAX,
        ensures
            r == self.depth(),
    {
        self.levels.len() + self.indentation
    }
}

/// What the tokenizer remembers between two tokens.
pub struct LexState {
    /// The open scopes, innermost last.
    pub levels: Seq<Level>,
    /// Spaces at the start of the current line.
    pub indentation: nat,
    /// Whether only spaces were seen on the current line.
    pub line_start: bool,
}

impl LexState {
    /// The state at the start of a text.
    pub open spec fn start() -> LexState {
        LexState { levels: Seq::empty(), indentation: 0, line_start: true }
    }

    /// The level that a token gets in this state.
    pub open spec fn depth(self) -> nat {
        self.levels.len() + self.indentation
    }

    /// The state after the given token.
    pub open spec fn after(self, token: TokenView) -> LexState {
        match token {
            TokenView::Space => LexState {
                indentation: if self.line_start {
                    self.indentation + 1
                } else {
                    self.indentation
                },
                ..self
            },
            TokenView::Down(level) => LexState {
                levels: self.levels.push(level),
                line_start: false,
                ..self
            },
            TokenView::Up(level) => LexState {
                levels: closed(self.levels, level),
                line_start: false,
                ..self
            },
            TokenView::Next(Next::Line) => LexState {
                levels: without_colons(self.levels),
                indentation: 0,
                line_start: true,
            },
            TokenView::Next(Next::Comma) => LexState {
                levels: closed_colon(self.levels),
                line_start: false,
                ..self
            },
            _ => LexState { line_start: false, ..self },
        }
    }
}

/// Whether the token is kept for the parser. Spaces, scope markers and
/// separators only move the level.
pub open spec fn retained(token: TokenView) -> bool {
    !(token is Space || token is Down || token is Up || token is Next)
}

/// Whatever is scanned before the end of the text takes at least one
/// character, and stays inside the text.
pub proof fn lemma_scan_progress(s: Seq<char>, i: int)
    requires
        0 <= i <= s.len(),
    ensures
        spec_scan(s, i) matches Ok(scan) ==> i + scan.chars <= s.len() && (scan.token != Some(
            TokenView::Eof,
        ) ==> scan.chars >= 1) && (scan.token == Some(TokenView::Eof) ==> i == s.len()),
{
    if i < s.len() {
        lemma_run_end(s, i, CharClass::Comment);
        lemma_run_end(s, i, CharClass::Word);
        lemma_run_end(s, i, CharClass::Name);
        lemma_run_end(s, i, CharClass::Digit);
        lemma_run_end(s, i + 1, CharClass::Quoted);
    }
}

/// The leveled tokens of the text from index `i` on, after `acc`, or the
/// first character that starts no token with its byte offset.
pub open spec fn spec_tokenize_from(
    s: Seq<char>,
    i: int,
    state: LexState,
    acc: Seq<(TokenView, nat)>,
) -> Result<Seq<(TokenView, nat)>, (char, nat)>
    decreases s.len() - i,
{
    if !(0 <= i <= s.len()) {
        Ok(acc)
    } else {
        match spec_scan(s, i) {
            Err(c) => Err((c, byte_len(s.subrange(0, i)))),
            Ok(scan) => {
                if scan.token == Some(TokenView::Eof) || scan.chars == 0 {
                    Ok(acc.push((TokenView::Eof, 0)))
                } else {
                    proof {
                        lemma_scan_progress(s, i);
                    }
                    match scan.token {
                        None => spec_tokenize_from(s, i + scan.chars, state, acc),
                        Some(token) => spec_tokenize_from(
                            s,
                            i + scan.chars,
                            state.after(token),
                            if retained(token) {
                                acc.push((token, state.depth()))
                            } else {
                                acc
                            },
                        ),
                    }
                }
            },
        }
    }
}

/// The leveled tokens of a text.
pub open spec fn spec_tokenize(s: Seq<char>) -> Result<Seq<(TokenView, nat)>, (char, nat)> {
    spec_tokenize_from(s, 0, LexState::start(), Seq::empty())
}

/// Whether the end-of-input token occurs among the given tokens.
pub open spec fn has_eof(tokens: Seq<(TokenView, nat)>) -> bool {
    exists|k: int| 0 <= k < tokens.len() && (#[trigger] tokens[k]).0 == TokenView::Eof
}

/// Tokenizing from any place on ends with the end of input at level 0, and
/// adds no other end-of-input token.
pub proof fn lemma_tokenize_from_ends(
    s: Seq<char>,
    i: int,
    state: LexState,
    acc: Seq<(TokenView, nat)>,
)
    requires
        0 <= i <= s.len(),
        !has_eof(acc),
    ensures
        spec_tokenize_from(s, i, state, acc) matches Ok(tokens) ==> tokens.len() > 0
            && tokens.last() == (TokenView::Eof, 0nat) && !has_eof(tokens.drop_last())
            && acc.len() < tokens.len() && tokens.subrange(0, acc.len() as int) == acc,
    decreases s.len() - i,
{
    lemma_scan_progress(s, i);
    match spec_scan(s, i) {
        Err(c) => {},
        Ok(scan) => {
            if scan.token == Some(TokenView::Eof) || scan.chars == 0 {
                let tokens = acc.push((TokenView::Eof, 0nat));
                assert(tokens.drop_last() == acc);
                assert(tokens.subrange(0, acc.len() as int) == acc);
            } else {
                match scan.token {
                    None => {
                        lemma_tokenize_from_ends(s, i + scan.chars, state, acc);
                    },
                    Some(token) => {
                        let next = if retained(token) {
                            acc.push((token, state.depth()))
                        } else {
                            acc
                        };
                        assert(!has_eof(next)) by {
                            if has_eof(next) {
                                let k = choose|k: int|
                                    0 <= k < next.len() && (#[trigger] next[k]).0
                                        == TokenView::Eof;
                                if k < acc.len() {
                                    assert(acc[k].0 == TokenView::Eof);
                                }
                            }
                        }
                        lemma_tokenize_from_ends(s, i + scan.chars, state.after(token), next);
                        match spec_tokenize_from(s, i, state, acc) {
                            Ok(tokens) => {
                                assert(tokens.subrange(0, acc.len() as int) == tokens.subrange(
                                    0,
                                    next.len() as int,
                                ).subrange(0, acc.len() as int));
                            },
                            Err(_) => {},
                        }
                    },
                }
            }
        },
    }
}

/// Tokenizing starts at level 0, and every token stream ends with the end of
/// input at level 0, which occurs nowhere else in it.
pub proof fn lemma_tokenize_ends_with_eof(s: Seq<char>)
    ensures
        LexState::start().depth() == 0,
        spec_tokenize(s) matches Ok(tokens) ==> tokens.len() > 0 && tokens.last() == (
            TokenView::Eof,
            0nat,
        ) && !has_eof(tokens.drop_last()),
{
    lemma_tokenize_from_ends(s, 0, LexState::start(), Seq::empty());
}

/// Whether `r` is what tokenizing the text gives: the tokens that the
/// text stands for, with their levels, the end of input at level 0 last
/// and nowhere else, read from the first on; or the error that says which
/// character, at which byte, starts no token.
pub open spec fn tokenized(code: Seq<char>, r: CResult<Tokens>) -> bool {
    match spec_tokenize(code) {
        Ok(tokens) => r matches Ok(t) && leveled_view(t.tokens@) == tokens && t.position == 0
            && t.expecting@.len() == 0 && t.wf() && tokens.last() == (TokenView::Eof, 0nat)
            && !has_eof(tokens.drop_last()),
        Err((c, offset)) => r matches Err(e) && e.context == Some(
            ErrorContext::Character(offset as usize),
        ) && offset <= usize::MAX && (e.message matches ErrorMessage::UnexpectedChar(text) && text@
            == seq![c]),
    }
}

/// Lexing is deterministic: whatever tokenizing the same text gives, it
/// is the same tokens with the same levels, or the same error at the same
/// byte.
pub proof fn lemma_lexing_is_deterministic(code: Seq<char>, a: CResult<Tokens>, b: CResult<Tokens>)
    requires
        tokenized(code, a),
        tokenized(code, b),
    ensures
        match (a, b) {
            (Ok(x), Ok(y)) => leveled_view(x.tokens@) == leveled_view(y.tokens@),
            (Err(x), Err(y)) => x@ == y@,
            _ => false,
        },
{
}

/// Turns a string of raw code into a vector of tokens with levels.
pub fn tokenize(code: &str) -> (r: CResult<Tokens>)
    ensures
        tokenized(code@, r),
{
    let chars = chars_of(code);
    let total = code.as_bytes().len();
    assert(byte_len(chars@) == total);
    let mut position: usize = 0;
    let mut level_stack = LevelStack::new();
    let mut leveled_tokens: Vec<LeveledToken> = Vec::new();
    let mut is_beginning_of_line = true;
    assert(leveled_view(leveled_tokens@) == Seq::<(TokenView, nat)>::empty());
    loop
        invariant
            chars@ == code@,
            byte_len(chars@) <= usize::MAX,
            position <= chars.len(),
            level_stack.depth() <= position,
            spec_tokenize(code@) == spec_tokenize_from(
                chars@,
                position as int,
                LexState {
                    levels: level_stack.levels@,
                    indentation: level_stack.indentation as nat,
                    line_start: is_beginning_of_line,
                },
                leveled_view(leveled_tokens@),
            ),
        decreases chars.len() - position,
    {
        proof {
            lemma_scan_progress(chars@, position as int);
            lemma_closing_shrinks(level_stack.levels@);
        }
        let ghost before = leveled_tokens@;
        match scan_token(&chars, position) {
            Err(c) => {
                proof {
                    lemma_byte_len_prefix(chars@, 0, position as int);
                }
                let offset = byte_len_of(&chars, 0, position);
                return Err(
                    CompilationError {
                        message: ErrorMessage::UnexpectedChar(char_text(c)),
                        context: Some(ErrorContext::Character(offset)),
                    },
                );
            },
            Ok((None, size)) => {
                position += size;
            },
            Ok((Some(token), size)) => {
                match token {
                    Token::Eof => {
                        leveled_tokens.push((Token::Eof, 0));
                        assert(leveled_view(leveled_tokens@) == leveled_view(before).push(
                            (TokenView::Eof, 0nat),
                        ));
                        proof {
                            lemma_tokenize_ends_with_eof(code@);
                        }
                        return Ok(Tokens::new(leveled_tokens));
                    },
                    Token::Space => {
                        if is_beginning_of_line {
                            level_stack.indent()
                        }
                    },
                    Token::Down(level) => {
                        level_stack.push(level);
                        is_beginning_of_line = false;
                    },
                    Token::Up(level) => {
                        level_stack.pop(&level);
                        is_beginning_of_line = false;
                    },
                    Token::Next(next) => {
                        level_stack.next(&next);
                        is_beginning_of_line = match next {
                            Next::Line => true,
                            Next::Comma => false,
                        };
                    },
                    _ => {
                        let level = level_stack.level();
                        let ghost view = token@;
                        leveled_tokens.push((token, level));
                        assert(leveled_view(leveled_tokens@) == leveled_view(before).push(
                            (view, level as nat),
                        ));
                        is_beginning_of_line = false;
                    },
                }
                position += size;
            },
        }
    }
}

/// Index of the character at which the retained token number `n`, counted
/// from index `i` on, starts. Where the text ends or cannot be tokenized
/// before that, the index of that place.
pub open spec fn spec_token_start(s: Seq<char>, i: int, n: nat) -> int
    decreases s.len() - i,
{
    if !(0 <= i <= s.len()) {
        i
    } else {
        match spec_scan(s, i) {
            Err(c) => i,
            Ok(scan) => {
                if scan.token == Some(TokenView::Eof) || scan.chars == 0 {
                    i
                } else {
                    proof {
                        lemma_scan_progress(s, i);
                    }
                    match scan.token {
                        None => spec_token_start(s, i + scan.chars, n),
                        Some(token) => if !retained(token) {
                            spec_token_start(s, i + scan.chars, n)
                        } else if n == 0 {
                            i
                        } else {
                            spec_token_start(s, i + scan.chars, (n - 1) as nat)
                        },
                    }
                }
            },
        }
    }
}

/// Byte offset at which the retained token with the given number starts.
pub open spec fn spec_position_of_token(s: Seq<char>, n: nat) -> nat {
    byte_len(s.subrange(0, spec_token_start(s, 0, n)))
}

/// The start of a token lies inside the text.
pub proof fn lemma_token_start_bounds(s: Seq<char>, i: int, n: nat)
    requires
        0 <= i <= s.len(),
    ensures
        i <= spec_token_start(s, i, n) <= s.len(),
    decreases s.len() - i,
{
    lemma_scan_progress(s, i);
    match spec_scan(s, i) {
        Err(c) => {},
        Ok(scan) => {
            if scan.token == Some(TokenView::Eof) || scan.chars == 0 {
            } else {
                match scan.token {
                    None => lemma_token_start_bounds(s, i + scan.chars, n),
                    Some(token) => if !retained(token) {
                        lemma_token_start_bounds(s, i + scan.chars, n)
                    } else if n == 0 {
                    } else {
                        lemma_token_start_bounds(s, i + scan.chars, (n - 1) as nat)
                    },
                }
            }
        },
    }
}

/// Purely for showing line numbers in error messages
pub fn get_position_of_token(code: &str, token_number: usize) -> (r: usize)
    ensures
        r == spec_position_of_token(code@, token_number as nat),
{
    let chars = chars_of(code);
    let total = code.as_bytes().len();
    assert(byte_len(chars@) == total);
    let mut position: usize = 0;
    let mut left: usize = token_number;
    loop
        invariant
            chars@ == code@,
            byte_len(chars@) <= usize::MAX,
            position <= chars.len(),
            spec_token_start(chars@, 0, token_number as nat) == spec_token_start(
                chars@,
                position as int,
                left as nat,
            ),
        decreases chars.len() - position,
    {
        proof {
            lemma_scan_progress(chars@, position as int);
        }
        match scan_token(&chars, position) {
            Err(c) => {
                return byte_len_of(&chars, 0, position);
            },
            Ok((None, size)) => {
                position += size;
            },
            Ok((Some(token), size)) => {
                match token {
                    Token::Eof => {
                        return byte_len_of(&chars, 0, position);
                    },
                    Token::Space | Token::Down(_) | Token::Up(_) | Token::Next(_) => {},
                    _ => {
                        if left == 0 {
                            return byte_len_of(&chars, 0, position);
                        }
                        left -= 1;
                    },
                }
                position += size;
            },
        }
    }
}

} // verus!
