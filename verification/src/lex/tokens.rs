//! A cursor over leveled tokens, as the parser reads them.

use crate::error::CResult;
use crate::error::CompilationError;
use crate::error::ErrorContext;
use crate::error::ErrorMessage;
use crate::lex::token::Token;
use crate::lex::token::TokenView;
use vstd::prelude::*;
use vstd::string::StringExecFns;

verus! {

/// A token with the nesting level it stands at.
pub type LeveledToken = (Token, usize);

/// Leveled tokens as mathematical values.
pub open spec fn leveled_view(tokens: Seq<LeveledToken>) -> Seq<(TokenView, nat)> {
    Seq::new(tokens.len(), |i: int| (tokens[i].0@, tokens[i].1 as nat))
}

/// The given parts with `sep` between each two of them.
pub open spec fn joined(parts: Seq<&'static str>, sep: Seq<char>) -> Seq<char>
    decreases parts.len(),
{
    if parts.len() == 0 {
        Seq::<char>::empty()
    } else if parts.len() == 1 {
        parts[0]@
    } else {
        joined(parts.drop_last(), sep) + sep + parts.last()@
    }
}

/// The text of a string that may be absent.
pub open spec fn option_text(text: Option<String>) -> Option<Seq<char>> {
    match text {
        Some(t) => Some(t@),
        None => None,
    }
}

/// The announced expectations as one text, if there are any.
pub open spec fn expected_text(expecting: Seq<&'static str>) -> Option<Seq<char>> {
    if expecting.len() == 0 {
        None
    } else {
        Some(joined(expecting, " OR "@))
    }
}

/// Provides utility functions that help traversing the tokens.
pub struct Tokens {
    pub tokens: Vec<LeveledToken>,
    pub position: usize,
    pub expecting: Vec<&'static str>,
}

impl Tokens {
    /// The stream ends with the end-of-input token and the cursor stands on
    /// a token.
    pub open spec fn wf(&self) -> bool {
        &&& self.position < self.tokens.len()
        &&& self.tokens@.last().0 == Token::Eof
    }

    /// The token under the cursor, as a value.
    pub open spec fn current(&self) -> TokenView {
        self.tokens@[self.position as int].0@
    }

    /// Number of tokens from the cursor to the end.
    pub open spec fn left(&self) -> nat {
        (self.tokens.len() - self.position) as nat
    }

    /// A cursor at the start of the given tokens.
    pub fn new(tokens: Vec<LeveledToken>) -> (r: Tokens)
        ensures
            r.tokens == tokens,
            r.position == 0,
            r.expecting@.len() == 0,
    {
        Tokens { tokens, position: 0, expecting: Vec::new() }
    }

    /// Advance to the next token.
    pub fn step(&mut self)
        requires
            old(self).position < old(self).tokens.len(),
        ensures
            final(self).tokens == old(self).tokens,
            final(self).position == old(self).position + 1,
            final(self).expecting@.len() == 0,
    {
        self.position += 1;
        self.expecting.clear();
    }

    /// Whether there are more tokens left.
    pub fn still_more(&self) -> (r: bool)
        ensures
            r == (self.position < self.tokens.len()),
    {
        self.position < self.tokens.len()
    }

    /// Whether the current token is deeper than the given level.
    pub fn deeper_than(&self, level: usize) -> (r: bool)
        ensures
            r == (self.position < self.tokens.len() && self.tokens@[self.position as int].1
                > level),
    {
        self.still_more() && self.level() > level
    }

    /// Whether the current token is at the given level or deeper.
    pub fn deeper_than_or_eq(&self, level: usize) -> (r: bool)
        ensures
            r == (self.position < self.tokens.len() && self.tokens@[self.position as int].1
                >= level),
    {
        self.still_more() && self.level() >= level
    }

    /// The remaining tokens.
    pub fn remaining(&self) -> (r: &[LeveledToken])
        requires
            self.position <= self.tokens.len(),
        ensures
            r@ == self.tokens@.subrange(self.position as int, self.tokens.len() as int),
    {
        vstd::slice::slice_subrange(self.tokens.as_slice(), self.position, self.tokens.len())
    }

    /// The current token.
    pub fn token(&self) -> (r: &Token)
        requires
            self.position < self.tokens.len(),
        ensures
            *r == self.tokens@[self.position as int].0,
    {
        &self.tokens[self.position].0
    }

    /// Returns the current token and step to the next.
    pub fn token_and_step(&mut self) -> (r: Token)
        requires
            old(self).position < old(self).tokens.len(),
        ensures
            r == old(self).tokens@[old(self).position as int].0,
            final(self).tokens == old(self).tokens,
            final(self).position == old(self).position + 1,
            final(self).expecting@.len() == 0,
    {
        let token = self.tokens[self.position].0.duplicate();
        self.position += 1;
        self.expecting.clear();
        token
    }

    /// The current level.
    pub fn level(&self) -> (r: usize)
        requires
            self.position < self.tokens.len(),
        ensures
            r == self.tokens@[self.position as int].1,
    {
        self.tokens[self.position].1
    }

    /// The current position in the array of tokens.
    pub fn position(&self) -> (r: usize)
        ensures
            r == self.position,
    {
        self.position
    }

    /// Provide the type of tokens that are to be expected at the current position.
    /// Used to provide context in case of an unexpected token error.
    pub fn expect(&mut self, expected_tokens: &'static str)
        ensures
            final(self).tokens == old(self).tokens,
            final(self).position == old(self).position,
            final(self).expecting@ == old(self).expecting@.push(expected_tokens),
    {
        self.expecting.push(expected_tokens)
    }

    /// Create an error at the current position.
    pub fn error<T>(&self, message: ErrorMessage) -> (r: CResult<T>)
        ensures
            r == Err::<T, CompilationError>(
                CompilationError {
                    message,
                    context: Some(ErrorContext::Token(self.position)),
                },
            ),
    {
        Err(CompilationError { message, context: Some(ErrorContext::Token(self.position)) })
    }

    /// What is expected at the current position, if anything was announced.
    pub fn expectation(&self) -> (r: Option<String>)
        ensures
            option_text(r) == expected_text(self.expecting@),
    {
        if self.expecting.len() == 0 {
            return None;
        }
        let mut text = String::from_str(self.expecting[0]);
        let mut i: usize = 1;
        assert(self.expecting@.subrange(0, 1).len() == 1);
        while i < self.expecting.len()
            invariant
                1 <= i <= self.expecting.len(),
                text@ == joined(self.expecting@.subrange(0, i as int), " OR "@),
            decreases self.expecting.len() - i,
        {
            assert(self.expecting@.subrange(0, i + 1).drop_last() == self.expecting@.subrange(
                0,
                i as int,
            ));
            text.append(" OR ");
            text.append(self.expecting[i]);
            i += 1;
        }
        assert(self.expecting@.subrange(0, i as int) == self.expecting@);
        Some(text)
    }

    /// Create an unexpected token error at the current position
    pub fn unexpected_token_error<T>(&self) -> (r: CResult<T>)
        requires
            self.position < self.tokens.len(),
        ensures
            r matches Err(e) && e.context == Some(ErrorContext::Token(self.position)) && (
            e.message matches ErrorMessage::UnexpectedToken(token, expectation) && token
                == self.tokens@[self.position as int].0 && option_text(expectation)
                == expected_text(self.expecting@)),
    {
        let expectation = self.expectation();
        Err(
            CompilationError {
                message: ErrorMessage::UnexpectedToken(self.token().duplicate(), expectation),
                context: Some(ErrorContext::Token(self.position)),
            },
        )
    }
}

impl From<Vec<LeveledToken>> for Tokens {
    fn from(tokens: Vec<LeveledToken>) -> (r: Tokens) {
        Tokens::new(tokens)
    }
}

impl vstd::std_specs::convert::FromSpecImpl<Vec<LeveledToken>> for Tokens {
    open spec fn obeys_from_spec() -> bool {
        false
    }

    open spec fn from_spec(tokens: Vec<LeveledToken>) -> Tokens {
        arbitrary()
    }
}

} // verus!
