//! Tokens, as far as the macros look at them.
use crate::share::share;
use std::sync::Arc;
use vstd::prelude::*;

verus! {

/// The brackets around a group.
#[derive(Debug, Copy, Clone, Eq, PartialEq, Structural)]
pub enum Delimiter {
    /// `( ... )`
    Parenthesis,
    /// `{ ... }`
    Brace,
    /// `[ ... ]`
    Bracket,
    /// No brackets.
    Invisible,
}

/// What a token is.
#[derive(Debug)]
pub enum TokenKind {
    /// An identifier or keyword.
    Ident(String),
    /// A punctuation character, and whether another follows it directly.
    Punct(char, bool),
    /// A literal, as it is written.
    Literal(String),
    /// Tokens in brackets.
    Group(Delimiter, Arc<Vec<Token>>),
}

/// A token, with a number that says where it stood. The number is only handed on.
#[derive(Debug)]
pub struct Token {
    /// What the token is.
    pub kind: TokenKind,
    /// Where it stood.
    pub span: usize,
}

impl Clone for TokenKind {
    fn clone(&self) -> (r: Self)
        ensures
            r == *self,
    {
        match self {
            TokenKind::Ident(text) => TokenKind::Ident(text.clone()),
            TokenKind::Punct(c, joint) => TokenKind::Punct(*c, *joint),
            TokenKind::Literal(text) => TokenKind::Literal(text.clone()),
            TokenKind::Group(delimiter, inner) => TokenKind::Group(*delimiter, share(inner)),
        }
    }
}

impl Clone for Token {
    fn clone(&self) -> (r: Self)
        ensures
            r == *self,
    {
        Token { kind: self.kind.clone(), span: self.span }
    }
}

/// Whether a token is a punctuation character.
pub open spec fn is_punct(token: Token, c: char) -> bool {
    token.kind matches TokenKind::Punct(p, _) && p == c
}

/// Whether a token is an identifier.
pub open spec fn is_ident(token: Token) -> bool {
    token.kind is Ident
}

/// Whether a token is a certain identifier.
pub open spec fn is_word(token: Token, word: Seq<char>) -> bool {
    token.kind matches TokenKind::Ident(text) && text@ == word
}

/// The text of an identifier.
pub open spec fn ident_text(token: Token) -> Seq<char> {
    match token.kind {
        TokenKind::Ident(text) => text@,
        _ => Seq::empty(),
    }
}

/// Whether a token is a group in certain brackets.
pub open spec fn is_group(token: Token, delimiter: Delimiter) -> bool {
    token.kind matches TokenKind::Group(d, _) && d == delimiter
}

/// The tokens in a group.
pub open spec fn inside(token: Token) -> Seq<Token> {
    match token.kind {
        TokenKind::Group(_, inner) => inner@,
        _ => Seq::empty(),
    }
}

impl Token {
    /// Whether the token is a punctuation character.
    pub fn is_punct(&self, c: char) -> (r: bool)
        ensures
            r == is_punct(*self, c),
    {
        match &self.kind {
            TokenKind::Punct(p, _) => *p == c,
            _ => false,
        }
    }

    /// Whether the token is an identifier.
    pub fn is_ident(&self) -> (r: bool)
        ensures
            r == is_ident(*self),
    {
        match &self.kind {
            TokenKind::Ident(_) => true,
            _ => false,
        }
    }

    /// Whether the token is a certain identifier.
    pub fn is_word(&self, word: &str) -> (r: bool)
        ensures
            r == is_word(*self, word@),
    {
        match &self.kind {
            TokenKind::Ident(text) => same_text(text.as_str(), word),
            _ => false,
        }
    }

    /// The text of an identifier; of any other token, nothing.
    pub fn ident_text(&self) -> (r: String)
        ensures
            r@ == ident_text(*self),
    {
        match &self.kind {
            TokenKind::Ident(text) => text.clone(),
            _ => String::new(),
        }
    }

    /// Whether the token is a group in certain brackets.
    pub fn is_group(&self, delimiter: Delimiter) -> (r: bool)
        ensures
            r == is_group(*self, delimiter),
    {
        match &self.kind {
            TokenKind::Group(d, _) => *d == delimiter,
            _ => false,
        }
    }
}

/// Whether two texts are the same.
pub(crate) fn same_text(a: &str, b: &str) -> (r: bool)
    ensures
        r == (a@ == b@),
{
    a.to_owned() == b.to_owned()
}

/// Copy a stretch of tokens.
pub(crate) fn copy_tokens(tokens: &[Token], start: usize, end: usize) -> (r: Vec<Token>)
    requires
        start <= end <= tokens@.len(),
    ensures
        r@ == tokens@.subrange(start as int, end as int),
{
    let mut r: Vec<Token> = Vec::new();
    let mut i: usize = start;
    while i < end
        invariant
            start <= i <= end <= tokens@.len(),
            r@ == tokens@.subrange(start as int, i as int),
        decreases end - i,
    {
        r.push(tokens[i].clone());
        assert(r@ =~= tokens@.subrange(start as int, i + 1));
        i = i + 1;
    }
    r
}

} // verus!
