//! What the lexer hands the parser.
use vstd::prelude::*;
use crate::keywords::Keyword;
use crate::span::Span;

verus! {

/// A kind of token; `S` is how its text is held (`String` in programs, `Seq<char>` in specs).
/// A number keeps the digits it was written with (without `_`), e.g. `1000.5` for `1_000.5`.
#[derive(Debug, Clone, PartialEq)]
pub enum TokenKindOf<S> {
    Number(S),
    Text(S),
    Name(S),
    Kw(Keyword),
    Plus,
    Minus,
    Star,
    Slash,
    Percent,
    Assign,
    EqEq,
    NotEq,
    Less,
    LessEq,
    Greater,
    GreaterEq,
    LParen,
    RParen,
    LBracket,
    RBracket,
    Comma,
    Colon,
    Newline,
    Indent,
    Dedent,
    Eof,
}

/// A token kind as the lexer produces it.
pub type TokenKind = TokenKindOf<String>;

/// A token kind as specifications speak of it.
pub type SpecTokenKind = TokenKindOf<Seq<char>>;

impl View for TokenKindOf<String> {
    type V = TokenKindOf<Seq<char>>;

    open spec fn view(&self) -> TokenKindOf<Seq<char>> {
        match self {
            TokenKindOf::Number(s) => TokenKindOf::Number(s@),
            TokenKindOf::Text(s) => TokenKindOf::Text(s@),
            TokenKindOf::Name(s) => TokenKindOf::Name(s@),
            TokenKindOf::Kw(k) => TokenKindOf::Kw(*k),
            TokenKindOf::Plus => TokenKindOf::Plus,
            TokenKindOf::Minus => TokenKindOf::Minus,
            TokenKindOf::Star => TokenKindOf::Star,
            TokenKindOf::Slash => TokenKindOf::Slash,
            TokenKindOf::Percent => TokenKindOf::Percent,
            TokenKindOf::Assign => TokenKindOf::Assign,
            TokenKindOf::EqEq => TokenKindOf::EqEq,
            TokenKindOf::NotEq => TokenKindOf::NotEq,
            TokenKindOf::Less => TokenKindOf::Less,
            TokenKindOf::LessEq => TokenKindOf::LessEq,
            TokenKindOf::Greater => TokenKindOf::Greater,
            TokenKindOf::GreaterEq => TokenKindOf::GreaterEq,
            TokenKindOf::LParen => TokenKindOf::LParen,
            TokenKindOf::RParen => TokenKindOf::RParen,
            TokenKindOf::LBracket => TokenKindOf::LBracket,
            TokenKindOf::RBracket => TokenKindOf::RBracket,
            TokenKindOf::Comma => TokenKindOf::Comma,
            TokenKindOf::Colon => TokenKindOf::Colon,
            TokenKindOf::Newline => TokenKindOf::Newline,
            TokenKindOf::Indent => TokenKindOf::Indent,
            TokenKindOf::Dedent => TokenKindOf::Dedent,
            TokenKindOf::Eof => TokenKindOf::Eof,
        }
    }
}

#[derive(Debug, Clone, PartialEq)]
pub struct Token {
    pub kind: TokenKind,
    pub span: Span,
}

impl View for Token {
    type V = (SpecTokenKind, Span);

    open spec fn view(&self) -> (SpecTokenKind, Span) {
        (self.kind@, self.span)
    }
}

} // verus!
