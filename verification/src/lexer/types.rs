//! Tokens and lexical errors, together with their spec-level views.
//!
//! Token text is carried as `Vec<char>`, whose view is a `Seq<char>`; a
//! float literal keeps the exact source spelling of the number, since the
//! later stages never read its numeric value.

use vstd::prelude::*;

verus! {

/// The four bracket shapes; `<` and `>` are the angle brackets.
#[derive(Debug, Clone, Copy, PartialEq, Eq, Structural)]
pub enum Bracket {
    Round,
    Square,
    Curly,
    Angle,
}

/// Single-character punctuation tokens, the newline among them: the newline
/// terminates statements and so is a token, not whitespace.
#[derive(Debug, Clone, Copy, PartialEq, Eq, Structural)]
pub enum Punctuation {
    Ampersand,
    Asterisk,
    At,
    Backslash,
    Caret,
    Colon,
    Comma,
    Dash,
    Dollar,
    Dot,
    Equals,
    Exclamation,
    Hashtag,
    Newline,
    Percent,
    Pipe,
    Plus,
    Question,
    SingleQuote,
    Slash,
    Tilde,
    OpenBracket(Bracket),
    CloseBracket(Bracket),
}

/// The reserved words: type keywords, boolean and logical keywords, and
/// control keywords.
#[derive(Debug, Clone, Copy, PartialEq, Eq, Structural)]
pub enum Keyword {
    Arr,
    BoolKw,
    FloatKw,
    IntKw,
    MapKw,
    SetKw,
    StrKw,
    And,
    False,
    Not,
    Or,
    True,
    Fn,
    For,
    If,
    While,
}

/// Literal tokens. A float literal keeps its source text.
#[derive(Debug, Clone, PartialEq, Eq)]
pub enum Literal {
    Int(i64),
    Float(Vec<char>),
    Str(Vec<char>),
}

/// A comment's classification and body; three leading slashes make a
/// docstring, any other number a regular comment.
#[derive(Debug, Clone, PartialEq, Eq)]
pub enum Comment {
    Regular(Vec<char>),
    Docstring(Vec<char>),
}

/// One lexical token.
#[derive(Debug, Clone, PartialEq, Eq)]
pub enum Token {
    Punctuation(Punctuation),
    Keyword(Keyword),
    Literal(Literal),
    Comment(Comment),
    Identifier(Vec<char>),
}

/// A recoverable lexical error; the token stream continues after each.
#[derive(Debug, Clone, PartialEq, Eq)]
pub enum LexError {
    UnknownChar(char),
    UnterminatedStrLiteral,
    UnknownEscape(char),
    IncompleteEscape,
    /// An escape decoded to a code point that is no Unicode scalar value.
    InvalidCodePoint,
    FloatParsing(Vec<char>),
    /// An integer literal too large for a 64-bit signed integer.
    IntParsing(Vec<char>),
}

/// Spec-level view of a literal.
pub enum LiteralView {
    Int(i64),
    Float(Seq<char>),
    Str(Seq<char>),
}

/// Spec-level view of a comment.
pub enum CommentView {
    Regular(Seq<char>),
    Docstring(Seq<char>),
}

/// Spec-level view of a token.
pub enum TokenView {
    Punctuation(Punctuation),
    Keyword(Keyword),
    Literal(LiteralView),
    Comment(CommentView),
    Identifier(Seq<char>),
}

/// Spec-level view of a lexical error.
pub enum LexErrorView {
    UnknownChar(char),
    UnterminatedStrLiteral,
    UnknownEscape(char),
    IncompleteEscape,
    InvalidCodePoint,
    FloatParsing(Seq<char>),
    IntParsing(Seq<char>),
}

impl View for Literal {
    type V = LiteralView;

    open spec fn view(&self) -> LiteralView {
        match self {
            Literal::Int(n) => LiteralView::Int(*n),
            Literal::Float(t) => LiteralView::Float(t@),
            Literal::Str(t) => LiteralView::Str(t@),
        }
    }
}

impl View for Comment {
    type V = CommentView;

    open spec fn view(&self) -> CommentView {
        match self {
            Comment::Regular(t) => CommentView::Regular(t@),
            Comment::Docstring(t) => CommentView::Docstring(t@),
        }
    }
}

impl View for Token {
    type V = TokenView;

    open spec fn view(&self) -> TokenView {
        match self {
            Token::Punctuation(p) => TokenView::Punctuation(*p),
            Token::Keyword(k) => TokenView::Keyword(*k),
            Token::Literal(l) => TokenView::Literal(l@),
            Token::Comment(c) => TokenView::Comment(c@),
            Token::Identifier(t) => TokenView::Identifier(t@),
        }
    }
}

impl View for LexError {
    type V = LexErrorView;

    open spec fn view(&self) -> LexErrorView {
        match self {
            LexError::UnknownChar(c) => LexErrorView::UnknownChar(*c),
            LexError::UnterminatedStrLiteral => LexErrorView::UnterminatedStrLiteral,
            LexError::UnknownEscape(c) => LexErrorView::UnknownEscape(*c),
            LexError::IncompleteEscape => LexErrorView::IncompleteEscape,
            LexError::InvalidCodePoint => LexErrorView::InvalidCodePoint,
            LexError::FloatParsing(t) => LexErrorView::FloatParsing(t@),
            LexError::IntParsing(t) => LexErrorView::IntParsing(t@),
        }
    }
}

/// View of one element of the token stream: a token or an in-band error.
pub open spec fn item_view(r: Result<Token, LexError>) -> Result<TokenView, LexErrorView> {
    match r {
        Ok(t) => Ok(t@),
        Err(e) => Err(e@),
    }
}

/// Elementwise view of a produced token stream.
pub open spec fn stream_view(s: Seq<Result<Token, LexError>>) -> Seq<
    Result<TokenView, LexErrorView>,
> {
    s.map_values(|r| item_view(r))
}

} // verus!
