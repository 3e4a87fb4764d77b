//! The parser-facing token model and the scanning pass that produces it.
//!
//! The tokenizer in `lexer` speaks in single characters: `<` and `=` are
//! two tokens, and `i64` and `ret` are identifiers. The grammar speaks in
//! operators and reserved words. `Lexer` bridges the two: it tokenizes the
//! source, stops at the first lexical error — a parse is fatal on any
//! error — and fuses adjacent punctuation into the grammar's operators.

use vstd::prelude::*;

use crate::chars::copy_chars;
use crate::lexer::model::{lex, lex_from};
use crate::lexer::tokens::tokenize;
use crate::lexer::types as lexed;
use crate::lexer::types::{item_view, stream_view, LexErrorView};

verus! {

/// The two types the grammar knows: 64-bit signed integers and void.
#[derive(Debug, Clone, Copy, PartialEq, Eq, Structural)]
pub enum Type {
    I64,
    Void,
}

/// Operator symbols as the grammar sees them.
#[derive(Debug, Clone, Copy, PartialEq, Eq, Structural)]
pub enum OperatorSymbol {
    Plus,
    Minus,
    Asterisk,
    Slash,
    Assign,
    PlusEq,
    MinusEq,
    TimesEq,
    DivideEq,
    EqualTo,
    NotEqualTo,
    LessThan,
    LessOrEqualTo,
    GreaterThan,
    GreaterOrEqualTo,
}

/// One token as the parser consumes it.
#[derive(Debug, Clone, PartialEq, Eq)]
pub enum Token {
    Identifier(Vec<char>),
    I64Literal(i64),
    StrLiteral(Vec<char>),
    FloatLiteral(Vec<char>),
    Type(Type),
    OperatorSymbol(OperatorSymbol),
    Fn,
    Ret,
    While,
    LParen,
    RParen,
    LSquirly,
    RSquirly,
    LSquare,
    RSquare,
    Comma,
    Newline,
    Comment(Vec<char>),
    Docstring(Vec<char>),
    /// A reserved word with no role in the grammar yet.
    Keyword(lexed::Keyword),
    /// Punctuation with no role in the grammar.
    Punct(lexed::Punctuation),
}

/// Spec-level view of a parser token.
pub enum TokenView {
    Identifier(Seq<char>),
    I64Literal(i64),
    StrLiteral(Seq<char>),
    FloatLiteral(Seq<char>),
    Type(Type),
    OperatorSymbol(OperatorSymbol),
    Fn,
    Ret,
    While,
    LParen,
    RParen,
    LSquirly,
    RSquirly,
    LSquare,
    RSquare,
    Comma,
    Newline,
    Comment(Seq<char>),
    Docstring(Seq<char>),
    Keyword(lexed::Keyword),
    Punct(lexed::Punctuation),
}

impl View for Token {
    type V = TokenView;

    open spec fn view(&self) -> TokenView {
        match self {
            Token::Identifier(t) => TokenView::Identifier(t@),
            Token::I64Literal(n) => TokenView::I64Literal(*n),
            Token::StrLiteral(t) => TokenView::StrLiteral(t@),
            Token::FloatLiteral(t) => TokenView::FloatLiteral(t@),
            Token::Type(t) => TokenView::Type(*t),
            Token::OperatorSymbol(op) => TokenView::OperatorSymbol(*op),
            Token::Fn => TokenView::Fn,
            Token::Ret => TokenView::Ret,
            Token::While => TokenView::While,
            Token::LParen => TokenView::LParen,
            Token::RParen => TokenView::RParen,
            Token::LSquirly => TokenView::LSquirly,
            Token::RSquirly => TokenView::RSquirly,
            Token::LSquare => TokenView::LSquare,
            Token::RSquare => TokenView::RSquare,
            Token::Comma => TokenView::Comma,
            Token::Newline => TokenView::Newline,
            Token::Comment(t) => TokenView::Comment(t@),
            Token::Docstring(t) => TokenView::Docstring(t@),
            Token::Keyword(k) => TokenView::Keyword(*k),
            Token::Punct(p) => TokenView::Punct(*p),
        }
    }
}

/// Elementwise view of a parser token sequence.
pub open spec fn token_views(ts: Seq<Token>) -> Seq<TokenView> {
    ts.map_values(|t: Token| t@)
}

/// The first lexical error of a token stream, if any.
pub open spec fn first_lex_error(
    items: Seq<Result<lexed::TokenView, LexErrorView>>,
) -> Option<LexErrorView>
    decreases items.len(),
{
    if items.len() == 0 {
        None
    } else {
        match items[0] {
            Err(e) => Some(e),
            Ok(_) => first_lex_error(items.drop_first()),
        }
    }
}

/// The tokens of a stream, the errors left out.
pub open spec fn ok_values(
    items: Seq<Result<lexed::TokenView, LexErrorView>>,
) -> Seq<lexed::TokenView>
    decreases items.len(),
{
    if items.len() == 0 {
        Seq::empty()
    } else {
        match items[0] {
            Ok(t) => seq![t] + ok_values(items.drop_first()),
            Err(_) => ok_values(items.drop_first()),
        }
    }
}

/// A stream without a first error is all tokens, one for one.
pub proof fn lemma_error_free(items: Seq<Result<lexed::TokenView, LexErrorView>>)
    requires
        first_lex_error(items) is None,
    ensures
        ok_values(items).len() == items.len(),
        forall|i: int| 0 <= i < items.len() ==> #[trigger] items[i] is Ok,
        forall|i: int|
            0 <= i < items.len() ==> ok_values(items)[i] == (#[trigger] items[i])->Ok_0,
    decreases items.len(),
{
    if items.len() > 0 {
        lemma_error_free(items.drop_first());
        assert forall|i: int| 0 <= i < items.len() implies #[trigger] items[i] is Ok by {
            if i > 0 {
                assert(items.drop_first()[i - 1] is Ok);
            }
        }
        assert forall|i: int|
            0 <= i < items.len() implies ok_values(items)[i] == (#[trigger] items[i])->Ok_0 by {
            if i > 0 {
                assert(ok_values(items.drop_first())[i - 1] == items.drop_first()[i - 1]->Ok_0);
            }
        }
    }
}

/// The operator two adjacent tokens fuse into, if any: a second `=` turns
/// `=`, `+`, `-`, `*`, `/`, `!`, `<` and `>` into the two-character
/// operators. Fusion pairs adjacent tokens, not adjacent characters:
/// tokens carry no source positions, so `< =` written with a space reads
/// the same as `<=`. This is a deliberate choice.
pub open spec fn pair_op(a: lexed::TokenView, b: lexed::TokenView) -> Option<OperatorSymbol> {
    match (a, b) {
        (
            lexed::TokenView::Punctuation(p),
            lexed::TokenView::Punctuation(lexed::Punctuation::Equals),
        ) => match p {
            lexed::Punctuation::Equals => Some(OperatorSymbol::EqualTo),
            lexed::Punctuation::Plus => Some(OperatorSymbol::PlusEq),
            lexed::Punctuation::Dash => Some(OperatorSymbol::MinusEq),
            lexed::Punctuation::Asterisk => Some(OperatorSymbol::TimesEq),
            lexed::Punctuation::Slash => Some(OperatorSymbol::DivideEq),
            lexed::Punctuation::Exclamation => Some(OperatorSymbol::NotEqualTo),
            lexed::Punctuation::OpenBracket(lexed::Bracket::Angle) => Some(
                OperatorSymbol::LessOrEqualTo,
            ),
            lexed::Punctuation::CloseBracket(lexed::Bracket::Angle) => Some(
                OperatorSymbol::GreaterOrEqualTo,
            ),
            _ => None,
        },
        _ => None,
    }
}

/// The parser token one tokenizer token stands for on its own.
pub open spec fn single_of(t: lexed::TokenView) -> TokenView {
    match t {
        lexed::TokenView::Punctuation(p) => match p {
            lexed::Punctuation::Plus => TokenView::OperatorSymbol(OperatorSymbol::Plus),
            lexed::Punctuation::Dash => TokenView::OperatorSymbol(OperatorSymbol::Minus),
            lexed::Punctuation::Asterisk => TokenView::OperatorSymbol(OperatorSymbol::Asterisk),
            lexed::Punctuation::Slash => TokenView::OperatorSymbol(OperatorSymbol::Slash),
            lexed::Punctuation::Equals => TokenView::OperatorSymbol(OperatorSymbol::Assign),
            lexed::Punctuation::Comma => TokenView::Comma,
            lexed::Punctuation::Newline => TokenView::Newline,
            lexed::Punctuation::OpenBracket(lexed::Bracket::Round) => TokenView::LParen,
            lexed::Punctuation::CloseBracket(lexed::Bracket::Round) => TokenView::RParen,
            lexed::Punctuation::OpenBracket(lexed::Bracket::Curly) => TokenView::LSquirly,
            lexed::Punctuation::CloseBracket(lexed::Bracket::Curly) => TokenView::RSquirly,
            lexed::Punctuation::OpenBracket(lexed::Bracket::Square) => TokenView::LSquare,
            lexed::Punctuation::CloseBracket(lexed::Bracket::Square) => TokenView::RSquare,
            lexed::Punctuation::OpenBracket(lexed::Bracket::Angle) => TokenView::OperatorSymbol(
                OperatorSymbol::LessThan,
            ),
            lexed::Punctuation::CloseBracket(lexed::Bracket::Angle) => TokenView::OperatorSymbol(
                OperatorSymbol::GreaterThan,
            ),
            _ => TokenView::Punct(p),
        },
        lexed::TokenView::Keyword(k) => match k {
            lexed::Keyword::Fn => TokenView::Fn,
            lexed::Keyword::While => TokenView::While,
            _ => TokenView::Keyword(k),
        },
        lexed::TokenView::Literal(l) => match l {
            lexed::LiteralView::Int(n) => TokenView::I64Literal(n),
            lexed::LiteralView::Float(t) => TokenView::FloatLiteral(t),
            lexed::LiteralView::Str(t) => TokenView::StrLiteral(t),
        },
        lexed::TokenView::Comment(c) => match c {
            lexed::CommentView::Regular(t) => TokenView::Comment(t),
            lexed::CommentView::Docstring(t) => TokenView::Docstring(t),
        },
        lexed::TokenView::Identifier(t) => {
            if t == seq!['i', '6', '4'] {
                TokenView::Type(Type::I64)
            } else if t == seq!['v', 'o', 'i', 'd'] {
                TokenView::Type(Type::Void)
            } else if t == seq!['r', 'e', 't'] {
                TokenView::Ret
            } else {
                TokenView::Identifier(t)
            }
        },
    }
}

/// Fuse an error-free tokenizer stream into parser tokens, greedily
/// pairing adjacent punctuation into two-character operators.
pub open spec fn fuse_ok(ts: Seq<lexed::TokenView>) -> Seq<TokenView>
    decreases ts.len(),
{
    if ts.len() == 0 {
        Seq::empty()
    } else if ts.len() >= 2 && pair_op(ts[0], ts[1]) is Some {
        seq![TokenView::OperatorSymbol(pair_op(ts[0], ts[1])->0)] + fuse_ok(ts.skip(2))
    } else {
        seq![single_of(ts[0])] + fuse_ok(ts.skip(1))
    }
}

/// What scanning a whole source text yields: its parser tokens, or its
/// first lexical error.
pub open spec fn scan(s: Seq<char>) -> Result<Seq<TokenView>, LexErrorView> {
    match first_lex_error(lex(s)) {
        Some(e) => Err(e),
        None => Ok(fuse_ok(ok_values(lex(s)))),
    }
}

/// Copy of a lexical error.
fn copy_lex_error(e: &lexed::LexError) -> (out: lexed::LexError)
    ensures
        out@ == e@,
{
    match e {
        lexed::LexError::UnknownChar(c) => lexed::LexError::UnknownChar(*c),
        lexed::LexError::UnterminatedStrLiteral => lexed::LexError::UnterminatedStrLiteral,
        lexed::LexError::UnknownEscape(c) => lexed::LexError::UnknownEscape(*c),
        lexed::LexError::IncompleteEscape => lexed::LexError::IncompleteEscape,
        lexed::LexError::InvalidCodePoint => lexed::LexError::InvalidCodePoint,
        lexed::LexError::FloatParsing(t) => lexed::LexError::FloatParsing(copy_chars(t)),
        lexed::LexError::IntParsing(t) => lexed::LexError::IntParsing(copy_chars(t)),
    }
}

/// The operator two adjacent tokenizer tokens fuse into, if any.
fn pair_symbol(a: &lexed::Token, b: &lexed::Token) -> (r: Option<OperatorSymbol>)
    ensures
        r == pair_op(a@, b@),
{
    match (a, b) {
        (lexed::Token::Punctuation(p), lexed::Token::Punctuation(q)) => {
            if *q == lexed::Punctuation::Equals {
                if *p == lexed::Punctuation::Equals {
                    Some(OperatorSymbol::EqualTo)
                } else if *p == lexed::Punctuation::Plus {
                    Some(OperatorSymbol::PlusEq)
                } else if *p == lexed::Punctuation::Dash {
                    Some(OperatorSymbol::MinusEq)
                } else if *p == lexed::Punctuation::Asterisk {
                    Some(OperatorSymbol::TimesEq)
                } else if *p == lexed::Punctuation::Slash {
                    Some(OperatorSymbol::DivideEq)
                } else if *p == lexed::Punctuation::Exclamation {
                    Some(OperatorSymbol::NotEqualTo)
                } else if *p == lexed::Punctuation::OpenBracket(lexed::Bracket::Angle) {
                    Some(OperatorSymbol::LessOrEqualTo)
                } else if *p == lexed::Punctuation::CloseBracket(lexed::Bracket::Angle) {
                    Some(OperatorSymbol::GreaterOrEqualTo)
                } else {
                    None
                }
            } else {
                None
            }
        },
        _ => None,
    }
}

/// The parser token one tokenizer token stands for on its own.
fn convert_single(t: &lexed::Token) -> (r: Token)
    ensures
        r@ == single_of(t@),
{
    match t {
        lexed::Token::Punctuation(p) => {
            if *p == lexed::Punctuation::Plus {
                Token::OperatorSymbol(OperatorSymbol::Plus)
            } else if *p == lexed::Punctuation::Dash {
                Token::OperatorSymbol(OperatorSymbol::Minus)
            } else if *p == lexed::Punctuation::Asterisk {
                Token::OperatorSymbol(OperatorSymbol::Asterisk)
            } else if *p == lexed::Punctuation::Slash {
                Token::OperatorSymbol(OperatorSymbol::Slash)
            } else if *p == lexed::Punctuation::Equals {
                Token::OperatorSymbol(OperatorSymbol::Assign)
            } else if *p == lexed::Punctuation::Comma {
                Token::Comma
            } else if *p == lexed::Punctuation::Newline {
                Token::Newline
            } else if *p == lexed::Punctuation::OpenBracket(lexed::Bracket::Round) {
                Token::LParen
            } else if *p == lexed::Punctuation::CloseBracket(lexed::Bracket::Round) {
                Token::RParen
            } else if *p == lexed::Punctuation::OpenBracket(lexed::Bracket::Curly) {
                Token::LSquirly
            } else if *p == lexed::Punctuation::CloseBracket(lexed::Bracket::Curly) {
                Token::RSquirly
            } else if *p == lexed::Punctuation::OpenBracket(lexed::Bracket::Square) {
                Token::LSquare
            } else if *p == lexed::Punctuation::CloseBracket(lexed::Bracket::Square) {
                Token::RSquare
            } else if *p == lexed::Punctuation::OpenBracket(lexed::Bracket::Angle) {
                Token::OperatorSymbol(OperatorSymbol::LessThan)
            } else if *p == lexed::Punctuation::CloseBracket(lexed::Bracket::Angle) {
                Token::OperatorSymbol(OperatorSymbol::GreaterThan)
            } else {
                Token::Punct(*p)
            }
        },
        lexed::Token::Keyword(k) => {
            if *k == lexed::Keyword::Fn {
                Token::Fn
            } else if *k == lexed::Keyword::While {
                Token::While
            } else {
                Token::Keyword(*k)
            }
        },
        lexed::Token::Literal(l) => match l {
            lexed::Literal::Int(n) => Token::I64Literal(*n),
            lexed::Literal::Float(t) => Token::FloatLiteral(copy_chars(t)),
            lexed::Literal::Str(t) => Token::StrLiteral(copy_chars(t)),
        },
        lexed::Token::Comment(c) => match c {
            lexed::Comment::Regular(t) => Token::Comment(copy_chars(t)),
            lexed::Comment::Docstring(t) => Token::Docstring(copy_chars(t)),
        },
        lexed::Token::Identifier(t) => {
            let is_i64 = t.len() == 3 && t[0] == 'i' && t[1] == '6' && t[2] == '4';
            let is_void = t.len() == 4 && t[0] == 'v' && t[1] == 'o' && t[2] == 'i' && t[3] == 'd';
            let is_ret = t.len() == 3 && t[0] == 'r' && t[1] == 'e' && t[2] == 't';
            if is_i64 {
                proof {
                    assert(t@ =~= seq!['i', '6', '4']);
                }
                Token::Type(Type::I64)
            } else if is_void {
                proof {
                    assert(t@ =~= seq!['v', 'o', 'i', 'd']);
                }
                Token::Type(Type::Void)
            } else if is_ret {
                proof {
                    assert(t@ =~= seq!['r', 'e', 't']);
                }
                Token::Ret
            } else {
                Token::Identifier(copy_chars(t))
            }
        },
    }
}

/// The scanner the parser reads from: tokenizes a whole source, stops at
/// the first lexical error, and fuses adjacent punctuation into the
/// grammar's two-character operators.
#[derive(Debug)]
pub struct Lexer {
    pub source: Vec<char>,
}

impl Lexer {
    /// A scanner over the whole of the given source.
    pub fn new(source: Vec<char>) -> (l: Lexer)
        ensures
            l.source@ == source@,
    {
        Lexer { source }
    }

    /// Scan the source into parser tokens, or give its first lexical
    /// error.
    #[verifier::loop_isolation(false)]
    pub fn tokenize(self) -> (r: Result<Vec<Token>, lexed::LexError>)
        ensures
            match r {
                Ok(ts) => scan(self.source@) == Ok::<Seq<TokenView>, LexErrorView>(
                    token_views(ts@),
                ),
                Err(e) => scan(self.source@) == Err::<Seq<TokenView>, LexErrorView>(e@),
            },
    {
        let ghost src = self.source@;
        let items = tokenize(self.source);
        let ghost iv = stream_view(items@);

        // Stop at the first lexical error.
        let mut i: usize = 0;
        while i < items.len()
            invariant
                i <= items.len(),
                iv == stream_view(items@),
                iv.len() == items.len(),
                forall|j: int| 0 <= j < i ==> #[trigger] iv[j] is Ok,
            decreases items.len() - i,
        {
            match &items[i] {
                Err(e) => {
                    let out = copy_lex_error(e);
                    proof {
                        lemma_first_error_at(iv, i as int);
                    }
                    return Err(out);
                },
                Ok(_) => {},
            }
            i = i + 1;
        }
        proof {
            lemma_no_error(iv);
            lemma_error_free(iv);
        }

        // Fuse adjacent punctuation into operators.
        let ghost ov = ok_values(iv);
        let mut out: Vec<Token> = Vec::new();
        let mut j: usize = 0;
        proof {
            assert(ov.skip(0) =~= ov);
            assert(token_views(out@) + fuse_ok(ov) =~= fuse_ok(ov));
        }
        while j < items.len()
            invariant
                j <= items.len(),
                token_views(out@) + fuse_ok(ov.skip(j as int)) == fuse_ok(ov),
            decreases items.len() - j,
        {
            let ghost rest = ov.skip(j as int);
            proof {
                assert(rest[0] == ov[j as int]);
                if j + 1 < items.len() {
                    assert(rest[1] == ov[j + 1]);
                }
            }
            let fused: Option<OperatorSymbol> = if j + 1 < items.len() {
                match (&items[j], &items[j + 1]) {
                    (Ok(a), Ok(b)) => {
                        let r = pair_symbol(a, b);
                        proof {
                            assert(ov[j as int] == a@);
                            assert(ov[j + 1] == b@);
                            assert(r == pair_op(rest[0], rest[1]));
                        }
                        r
                    },
                    _ => {
                        proof {
                            assert(iv[j as int] is Ok);
                            assert(iv[j + 1] is Ok);
                        }
                        unreached()
                    },
                }
            } else {
                None
            };
            let ghost prev = out@;
            match fused {
                Some(op) => {
                    out.push(Token::OperatorSymbol(op));
                    proof {
                        assert(rest.skip(2) =~= ov.skip(j + 2));
                        assert(token_views(out@) =~= token_views(prev) + seq![
                            TokenView::OperatorSymbol(op),
                        ]);
                        assert(token_views(prev) + seq![TokenView::OperatorSymbol(op)] + fuse_ok(
                            ov.skip(j + 2),
                        ) =~= token_views(prev) + fuse_ok(rest));
                    }
                    j = j + 2;
                },
                None => {
                    let t = match &items[j] {
                        Ok(t0) => {
                            let c = convert_single(t0);
                            proof {
                                assert(ov[j as int] == t0@);
                                assert(c@ == single_of(rest[0]));
                            }
                            c
                        },
                        Err(_) => {
                            proof {
                                assert(iv[j as int] is Ok);
                            }
                            unreached()
                        },
                    };
                    proof {
                        if j + 1 < items.len() {
                            assert(pair_op(rest[0], rest[1]) is None);
                        } else {
                            assert(rest.len() == 1);
                        }
                    }
                    out.push(t);
                    proof {
                        assert(rest.skip(1) =~= ov.skip(j + 1));
                        assert(token_views(out@) =~= token_views(prev) + seq![t@]);
                        assert(token_views(prev) + seq![t@] + fuse_ok(ov.skip(j + 1))
                            =~= token_views(prev) + fuse_ok(rest));
                    }
                    j = j + 1;
                },
            }
        }
        proof {
            assert(ov.skip(items@.len() as int) =~= Seq::<lexed::TokenView>::empty());
            assert(token_views(out@) + fuse_ok(ov.skip(items@.len() as int)) =~= token_views(
                out@,
            ));
        }
        Ok(out)
    }
}

/// A stream whose first `i` elements are tokens and whose `i`-th is an
/// error has that error as its first.
proof fn lemma_first_error_at(items: Seq<Result<lexed::TokenView, LexErrorView>>, i: int)
    requires
        0 <= i < items.len(),
        items[i] is Err,
        forall|j: int| 0 <= j < i ==> #[trigger] items[j] is Ok,
    ensures
        first_lex_error(items) == Some(items[i]->Err_0),
    decreases items.len(),
{
    if i > 0 {
        lemma_first_error_at(items.drop_first(), i - 1);
    }
}

/// A stream of tokens alone has no first error.
proof fn lemma_no_error(items: Seq<Result<lexed::TokenView, LexErrorView>>)
    requires
        forall|j: int| 0 <= j < items.len() ==> #[trigger] items[j] is Ok,
    ensures
        first_lex_error(items) is None,
    decreases items.len(),
{
    if items.len() > 0 {
        lemma_no_error(items.drop_first());
    }
}

} // verus!
