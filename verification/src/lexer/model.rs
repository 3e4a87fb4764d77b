//! Mathematical model of the tokenizer.
//!
//! `lex_from` says, for any source text and cursor position, exactly which
//! sequence of tokens and in-band lexical errors the tokenizer produces.
//! The executable tokenizer in `tokens` is proved to follow this model step
//! by step.

use vstd::prelude::*;

use crate::chars::{
    hex_digit_value, is_blank, is_digit, is_hex_digit, is_letter, is_scalar_value, is_space,
};
use crate::lexer::types::{
    Bracket, CommentView, Keyword, LexErrorView, LiteralView, Punctuation, TokenView,
};

verus! {

/// A character that may appear in an identifier: a letter, a decimal digit
/// or an underscore.
pub open spec fn is_ident_char(c: char) -> bool {
    is_letter(c) || is_digit(c) || c == '_'
}

/// Whether a numeric literal that has already consumed `prev` continues
/// with `cur`: digits, `.`, `E` and `e` always continue it, a sign only
/// directly after an exponent marker.
pub open spec fn num_continues(prev: char, cur: char) -> bool {
    is_digit(cur) || cur == '.' || cur == 'E' || cur == 'e' || ((cur == '+' || cur == '-') && (prev
        == 'E' || prev == 'e'))
}

/// First position at or after `p` holding something other than a blank;
/// the length of the text if only blanks remain.
pub open spec fn skip_blanks(s: Seq<char>, p: int) -> int
    decreases s.len() - p,
{
    if p >= s.len() {
        p
    } else if is_blank(s[p]) {
        skip_blanks(s, p + 1)
    } else {
        p
    }
}

/// First position at or after `p` holding a newline; the length of the
/// text if none remains.
pub open spec fn line_end(s: Seq<char>, p: int) -> int
    decreases s.len() - p,
{
    if p >= s.len() {
        s.len() as int
    } else if s[p] == '\n' {
        p
    } else {
        line_end(s, p + 1)
    }
}

/// First position at or after `p` holding something other than a slash.
pub open spec fn slash_run_end(s: Seq<char>, p: int) -> int
    decreases s.len() - p,
{
    if p >= s.len() {
        s.len() as int
    } else if s[p] == '/' {
        slash_run_end(s, p + 1)
    } else {
        p
    }
}

/// First position at or after `p` where a numeric literal started earlier
/// no longer continues.
pub open spec fn num_scan(s: Seq<char>, p: int) -> int
    decreases s.len() - p,
{
    if p >= s.len() {
        s.len() as int
    } else if num_continues(s[p - 1], s[p]) {
        num_scan(s, p + 1)
    } else {
        p
    }
}

/// End of the numeric span whose first digit stands at `q`.
pub open spec fn num_end(s: Seq<char>, q: int) -> int {
    num_scan(s, q + 1)
}

/// First position at or after `p` holding no identifier character.
pub open spec fn ident_end(s: Seq<char>, p: int) -> int
    decreases s.len() - p,
{
    if p >= s.len() {
        s.len() as int
    } else if is_ident_char(s[p]) {
        ident_end(s, p + 1)
    } else {
        p
    }
}

/// First position at or after `p` holding a digit run's end.
pub open spec fn digit_run_end(s: Seq<char>, p: int) -> int
    decreases s.len() - p,
{
    if p >= s.len() {
        s.len() as int
    } else if is_digit(s[p]) {
        digit_run_end(s, p + 1)
    } else {
        p
    }
}

/// The text with leading whitespace removed.
pub open spec fn trim_start(t: Seq<char>) -> Seq<char>
    decreases t.len(),
{
    if t.len() == 0 {
        t
    } else if is_space(t[0]) {
        trim_start(t.drop_first())
    } else {
        t
    }
}

/// The text with trailing whitespace removed.
pub open spec fn trim_end(t: Seq<char>) -> Seq<char>
    decreases t.len(),
{
    if t.len() == 0 {
        t
    } else if is_space(t.last()) {
        trim_end(t.drop_last())
    } else {
        t
    }
}

/// The text with surrounding whitespace removed.
pub open spec fn trim(t: Seq<char>) -> Seq<char> {
    trim_end(trim_start(t))
}

/// Value of a digit string read in base ten.
pub open spec fn digits_val(t: Seq<char>) -> int
    decreases t.len(),
{
    if t.len() == 0 {
        0
    } else {
        digits_val(t.drop_last()) * 10 + (t.last() as int - '0' as int)
    }
}

/// The punctuation token one character stands for, if any.
pub open spec fn punct_of(c: char) -> Option<Punctuation> {
    match c {
        '&' => Some(Punctuation::Ampersand),
        '*' => Some(Punctuation::Asterisk),
        '@' => Some(Punctuation::At),
        '\\' => Some(Punctuation::Backslash),
        '^' => Some(Punctuation::Caret),
        ':' => Some(Punctuation::Colon),
        ',' => Some(Punctuation::Comma),
        '-' => Some(Punctuation::Dash),
        '$' => Some(Punctuation::Dollar),
        '.' => Some(Punctuation::Dot),
        '=' => Some(Punctuation::Equals),
        '!' => Some(Punctuation::Exclamation),
        '#' => Some(Punctuation::Hashtag),
        '\n' => Some(Punctuation::Newline),
        '%' => Some(Punctuation::Percent),
        '|' => Some(Punctuation::Pipe),
        '+' => Some(Punctuation::Plus),
        '?' => Some(Punctuation::Question),
        '\'' => Some(Punctuation::SingleQuote),
        '/' => Some(Punctuation::Slash),
        '~' => Some(Punctuation::Tilde),
        '<' => Some(Punctuation::OpenBracket(Bracket::Angle)),
        '>' => Some(Punctuation::CloseBracket(Bracket::Angle)),
        '{' => Some(Punctuation::OpenBracket(Bracket::Curly)),
        '}' => Some(Punctuation::CloseBracket(Bracket::Curly)),
        '(' => Some(Punctuation::OpenBracket(Bracket::Round)),
        ')' => Some(Punctuation::CloseBracket(Bracket::Round)),
        '[' => Some(Punctuation::OpenBracket(Bracket::Square)),
        ']' => Some(Punctuation::CloseBracket(Bracket::Square)),
        _ => None,
    }
}

/// The keyword a piece of text reserves, if any.
pub open spec fn keyword_of(t: Seq<char>) -> Option<Keyword> {
    if t == seq!['a', 'r', 'r'] {
        Some(Keyword::Arr)
    } else if t == seq!['b', 'o', 'o', 'l'] {
        Some(Keyword::BoolKw)
    } else if t == seq!['f', 'l', 'o', 'a', 't'] {
        Some(Keyword::FloatKw)
    } else if t == seq!['i', 'n', 't'] {
        Some(Keyword::IntKw)
    } else if t == seq!['m', 'a', 'p'] {
        Some(Keyword::MapKw)
    } else if t == seq!['s', 'e', 't'] {
        Some(Keyword::SetKw)
    } else if t == seq!['s', 't', 'r'] {
        Some(Keyword::StrKw)
    } else if t == seq!['a', 'n', 'd'] {
        Some(Keyword::And)
    } else if t == seq!['f', 'a', 'l', 's', 'e'] {
        Some(Keyword::False)
    } else if t == seq!['n', 'o', 't'] {
        Some(Keyword::Not)
    } else if t == seq!['o', 'r'] {
        Some(Keyword::Or)
    } else if t == seq!['t', 'r', 'u', 'e'] {
        Some(Keyword::True)
    } else if t == seq!['f', 'n'] {
        Some(Keyword::Fn)
    } else if t == seq!['f', 'o', 'r'] {
        Some(Keyword::For)
    } else if t == seq!['i', 'f'] {
        Some(Keyword::If)
    } else if t == seq!['w', 'h', 'i', 'l', 'e'] {
        Some(Keyword::While)
    } else {
        None
    }
}

/// Outcome of reading one escape sequence, with the position scanning
/// resumes at.
pub enum EscapeOut {
    Decoded(char, int),
    Failed(LexErrorView, int),
}

/// Outcome of taking a fixed number of hexadecimal digits.
pub enum HexScan {
    /// All digits were there; their value and the position after them.
    Value(int, int),
    /// A character that is no hexadecimal digit was met at this position.
    Invalid(int),
    /// The text ended first.
    Exhausted,
}

/// Take `k` hexadecimal digits starting at `i`, accumulating onto `acc`.
pub open spec fn take_hex(s: Seq<char>, i: int, k: nat, acc: int) -> HexScan
    decreases k,
{
    if k == 0 {
        HexScan::Value(acc, i)
    } else if i >= s.len() {
        HexScan::Exhausted
    } else if !is_hex_digit(s[i]) {
        HexScan::Invalid(i)
    } else {
        take_hex(s, i + 1, (k - 1) as nat, acc * 16 + hex_digit_value(s[i]) as int)
    }
}

/// Decode a `\u` or `\x` escape whose digits start at `i`.
pub open spec fn hex_escape(s: Seq<char>, i: int, k: nat) -> EscapeOut {
    match take_hex(s, i, k, 0) {
        HexScan::Value(v, e) => if is_scalar_value(v) {
            EscapeOut::Decoded(v as char, e)
        } else {
            EscapeOut::Failed(LexErrorView::InvalidCodePoint, e)
        },
        HexScan::Invalid(j) => EscapeOut::Failed(LexErrorView::IncompleteEscape, j),
        HexScan::Exhausted => EscapeOut::Failed(
            LexErrorView::UnterminatedStrLiteral,
            s.len() as int,
        ),
    }
}

/// Read the escape whose introducing backslash stood just before `j`.
pub open spec fn escape(s: Seq<char>, j: int) -> EscapeOut {
    if j >= s.len() {
        EscapeOut::Failed(LexErrorView::UnterminatedStrLiteral, j)
    } else {
        let c = s[j];
        if c == 'n' {
            EscapeOut::Decoded('\n', j + 1)
        } else if c == 'r' {
            EscapeOut::Decoded('\r', j + 1)
        } else if c == 't' {
            EscapeOut::Decoded('\t', j + 1)
        } else if c == '\\' {
            EscapeOut::Decoded('\\', j + 1)
        } else if c == '0' {
            EscapeOut::Decoded('\0', j + 1)
        } else if c == '"' {
            EscapeOut::Decoded('"', j + 1)
        } else if c == 'u' {
            hex_escape(s, j + 1, 4)
        } else if c == 'x' {
            hex_escape(s, j + 1, 2)
        } else {
            EscapeOut::Failed(LexErrorView::UnknownEscape(c), j + 1)
        }
    }
}

/// Scan the inside of a string literal from `i`, with the contents read so
/// far and the most recent escape error pending — a later escape error
/// replaces an earlier one — and give the produced stream element and the
/// position scanning resumes at.
///
/// A raw newline and the end of the text both leave the literal
/// unterminated; in the newline case the newline itself is not consumed, so
/// that it is still produced as a token afterwards.
pub open spec fn scan_str(
    s: Seq<char>,
    i: int,
    acc: Seq<char>,
    pending: Option<LexErrorView>,
) -> (Result<TokenView, LexErrorView>, int)
    decreases s.len() - i,
        via scan_str_decreases
{
    if i >= s.len() {
        (Err(LexErrorView::UnterminatedStrLiteral), s.len() as int)
    } else if s[i] == '"' {
        (
            match pending {
                Some(e) => Err(e),
                None => Ok(TokenView::Literal(LiteralView::Str(acc))),
            },
            i + 1,
        )
    } else if s[i] == '\n' {
        (Err(LexErrorView::UnterminatedStrLiteral), i)
    } else if s[i] == '\\' {
        match escape(s, i + 1) {
            EscapeOut::Decoded(c, j) => scan_str(s, j, acc.push(c), pending),
            EscapeOut::Failed(e, j) => scan_str(s, j, acc, Some(e)),
        }
    } else {
        scan_str(s, i + 1, acc.push(s[i]), pending)
    }
}

#[via_fn]
proof fn scan_str_decreases(s: Seq<char>, i: int, acc: Seq<char>, pending: Option<LexErrorView>) {
    if i + 1 <= s.len() {
        lemma_escape_bounds(s, i + 1);
    }
}

/// Where taking hexadecimal digits can end up: `k` positions further on
/// success, at the offending character when one is no digit, and only past
/// the end when the text ran out.
pub proof fn lemma_take_hex_bounds(s: Seq<char>, i: int, k: nat, acc: int)
    requires
        i <= s.len(),
        acc >= 0,
    ensures
        match take_hex(s, i, k, acc) {
            HexScan::Value(v, e) => e == i + k && i + k <= s.len() && v >= 0,
            HexScan::Invalid(j) => i <= j && j < s.len(),
            HexScan::Exhausted => i + k > s.len(),
        },
    decreases k,
{
    if k > 0 && i < s.len() && is_hex_digit(s[i]) {
        lemma_take_hex_bounds(s, i + 1, (k - 1) as nat, acc * 16 + hex_digit_value(s[i]) as int);
    }
}

/// Two or four hexadecimal digits read at most 0xFFFF.
pub proof fn lemma_hex_escape_value(s: Seq<char>, i: int, k: nat)
    requires
        k == 2 || k == 4,
    ensures
        match take_hex(s, i, k, 0) {
            HexScan::Value(v, e) => 0 <= v <= 0xFFFF,
            _ => true,
        },
{
    reveal_with_fuel(take_hex, 5);
}

/// An escape resumes at or after the position it was read from, and within
/// the text.
pub proof fn lemma_escape_bounds(s: Seq<char>, j: int)
    requires
        j <= s.len(),
    ensures
        match escape(s, j) {
            EscapeOut::Decoded(_, e) => j < e <= s.len(),
            EscapeOut::Failed(_, e) => j <= e <= s.len(),
        },
{
    if j < s.len() {
        let c = s[j];
        if c == 'u' {
            lemma_take_hex_bounds(s, j + 1, 4, 0);
        } else if c == 'x' {
            lemma_take_hex_bounds(s, j + 1, 2, 0);
        }
    }
}

/// String scanning resumes at or after its start, and within the text.
pub proof fn lemma_scan_str_bounds(
    s: Seq<char>,
    i: int,
    acc: Seq<char>,
    pending: Option<LexErrorView>,
)
    requires
        i <= s.len(),
    ensures
        i <= scan_str(s, i, acc, pending).1 <= s.len(),
    decreases s.len() - i,
{
    if i < s.len() && s[i] != '"' && s[i] != '\n' {
        if s[i] == '\\' {
            lemma_escape_bounds(s, i + 1);
            match escape(s, i + 1) {
                EscapeOut::Decoded(c, j) => lemma_scan_str_bounds(s, j, acc.push(c), pending),
                EscapeOut::Failed(e, j) => lemma_scan_str_bounds(s, j, acc, Some(e)),
            }
        } else {
            lemma_scan_str_bounds(s, i + 1, acc.push(s[i]), pending);
        }
    }
}

/// The comment whose first slash stands at `q`: classify by the number of
/// leading slashes, keep the line's remainder with surrounding whitespace
/// trimmed, and resume at the newline or the end of the text.
pub open spec fn comment_step(s: Seq<char>, q: int) -> (Result<TokenView, LexErrorView>, int) {
    let run = slash_run_end(s, q);
    let e = line_end(s, q);
    let body = trim(s.subrange(run, e));
    if run - q == 3 {
        (Ok(TokenView::Comment(CommentView::Docstring(body))), e)
    } else {
        (Ok(TokenView::Comment(CommentView::Regular(body))), e)
    }
}

/// The numeric literal whose first digit stands at `q`: the maximal span is
/// a float exactly when it holds a decimal point or exponent marker, and an
/// integer otherwise; malformed floats and oversized integers are in-band
/// errors that still consume the whole span.
pub open spec fn number_step(s: Seq<char>, q: int) -> (Result<TokenView, LexErrorView>, int) {
    let e = num_end(s, q);
    let span = s.subrange(q, e);
    if span.contains('.') || span.contains('E') || span.contains('e') {
        if is_valid_float(span) {
            (Ok(TokenView::Literal(LiteralView::Float(span))), e)
        } else {
            (Err(LexErrorView::FloatParsing(span)), e)
        }
    } else {
        if digits_val(span) <= i64::MAX {
            (Ok(TokenView::Literal(LiteralView::Int(digits_val(span) as i64))), e)
        } else {
            (Err(LexErrorView::IntParsing(span)), e)
        }
    }
}

/// Whether a numeric span that starts with a digit reads as a float: an
/// integer part, then an optional fraction, then an optional signed
/// exponent with at least one digit, with nothing left over.
pub open spec fn is_valid_float(t: Seq<char>) -> bool {
    let d1 = digit_run_end(t, 0);
    d1 > 0 && after_int_part(t, d1)
}

/// After the integer part: the end, a fraction, or an exponent.
pub open spec fn after_int_part(t: Seq<char>, i: int) -> bool {
    if i == t.len() {
        true
    } else if t[i] == '.' {
        after_fraction(t, digit_run_end(t, i + 1))
    } else {
        exponent_from(t, i)
    }
}

/// After the fraction's digits: the end or an exponent.
pub open spec fn after_fraction(t: Seq<char>, i: int) -> bool {
    i == t.len() || exponent_from(t, i)
}

/// An exponent marker, an optional sign, and at least one digit reaching
/// the end.
pub open spec fn exponent_from(t: Seq<char>, i: int) -> bool {
    (t[i] == 'e' || t[i] == 'E') && {
        let j = if i + 1 < t.len() && (t[i + 1] == '+' || t[i + 1] == '-') {
            i + 2
        } else {
            i + 1
        };
        digit_run_end(t, j) == t.len() && j < t.len()
    }
}

/// The identifier or keyword whose first character stands at `q`.
pub open spec fn ident_step(s: Seq<char>, q: int) -> (Result<TokenView, LexErrorView>, int) {
    let e = ident_end(s, q);
    let text = s.subrange(q, e);
    match keyword_of(text) {
        Some(k) => (Ok(TokenView::Keyword(k)), e),
        None => (Ok(TokenView::Identifier(text)), e),
    }
}

/// One step of the tokenizer: the end of the stream, or one stream element
/// together with the position the cursor advances to.
pub enum LexStep {
    End,
    Item(Result<TokenView, LexErrorView>, int),
}

/// One step of the tokenizer at position `p`: skip blanks, then dispatch
/// on the first character; the stream ends when only blanks remain.
pub open spec fn lex_step(s: Seq<char>, p: int) -> LexStep {
    let q = skip_blanks(s, p);
    if q >= s.len() {
        LexStep::End
    } else {
        let c = s[q];
        if c == '/' && q + 1 < s.len() && s[q + 1] == '/' {
            let r = comment_step(s, q);
            LexStep::Item(r.0, r.1)
        } else if c == '"' {
            let r = scan_str(s, q + 1, Seq::empty(), None);
            LexStep::Item(r.0, r.1)
        } else if punct_of(c) is Some {
            LexStep::Item(Ok(TokenView::Punctuation(punct_of(c)->0)), q + 1)
        } else if is_digit(c) {
            let r = number_step(s, q);
            LexStep::Item(r.0, r.1)
        } else if is_letter(c) || c == '_' {
            let r = ident_step(s, q);
            LexStep::Item(r.0, r.1)
        } else {
            LexStep::Item(Err(LexErrorView::UnknownChar(c)), q + 1)
        }
    }
}

/// Blanks are skipped up to the first other character, which is never
/// passed.
pub proof fn lemma_skip_blanks(s: Seq<char>, p: int)
    requires
        p <= s.len(),
    ensures
        p <= skip_blanks(s, p) <= s.len(),
        skip_blanks(s, p) < s.len() ==> !is_blank(s[skip_blanks(s, p)]),
        forall|i: int| p <= i < skip_blanks(s, p) ==> is_blank(#[trigger] s[i]),
    decreases s.len() - p,
{
    if p < s.len() && is_blank(s[p]) {
        lemma_skip_blanks(s, p + 1);
    }
}

/// The line's end is the first newline at or after `p`, or the text's end.
pub proof fn lemma_line_end(s: Seq<char>, p: int)
    requires
        p <= s.len(),
    ensures
        p <= line_end(s, p) <= s.len(),
        line_end(s, p) < s.len() ==> s[line_end(s, p)] == '\n',
        forall|i: int| p <= i < line_end(s, p) ==> #[trigger] s[i] != '\n',
    decreases s.len() - p,
{
    if p < s.len() && s[p] != '\n' {
        lemma_line_end(s, p + 1);
    }
}

/// The slash run's end is the first position without a slash.
pub proof fn lemma_slash_run_end(s: Seq<char>, p: int)
    requires
        p <= s.len(),
    ensures
        p <= slash_run_end(s, p) <= s.len(),
        slash_run_end(s, p) < s.len() ==> s[slash_run_end(s, p)] != '/',
        forall|i: int| p <= i < slash_run_end(s, p) ==> #[trigger] s[i] == '/',
    decreases s.len() - p,
{
    if p < s.len() && s[p] == '/' {
        lemma_slash_run_end(s, p + 1);
    }
}

/// The numeric scan stops at the first character that does not continue
/// the literal.
pub proof fn lemma_num_scan(s: Seq<char>, p: int)
    requires
        p <= s.len(),
    ensures
        p <= num_scan(s, p) <= s.len(),
        num_scan(s, p) < s.len() ==> !num_continues(
            s[num_scan(s, p) - 1],
            s[num_scan(s, p)],
        ),
        forall|i: int| p <= i < num_scan(s, p) ==> num_continues(s[i - 1], #[trigger] s[i]),
    decreases s.len() - p,
{
    if p < s.len() && num_continues(s[p - 1], s[p]) {
        lemma_num_scan(s, p + 1);
    }
}

/// The identifier scan stops at the first non-identifier character.
pub proof fn lemma_ident_end(s: Seq<char>, p: int)
    requires
        p <= s.len(),
    ensures
        p <= ident_end(s, p) <= s.len(),
        ident_end(s, p) < s.len() ==> !is_ident_char(s[ident_end(s, p)]),
        forall|i: int| p <= i < ident_end(s, p) ==> is_ident_char(#[trigger] s[i]),
    decreases s.len() - p,
{
    if p < s.len() && is_ident_char(s[p]) {
        lemma_ident_end(s, p + 1);
    }
}

/// The digit scan stops at the first non-digit.
pub proof fn lemma_digit_run_end(s: Seq<char>, p: int)
    requires
        p <= s.len(),
    ensures
        p <= digit_run_end(s, p) <= s.len(),
        digit_run_end(s, p) < s.len() ==> !is_digit(s[digit_run_end(s, p)]),
        forall|i: int| p <= i < digit_run_end(s, p) ==> is_digit(#[trigger] s[i]),
    decreases s.len() - p,
{
    if p < s.len() && is_digit(s[p]) {
        lemma_digit_run_end(s, p + 1);
    }
}

/// Each produced stream element advances the cursor, and never past the
/// text's end.
pub proof fn lemma_lex_step_advances(s: Seq<char>, p: int)
    requires
        p <= s.len(),
    ensures
        match lex_step(s, p) {
            LexStep::End => true,
            LexStep::Item(_, p2) => p < p2 <= s.len(),
        },
{
    lemma_skip_blanks_loose(s, p);
    let q = skip_blanks(s, p);
    if q < s.len() {
        let c = s[q];
        if c == '/' && q + 1 < s.len() && s[q + 1] == '/' {
            lemma_line_end(s, q);
            assert(line_end(s, q) > q) by {
                lemma_line_end(s, q);
            }
        } else if c == '"' {
            lemma_scan_str_bounds(s, q + 1, Seq::empty(), None);
        } else if punct_of(c) is Some {
        } else if is_digit(c) {
            lemma_num_scan(s, q + 1);
        } else if is_letter(c) || c == '_' {
            lemma_ident_end(s, q);
            assert(ident_end(s, q) > q);
        }
    }
}

/// Blank skipping never moves backwards, whatever the starting position.
proof fn lemma_skip_blanks_loose(s: Seq<char>, p: int)
    ensures
        skip_blanks(s, p) >= p,
        p <= s.len() ==> skip_blanks(s, p) <= s.len(),
    decreases s.len() - p,
{
    if p < s.len() && is_blank(s[p]) {
        lemma_skip_blanks_loose(s, p + 1);
    }
}

/// The whole stream of tokens and in-band errors from position `p` on.
pub open spec fn lex_from(s: Seq<char>, p: int) -> Seq<Result<TokenView, LexErrorView>>
    decreases s.len() - p,
        via lex_from_decreases
{
    if p > s.len() {
        Seq::empty()
    } else {
        match lex_step(s, p) {
            LexStep::End => Seq::empty(),
            LexStep::Item(r, p2) => seq![r] + lex_from(s, p2),
        }
    }
}

#[via_fn]
proof fn lex_from_decreases(s: Seq<char>, p: int) {
    if p <= s.len() {
        lemma_lex_step_advances(s, p);
    }
}

/// The token stream of a whole source text.
pub open spec fn lex(s: Seq<char>) -> Seq<Result<TokenView, LexErrorView>> {
    lex_from(s, 0)
}

} // verus!
