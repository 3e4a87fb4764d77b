//! The executable tokenizer.
//!
//! `Tokens` holds the source characters and a cursor over them. Each call
//! of `next` produces one token or one in-band lexical error and advances
//! the cursor past exactly the characters consumed, as the model's
//! `lex_step` prescribes; `tokenize` produces the whole stream.

use vstd::prelude::*;

use crate::chars::{blank, digit, hex_digit, hex_value, is_blank, is_digit, is_hex_digit,
    is_letter, is_scalar_value, is_space, letter, scalar_to_char, space};
use crate::lexer::model::{
    comment_step, digit_run_end, escape, exponent_from, ident_end, ident_step, is_ident_char,
    is_valid_float, after_int_part, after_fraction, digits_val, lemma_digit_run_end,
    lemma_escape_bounds, lemma_hex_escape_value, lemma_ident_end, lemma_lex_step_advances,
    lemma_line_end, lemma_num_scan, lemma_scan_str_bounds, lemma_skip_blanks,
    lemma_slash_run_end, lemma_take_hex_bounds, lex, lex_from, lex_step, line_end, num_continues,
    num_end, num_scan, number_step, punct_of, scan_str, skip_blanks, slash_run_end, take_hex,
    trim, trim_end, trim_start, EscapeOut, HexScan, LexStep,
};
use crate::lexer::types::{
    item_view, stream_view, Comment, LexError, LexErrorView, Literal, Token, TokenView,
};

verus! {

/// View of a pending in-band error.
pub open spec fn pending_view(p: Option<LexError>) -> Option<LexErrorView> {
    match p {
        Some(e) => Some(e@),
        None => None,
    }
}

/// The value of a digit prefix never exceeds the value of the whole run.
proof fn lemma_digits_val_monotone(t: Seq<char>, m: int)
    requires
        0 <= m <= t.len(),
        forall|i: int| 0 <= i < t.len() ==> is_digit(#[trigger] t[i]),
    ensures
        0 <= digits_val(t.subrange(0, m)) <= digits_val(t),
    decreases t.len(),
{
    lemma_digits_val_nonneg(t.subrange(0, m));
    lemma_digits_val_nonneg(t);
    if m < t.len() {
        let t1 = t.drop_last();
        assert(t.subrange(0, m) =~= t1.subrange(0, m));
        lemma_digits_val_monotone(t1, m);
        assert(t1 =~= t.subrange(0, t.len() - 1));
        lemma_digits_val_nonneg(t1);
        assert(digits_val(t) == digits_val(t1) * 10 + (t.last() as int - '0' as int));
    } else {
        assert(t.subrange(0, m) =~= t);
    }
}

/// A digit string's value is not negative.
proof fn lemma_digits_val_nonneg(t: Seq<char>)
    requires
        forall|i: int| 0 <= i < t.len() ==> is_digit(#[trigger] t[i]),
    ensures
        digits_val(t) >= 0,
    decreases t.len(),
{
    if t.len() > 0 {
        assert(forall|i: int|
            0 <= i < t.drop_last().len() ==> is_digit(#[trigger] t.drop_last()[i]));
        lemma_digits_val_nonneg(t.drop_last());
    }
}

/// The tokenizer: source characters and a cursor past what was consumed.
#[derive(Debug)]
pub struct Tokens {
    pub source: Vec<char>,
    pub cursor: usize,
}

impl Tokens {
    /// The cursor never stands past the end of the source.
    pub open spec fn wf(&self) -> bool {
        self.cursor <= self.source.len()
    }

    /// A tokenizer over the whole of the given source.
    pub fn new(source: Vec<char>) -> (t: Tokens)
        ensures
            t.wf(),
            t.source@ == source@,
            t.cursor == 0,
    {
        Tokens { source, cursor: 0 }
    }

    /// Copy of the characters between two positions.
    fn copy_range(&self, a: usize, b: usize) -> (out: Vec<char>)
        requires
            a <= b <= self.source.len(),
        ensures
            out@ == self.source@.subrange(a as int, b as int),
    {
        let mut out: Vec<char> = Vec::new();
        let mut i = a;
        while i < b
            invariant
                a <= i <= b <= self.source.len(),
                out@ == self.source@.subrange(a as int, i as int),
            decreases b - i,
        {
            out.push(self.source[i]);
            proof {
                assert(out@ =~= self.source@.subrange(a as int, i + 1 as int));
            }
            i = i + 1;
        }
        out
    }

    /// Read the comment whose first slash stands at `q`: count the leading
    /// slashes, take the line's remainder, trim it, and classify by the
    /// count, three slashes making a docstring.
    pub fn read_comment(&self, q: usize) -> (r: (Result<Token, LexError>, usize))
        requires
            self.wf(),
            q < self.source.len(),
            self.source@[q as int] == '/',
        ensures
            r.1 <= self.source.len(),
            (item_view(r.0), r.1 as int) == comment_step(self.source@, q as int),
    {
        let s_len = self.source.len();
        let ghost s = self.source@;

        let mut run = q;
        while run < s_len && self.source[run] == '/'
            invariant
                q <= run <= s_len == self.source.len(),
                s == self.source@,
                slash_run_end(s, q as int) == slash_run_end(s, run as int),
            decreases s_len - run,
        {
            run = run + 1;
        }
        proof {
            assert(slash_run_end(s, run as int) == run);
        }

        let mut e = q;
        while e < s_len && self.source[e] != '\n'
            invariant
                q <= e <= s_len == self.source.len(),
                s == self.source@,
                line_end(s, q as int) == line_end(s, e as int),
            decreases s_len - e,
        {
            e = e + 1;
        }
        proof {
            assert(line_end(s, e as int) == e);
            lemma_slash_run_end(s, q as int);
            lemma_line_end(s, q as int);
            assert(run <= e) by {
                if e < run {
                    assert(s[e as int] == '/');
                }
            }
        }

        // Trim the body between the slashes and the line's end.
        let mut lo = run;
        let mut hi = e;
        while lo < hi && space(self.source[lo])
            invariant
                run <= lo <= hi == e <= s_len == self.source.len(),
                s == self.source@,
                trim_start(s.subrange(run as int, e as int)) == trim_start(
                    s.subrange(lo as int, e as int),
                ),
            decreases hi - lo,
        {
            proof {
                assert(s.subrange(lo as int, e as int).drop_first() =~= s.subrange(
                    lo + 1 as int,
                    e as int,
                ));
            }
            lo = lo + 1;
        }
        proof {
            assert(trim_start(s.subrange(lo as int, e as int)) == s.subrange(lo as int, e as int));
        }
        while hi > lo && space(self.source[hi - 1])
            invariant
                run <= lo <= hi <= e <= s_len == self.source.len(),
                s == self.source@,
                trim_start(s.subrange(run as int, e as int)) == s.subrange(lo as int, e as int),
                trim_end(s.subrange(lo as int, e as int)) == trim_end(
                    s.subrange(lo as int, hi as int),
                ),
            decreases hi,
        {
            proof {
                assert(s.subrange(lo as int, hi as int).drop_last() =~= s.subrange(
                    lo as int,
                    hi - 1 as int,
                ));
            }
            hi = hi - 1;
        }
        proof {
            assert(trim_end(s.subrange(lo as int, hi as int)) == s.subrange(lo as int, hi as int));
            assert(trim(s.subrange(run as int, e as int)) == s.subrange(lo as int, hi as int));
        }

        let body = self.copy_range(lo, hi);
        let n = run - q;
        if n == 3 {
            (Ok(Token::Comment(Comment::Docstring(body))), e)
        } else {
            (Ok(Token::Comment(Comment::Regular(body))), e)
        }
    }

    /// Take `n` hexadecimal digits starting at `i` and give their value.
    pub fn take_n_hex_chars(&self, i: usize, n: usize) -> (r: (Result<u32, LexError>, usize))
        requires
            self.wf(),
            i <= self.source.len(),
            n == 2 || n == 4,
        ensures
            r.1 <= self.source.len(),
            match take_hex(self.source@, i as int, n as nat, 0) {
                HexScan::Value(v, e) => r.0 == Ok::<u32, LexError>(v as u32) && r.1 == e && v
                    == r.0->Ok_0 as int,
                HexScan::Invalid(j) => r.0 == Err::<u32, LexError>(LexError::IncompleteEscape)
                    && r.1 == j,
                HexScan::Exhausted => r.0 == Err::<u32, LexError>(
                    LexError::UnterminatedStrLiteral,
                ) && r.1 == self.source.len(),
            },
    {
        let ghost s = self.source@;
        let s_len = self.source.len();
        let mut v: u32 = 0;
        let mut pos = i;
        let mut taken: usize = 0;
        proof {
            lemma_hex_escape_value(s, i as int, n as nat);
        }
        while taken < n
            invariant
                i <= pos <= s_len == self.source.len(),
                s == self.source@,
                taken <= n,
                n == 2 || n == 4,
                pos == i + taken,
                v <= 0xFFFF,
                take_hex(s, i as int, n as nat, 0) == take_hex(
                    s,
                    pos as int,
                    (n - taken) as nat,
                    v as int,
                ),
                taken == 3 ==> v <= 0xFFF,
                taken == 2 ==> v <= 0xFF,
                taken == 1 ==> v <= 0xF,
                taken == 0 ==> v == 0,
            decreases n - taken,
        {
            if pos >= s_len {
                return (Err(LexError::UnterminatedStrLiteral), s_len);
            }
            let c = self.source[pos];
            if !hex_digit(c) {
                return (Err(LexError::IncompleteEscape), pos);
            }
            v = v * 16 + hex_value(c);
            pos = pos + 1;
            taken = taken + 1;
        }
        proof {
            lemma_take_hex_bounds(s, i as int, n as nat, 0);
        }
        (Ok(v), pos)
    }

    /// Turn a decoded code point into the character it names; a value that
    /// is no Unicode scalar value is a decode failure, not a panic.
    pub fn parse_hex_str(v: u32) -> (r: Result<char, LexError>)
        ensures
            is_scalar_value(v as int) ==> r is Ok && r->Ok_0 as u32 == v,
            !is_scalar_value(v as int) ==> r == Err::<char, LexError>(LexError::InvalidCodePoint),
    {
        match scalar_to_char(v) {
            Some(c) => Ok(c),
            None => Err(LexError::InvalidCodePoint),
        }
    }

    /// Read the escape whose introducing backslash stood just before `j`.
    pub fn parse_escape_in_str_literal(&self, j: usize) -> (r: (Result<char, LexError>, usize))
        requires
            self.wf(),
            j <= self.source.len(),
        ensures
            r.1 <= self.source.len(),
            match escape(self.source@, j as int) {
                EscapeOut::Decoded(c, e) => r.0 == Ok::<char, LexError>(c) && r.1 == e,
                EscapeOut::Failed(ev, e) => r.0 is Err && r.0->Err_0@ == ev && r.1 == e,
            },
    {
        let ghost s = self.source@;
        let s_len = self.source.len();
        if j >= s_len {
            return (Err(LexError::UnterminatedStrLiteral), j);
        }
        let c = self.source[j];
        if c == 'n' {
            (Ok('\n'), j + 1)
        } else if c == 'r' {
            (Ok('\r'), j + 1)
        } else if c == 't' {
            (Ok('\t'), j + 1)
        } else if c == '\\' {
            (Ok('\\'), j + 1)
        } else if c == '0' {
            (Ok('\0'), j + 1)
        } else if c == '"' {
            (Ok('"'), j + 1)
        } else if c == 'u' || c == 'x' {
            let k: usize = if c == 'u' {
                4
            } else {
                2
            };
            let (got, e) = self.take_n_hex_chars(j + 1, k);
            proof {
                lemma_hex_escape_value(s, j + 1 as int, k as nat);
            }
            match got {
                Ok(v) => match Self::parse_hex_str(v) {
                    Ok(ch) => {
                        proof {
                            if is_scalar_value(v as int) {
                                vstd::utf8::char_u32_cast(ch, v);
                            }
                        }
                        (Ok(ch), e)
                    },
                    Err(err) => (Err(err), e),
                },
                Err(err) => (Err(err), e),
            }
        } else {
            (Err(LexError::UnknownEscape(c)), j + 1)
        }
    }

    /// Read the string literal whose opening quote stands at `q`. The
    /// most recent escape error is remembered and reported in place of
    /// the literal; a raw newline or the end of the text leaves the literal
    /// unterminated, and the newline itself is not consumed.
    pub fn read_string_literal(&self, q: usize) -> (r: (Result<Token, LexError>, usize))
        requires
            self.wf(),
            q < self.source.len(),
            self.source@[q as int] == '"',
        ensures
            r.1 <= self.source.len(),
            (item_view(r.0), r.1 as int) == scan_str(
                self.source@,
                q + 1 as int,
                Seq::empty(),
                None,
            ),
    {
        let ghost s = self.source@;
        let s_len = self.source.len();
        let mut i = q + 1;
        let mut contents: Vec<char> = Vec::new();
        let mut pending: Option<LexError> = None;

        loop
            invariant
                q + 1 <= i <= s_len == self.source.len(),
                s == self.source@,
                self.wf(),
                scan_str(s, q + 1 as int, Seq::empty(), None) == scan_str(
                    s,
                    i as int,
                    contents@,
                    pending_view(pending),
                ),
            decreases s_len - i,
        {
            if i >= s_len {
                return (Err(LexError::UnterminatedStrLiteral), s_len);
            }
            let c = self.source[i];
            if c == '"' {
                match pending {
                    Some(e) => {
                        return (Err(e), i + 1);
                    },
                    None => {
                        return (Ok(Token::Literal(Literal::Str(contents))), i + 1);
                    },
                }
            } else if c == '\n' {
                return (Err(LexError::UnterminatedStrLiteral), i);
            } else if c == '\\' {
                let (esc, j) = self.parse_escape_in_str_literal(i + 1);
                proof {
                    lemma_escape_bounds(s, i + 1 as int);
                }
                match esc {
                    Ok(ch) => {
                        contents.push(ch);
                    },
                    Err(e) => {
                        pending = Some(e);
                    },
                }
                i = j;
            } else {
                contents.push(c);
                i = i + 1;
            }
        }
    }

    /// Whether a numeric span reads as a float: an integer part, an
    /// optional fraction, an optional signed exponent with at least one
    /// digit, and nothing left over.
    fn float_text_valid(t: &Vec<char>) -> (ok: bool)
        ensures
            ok == is_valid_float(t@),
    {
        let n = t.len();
        let mut i: usize = 0;
        while i < n && digit(t[i])
            invariant
                i <= n == t.len(),
                digit_run_end(t@, 0) == digit_run_end(t@, i as int),
            decreases n - i,
        {
            i = i + 1;
        }
        proof {
            assert(digit_run_end(t@, i as int) == i);
        }
        if i == 0 {
            return false;
        }
        if i == n {
            return true;
        }
        if t[i] == '.' {
            let mut j = i + 1;
            while j < n && digit(t[j])
                invariant
                    i + 1 <= j <= n == t.len(),
                    digit_run_end(t@, i + 1 as int) == digit_run_end(t@, j as int),
                decreases n - j,
            {
                j = j + 1;
            }
            proof {
                assert(digit_run_end(t@, j as int) == j);
            }
            if j == n {
                return true;
            }
            Self::exponent_valid(t, j)
        } else {
            Self::exponent_valid(t, i)
        }
    }

    /// Whether an exponent marker with an optional sign and at least one
    /// digit stands at `i` and reaches the end of the span.
    fn exponent_valid(t: &Vec<char>, i: usize) -> (ok: bool)
        requires
            i < t.len(),
        ensures
            ok == exponent_from(t@, i as int),
    {
        let n = t.len();
        let c = t[i];
        if !(c == 'e' || c == 'E') {
            return false;
        }
        let k: usize = if i + 1 < n && (t[i + 1] == '+' || t[i + 1] == '-') {
            i + 2
        } else {
            i + 1
        };
        if k >= n {
            return false;
        }
        let mut m = k;
        while m < n && digit(t[m])
            invariant
                k <= m <= n == t.len(),
                digit_run_end(t@, k as int) == digit_run_end(t@, m as int),
            decreases n - m,
        {
            m = m + 1;
        }
        proof {
            assert(digit_run_end(t@, m as int) == m);
        }
        m == n
    }

    /// Whether the numeric literal still continues at position `e`.
    fn num_continues_at(&self, e: usize) -> (r: bool)
        requires
            self.wf(),
            1 <= e,
        ensures
            r == (e < self.source.len() && num_continues(
                self.source@[e - 1],
                self.source@[e as int],
            )),
    {
        if e >= self.source.len() {
            return false;
        }
        let prev = self.source[e - 1];
        let cur = self.source[e];
        digit(cur) || cur == '.' || cur == 'E' || cur == 'e' || ((cur == '+' || cur == '-') && (
        prev == 'E' || prev == 'e'))
    }

    /// Whether an identifier still continues at position `e`.
    fn ident_continues_at(&self, e: usize) -> (r: bool)
        requires
            self.wf(),
        ensures
            r == (e < self.source.len() && is_ident_char(self.source@[e as int])),
    {
        if e >= self.source.len() {
            return false;
        }
        let c = self.source[e];
        letter(c) || digit(c) || c == '_'
    }

    /// Read the numeric literal whose first digit stands at `q`: consume
    /// the maximal span, classify it as float or integer, and turn a
    /// malformed float or an oversized integer into an in-band error that
    /// still consumes the whole span.
    pub fn read_numeric_literal(&self, q: usize) -> (r: (Result<Token, LexError>, usize))
        requires
            self.wf(),
            q < self.source.len(),
            is_digit(self.source@[q as int]),
        ensures
            r.1 <= self.source.len(),
            (item_view(r.0), r.1 as int) == number_step(self.source@, q as int),
    {
        let ghost s = self.source@;
        let s_len = self.source.len();

        let mut e = q + 1;
        while self.num_continues_at(e)
            invariant
                self.wf(),
                q + 1 <= e <= s_len == self.source.len(),
                s == self.source@,
                num_scan(s, q + 1 as int) == num_scan(s, e as int),
            decreases s_len - e,
        {
            e = e + 1;
        }
        proof {
            assert(num_scan(s, e as int) == e);
            assert(num_end(s, q as int) == e);
        }

        let span = self.copy_range(q, e);
        let ghost sp = s.subrange(q as int, e as int);

        // Does the span hold a decimal point or exponent marker?
        let mut has_marker = false;
        let mut i: usize = 0;
        let n = span.len();
        while i < n
            invariant
                i <= n == span.len(),
                span@ == sp,
                has_marker == exists|j: int|
                    0 <= j < i && (sp[j] == '.' || sp[j] == 'E' || sp[j] == 'e'),
            decreases n - i,
        {
            let c = span[i];
            if c == '.' || c == 'E' || c == 'e' {
                has_marker = true;
            }
            i = i + 1;
        }
        proof {
            assert(has_marker == (sp.contains('.') || sp.contains('E') || sp.contains('e')));
        }

        if has_marker {
            if Self::float_text_valid(&span) {
                (Ok(Token::Literal(Literal::Float(span))), e)
            } else {
                (Err(LexError::FloatParsing(span)), e)
            }
        } else {
            proof {
                lemma_num_scan(s, q + 1 as int);
                assert forall|j: int| 0 <= j < sp.len() implies is_digit(#[trigger] sp[j]) by {
                    if j > 0 {
                        assert(num_continues(s[q + j - 1], s[q + j]));
                        if !is_digit(sp[j]) {
                            assert(sp[j] == '.' || sp[j] == 'E' || sp[j] == 'e' || sp[j] == '+'
                                || sp[j] == '-');
                            if sp[j] == '+' || sp[j] == '-' {
                                assert(s[q + j - 1] == 'E' || s[q + j - 1] == 'e');
                                assert(sp[j - 1] == s[q + j - 1]);
                                assert(sp.contains(sp[j - 1]));
                            } else {
                                assert(sp.contains(sp[j]));
                            }
                        }
                    }
                }
            }
            let mut v: i64 = 0;
            let mut over = false;
            let mut i: usize = 0;
            while i < n && !over
                invariant
                    i <= n == span.len(),
                    span@ == sp,
                    forall|j: int| 0 <= j < sp.len() ==> is_digit(#[trigger] sp[j]),
                    !over ==> v as int == digits_val(sp.subrange(0, i as int)) && v >= 0,
                    over ==> digits_val(sp.subrange(0, i as int)) > i64::MAX,
                decreases n - i,
            {
                let c = span[i];
                let d: i64 = (c as u32 - '0' as u32) as i64;
                proof {
                    assert(sp.subrange(0, i + 1 as int).drop_last() =~= sp.subrange(0, i as int));
                    lemma_digits_val_nonneg(sp.subrange(0, i as int));
                }
                match v.checked_mul(10) {
                    Some(x) => match x.checked_add(d) {
                        Some(y) => {
                            v = y;
                        },
                        None => {
                            over = true;
                        },
                    },
                    None => {
                        over = true;
                    },
                }
                i = i + 1;
            }
            proof {
                if over {
                    lemma_digits_val_monotone(sp, i as int);
                } else {
                    assert(sp.subrange(0, i as int) =~= sp);
                }
            }
            if over {
                (Err(LexError::IntParsing(span)), e)
            } else {
                (Ok(Token::Literal(Literal::Int(v))), e)
            }
        }
    }

    /// Read the identifier or keyword whose first character stands at `q`:
    /// the maximal run of letters, digits and underscores, matched against
    /// the reserved-word table.
    pub fn read_identifier_or_kw(&self, q: usize) -> (r: (Result<Token, LexError>, usize))
        requires
            self.wf(),
            q < self.source.len(),
        ensures
            r.1 <= self.source.len(),
            (item_view(r.0), r.1 as int) == ident_step(self.source@, q as int),
    {
        let ghost s = self.source@;
        let s_len = self.source.len();

        let mut e = q;
        while self.ident_continues_at(e)
            invariant
                self.wf(),
                q <= e <= s_len == self.source.len(),
                s == self.source@,
                ident_end(s, q as int) == ident_end(s, e as int),
            decreases s_len - e,
        {
            e = e + 1;
        }
        proof {
            assert(ident_end(s, e as int) == e);
        }

        let name = self.copy_range(q, e);
        let ghost t = s.subrange(q as int, e as int);

        let token = if name.len() == 3 && name[0] == 'a' && name[1] == 'r' && name[2] == 'r' {
            proof {
                assert(t =~= seq!['a', 'r', 'r']);
            }
            Token::Keyword(crate::lexer::types::Keyword::Arr)
        } else if name.len() == 4 && name[0] == 'b' && name[1] == 'o' && name[2] == 'o' && name[3]
            == 'l' {
            proof {
                assert(t =~= seq!['b', 'o', 'o', 'l']);
            }
            Token::Keyword(crate::lexer::types::Keyword::BoolKw)
        } else if name.len() == 5 && name[0] == 'f' && name[1] == 'l' && name[2] == 'o' && name[3]
            == 'a' && name[4] == 't' {
            proof {
                assert(t =~= seq!['f', 'l', 'o', 'a', 't']);
            }
            Token::Keyword(crate::lexer::types::Keyword::FloatKw)
        } else if name.len() == 3 && name[0] == 'i' && name[1] == 'n' && name[2] == 't' {
            proof {
                assert(t =~= seq!['i', 'n', 't']);
            }
            Token::Keyword(crate::lexer::types::Keyword::IntKw)
        } else if name.len() == 3 && name[0] == 'm' && name[1] == 'a' && name[2] == 'p' {
            proof {
                assert(t =~= seq!['m', 'a', 'p']);
            }
            Token::Keyword(crate::lexer::types::Keyword::MapKw)
        } else if name.len() == 3 && name[0] == 's' && name[1] == 'e' && name[2] == 't' {
            proof {
                assert(t =~= seq!['s', 'e', 't']);
            }
            Token::Keyword(crate::lexer::types::Keyword::SetKw)
        } else if name.len() == 3 && name[0] == 's' && name[1] == 't' && name[2] == 'r' {
            proof {
                assert(t =~= seq!['s', 't', 'r']);
            }
            Token::Keyword(crate::lexer::types::Keyword::StrKw)
        } else if name.len() == 3 && name[0] == 'a' && name[1] == 'n' && name[2] == 'd' {
            proof {
                assert(t =~= seq!['a', 'n', 'd']);
            }
            Token::Keyword(crate::lexer::types::Keyword::And)
        } else if name.len() == 5 && name[0] == 'f' && name[1] == 'a' && name[2] == 'l' && name[3]
            == 's' && name[4] == 'e' {
            proof {
                assert(t =~= seq!['f', 'a', 'l', 's', 'e']);
            }
            Token::Keyword(crate::lexer::types::Keyword::False)
        } else if name.len() == 3 && name[0] == 'n' && name[1] == 'o' && name[2] == 't' {
            proof {
                assert(t =~= seq!['n', 'o', 't']);
            }
            Token::Keyword(crate::lexer::types::Keyword::Not)
        } else if name.len() == 2 && name[0] == 'o' && name[1] == 'r' {
            proof {
                assert(t =~= seq!['o', 'r']);
            }
            Token::Keyword(crate::lexer::types::Keyword::Or)
        } else if name.len() == 4 && name[0] == 't' && name[1] == 'r' && name[2] == 'u' && name[3]
            == 'e' {
            proof {
                assert(t =~= seq!['t', 'r', 'u', 'e']);
            }
            Token::Keyword(crate::lexer::types::Keyword::True)
        } else if name.len() == 2 && name[0] == 'f' && name[1] == 'n' {
            proof {
                assert(t =~= seq!['f', 'n']);
            }
            Token::Keyword(crate::lexer::types::Keyword::Fn)
        } else if name.len() == 3 && name[0] == 'f' && name[1] == 'o' && name[2] == 'r' {
            proof {
                assert(t =~= seq!['f', 'o', 'r']);
            }
            Token::Keyword(crate::lexer::types::Keyword::For)
        } else if name.len() == 2 && name[0] == 'i' && name[1] == 'f' {
            proof {
                assert(t =~= seq!['i', 'f']);
            }
            Token::Keyword(crate::lexer::types::Keyword::If)
        } else if name.len() == 5 && name[0] == 'w' && name[1] == 'h' && name[2] == 'i' && name[3]
            == 'l' && name[4] == 'e' {
            proof {
                assert(t =~= seq!['w', 'h', 'i', 'l', 'e']);
            }
            Token::Keyword(crate::lexer::types::Keyword::While)
        } else {
            Token::Identifier(name)
        };
        (Ok(token), e)
    }

    /// One step: skip blanks, then produce the next token or in-band
    /// error, advancing the cursor past exactly what was consumed; `None`
    /// at the end of the stream.
    pub fn next(&mut self) -> (r: Option<Result<Token, LexError>>)
        requires
            old(self).wf(),
        ensures
            final(self).wf(),
            final(self).source@ == old(self).source@,
            match lex_step(old(self).source@, old(self).cursor as int) {
                LexStep::End => r is None && final(self).cursor == old(self).cursor,
                LexStep::Item(out, p2) => r is Some && item_view(r->0) == out
                    && final(self).cursor == p2,
            },
    {
        let ghost s = self.source@;
        let s_len = self.source.len();

        let mut q = self.cursor;
        while q < s_len && blank(self.source[q])
            invariant
                self.cursor <= q <= s_len == self.source.len(),
                s == self.source@,
                skip_blanks(s, self.cursor as int) == skip_blanks(s, q as int),
            decreases s_len - q,
        {
            q = q + 1;
        }
        proof {
            assert(skip_blanks(s, q as int) == q);
        }

        if q >= s_len {
            return None;
        }

        let c = self.source[q];
        let next_is_slash = q + 1 < s_len && self.source[q + 1] == '/';

        if c == '/' && next_is_slash {
            let (r, e) = self.read_comment(q);
            self.cursor = e;
            return Some(r);
        }
        if c == '"' {
            let (r, e) = self.read_string_literal(q);
            proof {
                lemma_scan_str_bounds(s, q + 1 as int, Seq::empty(), None);
            }
            self.cursor = e;
            return Some(r);
        }

        let punct = match c {
            '&' => Some(crate::lexer::types::Punctuation::Ampersand),
            '*' => Some(crate::lexer::types::Punctuation::Asterisk),
            '@' => Some(crate::lexer::types::Punctuation::At),
            '\\' => Some(crate::lexer::types::Punctuation::Backslash),
            '^' => Some(crate::lexer::types::Punctuation::Caret),
            ':' => Some(crate::lexer::types::Punctuation::Colon),
            ',' => Some(crate::lexer::types::Punctuation::Comma),
            '-' => Some(crate::lexer::types::Punctuation::Dash),
            '$' => Some(crate::lexer::types::Punctuation::Dollar),
            '.' => Some(crate::lexer::types::Punctuation::Dot),
            '=' => Some(crate::lexer::types::Punctuation::Equals),
            '!' => Some(crate::lexer::types::Punctuation::Exclamation),
            '#' => Some(crate::lexer::types::Punctuation::Hashtag),
            '\n' => Some(crate::lexer::types::Punctuation::Newline),
            '%' => Some(crate::lexer::types::Punctuation::Percent),
            '|' => Some(crate::lexer::types::Punctuation::Pipe),
            '+' => Some(crate::lexer::types::Punctuation::Plus),
            '?' => Some(crate::lexer::types::Punctuation::Question),
            '\'' => Some(crate::lexer::types::Punctuation::SingleQuote),
            '/' => Some(crate::lexer::types::Punctuation::Slash),
            '~' => Some(crate::lexer::types::Punctuation::Tilde),
            '<' => Some(
                crate::lexer::types::Punctuation::OpenBracket(crate::lexer::types::Bracket::Angle),
            ),
            '>' => Some(
                crate::lexer::types::Punctuation::CloseBracket(
                    crate::lexer::types::Bracket::Angle,
                ),
            ),
            '{' => Some(
                crate::lexer::types::Punctuation::OpenBracket(crate::lexer::types::Bracket::Curly),
            ),
            '}' => Some(
                crate::lexer::types::Punctuation::CloseBracket(
                    crate::lexer::types::Bracket::Curly,
                ),
            ),
            '(' => Some(
                crate::lexer::types::Punctuation::OpenBracket(crate::lexer::types::Bracket::Round),
            ),
            ')' => Some(
                crate::lexer::types::Punctuation::CloseBracket(
                    crate::lexer::types::Bracket::Round,
                ),
            ),
            '[' => Some(
                crate::lexer::types::Punctuation::OpenBracket(
                    crate::lexer::types::Bracket::Square,
                ),
            ),
            ']' => Some(
                crate::lexer::types::Punctuation::CloseBracket(
                    crate::lexer::types::Bracket::Square,
                ),
            ),
            _ => None,
        };
        match punct {
            Some(p) => {
                self.cursor = q + 1;
                return Some(Ok(Token::Punctuation(p)));
            },
            None => {},
        }

        if digit(c) {
            let (r, e) = self.read_numeric_literal(q);
            self.cursor = e;
            return Some(r);
        }
        if letter(c) || c == '_' {
            let (r, e) = self.read_identifier_or_kw(q);
            self.cursor = e;
            return Some(r);
        }

        self.cursor = q + 1;
        Some(Err(LexError::UnknownChar(c)))
    }
}

/// Tokenize a whole source text into its stream of tokens and in-band
/// lexical errors.
#[verifier::loop_isolation(false)]
pub fn tokenize(source: Vec<char>) -> (out: Vec<Result<Token, LexError>>)
    ensures
        stream_view(out@) == lex(source@),
{
    let ghost s = source@;
    let mut toks = Tokens::new(source);
    let mut out: Vec<Result<Token, LexError>> = Vec::new();
    loop
        invariant
            toks.wf(),
            toks.source@ == s,
            stream_view(out@) + lex_from(s, toks.cursor as int) == lex(s),
        decreases s.len() - toks.cursor,
    {
        let ghost c0 = toks.cursor as int;
        match toks.next() {
            None => {
                proof {
                    assert(lex_step(s, toks.cursor as int) is End);
                    assert(lex_from(s, toks.cursor as int) =~= Seq::<
                        Result<TokenView, LexErrorView>,
                    >::empty());
                    assert(stream_view(out@) =~= stream_view(out@) + lex_from(
                        s,
                        toks.cursor as int,
                    ));
                }
                return out;
            },
            Some(r) => {
                proof {
                    lemma_lex_step_advances(s, c0);
                }
                let ghost prev = out@;
                out.push(r);
                proof {
                    assert(stream_view(out@) =~= stream_view(prev) + seq![item_view(r)]);
                }
            },
        }
    }
}

} // verus!
