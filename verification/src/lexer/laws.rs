//! Laws the tokenizer obeys, each proved against the model in `model`.

use vstd::prelude::*;

use crate::chars::{is_ascii_letter, is_blank, is_digit, is_letter};
use crate::lexer::model::{
    after_fraction, after_int_part, comment_step, digit_run_end, digits_val, exponent_from,
    ident_end, ident_step, is_ident_char, is_valid_float, keyword_of, lemma_digit_run_end,
    lemma_ident_end, lemma_line_end, lemma_num_scan, lemma_skip_blanks, lemma_slash_run_end, lex,
    lex_from, lex_step, line_end, num_continues, num_end, num_scan, number_step, punct_of,
    scan_str, skip_blanks, slash_run_end, trim, LexStep,
};
use crate::lexer::types::{CommentView, LexErrorView, LiteralView, TokenView};

verus! {

/// A text whose single step consumes it whole tokenizes to that one
/// element.
pub proof fn lemma_lex_whole(s: Seq<char>, r: Result<TokenView, LexErrorView>)
    requires
        lex_step(s, 0) == LexStep::Item(r, s.len() as int),
    ensures
        lex(s) == seq![r],
{
    assert(skip_blanks(s, s.len() as int) == s.len());
    assert(lex_step(s, s.len() as int) is End);
    assert(lex_from(s, s.len() as int) =~= Seq::<Result<TokenView, LexErrorView>>::empty());
    assert(lex(s) =~= seq![r]);
}

/// Law: a nonempty all-digit text whose value fits in a 64-bit signed
/// integer tokenizes to exactly one integer literal holding that value.
/// The decimal spelling of every non-negative 64-bit integer is such a
/// text.
pub proof fn lemma_int_literal(s: Seq<char>)
    requires
        s.len() > 0,
        forall|i: int| 0 <= i < s.len() ==> is_digit(#[trigger] s[i]),
        digits_val(s) <= i64::MAX,
    ensures
        lex(s) == seq![Ok::<TokenView, LexErrorView>(
            TokenView::Literal(LiteralView::Int(digits_val(s) as i64)),
        )],
{
    let c = s[0];
    assert(!is_blank(c));
    assert(skip_blanks(s, 0) == 0);
    assert(punct_of(c) is None);
    lemma_num_scan(s, 1);
    assert forall|j: int| 1 <= j < s.len() implies num_continues(s[j - 1], #[trigger] s[j]) by {
        assert(is_digit(s[j]));
    }
    assert(num_scan(s, 1) == s.len());
    let span = s.subrange(0, s.len() as int);
    assert(span =~= s);
    assert(!s.contains('.') && !s.contains('E') && !s.contains('e')) by {
        if s.contains('.') {
            let j = choose|j: int| 0 <= j < s.len() && s[j] == '.';
            assert(is_digit(s[j]));
        }
        if s.contains('E') {
            let j = choose|j: int| 0 <= j < s.len() && s[j] == 'E';
            assert(is_digit(s[j]));
        }
        if s.contains('e') {
            let j = choose|j: int| 0 <= j < s.len() && s[j] == 'e';
            assert(is_digit(s[j]));
        }
    }
    assert(lex_step(s, 0) == LexStep::Item(
        Ok::<TokenView, LexErrorView>(TokenView::Literal(LiteralView::Int(digits_val(s) as i64))),
        s.len() as int,
    ));
    lemma_lex_whole(
        s,
        Ok::<TokenView, LexErrorView>(TokenView::Literal(LiteralView::Int(digits_val(s) as i64))),
    );
}

/// Law: a well-formed float spelling that starts with a digit and holds a
/// decimal point or exponent marker tokenizes to exactly one float literal
/// carrying that exact spelling. The printed form of every finite positive
/// float with a point or exponent in its text is such a spelling.
pub proof fn lemma_float_literal(s: Seq<char>)
    requires
        s.len() > 0,
        is_digit(s[0]),
        is_valid_float(s),
        s.contains('.') || s.contains('E') || s.contains('e'),
    ensures
        lex(s) == seq![Ok::<TokenView, LexErrorView>(
            TokenView::Literal(LiteralView::Float(s)),
        )],
{
    let c = s[0];
    assert(!is_blank(c));
    assert(skip_blanks(s, 0) == 0);
    assert(punct_of(c) is None);

    let d1 = digit_run_end(s, 0);
    lemma_digit_run_end(s, 0);
    assert(d1 > 0);
    assert(after_int_part(s, d1));

    // Every position continues the numeric scan.
    assert forall|k: int| 1 <= k < s.len() implies num_continues(s[k - 1], #[trigger] s[k]) by {
        lemma_float_char_classes(s, k);
    }
    lemma_num_scan(s, 1);
    assert(num_scan(s, 1) == s.len());
    let span = s.subrange(0, s.len() as int);
    assert(span =~= s);
    assert(lex_step(s, 0) == LexStep::Item(
        Ok::<TokenView, LexErrorView>(TokenView::Literal(LiteralView::Float(s))),
        s.len() as int,
    ));
    lemma_lex_whole(s, Ok::<TokenView, LexErrorView>(TokenView::Literal(LiteralView::Float(s))));
}

/// In a well-formed float spelling, every character after the first either
/// is a digit, a point or an exponent marker, or is a sign standing right
/// after an exponent marker.
proof fn lemma_float_char_classes(s: Seq<char>, k: int)
    requires
        s.len() > 0,
        is_digit(s[0]),
        is_valid_float(s),
        1 <= k < s.len(),
    ensures
        num_continues(s[k - 1], s[k]),
{
    let d1 = digit_run_end(s, 0);
    lemma_digit_run_end(s, 0);
    if k < d1 {
        assert(is_digit(s[k]));
    } else {
        assert(after_int_part(s, d1));
        assert(d1 < s.len());
        if s[d1] == '.' {
            let d2 = digit_run_end(s, d1 + 1);
            lemma_digit_run_end(s, d1 + 1);
            assert(after_fraction(s, d2));
            if k == d1 || k < d2 {
            } else {
                assert(d2 < s.len());
                assert(exponent_from(s, d2));
                lemma_exponent_chars(s, d2, k);
            }
        } else {
            assert(exponent_from(s, d1));
            lemma_exponent_chars(s, d1, k);
        }
    }
}

/// Characters of a well-formed exponent part all continue the numeric
/// scan.
proof fn lemma_exponent_chars(s: Seq<char>, i: int, k: int)
    requires
        0 <= i < s.len(),
        exponent_from(s, i),
        i <= k < s.len(),
    ensures
        num_continues(s[k - 1], s[k]),
{
    let j = if i + 1 < s.len() && (s[i + 1] == '+' || s[i + 1] == '-') {
        i + 2
    } else {
        i + 1
    };
    lemma_digit_run_end(s, j);
    if k == i {
    } else if k < j {
        assert(s[k - 1] == 'e' || s[k - 1] == 'E');
    } else {
        assert(is_digit(s[k]));
    }
}

/// Law: a nonempty text of ASCII letters, digits and underscores that does
/// not start with a digit and reserves no keyword tokenizes to exactly one
/// identifier holding that exact text.
pub proof fn lemma_identifier(s: Seq<char>)
    requires
        s.len() > 0,
        is_ascii_letter(s[0]) || s[0] == '_',
        forall|i: int|
            0 <= i < s.len() ==> (is_ascii_letter(#[trigger] s[i]) || is_digit(s[i]) || s[i]
                == '_'),
        keyword_of(s) is None,
    ensures
        lex(s) == seq![Ok::<TokenView, LexErrorView>(TokenView::Identifier(s))],
{
    let c = s[0];
    assert(!is_blank(c));
    assert(skip_blanks(s, 0) == 0);
    assert(punct_of(c) is None);
    assert(!is_digit(c));
    assert(is_letter(c) || c == '_');

    lemma_ident_end(s, 0);
    assert forall|i: int| 0 <= i < s.len() implies is_ident_char(#[trigger] s[i]) by {
        assert(is_ascii_letter(s[i]) || is_digit(s[i]) || s[i] == '_');
    }
    assert(ident_end(s, 0) == s.len());
    let text = s.subrange(0, s.len() as int);
    assert(text =~= s);
    assert(lex_step(s, 0) == LexStep::Item(
        Ok::<TokenView, LexErrorView>(TokenView::Identifier(s)),
        s.len() as int,
    ));
    lemma_lex_whole(s, Ok::<TokenView, LexErrorView>(TokenView::Identifier(s)));
}

/// Scanning a string literal whose remaining characters are plain — no
/// quote, newline or backslash — up to its closing quote collects exactly
/// those characters.
proof fn lemma_scan_plain(s: Seq<char>, i: int, acc: Seq<char>)
    requires
        0 <= i < s.len(),
        s[s.len() - 1] == '"',
        forall|j: int|
            i <= j < s.len() - 1 ==> (#[trigger] s[j]) != '"' && s[j] != '\n' && s[j] != '\\',
    ensures
        scan_str(s, i, acc, None) == (
            Ok::<TokenView, LexErrorView>(
                TokenView::Literal(LiteralView::Str(acc + s.subrange(i, s.len() - 1))),
            ),
            s.len() as int,
        ),
    decreases s.len() - i,
{
    if i == s.len() - 1 {
        assert(acc + s.subrange(i, s.len() - 1) =~= acc);
    } else {
        lemma_scan_plain(s, i + 1, acc.push(s[i]));
        assert(acc.push(s[i]) + s.subrange(i + 1, s.len() - 1) =~= acc + s.subrange(
            i,
            s.len() - 1,
        ));
    }
}

/// Law: a quoted text whose inside is ASCII letters, digits and
/// underscores tokenizes to exactly one string literal holding the inside
/// unchanged.
pub proof fn lemma_plain_string(s: Seq<char>, inner: Seq<char>)
    requires
        s == seq!['"'] + inner + seq!['"'],
        forall|i: int|
            0 <= i < inner.len() ==> (is_ascii_letter(#[trigger] inner[i]) || is_digit(inner[i])
                || inner[i] == '_'),
    ensures
        lex(s) == seq![Ok::<TokenView, LexErrorView>(
            TokenView::Literal(LiteralView::Str(inner)),
        )],
{
    assert(s.len() == inner.len() + 2);
    assert(s[0] == '"');
    assert(!is_blank(s[0]));
    assert(skip_blanks(s, 0) == 0);
    assert(s[s.len() - 1] == '"');
    assert forall|j: int|
        1 <= j < s.len() - 1 implies (#[trigger] s[j]) != '"' && s[j] != '\n' && s[j]
        != '\\' by {
        assert(s[j] == inner[j - 1]);
        assert(is_ascii_letter(inner[j - 1]) || is_digit(inner[j - 1]) || inner[j - 1] == '_');
    }
    lemma_scan_plain(s, 1, Seq::empty());
    assert(Seq::empty() + s.subrange(1, s.len() - 1) =~= inner);
    assert(lex_step(s, 0) == LexStep::Item(
        Ok::<TokenView, LexErrorView>(TokenView::Literal(LiteralView::Str(inner))),
        s.len() as int,
    ));
    lemma_lex_whole(s, Ok::<TokenView, LexErrorView>(TokenView::Literal(LiteralView::Str(inner))));
}

/// Law: a line that starts with a run of slashes and holds no newline
/// tokenizes to exactly one comment whose body is the remainder with
/// surrounding whitespace trimmed; exactly three slashes make it a
/// docstring, any other count a regular comment.
pub proof fn lemma_comment_classification(s: Seq<char>, n: int)
    requires
        2 <= n <= s.len(),
        forall|i: int| 0 <= i < n ==> #[trigger] s[i] == '/',
        n < s.len() ==> s[n] != '/',
        forall|i: int| 0 <= i < s.len() ==> #[trigger] s[i] != '\n',
    ensures
        n == 3 ==> lex(s) == seq![Ok::<TokenView, LexErrorView>(
            TokenView::Comment(CommentView::Docstring(trim(s.subrange(n, s.len() as int)))),
        )],
        n != 3 ==> lex(s) == seq![Ok::<TokenView, LexErrorView>(
            TokenView::Comment(CommentView::Regular(trim(s.subrange(n, s.len() as int)))),
        )],
{
    assert(s[0] == '/');
    assert(!is_blank(s[0]));
    assert(skip_blanks(s, 0) == 0);
    assert(s[1] == '/');
    lemma_slash_run_end(s, 0);
    assert(slash_run_end(s, 0) == n) by {
        if slash_run_end(s, 0) < n {
            assert(s[slash_run_end(s, 0)] == '/');
        }
    }
    lemma_line_end(s, 0);
    assert(line_end(s, 0) == s.len());
    let body = trim(s.subrange(n, s.len() as int));
    if n == 3 {
        assert(lex_step(s, 0) == LexStep::Item(
            Ok::<TokenView, LexErrorView>(TokenView::Comment(CommentView::Docstring(body))),
            s.len() as int,
        ));
        lemma_lex_whole(
            s,
            Ok::<TokenView, LexErrorView>(TokenView::Comment(CommentView::Docstring(body))),
        );
    } else {
        assert(lex_step(s, 0) == LexStep::Item(
            Ok::<TokenView, LexErrorView>(TokenView::Comment(CommentView::Regular(body))),
            s.len() as int,
        ));
        lemma_lex_whole(
            s,
            Ok::<TokenView, LexErrorView>(TokenView::Comment(CommentView::Regular(body))),
        );
    }
}

} // verus!
