use flick::lexer::tokens::tokenize;
use flick::lexer::types::{Bracket, Comment, Keyword, LexError, Literal, Punctuation, Token};

fn cs(s: &str) -> Vec<char> {
    s.chars().collect()
}

fn lex(source: &str) -> Vec<Result<Token, LexError>> {
    tokenize(cs(source))
}

#[test]
fn err_given_unknown_str_escape() {
    let source = r#""\e""#;
    let expected = vec![Err(LexError::UnknownEscape('e'))];
    assert_eq!(lex(source), expected);
}

#[test]
fn err_given_incomplete_str_unicode_escape() {
    let source = r#""\u3b9""#;
    let expected = vec![Err(LexError::IncompleteEscape)];
    assert_eq!(lex(source), expected);
}

#[test]
fn err_given_incomplete_str_hex_escape() {
    let source = r#""\x9""#;
    let expected = vec![Err(LexError::IncompleteEscape)];
    assert_eq!(lex(source), expected);
}

#[test]
fn err_given_unterminated_str_literal() {
    let source = "\"test\n\"";
    let expected = vec![
        Err(LexError::UnterminatedStrLiteral),
        Ok(Token::Punctuation(Punctuation::Newline)),
        Err(LexError::UnterminatedStrLiteral),
    ];
    assert_eq!(lex(source), expected);
}

#[test]
fn err_given_unknown_char() {
    let source = '∂';
    let expected = vec![Err(LexError::UnknownChar(source))];
    assert_eq!(lex(&source.to_string()), expected);
}

#[test]
fn err_given_float_with_multiple_e() {
    let source = "1.2312E-33333E+9999";
    let expected = vec![Err(LexError::FloatParsing(cs(source)))];
    assert_eq!(lex(source), expected);
}

#[test]
fn err_given_float_with_consecutive_e() {
    let source = "1.2312Ee9999";
    let expected = vec![Err(LexError::FloatParsing(cs(source)))];
    assert_eq!(lex(source), expected);
}

#[test]
fn err_given_float_with_e_pm() {
    let source = "1.2312E+-9999";
    let expected = vec![
        Err(LexError::FloatParsing(cs("1.2312E+"))),
        Ok(Token::Punctuation(Punctuation::Dash)),
        Ok(Token::Literal(Literal::Int(9999))),
    ];
    assert_eq!(lex(source), expected);
}

#[test]
fn err_given_float_with_multiple_decimals() {
    let source = "123.456.789";
    let expected = vec![Err(LexError::FloatParsing(cs(source)))];
    assert_eq!(lex(source), expected);
}

#[test]
fn parses_regular_comment() {
    let source = "//      It is way too late    ";
    let expected = vec![Ok(Token::Comment(Comment::Regular(cs("It is way too late"))))];
    assert_eq!(lex(source), expected);
}

#[test]
fn parses_more_than_three_slashes_as_regular_comment() {
    let source = "///////////  Thomas is the best!    ";
    let expected = vec![Ok(Token::Comment(Comment::Regular(cs("Thomas is the best!"))))];
    assert_eq!(lex(source), expected);
}

#[test]
fn parses_docstring_comment() {
    let source = "/// Max is the best! ";
    let expected = vec![Ok(Token::Comment(Comment::Docstring(cs("Max is the best!"))))];
    assert_eq!(lex(source), expected);
}

#[test]
fn parses_multiline_comment() {
    let source = "/// Line 1\n// Line 2";
    let expected = vec![
        Ok(Token::Comment(Comment::Docstring(cs("Line 1")))),
        Ok(Token::Punctuation(Punctuation::Newline)),
        Ok(Token::Comment(Comment::Regular(cs("Line 2")))),
    ];
    assert_eq!(lex(source), expected);
}

#[test]
fn parses_escape_characters() {
    let source = r#""\\\n\r\t\0\"""#;
    let expected = vec![Ok(Token::Literal(Literal::Str(cs("\\\n\r\t\0\""))))];
    assert_eq!(lex(source), expected);
}

#[test]
fn parses_hex_escape_characters() {
    let source = r#""\x66\x6c\x69\x63\x6b""#;
    let expected = vec![Ok(Token::Literal(Literal::Str(cs("flick"))))];
    assert_eq!(lex(source), expected);
}

#[test]
fn parses_unicode_escape_characters() {
    let source = r#""\u2702\u0046\u002f""#;
    let expected = vec![Ok(Token::Literal(Literal::Str(cs("✂F/"))))];
    assert_eq!(lex(source), expected);
}

#[test]
fn parses_short_program() {
    let source = "call(3)\nprint(5)";
    let expected = vec![
        Ok(Token::Identifier(cs("call"))),
        Ok(Token::Punctuation(Punctuation::OpenBracket(Bracket::Round))),
        Ok(Token::Literal(Literal::Int(3))),
        Ok(Token::Punctuation(Punctuation::CloseBracket(Bracket::Round))),
        Ok(Token::Punctuation(Punctuation::Newline)),
        Ok(Token::Identifier(cs("print"))),
        Ok(Token::Punctuation(Punctuation::OpenBracket(Bracket::Round))),
        Ok(Token::Literal(Literal::Int(5))),
        Ok(Token::Punctuation(Punctuation::CloseBracket(Bracket::Round))),
    ];
    assert_eq!(lex(source), expected);
}

#[test]
fn parses_map_statement() {
    let source = "map<str, int> m = {\"hi\": 2, \"bye\": 100}";
    let expected = vec![
        Ok(Token::Keyword(Keyword::MapKw)),
        Ok(Token::Punctuation(Punctuation::OpenBracket(Bracket::Angle))),
        Ok(Token::Keyword(Keyword::StrKw)),
        Ok(Token::Punctuation(Punctuation::Comma)),
        Ok(Token::Keyword(Keyword::IntKw)),
        Ok(Token::Punctuation(Punctuation::CloseBracket(Bracket::Angle))),
        Ok(Token::Identifier(cs("m"))),
        Ok(Token::Punctuation(Punctuation::Equals)),
        Ok(Token::Punctuation(Punctuation::OpenBracket(Bracket::Curly))),
        Ok(Token::Literal(Literal::Str(cs("hi")))),
        Ok(Token::Punctuation(Punctuation::Colon)),
        Ok(Token::Literal(Literal::Int(2))),
        Ok(Token::Punctuation(Punctuation::Comma)),
        Ok(Token::Literal(Literal::Str(cs("bye")))),
        Ok(Token::Punctuation(Punctuation::Colon)),
        Ok(Token::Literal(Literal::Int(100))),
        Ok(Token::Punctuation(Punctuation::CloseBracket(Bracket::Curly))),
    ];
    assert_eq!(lex(source), expected);
}

#[test]
fn parses_keyword() {
    let source = "if";
    let expected = vec![Ok(Token::Keyword(Keyword::If))];
    assert_eq!(lex(source), expected);
}

#[test]
fn parses_floats_in_scientific_notation_with_big_e() {
    let source = "1.1E12";
    let expected = vec![Ok(Token::Literal(Literal::Float(cs(source))))];
    assert_eq!(lex(source), expected);
    let value: f64 = source.parse().unwrap();
    assert_eq!(value, 1.1E12);
}

#[test]
fn parses_floats_in_scientific_notation_with_small_e() {
    let source = "3.9993e12";
    let expected = vec![Ok(Token::Literal(Literal::Float(cs(source))))];
    assert_eq!(lex(source), expected);
    let value: f64 = source.parse().unwrap();
    assert_eq!(value, 3.9993e12);
}

#[test]
fn parses_floats_in_scientific_notation_with_positive_e() {
    let source = "123456789E+11";
    let expected = vec![Ok(Token::Literal(Literal::Float(cs(source))))];
    assert_eq!(lex(source), expected);
    let value: f64 = source.parse().unwrap();
    assert_eq!(value, 123456789E+11);
}

#[test]
fn parses_floats_in_scientific_notation_with_negative_e() {
    let source = "6.67430e-11";
    let expected = vec![Ok(Token::Literal(Literal::Float(cs(source))))];
    assert_eq!(lex(source), expected);
    let value: f64 = source.parse().unwrap();
    assert_eq!(value, 6.67430e-11);
}

#[test]
fn parses_identifier_with_non_ascii_chars() {
    let source = "çaí";
    let expected = vec![Ok(Token::Identifier(cs(source)))];
    assert_eq!(lex(source), expected);
}

#[test]
fn parses_numbers() {
    for n in [0u64, 1, 7, 42, 123456, 9223372036854775807] {
        let source = n.to_string();
        let expected = vec![Ok(Token::Literal(Literal::Int(n as i64)))];
        assert_eq!(lex(&source), expected);
    }
}

#[test]
fn err_given_int_too_large_for_i64() {
    let source = "9223372036854775808";
    let expected = vec![Err(LexError::IntParsing(cs(source)))];
    assert_eq!(lex(source), expected);
}

#[test]
fn parses_float_spellings_to_their_values() {
    for source in ["1.5", "2.", "0.25", "3e7", "1.25e-3", "11E+2"] {
        let out = lex(source);
        assert_eq!(out, vec![Ok(Token::Literal(Literal::Float(cs(source))))]);
        let spelled: f64 = source.parse().unwrap();
        let direct: f64 = match source {
            "1.5" => 1.5,
            "2." => 2.0,
            "0.25" => 0.25,
            "3e7" => 3e7,
            "1.25e-3" => 1.25e-3,
            _ => 11E+2,
        };
        assert_eq!(spelled, direct);
    }
}

#[test]
fn parses_identifiers() {
    for source in ["a", "_x9", "Zz_", "loop_count", "_"] {
        let expected = vec![Ok(Token::Identifier(cs(source)))];
        assert_eq!(lex(source), expected);
    }
}

#[test]
fn parses_strings_without_escapes() {
    for inner in ["", "abc", "abc_123", "A9_z"] {
        let source = format!("\"{}\"", inner);
        let expected = vec![Ok(Token::Literal(Literal::Str(cs(inner))))];
        assert_eq!(lex(&source), expected);
    }
}

#[test]
fn err_given_surrogate_code_point_escape() {
    let source = r#""\uD800""#;
    let expected = vec![Err(LexError::InvalidCodePoint)];
    assert_eq!(lex(source), expected);
}

#[test]
fn lexes_nothing_from_blank_input() {
    assert_eq!(lex(""), vec![]);
    assert_eq!(lex("   \t  \r "), vec![]);
}

#[test]
fn stepping_matches_collecting() {
    let mut toks = flick::lexer::tokens::Tokens::new(cs("a + 1"));
    let mut stepped = Vec::new();
    while let Some(item) = toks.next() {
        stepped.push(item);
    }
    assert_eq!(stepped, lex("a + 1"));
}

#[test]
fn comment_trimming_strips_unicode_whitespace() {
    let source = "// \u{a0}hi\u{a0}";
    let expected = vec![Ok(Token::Comment(Comment::Regular(cs("hi"))))];
    assert_eq!(lex(source), expected);
}

#[test]
fn leading_zeros_read_as_their_value() {
    let expected = vec![Ok(Token::Literal(Literal::Int(7)))];
    assert_eq!(lex("007"), expected);
}
