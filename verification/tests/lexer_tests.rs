use monkey_json::lexer::{Lexer, LexerError, Token};

fn tokens_of(text: &str) -> Vec<Token> {
    Lexer::new(text).tokenize().unwrap()
}

fn failure_of(text: &str) -> String {
    Lexer::new(text).tokenize().unwrap_err().msg
}

/// The number that a token stands for.
fn number_of(token: &Token) -> f64 {
    match token {
        Token::Number(text) => text.parse::<f64>().unwrap(),
        other => panic!("not a number: {:?}", other),
    }
}

#[test]
fn test_null() {
    let null = "null";
    let tokens = Lexer::new(null).tokenize().unwrap();
    assert_eq!(tokens[0], Token::Null);
}

#[test]
fn test_bool() {
    let false_str: &str = "false";
    let tokens = Lexer::new(false_str).tokenize().unwrap();
    assert_eq!(tokens[0], Token::Bool(false));

    let true_str: &str = "true";
    let tokens = Lexer::new(true_str).tokenize().unwrap();
    assert_eq!(tokens[0], Token::Bool(true));
}

#[test]
fn test_number() {
    let number_strs = [
        ("3", 3.0),
        ("+3", 3.0),
        ("-3", -3.0),
        ("1e3", 1000.0),
        ("0.3", 0.3),
        (".3", 0.3),
    ];
    for (input, expect) in number_strs {
        let tokens = Lexer::new(input).tokenize().unwrap();
        assert_eq!(number_of(&tokens[0]), expect);
    }

    let tokens = Lexer::new("+-3").tokenize();
    assert!(tokens.is_err());
}

#[test]
fn test_string() {
    let string_strs = [
        ("\"hello world\"", Token::String("hello world".to_string())),
        ("\"あいうえお\"", Token::String("あいうえお".to_string())),
        (
            r#""\u3042\u3044\u3046abc""#,
            Token::String("あいうabc".to_string()),
        ),
        (
            r#""\uD83D\uDE04\uD83D\uDE07\uD83D\uDC7A""#,
            Token::String(r#"😄😇👺"#.to_string()),
        ),
    ];
    for (input, expect) in string_strs {
        let tokens = Lexer::new(input).tokenize().unwrap();
        assert_eq!(tokens[0], expect);
    }

    let tokens = Lexer::new("\"hello world").tokenize();
    assert!(tokens.is_err());
}

#[test]
fn keywords_give_exactly_one_token() {
    assert_eq!(tokens_of("null"), vec![Token::Null]);
    assert_eq!(tokens_of("true"), vec![Token::Bool(true)]);
    assert_eq!(tokens_of("false"), vec![Token::Bool(false)]);
}

#[test]
fn number_tokens_keep_their_literal() {
    assert_eq!(tokens_of("1e3"), vec![Token::Number("1e3".to_string())]);
    assert_eq!(tokens_of("-12.5E+2"), vec![Token::Number("-12.5E+2".to_string())]);
    assert_eq!(tokens_of("1."), vec![Token::Number("1.".to_string())]);
    assert_eq!(number_of(&tokens_of("-12.5E+2")[0]), -1250.0);
}

#[test]
fn malformed_numbers_fail() {
    for text in ["+-3", ".", "-", "+", "1e", "1e+", "1.2.3", "1-2", "--1", "1e5e", ".e1"] {
        assert_eq!(failure_of(text), "error: invalid float literal", "{}", text);
        assert!(text.parse::<f64>().is_err(), "{}", text);
    }
}

#[test]
fn numeric_characters_beyond_ascii_are_read_as_numbers_and_fail() {
    assert_eq!(failure_of("٣"), "error: invalid float literal");
    assert_eq!(failure_of("1½"), "error: invalid float literal");
}

#[test]
fn punctuation_gives_its_own_tokens() {
    assert_eq!(
        tokens_of("{}[],:"),
        vec![
            Token::LeftBrace,
            Token::RightBrace,
            Token::LeftBracket,
            Token::RightBracket,
            Token::Comma,
            Token::Colon,
        ]
    );
}

#[test]
fn closing_brace_is_not_an_opening_brace() {
    let tokens = tokens_of("{}");
    assert_eq!(tokens, vec![Token::LeftBrace, Token::RightBrace]);
    assert_ne!(tokens[1], Token::LeftBrace);
}

#[test]
fn white_space_is_left_out() {
    assert_eq!(tokens_of(""), Vec::<Token>::new());
    assert_eq!(tokens_of(" \t\r\n"), Vec::<Token>::new());
    assert_eq!(tokens_of("\u{a0}\u{3000}\u{2028}\u{85}"), Vec::<Token>::new());
    assert_eq!(
        tokens_of(" [ 1 ,\n\ttrue ] "),
        vec![
            Token::LeftBracket,
            Token::Number("1".to_string()),
            Token::Comma,
            Token::Bool(true),
            Token::RightBracket,
        ]
    );
    assert!(!tokens_of(" [ 1 ,\n\ttrue ] ").contains(&Token::WhiteSpace));
}

#[test]
fn zero_width_space_is_no_white_space() {
    assert_eq!(failure_of("\u{200b}"), "error: an unexpected char \u{200b}");
}

#[test]
fn unexpected_character_fails() {
    assert_eq!(failure_of("x"), "error: an unexpected char x");
    assert_eq!(failure_of("[1, ?]"), "error: an unexpected char ?");
    assert_eq!(failure_of("E5"), "error: an unexpected char E");
}

#[test]
fn misspelt_keywords_fail_with_what_was_read() {
    assert_eq!(failure_of("nul"), "error: a null value is expected nul");
    assert_eq!(failure_of("nulx"), "error: a null value is expected nulx");
    assert_eq!(failure_of("n"), "error: a null value is expected n");
    assert_eq!(failure_of("tru"), "error: a boolean true is expected tru");
    assert_eq!(failure_of("trux,"), "error: a boolean true is expected trux");
    assert_eq!(failure_of("fals"), "error: a boolean false is expected fals");
    assert_eq!(failure_of("fal se"), "error: a boolean false is expected fal s");
}

#[test]
fn keyword_is_read_by_its_length_only() {
    assert_eq!(tokens_of("nullnull"), vec![Token::Null, Token::Null]);
    assert_eq!(tokens_of("truefalse"), vec![Token::Bool(true), Token::Bool(false)]);
}

#[test]
fn plain_escapes_are_kept_as_written() {
    assert_eq!(tokens_of(r#""a\nb""#), vec![Token::String("a\\nb".to_string())]);
    assert_eq!(tokens_of(r#""\"\\\/\b\f\n\r\t""#), vec![Token::String(r#"\"\\\/\b\f\n\r\t"#.to_string())]);
}

#[test]
fn unknown_escape_fails() {
    assert_eq!(failure_of(r#""\x""#), "error: an unexpected escaped char x");
}

#[test]
fn escape_at_the_end_fails() {
    assert_eq!(failure_of("\"abc\\"), "error: a next char is expected");
}

#[test]
fn unterminated_string_fails() {
    assert_eq!(failure_of("\"hello world"), "error: not close string");
    assert_eq!(failure_of("\""), "error: not close string");
    assert_eq!(failure_of("\"\\uD83D"), "error: not close string");
}

#[test]
fn unicode_escape_needs_four_hexadecimal_digits() {
    assert_eq!(tokens_of(r#""\u0041\u00e9\u00E9""#), vec![Token::String("Aéé".to_string())]);
    assert_eq!(failure_of(r#""\u12""#), "error: a unicode character is expected 12\"");
    assert_eq!(failure_of(r#""\u12zz""#), "error: a unicode character is expected 12zz");
    assert_eq!(failure_of(r#""\uzzzz""#), "error: a unicode character is expected zzzz");
    assert_eq!(failure_of(r#""\u+123""#), "error: a unicode character is expected +123");
    assert_eq!(failure_of("\"\\u"), "error: a unicode character is expected ");
}

#[test]
fn pending_code_units_are_decoded_before_what_follows() {
    assert_eq!(tokens_of(r#""x\u3042y\u3044\n\u3046""#), vec![Token::String("xあyい\\nう".to_string())]);
}

#[test]
fn lone_surrogates_fail() {
    let message = "error: invalid utf-16: lone surrogate found";
    assert_eq!(failure_of(r#""\uD83D""#), message);
    assert_eq!(failure_of(r#""\uDE04""#), message);
    assert_eq!(failure_of(r#""\uD83Dx\uDE04""#), message);
    assert_eq!(failure_of(r#""\uD83D\n""#), message);
    assert_eq!(failure_of(r#""\uDE04\uD83D""#), message);
    assert_eq!(failure_of(r#""\uD83D\uD83D""#), message);
}

#[test]
fn first_error_wins() {
    assert_eq!(failure_of("[nul, +-3]"), "error: a null value is expected nul,");
    assert_eq!(failure_of("+-3 ?"), "error: invalid float literal");
}

#[test]
fn push_utf16_leaves_text_alone_without_code_units() {
    let mut text = String::from("abc");
    let mut units: Vec<u16> = vec![];
    assert!(Lexer::push_utf16(&mut text, &mut units).is_ok());
    assert_eq!(text, "abc");
    assert!(units.is_empty());
}

#[test]
fn push_utf16_appends_and_clears() {
    let mut text = String::from("abc");
    let mut units: Vec<u16> = vec![0x3042, 0xD83D, 0xDE04, 0x41];
    assert!(Lexer::push_utf16(&mut text, &mut units).is_ok());
    assert_eq!(text, "abcあ😄A");
    assert!(units.is_empty());
}

#[test]
fn push_utf16_keeps_both_on_failure() {
    let mut text = String::from("abc");
    let mut units: Vec<u16> = vec![0x3042, 0xD83D];
    let failure = Lexer::push_utf16(&mut text, &mut units).unwrap_err();
    assert_eq!(failure.msg, "error: invalid utf-16: lone surrogate found");
    assert_eq!(text, "abc");
    assert_eq!(units, vec![0x3042, 0xD83D]);
}

#[test]
fn lexer_error_carries_its_message() {
    let e: LexerError = LexerError::new("error: something");
    assert_eq!(e.msg, "error: something");
}

#[test]
fn tokens_describe_themselves() {
    assert_eq!(Token::String("a b".to_string()).describe(), "String(\"a b\")");
    assert_eq!(Token::Number("1e3".to_string()).describe(), "Number(1e3)");
    assert_eq!(Token::Bool(true).describe(), "Bool(true)");
    assert_eq!(Token::Bool(false).describe(), "Bool(false)");
    assert_eq!(Token::Null.describe(), "Null");
    assert_eq!(Token::WhiteSpace.describe(), "WhiteSpace");
    assert_eq!(Token::LeftBrace.describe(), "LeftBrace");
    assert_eq!(Token::RightBrace.describe(), "RightBrace");
    assert_eq!(Token::LeftBracket.describe(), "LeftBracket");
    assert_eq!(Token::RightBracket.describe(), "RightBracket");
    assert_eq!(Token::Comma.describe(), "Comma");
    assert_eq!(Token::Colon.describe(), "Colon");
}

#[test]
fn a_second_call_finds_nothing_left() {
    let mut lexer = Lexer::new("[1]");
    assert_eq!(lexer.tokenize().unwrap().len(), 3);
    assert_eq!(lexer.tokenize().unwrap(), Vec::<Token>::new());
}

#[test]
fn white_space_is_exactly_the_unicode_set() {
    let white = |n: u32| {
        (0x09..=0x0D).contains(&n)
            || n == 0x20
            || n == 0x85
            || n == 0xA0
            || n == 0x1680
            || (0x2000..=0x200A).contains(&n)
            || n == 0x2028
            || n == 0x2029
            || n == 0x202F
            || n == 0x205F
            || n == 0x3000
    };
    let mut text = String::new();
    for n in 0..=0x10FFFF_u32 {
        if let Some(c) = char::from_u32(n) {
            text.clear();
            text.push(c);
            let left_out = matches!(Lexer::new(&text).tokenize(), Ok(tokens) if tokens.is_empty());
            assert_eq!(left_out, white(n), "{:#x}", n);
        }
    }
}

#[test]
fn ascii_numeric_characters_are_the_digits() {
    let mut text = String::new();
    for n in 0..0x80_u32 {
        let c = char::from_u32(n).unwrap();
        text.clear();
        text.push(c);
        let is_number = matches!(
            Lexer::new(&text).tokenize().as_deref(),
            Ok([Token::Number(literal)]) if *literal == text
        );
        assert_eq!(is_number, c.is_ascii_digit(), "{:?}", c);
    }
}

#[test]
fn every_literal_alone_is_one_number() {
    for mantissa in ["0", "12", "3.", ".4", "5.25", "007"] {
        for sign in ["", "+", "-"] {
            for exponent in ["", "e0", "E12", "e+3", "E-3"] {
                let text = format!("{}{}{}", sign, mantissa, exponent);
                assert_eq!(tokens_of(&text), vec![Token::Number(text.clone())]);
                assert!(text.parse::<f64>().is_ok(), "{}", text);
            }
        }
    }
}

#[test]
fn text_without_quote_or_backslash_is_one_string() {
    for text in ["", " ", "hello world", "{[,:]}", "null", "-1e3", "あ😄", "\u{0}\n\t"] {
        let quoted = format!("\"{}\"", text);
        assert_eq!(tokens_of(&quoted), vec![Token::String(text.to_string())]);
    }
}

#[test]
fn string_without_closing_quote_never_lexes() {
    for text in ["\"", "\"abc", "\"a\\nb", "\"\\u0041", "\"\\uD83D\\uDE04 x"] {
        assert!(Lexer::new(text).tokenize().is_err(), "{}", text);
    }
}

#[test]
fn surrogate_pair_gives_one_character() {
    let tokens = tokens_of(r#""\uD83D\uDE04""#);
    match &tokens[0] {
        Token::String(text) => {
            assert_eq!(text.chars().count(), 1);
            assert_eq!(text.chars().next(), char::from_u32(0x10000 + (0xD83D - 0xD800) * 0x400 + (0xDE04 - 0xDC00)));
            assert_eq!(text.chars().next(), Some('\u{1F604}'));
        },
        other => panic!("not a string: {:?}", other),
    }
}

#[test]
fn string_whose_quotes_are_all_escaped_fails() {
    for text in [r#""abc\""#, r#""\"\"\""#, r#""a\\\""#, r#""\""#] {
        assert_eq!(failure_of(text), "error: not close string", "{}", text);
    }
    assert_eq!(tokens_of(r#""a\\""#), vec![Token::String(r#"a\\"#.to_string())]);
}

#[test]
fn number_scanning_reads_the_longest_run_and_leaves_the_rest() {
    assert_eq!(
        tokens_of("12,3"),
        vec![Token::Number("12".to_string()), Token::Comma, Token::Number("3".to_string())]
    );
    assert_eq!(
        tokens_of("[-1.5e3]"),
        vec![Token::LeftBracket, Token::Number("-1.5e3".to_string()), Token::RightBracket]
    );
    assert_eq!(
        tokens_of("1 2"),
        vec![Token::Number("1".to_string()), Token::Number("2".to_string())]
    );
    assert_eq!(failure_of("1-2,3"), "error: invalid float literal");
    assert_eq!(failure_of("1e,3"), "error: invalid float literal");
    assert_eq!(failure_of("12x"), "error: an unexpected char x");
}

#[test]
fn keyword_is_given_exactly_where_the_input_goes_on_with_it() {
    assert_eq!(tokens_of("true,"), vec![Token::Bool(true), Token::Comma]);
    assert_eq!(tokens_of("false]"), vec![Token::Bool(false), Token::RightBracket]);
    assert_eq!(tokens_of("null}"), vec![Token::Null, Token::RightBrace]);
    assert_eq!(failure_of("trux"), "error: a boolean true is expected trux");
    assert_eq!(failure_of("falsy"), "error: a boolean false is expected falsy");
    assert_eq!(failure_of("nule"), "error: a null value is expected nule");
    assert_eq!(failure_of("t"), "error: a boolean true is expected t");
    assert_eq!(failure_of("f"), "error: a boolean false is expected f");
}
