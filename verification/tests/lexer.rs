use atom::lexer::{lex, parse_decimal, scan, scan_string, Class, Lexer, LexingError, Token};

#[test]
fn lexes_a_label_definition() {
    assert_eq!(lex("foo:"), Ok(vec![Token::Ident("foo"), Token::Colon]));
}

#[test]
fn lexes_a_number() {
    assert_eq!(lex("123"), Ok(vec![Token::Number(123)]));
}

#[test]
fn number_that_overflows_32_bits_fails() {
    assert_eq!(lex("4294967296"), Err(LexingError::Undefined));
    assert_eq!(lex("99999999999999999999999999"), Err(LexingError::Undefined));
    assert_eq!(lex("add 4294967296"), Err(LexingError::Undefined));
}

#[test]
fn largest_number_is_accepted() {
    assert_eq!(lex("4294967295"), Ok(vec![Token::Number(0xFFFF_FFFF)]));
    assert_eq!(lex("0"), Ok(vec![Token::Number(0)]));
}

#[test]
fn leading_zeros_do_not_overflow() {
    assert_eq!(lex("007"), Ok(vec![Token::Number(7)]));
    assert_eq!(lex("000000000000000000004294967295"), Ok(vec![Token::Number(0xFFFF_FFFF)]));
    assert_eq!(lex("000000000000000000004294967296"), Err(LexingError::Undefined));
}

#[test]
fn unterminated_string_fails() {
    assert_eq!(lex("\"abc"), Err(LexingError::Undefined));
    assert_eq!(lex("\""), Err(LexingError::Undefined));
    assert_eq!(lex("\"abc\\\""), Err(LexingError::Undefined));
    assert_eq!(lex("foo \"abc\\"), Err(LexingError::Undefined));
}

#[test]
fn string_keeps_its_raw_text() {
    assert_eq!(lex("\"\""), Ok(vec![Token::String("\"\"")]));
    assert_eq!(lex("\"hi there\""), Ok(vec![Token::String("\"hi there\"")]));
    assert_eq!(
        lex(" \"a\\\"b\\\\c\\n\\t\\r\\f\\b\" "),
        Ok(vec![Token::String("\"a\\\"b\\\\c\\n\\t\\r\\f\\b\"")])
    );
    assert_eq!(
        lex("\"h\u{e9}llo \u{4e16}\""),
        Ok(vec![Token::String("\"h\u{e9}llo \u{4e16}\"")])
    );
    assert_eq!(
        lex("a \"\u{1F600}\"b,\"\u{e9}\""),
        Ok(vec![
            Token::Ident("a"),
            Token::String("\"\u{1F600}\""),
            Token::Ident("b"),
            Token::Comma,
            Token::String("\"\u{e9}\""),
        ])
    );
    assert_eq!(lex("\"line\nbreak\""), Ok(vec![Token::String("\"line\nbreak\"")]));
}

#[test]
fn string_unicode_escape_takes_four_hex_digits() {
    assert_eq!(lex("\"\\u12aB\""), Ok(vec![Token::String("\"\\u12aB\"")]));
    assert_eq!(lex("\"\\u00e9x\""), Ok(vec![Token::String("\"\\u00e9x\"")]));
    assert_eq!(lex("\"\\u12\""), Err(LexingError::Undefined));
    assert_eq!(lex("\"\\u12g4\""), Err(LexingError::Undefined));
    assert_eq!(lex("\"\\u123"), Err(LexingError::Undefined));
    assert_eq!(lex("\"\\u1234"), Err(LexingError::Undefined));
}

#[test]
fn string_with_unknown_escape_fails() {
    assert_eq!(lex("\"\\x\""), Err(LexingError::Undefined));
    assert_eq!(lex("\"\\a\""), Err(LexingError::Undefined));
    assert_eq!(lex("\"\\ \""), Err(LexingError::Undefined));
}

#[test]
fn two_strings_in_a_row() {
    assert_eq!(
        lex("\"a\"\"b\""),
        Ok(vec![Token::String("\"a\""), Token::String("\"b\"")])
    );
}

#[test]
fn punctuation() {
    assert_eq!(lex(".,:"), Ok(vec![Token::Dot, Token::Comma, Token::Colon]));
    assert_eq!(lex(" . , : "), Ok(vec![Token::Dot, Token::Comma, Token::Colon]));
}

#[test]
fn whitespace_is_skipped() {
    assert_eq!(lex(""), Ok(vec![]));
    assert_eq!(lex(" \t\r\n\x0C"), Ok(vec![]));
    assert_eq!(
        lex("\n\tadd r1 ,\r\nr2\x0C"),
        Ok(vec![Token::Ident("add"), Token::Ident("r1"), Token::Comma, Token::Ident("r2")])
    );
}

#[test]
fn identifiers_are_lower_case_with_digits_and_underscores() {
    assert_eq!(lex("_"), Ok(vec![Token::Ident("_")]));
    assert_eq!(lex("a_b2_"), Ok(vec![Token::Ident("a_b2_")]));
    assert_eq!(lex("_9z"), Ok(vec![Token::Ident("_9z")]));
    assert_eq!(lex("az"), Ok(vec![Token::Ident("az")]));
    assert_eq!(lex("Foo"), Err(LexingError::Undefined));
    assert_eq!(lex("fOO"), Err(LexingError::Undefined));
    assert_eq!(lex("Z"), Err(LexingError::Undefined));
}

#[test]
fn longest_match_splits_tokens() {
    assert_eq!(lex("123abc"), Ok(vec![Token::Number(123), Token::Ident("abc")]));
    assert_eq!(lex("abc123"), Ok(vec![Token::Ident("abc123")]));
    assert_eq!(lex("a.b"), Ok(vec![Token::Ident("a"), Token::Dot, Token::Ident("b")]));
    assert_eq!(lex("1 2"), Ok(vec![Token::Number(1), Token::Number(2)]));
    assert_eq!(lex("12:"), Ok(vec![Token::Number(12), Token::Colon]));
}

#[test]
fn other_characters_fail() {
    let texts = [
        "#", "-1", "a;b", "{", "@", "'a'", "a\0", "\x7F", "\u{e9}", "a b c !", "`", "/", "\x0B",
        "caf\u{e9}", "\u{4e16}x",
    ];
    for text in texts {
        assert_eq!(lex(text), Err(LexingError::Undefined), "{:?}", text);
    }
}

#[test]
fn error_gives_no_tokens_even_after_good_ones() {
    assert_eq!(lex("foo: add r1, r2 $"), Err(LexingError::Undefined));
}

#[test]
fn tokens_borrow_from_the_source() {
    let text = String::from("loop: addi r0, 10, r4 \"s\"");
    let tokens = lex(&text).unwrap();
    assert_eq!(tokens.len(), 9);
    match (tokens[0], tokens[8]) {
        (Token::Ident(name), Token::String(string)) => {
            assert_eq!(name.as_ptr(), text.as_ptr());
            assert_eq!(string.as_ptr(), text[22..].as_ptr());
            assert_eq!((name, string), ("loop", "\"s\""));
        }
        _ => panic!("an identifier and a string"),
    }
}

#[test]
fn lexer_hands_out_one_token_at_a_time() {
    let mut lexer = Lexer::new(" foo : 7 ");
    assert_eq!(lexer.next(), Some(Ok(Token::Ident("foo"))));
    let saved = lexer;
    assert_eq!(lexer.next(), Some(Ok(Token::Colon)));
    assert_eq!(lexer.next(), Some(Ok(Token::Number(7))));
    assert_eq!(lexer.next(), None);
    assert_eq!(lexer.next(), None);
    let mut again = saved;
    assert_eq!(again.next(), Some(Ok(Token::Colon)));
}

#[test]
fn lexer_stops_after_an_error() {
    let mut lexer = Lexer::new("a ? b");
    assert_eq!(lexer.next(), Some(Ok(Token::Ident("a"))));
    assert_eq!(lexer.next(), Some(Err(LexingError::Undefined)));
    assert_eq!(lexer.next(), None);
}

#[test]
fn lexing_error_default() {
    assert_eq!(LexingError::default(), LexingError::Undefined);
}

#[test]
fn scan_finds_the_end_of_a_run() {
    assert_eq!(scan(b"  \t x", 0, Class::Space), 4);
    assert_eq!(scan(b"  \t x", 4, Class::Space), 4);
    assert_eq!(scan(b"abc_9 d", 0, Class::Word), 5);
    assert_eq!(scan(b"123", 0, Class::Digit), 3);
    assert_eq!(scan(b"123", 3, Class::Digit), 3);
    assert_eq!(scan(b"12a", 1, Class::Digit), 2);
    assert_eq!(scan(b"12a", 7, Class::Digit), 7);
    assert!(Class::Word.accepts(b'_') && Class::Word.accepts(b'0') && !Class::Word.accepts(b'A'));
    assert!(Class::Space.accepts(0x0C) && !Class::Space.accepts(0x0B));
    assert!(Class::Digit.accepts(b'9') && !Class::Digit.accepts(b':') && !Class::Digit.accepts(b'/'));
}

#[test]
fn scan_string_finds_the_closing_quote() {
    assert_eq!(scan_string(b"\"ab\" c", 1), Some(4));
    assert_eq!(scan_string(b"\"a\\\"b\"", 1), Some(6));
    assert_eq!(scan_string(b"\"\\uFFFF\"", 1), Some(8));
    assert_eq!(scan_string(b"\"ab", 1), None);
    assert_eq!(scan_string(b"\"", 1), None);
    assert_eq!(scan_string(b"\"", 5), None);
}

#[test]
fn parse_decimal_exact_values() {
    assert_eq!(parse_decimal(b""), Some(0));
    assert_eq!(parse_decimal(b"0"), Some(0));
    assert_eq!(parse_decimal(b"10"), Some(10));
    assert_eq!(parse_decimal(b"4294967295"), Some(4294967295));
    assert_eq!(parse_decimal(b"4294967296"), None);
    assert_eq!(parse_decimal(b"4294967300"), None);
    assert_eq!(parse_decimal(b"42949672950"), None);
    assert_eq!(parse_decimal(b"12a"), None);
    assert_eq!(parse_decimal(b" 1"), None);
    assert_eq!(parse_decimal(b"/"), None);
    assert_eq!(parse_decimal(b":"), None);
}
