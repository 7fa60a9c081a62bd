use maple::codemap::Span;
use maple::errors::ErrorKind;
use maple::lex::{
    Token, TokenKind, skip, skip_comments, skip_until, skip_whitespace, tokenize,
    tokenize_identifier, tokenize_number, tokenize_single_token,
};

fn ident(s: &str) -> TokenKind {
    TokenKind::from(s.to_string())
}

#[test]
fn token_kinds_convert_from_plain_values() {
    assert_eq!(TokenKind::from(7usize), TokenKind::Integer(7));
    assert_eq!(
        TokenKind::from("foo".to_string()),
        TokenKind::Identifier("foo".to_string())
    );
    assert_eq!(TokenKind::from("bar"), TokenKind::Identifier("bar".to_string()));
}

#[test]
fn synthetic_tokens_carry_the_placeholder_span() {
    let t = Token::from_kind(TokenKind::EOF);
    assert_eq!(t.span, Span::dummy());
    assert_eq!(t.kind, TokenKind::EOF);
}

#[test]
fn non_alphanumeric_symbol_cannot_start_an_identifier() {
    let got = tokenize_identifier("\u{a7}");
    assert!(got.is_err(), "{:?} should be an error", got);
}

#[test]
fn identifier_run_stops_at_a_non_alphanumeric_symbol() {
    let (got, bytes_read) = tokenize_identifier("a\u{a7}").unwrap();
    assert_eq!(got, ident("a"));
    assert_eq!(bytes_read, 1);
    assert!(tokenize("a\u{a7}b").is_err());
}

#[test]
fn unknown_non_ascii_symbol_is_reported_as_itself() {
    let err = tokenize_single_token("\u{a7}").unwrap_err();
    assert_eq!(*err.kind(), ErrorKind::UnknownCharacter('\u{a7}'));
}

#[test]
fn non_ascii_whitespace_is_skipped() {
    assert_eq!(skip_whitespace("\u{a0}x"), 2);
}

#[test]
fn form_feed_is_whitespace() {
    assert_eq!(skip_whitespace("\u{c}1"), 1);
}

#[test]
fn tokenize_a_single_letter() {
    let (got, _bytes_read) = tokenize_identifier("F").unwrap();
    assert_eq!(got, ident("F"));
}

#[test]
fn tokenize_an_identifer() {
    let (got, _bytes_read) = tokenize_identifier("Foo").unwrap();
    assert_eq!(got, ident("Foo"));
}

#[test]
fn tokenize_ident_containing_an_underscore() {
    let (got, _bytes_read) = tokenize_identifier("Foo_bar").unwrap();
    assert_eq!(got, ident("Foo_bar"));
}

#[test]
fn tokenize_ident_cant_start_with_number() {
    let got = tokenize_identifier("7Foo_bar");
    assert!(got.is_err(), "{:?} should be an error", got);
}

#[test]
fn tokenize_ident_cant_start_with_dot() {
    let got = tokenize_identifier(".Foo_bar");
    assert!(got.is_err(), "{:?} should be an error", got);
}

#[test]
fn skip_past_several_whitespace_chars() {
    let src = " \t\n\r123";
    let should_be = 4;

    let num_skipped = skip_whitespace(src);
    assert_eq!(num_skipped, should_be);
}

#[test]
fn skipping_whitespace_when_first_is_a_letter_returns_zero() {
    let src = "Hello World";
    let should_be = 0;

    let num_skipped = skip_whitespace(src);
    assert_eq!(num_skipped, should_be);
}

#[test]
fn slash_slash_skips_to_end_of_line() {
    let got = skip_comments("// foo bar { baz }\n 1234");
    assert_eq!(got, 19);
}

#[test]
fn comment_skip_ignores_alphanumeric() {
    let got = skip_comments("123 hello world");
    assert_eq!(got, 0);
}

#[test]
fn comment_skip_ignores_whitespace() {
    let got = skip_comments("   /* */ 123 hello world");
    assert_eq!(got, 0);
}

#[test]
fn block_comment_skips_to_closer() {
    let got = skip_comments("/* Hello World */ asd");
    assert_eq!(got, 17);
}

#[test]
fn unterminated_block_comment_consumes_everything() {
    let got = skip_comments("/* never closed");
    assert_eq!(got, 15);
}

#[test]
fn skip_until_returns_suffix_after_pattern() {
    assert_eq!(skip_until("abc*/def", "*/"), "def");
    assert_eq!(skip_until("abcdef", "*/"), "");
}

#[test]
fn skip_alternates_whitespace_and_comments() {
    let got = skip("  // c\n /* b */x");
    assert_eq!(got, 15);
}

#[test]
fn tokenize_a_basic_expression() {
    let src = "foo = 1 + 2.34";
    let should_be = vec![
        (ident("foo"), 0, 3),
        (TokenKind::Equals, 4, 5),
        (TokenKind::Integer(1), 6, 7),
        (TokenKind::Plus, 8, 9),
        (TokenKind::Decimal("2.34".to_string()), 10, 14),
    ];

    let got = tokenize(src).unwrap();
    assert_eq!(got, should_be);
}

#[test]
fn tokenizer_detects_invalid_stuff() {
    let src = "foo bar `%^&\\";
    let index_of_backtick = 8;

    let err = tokenize(src).unwrap_err();
    match err.kind() {
        ErrorKind::MessageWithLocation(loc, _) => assert_eq!(*loc, index_of_backtick),
        other => panic!("Unexpected error: {:?}", other),
    }
}

#[test]
fn tokenize_single_valid_identifier_spans_whole_input() {
    let got = tokenize("héllo").unwrap();
    assert_eq!(got, vec![(ident("héllo"), 0, 6)]);
}

#[test]
fn tokenize_single_integer() {
    let got = tokenize("42").unwrap();
    assert_eq!(got, vec![(TokenKind::Integer(42), 0, 2)]);
}

#[test]
fn tokenize_single_decimal() {
    let got = tokenize("10.5").unwrap();
    assert_eq!(got, vec![(TokenKind::Decimal("10.5".to_string()), 0, 4)]);
}

#[test]
fn tokenize_decimal_with_trailing_dot() {
    let got = tokenize("1.").unwrap();
    assert_eq!(got, vec![(TokenKind::Decimal("1.".to_string()), 0, 2)]);
}

#[test]
fn second_dot_starts_new_tokens() {
    let got = tokenize("1.2.3").unwrap();
    assert_eq!(
        got,
        vec![
            (TokenKind::Decimal("1.2".to_string()), 0, 3),
            (TokenKind::Dot, 3, 4),
            (TokenKind::Integer(3), 4, 5),
        ]
    );
}

#[test]
fn digit_led_identifier_is_an_error() {
    let got = tokenize("7Foo");
    assert!(got.is_err(), "{:?} should be an error", got);
}

#[test]
fn decimal_running_into_a_letter_is_an_error() {
    let got = tokenize("2.34foo");
    assert!(got.is_err(), "{:?} should be an error", got);
}

#[test]
fn underscore_spaces_a_number_into_three_tokens() {
    let got = tokenize("1_000").unwrap();
    assert_eq!(
        got,
        vec![
            (TokenKind::Integer(1), 0, 1),
            (TokenKind::Underscore, 1, 2),
            (TokenKind::Integer(0), 2, 5),
        ]
    );
}

#[test]
fn unterminated_comment_alone_yields_no_tokens_and_no_error() {
    let got = tokenize("/* opener with no closer").unwrap();
    assert_eq!(got, vec![]);
}

#[test]
fn unterminated_comment_after_tokens_ends_the_scan_cleanly() {
    let got = tokenize("foo /* bar").unwrap();
    assert_eq!(got, vec![(ident("foo"), 0, 3)]);
}

#[test]
fn empty_input_yields_no_tokens() {
    assert_eq!(tokenize("").unwrap(), vec![]);
}

#[test]
fn every_punctuation_character_maps_to_its_kind() {
    let src = ". = + - * / | _ $ : # & ( ) [ ] { } < > ! ?";
    let kinds: Vec<TokenKind> = tokenize(src).unwrap().into_iter().map(|t| t.0).collect();
    assert_eq!(
        kinds,
        vec![
            TokenKind::Dot,
            TokenKind::Equals,
            TokenKind::Plus,
            TokenKind::Minus,
            TokenKind::Asterisk,
            TokenKind::Slash,
            TokenKind::Pipe,
            TokenKind::Underscore,
            TokenKind::Dollar,
            TokenKind::Colon,
            TokenKind::Hash,
            TokenKind::Ampersand,
            TokenKind::OpenParen,
            TokenKind::CloseParen,
            TokenKind::OpenSquare,
            TokenKind::CloseSquare,
            TokenKind::OpenCurly,
            TokenKind::CloseCurly,
            TokenKind::OpenAngle,
            TokenKind::CloseAngle,
            TokenKind::Exclamation,
            TokenKind::Question,
        ]
    );
}

#[test]
fn empty_input_to_single_token_is_unexpected_eof() {
    let err = tokenize_single_token("").unwrap_err();
    assert_eq!(*err.kind(), ErrorKind::UnexpectedEOF);
}

#[test]
fn unknown_character_is_reported_as_itself() {
    let err = tokenize_single_token("`").unwrap_err();
    assert_eq!(*err.kind(), ErrorKind::UnknownCharacter('`'));
}

#[test]
fn integer_overflow_is_reported_with_its_cause_chain() {
    let err = tokenize("999999999999999999999999999999").unwrap_err();
    match err.kind() {
        ErrorKind::MessageWithLocation(loc, _) => assert_eq!(*loc, 0),
        other => panic!("Unexpected error: {:?}", other),
    }
    let causes = err.causes();
    assert_eq!(
        *causes,
        vec![
            ErrorKind::Msg("Integer literal is too large".to_string()),
            ErrorKind::Msg("Couldn't tokenize a number".to_string()),
        ]
    );
}

#[test]
fn number_classifier_reports_no_matches_on_a_letter() {
    let err = tokenize_number("abc").unwrap_err();
    assert_eq!(*err.kind(), ErrorKind::Msg("No Matches".to_string()));
}

#[test]
fn dot_then_letter_is_an_error() {
    let err = tokenize_number(".x");
    assert!(err.is_err(), "{:?} should be an error", err);
}

#[test]
fn bare_dot_run_is_an_invalid_decimal() {
    let err = tokenize_number(".").unwrap_err();
    assert_eq!(*err.kind(), ErrorKind::Msg("Invalid decimal literal".to_string()));
}

#[test]
fn tokens_carry_their_span_and_kind() {
    let t = Token::new(Span::new(4, 7), TokenKind::Plus);
    assert_eq!(t.span.start, 4);
    assert_eq!(t.span.end, 7);
    assert_eq!(t.kind, TokenKind::Plus);
    let d = Span::dummy();
    assert_eq!((d.start, d.end), (0, 0));
}

#[test]
fn identifier_may_contain_digits_after_the_first_letter() {
    let got = tokenize("x1y2").unwrap();
    assert_eq!(got, vec![(ident("x1y2"), 0, 4)]);
}
