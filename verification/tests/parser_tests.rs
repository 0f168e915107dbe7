use nlsd::{parse_next, parse_number, parse_string, parse_token, Number, Parsed, ParseError};

#[test]
fn parse_tokens() {
    assert_eq!((0, &b"a"[..], &b""[..]), parse_token(b"a").unwrap());
    assert_eq!((0, &b"ab"[..], &b""[..]), parse_token(b"ab").unwrap());
    assert_eq!((0, &b"the"[..], &b""[..]), parse_token(b"the").unwrap());
    assert_eq!((1, &b"the"[..], &b""[..]), parse_token(b" the").unwrap());
    assert_eq!((0, &b"the"[..], &b""[..]), parse_token(b"the ").unwrap());
    assert_eq!((1, &b"the"[..], &b""[..]), parse_token(b" the ").unwrap());
    assert_eq!((3, &b"the"[..], &b""[..]), parse_token(b"   the").unwrap());
    assert_eq!((0, &b"the"[..], &b""[..]), parse_token(b"the   ").unwrap());
    assert_eq!((3, &b"the"[..], &b""[..]), parse_token(b"   the   ").unwrap());
    assert_eq!((0, &b"the"[..], &b"list"[..]), parse_token(b"the list").unwrap());
    assert_eq!((1, &b"the"[..], &b"list"[..]), parse_token(b" the list").unwrap());
    assert_eq!((0, &b"the"[..], &b"list"[..]), parse_token(b"the   list").unwrap());
    assert_eq!((3, &b"the"[..], &b"list"[..]), parse_token(b"   the   list").unwrap());
    assert_eq!((0, &b"the"[..], &b"list "[..]), parse_token(b"the list ").unwrap());
    assert_eq!((1, &b"the"[..], &b"list "[..]), parse_token(b" the list ").unwrap());
    assert_eq!((0, &b"the"[..], &b"list "[..]), parse_token(b"the   list ").unwrap());
    assert_eq!((3, &b"the"[..], &b"list "[..]), parse_token(b"   the   list ").unwrap());
    assert!(matches!(parse_token(b""), Err(ParseError::UnexpectedEof)));
    assert!(matches!(parse_token(b" "), Err(ParseError::UnexpectedEof)));
    assert!(matches!(parse_token(b"   "), Err(ParseError::UnexpectedEof)));
}

#[test]
fn parse_strings() {
    assert_eq!((1, &b""[..], &b""[..]), parse_string(b"``").unwrap());
    assert_eq!((1, &b"a"[..], &b""[..]), parse_string(b"`a`").unwrap());
    assert_eq!((1, &b" "[..], &b""[..]), parse_string(b"` `").unwrap());
    assert_eq!((1, &b"hello, world"[..], &b""[..]), parse_string(b"`hello, world`").unwrap());
    assert_eq!((2, &b"hello, world"[..], &b""[..]), parse_string(b" `hello, world`").unwrap());
    assert_eq!((1, &b"hello, world"[..], &b""[..]), parse_string(b"`hello, world` ").unwrap());
    assert_eq!((2, &b"hello, world"[..], &b""[..]), parse_string(b" `hello, world` ").unwrap());
    assert_eq!((4, &b"hello, world"[..], &b""[..]), parse_string(b"   `hello, world`").unwrap());
    assert_eq!((1, &b"hello, world"[..], &b""[..]), parse_string(b"`hello, world`   ").unwrap());
    assert_eq!(
        (4, &b"hello, world"[..], &b""[..]),
        parse_string(b"   `hello, world`   ").unwrap()
    );

    assert_eq!(
        (1, &b"hello, world"[..], &b"token"[..]),
        parse_string(b"`hello, world` token").unwrap()
    );
    assert_eq!(
        (2, &b"hello, world"[..], &b"token"[..]),
        parse_string(b" `hello, world` token").unwrap()
    );
    assert_eq!(
        (1, &b"hello, world"[..], &b"token"[..]),
        parse_string(b"`hello, world`   token").unwrap()
    );
    assert_eq!(
        (4, &b"hello, world"[..], &b"token"[..]),
        parse_string(b"   `hello, world`   token").unwrap()
    );

    assert_eq!(
        (1, &b"hello, world"[..], &b"token "[..]),
        parse_string(b"`hello, world` token ").unwrap()
    );
    assert_eq!(
        (2, &b"hello, world"[..], &b"token "[..]),
        parse_string(b" `hello, world` token ").unwrap()
    );
    assert_eq!(
        (1, &b"hello, world"[..], &b"token "[..]),
        parse_string(b"`hello, world`   token ").unwrap()
    );
    assert_eq!(
        (4, &b"hello, world"[..], &b"token "[..]),
        parse_string(b"   `hello, world`   token ").unwrap()
    );

    assert_eq!((1, &b"hello"[..], &b"`world`"[..]), parse_string(b"`hello` `world`").unwrap());

    assert!(matches!(parse_string(b""), Err(ParseError::UnexpectedEof)));
    assert!(matches!(parse_string(b" "), Err(ParseError::UnexpectedEof)));
    assert!(matches!(parse_string(b"   "), Err(ParseError::UnexpectedEof)));

    assert!(matches!(parse_string(b"`"), Err(ParseError::UnexpectedEof)));
    assert!(matches!(parse_string(b"` "), Err(ParseError::UnexpectedEof)));
    assert!(matches!(parse_string(b" `"), Err(ParseError::UnexpectedEof)));
    assert!(matches!(parse_string(b" ` "), Err(ParseError::UnexpectedEof)));

    assert!(matches!(parse_string(b"a"), Err(ParseError::InvalidString(0))));
    assert!(matches!(parse_string(b"a "), Err(ParseError::InvalidString(0))));
    assert!(matches!(parse_string(b" a"), Err(ParseError::InvalidString(1))));
    assert!(matches!(parse_string(b" a "), Err(ParseError::InvalidString(1))));

    assert_eq!((1, &br"\`"[..], &b""[..]), parse_string(br"`\``").unwrap());
    assert_eq!((1, &br"escaped\`"[..], &b""[..]), parse_string(br"`escaped\``").unwrap());
    assert_eq!(
        (1, &br"escaped\`text"[..], &b""[..]),
        parse_string(br"`escaped\`text`").unwrap()
    );
    assert_eq!((1, &br" \`"[..], &b""[..]), parse_string(br"` \``").unwrap());
    assert_eq!((1, &br"\` "[..], &b""[..]), parse_string(br"`\` `").unwrap());
    assert_eq!((2, &br"\`"[..], &b""[..]), parse_string(br" `\``").unwrap());
    assert_eq!((1, &br"\`"[..], &b""[..]), parse_string(br"`\`` ").unwrap());
    assert_eq!((2, &br"\`"[..], &b""[..]), parse_string(br" `\`` ").unwrap());

    assert!(matches!(parse_string(b"``a"), Err(ParseError::ExpectedWhitespace(2))));
    assert!(matches!(parse_string(b"`hello`world"), Err(ParseError::ExpectedWhitespace(7))));
    assert!(matches!(parse_string(b"`hello`world`"), Err(ParseError::ExpectedWhitespace(7))));
}

#[test]
fn parse_numbers() {
    assert_eq!((0, Number::Integer(0), &b""[..]), parse_number(b"0").unwrap());
    assert_eq!((0, Number::Integer(1), &b""[..]), parse_number(b"1").unwrap());
    assert_eq!((0, Number::Integer(-1), &b""[..]), parse_number(b"-1").unwrap());
    assert_eq!((0, Number::Integer(0), &b""[..]), parse_number(b"0.0").unwrap());
    assert_eq!((0, Number::Integer(1), &b""[..]), parse_number(b"1.0").unwrap());
    assert_eq!((0, Number::Integer(-1), &b""[..]), parse_number(b"-1.0").unwrap());
    assert_eq!((0, Number::Integer(123), &b""[..]), parse_number(b"123").unwrap());
    assert_eq!((0, Number::Integer(-123), &b""[..]), parse_number(b"-123").unwrap());
    assert_eq!((0, dec(false, b"123", b"123"), &b""[..]), parse_number(b"123.123").unwrap());
    assert_eq!((0, dec(true, b"123", b"123"), &b""[..]), parse_number(b"-123.123").unwrap());

    assert_eq!((1, Number::Integer(1), &b""[..]), parse_number(b" 1").unwrap());
    assert_eq!((0, Number::Integer(1), &b""[..]), parse_number(b"1 ").unwrap());
    assert_eq!((1, Number::Integer(1), &b""[..]), parse_number(b" 1 ").unwrap());
    assert_eq!((1, Number::Integer(1), &b""[..]), parse_number(b" 1.0").unwrap());
    assert_eq!((0, Number::Integer(1), &b""[..]), parse_number(b"1.0 ").unwrap());
    assert_eq!((1, Number::Integer(1), &b""[..]), parse_number(b" 1.0 ").unwrap());

    assert_eq!((0, Number::Integer(1), &b"token"[..]), parse_number(b"1 token").unwrap());
    assert_eq!((0, Number::Integer(1), &b"token"[..]), parse_number(b"1.0 token").unwrap());

    assert!(matches!(parse_number(b"a"), Err(ParseError::InvalidNumber(0))));
    assert!(matches!(parse_number(b"a "), Err(ParseError::InvalidNumber(0))));
    assert!(matches!(parse_number(b" a"), Err(ParseError::InvalidNumber(1))));
    assert!(matches!(parse_number(b" a "), Err(ParseError::InvalidNumber(1))));
}

#[test]
fn parse_nexts() {
    assert_eq!(
        (0, Parsed::Number(Number::Integer(0)), &b""[..]),
        parse_next(b"0").unwrap()
    );
    assert_eq!(
        (0, Parsed::Number(Number::Integer(1)), &b""[..]),
        parse_next(b"1.0").unwrap()
    );
    assert_eq!(
        (1, Parsed::Str(b"hello, world".to_vec()), &b""[..]),
        parse_next(b"`hello, world`").unwrap()
    );
    assert_eq!((0, Parsed::Token(b"token".to_vec()), &b""[..]), parse_next(b"token").unwrap());

    assert_eq!(
        (0, Parsed::Number(Number::Integer(0)), &b"token"[..]),
        parse_next(b"0 token").unwrap()
    );
    assert_eq!(
        (0, Parsed::Number(Number::Integer(1)), &b"token"[..]),
        parse_next(b"1.0 token").unwrap()
    );
    assert_eq!(
        (1, Parsed::Str(b"hello, world".to_vec()), &b"token"[..]),
        parse_next(b"`hello, world` token").unwrap()
    );
    assert_eq!(
        (0, Parsed::Token(b"token".to_vec()), &b"token2"[..]),
        parse_next(b"token token2").unwrap()
    );
}

fn dec(neg: bool, whole: &[u8], frac: &[u8]) -> Number {
    Number::Decimal { neg, whole: whole.to_vec(), frac: frac.to_vec() }
}
