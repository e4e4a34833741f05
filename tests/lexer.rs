use lisp::lexer::{lex, Token};

#[test]
fn string() {
    let input = "\"this is a test\"";
    let expected = vec![Token::String("this is a test".to_owned())];
    let actual = lex(input);
    assert_eq!(expected, actual);
}

#[test]
fn atom() {
    let cases = vec![
        ("a", vec![Token::Atom("a".to_owned())]),
        ("#e", vec![Token::Atom("#e".to_owned())]),
        ("@", vec![Token::Atom("@".to_owned())]),
        (
            "(a test)",
            vec![
                Token::LParen,
                Token::Atom("a".to_owned()),
                Token::Atom("test".to_owned()),
                Token::RParen,
            ],
        ),
    ];
    for (input, expected) in cases {
        let actual = lex(input);
        assert_eq!(expected, actual);
    }
}

#[test]
fn numbers_quotes_and_dots() {
    let actual = lex("'(12 . -5)");
    let expected = vec![
        Token::Quote,
        Token::LParen,
        Token::Number(12),
        Token::Dot,
        Token::Atom("-5".to_owned()),
        Token::RParen,
    ];
    assert_eq!(expected, actual);
}

#[test]
fn white_space_only_gives_no_tokens() {
    assert_eq!(lex(" \t\n\r"), Vec::<Token>::new());
    assert_eq!(lex(""), Vec::<Token>::new());
}

#[test]
fn number_past_64_bits_is_an_error_token() {
    assert_eq!(lex("9223372036854775807"), vec![Token::Number(i64::MAX)]);
    assert_eq!(lex("9223372036854775808"), vec![Token::Error]);
}

#[test]
fn unknown_characters_and_open_strings_are_error_tokens() {
    assert_eq!(lex("A"), vec![Token::Error]);
    assert_eq!(
        lex("\"ab"),
        vec![Token::Error, Token::Atom("ab".to_owned())]
    );
    assert_eq!(
        lex("\"a\\\"b\""),
        vec![Token::String("a\\\"b".to_owned())]
    );
}
