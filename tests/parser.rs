use lisp::error::ParserError;
use lisp::lexer::Token;
use lisp::parser;
use lisp::value::Value;

#[test]
fn parse() {
    let cases = vec![
        (
            "(a test)",
            Ok(Value::List(vec![
                Value::Atom("a".to_owned()),
                Value::Atom("test".to_owned()),
            ])),
        ),
        (
            "(a (nested) test)",
            Ok(Value::List(vec![
                Value::Atom("a".to_owned()),
                Value::List(vec![Value::Atom("nested".to_owned())]),
                Value::Atom("test".to_owned()),
            ])),
        ),
        (
            "(a (dotted . list) test)",
            Ok(Value::List(vec![
                Value::Atom("a".to_owned()),
                Value::DottedList(
                    vec![Value::Atom("dotted".to_owned())],
                    Box::new(Value::Atom("list".to_owned())),
                ),
                Value::Atom("test".to_owned()),
            ])),
        ),
        (
            "(a '(quoted (dotted . list)) test)",
            Ok(Value::List(vec![
                Value::Atom("a".to_owned()),
                Value::List(vec![
                    Value::Atom("quote".to_owned()),
                    Value::List(vec![
                        Value::Atom("quoted".to_owned()),
                        Value::DottedList(
                            vec![Value::Atom("dotted".to_owned())],
                            Box::new(Value::Atom("list".to_owned())),
                        ),
                    ]),
                ]),
                Value::Atom("test".to_owned()),
            ])),
        ),
        ("(a '(imbalanced parens)", Err(ParserError::NoMoreTokens)),
    ];
    for (input, expected) in cases {
        let actual = parser::parse(input);
        assert_eq!(expected, actual);
    }
}

#[test]
fn booleans_strings_and_numbers() {
    assert_eq!(parser::parse("#t"), Ok(Value::Bool(true)));
    assert_eq!(parser::parse("#f"), Ok(Value::Bool(false)));
    assert_eq!(parser::parse("\"hi\""), Ok(Value::String("hi".to_owned())));
    assert_eq!(parser::parse("42"), Ok(Value::Number(42)));
}

#[test]
fn parse_errors() {
    assert_eq!(parser::parse(""), Err(ParserError::NoMoreTokens));
    assert_eq!(
        parser::parse(")"),
        Err(ParserError::UnexpectedToken(Token::RParen))
    );
    assert_eq!(
        parser::parse("(a . b c)"),
        Err(ParserError::ExpectedToken(
            Token::RParen,
            Token::Atom("c".to_owned())
        ))
    );
    assert_eq!(
        parser::parse("a b)"),
        Err(ParserError::TokensLeft(vec![
            Token::Atom("b".to_owned()),
            Token::RParen
        ]))
    );
}
