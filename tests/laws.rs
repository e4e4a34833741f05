use lisp::error::Error;
use lisp::primitive::{
    car, cdr, cons, numeric_binop, numeric_bool_binop, string_bool_binop, ArithOp, Comparison,
};
use lisp::value::Value;

fn num(n: i64) -> Value {
    Value::Number(n)
}

fn atom(a: &str) -> Value {
    Value::Atom(a.to_owned())
}

#[test]
fn numeric_operations_need_two_arguments() {
    assert_eq!(
        numeric_binop(&[], ArithOp::Add),
        Err(Error::NumArgs(2, vec![]))
    );
    assert_eq!(
        numeric_binop(&[num(1)], ArithOp::Mul),
        Err(Error::NumArgs(2, vec![num(1)]))
    );
    assert_eq!(
        numeric_bool_binop(&[num(1)], Comparison::Lt),
        Err(Error::NumArgs(2, vec![num(1)]))
    );
    assert_eq!(
        numeric_bool_binop(&[], Comparison::Eq),
        Err(Error::NumArgs(2, vec![]))
    );
}

#[test]
fn car_and_cdr_of_the_empty_list_fail() {
    let empty = Value::List(vec![]);
    assert_eq!(
        car(&[empty.clone()]),
        Err(Error::TypeMismatch("pair".to_owned(), empty.clone()))
    );
    assert_eq!(
        cdr(&[empty.clone()]),
        Err(Error::TypeMismatch("pair".to_owned(), empty))
    );
}

#[test]
fn cons_keeps_the_kind_of_its_second_argument() {
    assert_eq!(
        cons(&[num(1), Value::List(vec![num(2), num(3)])]),
        Ok(Value::List(vec![num(1), num(2), num(3)]))
    );
    assert_eq!(
        cons(&[
            num(1),
            Value::DottedList(vec![num(2)], Box::new(num(3)))
        ]),
        Ok(Value::DottedList(vec![num(1), num(2)], Box::new(num(3))))
    );
    assert_eq!(
        cons(&[num(1), atom("b")]),
        Ok(Value::DottedList(vec![num(1)], Box::new(atom("b"))))
    );
}

#[test]
fn cdr_of_a_dotted_list_keeps_the_tail() {
    assert_eq!(
        cdr(&[Value::DottedList(vec![num(1), num(2)], Box::new(num(3)))]),
        Ok(Value::DottedList(vec![num(2)], Box::new(num(3))))
    );
    assert_eq!(
        car(&[Value::DottedList(vec![num(1)], Box::new(num(3)))]),
        Ok(num(1))
    );
    assert_eq!(car(&[]), Err(Error::NumArgs(1, vec![])));
    assert_eq!(
        car(&[num(4)]),
        Err(Error::TypeMismatch("pair".to_owned(), num(4)))
    );
}

#[test]
fn arithmetic_wraps_and_truncates() {
    assert_eq!(
        numeric_binop(&[num(i64::MAX), num(1)], ArithOp::Add),
        Ok(num(i64::MIN))
    );
    assert_eq!(numeric_binop(&[num(-7), num(2)], ArithOp::Div), Ok(num(-3)));
    assert_eq!(numeric_binop(&[num(-7), num(2)], ArithOp::Rem), Ok(num(-1)));
    assert_eq!(numeric_binop(&[num(7), num(-2)], ArithOp::Rem), Ok(num(1)));
    assert_eq!(
        numeric_binop(&[num(i64::MIN), num(-1)], ArithOp::Div),
        Ok(num(i64::MIN))
    );
    assert_eq!(
        numeric_binop(&[num(20), num(2), num(5)], ArithOp::Div),
        Ok(num(2))
    );
    assert_eq!(
        numeric_binop(&[num(1), num(0)], ArithOp::Div),
        Err(Error::TypeMismatch("nonzero number".to_owned(), num(0)))
    );
}

#[test]
fn strings_that_read_as_numbers_count_as_numbers() {
    assert_eq!(
        numeric_binop(&[Value::String("-12".to_owned()), num(3)], ArithOp::Sub),
        Ok(num(-15))
    );
    assert_eq!(
        numeric_binop(&[num(3), Value::String("1x".to_owned())], ArithOp::Sub),
        Err(Error::TypeMismatch(
            "number".to_owned(),
            Value::String("1x".to_owned())
        ))
    );
}

#[test]
fn string_comparisons_read_numbers_and_booleans_as_text() {
    assert_eq!(
        string_bool_binop(
            &[Value::String("abc".to_owned()), Value::String("abd".to_owned())],
            Comparison::Lt
        ),
        Ok(Value::Bool(true))
    );
    assert_eq!(
        string_bool_binop(&[num(10), Value::String("10".to_owned())], Comparison::Eq),
        Ok(Value::Bool(true))
    );
    assert_eq!(
        string_bool_binop(&[Value::Bool(true), Value::String("true".to_owned())], Comparison::Eq),
        Ok(Value::Bool(true))
    );
    assert_eq!(
        string_bool_binop(&[atom("a"), num(1)], Comparison::Eq),
        Err(Error::TypeMismatch("string".to_owned(), atom("a")))
    );
}
