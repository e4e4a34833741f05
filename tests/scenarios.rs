use lisp::env::Env;
use lisp::error::Error;
use lisp::eval::eval;
use lisp::parser::parse;
use lisp::value::Value;

fn run(env: &mut Env, input: &str) -> Result<Value, Error> {
    let form = parse(input).unwrap();
    eval(env, &form)
}

fn run_text(env: &mut Env, input: &str) -> Result<String, Error> {
    run(env, input).map(|v| v.to_string())
}

#[test]
fn quote_gives_back_its_operand() {
    let mut env = Env::primitive_bindings();
    let operand = parse("(a (b . c) \"s\" 1 #t)").unwrap();
    let form = Value::List(vec![Value::Atom("quote".to_owned()), operand.clone()]);
    assert_eq!(eval(&mut env, &form), Ok(operand));
}

#[test]
fn factorial_of_ten() {
    let mut env = Env::primitive_bindings();
    run(&mut env, "(define (factorial x) (if (= x 1) 1 (* x (factorial (- x 1)))))").unwrap();
    assert_eq!(run_text(&mut env, "(factorial 10)"), Ok("3628800".to_owned()));
}

#[test]
fn counter_shares_its_captured_variable() {
    let mut env = Env::primitive_bindings();
    run(&mut env, "(define (counter inc) (lambda (x) (set! inc (+ x inc)) inc))").unwrap();
    run(&mut env, "(define my-count (counter 5))").unwrap();
    assert_eq!(run_text(&mut env, "(my-count 3)"), Ok("8".to_owned()));
    assert_eq!(run_text(&mut env, "(my-count 6)"), Ok("14".to_owned()));
    assert_eq!(run_text(&mut env, "(my-count 5)"), Ok("19".to_owned()));
}

#[test]
fn wrong_number_of_arguments_to_a_function() {
    let mut env = Env::primitive_bindings();
    run(&mut env, "(define (f x y) (+ x y))").unwrap();
    assert_eq!(
        run(&mut env, "(f 1 2 3)"),
        Err(Error::NumArgs(
            2,
            vec![Value::Number(1), Value::Number(2), Value::Number(3)]
        ))
    );
    assert_eq!(
        run(&mut env, "(f 1)"),
        Err(Error::NumArgs(2, vec![Value::Number(1)]))
    );
}

#[test]
fn comparing_a_string_as_a_number() {
    let mut env = Env::primitive_bindings();
    assert_eq!(
        run(&mut env, "(< \"A string\" 3)"),
        Err(Error::TypeMismatch(
            "number".to_owned(),
            Value::String("A string".to_owned())
        ))
    );
}

#[test]
fn unbound_variable() {
    let mut env = Env::primitive_bindings();
    assert_eq!(
        run(&mut env, "nothing"),
        Err(Error::UnboundVar(
            "Getting an unbound variable".to_owned(),
            "nothing".to_owned()
        ))
    );
    assert_eq!(
        run(&mut env, "(set! nothing 1)"),
        Err(Error::UnboundVar(
            "Setting an unbound var".to_owned(),
            "nothing".to_owned()
        ))
    );
}

#[test]
fn rest_parameters_collect_the_remaining_arguments() {
    let mut env = Env::primitive_bindings();
    run(&mut env, "(define (g a . rest) rest)").unwrap();
    assert_eq!(run_text(&mut env, "(g 1 2 3)"), Ok("(2 3)".to_owned()));
    assert_eq!(run_text(&mut env, "(g 1)"), Ok("()".to_owned()));
    assert_eq!(run(&mut env, "(g)"), Err(Error::NumArgs(1, vec![])));
    assert_eq!(run_text(&mut env, "((lambda args args) 1 2)"), Ok("(1 2)".to_owned()));
    assert_eq!(
        run_text(&mut env, "(lambda (a . b) a)"),
        Ok("(lambda (a . b) ...)".to_owned())
    );
}

#[test]
fn apply_spreads_a_list_of_arguments() {
    let mut env = Env::primitive_bindings();
    assert_eq!(run_text(&mut env, "(apply + '(1 2 3))"), Ok("6".to_owned()));
    assert_eq!(run_text(&mut env, "(apply * 2 3)"), Ok("6".to_owned()));
}

#[test]
fn equivalence_and_loose_equality() {
    let mut env = Env::primitive_bindings();
    assert_eq!(run_text(&mut env, "(eqv? '(1 . 2) '(1 . 2))"), Ok("#t".to_owned()));
    assert_eq!(run_text(&mut env, "(eqv? '(1 2) '(1 . 2))"), Ok("#f".to_owned()));
    assert_eq!(run_text(&mut env, "(eqv? car car)"), Ok("#f".to_owned()));
    assert_eq!(run_text(&mut env, "(equal? 2 \"2\")"), Ok("#t".to_owned()));
    assert_eq!(run_text(&mut env, "(equal? #t \"true\")"), Ok("#t".to_owned()));
    assert_eq!(run_text(&mut env, "(equal? 'a 'a)"), Ok("#f".to_owned()));
    assert_eq!(run_text(&mut env, "(&& #t #f)"), Ok("#f".to_owned()));
    assert_eq!(
        run(&mut env, "(|| #t 1)"),
        Err(Error::TypeMismatch("bool".to_owned(), Value::Number(1)))
    );
}

#[test]
fn other_evaluation_errors() {
    let mut env = Env::primitive_bindings();
    assert_eq!(
        run(&mut env, "(1 2)"),
        Err(Error::NotFunction(Value::Number(1)))
    );
    assert_eq!(run(&mut env, "((lambda (x)) 1)"), Err(Error::EmptyBody));
    assert_eq!(
        run(&mut env, "()"),
        Err(Error::BadSpecialForm(
            "unrecognized special form".to_owned(),
            Value::List(vec![])
        ))
    );
    assert_eq!(
        run(&mut env, "(define (1 x) x)"),
        Err(Error::BadSpecialForm(
            "unrecognized special form".to_owned(),
            parse("(define (1 x) x)").unwrap()
        ))
    );
    run(&mut env, "(define (spin x) (spin x))").unwrap();
    assert_eq!(run(&mut env, "(spin 1)"), Err(Error::TooDeep));
}

#[test]
fn messages() {
    assert_eq!(
        Error::NumArgs(2, vec![Value::Number(1), Value::Number(2)]).to_string(),
        "Expected 2 args; found values 1 2"
    );
    assert_eq!(
        Error::TypeMismatch("number".to_owned(), Value::String("x".to_owned())).to_string(),
        "Invalid type: expected number, found \"x\""
    );
    assert_eq!(
        Error::UnboundVar("Getting an unbound variable".to_owned(), "y".to_owned()).to_string(),
        "Getting an unbound variable: y"
    );
    assert_eq!(
        Value::DottedList(vec![Value::Number(-1)], Box::new(Value::Bool(false))).to_string(),
        "(-1 . #f)"
    );
    assert_eq!(
        Error::Parser(lisp::error::ParserError::NoMoreTokens).to_string(),
        "Parse error at No more tokens"
    );
}
