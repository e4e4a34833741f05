use lisp::env::Env;
use lisp::error::Error;
use lisp::parser::parse;
use lisp::value::Value;

#[test]
fn eval() {
    let cases = vec![
        ("'atom", Ok("atom")),
        ("2", Ok("2")),
        ("\"a string\"", Ok("\"a string\"")),
        ("(+ 2 2)", Ok("4")),
        ("(+ 2 (- 4 1))", Ok("5")),
        ("(- (+ 4 6 3) 3 5 2)", Ok("3")),
        ("(< 2 3)", Ok("#t")),
        ("(> 2 3)", Ok("#f")),
        ("(>= 3 3)", Ok("#t")),
        ("(string=? \"test\" \"test\")", Ok("#t")),
        ("(string<? \"abc\" \"bba\")", Ok("#t")),
        ("(if (> 2 3) \"no\" \"yes\")", Ok("\"yes\"")),
        ("(if (= 3 3) (+ 2 3 (- 5 1)) \"unequal\")", Ok("9")),
        ("(cdr '(a simple test))", Ok("(simple test)")),
        ("(car (cdr '(a simple test)))", Ok("simple")),
        ("(car '((this is) a test))", Ok("(this is)")),
        ("(cons '(this is) 'test)", Ok("((this is) . test)")),
        ("(cons '(this is) '())", Ok("((this is))")),
        ("(eqv? 1 3)", Ok("#f")),
        ("(eqv? 3 3)", Ok("#t")),
        ("(eqv? 'atom 'atom)", Ok("#t")),
        ("(define x 3)", Ok("3")),
        ("(+ x 2)", Ok("5")),
        (
            "(+ y 2)",
            Err(Error::UnboundVar(
                "Getting an unbound variable".to_owned(),
                "y".to_owned(),
            )),
        ),
        ("(define y 5)", Ok("5")),
        ("(+ x (- y 2))", Ok("6")),
        ("(define str \"A string\")", Ok("\"A string\"")),
        (
            "(< str \"The string\")",
            Err(Error::TypeMismatch(
                "number".to_owned(),
                Value::String("A string".to_owned()),
            )),
        ),
        ("(string<? str \"The string\")", Ok("#t")),
        ("(define (f x y) (+ x y))", Ok("(lambda (x y) ...)")),
        ("(f 1 2)", Ok("3")),
        (
            "(f 1 2 3)",
            Err(Error::NumArgs(
                2,
                vec![Value::Number(1), Value::Number(2), Value::Number(3)],
            )),
        ),
        ("(f 1)", Err(Error::NumArgs(2, vec![Value::Number(1)]))),
        (
            "(define (factorial x) (if (= x 1) 1 (* x (factorial (- x 1)))))",
            Ok("(lambda (x) ...)"),
        ),
        ("(factorial 10)", Ok("3628800")),
        (
            "(define (counter inc) (lambda (x) (set! inc (+ x inc)) inc))",
            Ok("(lambda (inc) ...)"),
        ),
        ("(define my-count (counter 5))", Ok("(lambda (x) ...)")),
        ("(my-count 3)", Ok("8")),
        ("(my-count 6)", Ok("14")),
        ("(my-count 5)", Ok("19")),
    ];
    let mut env = Env::primitive_bindings();
    for (input, expected) in cases {
        let val = parse(input).unwrap();
        let actual = lisp::eval::eval(&mut env, &val).map(|val| val.to_string());
        let expected = expected.map(|str| str.to_owned());
        assert_eq!(expected, actual,);
    }
}
