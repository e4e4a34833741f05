use lisp::env::Env;
use lisp::error::Error;
use lisp::eval::eval;
use lisp::host::{Reply, Request};
use lisp::parser::parse;
use lisp::value::Value;

/// Evaluates a form against answers given in advance; returns the result
/// and the request the evaluation stopped for, if any.
fn attempt(start: &Env, input: &str, replies: Vec<Reply>) -> (Env, Result<Value, Error>) {
    let form = parse(input).unwrap();
    let mut env = start.clone().with_replies(replies);
    let r = eval(&mut env, &form);
    (env, r)
}

#[test]
fn load_asks_for_the_file_then_evaluates_its_forms() {
    let start = Env::primitive_bindings();
    let (env, r) = attempt(&start, "(load \"lib.scm\")", vec![]);
    assert_eq!(r, Err(Error::Pending));
    match env.pending() {
        Some(Request::ReadFile(path)) => assert_eq!(path, "lib.scm"),
        other => panic!("unexpected request {:?}", other),
    }
    let text = "(define (sq x) (* x x)) (sq 4)".to_owned();
    let (env, r) = attempt(&start, "(load \"lib.scm\")", vec![Reply::Text(text)]);
    assert_eq!(r, Ok(Value::Number(16)));
    assert!(env.pending().is_none());
}

#[test]
fn failed_outside_work_is_an_io_error() {
    let start = Env::primitive_bindings();
    let (_, r) = attempt(
        &start,
        "(read-contents \"missing\")",
        vec![Reply::Failed("not found".to_owned())],
    );
    assert_eq!(r, Err(Error::IO("not found".to_owned())));
    let (_, r) = attempt(&start, "(load \"empty\")", vec![Reply::Text(String::new())]);
    assert_eq!(r, Err(Error::EmptyBody));
}

#[test]
fn ports_are_numbered_and_checked() {
    let start = Env::primitive_bindings();
    let (env, r) = attempt(&start, "(open-input-file \"in.txt\")", vec![]);
    assert_eq!(r, Err(Error::Pending));
    match env.pending() {
        Some(Request::OpenRead(path, id)) => {
            assert_eq!(path, "in.txt");
            assert_eq!(id, 0);
        }
        other => panic!("unexpected request {:?}", other),
    }
    let (mut env, r) = attempt(&start, "(define p (open-input-file \"in.txt\"))", vec![Reply::Done]);
    assert_eq!(r, Ok(Value::Port(0)));
    let env2 = env.clone().with_replies(vec![Reply::Text("(1 2)".to_owned())]);
    let (_, r) = attempt(&env2, "(read p)", vec![Reply::Text("(1 2)".to_owned())]);
    assert_eq!(
        r,
        Ok(Value::List(vec![Value::Number(1), Value::Number(2)]))
    );
    let (_, r) = attempt(&env, "(write 1 p)", vec![]);
    assert_eq!(
        r,
        Err(Error::Port(
            "Port was not opened, was closed or is not a write port".to_owned()
        ))
    );
    let form = parse("(close-input-port p)").unwrap();
    env = env.with_replies(vec![Reply::Done]);
    assert_eq!(eval(&mut env, &form), Ok(Value::Bool(true)));
    env = env.with_replies(vec![]);
    assert_eq!(eval(&mut env, &form), Ok(Value::Bool(true)));
    let (_, r) = attempt(&env, "(read p)", vec![]);
    assert_eq!(
        r,
        Err(Error::Port(
            "Port was not opened, was closed or is not a read port".to_owned()
        ))
    );
    let (_, r) = attempt(&env, "(read 5)", vec![]);
    assert_eq!(
        r,
        Err(Error::TypeMismatch("port".to_owned(), Value::Number(5)))
    );
}

#[test]
fn write_sends_the_text_of_the_value() {
    let start = Env::primitive_bindings();
    let (env, _) = attempt(&start, "(define out (open-output-file \"o\"))", vec![Reply::Done]);
    let (env2, r) = attempt(&env, "(write '(a \"b\") out)", vec![]);
    assert_eq!(r, Err(Error::Pending));
    match env2.pending() {
        Some(Request::WriteText(id, text)) => {
            assert_eq!(id, 0);
            assert_eq!(text, "(a \"b\")");
        }
        other => panic!("unexpected request {:?}", other),
    }
    let (_, r) = attempt(&env, "(write '(a \"b\") out)", vec![Reply::Done]);
    assert_eq!(r, Ok(Value::Bool(true)));
}

#[test]
fn read_all_parses_every_form() {
    let start = Env::primitive_bindings();
    let (_, r) = attempt(
        &start,
        "(read-all \"f\")",
        vec![Reply::Text("1 (a) \"s\"".to_owned())],
    );
    assert_eq!(
        r.map(|v| v.to_string()),
        Ok("(1 (a) \"s\")".to_owned())
    );
}
