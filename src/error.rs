use vstd::prelude::*;

use crate::lexer::{clone_tokens, lexeme_text, lexemes_text, tokens_text, tokens_view, Lexeme, Token};
use crate::util::{intersperse, nat_text, nat_text_exec};
use crate::value::{clone_values, show, show_all, values_eq, values_view, Datum, Value};

verus! {

/// Why a text does not parse as one expression.
#[derive(Debug)]
pub enum ParserError {
    NoMoreTokens,
    UnexpectedToken(Token),
    ExpectedToken(Token, Token),
    TokensLeft(Vec<Token>),
}

/// The mathematical form of a `ParserError`.
pub enum ParseFault {
    NoMoreTokens,
    UnexpectedToken(Lexeme),
    ExpectedToken(Lexeme, Lexeme),
    TokensLeft(Seq<Lexeme>),
}

impl View for ParserError {
    type V = ParseFault;

    open spec fn view(&self) -> ParseFault {
        match *self {
            ParserError::NoMoreTokens => ParseFault::NoMoreTokens,
            ParserError::UnexpectedToken(t) => ParseFault::UnexpectedToken(t@),
            ParserError::ExpectedToken(a, b) => ParseFault::ExpectedToken(a@, b@),
            ParserError::TokensLeft(ts) => ParseFault::TokensLeft(tokens_view(ts@)),
        }
    }
}

fn tokens_eq(a: &Vec<Token>, b: &Vec<Token>) -> (r: bool)
    ensures
        r == (tokens_view(a@) == tokens_view(b@)),
{
    if a.len() != b.len() {
        proof {
            assert(tokens_view(a@).len() != tokens_view(b@).len());
        }
        return false;
    }
    let mut i: usize = 0;
    while i < a.len()
        invariant
            i <= a.len(),
            a.len() == b.len(),
            forall|j: int| 0 <= j < i ==> (#[trigger] a@[j])@ == b@[j]@,
        decreases a.len() - i,
    {
        if !(a[i] == b[i]) {
            proof {
                assert(tokens_view(a@)[i as int] != tokens_view(b@)[i as int]);
            }
            return false;
        }
        i = i + 1;
    }
    proof {
        assert(tokens_view(a@) =~= tokens_view(b@));
    }
    true
}

impl PartialEq for ParserError {
    fn eq(&self, other: &ParserError) -> (r: bool)
        ensures
            r == (self@ == other@),
    {
        match (self, other) {
            (ParserError::NoMoreTokens, ParserError::NoMoreTokens) => true,
            (ParserError::UnexpectedToken(a), ParserError::UnexpectedToken(b)) => a == b,
            (ParserError::ExpectedToken(a1, a2), ParserError::ExpectedToken(b1, b2)) => {
                a1 == b1 && a2 == b2
            },
            (ParserError::TokensLeft(a), ParserError::TokensLeft(b)) => tokens_eq(a, b),
            _ => false,
        }
    }
}

impl vstd::std_specs::cmp::PartialEqSpecImpl for ParserError {
    open spec fn obeys_eq_spec() -> bool {
        true
    }

    open spec fn eq_spec(&self, other: &ParserError) -> bool {
        self@ == other@
    }
}

impl Clone for ParserError {
    fn clone(&self) -> (r: Self)
        ensures
            r@ == self@,
    {
        match self {
            ParserError::NoMoreTokens => ParserError::NoMoreTokens,
            ParserError::UnexpectedToken(t) => ParserError::UnexpectedToken(t.clone()),
            ParserError::ExpectedToken(a, b) => ParserError::ExpectedToken(a.clone(), b.clone()),
            ParserError::TokensLeft(ts) => ParserError::TokensLeft(clone_tokens(ts.as_slice())),
        }
    }
}

/// Why an evaluation failed.
#[derive(Debug)]
pub enum Error {
    NumArgs(usize, Vec<Value>),
    TypeMismatch(String, Value),
    Parser(ParserError),
    BadSpecialForm(String, Value),
    NotFunction(Value),
    UnboundVar(String, String),
    EmptyBody,
    IO(String),
    Port(String),
    TooDeep,
    /// The evaluation stopped to wait for outside work: see `Env::pending`.
    Pending,
}

/// The mathematical form of an `Error`.
pub enum Fault {
    NumArgs(usize, Seq<Datum>),
    TypeMismatch(Seq<char>, Datum),
    Parser(ParseFault),
    BadSpecialForm(Seq<char>, Datum),
    NotFunction(Datum),
    UnboundVar(Seq<char>, Seq<char>),
    EmptyBody,
    IO(Seq<char>),
    Port(Seq<char>),
    TooDeep,
    Pending,
}

impl View for Error {
    type V = Fault;

    open spec fn view(&self) -> Fault {
        match *self {
            Error::NumArgs(n, vs) => Fault::NumArgs(n, values_view(vs@)),
            Error::TypeMismatch(k, v) => Fault::TypeMismatch(k@, v@),
            Error::Parser(e) => Fault::Parser(e@),
            Error::BadSpecialForm(m, v) => Fault::BadSpecialForm(m@, v@),
            Error::NotFunction(v) => Fault::NotFunction(v@),
            Error::UnboundVar(m, n) => Fault::UnboundVar(m@, n@),
            Error::EmptyBody => Fault::EmptyBody,
            Error::IO(m) => Fault::IO(m@),
            Error::Port(m) => Fault::Port(m@),
            Error::TooDeep => Fault::TooDeep,
            Error::Pending => Fault::Pending,
        }
    }
}

impl PartialEq for Error {
    fn eq(&self, other: &Error) -> (r: bool)
        ensures
            r == (self@ == other@),
    {
        match (self, other) {
            (Error::NumArgs(n1, v1), Error::NumArgs(n2, v2)) => {
                *n1 == *n2 && values_eq(v1.as_slice(), v2.as_slice())
            },
            (Error::TypeMismatch(k1, v1), Error::TypeMismatch(k2, v2)) => *k1 == *k2 && v1 == v2,
            (Error::Parser(e1), Error::Parser(e2)) => e1 == e2,
            (Error::BadSpecialForm(m1, v1), Error::BadSpecialForm(m2, v2)) => {
                *m1 == *m2 && v1 == v2
            },
            (Error::NotFunction(v1), Error::NotFunction(v2)) => v1 == v2,
            (Error::UnboundVar(m1, n1), Error::UnboundVar(m2, n2)) => *m1 == *m2 && *n1 == *n2,
            (Error::EmptyBody, Error::EmptyBody) => true,
            (Error::IO(m1), Error::IO(m2)) => *m1 == *m2,
            (Error::Port(m1), Error::Port(m2)) => *m1 == *m2,
            (Error::TooDeep, Error::TooDeep) => true,
            (Error::Pending, Error::Pending) => true,
            _ => false,
        }
    }
}

impl vstd::std_specs::cmp::PartialEqSpecImpl for Error {
    open spec fn obeys_eq_spec() -> bool {
        true
    }

    open spec fn eq_spec(&self, other: &Error) -> bool {
        self@ == other@
    }
}

impl Clone for Error {
    fn clone(&self) -> (r: Self)
        ensures
            r@ == self@,
    {
        match self {
            Error::NumArgs(n, vs) => Error::NumArgs(*n, clone_values(vs.as_slice())),
            Error::TypeMismatch(k, v) => Error::TypeMismatch(k.clone(), v.clone()),
            Error::Parser(e) => Error::Parser(e.clone()),
            Error::BadSpecialForm(m, v) => Error::BadSpecialForm(m.clone(), v.clone()),
            Error::NotFunction(v) => Error::NotFunction(v.clone()),
            Error::UnboundVar(m, n) => Error::UnboundVar(m.clone(), n.clone()),
            Error::EmptyBody => Error::EmptyBody,
            Error::IO(m) => Error::IO(m.clone()),
            Error::Port(m) => Error::Port(m.clone()),
            Error::TooDeep => Error::TooDeep,
            Error::Pending => Error::Pending,
        }
    }
}

/// The message for a parse failure.
pub open spec fn parse_fault_text(f: ParseFault) -> Seq<char> {
    match f {
        ParseFault::NoMoreTokens => "No more tokens"@,
        ParseFault::UnexpectedToken(t) => "Unexpected token: "@ + lexeme_text(t),
        ParseFault::ExpectedToken(a, b) => "Expected token "@ + lexeme_text(a) + ", found "@
            + lexeme_text(b),
        ParseFault::TokensLeft(ts) => "Tokens left: "@ + lexemes_text(ts),
    }
}

/// The message for an evaluation failure.
pub open spec fn fault_text(f: Fault) -> Seq<char> {
    match f {
        Fault::UnboundVar(m, n) => m + ": "@ + n,
        Fault::BadSpecialForm(m, v) => m + ": "@ + show(v),
        Fault::NotFunction(v) => "Not a function: "@ + show(v),
        Fault::NumArgs(n, vs) => "Expected "@ + nat_text(n as nat) + " args; found values "@
            + show_all(vs),
        Fault::TypeMismatch(k, v) => "Invalid type: expected "@ + k + ", found "@ + show(v),
        Fault::Parser(e) => "Parse error at "@ + parse_fault_text(e),
        Fault::EmptyBody => "Function has empty body"@,
        Fault::IO(m) => "IO error: "@ + m,
        Fault::Port(m) => "Port error: "@ + m,
        Fault::TooDeep => "Too many nested calls"@,
        Fault::Pending => "Waiting for outside work"@,
    }
}

impl ParserError {
    /// The message for this failure.
    pub fn to_string(&self) -> (r: String)
        ensures
            r@ == parse_fault_text(self@),
    {
        match self {
            ParserError::NoMoreTokens => "No more tokens".to_owned(),
            ParserError::UnexpectedToken(t) => {
                let mut r = "Unexpected token: ".to_owned();
                r.append(t.to_string().as_str());
                r
            },
            ParserError::ExpectedToken(a, b) => {
                let mut r = "Expected token ".to_owned();
                r.append(a.to_string().as_str());
                r.append(", found ");
                r.append(b.to_string().as_str());
                r
            },
            ParserError::TokensLeft(ts) => {
                let mut r = "Tokens left: ".to_owned();
                r.append(tokens_text(ts.as_slice()).as_str());
                r
            },
        }
    }
}

impl Error {
    /// The message for this failure.
    pub fn to_string(&self) -> (r: String)
        ensures
            r@ == fault_text(self@),
    {
        match self {
            Error::UnboundVar(m, n) => {
                let mut r = m.clone();
                r.append(": ");
                r.append(n.as_str());
                r
            },
            Error::BadSpecialForm(m, v) => {
                let mut r = m.clone();
                r.append(": ");
                r.append(v.to_string().as_str());
                r
            },
            Error::NotFunction(v) => {
                let mut r = "Not a function: ".to_owned();
                r.append(v.to_string().as_str());
                r
            },
            Error::NumArgs(n, vs) => {
                let mut r = "Expected ".to_owned();
                r.append(nat_text_exec(*n as u64).as_str());
                r.append(" args; found values ");
                r.append(intersperse(vs.as_slice()).as_str());
                r
            },
            Error::TypeMismatch(k, v) => {
                let mut r = "Invalid type: expected ".to_owned();
                r.append(k.as_str());
                r.append(", found ");
                r.append(v.to_string().as_str());
                r
            },
            Error::Parser(e) => {
                let mut r = "Parse error at ".to_owned();
                r.append(e.to_string().as_str());
                r
            },
            Error::EmptyBody => "Function has empty body".to_owned(),
            Error::IO(m) => {
                let mut r = "IO error: ".to_owned();
                r.append(m.as_str());
                r
            },
            Error::Port(m) => {
                let mut r = "Port error: ".to_owned();
                r.append(m.as_str());
                r
            },
            Error::TooDeep => "Too many nested calls".to_owned(),
            Error::Pending => "Waiting for outside work".to_owned(),
        }
    }
}

/// The mathematical form of an evaluation's outcome.
pub open spec fn outcome(r: Result<Value, Error>) -> Result<Datum, Fault> {
    match r {
        Ok(v) => Ok(v@),
        Err(e) => Err(e@),
    }
}

} // verus!
