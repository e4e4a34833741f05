use vstd::prelude::*;

use crate::env::Closure;
use crate::util::{int_text, int_text_exec, intersperse, join_names, join_views};

verus! {

/// The built-in operations that compute on their arguments alone.
#[derive(Clone, Copy, Debug, PartialEq, Eq, Structural)]
pub enum PrimitiveFunc {
    Add,
    Sub,
    Mul,
    Div,
    Rem,
    Eq,
    Lt,
    Gt,
    Ne,
    Ge,
    Le,
    And,
    Or,
    StringEq,
    StringLt,
    StringGt,
    StringLe,
    StringGe,
    Car,
    Cdr,
    Cons,
    Eqv,
    Equal,
}

/// The built-in operations that reach the environment or the world outside.
#[derive(Clone, Copy, Debug, PartialEq, Eq, Structural)]
pub enum IOFunc {
    Apply,
    MakeReadPort,
    MakeWritePort,
    ClosePort,
    Read,
    Write,
    ReadContents,
    ReadAll,
}

pub const QUOTE: &'static str = "quote";

pub const TRUE: &'static str = "#t";

pub const FALSE: &'static str = "#f";

/// A value of the language, and the form of a program: atoms, numbers,
/// strings, booleans, proper and dotted lists, built-in operations, function
/// values with their captured bindings, and ports.
#[derive(Debug)]
pub enum Value {
    Atom(String),
    List(Vec<Value>),
    DottedList(Vec<Value>, Box<Value>),
    Number(i64),
    String(String),
    Bool(bool),
    PrimitiveFunc(PrimitiveFunc),
    Func { params: Vec<String>, vararg: Option<String>, body: Vec<Value>, closure: Closure },
    IOFunc(IOFunc),
    Port(usize),
}

/// The mathematical form of a `Value`: strings as character sequences,
/// vectors as sequences.
pub enum Datum {
    Atom(Seq<char>),
    List(Seq<Datum>),
    DottedList(Seq<Datum>, Box<Datum>),
    Number(i64),
    Str(Seq<char>),
    Bool(bool),
    PrimitiveFunc(PrimitiveFunc),
    Func {
        params: Seq<Seq<char>>,
        vararg: Option<Seq<char>>,
        body: Seq<Datum>,
        closure: Map<Seq<char>, usize>,
    },
    IOFunc(IOFunc),
    Port(usize),
}

pub open spec fn names_view(names: Seq<String>) -> Seq<Seq<char>> {
    names.map_values(|s: String| s@)
}

pub open spec fn opt_name_view(name: Option<String>) -> Option<Seq<char>> {
    match name {
        Some(s) => Some(s@),
        None => None,
    }
}

pub open spec fn value_view(v: Value) -> Datum
    decreases v, 1nat,
{
    match v {
        Value::Atom(s) => Datum::Atom(s@),
        Value::List(vs) => Datum::List(values_view(vs@)),
        Value::DottedList(vs, t) => Datum::DottedList(values_view(vs@), Box::new(value_view(*t))),
        Value::Number(n) => Datum::Number(n),
        Value::String(s) => Datum::Str(s@),
        Value::Bool(b) => Datum::Bool(b),
        Value::PrimitiveFunc(f) => Datum::PrimitiveFunc(f),
        Value::Func { params, vararg, body, closure } => Datum::Func {
            params: names_view(params@),
            vararg: opt_name_view(vararg),
            body: values_view(body@),
            closure: closure@,
        },
        Value::IOFunc(f) => Datum::IOFunc(f),
        Value::Port(p) => Datum::Port(p),
    }
}

pub open spec fn values_view(vs: Seq<Value>) -> Seq<Datum>
    decreases vs, 0nat,
{
    if vs.len() == 0 {
        Seq::empty()
    } else {
        values_view(vs.drop_last()).push(value_view(vs.last()))
    }
}

impl View for Value {
    type V = Datum;

    open spec fn view(&self) -> Datum {
        value_view(*self)
    }
}


pub proof fn lemma_values_view(vs: Seq<Value>)
    ensures
        values_view(vs).len() == vs.len(),
        forall|i: int| 0 <= i < vs.len() ==> #[trigger] values_view(vs)[i] == value_view(vs[i]),
    decreases vs.len(),
{
    if vs.len() > 0 {
        lemma_values_view(vs.drop_last());
    }
}

/// Copies the values at positions `lo` up to `hi` of a sequence.
pub fn clone_range(vs: &[Value], lo: usize, hi: usize) -> (r: Vec<Value>)
    requires
        lo <= hi <= vs@.len(),
    ensures
        values_view(r@) == values_view(vs@).subrange(lo as int, hi as int),
    decreases vs@, 0nat,
{
    let mut out: Vec<Value> = Vec::new();
    let mut i: usize = lo;
    while i < hi
        invariant
            lo <= i <= hi,
            hi <= vs@.len(),
            out@.len() == i - lo,
            forall|j: int| 0 <= j < i - lo ==> value_view(#[trigger] out@[j]) == value_view(vs@[lo + j]),
        decreases hi - i,
    {
        proof {
            assert(decreases_to!(vs@ => vs@[i as int]));
        }
        let c = vs[i].clone();
        out.push(c);
        i = i + 1;
    }
    proof {
        lemma_values_view(out@);
        lemma_values_view(vs@);
        assert(values_view(out@) =~= values_view(vs@).subrange(lo as int, hi as int));
    }
    out
}

/// Copies a sequence of values element by element.
pub fn clone_values(vs: &[Value]) -> (r: Vec<Value>)
    ensures
        values_view(r@) == values_view(vs@),
    decreases vs@, 1nat,
{
    proof {
        lemma_values_view(vs@);
        assert(values_view(vs@).subrange(0, vs@.len() as int) =~= values_view(vs@));
    }
    clone_range(vs, 0, vs.len())
}

fn clone_names(names: &Vec<String>) -> (r: Vec<String>)
    ensures
        names_view(r@) == names_view(names@),
{
    let mut out: Vec<String> = Vec::new();
    let mut i: usize = 0;
    while i < names.len()
        invariant
            i <= names.len(),
            out@.len() == i,
            forall|j: int| 0 <= j < i ==> (#[trigger] out@[j])@ == names@[j]@,
        decreases names.len() - i,
    {
        out.push(names[i].clone());
        i = i + 1;
    }
    proof {
        assert(names_view(out@) =~= names_view(names@));
    }
    out
}

impl Clone for Value {
    fn clone(&self) -> (r: Self)
        ensures
            r@ == self@,
        decreases self, 2nat,
    {
        match self {
            Value::Atom(s) => Value::Atom(s.clone()),
            Value::List(vs) => Value::List(clone_values(vs.as_slice())),
            Value::DottedList(vs, t) => Value::DottedList(clone_values(vs.as_slice()), Box::new((**t).clone())),
            Value::Number(n) => Value::Number(*n),
            Value::String(s) => Value::String(s.clone()),
            Value::Bool(b) => Value::Bool(*b),
            Value::PrimitiveFunc(f) => Value::PrimitiveFunc(*f),
            Value::Func { params, vararg, body, closure } => {
                let vararg = match vararg {
                    Some(a) => Some(a.clone()),
                    None => None,
                };
                Value::Func {
                    params: clone_names(params),
                    vararg,
                    body: clone_values(body.as_slice()),
                    closure: closure.clone(),
                }
            },
            Value::IOFunc(f) => Value::IOFunc(*f),
            Value::Port(p) => Value::Port(*p),
        }
    }
}


pub fn values_eq(a: &[Value], b: &[Value]) -> (r: bool)
    ensures
        r == (values_view(a@) == values_view(b@)),
    decreases a@, 0nat,
{
    proof {
        lemma_values_view(a@);
        lemma_values_view(b@);
    }
    if a.len() != b.len() {
        return false;
    }
    let mut i: usize = 0;
    while i < a.len()
        invariant
            i <= a.len(),
            a.len() == b.len(),
            values_view(a@).len() == a.len(),
            values_view(b@).len() == b.len(),
            forall|j: int| 0 <= j < a.len() ==> #[trigger] values_view(a@)[j] == value_view(a@[j]),
            forall|j: int| 0 <= j < b.len() ==> #[trigger] values_view(b@)[j] == value_view(b@[j]),
            forall|j: int| 0 <= j < i ==> #[trigger] values_view(a@)[j] == values_view(b@)[j],
        decreases a.len() - i,
    {
        proof {
            assert(decreases_to!(a@ => a@[i as int]));
        }
        if !a[i].eq(&b[i]) {
            proof {
                assert(values_view(a@)[i as int] != values_view(b@)[i as int]);
            }
            return false;
        }
        i = i + 1;
    }
    proof {
        assert(values_view(a@) =~= values_view(b@));
    }
    true
}

fn names_eq(a: &Vec<String>, b: &Vec<String>) -> (r: bool)
    ensures
        r == (names_view(a@) == names_view(b@)),
{
    if a.len() != b.len() {
        proof {
            assert(names_view(a@).len() != names_view(b@).len());
        }
        return false;
    }
    let mut i: usize = 0;
    while i < a.len()
        invariant
            i <= a.len(),
            a.len() == b.len(),
            forall|j: int| 0 <= j < i ==> #[trigger] names_view(a@)[j] == names_view(b@)[j],
        decreases a.len() - i,
    {
        if a[i] != b[i] {
            proof {
                assert(names_view(a@)[i as int] != names_view(b@)[i as int]);
            }
            return false;
        }
        i = i + 1;
    }
    proof {
        assert(names_view(a@) =~= names_view(b@));
    }
    true
}

impl PartialEq for Value {
    fn eq(&self, other: &Value) -> (r: bool)
        ensures
            r == (self@ == other@),
        decreases self, 1nat,
    {
        match (self, other) {
            (Value::Atom(a), Value::Atom(b)) => *a == *b,
            (Value::List(a), Value::List(b)) => values_eq(a.as_slice(), b.as_slice()),
            (Value::DottedList(a, x), Value::DottedList(b, y)) => {
                values_eq(a.as_slice(), b.as_slice()) && (**x).eq(&**y)
            },
            (Value::Number(a), Value::Number(b)) => a == b,
            (Value::String(a), Value::String(b)) => *a == *b,
            (Value::Bool(a), Value::Bool(b)) => a == b,
            (
                Value::Func { params: p1, vararg: v1, body: b1, closure: c1 },
                Value::Func { params: p2, vararg: v2, body: b2, closure: c2 },
            ) => {
                let same_vararg = match (v1, v2) {
                    (Some(x), Some(y)) => *x == *y,
                    (None, None) => true,
                    _ => false,
                };
                names_eq(p1, p2) && same_vararg && values_eq(b1.as_slice(), b2.as_slice()) && c1 == c2
            },
            (Value::PrimitiveFunc(a), Value::PrimitiveFunc(b)) => a == b,
            (Value::IOFunc(a), Value::IOFunc(b)) => a == b,
            (Value::Port(a), Value::Port(b)) => a == b,
            _ => false,
        }
    }
}

impl vstd::std_specs::cmp::PartialEqSpecImpl for Value {
    open spec fn obeys_eq_spec() -> bool {
        true
    }

    open spec fn eq_spec(&self, other: &Value) -> bool {
        self@ == other@
    }
}


/// The canonical text of a value.
pub open spec fn show(d: Datum) -> Seq<char>
    decreases d, 1nat,
{
    match d {
        Datum::Str(s) => seq!['"'] + s + seq!['"'],
        Datum::Atom(a) => a,
        Datum::Number(n) => int_text(n as int),
        Datum::Bool(b) => if b {
            TRUE@
        } else {
            FALSE@
        },
        Datum::List(l) => seq!['('] + show_all(l) + seq![')'],
        Datum::DottedList(xs, x) => seq!['('] + show_all(xs) + " . "@ + show(*x) + seq![')'],
        Datum::PrimitiveFunc(_) => "<primitive>"@,
        Datum::Func { params, vararg, .. } => "(lambda ("@ + join_views(params) + match vararg {
            Some(a) => " . "@ + a,
            None => Seq::empty(),
        } + ") ...)"@,
        Datum::IOFunc(_) => "<IO primitive>"@,
        Datum::Port(_) => "<IO port>"@,
    }
}

/// The texts of the values, separated by single spaces.
pub open spec fn show_all(l: Seq<Datum>) -> Seq<char>
    decreases l, 0nat,
{
    if l.len() == 0 {
        Seq::empty()
    } else if l.len() == 1 {
        show(l[0])
    } else {
        show_all(l.drop_last()) + seq![' '] + show(l.last())
    }
}

impl Value {
    /// The canonical text of this value.
    pub fn to_string(&self) -> (r: String)
        ensures
            r@ == show(self@),
        decreases self, 1nat,
    {
        match self {
            Value::String(s) => {
                let mut r = String::new();
                r.append("\"");
                r.append(s.as_str());
                r.append("\"");
                proof {
                    reveal_strlit("\"");
                    assert(r@ =~= show(self@));
                }
                r
            },
            Value::Atom(a) => a.clone(),
            Value::Number(n) => int_text_exec(*n),
            Value::Bool(b) => if *b {
                TRUE.to_owned()
            } else {
                FALSE.to_owned()
            },
            Value::List(l) => {
                let mut r = String::new();
                r.append("(");
                let inner = intersperse(l.as_slice());
                r.append(inner.as_str());
                r.append(")");
                proof {
                    reveal_strlit("(");
                    reveal_strlit(")");
                    assert(r@ =~= show(self@));
                }
                r
            },
            Value::DottedList(xs, x) => {
                let mut r = String::new();
                r.append("(");
                let inner = intersperse(xs.as_slice());
                r.append(inner.as_str());
                r.append(" . ");
                let last = (**x).to_string();
                r.append(last.as_str());
                r.append(")");
                proof {
                    reveal_strlit("(");
                    reveal_strlit(")");
                    assert(r@ =~= show(self@));
                }
                r
            },
            Value::PrimitiveFunc(_) => "<primitive>".to_owned(),
            Value::Func { params, vararg, .. } => {
                let mut r = String::new();
                r.append("(lambda (");
                let inner = join_names(params.as_slice());
                r.append(inner.as_str());
                match vararg {
                    Some(a) => {
                        r.append(" . ");
                        r.append(a.as_str());
                    },
                    None => {},
                }
                r.append(") ...)");
                proof {
                    assert(r@ =~= show(self@));
                }
                r
            },
            Value::IOFunc(_) => "<IO primitive>".to_owned(),
            Value::Port(_) => "<IO port>".to_owned(),
        }
    }
}

} // verus!
