use vstd::prelude::*;

use crate::env::{Env, EnvModel, NOT_READ_PORT, NOT_WRITE_PORT, UNEXPECTED_REPLY};
use crate::host::{PortState, Reply, ReplyModel, Request, RequestModel};
use crate::parser::{parse, parse_all, parse_all_spec, parse_spec};
use crate::error::{outcome, Error, Fault};
use crate::primitive::primitive_spec;
use crate::primitive::apply_primitive;
use crate::value::{
    clone_range, clone_values, lemma_values_view, names_view, show, values_view, Datum, IOFunc,
    Value,
};

verus! {

/// How many nested function calls an evaluation may make; one more fails
/// with `Error::TooDeep` instead of exhausting the stack.
pub const MAX_DEPTH: usize = 128;

/// The number of nodes of a value's tree.
pub open spec fn size(d: Datum) -> nat
    decreases d, 1nat,
{
    match d {
        Datum::List(xs) => 1 + size_seq(xs),
        Datum::DottedList(xs, t) => 1 + size_seq(xs) + size(*t),
        _ => 1,
    }
}

pub open spec fn size_seq(xs: Seq<Datum>) -> nat
    decreases xs, 0nat,
{
    if xs.len() == 0 {
        0
    } else {
        size_seq(xs.drop_last()) + size(xs.last())
    }
}

pub proof fn lemma_size_pos(d: Datum)
    ensures
        size(d) >= 1,
{
}

pub proof fn lemma_size_seq(xs: Seq<Datum>)
    ensures
        forall|i: int| 0 <= i < xs.len() ==> size(#[trigger] xs[i]) <= size_seq(xs),
        xs.len() > 0 ==> size_seq(xs.drop_last()) < size_seq(xs),
        xs.len() > 0 ==> size_seq(xs.drop_first()) < size_seq(xs),
    decreases xs.len(),
{
    if xs.len() > 0 {
        lemma_size_pos(xs.last());
        lemma_size_pos(xs[0]);
        lemma_size_seq(xs.drop_last());
        if xs.len() > 1 {
            assert(xs.drop_first().drop_last() =~= xs.drop_last().drop_first());
            assert(xs.drop_first().last() == xs.last());
        } else {
            assert(xs.drop_first().len() == 0);
        }
        assert forall|i: int| 0 <= i < xs.len() implies size(#[trigger] xs[i]) <= size_seq(xs) by {
            if i < xs.len() - 1 {
                assert(xs.drop_last()[i] == xs[i]);
            }
        }
    }
}

pub open spec fn bad_form(v: Datum) -> Fault {
    Fault::BadSpecialForm("unrecognized special form"@, v)
}

/// Whether `d` is the atom `word`.
pub open spec fn is_word(d: Datum, word: Seq<char>) -> bool {
    d == Datum::Atom(word)
}

/// The parameter names of a function literal: each parameter's text.
pub open spec fn names_of(ps: Seq<Datum>) -> Seq<Seq<char>> {
    ps.map_values(|p: Datum| show(p))
}

/// A function value over the bindings in effect.
pub open spec fn func_spec(
    e: EnvModel,
    ps: Seq<Datum>,
    vararg: Option<Seq<char>>,
    body: Seq<Datum>,
) -> Datum {
    Datum::Func { params: names_of(ps), vararg, body, closure: e.bindings }
}

/// Binds each parameter name to its argument, in order, each in a new slot.
pub open spec fn bind_params(e: EnvModel, names: Seq<Seq<char>>, args: Seq<Datum>) -> EnvModel
    decreases names.len(),
{
    if names.len() == 0 {
        e
    } else {
        bind_params(e, names.drop_last(), args).define(names.last(), args[names.len() - 1])
    }
}

/// The result of evaluating a form, with the environment it leaves.
pub open spec fn eval_spec(e: EnvModel, v: Datum, depth: nat) -> (EnvModel, Result<Datum, Fault>)
    decreases depth, size(v), 3nat,
{
    match v {
        Datum::Str(_) | Datum::Number(_) | Datum::Bool(_) => (e, Ok(v)),
        Datum::Atom(name) => (
            e,
            match e.lookup(name) {
                Some(i) => Ok(e.slots[i as int]),
                None => Err(Fault::UnboundVar("Getting an unbound variable"@, name)),
            },
        ),
        Datum::List(xs) => eval_list_spec(e, xs, depth),
        _ => (e, Err(bad_form(v))),
    }
}

/// The result of evaluating the list form with elements `xs`.
pub open spec fn eval_list_spec(e: EnvModel, xs: Seq<Datum>, depth: nat) -> (
    EnvModel,
    Result<Datum, Fault>,
)
    decreases depth, size_seq(xs) + 1, 2nat,
{
    proof {
        lemma_size_seq(xs);
    }
    let v = Datum::List(xs);
    let n = xs.len();
    if n == 0 {
        (e, Err(bad_form(v)))
    } else if n == 2 && is_word(xs[0], "quote"@) {
        (e, Ok(xs[1]))
    } else if n == 4 && is_word(xs[0], "if"@) {
        let (e1, p) = eval_spec(e, xs[1], depth);
        match p {
            Err(f) => (e1, Err(f)),
            Ok(Datum::Bool(false)) => eval_spec(e1, xs[3], depth),
            Ok(_) => eval_spec(e1, xs[2], depth),
        }
    } else if n == 3 && is_word(xs[0], "set!"@) && xs[1] is Atom {
        let (e1, r) = eval_spec(e, xs[2], depth);
        match r {
            Err(f) => (e1, Err(f)),
            Ok(val) => match e1.lookup(xs[1]->Atom_0) {
                Some(i) => (EnvModel { slots: e1.slots.update(i as int, val), ..e1 }, Ok(val)),
                None => (e1, Err(Fault::UnboundVar("Setting an unbound var"@, xs[1]->Atom_0))),
            },
        }
    } else if n == 3 && is_word(xs[0], "define"@) && xs[1] is Atom {
        let (e1, r) = eval_spec(e, xs[2], depth);
        match r {
            Err(f) => (e1, Err(f)),
            Ok(val) => (e1.define(xs[1]->Atom_0, val), Ok(val)),
        }
    } else {
        eval_compound_spec(e, xs, depth)
    }
}

/// The result of evaluating a non-empty list form that is none of `quote`,
/// `if`, `set!` and `define` of a variable: a function definition, a
/// function literal, a `load`, or a call.
pub open spec fn eval_compound_spec(e: EnvModel, xs: Seq<Datum>, depth: nat) -> (
    EnvModel,
    Result<Datum, Fault>,
)
    decreases depth, size_seq(xs) + 1, 1nat,
{
    proof {
        lemma_size_seq(xs);
    }
    let v = Datum::List(xs);
    let n = xs.len();
    if n == 0 {
        (e, Err(bad_form(v)))
    } else if n >= 2 && is_word(xs[0], "define"@) && (xs[1] is List || xs[1] is DottedList) {
        let (name_args, vararg) = match xs[1] {
            Datum::List(na) => (na, None),
            Datum::DottedList(na, t) => (na, Some(show(*t))),
            _ => (Seq::empty(), None),
        };
        if name_args.len() >= 1 && name_args[0] is Atom {
            let f = func_spec(e, name_args.drop_first(), vararg, xs.subrange(2, n as int));
            (e.define(name_args[0]->Atom_0, f), Ok(f))
        } else {
            (e, Err(bad_form(v)))
        }
    } else if n >= 2 && is_word(xs[0], "lambda"@) && xs[1] is List {
        (e, Ok(func_spec(e, xs[1]->List_0, None, xs.subrange(2, n as int))))
    } else if n >= 2 && is_word(xs[0], "lambda"@) && xs[1] is DottedList {
        (
            e,
            Ok(
                func_spec(
                    e,
                    xs[1]->DottedList_0,
                    Some(show(*xs[1]->DottedList_1)),
                    xs.subrange(2, n as int),
                ),
            ),
        )
    } else if n >= 2 && is_word(xs[0], "lambda"@) && xs[1] is Atom {
        (e, Ok(func_spec(e, Seq::empty(), Some(xs[1]->Atom_0), xs.subrange(2, n as int))))
    } else if n == 2 && is_word(xs[0], "load"@) && xs[1] is Str {
        let (e1, rep) = e.perform(RequestModel::ReadFile(xs[1]->Str_0));
        match text_of_reply(rep) {
            Err(f) => (e1, Err(f)),
            Ok(t) => match parse_all_spec(t) {
                Err(pf) => (e1, Err(Fault::Parser(pf))),
                Ok(forms) => if depth == 0 {
                    (e1, Err(Fault::TooDeep))
                } else {
                    eval_body_spec(e1, forms, (depth - 1) as nat)
                },
            },
        }
    } else {
        let (e1, fr) = eval_spec(e, xs[0], depth);
        match fr {
            Err(f) => (e1, Err(f)),
            Ok(func) => {
                let (e2, ar) = eval_args_spec(e1, xs.drop_first(), depth);
                match ar {
                    Err(f) => (e2, Err(f)),
                    Ok(args) => {
                        let (e3, r) = apply_spec(e2, func, args, depth);
                        (EnvModel { bindings: e2.bindings, ..e3 }, r)
                    },
                }
            },
        }
    }
}

/// Evaluates the forms in order, left to right.
pub open spec fn eval_args_spec(e: EnvModel, xs: Seq<Datum>, depth: nat) -> (
    EnvModel,
    Result<Seq<Datum>, Fault>,
)
    decreases depth, size_seq(xs), 4nat,
{
    proof {
        lemma_size_seq(xs);
    }
    if xs.len() == 0 {
        (e, Ok(Seq::empty()))
    } else {
        let (e1, r) = eval_args_spec(e, xs.drop_last(), depth);
        match r {
            Err(f) => (e1, Err(f)),
            Ok(vs) => {
                let (e2, r2) = eval_spec(e1, xs.last(), depth);
                match r2 {
                    Err(f) => (e2, Err(f)),
                    Ok(v) => (e2, Ok(vs.push(v))),
                }
            },
        }
    }
}

/// Evaluates the forms of a body in order; the last one's value is the
/// result, and an empty body is an error.
pub open spec fn eval_body_spec(e: EnvModel, body: Seq<Datum>, depth: nat) -> (
    EnvModel,
    Result<Datum, Fault>,
)
    decreases depth, size_seq(body), 4nat,
{
    proof {
        lemma_size_seq(body);
    }
    if body.len() == 0 {
        (e, Err(Fault::EmptyBody))
    } else if body.len() == 1 {
        eval_spec(e, body[0], depth)
    } else {
        let (e1, r) = eval_body_spec(e, body.drop_last(), depth);
        match r {
            Err(f) => (e1, Err(f)),
            Ok(_) => eval_spec(e1, body.last(), depth),
        }
    }
}

/// The one argument, a string: the path of a file.
pub open spec fn path_arg(args: Seq<Datum>) -> Result<Seq<char>, Fault> {
    if args.len() != 1 {
        Err(Fault::NumArgs(1, args))
    } else {
        match args[0] {
            Datum::Str(p) => Ok(p),
            other => Err(Fault::TypeMismatch("string"@, other)),
        }
    }
}

/// A port argument: its number.
pub open spec fn port_arg(d: Datum) -> Result<usize, Fault> {
    match d {
        Datum::Port(id) => Ok(id),
        other => Err(Fault::TypeMismatch("port"@, other)),
    }
}

/// The text that an answer carries.
pub open spec fn text_of_reply(rep: Option<ReplyModel>) -> Result<Seq<char>, Fault> {
    match rep {
        None => Err(Fault::Pending),
        Some(ReplyModel::Text(t)) => Ok(t),
        Some(ReplyModel::Failed(m)) => Err(Fault::IO(m)),
        Some(ReplyModel::Done) => Err(Fault::IO(UNEXPECTED_REPLY@)),
    }
}

/// Whether an answer says the work was done.
pub open spec fn done_reply(rep: Option<ReplyModel>) -> Result<(), Fault> {
    match rep {
        None => Err(Fault::Pending),
        Some(ReplyModel::Done) => Ok(()),
        Some(ReplyModel::Failed(m)) => Err(Fault::IO(m)),
        Some(ReplyModel::Text(_)) => Err(Fault::IO(UNEXPECTED_REPLY@)),
    }
}

/// The result of an operation on files and ports, with the environment it
/// leaves.
pub open spec fn io_spec(e: EnvModel, f: IOFunc, args: Seq<Datum>) -> (EnvModel, Result<Datum, Fault>) {
    match f {
        IOFunc::MakeReadPort | IOFunc::MakeWritePort => match path_arg(args) {
            Err(x) => (e, Err(x)),
            Ok(p) => e.open_port(
                p,
                if f == IOFunc::MakeReadPort {
                    PortState::Read
                } else {
                    PortState::Write
                },
            ),
        },
        IOFunc::ClosePort => if args.len() != 1 {
            (e, Err(Fault::NumArgs(1, args)))
        } else {
            match port_arg(args[0]) {
                Err(x) => (e, Err(x)),
                Ok(id) => e.close_port(id),
            }
        },
        IOFunc::Read => if args.len() != 1 {
            (e, Err(Fault::NumArgs(1, args)))
        } else {
            match port_arg(args[0]) {
                Err(x) => (e, Err(x)),
                Ok(id) => if !e.is_port(id, PortState::Read) {
                    (e, Err(Fault::Port(NOT_READ_PORT@)))
                } else {
                    let (e1, rep) = e.perform(RequestModel::ReadLine(id));
                    match text_of_reply(rep) {
                        Err(x) => (e1, Err(x)),
                        Ok(t) => (
                            e1,
                            match parse_spec(t) {
                                Ok(d) => Ok(d),
                                Err(pf) => Err(Fault::Parser(pf)),
                            },
                        ),
                    }
                },
            }
        },
        IOFunc::Write => if args.len() != 2 {
            (e, Err(Fault::NumArgs(2, args)))
        } else {
            match port_arg(args[1]) {
                Err(x) => (e, Err(x)),
                Ok(id) => if !e.is_port(id, PortState::Write) {
                    (e, Err(Fault::Port(NOT_WRITE_PORT@)))
                } else {
                    let (e1, rep) = e.perform(RequestModel::WriteText(id, show(args[0])));
                    match done_reply(rep) {
                        Err(x) => (e1, Err(x)),
                        Ok(()) => (e1, Ok(Datum::Bool(true))),
                    }
                },
            }
        },
        IOFunc::ReadContents => match path_arg(args) {
            Err(x) => (e, Err(x)),
            Ok(p) => {
                let (e1, rep) = e.perform(RequestModel::ReadFile(p));
                match text_of_reply(rep) {
                    Err(x) => (e1, Err(x)),
                    Ok(t) => (e1, Ok(Datum::Str(t))),
                }
            },
        },
        IOFunc::ReadAll => match path_arg(args) {
            Err(x) => (e, Err(x)),
            Ok(p) => {
                let (e1, rep) = e.perform(RequestModel::ReadFile(p));
                match text_of_reply(rep) {
                    Err(x) => (e1, Err(x)),
                    Ok(t) => (
                        e1,
                        match parse_all_spec(t) {
                            Ok(forms) => Ok(Datum::List(forms)),
                            Err(pf) => Err(Fault::Parser(pf)),
                        },
                    ),
                }
            },
        },
        IOFunc::Apply => (e, Err(Fault::NotFunction(Datum::IOFunc(f)))),
    }
}

/// The result of calling `func` on `args`, with the environment it leaves.
/// A built-in operation runs on the arguments. `apply` calls its first
/// argument on the elements of its second when that is a list, else on the
/// rest of its arguments. A function value needs one argument for each
/// parameter, and with a rest parameter may take more, which the rest
/// parameter receives as a list; it lays its captured bindings over the
/// current ones, binds each parameter in a new slot, and evaluates its body
/// one call deeper. The caller restores its own bindings afterwards (see
/// `eval_compound_spec`), while the slots keep what the call stored in them.
pub open spec fn apply_spec(e: EnvModel, func: Datum, args: Seq<Datum>, depth: nat) -> (
    EnvModel,
    Result<Datum, Fault>,
)
    decreases depth, 0nat, 0nat,
{
    match func {
        Datum::PrimitiveFunc(p) => (e, primitive_spec(p, args)),
        Datum::IOFunc(IOFunc::Apply) => if depth == 0 {
            (e, Err(Fault::TooDeep))
        } else if args.len() == 2 && args[1] is List {
            apply_spec(e, args[0], args[1]->List_0, (depth - 1) as nat)
        } else if args.len() >= 1 {
            apply_spec(e, args[0], args.drop_first(), (depth - 1) as nat)
        } else {
            (e, Err(Fault::NumArgs(1, args)))
        },
        Datum::IOFunc(f) => io_spec(e, f, args),
        Datum::Func { params, vararg, body, closure } => if args.len() < params.len() || (
        vararg is None && args.len() != params.len()) {
            (e, Err(Fault::NumArgs(params.len() as usize, args)))
        } else if depth == 0 {
            (e, Err(Fault::TooDeep))
        } else {
            let e1 = EnvModel { bindings: e.bindings.union_prefer_right(closure), ..e };
            let e2 = bind_params(e1, params, args);
            let e3 = match vararg {
                Some(name) => e2.define(
                    name,
                    Datum::List(args.subrange(params.len() as int, args.len() as int)),
                ),
                None => e2,
            };
            eval_body_spec(e3, body, (depth - 1) as nat)
        },
        _ => (e, Err(Fault::NotFunction(func))),
    }
}


/// Evaluating `(quote x)` gives back `x` unchanged and leaves the
/// environment as it was, whatever `x` is.
pub proof fn lemma_quote_returns_operand(e: EnvModel, x: Datum, depth: nat)
    ensures
        eval_spec(e, Datum::List(seq![Datum::Atom("quote"@), x]), depth) == (e, Ok::<Datum, Fault>(x)),
{
}

/// The mathematical form of the outcome of evaluating several forms.
pub open spec fn outcomes(r: Result<Vec<Value>, Error>) -> Result<Seq<Datum>, Fault> {
    match r {
        Ok(vs) => Ok(values_view(vs@)),
        Err(e) => Err(e@),
    }
}

fn bad_form_error(val: &Value) -> (r: Error)
    ensures
        r@ == bad_form(val@),
{
    Error::BadSpecialForm("unrecognized special form".to_owned(), val.clone())
}

/// Whether a value is the atom `word`.
fn atom_is(v: &Value, word: &str) -> (r: bool)
    ensures
        r == is_word(v@, word@),
{
    match v {
        Value::Atom(a) => {
            let w = word.to_owned();
            *a == w
        },
        _ => false,
    }
}

/// A function value over the bindings in effect, with parameters
/// `ps[pfrom..]` and body `body[bfrom..]`.
fn make_func(
    env: &Env,
    ps: &[Value],
    pfrom: usize,
    vararg: Option<String>,
    body: &[Value],
    bfrom: usize,
) -> (r: Value)
    requires
        env.wf(),
        pfrom <= ps@.len(),
        bfrom <= body@.len(),
    ensures
        r@ == func_spec(
            env@,
            values_view(ps@).subrange(pfrom as int, ps@.len() as int),
            match vararg {
                Some(a) => Some(a@),
                None => None,
            },
            values_view(body@).subrange(bfrom as int, body@.len() as int),
        ),
{
    let ghost pv = values_view(ps@).subrange(pfrom as int, ps@.len() as int);
    proof {
        lemma_values_view(ps@);
    }
    let mut params: Vec<String> = Vec::new();
    let mut i: usize = pfrom;
    while i < ps.len()
        invariant
            pfrom <= i <= ps@.len(),
            pv == values_view(ps@).subrange(pfrom as int, ps@.len() as int),
            values_view(ps@).len() == ps@.len(),
            forall|j: int| 0 <= j < ps@.len() ==> #[trigger] values_view(ps@)[j] == ps@[j]@,
            names_view(params@) == names_of(pv.subrange(0, i - pfrom)),
        decreases ps.len() - i,
    {
        let t = ps[i].to_string();
        let ghost before = params@;
        params.push(t);
        proof {
            assert(names_view(params@) =~= names_view(before).push(t@));
            assert(names_of(pv.subrange(0, i + 1 - pfrom)) =~= names_of(pv.subrange(0, i - pfrom)).push(
                show(pv[i - pfrom]),
            ));
        }
        i = i + 1;
    }
    proof {
        assert(pv.subrange(0, ps@.len() - pfrom) =~= pv);
    }
    let forms = clone_range(body, bfrom, body.len());
    let closure = env.make_closure();
    Value::Func { params, vararg, body: forms, closure }
}

/// Evaluates a form against the environment.
pub fn eval(env: &mut Env, val: &Value) -> (r: Result<Value, Error>)
    requires
        old(env).wf(),
    ensures
        final(env).wf(),
        (final(env)@, outcome(r)) == eval_spec(old(env)@, val@, MAX_DEPTH as nat),
{
    eval_in(env, val, MAX_DEPTH)
}

/// Calls a function value on arguments.
pub fn apply(env: &mut Env, val: &Value, args: &[Value]) -> (r: Result<Value, Error>)
    requires
        old(env).wf(),
    ensures
        final(env).wf(),
        (final(env)@, outcome(r)) == apply_spec(old(env)@, val@, values_view(args@), MAX_DEPTH as nat),
{
    apply_in(env, val, args, MAX_DEPTH)
}

fn eval_in(env: &mut Env, val: &Value, depth: usize) -> (r: Result<Value, Error>)
    requires
        old(env).wf(),
    ensures
        final(env).wf(),
        (final(env)@, outcome(r)) == eval_spec(old(env)@, val@, depth as nat),
    decreases depth, size(val@), 3nat,
{
    match val {
        Value::String(_) | Value::Number(_) | Value::Bool(_) => Ok(val.clone()),
        Value::Atom(id) => match env.get_var(id.as_str()) {
            Ok(v) => Ok(v.clone()),
            Err(e) => Err(e),
        },
        Value::List(xs) => eval_list(env, val, xs, depth),
        _ => Err(bad_form_error(val)),
    }
}


/// Builds the function value of a `define` with a parameter list, and
/// binds its name to it.
fn define_func(
    env: &mut Env,
    val: &Value,
    name_args: &Vec<Value>,
    vararg: Option<String>,
    xs: &Vec<Value>,
) -> (r: Result<Value, Error>)
    requires
        old(env).wf(),
        xs@.len() >= 2,
    ensures
        final(env).wf(),
        ({
            let na = values_view(name_args@);
            let va = match vararg {
                Some(a) => Some(a@),
                None => None,
            };
            if na.len() >= 1 && na[0] is Atom {
                let f = func_spec(
                    old(env)@,
                    na.drop_first(),
                    va,
                    values_view(xs@).subrange(2, xs@.len() as int),
                );
                final(env)@ == old(env)@.define(na[0]->Atom_0, f) && outcome(r) == Ok::<Datum, Fault>(f)
            } else {
                final(env)@ == old(env)@ && outcome(r) == Err::<Datum, Fault>(bad_form(val@))
            }
        }),
{
    proof {
        lemma_values_view(name_args@);
        assert(values_view(name_args@).subrange(1, name_args@.len() as int) =~= values_view(
            name_args@,
        ).drop_first());
    }
    if name_args.len() >= 1 {
        if let Value::Atom(name) = &name_args[0] {
            let f = make_func(env, name_args.as_slice(), 1, vararg, xs.as_slice(), 2);
            let r = env.define_var(name.clone(), f);
            return Ok(r);
        }
    }
    Err(bad_form_error(val))
}

fn eval_list(env: &mut Env, val: &Value, xs: &Vec<Value>, depth: usize) -> (r: Result<Value, Error>)
    requires
        old(env).wf(),
        val@ == Datum::List(values_view(xs@)),
    ensures
        final(env).wf(),
        (final(env)@, outcome(r)) == eval_list_spec(old(env)@, values_view(xs@), depth as nat),
    decreases depth, size_seq(values_view(xs@)) + 1, 2nat,
{
    let ghost ds = values_view(xs@);
    proof {
        lemma_values_view(xs@);
        lemma_size_seq(ds);
    }
    let n = xs.len();
    if n == 0 {
        return Err(bad_form_error(val));
    }
    let head = &xs[0];
    if n == 2 && atom_is(head, "quote") {
        return Ok(xs[1].clone());
    }
    if n == 4 && atom_is(head, "if") {
        let p = eval_in(env, &xs[1], depth);
        return match p {
            Err(e) => Err(e),
            Ok(Value::Bool(false)) => eval_in(env, &xs[3], depth),
            Ok(_) => eval_in(env, &xs[2], depth),
        };
    }
    if n == 3 && atom_is(head, "set!") {
        if let Value::Atom(var) = &xs[1] {
            return match eval_in(env, &xs[2], depth) {
                Err(e) => Err(e),
                Ok(v) => env.set_var(var.as_str(), v),
            };
        }
    }
    if n == 3 && atom_is(head, "define") {
        if let Value::Atom(var) = &xs[1] {
            return match eval_in(env, &xs[2], depth) {
                Err(e) => Err(e),
                Ok(v) => Ok(env.define_var(var.clone(), v)),
            };
        }
    }
    eval_compound(env, val, xs, depth)
}

fn eval_compound(env: &mut Env, val: &Value, xs: &Vec<Value>, depth: usize) -> (r: Result<Value, Error>)
    requires
        old(env).wf(),
        val@ == Datum::List(values_view(xs@)),
    ensures
        final(env).wf(),
        (final(env)@, outcome(r)) == eval_compound_spec(old(env)@, values_view(xs@), depth as nat),
    decreases depth, size_seq(values_view(xs@)) + 1, 1nat,
{
    let ghost ds = values_view(xs@);
    proof {
        lemma_values_view(xs@);
        lemma_size_seq(ds);
    }
    let n = xs.len();
    if n == 0 {
        return Err(bad_form_error(val));
    }
    let head = &xs[0];
    if n >= 2 && atom_is(head, "define") {
        match &xs[1] {
            Value::List(na) => {
                return define_func(env, val, na, None, xs);
            },
            Value::DottedList(na, t) => {
                let va = (**t).to_string();
                return define_func(env, val, na, Some(va), xs);
            },
            _ => {},
        }
    }
    if n >= 2 && atom_is(head, "lambda") {
        match &xs[1] {
            Value::List(ps) => {
                let f = make_func(env, ps.as_slice(), 0, None, xs.as_slice(), 2);
                proof {
                    lemma_values_view(ps@);
                    assert(values_view(ps@).subrange(0, ps@.len() as int) =~= values_view(ps@));
                }
                return Ok(f);
            },
            Value::DottedList(ps, t) => {
                let va = (**t).to_string();
                let f = make_func(env, ps.as_slice(), 0, Some(va), xs.as_slice(), 2);
                proof {
                    lemma_values_view(ps@);
                    assert(values_view(ps@).subrange(0, ps@.len() as int) =~= values_view(ps@));
                }
                return Ok(f);
            },
            Value::Atom(a) => {
                let none: Vec<Value> = Vec::new();
                let f = make_func(env, none.as_slice(), 0, Some(a.clone()), xs.as_slice(), 2);
                proof {
                    assert(values_view(none@) =~= Seq::<Datum>::empty());
                    assert(values_view(none@).subrange(0, 0) =~= Seq::<Datum>::empty());
                }
                return Ok(f);
            },
            _ => {},
        }
    }
    if n == 2 && atom_is(head, "load") {
        if let Value::String(path) = &xs[1] {
            return load(env, path.as_str(), depth);
        }
    }
    let f = match eval_in(env, head, depth) {
        Ok(f) => f,
        Err(e) => return Err(e),
    };
    proof {
        assert(ds.subrange(1, n as int) =~= ds.drop_first());
    }
    let args = match eval_args(env, xs.as_slice(), 1, depth) {
        Ok(a) => a,
        Err(e) => return Err(e),
    };
    let snapshot = env.make_closure();
    let r = apply_in(env, &f, args.as_slice(), depth);
    env.load_closure(snapshot);
    r
}

/// Evaluates the forms `xs[from..]` in order.
fn eval_args(env: &mut Env, xs: &[Value], from: usize, depth: usize) -> (r: Result<Vec<Value>, Error>)
    requires
        old(env).wf(),
        from <= xs@.len(),
    ensures
        final(env).wf(),
        (final(env)@, outcomes(r)) == eval_args_spec(
            old(env)@,
            values_view(xs@).subrange(from as int, xs@.len() as int),
            depth as nat,
        ),
    decreases depth, size_seq(values_view(xs@).subrange(from as int, xs@.len() as int)), 4nat,
{
    let ghost ys = values_view(xs@).subrange(from as int, xs@.len() as int);
    proof {
        lemma_values_view(xs@);
        lemma_size_seq(ys);
        assert(ys.subrange(0, 0) =~= Seq::<Datum>::empty());
    }
    let mut out: Vec<Value> = Vec::new();
    let mut i: usize = from;
    while i < xs.len()
        invariant
            from <= i <= xs@.len(),
            ys == values_view(xs@).subrange(from as int, xs@.len() as int),
            values_view(xs@).len() == xs@.len(),
            forall|j: int| 0 <= j < xs@.len() ==> #[trigger] values_view(xs@)[j] == xs@[j]@,
            forall|j: int| 0 <= j < ys.len() ==> size(#[trigger] ys[j]) <= size_seq(ys),
            env.wf(),
            eval_args_spec(old(env)@, ys.subrange(0, i - from), depth as nat) == (
                env@,
                Ok::<Seq<Datum>, Fault>(values_view(out@)),
            ),
        decreases xs.len() - i,
    {
        let ghost before = env@;
        proof {
            let next = ys.subrange(0, i + 1 - from);
            assert(next.drop_last() =~= ys.subrange(0, i - from));
            assert(next.last() == ys[i - from]);
            assert(ys[i - from] == xs@[i as int]@);
            lemma_size_seq(next);
        }
        match eval_in(env, &xs[i], depth) {
            Ok(v) => {
                let ghost prev = out@;
                out.push(v);
                proof {
                    lemma_values_view(out@);
                    lemma_values_view(prev);
                    assert(values_view(out@) =~= values_view(prev).push(out@.last()@));
                }
            },
            Err(e) => {
                proof {
                    lemma_eval_args_prefix_err(old(env)@, ys, i + 1 - from, depth as nat);
                }
                return Err(e);
            },
        }
        i = i + 1;
    }
    proof {
        assert(ys.subrange(0, xs@.len() - from) =~= ys);
    }
    Ok(out)
}

/// Once a prefix of the forms fails, evaluating all of them fails the same way.
proof fn lemma_eval_args_prefix_err(e: EnvModel, ys: Seq<Datum>, k: int, depth: nat)
    requires
        0 <= k <= ys.len(),
        eval_args_spec(e, ys.subrange(0, k), depth).1 is Err,
    ensures
        eval_args_spec(e, ys, depth) == eval_args_spec(e, ys.subrange(0, k), depth),
    decreases ys.len() - k,
{
    if k < ys.len() {
        assert(ys.subrange(0, k + 1).drop_last() =~= ys.subrange(0, k));
        lemma_eval_args_prefix_err(e, ys, k + 1, depth);
    } else {
        assert(ys.subrange(0, k) =~= ys);
    }
}

/// Once a prefix of a body fails, evaluating the whole body fails the same way.
proof fn lemma_eval_body_prefix_err(e: EnvModel, ys: Seq<Datum>, k: int, depth: nat)
    requires
        1 <= k <= ys.len(),
        eval_body_spec(e, ys.subrange(0, k), depth).1 is Err,
    ensures
        eval_body_spec(e, ys, depth) == eval_body_spec(e, ys.subrange(0, k), depth),
    decreases ys.len() - k,
{
    if k < ys.len() {
        assert(ys.subrange(0, k + 1).drop_last() =~= ys.subrange(0, k));
        lemma_eval_body_prefix_err(e, ys, k + 1, depth);
    } else {
        assert(ys.subrange(0, k) =~= ys);
    }
}

/// Evaluates the forms of a body in order, returning the last one's value.
fn eval_body(env: &mut Env, body: &[Value], depth: usize) -> (r: Result<Value, Error>)
    requires
        old(env).wf(),
    ensures
        final(env).wf(),
        (final(env)@, outcome(r)) == eval_body_spec(old(env)@, values_view(body@), depth as nat),
    decreases depth, size_seq(values_view(body@)), 4nat,
{
    let ghost ys = values_view(body@);
    proof {
        lemma_values_view(body@);
        lemma_size_seq(ys);
    }
    if body.len() == 0 {
        return Err(Error::EmptyBody);
    }
    proof {
        assert(size(ys[0]) <= size_seq(ys));
        assert(body@[0]@ == ys[0]);
    }
    let mut last = match eval_in(env, &body[0], depth) {
        Ok(v) => v,
        Err(e) => {
            proof {
                assert(ys.subrange(0, 1)[0] == ys[0]);
                lemma_eval_body_prefix_err(old(env)@, ys, 1, depth as nat);
            }
            return Err(e);
        },
    };
    proof {
        assert(ys.subrange(0, 1)[0] == ys[0]);
    }
    let mut i: usize = 1;
    while i < body.len()
        invariant
            1 <= i <= body@.len(),
            ys == values_view(body@),
            ys.len() == body@.len(),
            forall|j: int| 0 <= j < body@.len() ==> #[trigger] ys[j] == body@[j]@,
            forall|j: int| 0 <= j < ys.len() ==> size(#[trigger] ys[j]) <= size_seq(ys),
            env.wf(),
            eval_body_spec(old(env)@, ys.subrange(0, i as int), depth as nat) == (
                env@,
                Ok::<Datum, Fault>(last@),
            ),
        decreases body.len() - i,
    {
        proof {
            let next = ys.subrange(0, i + 1);
            assert(next.drop_last() =~= ys.subrange(0, i as int));
            assert(next.last() == ys[i as int]);
        }
        match eval_in(env, &body[i], depth) {
            Ok(v) => {
                last = v;
            },
            Err(e) => {
                proof {
                    lemma_eval_body_prefix_err(old(env)@, ys, i + 1, depth as nat);
                }
                return Err(e);
            },
        }
        i = i + 1;
    }
    proof {
        assert(ys.subrange(0, body@.len() as int) =~= ys);
    }
    Ok(last)
}

fn apply_in(env: &mut Env, func: &Value, args: &[Value], depth: usize) -> (r: Result<Value, Error>)
    requires
        old(env).wf(),
    ensures
        final(env).wf(),
        (final(env)@, outcome(r)) == apply_spec(old(env)@, func@, values_view(args@), depth as nat),
    decreases depth, 0nat, 0nat,
{
    proof {
        lemma_values_view(args@);
    }
    match func {
        Value::PrimitiveFunc(p) => apply_primitive(*p, args),
        Value::IOFunc(IOFunc::Apply) => {
            if depth == 0 {
                return Err(Error::TooDeep);
            }
            if args.len() == 2 {
                if let Value::List(xs) = &args[1] {
                    return apply_in(env, &args[0], xs.as_slice(), depth - 1);
                }
            }
            if args.len() >= 1 {
                let rest = clone_range(args, 1, args.len());
                proof {
                    assert(values_view(args@).subrange(1, args@.len() as int) =~= values_view(args@).drop_first());
                }
                apply_in(env, &args[0], rest.as_slice(), depth - 1)
            } else {
                Err(Error::NumArgs(1, clone_values(args)))
            }
        },
        Value::IOFunc(f) => io_call(env, *f, args),
        Value::Func { params, vararg, body, closure } => {
            let np = params.len();
            if args.len() < np || (vararg.is_none() && args.len() != np) {
                return Err(Error::NumArgs(np, clone_values(args)));
            }
            if depth == 0 {
                return Err(Error::TooDeep);
            }
            env.with_closure(closure);
            let ghost e1 = env@;
            let ghost names = names_view(params@);
            let mut i: usize = 0;
            while i < np
                invariant
                    i <= np,
                    np == params@.len(),
                    np <= args@.len(),
                    names == names_view(params@),
                    values_view(args@).len() == args@.len(),
                    forall|j: int| 0 <= j < args@.len() ==> #[trigger] values_view(args@)[j] == args@[j]@,
                    env.wf(),
                    env@ == bind_params(e1, names.subrange(0, i as int), values_view(args@)),
                decreases np - i,
            {
                proof {
                    assert(names.subrange(0, i + 1).drop_last() =~= names.subrange(0, i as int));
                }
                let a = args[i].clone();
                env.define_var(params[i].clone(), a);
                i = i + 1;
            }
            proof {
                assert(names.subrange(0, np as int) =~= names);
            }
            match vararg {
                Some(name) => {
                    let rest = clone_range(args, np, args.len());
                    env.define_var(name.clone(), Value::List(rest));
                },
                None => {},
            }
            eval_body(env, body.as_slice(), depth - 1)
        },
        _ => Err(Error::NotFunction(func.clone())),
    }
}


/// Reads a file of forms and evaluates them in order, one call deeper.
fn load(env: &mut Env, path: &str, depth: usize) -> (r: Result<Value, Error>)
    requires
        old(env).wf(),
    ensures
        final(env).wf(),
        ({
            let (e1, rep) = old(env)@.perform(RequestModel::ReadFile(path@));
            (final(env)@, outcome(r)) == match text_of_reply(rep) {
                Err(f) => (e1, Err(f)),
                Ok(t) => match parse_all_spec(t) {
                    Err(pf) => (e1, Err(Fault::Parser(pf))),
                    Ok(forms) => if depth == 0 {
                        (e1, Err(Fault::TooDeep))
                    } else {
                        eval_body_spec(e1, forms, (depth - 1) as nat)
                    },
                },
            }
        }),
    decreases depth, 0nat, 0nat,
{
    let text = match read_reply(env.perform(Request::ReadFile(path.to_owned()))) {
        Ok(t) => t,
        Err(e) => return Err(e),
    };
    let forms = match parse_all(text.as_str()) {
        Ok(forms) => forms,
        Err(e) => return Err(Error::Parser(e)),
    };
    if depth == 0 {
        return Err(Error::TooDeep);
    }
    eval_body(env, forms.as_slice(), depth - 1)
}

/// The text that an answer carries.
fn read_reply(rep: Option<Reply>) -> (r: Result<String, Error>)
    ensures
        match text_of_reply(
            match rep {
                Some(x) => Some(x@),
                None => None,
            },
        ) {
            Ok(t) => r matches Ok(s) && s@ == t,
            Err(f) => r matches Err(e) && e@ == f,
        },
{
    match rep {
        None => Err(Error::Pending),
        Some(Reply::Text(t)) => Ok(t),
        Some(Reply::Failed(m)) => Err(Error::IO(m)),
        Some(Reply::Done) => Err(Error::IO(UNEXPECTED_REPLY.to_owned())),
    }
}

/// Whether an answer says the work was done.
fn done_or_error(rep: Option<Reply>) -> (r: Option<Error>)
    ensures
        match done_reply(
            match rep {
                Some(x) => Some(x@),
                None => None,
            },
        ) {
            Ok(()) => r is None,
            Err(f) => r matches Some(e) && e@ == f,
        },
{
    match rep {
        None => Some(Error::Pending),
        Some(Reply::Done) => None,
        Some(Reply::Failed(m)) => Some(Error::IO(m)),
        Some(Reply::Text(_)) => Some(Error::IO(UNEXPECTED_REPLY.to_owned())),
    }
}

fn path_of(args: &[Value]) -> (r: Result<&String, Error>)
    ensures
        match path_arg(values_view(args@)) {
            Ok(p) => r matches Ok(s) && s@ == p,
            Err(f) => r matches Err(e) && e@ == f,
        },
{
    proof {
        lemma_values_view(args@);
    }
    if args.len() != 1 {
        return Err(Error::NumArgs(1, clone_values(args)));
    }
    match &args[0] {
        Value::String(p) => Ok(p),
        other => Err(Error::TypeMismatch("string".to_owned(), other.clone())),
    }
}

fn port_of(arg: &Value) -> (r: Result<usize, Error>)
    ensures
        match port_arg(arg@) {
            Ok(id) => r == Ok::<usize, Error>(id),
            Err(f) => r matches Err(e) && e@ == f,
        },
{
    match arg {
        Value::Port(id) => Ok(*id),
        other => Err(Error::TypeMismatch("port".to_owned(), other.clone())),
    }
}

/// Runs an operation on files and ports.
fn io_call(env: &mut Env, f: IOFunc, args: &[Value]) -> (r: Result<Value, Error>)
    requires
        old(env).wf(),
    ensures
        final(env).wf(),
        (final(env)@, outcome(r)) == io_spec(old(env)@, f, values_view(args@)),
{
    proof {
        lemma_values_view(args@);
    }
    match f {
        IOFunc::MakeReadPort => match path_of(args) {
            Ok(p) => env.make_read_port(p.as_str()),
            Err(e) => Err(e),
        },
        IOFunc::MakeWritePort => match path_of(args) {
            Ok(p) => env.make_write_port(p.as_str()),
            Err(e) => Err(e),
        },
        IOFunc::ClosePort => {
            if args.len() != 1 {
                return Err(Error::NumArgs(1, clone_values(args)));
            }
            match port_of(&args[0]) {
                Ok(id) => env.close_port(&id),
                Err(e) => Err(e),
            }
        },
        IOFunc::Read => {
            if args.len() != 1 {
                return Err(Error::NumArgs(1, clone_values(args)));
            }
            let id = match port_of(&args[0]) {
                Ok(id) => id,
                Err(e) => return Err(e),
            };
            if let Err(e) = env.get_read_port(&id) {
                return Err(e);
            }
            let line = match read_reply(env.perform(Request::ReadLine(id))) {
                Ok(t) => t,
                Err(e) => return Err(e),
            };
            match parse(line.as_str()) {
                Ok(v) => Ok(v),
                Err(e) => Err(Error::Parser(e)),
            }
        },
        IOFunc::Write => {
            if args.len() != 2 {
                return Err(Error::NumArgs(2, clone_values(args)));
            }
            let id = match port_of(&args[1]) {
                Ok(id) => id,
                Err(e) => return Err(e),
            };
            if let Err(e) = env.get_write_port(&id) {
                return Err(e);
            }
            let text = args[0].to_string();
            match done_or_error(env.perform(Request::WriteText(id, text))) {
                None => Ok(Value::Bool(true)),
                Some(e) => Err(e),
            }
        },
        IOFunc::ReadContents => {
            let p = match path_of(args) {
                Ok(p) => p,
                Err(e) => return Err(e),
            };
            match read_reply(env.perform(Request::ReadFile(p.clone()))) {
                Ok(t) => Ok(Value::String(t)),
                Err(e) => Err(e),
            }
        },
        IOFunc::ReadAll => {
            let p = match path_of(args) {
                Ok(p) => p,
                Err(e) => return Err(e),
            };
            let text = match read_reply(env.perform(Request::ReadFile(p.clone()))) {
                Ok(t) => t,
                Err(e) => return Err(e),
            };
            match parse_all(text.as_str()) {
                Ok(forms) => Ok(Value::List(forms)),
                Err(e) => Err(Error::Parser(e)),
            }
        },
        IOFunc::Apply => Err(Error::NotFunction(Value::IOFunc(f))),
    }
}

} // verus!
