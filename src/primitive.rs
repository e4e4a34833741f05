use vstd::prelude::*;
use vstd::wrapping::i64_specs;

use crate::error::{outcome, Error, Fault};
use crate::util::{int_text, int_text_exec};
use crate::value::{
    PrimitiveFunc,
    clone_range, clone_values, lemma_values_view, values_view, Datum, Value,
};

verus! {

pub open spec fn is_digit(c: char) -> bool {
    '0' as u32 <= c as u32 <= '9' as u32
}

/// The value of a string of decimal digits.
pub open spec fn digits_value(s: Seq<char>) -> int
    decreases s.len(),
{
    if s.len() == 0 {
        0
    } else {
        digits_value(s.drop_last()) * 10 + (s.last() as u32 - '0' as u32)
    }
}

pub open spec fn has_sign(s: Seq<char>) -> bool {
    s.len() > 0 && (s[0] == '-' || s[0] == '+')
}

/// A text without its leading sign, if it has one.
pub open spec fn unsigned_part(s: Seq<char>) -> Seq<char> {
    if has_sign(s) {
        s.drop_first()
    } else {
        s
    }
}

pub open spec fn all_digits(s: Seq<char>) -> bool {
    forall|i: int| 0 <= i < s.len() ==> is_digit(#[trigger] s[i])
}

/// The integer a text denotes: an optional `+` or `-`, then one or more
/// decimal digits, whose value fits in 64 bits.
pub open spec fn parse_int(s: Seq<char>) -> Option<i64> {
    let body = unsigned_part(s);
    let v = if has_sign(s) && s[0] == '-' {
        -digits_value(body)
    } else {
        digits_value(body)
    };
    if body.len() > 0 && all_digits(body) && i64::MIN <= v <= i64::MAX {
        Some(v as i64)
    } else {
        None
    }
}

/// What a value stands for where a number is expected.
pub open spec fn number_of(d: Datum) -> Option<i64> {
    match d {
        Datum::Number(n) => Some(n),
        Datum::Str(s) => parse_int(s),
        _ => None,
    }
}

/// What a value stands for where a string is expected.
pub open spec fn text_of(d: Datum) -> Option<Seq<char>> {
    match d {
        Datum::Str(s) => Some(s),
        Datum::Number(n) => Some(int_text(n as int)),
        Datum::Bool(b) => Some(
            if b {
                "true"@
            } else {
                "false"@
            },
        ),
        _ => None,
    }
}

/// What a value stands for where a boolean is expected.
pub open spec fn truth_of(d: Datum) -> Option<bool> {
    match d {
        Datum::Bool(b) => Some(b),
        _ => None,
    }
}

pub open spec fn mismatch(kind: Seq<char>, d: Datum) -> Result<Datum, Fault> {
    Err(Fault::TypeMismatch(kind, d))
}


proof fn lemma_digits_nonneg(s: Seq<char>)
    requires
        forall|i: int| 0 <= i < s.len() ==> is_digit(#[trigger] s[i]),
    ensures
        digits_value(s) >= 0,
    decreases s.len(),
{
    if s.len() > 0 {
        lemma_digits_nonneg(s.drop_last());
    }
}

/// Reads an integer from a text, as `parse_int` describes.
pub fn parse_int_text(s: &str) -> (r: Option<i64>)
    ensures
        r == parse_int(s@),
{
    let n = s.unicode_len();
    if n == 0 {
        return None;
    }
    let first = s.get_char(0);
    let signed = first == '-' || first == '+';
    let start: usize = if signed {
        1
    } else {
        0
    };
    let ghost body = unsigned_part(s@);
    proof {
        assert(signed == (s@[0] == '-' || s@[0] == '+'));
        assert(body =~= s@.subrange(start as int, n as int));
    }
    if start == n {
        return None;
    }
    let cap: i128 = 9223372036854775809;
    let mut acc: i128 = 0;
    let mut i: usize = start;
    while i < n
        invariant
            start <= i <= n,
            n == s@.len(),
            body == s@.subrange(start as int, n as int),
            body == unsigned_part(s@),
            forall|j: int| 0 <= j < i - start ==> is_digit(#[trigger] body[j]),
            digits_value(body.subrange(0, i - start)) >= cap ==> acc == cap,
            digits_value(body.subrange(0, i - start)) < cap ==> acc == digits_value(
                body.subrange(0, i - start),
            ),
            0 <= acc <= cap,
            cap == 9223372036854775809,
        decreases n - i,
    {
        let c = s.get_char(i);
        let cu = c as u32;
        if cu < 48 || cu > 57 {
            proof {
                assert(body[i - start] == c);
                assert(!is_digit(c));
                assert(!all_digits(body));
            }
            return None;
        }
        let d: i128 = (cu - 48) as i128;
        let ghost prev = body.subrange(0, i - start);
        let ghost next = body.subrange(0, i + 1 - start);
        proof {
            assert(next.drop_last() =~= prev);
            assert(next.last() == c);
            assert(forall|j: int| 0 <= j < next.len() ==> is_digit(#[trigger] next[j]));
            lemma_digits_nonneg(prev);
            assert(all_digits(next));
            assert(digits_value(next) == digits_value(prev) * 10 + d);
            if digits_value(prev) >= cap {
                assert(digits_value(prev) * 10 + d >= cap) by (nonlinear_arith)
                    requires
                        digits_value(prev) >= cap,
                        d >= 0,
                        cap > 0,
                ;
            }
        }
        acc = if acc * 10 + d > cap {
            cap
        } else {
            acc * 10 + d
        };
        i = i + 1;
    }
    proof {
        assert(body.subrange(0, n - start) =~= body);
        assert(all_digits(body));
    }
    let v: i128 = if first == '-' {
        -acc
    } else {
        acc
    };
    if v >= -9223372036854775808 && v <= 9223372036854775807 {
        Some(v as i64)
    } else {
        None
    }
}

/// Reads a value as a number: a number, or a string that reads as one.
pub fn as_number(val: &Value) -> (r: Result<i64, Error>)
    ensures
        match number_of(val@) {
            Some(n) => r == Ok::<i64, Error>(n),
            None => r matches Err(e) && e@ == Fault::TypeMismatch("number"@, val@),
        },
{
    match val {
        Value::Number(number) => Ok(*number),
        Value::String(string) => match parse_int_text(string.as_str()) {
            Some(number) => Ok(number),
            None => Err(Error::TypeMismatch("number".to_owned(), val.clone())),
        },
        _ => Err(Error::TypeMismatch("number".to_owned(), val.clone())),
    }
}

/// Reads a value as a string: a string, or the text of a number or a boolean.
pub fn as_string(val: &Value) -> (r: Result<String, Error>)
    ensures
        match text_of(val@) {
            Some(t) => r matches Ok(s) && s@ == t,
            None => r matches Err(e) && e@ == Fault::TypeMismatch("string"@, val@),
        },
{
    match val {
        Value::String(string) => Ok(string.clone()),
        Value::Number(number) => Ok(int_text_exec(*number)),
        Value::Bool(b) => if *b {
            Ok("true".to_owned())
        } else {
            Ok("false".to_owned())
        },
        _ => Err(Error::TypeMismatch("string".to_owned(), val.clone())),
    }
}

/// Reads a value as a boolean: only a boolean qualifies.
pub fn as_bool(val: &Value) -> (r: Result<bool, Error>)
    ensures
        match truth_of(val@) {
            Some(b) => r == Ok::<bool, Error>(b),
            None => r matches Err(e) && e@ == Fault::TypeMismatch("bool"@, val@),
        },
{
    match val {
        Value::Bool(b) => Ok(*b),
        _ => Err(Error::TypeMismatch("bool".to_owned(), val.clone())),
    }
}


/// An integer operation folded over the arguments of `+ - * / mod quotient remainder`.
#[derive(Clone, Copy, Debug, PartialEq, Eq, Structural)]
pub enum ArithOp {
    Add,
    Sub,
    Mul,
    Div,
    Rem,
}

pub open spec fn abs(a: int) -> int {
    if a < 0 {
        -a
    } else {
        a
    }
}

/// One step of an integer fold. Sums, differences and products wrap around
/// in 64 bits; quotients and remainders truncate toward zero (the one
/// quotient past the range, of the least integer by -1, wraps as well). A
/// zero divisor has no result.
pub open spec fn arith(op: ArithOp, a: i64, b: i64) -> Option<i64> {
    match op {
        ArithOp::Add => Some(i64_specs::wrapping_add(a, b)),
        ArithOp::Sub => Some(i64_specs::wrapping_sub(a, b)),
        ArithOp::Mul => Some(i64_specs::wrapping_mul(a, b)),
        ArithOp::Div => if b == 0 {
            None
        } else {
            let q = abs(a as int) / abs(b as int);
            Some(i64_specs::signed_crop(if (a < 0) != (b < 0) { -q } else { q }))
        },
        ArithOp::Rem => if b == 0 {
            None
        } else {
            let m = abs(a as int) % abs(b as int);
            Some((if a < 0 { -m } else { m }) as i64)
        },
    }
}

/// The left fold of an operation over one or more integers.
pub open spec fn fold_arith(op: ArithOp, ns: Seq<i64>) -> Option<i64>
    decreases ns.len(),
{
    if ns.len() <= 1 {
        if ns.len() == 1 {
            Some(ns[0])
        } else {
            None
        }
    } else {
        match fold_arith(op, ns.drop_last()) {
            Some(acc) => arith(op, acc, ns.last()),
            None => None,
        }
    }
}

/// The arguments read as numbers, or the first that does not read as one.
pub open spec fn numbers_of(ds: Seq<Datum>) -> Result<Seq<i64>, Datum>
    decreases ds.len(),
{
    if ds.len() == 0 {
        Ok(Seq::empty())
    } else {
        match numbers_of(ds.drop_last()) {
            Err(d) => Err(d),
            Ok(ns) => match number_of(ds.last()) {
                Some(n) => Ok(ns.push(n)),
                None => Err(ds.last()),
            },
        }
    }
}

/// The result of an integer operation folded over the arguments.
pub open spec fn numeric_binop_spec(op: ArithOp, ds: Seq<Datum>) -> Result<Datum, Fault> {
    if ds.len() < 2 {
        Err(Fault::NumArgs(2, ds))
    } else {
        match numbers_of(ds) {
            Err(d) => mismatch("number"@, d),
            Ok(ns) => match fold_arith(op, ns) {
                Some(n) => Ok(Datum::Number(n)),
                None => mismatch("nonzero number"@, Datum::Number(0)),
            },
        }
    }
}

fn apply_arith(op: ArithOp, a: i64, b: i64) -> (r: Option<i64>)
    ensures
        r == arith(op, a, b),
{
    match op {
        ArithOp::Add => Some(a.wrapping_add(b)),
        ArithOp::Sub => Some(a.wrapping_sub(b)),
        ArithOp::Mul => Some(a.wrapping_mul(b)),
        ArithOp::Div => {
            if b == 0 {
                return None;
            }
            let ua: u64 = if a < 0 { (-(a as i128)) as u64 } else { a as u64 };
            let ub: u64 = if b < 0 { (-(b as i128)) as u64 } else { b as u64 };
            let q: u64 = ua / ub;
            let signed: i128 = if (a < 0) != (b < 0) { -(q as i128) } else { q as i128 };
            if signed == 9223372036854775808 {
                Some(i64::MIN)
            } else {
                Some(signed as i64)
            }
        },
        ArithOp::Rem => {
            if b == 0 {
                return None;
            }
            let ua: u64 = if a < 0 { (-(a as i128)) as u64 } else { a as u64 };
            let ub: u64 = if b < 0 { (-(b as i128)) as u64 } else { b as u64 };
            let m: u64 = ua % ub;
            if a < 0 {
                Some((-(m as i128)) as i64)
            } else {
                Some(m as i64)
            }
        },
    }
}


/// Folds an integer operation over two or more arguments, left to right.
pub fn numeric_binop(vals: &[Value], op: ArithOp) -> (r: Result<Value, Error>)
    ensures
        outcome(r) == numeric_binop_spec(op, values_view(vals@)),
{
    let ghost ds = values_view(vals@);
    proof {
        lemma_values_view(vals@);
    }
    if vals.len() < 2 {
        return Err(Error::NumArgs(2, clone_values(vals)));
    }
    let mut nums: Vec<i64> = Vec::new();
    let mut i: usize = 0;
    while i < vals.len()
        invariant
            i <= vals.len(),
            ds == values_view(vals@),
            ds.len() == vals@.len(),
            vals@.len() >= 2,
            forall|j: int| 0 <= j < vals@.len() ==> #[trigger] ds[j] == vals@[j]@,
            numbers_of(ds.subrange(0, i as int)) == Ok::<Seq<i64>, Datum>(nums@),
        decreases vals.len() - i,
    {
        let ghost next = ds.subrange(0, i + 1);
        proof {
            assert(next.drop_last() =~= ds.subrange(0, i as int));
        }
        match as_number(&vals[i]) {
            Ok(n) => {
                nums.push(n);
            },
            Err(e) => {
                proof {
                    assert(numbers_of(next) == Err::<Seq<i64>, Datum>(ds[i as int]));
                    lemma_numbers_of_prefix_err(ds, i + 1);
                }
                return Err(e);
            },
        }
        i = i + 1;
    }
    proof {
        assert(ds.subrange(0, vals@.len() as int) =~= ds);
    }
    let mut acc: i64 = nums[0];
    let mut k: usize = 1;
    while k < nums.len()
        invariant
            1 <= k <= nums.len(),
            ds == values_view(vals@),
            ds.len() >= 2,
            numbers_of(ds) == Ok::<Seq<i64>, Datum>(nums@),
            fold_arith(op, nums@.subrange(0, k as int)) == Some(acc),
        decreases nums.len() - k,
    {
        proof {
            assert(nums@.subrange(0, k + 1).drop_last() =~= nums@.subrange(0, k as int));
        }
        match apply_arith(op, acc, nums[k]) {
            Some(n) => {
                acc = n;
            },
            None => {
                proof {
                    lemma_fold_prefix_none(op, nums@, k + 1);
                    assert(nums@.subrange(0, nums@.len() as int) =~= nums@);
                }
                return Err(Error::TypeMismatch("nonzero number".to_owned(), Value::Number(0)));
            },
        }
        k = k + 1;
    }
    proof {
        assert(nums@.subrange(0, nums@.len() as int) =~= nums@);
    }
    Ok(Value::Number(acc))
}

proof fn lemma_numbers_of_prefix_err(ds: Seq<Datum>, k: int)
    requires
        0 <= k <= ds.len(),
        numbers_of(ds.subrange(0, k)) is Err,
    ensures
        numbers_of(ds) == numbers_of(ds.subrange(0, k)),
    decreases ds.len() - k,
{
    if k < ds.len() {
        assert(ds.subrange(0, k + 1).drop_last() =~= ds.subrange(0, k));
        lemma_numbers_of_prefix_err(ds, k + 1);
    } else {
        assert(ds.subrange(0, k) =~= ds);
    }
}

proof fn lemma_fold_prefix_none(op: ArithOp, ns: Seq<i64>, k: int)
    requires
        2 <= k <= ns.len(),
        fold_arith(op, ns.subrange(0, k)) is None,
    ensures
        fold_arith(op, ns) is None,
    decreases ns.len() - k,
{
    if k < ns.len() {
        assert(ns.subrange(0, k + 1).drop_last() =~= ns.subrange(0, k));
        lemma_fold_prefix_none(op, ns, k + 1);
    } else {
        assert(ns.subrange(0, k) =~= ns);
    }
}


/// An order test on two numbers: `= < > /= >= <=`.
#[derive(Clone, Copy, Debug, PartialEq, Eq, Structural)]
pub enum Comparison {
    Eq,
    Lt,
    Gt,
    Ne,
    Ge,
    Le,
}

/// A test on two booleans: `&& ||`.
#[derive(Clone, Copy, Debug, PartialEq, Eq, Structural)]
pub enum Logic {
    And,
    Or,
}

pub open spec fn compare(op: Comparison, a: int, b: int) -> bool {
    match op {
        Comparison::Eq => a == b,
        Comparison::Lt => a < b,
        Comparison::Gt => a > b,
        Comparison::Ne => a != b,
        Comparison::Ge => a >= b,
        Comparison::Le => a <= b,
    }
}

pub open spec fn logic(op: Logic, a: bool, b: bool) -> bool {
    match op {
        Logic::And => a && b,
        Logic::Or => a || b,
    }
}

/// The lexicographic order of two texts by code point: negative, zero or
/// positive as `a` comes before, equals or comes after `b`.
pub open spec fn text_order(a: Seq<char>, b: Seq<char>) -> int
    decreases a.len(),
{
    if a.len() == 0 {
        if b.len() == 0 {
            0
        } else {
            -1
        }
    } else if b.len() == 0 {
        1
    } else if (a[0] as u32) < (b[0] as u32) {
        -1
    } else if (a[0] as u32) > (b[0] as u32) {
        1
    } else {
        text_order(a.drop_first(), b.drop_first())
    }
}

/// The result of a numeric comparison of exactly two arguments.
pub open spec fn numeric_bool_binop_spec(op: Comparison, ds: Seq<Datum>) -> Result<Datum, Fault> {
    if ds.len() != 2 {
        Err(Fault::NumArgs(2, ds))
    } else {
        match (number_of(ds[0]), number_of(ds[1])) {
            (None, _) => mismatch("number"@, ds[0]),
            (Some(_), None) => mismatch("number"@, ds[1]),
            (Some(a), Some(b)) => Ok(Datum::Bool(compare(op, a as int, b as int))),
        }
    }
}

/// The result of a boolean test of exactly two arguments.
pub open spec fn bool_bool_binop_spec(op: Logic, ds: Seq<Datum>) -> Result<Datum, Fault> {
    if ds.len() != 2 {
        Err(Fault::NumArgs(2, ds))
    } else {
        match (truth_of(ds[0]), truth_of(ds[1])) {
            (None, _) => mismatch("bool"@, ds[0]),
            (Some(_), None) => mismatch("bool"@, ds[1]),
            (Some(a), Some(b)) => Ok(Datum::Bool(logic(op, a, b))),
        }
    }
}

/// The result of a text comparison of exactly two arguments: `string=?
/// string<? string>? string<=? string>=?` compare as `= < > <= >=` do.
pub open spec fn string_bool_binop_spec(op: Comparison, ds: Seq<Datum>) -> Result<Datum, Fault> {
    if ds.len() != 2 {
        Err(Fault::NumArgs(2, ds))
    } else {
        match (text_of(ds[0]), text_of(ds[1])) {
            (None, _) => mismatch("string"@, ds[0]),
            (Some(_), None) => mismatch("string"@, ds[1]),
            (Some(a), Some(b)) => Ok(Datum::Bool(compare(op, text_order(a, b), 0))),
        }
    }
}

fn apply_compare(op: Comparison, a: i64, b: i64) -> (r: bool)
    ensures
        r == compare(op, a as int, b as int),
{
    match op {
        Comparison::Eq => a == b,
        Comparison::Lt => a < b,
        Comparison::Gt => a > b,
        Comparison::Ne => a != b,
        Comparison::Ge => a >= b,
        Comparison::Le => a <= b,
    }
}

/// Compares two texts, as `text_order` describes.
pub fn text_cmp(a: &str, b: &str) -> (r: i64)
    ensures
        r == text_order(a@, b@),
{
    let n = a.unicode_len();
    let m = b.unicode_len();
    let mut i: usize = 0;
    proof {
        assert(a@.subrange(0, n as int) =~= a@);
        assert(b@.subrange(0, m as int) =~= b@);
    }
    while i < n && i < m
        invariant
            i <= n,
            i <= m,
            n == a@.len(),
            m == b@.len(),
            text_order(a@, b@) == text_order(a@.subrange(i as int, n as int), b@.subrange(i as int, m as int)),
        decreases n - i,
    {
        let x = a.get_char(i) as u32;
        let y = b.get_char(i) as u32;
        let ghost ra = a@.subrange(i as int, n as int);
        let ghost rb = b@.subrange(i as int, m as int);
        if x < y {
            return -1;
        }
        if x > y {
            return 1;
        }
        proof {
            assert(ra.drop_first() =~= a@.subrange(i + 1, n as int));
            assert(rb.drop_first() =~= b@.subrange(i + 1, m as int));
        }
        i = i + 1;
    }
    if i == n && i == m {
        0
    } else if i == n {
        -1
    } else {
        1
    }
}

/// The arity error for a call that does not have exactly `arity` arguments.
fn arity_error(vals: &[Value], arity: usize) -> (r: Option<Error>)
    ensures
        vals@.len() == arity ==> r is None,
        vals@.len() != arity ==> (r matches Some(e) && e@ == Fault::NumArgs(arity, values_view(vals@))),
{
    if vals.len() == arity {
        None
    } else {
        Some(Error::NumArgs(arity, clone_values(vals)))
    }
}

/// Compares exactly two arguments read as numbers.
pub fn numeric_bool_binop(vals: &[Value], op: Comparison) -> (r: Result<Value, Error>)
    ensures
        outcome(r) == numeric_bool_binop_spec(op, values_view(vals@)),
{
    proof {
        lemma_values_view(vals@);
    }
    if let Some(e) = arity_error(vals, 2) {
        return Err(e);
    }
    let lhs = match as_number(&vals[0]) {
        Ok(n) => n,
        Err(e) => return Err(e),
    };
    let rhs = match as_number(&vals[1]) {
        Ok(n) => n,
        Err(e) => return Err(e),
    };
    Ok(Value::Bool(apply_compare(op, lhs, rhs)))
}

/// Tests exactly two boolean arguments.
pub fn bool_bool_binop(vals: &[Value], op: Logic) -> (r: Result<Value, Error>)
    ensures
        outcome(r) == bool_bool_binop_spec(op, values_view(vals@)),
{
    proof {
        lemma_values_view(vals@);
    }
    if let Some(e) = arity_error(vals, 2) {
        return Err(e);
    }
    let lhs = match as_bool(&vals[0]) {
        Ok(b) => b,
        Err(e) => return Err(e),
    };
    let rhs = match as_bool(&vals[1]) {
        Ok(b) => b,
        Err(e) => return Err(e),
    };
    let result = match op {
        Logic::And => lhs && rhs,
        Logic::Or => lhs || rhs,
    };
    Ok(Value::Bool(result))
}

/// Compares exactly two arguments read as strings.
pub fn string_bool_binop(vals: &[Value], op: Comparison) -> (r: Result<Value, Error>)
    ensures
        outcome(r) == string_bool_binop_spec(op, values_view(vals@)),
{
    proof {
        lemma_values_view(vals@);
    }
    if let Some(e) = arity_error(vals, 2) {
        return Err(e);
    }
    let lhs = match as_string(&vals[0]) {
        Ok(t) => t,
        Err(e) => return Err(e),
    };
    let rhs = match as_string(&vals[1]) {
        Ok(t) => t,
        Err(e) => return Err(e),
    };
    let order = text_cmp(lhs.as_str(), rhs.as_str());
    Ok(Value::Bool(apply_compare(op, order, 0)))
}


/// The first element of the one argument, a non-empty list or dotted list.
pub open spec fn car_spec(ds: Seq<Datum>) -> Result<Datum, Fault> {
    if ds.len() != 1 {
        Err(Fault::NumArgs(1, ds))
    } else {
        match ds[0] {
            Datum::List(xs) if xs.len() > 0 => Ok(xs[0]),
            Datum::DottedList(xs, _) if xs.len() > 0 => Ok(xs[0]),
            _ => mismatch("pair"@, ds[0]),
        }
    }
}

/// The one argument, a non-empty list or dotted list, without its first
/// element; a dotted list keeps its tail.
pub open spec fn cdr_spec(ds: Seq<Datum>) -> Result<Datum, Fault> {
    if ds.len() != 1 {
        Err(Fault::NumArgs(1, ds))
    } else {
        match ds[0] {
            Datum::List(xs) if xs.len() > 0 => Ok(Datum::List(xs.drop_first())),
            Datum::DottedList(xs, t) if xs.len() > 0 => Ok(Datum::DottedList(xs.drop_first(), t)),
            _ => mismatch("pair"@, ds[0]),
        }
    }
}

/// The first argument put in front of the second: a list or dotted list
/// grows by one, anything else becomes the tail of a dotted pair.
pub open spec fn cons_spec(ds: Seq<Datum>) -> Result<Datum, Fault> {
    if ds.len() != 2 {
        Err(Fault::NumArgs(2, ds))
    } else {
        match ds[1] {
            Datum::List(xs) => Ok(Datum::List(seq![ds[0]] + xs)),
            Datum::DottedList(xs, t) => Ok(Datum::DottedList(seq![ds[0]] + xs, t)),
            other => Ok(Datum::DottedList(seq![ds[0]], Box::new(other))),
        }
    }
}

/// The first element of a list or dotted list.
pub fn car(vals: &[Value]) -> (r: Result<Value, Error>)
    ensures
        outcome(r) == car_spec(values_view(vals@)),
{
    proof {
        lemma_values_view(vals@);
    }
    if let Some(e) = arity_error(vals, 1) {
        return Err(e);
    }
    let val = &vals[0];
    match val {
        Value::List(xs) | Value::DottedList(xs, _) => {
            proof {
                lemma_values_view(xs@);
            }
            if xs.len() > 0 {
                Ok(xs[0].clone())
            } else {
                Err(Error::TypeMismatch("pair".to_owned(), val.clone()))
            }
        },
        _ => Err(Error::TypeMismatch("pair".to_owned(), val.clone())),
    }
}

/// A list or dotted list without its first element.
pub fn cdr(vals: &[Value]) -> (r: Result<Value, Error>)
    ensures
        outcome(r) == cdr_spec(values_view(vals@)),
{
    proof {
        lemma_values_view(vals@);
    }
    if let Some(e) = arity_error(vals, 1) {
        return Err(e);
    }
    let val = &vals[0];
    match val {
        Value::List(xs) => {
            proof {
                lemma_values_view(xs@);
            }
            if xs.len() > 0 {
                let rest = clone_range(xs.as_slice(), 1, xs.len());
                proof {
                    assert(values_view(xs@).subrange(1, xs@.len() as int) =~= values_view(xs@).drop_first());
                }
                let r = Value::List(rest);
                Ok(r)
            } else {
                Err(Error::TypeMismatch("pair".to_owned(), val.clone()))
            }
        },
        Value::DottedList(xs, t) => {
            proof {
                lemma_values_view(xs@);
            }
            if xs.len() > 0 {
                let rest = clone_range(xs.as_slice(), 1, xs.len());
                proof {
                    assert(values_view(xs@).subrange(1, xs@.len() as int) =~= values_view(xs@).drop_first());
                }
                let tail = (**t).clone();
                let r = Value::DottedList(rest, Box::new(tail));
                Ok(r)
            } else {
                Err(Error::TypeMismatch("pair".to_owned(), val.clone()))
            }
        },
        _ => Err(Error::TypeMismatch("pair".to_owned(), val.clone())),
    }
}

fn prepend(head: &Value, xs: &[Value]) -> (r: Vec<Value>)
    ensures
        values_view(r@) == seq![head@] + values_view(xs@),
{
    let mut out: Vec<Value> = Vec::new();
    out.push(head.clone());
    let rest = clone_values(xs);
    let mut i: usize = 0;
    proof {
        lemma_values_view(rest@);
        lemma_values_view(xs@);
    }
    while i < rest.len()
        invariant
            i <= rest.len(),
            out@.len() == i + 1,
            out@[0]@ == head@,
            values_view(rest@) == values_view(xs@),
            values_view(rest@).len() == rest@.len(),
            forall|j: int| 0 <= j < rest@.len() ==> #[trigger] values_view(rest@)[j] == rest@[j]@,
            forall|j: int| 1 <= j <= i ==> (#[trigger] out@[j])@ == rest@[j - 1]@,
        decreases rest.len() - i,
    {
        out.push(rest[i].clone());
        i = i + 1;
    }
    proof {
        lemma_values_view(out@);
        assert(values_view(out@) =~= seq![head@] + values_view(xs@));
    }
    out
}

/// Puts the first argument in front of the second.
pub fn cons(vals: &[Value]) -> (r: Result<Value, Error>)
    ensures
        outcome(r) == cons_spec(values_view(vals@)),
{
    proof {
        lemma_values_view(vals@);
    }
    if let Some(e) = arity_error(vals, 2) {
        return Err(e);
    }
    let val = &vals[0];
    match &vals[1] {
        Value::List(xs) => Ok(Value::List(prepend(val, xs.as_slice()))),
        Value::DottedList(xs, t) => Ok(
            Value::DottedList(prepend(val, xs.as_slice()), Box::new((**t).clone())),
        ),
        other => {
            let mut head: Vec<Value> = Vec::new();
            head.push(val.clone());
            proof {
                lemma_values_view(head@);
                assert(values_view(head@) =~= seq![val@]);
            }
            Ok(Value::DottedList(head, Box::new(other.clone())))
        },
    }
}


/// Structural equivalence: atoms, numbers, strings and booleans by value,
/// lists element by element, dotted lists element by element and tail by
/// tail (as if the tail were one more element). No other kind of value is
/// equivalent to anything.
pub open spec fn eqv_spec(a: Datum, b: Datum) -> bool
    decreases a, 1nat,
{
    match (a, b) {
        (Datum::Bool(x), Datum::Bool(y)) => x == y,
        (Datum::Number(x), Datum::Number(y)) => x == y,
        (Datum::Str(x), Datum::Str(y)) => x == y,
        (Datum::Atom(x), Datum::Atom(y)) => x == y,
        (Datum::DottedList(xs, x), Datum::DottedList(ys, y)) => eqv_seq(xs, ys) && eqv_spec(*x, *y),
        (Datum::List(xs), Datum::List(ys)) => eqv_seq(xs, ys),
        _ => false,
    }
}

/// Two sequences of one length whose elements are pairwise equivalent.
pub open spec fn eqv_seq(xs: Seq<Datum>, ys: Seq<Datum>) -> bool
    decreases xs, 0nat,
{
    if xs.len() != ys.len() {
        false
    } else if xs.len() == 0 {
        true
    } else {
        eqv_seq(xs.drop_last(), ys.drop_last()) && eqv_spec(xs.last(), ys.last())
    }
}

/// The result of `eqv?` and `eq?` on their arguments.
pub open spec fn eqv_result(ds: Seq<Datum>) -> Result<Datum, Fault> {
    if ds.len() != 2 {
        Err(Fault::NumArgs(2, ds))
    } else {
        Ok(Datum::Bool(eqv_spec(ds[0], ds[1])))
    }
}

/// Loose equality: the two arguments compared as numbers if both read as
/// numbers, else as strings if both read as strings, else as booleans if
/// both are booleans; otherwise they are unequal.
pub open spec fn equal_spec(ds: Seq<Datum>) -> Result<Datum, Fault> {
    if ds.len() != 2 {
        Err(Fault::NumArgs(2, ds))
    } else {
        Ok(
            Datum::Bool(
                match (number_of(ds[0]), number_of(ds[1])) {
                    (Some(a), Some(b)) => a == b,
                    _ => match (text_of(ds[0]), text_of(ds[1])) {
                        (Some(a), Some(b)) => a == b,
                        _ => match (truth_of(ds[0]), truth_of(ds[1])) {
                            (Some(a), Some(b)) => a == b,
                            _ => false,
                        },
                    },
                },
            ),
        )
    }
}

fn eqv_values(a: &Value, b: &Value) -> (r: bool)
    ensures
        r == eqv_spec(a@, b@),
    decreases a, 1nat,
{
    match (a, b) {
        (Value::Bool(x), Value::Bool(y)) => *x == *y,
        (Value::Number(x), Value::Number(y)) => *x == *y,
        (Value::String(x), Value::String(y)) => *x == *y,
        (Value::Atom(x), Value::Atom(y)) => *x == *y,
        (Value::DottedList(xs, x), Value::DottedList(ys, y)) => {
            let items = eqv_slices(xs.as_slice(), ys.as_slice());
            items && eqv_values(&**x, &**y)
        },
        (Value::List(xs), Value::List(ys)) => eqv_slices(xs.as_slice(), ys.as_slice()),
        _ => false,
    }
}

fn eqv_slices(xs: &[Value], ys: &[Value]) -> (r: bool)
    ensures
        r == eqv_seq(values_view(xs@), values_view(ys@)),
    decreases xs@, 0nat,
{
    proof {
        lemma_values_view(xs@);
        lemma_values_view(ys@);
    }
    if xs.len() != ys.len() {
        return false;
    }
    let mut result = true;
    let mut i: usize = 0;
    while i < xs.len()
        invariant
            i <= xs.len(),
            xs@.len() == ys@.len(),
            values_view(xs@).len() == xs@.len(),
            values_view(ys@).len() == ys@.len(),
            forall|j: int| 0 <= j < xs@.len() ==> #[trigger] values_view(xs@)[j] == xs@[j]@,
            forall|j: int| 0 <= j < ys@.len() ==> #[trigger] values_view(ys@)[j] == ys@[j]@,
            result == eqv_seq(values_view(xs@).subrange(0, i as int), values_view(ys@).subrange(0, i as int)),
        decreases xs.len() - i,
    {
        proof {
            assert(decreases_to!(xs@ => xs@[i as int]));
            assert(values_view(xs@).subrange(0, i + 1).drop_last() =~= values_view(xs@).subrange(0, i as int));
            assert(values_view(ys@).subrange(0, i + 1).drop_last() =~= values_view(ys@).subrange(0, i as int));
        }
        let same = eqv_values(&xs[i], &ys[i]);
        result = result && same;
        i = i + 1;
    }
    proof {
        assert(values_view(xs@).subrange(0, xs@.len() as int) =~= values_view(xs@));
        assert(values_view(ys@).subrange(0, ys@.len() as int) =~= values_view(ys@));
    }
    result
}

/// Structural equivalence of exactly two arguments.
pub fn eqv_impl(vals: &[Value]) -> (r: Result<bool, Error>)
    ensures
        vals@.len() == 2 ==> r == Ok::<bool, Error>(eqv_spec(vals@[0]@, vals@[1]@)),
        vals@.len() != 2 ==> (r matches Err(e) && e@ == Fault::NumArgs(2, values_view(vals@))),
{
    if let Some(e) = arity_error(vals, 2) {
        return Err(e);
    }
    Ok(eqv_values(&vals[0], &vals[1]))
}

/// `eqv?` and `eq?`: structural equivalence of exactly two arguments.
pub fn eqv(vals: &[Value]) -> (r: Result<Value, Error>)
    ensures
        outcome(r) == eqv_result(values_view(vals@)),
{
    proof {
        lemma_values_view(vals@);
    }
    match eqv_impl(vals) {
        Ok(b) => Ok(Value::Bool(b)),
        Err(e) => Err(e),
    }
}

/// `equal?`: loose equality of exactly two arguments.
pub fn equal(vals: &[Value]) -> (r: Result<Value, Error>)
    ensures
        outcome(r) == equal_spec(values_view(vals@)),
{
    proof {
        lemma_values_view(vals@);
    }
    if let Some(e) = arity_error(vals, 2) {
        return Err(e);
    }
    let val1 = &vals[0];
    let val2 = &vals[1];
    if let (Ok(a), Ok(b)) = (as_number(val1), as_number(val2)) {
        return Ok(Value::Bool(a == b));
    }
    if let (Ok(a), Ok(b)) = (as_string(val1), as_string(val2)) {
        return Ok(Value::Bool(a == b));
    }
    if let (Ok(a), Ok(b)) = (as_bool(val1), as_bool(val2)) {
        return Ok(Value::Bool(a == b));
    }
    Ok(Value::Bool(false))
}


/// The result of a built-in operation on its arguments.
pub open spec fn primitive_spec(f: PrimitiveFunc, ds: Seq<Datum>) -> Result<Datum, Fault> {
    match f {
        PrimitiveFunc::Add => numeric_binop_spec(ArithOp::Add, ds),
        PrimitiveFunc::Sub => numeric_binop_spec(ArithOp::Sub, ds),
        PrimitiveFunc::Mul => numeric_binop_spec(ArithOp::Mul, ds),
        PrimitiveFunc::Div => numeric_binop_spec(ArithOp::Div, ds),
        PrimitiveFunc::Rem => numeric_binop_spec(ArithOp::Rem, ds),
        PrimitiveFunc::Eq => numeric_bool_binop_spec(Comparison::Eq, ds),
        PrimitiveFunc::Lt => numeric_bool_binop_spec(Comparison::Lt, ds),
        PrimitiveFunc::Gt => numeric_bool_binop_spec(Comparison::Gt, ds),
        PrimitiveFunc::Ne => numeric_bool_binop_spec(Comparison::Ne, ds),
        PrimitiveFunc::Ge => numeric_bool_binop_spec(Comparison::Ge, ds),
        PrimitiveFunc::Le => numeric_bool_binop_spec(Comparison::Le, ds),
        PrimitiveFunc::And => bool_bool_binop_spec(Logic::And, ds),
        PrimitiveFunc::Or => bool_bool_binop_spec(Logic::Or, ds),
        PrimitiveFunc::StringEq => string_bool_binop_spec(Comparison::Eq, ds),
        PrimitiveFunc::StringLt => string_bool_binop_spec(Comparison::Lt, ds),
        PrimitiveFunc::StringGt => string_bool_binop_spec(Comparison::Gt, ds),
        PrimitiveFunc::StringLe => string_bool_binop_spec(Comparison::Le, ds),
        PrimitiveFunc::StringGe => string_bool_binop_spec(Comparison::Ge, ds),
        PrimitiveFunc::Car => car_spec(ds),
        PrimitiveFunc::Cdr => cdr_spec(ds),
        PrimitiveFunc::Cons => cons_spec(ds),
        PrimitiveFunc::Eqv => eqv_result(ds),
        PrimitiveFunc::Equal => equal_spec(ds),
    }
}

/// Runs a built-in operation on its arguments.
pub fn apply_primitive(f: PrimitiveFunc, args: &[Value]) -> (r: Result<Value, Error>)
    ensures
        outcome(r) == primitive_spec(f, values_view(args@)),
{
    match f {
        PrimitiveFunc::Add => numeric_binop(args, ArithOp::Add),
        PrimitiveFunc::Sub => numeric_binop(args, ArithOp::Sub),
        PrimitiveFunc::Mul => numeric_binop(args, ArithOp::Mul),
        PrimitiveFunc::Div => numeric_binop(args, ArithOp::Div),
        PrimitiveFunc::Rem => numeric_binop(args, ArithOp::Rem),
        PrimitiveFunc::Eq => numeric_bool_binop(args, Comparison::Eq),
        PrimitiveFunc::Lt => numeric_bool_binop(args, Comparison::Lt),
        PrimitiveFunc::Gt => numeric_bool_binop(args, Comparison::Gt),
        PrimitiveFunc::Ne => numeric_bool_binop(args, Comparison::Ne),
        PrimitiveFunc::Ge => numeric_bool_binop(args, Comparison::Ge),
        PrimitiveFunc::Le => numeric_bool_binop(args, Comparison::Le),
        PrimitiveFunc::And => bool_bool_binop(args, Logic::And),
        PrimitiveFunc::Or => bool_bool_binop(args, Logic::Or),
        PrimitiveFunc::StringEq => string_bool_binop(args, Comparison::Eq),
        PrimitiveFunc::StringLt => string_bool_binop(args, Comparison::Lt),
        PrimitiveFunc::StringGt => string_bool_binop(args, Comparison::Gt),
        PrimitiveFunc::StringLe => string_bool_binop(args, Comparison::Le),
        PrimitiveFunc::StringGe => string_bool_binop(args, Comparison::Ge),
        PrimitiveFunc::Car => car(args),
        PrimitiveFunc::Cdr => cdr(args),
        PrimitiveFunc::Cons => cons(args),
        PrimitiveFunc::Eqv => eqv(args),
        PrimitiveFunc::Equal => equal(args),
    }
}

/// The operations on numbers: the integer folds and the numeric comparisons.
pub open spec fn is_numeric(f: PrimitiveFunc) -> bool {
    match f {
        PrimitiveFunc::Add | PrimitiveFunc::Sub | PrimitiveFunc::Mul | PrimitiveFunc::Div
        | PrimitiveFunc::Rem | PrimitiveFunc::Eq | PrimitiveFunc::Lt | PrimitiveFunc::Gt
        | PrimitiveFunc::Ne | PrimitiveFunc::Ge | PrimitiveFunc::Le => true,
        _ => false,
    }
}

/// Every operation on numbers, given fewer than two arguments, fails with
/// an arity error that asks for two and carries the arguments given.
pub proof fn lemma_numeric_arity(f: PrimitiveFunc, ds: Seq<Datum>)
    requires
        is_numeric(f),
        ds.len() < 2,
    ensures
        primitive_spec(f, ds) == Err::<Datum, Fault>(Fault::NumArgs(2, ds)),
{
}

/// `car` and `cdr` of an empty list, or of a dotted list with no elements
/// before its tail, fail with a type mismatch that asks for a pair.
pub proof fn lemma_pair_of_empty(tail: Datum)
    ensures
        primitive_spec(PrimitiveFunc::Car, seq![Datum::List(Seq::empty())]) == mismatch(
            "pair"@,
            Datum::List(Seq::empty()),
        ),
        primitive_spec(PrimitiveFunc::Cdr, seq![Datum::List(Seq::empty())]) == mismatch(
            "pair"@,
            Datum::List(Seq::empty()),
        ),
        primitive_spec(PrimitiveFunc::Car, seq![Datum::DottedList(Seq::empty(), Box::new(tail))])
            == mismatch("pair"@, Datum::DottedList(Seq::empty(), Box::new(tail))),
        primitive_spec(PrimitiveFunc::Cdr, seq![Datum::DottedList(Seq::empty(), Box::new(tail))])
            == mismatch("pair"@, Datum::DottedList(Seq::empty(), Box::new(tail))),
{
}

/// `cons` of `a` and a list puts `a` in front of its elements; of `a` and a
/// dotted list, in front of its elements with the tail kept; of `a` and
/// anything else, makes the dotted pair of the two.
pub proof fn lemma_cons_shape(a: Datum, b: Datum)
    ensures
        primitive_spec(PrimitiveFunc::Cons, seq![a, b]) == match b {
            Datum::List(xs) => Ok::<Datum, Fault>(Datum::List(seq![a] + xs)),
            Datum::DottedList(xs, t) => Ok(Datum::DottedList(seq![a] + xs, t)),
            _ => Ok(Datum::DottedList(seq![a], Box::new(b))),
        },
{
}

} // verus!
