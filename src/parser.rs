use vstd::prelude::*;

use crate::error::{ParseFault, ParserError};
use crate::lexer::{clone_tokens, lex, lex_from, tokens_view, Lexeme, Token};
use crate::value::{lemma_values_view, values_view, Datum, Value, FALSE, QUOTE, TRUE};

verus! {

/// The value an atom token stands for: `#t` and `#f` are the booleans.
pub open spec fn atom_datum(a: Seq<char>) -> Datum {
    if a == TRUE@ {
        Datum::Bool(true)
    } else if a == FALSE@ {
        Datum::Bool(false)
    } else {
        Datum::Atom(a)
    }
}

/// The expression that starts at token `i`, with the position after it.
pub open spec fn parse_expr_spec(ts: Seq<Lexeme>, i: int) -> Result<(Datum, int), ParseFault>
    decreases ts.len() - i, 0nat,
{
    if i < 0 || i >= ts.len() {
        Err(ParseFault::NoMoreTokens)
    } else {
        match ts[i] {
            Lexeme::Atom(a) => Ok((atom_datum(a), i + 1)),
            Lexeme::Str(s) => Ok((Datum::Str(s), i + 1)),
            Lexeme::Number(n) => Ok((Datum::Number(n), i + 1)),
            Lexeme::Quote => match parse_expr_spec(ts, i + 1) {
                Ok((d, j)) => Ok((Datum::List(seq![Datum::Atom(QUOTE@), d]), j)),
                Err(f) => Err(f),
            },
            Lexeme::LParen => parse_list_spec(ts, i + 1, Seq::empty()),
            other => Err(ParseFault::UnexpectedToken(other)),
        }
    }
}

/// The rest of a list whose elements so far are `acc`, from token `i` on:
/// up to a `)`, or a `.`, one more expression and a `)`.
pub open spec fn parse_list_spec(ts: Seq<Lexeme>, i: int, acc: Seq<Datum>) -> Result<(Datum, int), ParseFault>
    decreases ts.len() - i, 1nat,
{
    if i < 0 || i >= ts.len() {
        Err(ParseFault::NoMoreTokens)
    } else {
        match ts[i] {
            Lexeme::RParen => Ok((Datum::List(acc), i + 1)),
            Lexeme::Dot => match parse_expr_spec(ts, i + 1) {
                Ok((last, j)) => if j >= ts.len() {
                    Err(ParseFault::NoMoreTokens)
                } else if ts[j] == Lexeme::RParen {
                    Ok((Datum::DottedList(acc, Box::new(last)), j + 1))
                } else {
                    Err(ParseFault::ExpectedToken(Lexeme::RParen, ts[j]))
                },
                Err(f) => Err(f),
            },
            _ => match parse_expr_spec(ts, i) {
                Ok((d, j)) => if i < j <= ts.len() {
                    parse_list_spec(ts, j, acc.push(d))
                } else {
                    Err(ParseFault::NoMoreTokens)
                },
                Err(f) => Err(f),
            },
        }
    }
}

/// The one expression that a text holds, with no tokens after it.
pub open spec fn parse_spec(s: Seq<char>) -> Result<Datum, ParseFault> {
    let ts = lex_from(s, 0);
    match parse_expr_spec(ts, 0) {
        Err(f) => Err(f),
        Ok((d, j)) => if j < ts.len() {
            Err(ParseFault::TokensLeft(ts.subrange(j, ts.len() as int)))
        } else {
            Ok(d)
        },
    }
}

/// The expressions from token `i` on, one after another, after `acc`.
pub open spec fn parse_many_spec(ts: Seq<Lexeme>, i: int, acc: Seq<Datum>) -> Result<Seq<Datum>, ParseFault>
    decreases ts.len() - i,
{
    if i < 0 || i >= ts.len() {
        Ok(acc)
    } else {
        match parse_expr_spec(ts, i) {
            Ok((d, j)) => if i < j <= ts.len() {
                parse_many_spec(ts, j, acc.push(d))
            } else {
                Err(ParseFault::NoMoreTokens)
            },
            Err(f) => Err(f),
        }
    }
}

/// The expressions that a text holds, one after another.
pub open spec fn parse_all_spec(s: Seq<char>) -> Result<Seq<Datum>, ParseFault> {
    parse_many_spec(lex_from(s, 0), 0, Seq::empty())
}

pub open spec fn parsed(r: Result<(Value, usize), ParserError>) -> Result<(Datum, int), ParseFault> {
    match r {
        Ok((v, j)) => Ok((v@, j as int)),
        Err(e) => Err(e@),
    }
}

pub open spec fn parse_outcome(r: Result<Value, ParserError>) -> Result<Datum, ParseFault> {
    match r {
        Ok(v) => Ok(v@),
        Err(e) => Err(e@),
    }
}


/// Moves past the token at `i`, which must be `expected`.
fn expect_token(expected: Token, tokens: &[Token], i: usize) -> (r: Result<usize, ParserError>)
    ensures
        i >= tokens@.len() ==> (r matches Err(e) && e@ == ParseFault::NoMoreTokens),
        i < tokens@.len() && tokens@[i as int]@ != expected@ ==> (r matches Err(e) && e@
            == ParseFault::ExpectedToken(expected@, tokens@[i as int]@)),
        i < tokens@.len() && tokens@[i as int]@ == expected@ ==> (r matches Ok(k) && k == i + 1),
{
    if i >= tokens.len() {
        return Err(ParserError::NoMoreTokens);
    }
    if tokens[i] != expected {
        return Err(ParserError::ExpectedToken(expected, tokens[i].clone()));
    }
    Ok(i + 1)
}

/// Fails with the tokens from `i` on, if there are any.
fn check_tokens_left(tokens: &[Token], i: usize) -> (r: Result<(), ParserError>)
    requires
        i <= tokens@.len(),
    ensures
        i == tokens@.len() ==> r is Ok,
        i < tokens@.len() ==> (r matches Err(e) && e@ == ParseFault::TokensLeft(
            tokens_view(tokens@).subrange(i as int, tokens@.len() as int),
        )),
{
    if i < tokens.len() {
        let mut left: Vec<Token> = Vec::new();
        let mut k: usize = i;
        while k < tokens.len()
            invariant
                i <= k <= tokens@.len(),
                tokens_view(left@) == tokens_view(tokens@).subrange(i as int, k as int),
            decreases tokens.len() - k,
        {
            let ghost before = left@;
            left.push(tokens[k].clone());
            proof {
                assert(tokens_view(left@) =~= tokens_view(before).push(tokens@[k as int]@));
                assert(tokens_view(tokens@).subrange(i as int, k + 1) =~= tokens_view(tokens@).subrange(
                    i as int,
                    k as int,
                ).push(tokens@[k as int]@));
            }
            k = k + 1;
        }
        return Err(ParserError::TokensLeft(left));
    }
    Ok(())
}

fn unexpected(tokens: &[Token], i: usize) -> (r: ParserError)
    ensures
        i >= tokens@.len() ==> r@ == ParseFault::NoMoreTokens,
        i < tokens@.len() ==> r@ == ParseFault::UnexpectedToken(tokens@[i as int]@),
{
    if i < tokens.len() {
        ParserError::UnexpectedToken(tokens[i].clone())
    } else {
        ParserError::NoMoreTokens
    }
}

/// A string literal at token `i`.
fn parse_string(tokens: &[Token], i: usize) -> (r: Result<(Value, usize), ParserError>)
    ensures
        match r {
            Ok((v, j)) => i < tokens@.len() && (tokens@[i as int]@ matches Lexeme::Str(s) && v@
                == Datum::Str(s)) && j == i + 1,
            Err(e) => !(i < tokens@.len() && tokens@[i as int]@ is Str) && e@ == unexpected_fault(
                tokens_view(tokens@),
                i as int,
            ),
        },
{
    if i < tokens.len() {
        if let Token::String(s) = &tokens[i] {
            return Ok((Value::String(s.clone()), i + 1));
        }
    }
    Err(unexpected(tokens, i))
}

/// An atom at token `i`; `#t` and `#f` are the booleans.
fn parse_atom(tokens: &[Token], i: usize) -> (r: Result<(Value, usize), ParserError>)
    ensures
        match r {
            Ok((v, j)) => i < tokens@.len() && (tokens@[i as int]@ matches Lexeme::Atom(a) && v@
                == atom_datum(a)) && j == i + 1,
            Err(e) => !(i < tokens@.len() && tokens@[i as int]@ is Atom) && e@ == unexpected_fault(
                tokens_view(tokens@),
                i as int,
            ),
        },
{
    if i < tokens.len() {
        if let Token::Atom(a) = &tokens[i] {
            let t = TRUE.to_owned();
            let f = FALSE.to_owned();
            if *a == t {
                return Ok((Value::Bool(true), i + 1));
            } else if *a == f {
                return Ok((Value::Bool(false), i + 1));
            } else {
                return Ok((Value::Atom(a.clone()), i + 1));
            }
        }
    }
    Err(unexpected(tokens, i))
}

/// A number at token `i`.
fn parse_number(tokens: &[Token], i: usize) -> (r: Result<(Value, usize), ParserError>)
    ensures
        match r {
            Ok((v, j)) => i < tokens@.len() && (tokens@[i as int]@ matches Lexeme::Number(n) && v@
                == Datum::Number(n)) && j == i + 1,
            Err(e) => !(i < tokens@.len() && tokens@[i as int]@ is Number) && e@ == unexpected_fault(
                tokens_view(tokens@),
                i as int,
            ),
        },
{
    if i < tokens.len() {
        if let Token::Number(n) = &tokens[i] {
            return Ok((Value::Number(*n), i + 1));
        }
    }
    Err(unexpected(tokens, i))
}

pub open spec fn unexpected_fault(ts: Seq<Lexeme>, i: int) -> ParseFault {
    if i < ts.len() {
        ParseFault::UnexpectedToken(ts[i])
    } else {
        ParseFault::NoMoreTokens
    }
}

/// A quote mark at token `i` and the expression after it, read as `(quote x)`.
fn parse_quoted(tokens: &[Token], i: usize) -> (r: Result<(Value, usize), ParserError>)
    requires
        i < tokens@.len(),
        tokens@[i as int]@ == Lexeme::Quote,
    ensures
        parsed(r) == parse_expr_spec(tokens_view(tokens@), i as int),
        r matches Ok((_, j)) ==> i < j <= tokens@.len(),
    decreases tokens@.len() - i, 1nat,
{
    let next = match expect_token(Token::Quote, tokens, i) {
        Ok(k) => k,
        Err(e) => return Err(e),
    };
    match parse_expr(tokens, next) {
        Ok((v, j)) => {
            let quoted = vec![Value::Atom(QUOTE.to_owned()), v];
            proof {
                lemma_values_view(quoted@);
                assert(values_view(quoted@) =~= seq![Datum::Atom(QUOTE@), quoted@[1]@]);
            }
            Ok((Value::List(quoted), j))
        },
        Err(e) => Err(e),
    }
}

/// A list at token `i`, which opens it: up to its `)`, or a `.`, one
/// more expression and a `)`.
fn parse_any_list(tokens: &[Token], i: usize) -> (r: Result<(Value, usize), ParserError>)
    requires
        i < tokens@.len(),
        tokens@[i as int]@ == Lexeme::LParen,
    ensures
        parsed(r) == parse_expr_spec(tokens_view(tokens@), i as int),
        r matches Ok((_, j)) ==> i < j <= tokens@.len(),
    decreases tokens@.len() - i, 1nat,
{
    let ghost ts = tokens_view(tokens@);
    let mut pos = match expect_token(Token::LParen, tokens, i) {
        Ok(k) => k,
        Err(e) => return Err(e),
    };
    let mut values: Vec<Value> = Vec::new();
    proof {
        assert(values_view(values@) =~= Seq::<Datum>::empty());
    }
    loop
        invariant
            i < pos <= tokens@.len(),
            ts == tokens_view(tokens@),
            parse_expr_spec(ts, i as int) == parse_list_spec(ts, pos as int, values_view(values@)),
        decreases tokens@.len() - pos,
    {
        if pos >= tokens.len() {
            return Err(ParserError::NoMoreTokens);
        }
        match &tokens[pos] {
            Token::RParen => {
                return Ok((Value::List(values), pos + 1));
            },
            Token::Dot => {
                let (last, j) = match parse_expr(tokens, pos + 1) {
                    Ok(p) => p,
                    Err(e) => return Err(e),
                };
                let k = match expect_token(Token::RParen, tokens, j) {
                    Ok(k) => k,
                    Err(e) => return Err(e),
                };
                return Ok((Value::DottedList(values, Box::new(last)), k));
            },
            _ => {
                let (v, j) = match parse_expr(tokens, pos) {
                    Ok(p) => p,
                    Err(e) => return Err(e),
                };
                let ghost before = values@;
                values.push(v);
                proof {
                    lemma_values_view(values@);
                    lemma_values_view(before);
                    assert(values_view(values@) =~= values_view(before).push(v@));
                }
                pos = j;
            },
        }
    }
}

/// The expression that starts at token `i`, with the position after it.
fn parse_expr(tokens: &[Token], i: usize) -> (r: Result<(Value, usize), ParserError>)
    ensures
        parsed(r) == parse_expr_spec(tokens_view(tokens@), i as int),
        r matches Ok((_, j)) ==> i < j <= tokens@.len(),
    decreases tokens@.len() - i, 2nat,
{
    if i >= tokens.len() {
        return Err(ParserError::NoMoreTokens);
    }
    match &tokens[i] {
        Token::Atom(_) => parse_atom(tokens, i),
        Token::String(_) => parse_string(tokens, i),
        Token::Number(_) => parse_number(tokens, i),
        Token::Quote => parse_quoted(tokens, i),
        Token::LParen => parse_any_list(tokens, i),
        _ => Err(unexpected(tokens, i)),
    }
}

/// Reads the one expression that a text holds.
pub fn parse(input: &str) -> (r: Result<Value, ParserError>)
    ensures
        parse_outcome(r) == parse_spec(input@),
{
    let tokens = lex(input);
    let (value, j) = match parse_expr(tokens.as_slice(), 0) {
        Ok(p) => p,
        Err(e) => return Err(e),
    };
    match check_tokens_left(tokens.as_slice(), j) {
        Ok(()) => Ok(value),
        Err(e) => Err(e),
    }
}


/// Reads the expressions that a text holds, one after another.
pub fn parse_all(input: &str) -> (r: Result<Vec<Value>, ParserError>)
    ensures
        match r {
            Ok(vs) => parse_all_spec(input@) == Ok::<Seq<Datum>, ParseFault>(values_view(vs@)),
            Err(e) => parse_all_spec(input@) == Err::<Seq<Datum>, ParseFault>(e@),
        },
{
    let tokens = lex(input);
    let ghost ts = tokens_view(tokens@);
    let mut values: Vec<Value> = Vec::new();
    let mut pos: usize = 0;
    proof {
        assert(values_view(values@) =~= Seq::<Datum>::empty());
    }
    while pos < tokens.len()
        invariant
            pos <= tokens@.len(),
            ts == tokens_view(tokens@),
            ts == lex_from(input@, 0),
            parse_all_spec(input@) == parse_many_spec(ts, pos as int, values_view(values@)),
        decreases tokens@.len() - pos,
    {
        match parse_expr(tokens.as_slice(), pos) {
            Ok((v, j)) => {
                let ghost before = values@;
                values.push(v);
                proof {
                    lemma_values_view(values@);
                    lemma_values_view(before);
                    assert(values_view(values@) =~= values_view(before).push(v@));
                }
                pos = j;
            },
            Err(e) => {
                return Err(e);
            },
        }
    }
    Ok(values)
}

} // verus!
