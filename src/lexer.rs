use vstd::prelude::*;

use crate::primitive::{is_digit, parse_int, parse_int_text};
use crate::util::{int_text, int_text_exec};

verus! {

/// A lexical token of the source text.
#[derive(Debug)]
pub enum Token {
    String(String),
    Atom(String),
    Number(i64),
    Quote,
    Dot,
    LParen,
    RParen,
    Error,
}

/// The mathematical form of a `Token`.
pub enum Lexeme {
    Str(Seq<char>),
    Atom(Seq<char>),
    Number(i64),
    Quote,
    Dot,
    LParen,
    RParen,
    Error,
}

impl View for Token {
    type V = Lexeme;

    open spec fn view(&self) -> Lexeme {
        match *self {
            Token::String(s) => Lexeme::Str(s@),
            Token::Atom(s) => Lexeme::Atom(s@),
            Token::Number(n) => Lexeme::Number(n),
            Token::Quote => Lexeme::Quote,
            Token::Dot => Lexeme::Dot,
            Token::LParen => Lexeme::LParen,
            Token::RParen => Lexeme::RParen,
            Token::Error => Lexeme::Error,
        }
    }
}

/// The text of a token as it would be written.
pub open spec fn lexeme_text(t: Lexeme) -> Seq<char> {
    match t {
        Lexeme::Str(s) => seq!['"'] + s + seq!['"'],
        Lexeme::Atom(a) => a,
        Lexeme::Number(n) => int_text(n as int),
        Lexeme::Quote => seq!['\''],
        Lexeme::Dot => seq!['.'],
        Lexeme::LParen => seq!['('],
        Lexeme::RParen => seq![')'],
        Lexeme::Error => "error"@,
    }
}

/// The texts of the tokens, separated by single spaces.
pub open spec fn lexemes_text(ts: Seq<Lexeme>) -> Seq<char>
    decreases ts.len(),
{
    if ts.len() == 0 {
        Seq::empty()
    } else if ts.len() == 1 {
        lexeme_text(ts[0])
    } else {
        lexemes_text(ts.drop_last()) + seq![' '] + lexeme_text(ts.last())
    }
}

impl Token {
    /// The text of this token as it would be written.
    pub fn to_string(&self) -> (r: String)
        ensures
            r@ == lexeme_text(self@),
    {
        match self {
            Token::String(s) => {
                let mut r = String::new();
                r.append("\"");
                r.append(s.as_str());
                r.append("\"");
                proof {
                    reveal_strlit("\"");
                    assert(r@ =~= lexeme_text(self@));
                }
                r
            },
            Token::Atom(a) => a.clone(),
            Token::Number(n) => int_text_exec(*n),
            Token::Quote => {
                let r = "'".to_owned();
                proof {
                    reveal_strlit("'");
                    assert(r@ =~= lexeme_text(self@));
                }
                r
            },
            Token::Dot => {
                let r = ".".to_owned();
                proof {
                    reveal_strlit(".");
                    assert(r@ =~= lexeme_text(self@));
                }
                r
            },
            Token::LParen => {
                let r = "(".to_owned();
                proof {
                    reveal_strlit("(");
                    assert(r@ =~= lexeme_text(self@));
                }
                r
            },
            Token::RParen => {
                let r = ")".to_owned();
                proof {
                    reveal_strlit(")");
                    assert(r@ =~= lexeme_text(self@));
                }
                r
            },
            Token::Error => "error".to_owned(),
        }
    }
}

/// The texts of the tokens, separated by single spaces.
pub fn tokens_text(ts: &[Token]) -> (r: String)
    ensures
        r@ == lexemes_text(tokens_view(ts@)),
{
    let ghost tv = tokens_view(ts@);
    let mut r = String::new();
    let mut i: usize = 0;
    while i < ts.len()
        invariant
            i <= ts.len(),
            tv == tokens_view(ts@),
            r@ == lexemes_text(tv.subrange(0, i as int)),
        decreases ts.len() - i,
    {
        if i > 0 {
            r.append(" ");
        }
        let t = ts[i].to_string();
        r.append(t.as_str());
        proof {
            reveal_strlit(" ");
            let next = tv.subrange(0, i + 1);
            assert(next.drop_last() =~= tv.subrange(0, i as int));
            assert(r@ =~= lexemes_text(next));
        }
        i = i + 1;
    }
    proof {
        assert(tv.subrange(0, ts@.len() as int) =~= tv);
    }
    r
}

pub open spec fn tokens_view(ts: Seq<Token>) -> Seq<Lexeme> {
    ts.map_values(|t: Token| t@)
}

impl Clone for Token {
    fn clone(&self) -> (r: Self)
        ensures
            r@ == self@,
    {
        match self {
            Token::String(s) => Token::String(s.clone()),
            Token::Atom(s) => Token::Atom(s.clone()),
            Token::Number(n) => Token::Number(*n),
            Token::Quote => Token::Quote,
            Token::Dot => Token::Dot,
            Token::LParen => Token::LParen,
            Token::RParen => Token::RParen,
            Token::Error => Token::Error,
        }
    }
}

impl PartialEq for Token {
    fn eq(&self, other: &Token) -> (r: bool)
        ensures
            r == (self@ == other@),
    {
        match (self, other) {
            (Token::String(a), Token::String(b)) => *a == *b,
            (Token::Atom(a), Token::Atom(b)) => *a == *b,
            (Token::Number(a), Token::Number(b)) => *a == *b,
            (Token::Quote, Token::Quote) => true,
            (Token::Dot, Token::Dot) => true,
            (Token::LParen, Token::LParen) => true,
            (Token::RParen, Token::RParen) => true,
            (Token::Error, Token::Error) => true,
            _ => false,
        }
    }
}

impl vstd::std_specs::cmp::PartialEqSpecImpl for Token {
    open spec fn obeys_eq_spec() -> bool {
        true
    }

    open spec fn eq_spec(&self, other: &Token) -> bool {
        self@ == other@
    }
}

/// Copies a sequence of tokens.
pub fn clone_tokens(ts: &[Token]) -> (r: Vec<Token>)
    ensures
        tokens_view(r@) == tokens_view(ts@),
{
    let mut out: Vec<Token> = Vec::new();
    let mut i: usize = 0;
    while i < ts.len()
        invariant
            i <= ts.len(),
            out@.len() == i,
            forall|j: int| 0 <= j < i ==> (#[trigger] out@[j])@ == ts@[j]@,
        decreases ts.len() - i,
    {
        out.push(ts[i].clone());
        i = i + 1;
    }
    proof {
        assert(tokens_view(out@) =~= tokens_view(ts@));
    }
    out
}


pub open spec fn is_space(c: char) -> bool {
    c == ' ' || c == '\t' || c == '\n' || c == '\r' || c == '\x0c'
}

pub open spec fn is_lower(c: char) -> bool {
    'a' as u32 <= c as u32 <= 'z' as u32
}

/// The punctuation that may stand in an atom.
pub open spec fn is_symbol(c: char) -> bool {
    c == '!' || c == '#' || c == '$' || c == '%' || c == '&' || c == '|' || c == '*' || c == '+'
        || c == '-' || c == '/' || c == ':' || c == '<' || c == '=' || c == '>' || c == '?'
        || c == '@' || c == '^' || c == '_' || c == '~'
}

pub open spec fn is_atom_char(c: char) -> bool {
    is_lower(c) || is_digit(c) || is_symbol(c)
}

/// Where the run of atom characters from `i` on ends.
pub open spec fn atom_end(s: Seq<char>, i: int) -> int
    decreases s.len() - i,
{
    if i < s.len() && is_atom_char(s[i]) {
        atom_end(s, i + 1)
    } else {
        i
    }
}

/// Where the run of digits from `i` on ends.
pub open spec fn digits_end(s: Seq<char>, i: int) -> int
    decreases s.len() - i,
{
    if i < s.len() && is_digit(s[i]) {
        digits_end(s, i + 1)
    } else {
        i
    }
}

/// Where the string literal whose text starts at `i` is closed: the
/// position of the closing `"`. Inside, a `\` must be followed by `t`, `u`,
/// `n` or `"`. None when the literal is never closed or holds another escape.
pub open spec fn string_end(s: Seq<char>, i: int) -> Option<int>
    decreases s.len() - i,
{
    if i < 0 || i >= s.len() {
        None
    } else if s[i] == '"' {
        Some(i)
    } else if s[i] == '\\' {
        if i + 1 < s.len() && (s[i + 1] == 't' || s[i + 1] == 'u' || s[i + 1] == 'n' || s[i + 1] == '"') {
            string_end(s, i + 2)
        } else {
            None
        }
    } else {
        string_end(s, i + 1)
    }
}

pub proof fn lemma_run_ends(s: Seq<char>, i: int)
    requires
        0 <= i <= s.len(),
    ensures
        i <= atom_end(s, i) <= s.len(),
        i <= digits_end(s, i) <= s.len(),
        string_end(s, i) matches Some(j) ==> i <= j < s.len(),
    decreases s.len() - i,
{
    if i < s.len() {
        lemma_run_ends(s, i + 1);
        if i + 2 <= s.len() {
            lemma_run_ends(s, i + 2);
        }
    }
}

/// The tokens of `s` from position `i` on. White space separates tokens.
/// A string literal is the text between its quotes, as written; a run of
/// digits is a number (an error token when it does not fit in 64 bits); an
/// atom starts with a lower-case letter or a symbol and goes on with those
/// and digits. Any other character, and a `"` that opens no well-formed
/// literal, is an error token.
pub open spec fn lex_from(s: Seq<char>, i: int) -> Seq<Lexeme>
    decreases s.len() - i, 0nat,
{
    if i < 0 || i >= s.len() {
        Seq::empty()
    } else {
        proof {
            lemma_run_ends(s, i + 1);
            lemma_run_ends(s, i);
        }
        let c = s[i];
        if is_space(c) {
            lex_from(s, i + 1)
        } else if c == '(' {
            seq![Lexeme::LParen] + lex_from(s, i + 1)
        } else if c == ')' {
            seq![Lexeme::RParen] + lex_from(s, i + 1)
        } else if c == '\'' {
            seq![Lexeme::Quote] + lex_from(s, i + 1)
        } else if c == '.' {
            seq![Lexeme::Dot] + lex_from(s, i + 1)
        } else if c == '"' {
            match string_end(s, i + 1) {
                Some(j) => seq![Lexeme::Str(s.subrange(i + 1, j))] + lex_from(s, j + 1),
                None => seq![Lexeme::Error] + lex_from(s, i + 1),
            }
        } else if is_digit(c) {
            let j = digits_end(s, i);
            seq![
                match parse_int(s.subrange(i, j)) {
                    Some(n) => Lexeme::Number(n),
                    None => Lexeme::Error,
                },
            ] + lex_from(s, j)
        } else if is_lower(c) || is_symbol(c) {
            let j = atom_end(s, i + 1);
            seq![Lexeme::Atom(s.subrange(i, j))] + lex_from(s, j)
        } else {
            seq![Lexeme::Error] + lex_from(s, i + 1)
        }
    }
}


fn is_atom_char_exec(c: char) -> (r: bool)
    ensures
        r == is_atom_char(c),
{
    let u = c as u32;
    (97 <= u && u <= 122) || (48 <= u && u <= 57) || is_symbol_exec(c)
}

fn is_symbol_exec(c: char) -> (r: bool)
    ensures
        r == is_symbol(c),
{
    c == '!' || c == '#' || c == '$' || c == '%' || c == '&' || c == '|' || c == '*' || c == '+'
        || c == '-' || c == '/' || c == ':' || c == '<' || c == '=' || c == '>' || c == '?'
        || c == '@' || c == '^' || c == '_' || c == '~'
}

fn scan_atom(cs: &Vec<char>, i: usize) -> (r: usize)
    requires
        i <= cs@.len(),
    ensures
        r == atom_end(cs@, i as int),
{
    let mut j = i;
    while j < cs.len() && is_atom_char_exec(cs[j])
        invariant
            i <= j <= cs@.len(),
            atom_end(cs@, i as int) == atom_end(cs@, j as int),
        decreases cs.len() - j,
    {
        j = j + 1;
    }
    j
}

fn scan_digits(cs: &Vec<char>, i: usize) -> (r: usize)
    requires
        i <= cs@.len(),
    ensures
        r == digits_end(cs@, i as int),
{
    let mut j = i;
    while j < cs.len() && 48 <= cs[j] as u32 && cs[j] as u32 <= 57
        invariant
            i <= j <= cs@.len(),
            digits_end(cs@, i as int) == digits_end(cs@, j as int),
        decreases cs.len() - j,
    {
        j = j + 1;
    }
    j
}

fn scan_string(cs: &Vec<char>, i: usize) -> (r: Option<usize>)
    requires
        i <= cs@.len(),
    ensures
        match r {
            Some(j) => string_end(cs@, i as int) == Some(j as int),
            None => string_end(cs@, i as int) is None,
        },
{
    let mut j = i;
    while j < cs.len()
        invariant
            i <= j <= cs@.len() + 1,
            string_end(cs@, i as int) == string_end(cs@, j as int),
        decreases cs.len() - j,
    {
        let c = cs[j];
        if c == '"' {
            return Some(j);
        }
        if c == '\\' {
            if j + 1 < cs.len() {
                let d = cs[j + 1];
                if d == 't' || d == 'u' || d == 'n' || d == '"' {
                    j = j + 2;
                } else {
                    return None;
                }
            } else {
                return None;
            }
        } else {
            j = j + 1;
        }
    }
    None
}

/// Splits a text into tokens, as `lex_from` describes.
pub fn lex(input: &str) -> (r: Vec<Token>)
    ensures
        tokens_view(r@) == lex_from(input@, 0),
{
    let n = input.unicode_len();
    let mut cs: Vec<char> = Vec::new();
    let mut k: usize = 0;
    while k < n
        invariant
            k <= n,
            n == input@.len(),
            cs@ == input@.subrange(0, k as int),
        decreases n - k,
    {
        cs.push(input.get_char(k));
        k = k + 1;
        proof {
            assert(cs@ =~= input@.subrange(0, k as int));
        }
    }
    proof {
        assert(cs@ =~= input@);
    }
    let ghost s = input@;
    let mut out: Vec<Token> = Vec::new();
    let mut i: usize = 0;
    proof {
        assert(tokens_view(out@) + lex_from(s, 0) =~= lex_from(s, 0));
    }
    while i < n
        invariant
            i <= n,
            n == s.len(),
            s == input@,
            cs@ == s,
            tokens_view(out@) + lex_from(s, i as int) == lex_from(s, 0),
        decreases n - i,
    {
        proof {
            lemma_run_ends(s, i as int);
            lemma_run_ends(s, i + 1);
        }
        let ghost before = tokens_view(out@);
        let c = cs[i];
        let cu = c as u32;
        let next: usize;
        if c == ' ' || c == '\t' || c == '\n' || c == '\r' || c == '\x0c' {
            next = i + 1;
        } else {
            let tok: Token;
            if c == '(' {
                tok = Token::LParen;
                next = i + 1;
            } else if c == ')' {
                tok = Token::RParen;
                next = i + 1;
            } else if c == '\'' {
                tok = Token::Quote;
                next = i + 1;
            } else if c == '.' {
                tok = Token::Dot;
                next = i + 1;
            } else if c == '"' {
                match scan_string(&cs, i + 1) {
                    Some(j) => {
                        tok = Token::String(input.substring_char(i + 1, j).to_owned());
                        next = j + 1;
                    },
                    None => {
                        tok = Token::Error;
                        next = i + 1;
                    },
                }
            } else if 48 <= cu && cu <= 57 {
                let j = scan_digits(&cs, i);
                tok = match parse_int_text(input.substring_char(i, j)) {
                    Some(v) => Token::Number(v),
                    None => Token::Error,
                };
                next = j;
            } else if (97 <= cu && cu <= 122) || is_symbol_exec(c) {
                let j = scan_atom(&cs, i + 1);
                tok = Token::Atom(input.substring_char(i, j).to_owned());
                next = j;
            } else {
                tok = Token::Error;
                next = i + 1;
            }
            out.push(tok);
            proof {
                assert(lex_from(s, i as int) == seq![tok@] + lex_from(s, next as int));
                assert(tokens_view(out@) =~= before.push(tok@));
                assert(tokens_view(out@) + lex_from(s, next as int) =~= before + lex_from(s, i as int));
            }
        }
        i = next;
    }
    proof {
        assert(tokens_view(out@) =~= tokens_view(out@) + lex_from(s, n as int));
    }
    out
}

} // verus!
