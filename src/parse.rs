use vstd::prelude::*;
use vstd::std_specs::iter::IteratorSpec;

use crate::syntax::{Expr, LineInfo, Program, SpecExpr, SpecTerm, SpecType, Term, Type};
use crate::text::push_char;

verus! {

broadcast use {vstd::string::group_string_axioms, vstd::string::next_postcondition, vstd::string::axiom_spec_iter};

// ---------------------------------------------------------------------------
// Tokens
// ---------------------------------------------------------------------------

/// The kinds of tokens of the concrete syntax.
#[derive(Debug)]
pub enum Tok {
    Ident(String),
    Lambda,
    Dot,
    LParen,
    RParen,
    Colon,
    Arrow,
    Equals,
    Semi,
    Star,
}

/// A token with the line and column where it starts.
#[derive(Debug)]
pub struct Token {
    pub tok: Tok,
    pub info: LineInfo,
}

/// The mathematical model of a `Tok`.
pub enum SpecTok {
    Ident(Seq<char>),
    Lambda,
    Dot,
    LParen,
    RParen,
    Colon,
    Arrow,
    Equals,
    Semi,
    Star,
}

impl View for Tok {
    type V = SpecTok;

    open spec fn view(&self) -> SpecTok {
        match *self {
            Tok::Ident(n) => SpecTok::Ident(n@),
            Tok::Lambda => SpecTok::Lambda,
            Tok::Dot => SpecTok::Dot,
            Tok::LParen => SpecTok::LParen,
            Tok::RParen => SpecTok::RParen,
            Tok::Colon => SpecTok::Colon,
            Tok::Arrow => SpecTok::Arrow,
            Tok::Equals => SpecTok::Equals,
            Tok::Semi => SpecTok::Semi,
            Tok::Star => SpecTok::Star,
        }
    }
}

impl View for Token {
    type V = (SpecTok, LineInfo);

    open spec fn view(&self) -> (SpecTok, LineInfo) {
        (self.tok@, self.info)
    }
}

pub open spec fn tokens_model(v: Seq<Token>) -> Seq<(SpecTok, LineInfo)> {
    v.map_values(|t: Token| t@)
}

/// Characters that make up names: ASCII letters and digits, `_` and `'`.
pub open spec fn is_name_char(c: char) -> bool {
    ('a' <= c && c <= 'z') || ('A' <= c && c <= 'Z') || ('0' <= c && c <= '9') || c == '_' || c
        == '\''
}

/// The number of name characters from position `i` on.
pub open spec fn name_len(s: Seq<char>, i: int) -> nat
    decreases s.len() - i,
{
    if 0 <= i < s.len() && is_name_char(s[i]) {
        1 + name_len(s, i + 1)
    } else {
        0
    }
}

/// The token that a single character stands for, if any.
pub open spec fn single_char_tok(c: char) -> Option<SpecTok> {
    if c == 'λ' || c == '\\' {
        Some(SpecTok::Lambda)
    } else if c == '.' {
        Some(SpecTok::Dot)
    } else if c == '(' {
        Some(SpecTok::LParen)
    } else if c == ')' {
        Some(SpecTok::RParen)
    } else if c == ':' {
        Some(SpecTok::Colon)
    } else if c == '=' {
        Some(SpecTok::Equals)
    } else if c == ';' {
        Some(SpecTok::Semi)
    } else if c == '*' {
        Some(SpecTok::Star)
    } else {
        None
    }
}

/// The tokens of `s` from position `i` on, where `i` is at line `line` and
/// column `col`; `None` when a character belongs to no token. Blanks separate
/// tokens, a newline starts the next line, and columns count characters from 1.
pub open spec fn lex_from(s: Seq<char>, i: int, line: nat, col: nat) -> Option<Seq<(SpecTok, LineInfo)>>
    decreases s.len() - i,
{
    if i < 0 || i >= s.len() {
        Some(Seq::empty())
    } else {
        let c = s[i];
        if c == '\n' {
            lex_from(s, i + 1, line + 1, 1)
        } else if c == ' ' || c == '\t' || c == '\r' {
            lex_from(s, i + 1, line, col + 1)
        } else if is_name_char(c) {
            let n = name_len(s, i);
            proof {
                assert(n >= 1);
                lemma_name_len_bound(s, i);
            }
            match lex_from(s, i + n, line, col + n) {
                Some(rest) => Some(
                    seq![(SpecTok::Ident(s.subrange(i, i + n)), LineInfo(line as usize, col as usize))]
                        + rest,
                ),
                None => None,
            }
        } else if c == '-' && i + 1 < s.len() && s[i + 1] == '>' {
            match lex_from(s, i + 2, line, col + 2) {
                Some(rest) => Some(seq![(SpecTok::Arrow, LineInfo(line as usize, col as usize))] + rest),
                None => None,
            }
        } else {
            match single_char_tok(c) {
                Some(t) => match lex_from(s, i + 1, line, col + 1) {
                    Some(rest) => Some(seq![(t, LineInfo(line as usize, col as usize))] + rest),
                    None => None,
                },
                None => None,
            }
        }
    }
}

/// The tokens of `s`, starting at line 1, column 1.
pub open spec fn lex(s: Seq<char>) -> Option<Seq<(SpecTok, LineInfo)>> {
    lex_from(s, 0, 1, 1)
}

pub proof fn lemma_name_len_bound(s: Seq<char>, i: int)
    requires
        0 <= i <= s.len(),
    ensures
        i + name_len(s, i) <= s.len(),
    decreases s.len() - i,
{
    if i < s.len() && is_name_char(s[i]) {
        lemma_name_len_bound(s, i + 1);
    }
}

fn name_char(c: char) -> (r: bool)
    ensures
        r == is_name_char(c),
{
    ('a' <= c && c <= 'z') || ('A' <= c && c <= 'Z') || ('0' <= c && c <= '9') || c == '_' || c
        == '\''
}

fn single_char(c: char) -> (r: Option<Tok>)
    ensures
        match r {
            Some(t) => single_char_tok(c) == Some(t@),
            None => single_char_tok(c) is None,
        },
{
    if c == 'λ' || c == '\\' {
        Some(Tok::Lambda)
    } else if c == '.' {
        Some(Tok::Dot)
    } else if c == '(' {
        Some(Tok::LParen)
    } else if c == ')' {
        Some(Tok::RParen)
    } else if c == ':' {
        Some(Tok::Colon)
    } else if c == '=' {
        Some(Tok::Equals)
    } else if c == ';' {
        Some(Tok::Semi)
    } else if c == '*' {
        Some(Tok::Star)
    } else {
        None
    }
}

fn chars_of(s: &str) -> (r: Vec<char>)
    ensures
        r@ == s@,
{
    let mut out: Vec<char> = Vec::new();
    let mut it = s.chars();
    loop
        invariant
            out@.len() <= s@.len(),
            it.remaining() == s@.skip(out@.len() as int),
            out@ == s@.take(out@.len() as int),
        decreases s@.len() - out@.len(),
    {
        match it.next() {
            Some(c) => {
                out.push(c);
                assert(out@ =~= s@.take(out@.len() as int));
                assert(it.remaining() =~= s@.skip(out@.len() as int));
            },
            None => {
                assert(out@ =~= s@);
                return out;
            },
        }
    }
}

/// Splits `input` into tokens; `None` when a character belongs to no token.
pub fn tokenize(input: &str) -> (r: Option<Vec<Token>>)
    requires
        input@.len() < usize::MAX,
    ensures
        match r {
            Some(ts) => lex(input@) == Some(tokens_model(ts@)),
            None => lex(input@) is None,
        },
{
    let cs = chars_of(input);
    let ghost s = input@;
    let mut out: Vec<Token> = Vec::new();
    let mut i: usize = 0;
    let mut line: usize = 1;
    let mut col: usize = 1;
    while i < cs.len()
        invariant
            cs@ == s,
            s == input@,
            s.len() < usize::MAX,
            i <= s.len(),
            1 <= line <= i + 1,
            1 <= col <= i + 1,
            lex(s) == match lex_from(s, i as int, line as nat, col as nat) {
                Some(rest) => Some(tokens_model(out@) + rest),
                None => None::<Seq<(SpecTok, LineInfo)>>,
            },
        decreases s.len() - i,
    {
        let c = cs[i];
        let here = LineInfo(line, col);
        let ghost before = out@;
        if c == '\n' {
            i = i + 1;
            line = line + 1;
            col = 1;
        } else if c == ' ' || c == '\t' || c == '\r' {
            i = i + 1;
            col = col + 1;
        } else if name_char(c) {
            proof {
                lemma_name_len_bound(s, i as int);
            }
            let mut name = String::new();
            let mut j: usize = i;
            while j < cs.len() && name_char(cs[j])
                invariant
                    cs@ == s,
                    i <= j <= s.len(),
                    name@ == s.subrange(i as int, j as int),
                    name_len(s, i as int) == (j - i) + name_len(s, j as int),
                decreases s.len() - j,
            {
                push_char(&mut name, cs[j]);
                assert(name@ =~= s.subrange(i as int, j + 1));
                j = j + 1;
            }
            assert(name_len(s, j as int) == 0);
            out.push(Token { tok: Tok::Ident(name), info: here });
            assert(tokens_model(out@) =~= tokens_model(before).push(out@.last()@));
            col = col + (j - i);
            i = j;
        } else if c == '-' && i + 1 < cs.len() && cs[i + 1] == '>' {
            out.push(Token { tok: Tok::Arrow, info: here });
            assert(tokens_model(out@) =~= tokens_model(before).push(out@.last()@));
            i = i + 2;
            col = col + 2;
        } else {
            match single_char(c) {
                Some(t) => {
                    out.push(Token { tok: t, info: here });
                    assert(tokens_model(out@) =~= tokens_model(before).push(out@.last()@));
                    i = i + 1;
                    col = col + 1;
                },
                None => {
                    assert(lex_from(s, i as int, line as nat, col as nat) is None);
                    return None;
                },
            }
        }
    }
    assert(tokens_model(out@) + Seq::<(SpecTok, LineInfo)>::empty() =~= tokens_model(out@));
    Some(out)
}

// ---------------------------------------------------------------------------
// The grammar
// ---------------------------------------------------------------------------

pub open spec fn tok_is(ts: Seq<(SpecTok, LineInfo)>, i: int, t: SpecTok) -> bool {
    0 <= i < ts.len() && ts[i].0 == t
}

/// A type from token `i` on, and the position after it: `*`, a name, or a
/// parenthesized type, followed by `-> type` for a function type. The arrow
/// associates to the right.
pub open spec fn parse_type_spec(ts: Seq<(SpecTok, LineInfo)>, i: int) -> Option<(SpecType, int)>
    decreases ts.len() - i,
{
    if i < 0 || i >= ts.len() {
        None
    } else {
        match type_atom_spec(ts, i, parse_type_spec(ts, i + 1)) {
            Some((t, k)) => if i < k && tok_is(ts, k, SpecTok::Arrow) {
                match parse_type_spec(ts, k + 1) {
                    Some((r, m)) => Some((SpecType::Abstraction(Box::new(t), Box::new(r)), m)),
                    None => None,
                }
            } else {
                Some((t, k))
            },
            None => None,
        }
    }
}

/// The part of a type before an arrow, at token `i`; `inner` is the type that
/// starts after token `i`, for the parenthesized case.
pub open spec fn type_atom_spec(ts: Seq<(SpecTok, LineInfo)>, i: int, inner: Option<(SpecType, int)>) -> Option<(SpecType, int)> {
    match ts[i].0 {
        SpecTok::Star => Some((SpecType::Any, i + 1)),
        SpecTok::Ident(n) => Some((SpecType::Variable(n), i + 1)),
        SpecTok::LParen => match inner {
            Some((t, j)) => if i < j && tok_is(ts, j, SpecTok::RParen) {
                Some((t, j + 1))
            } else {
                None
            },
            None => None,
        },
        _ => None,
    }
}

/// Whether token `i` can start an atom: `(`, a lambda or a name.
pub open spec fn starts_atom(ts: Seq<(SpecTok, LineInfo)>, i: int) -> bool {
    0 <= i < ts.len() && (ts[i].0 is LParen || ts[i].0 is Lambda || ts[i].0 is Ident)
}

/// An atom from token `i` on: a parenthesized term, an abstraction
/// `λx[: type]. term` whose body extends as far as possible, or a variable with
/// an optional `: type` annotation.
pub open spec fn parse_atom_spec(ts: Seq<(SpecTok, LineInfo)>, i: int) -> Option<(SpecTerm, int)>
    decreases ts.len() - i, 0nat,
{
    if i < 0 || i >= ts.len() {
        None
    } else {
        let info = ts[i].1;
        match ts[i].0 {
            SpecTok::LParen => match parse_term_spec(ts, i + 1) {
                Some((t, j)) => if i < j && tok_is(ts, j, SpecTok::RParen) {
                    Some((t, j + 1))
                } else {
                    None
                },
                None => None,
            },
            SpecTok::Lambda => if i + 1 < ts.len() {
                match ts[i + 1].0 {
                    SpecTok::Ident(p) => if tok_is(ts, i + 2, SpecTok::Colon) {
                        match parse_type_spec(ts, i + 3) {
                            Some((ty, k)) => if i < k && tok_is(ts, k, SpecTok::Dot) {
                                match parse_term_spec(ts, k + 1) {
                                    Some((b, m)) => Some(
                                        (SpecTerm::Abstraction(p, Some(ty), Box::new(b), info), m),
                                    ),
                                    None => None,
                                }
                            } else {
                                None
                            },
                            None => None,
                        }
                    } else if tok_is(ts, i + 2, SpecTok::Dot) {
                        match parse_term_spec(ts, i + 3) {
                            Some((b, m)) => Some((SpecTerm::Abstraction(p, None, Box::new(b), info), m)),
                            None => None,
                        }
                    } else {
                        None
                    },
                    _ => None,
                }
            } else {
                None
            },
            SpecTok::Ident(n) => if tok_is(ts, i + 1, SpecTok::Colon) {
                match parse_type_spec(ts, i + 2) {
                    Some((ty, k)) => Some((SpecTerm::Variable(n, Some(ty), info), k)),
                    None => None,
                }
            } else {
                Some((SpecTerm::Variable(n, None, info), i + 1))
            },
            _ => None,
        }
    }
}

/// A term from token `i` on: one atom or more, applied from the left, each
/// application at the position of the first atom.
pub open spec fn parse_term_spec(ts: Seq<(SpecTok, LineInfo)>, i: int) -> Option<(SpecTerm, int)>
    decreases ts.len() - i, 1nat,
{
    if i < 0 || i >= ts.len() {
        None
    } else {
        match parse_atom_spec(ts, i) {
            Some((a, j)) => if i < j <= ts.len() {
                parse_app_spec(ts, j, a, ts[i].1)
            } else {
                None
            },
            None => None,
        }
    }
}

/// The further atoms of an application whose function part so far is `lhs`.
pub open spec fn parse_app_spec(ts: Seq<(SpecTok, LineInfo)>, j: int, lhs: SpecTerm, info: LineInfo) -> Option<(SpecTerm, int)>
    decreases ts.len() - j, 2nat,
{
    if starts_atom(ts, j) {
        match parse_atom_spec(ts, j) {
            Some((a, k)) => if j < k <= ts.len() {
                parse_app_spec(ts, k, SpecTerm::Application(Box::new(lhs), Box::new(a), info), info)
            } else {
                None
            },
            None => None,
        }
    } else {
        Some((lhs, j))
    }
}

pub open spec fn type_pair_model(r: Option<(Type, usize)>) -> Option<(SpecType, int)> {
    match r {
        Some((t, j)) => Some((t@, j as int)),
        None => None,
    }
}

pub open spec fn term_pair_model(r: Option<(Term, usize)>) -> Option<(SpecTerm, int)> {
    match r {
        Some((t, j)) => Some((t@, j as int)),
        None => None,
    }
}

fn tok_is_rparen(ts: &Vec<Token>, j: usize) -> (r: bool)
    ensures
        r == tok_is(tokens_model(ts@), j as int, SpecTok::RParen),
{
    j < ts.len() && matches!(ts[j].tok, Tok::RParen)
}

fn tok_is_arrow(ts: &Vec<Token>, j: usize) -> (r: bool)
    ensures
        r == tok_is(tokens_model(ts@), j as int, SpecTok::Arrow),
{
    j < ts.len() && matches!(ts[j].tok, Tok::Arrow)
}

fn tok_is_colon(ts: &Vec<Token>, j: usize) -> (r: bool)
    ensures
        r == tok_is(tokens_model(ts@), j as int, SpecTok::Colon),
{
    j < ts.len() && matches!(ts[j].tok, Tok::Colon)
}

fn tok_is_dot(ts: &Vec<Token>, j: usize) -> (r: bool)
    ensures
        r == tok_is(tokens_model(ts@), j as int, SpecTok::Dot),
{
    j < ts.len() && matches!(ts[j].tok, Tok::Dot)
}

fn parse_type_at(ts: &Vec<Token>, i: usize) -> (r: Option<(Type, usize)>)
    ensures
        type_pair_model(r) == parse_type_spec(tokens_model(ts@), i as int),
        r matches Some((_, j)) ==> i < j <= ts@.len(),
    decreases ts@.len() - i,
{
    if i >= ts.len() {
        return None;
    }
    assert(tokens_model(ts@)[i as int] == ts@[i as int]@);
    let atom: Option<(Type, usize)> = match &ts[i].tok {
        Tok::Star => Some((Type::Any, i + 1)),
        Tok::Ident(n) => Some((Type::Variable(n.clone()), i + 1)),
        Tok::LParen => match parse_type_at(ts, i + 1) {
            Some((t, j)) => if tok_is_rparen(ts, j) {
                Some((t, j + 1))
            } else {
                None
            },
            None => None,
        },
        _ => None,
    };
    assert(type_pair_model(atom) == type_atom_spec(
        tokens_model(ts@),
        i as int,
        parse_type_spec(tokens_model(ts@), i + 1),
    ));
    match atom {
        Some((t, k)) => if tok_is_arrow(ts, k) {
            match parse_type_at(ts, k + 1) {
                Some((r, m)) => Some((Type::Abstraction(Box::new(t), Box::new(r)), m)),
                None => None,
            }
        } else {
            Some((t, k))
        },
        None => None,
    }
}

fn parse_atom_at(ts: &Vec<Token>, i: usize) -> (r: Option<(Term, usize)>)
    ensures
        term_pair_model(r) == parse_atom_spec(tokens_model(ts@), i as int),
        r matches Some((_, j)) ==> i < j <= ts@.len(),
    decreases ts@.len() - i, 0nat,
{
    if i >= ts.len() {
        return None;
    }
    let info = ts[i].info;
    match &ts[i].tok {
        Tok::LParen => match parse_term_at(ts, i + 1) {
            Some((t, j)) => if tok_is_rparen(ts, j) {
                Some((t, j + 1))
            } else {
                None
            },
            None => None,
        },
        Tok::Lambda => {
            if i + 1 >= ts.len() {
                return None;
            }
            match &ts[i + 1].tok {
                Tok::Ident(p) => {
                    if tok_is_colon(ts, i + 2) {
                        match parse_type_at(ts, i + 3) {
                            Some((ty, k)) => if tok_is_dot(ts, k) {
                                match parse_term_at(ts, k + 1) {
                                    Some((b, m)) => Some(
                                        (Term::Abstraction(p.clone(), Some(ty), Box::new(b), info), m),
                                    ),
                                    None => None,
                                }
                            } else {
                                None
                            },
                            None => None,
                        }
                    } else if tok_is_dot(ts, i + 2) {
                        match parse_term_at(ts, i + 3) {
                            Some((b, m)) => Some((Term::Abstraction(p.clone(), None, Box::new(b), info), m)),
                            None => None,
                        }
                    } else {
                        None
                    }
                },
                _ => None,
            }
        },
        Tok::Ident(n) => {
            if tok_is_colon(ts, i + 1) {
                match parse_type_at(ts, i + 2) {
                    Some((ty, k)) => Some((Term::Variable(n.clone(), Some(ty), info), k)),
                    None => None,
                }
            } else {
                Some((Term::Variable(n.clone(), None, info), i + 1))
            }
        },
        _ => None,
    }
}

fn parse_term_at(ts: &Vec<Token>, i: usize) -> (r: Option<(Term, usize)>)
    ensures
        term_pair_model(r) == parse_term_spec(tokens_model(ts@), i as int),
        r matches Some((_, j)) ==> i < j <= ts@.len(),
    decreases ts@.len() - i, 1nat,
{
    if i >= ts.len() {
        return None;
    }
    match parse_atom_at(ts, i) {
        Some((a, j)) => parse_app_at(ts, j, a, ts[i].info),
        None => None,
    }
}

fn parse_app_at(ts: &Vec<Token>, j: usize, lhs: Term, info: LineInfo) -> (r: Option<(Term, usize)>)
    requires
        j <= ts@.len(),
    ensures
        term_pair_model(r) == parse_app_spec(tokens_model(ts@), j as int, lhs@, info),
        r matches Some((_, k)) ==> j <= k <= ts@.len(),
    decreases ts@.len() - j, 2nat,
{
    let starts = j < ts.len() && match &ts[j].tok {
        Tok::LParen | Tok::Lambda | Tok::Ident(_) => true,
        _ => false,
    };
    if !starts {
        return Some((lhs, j));
    }
    match parse_atom_at(ts, j) {
        Some((a, k)) => parse_app_at(ts, k, Term::Application(Box::new(lhs), Box::new(a), info), info),
        None => None,
    }
}

/// The optional `: type` after an assignment target at token `i`, and the
/// position after the target.
pub open spec fn target_spec(ts: Seq<(SpecTok, LineInfo)>, i: int) -> Option<(Option<SpecType>, int)> {
    if tok_is(ts, i + 1, SpecTok::Colon) {
        match parse_type_spec(ts, i + 2) {
            Some((t, k)) => Some((Some(t), k)),
            None => None,
        }
    } else {
        Some((None, i + 1))
    }
}

pub open spec fn term_stmt_spec(ts: Seq<(SpecTok, LineInfo)>, i: int) -> Option<(SpecExpr, int)> {
    match parse_term_spec(ts, i) {
        Some((t, j)) => Some((SpecExpr::Term(t), j)),
        None => None,
    }
}

/// A statement from token `i` on: `type Name = type`, an assignment
/// `name[: type] = term`, or else a bare term.
pub open spec fn parse_stmt_spec(ts: Seq<(SpecTok, LineInfo)>, i: int) -> Option<(SpecExpr, int)> {
    if i < 0 || i >= ts.len() {
        None
    } else {
        match ts[i].0 {
            SpecTok::Ident(n) => if n == "type"@ && i + 2 < ts.len() && ts[i + 1].0 is Ident
                && ts[i + 2].0 is Equals {
                match parse_type_spec(ts, i + 3) {
                    Some((t, k)) => Some((SpecExpr::TypeDef(ts[i + 1].0->Ident_0, t), k)),
                    None => None,
                }
            } else {
                match target_spec(ts, i) {
                    Some((ann, k)) => if tok_is(ts, k, SpecTok::Equals) {
                        match parse_term_spec(ts, k + 1) {
                            Some((b, m)) => Some((SpecExpr::Assignment(n, ann, b), m)),
                            None => None,
                        }
                    } else {
                        term_stmt_spec(ts, i)
                    },
                    None => term_stmt_spec(ts, i),
                }
            },
            _ => term_stmt_spec(ts, i),
        }
    }
}

/// The statements from token `i` on, each followed by `;`, the last one
/// possibly without it.
pub open spec fn parse_stmts_spec(ts: Seq<(SpecTok, LineInfo)>, i: int) -> Option<Seq<SpecExpr>>
    decreases ts.len() - i,
{
    if i < 0 || i >= ts.len() {
        Some(Seq::empty())
    } else {
        match parse_stmt_spec(ts, i) {
            Some((e, j)) => if i < j && j < ts.len() && ts[j].0 is Semi {
                match parse_stmts_spec(ts, j + 1) {
                    Some(rest) => Some(seq![e] + rest),
                    None => None,
                }
            } else if i < j && j == ts.len() {
                Some(seq![e])
            } else {
                None
            },
            None => None,
        }
    }
}

/// The program that the text `s` denotes; `None` when it is not well formed.
pub open spec fn parse_spec(s: Seq<char>) -> Option<Seq<SpecExpr>> {
    match lex(s) {
        Some(ts) => parse_stmts_spec(ts, 0),
        None => None,
    }
}

pub open spec fn exprs_model(v: Seq<Expr>) -> Seq<SpecExpr> {
    v.map_values(|e: Expr| e@)
}

pub open spec fn expr_pair_model(r: Option<(Expr, usize)>) -> Option<(SpecExpr, int)> {
    match r {
        Some((e, j)) => Some((e@, j as int)),
        None => None,
    }
}

pub open spec fn target_model(r: Option<(Option<Type>, usize)>) -> Option<(Option<SpecType>, int)> {
    match r {
        Some((t, j)) => Some((crate::syntax::opt_type_model(t), j as int)),
        None => None,
    }
}

fn target_at(ts: &Vec<Token>, i: usize) -> (r: Option<(Option<Type>, usize)>)
    requires
        i < ts@.len(),
    ensures
        target_model(r) == target_spec(tokens_model(ts@), i as int),
        r matches Some((_, k)) ==> i < k <= ts@.len(),
{
    let len = ts.len();
    if tok_is_colon(ts, i + 1) {
        match parse_type_at(ts, i + 2) {
            Some((t, k)) => Some((Some(t), k)),
            None => None,
        }
    } else {
        Some((None, i + 1))
    }
}

fn term_stmt_at(ts: &Vec<Token>, i: usize) -> (r: Option<(Expr, usize)>)
    ensures
        expr_pair_model(r) == term_stmt_spec(tokens_model(ts@), i as int),
        r matches Some((_, j)) ==> i < j <= ts@.len(),
{
    match parse_term_at(ts, i) {
        Some((t, j)) => Some((Expr::Term(t), j)),
        None => None,
    }
}

fn parse_stmt_at(ts: &Vec<Token>, i: usize) -> (r: Option<(Expr, usize)>)
    requires
        i < ts@.len(),
    ensures
        expr_pair_model(r) == parse_stmt_spec(tokens_model(ts@), i as int),
        r matches Some((_, j)) ==> i < j <= ts@.len(),
{
    let ghost m = tokens_model(ts@);
    assert(m[i as int] == ts@[i as int]@);
    let n = match &ts[i].tok {
        Tok::Ident(n) => n,
        _ => {
            return term_stmt_at(ts, i);
        },
    };
    proof {
        reveal_strlit("type");
    }
    let len = ts.len();
    if *n == "type".to_string() && len - i > 2 {
        assert(m[i + 1] == ts@[i + 1]@);
        assert(m[i + 2] == ts@[i + 2]@);
        if let Tok::Ident(alias) = &ts[i + 1].tok {
            if let Tok::Equals = &ts[i + 2].tok {
                return match parse_type_at(ts, i + 3) {
                    Some((t, k)) => Some((Expr::TypeDef(alias.clone(), t), k)),
                    None => None,
                };
            }
        }
    }
    match target_at(ts, i) {
        Some((ann, k)) => {
            if k < ts.len() && matches!(ts[k].tok, Tok::Equals) {
                assert(m[k as int] == ts@[k as int]@);
                match parse_term_at(ts, k + 1) {
                    Some((b, j)) => Some((Expr::Assignment(n.clone(), ann, b), j)),
                    None => None,
                }
            } else {
                term_stmt_at(ts, i)
            }
        },
        None => term_stmt_at(ts, i),
    }
}

/// Parses a program; `None` when the text is not well formed.
pub fn parse_program(input: &str) -> (r: Option<Program>)
    requires
        input@.len() < usize::MAX,
    ensures
        match r {
            Some(p) => parse_spec(input@) == Some(exprs_model(p@)),
            None => parse_spec(input@) is None,
        },
{
    let ts = match tokenize(input) {
        Some(ts) => ts,
        None => {
            return None;
        },
    };
    let ghost m = tokens_model(ts@);
    let mut out: Vec<Expr> = Vec::new();
    let mut i: usize = 0;
    loop
        invariant
            m == tokens_model(ts@),
            lex(input@) == Some(m),
            i <= ts@.len(),
            parse_stmts_spec(m, 0) == match parse_stmts_spec(m, i as int) {
                Some(rest) => Some(exprs_model(out@) + rest),
                None => None::<Seq<SpecExpr>>,
            },
        decreases ts@.len() - i,
    {
        let ghost before = out@;
        if i >= ts.len() {
            assert(exprs_model(out@) + Seq::<SpecExpr>::empty() =~= exprs_model(out@));
            return Some(out);
        }
        match parse_stmt_at(&ts, i) {
            Some((e, j)) => {
                out.push(e);
                assert(exprs_model(out@) =~= exprs_model(before).push(out@.last()@));
                if j < ts.len() && matches!(ts[j].tok, Tok::Semi) {
                    assert(m[j as int] == ts@[j as int]@);
                    proof {
                        let e_m = out@.last()@;
                        assert forall|rest: Seq<SpecExpr>| exprs_model(before) + (seq![e_m] + rest)
                            =~= exprs_model(out@) + rest by {}
                    }
                    i = j + 1;
                } else if j == ts.len() {
                    assert(exprs_model(before) + seq![out@.last()@] =~= exprs_model(out@));
                    return Some(out);
                } else {
                    assert(m[j as int] == ts@[j as int]@);
                    return None;
                }
            },
            None => {
                return None;
            },
        }
    }
}

/// Parses a program; a text that is not well formed yields no statements.
pub fn parse_prog(input: &str) -> (r: Program)
    requires
        input@.len() < usize::MAX,
    ensures
        exprs_model(r@) == match parse_spec(input@) {
            Some(es) => es,
            None => Seq::empty(),
        },
{
    match parse_program(input) {
        Some(p) => p,
        None => {
            let empty: Vec<Expr> = Vec::new();
            assert(exprs_model(empty@) =~= Seq::<SpecExpr>::empty());
            empty
        },
    }
}

} // verus!
