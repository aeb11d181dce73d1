use vstd::prelude::*;
use vstd::std_specs::iter::IteratorSpec;
use vstd::string::StringExecFns;

use crate::syntax::{LineInfo, SpecTerm, SpecType, Term, Type};
use crate::text::{names_of, push_char};
use crate::types::{Ctx, SpecTypeError, TypeError, ctx_model};

verus! {

broadcast use {vstd::string::group_string_axioms, vstd::string::next_postcondition, vstd::string::axiom_spec_iter};

pub const RED: &'static str = "\x1b[31m";
pub const DARK_GRAY: &'static str = "\x1b[90m";
pub const YELLOW: &'static str = "\x1b[33m";
pub const CYAN: &'static str = "\x1b[36m";
pub const GREEN: &'static str = "\x1b[32m";
pub const PINK: &'static str = "\x1b[35m";
pub const PURPLE: &'static str = "\x1b[95m";
pub const ITALIC: &'static str = "\x1b[3m";
pub const RESET: &'static str = "\x1b[0m";

/// Whether `char::is_uppercase` holds of `c`.
pub uninterp spec fn upper_char(c: char) -> bool;

/// Whether `char::is_numeric` holds of `c`.
pub uninterp spec fn numeric_char(c: char) -> bool;

/// Relies on `char::is_uppercase`: whether the character has the Unicode
/// `Uppercase` property.
#[verifier::external_body]
fn is_upper(c: char) -> (r: bool)
    ensures
        r == upper_char(c),
{
    c.is_uppercase()
}

/// Relies on `char::is_numeric`: whether the character is a Unicode number.
#[verifier::external_body]
fn is_numeric(c: char) -> (r: bool)
    ensures
        r == numeric_char(c),
{
    c.is_numeric()
}

/// `text` in `color`, followed by the reset sequence.
pub open spec fn colored(color: Seq<char>, text: Seq<char>) -> Seq<char> {
    color + text + RESET@
}

/// How a variable name is shown: booleans in italic cyan, names starting with
/// an upper-case letter in pink, numerals in green, other names in italic.
pub open spec fn var_text(v: Seq<char>) -> Seq<char> {
    if v == "true"@ || v == "false"@ {
        CYAN@ + ITALIC@ + v + RESET@
    } else if v.len() > 0 && upper_char(v[0]) {
        colored(PINK@, v)
    } else if forall|k: int| 0 <= k < v.len() ==> numeric_char(#[trigger] v[k]) {
        colored(GREEN@, v)
    } else {
        colored(ITALIC@, v)
    }
}

pub open spec fn type_text(t: SpecType) -> Seq<char>
    decreases t,
{
    match t {
        SpecType::Any => colored(CYAN@, "*"@),
        SpecType::Variable(n) => colored(PURPLE@, n),
        SpecType::Abstraction(p, r) => type_text(*p) + " "@ + colored(DARK_GRAY@, "->"@) + " "@
            + type_text(*r),
    }
}

pub open spec fn typed_var_text(v: Seq<char>, ty: Option<SpecType>) -> Seq<char> {
    match ty {
        Some(t) => var_text(v) + " "@ + colored(DARK_GRAY@, ":"@) + " "@ + type_text(t),
        None => var_text(v),
    }
}

pub open spec fn term_text(t: SpecTerm) -> Seq<char>
    decreases t,
{
    match t {
        SpecTerm::Abstraction(p, ty, b, _) => colored(YELLOW@, "λ"@) + typed_var_text(p, ty)
            + colored(DARK_GRAY@, "."@) + term_text(*b),
        SpecTerm::Application(f, x, _) => colored(DARK_GRAY@, "("@) + term_text(*f) + " "@
            + term_text(*x) + colored(DARK_GRAY@, ")"@),
        SpecTerm::Variable(v, ty, _) => typed_var_text(v, ty),
    }
}

/// The decimal digit for `d`.
pub open spec fn digit_char(d: nat) -> char {
    if d == 0 { '0' }
    else if d == 1 { '1' }
    else if d == 2 { '2' }
    else if d == 3 { '3' }
    else if d == 4 { '4' }
    else if d == 5 { '5' }
    else if d == 6 { '6' }
    else if d == 7 { '7' }
    else if d == 8 { '8' }
    else { '9' }
}

/// The decimal numeral of `n`.
pub open spec fn decimal(n: nat) -> Seq<char>
    decreases n,
{
    if n < 10 {
        seq![digit_char(n)]
    } else {
        decimal(n / 10).push(digit_char(n % 10))
    }
}

pub open spec fn position_text(info: LineInfo) -> Seq<char> {
    " at line "@ + decimal(info.0 as nat) + " col "@ + decimal(info.1 as nat)
}

pub open spec fn type_error_text(e: SpecTypeError) -> Seq<char> {
    let head = colored(RED@, "Type error"@);
    match e {
        SpecTypeError::Mismatch { expected, found, info } => head + ": expected "@ + type_text(
            expected,
        ) + " but found "@ + type_text(found) + position_text(info),
        SpecTypeError::NotAFunction(t, info) => head + ": "@ + type_text(t)
            + " is not a function type"@ + position_text(info),
        SpecTypeError::Unbound(name, info) => head + ": unbound variable `"@ + var_text(name) + "`"@
            + position_text(info),
    }
}

fn all_numeric(v: &str) -> (r: bool)
    ensures
        r == (forall|k: int| 0 <= k < v@.len() ==> numeric_char(#[trigger] v@[k])),
{
    let mut it = v.chars();
    let ghost mut k: int = 0;
    loop
        invariant
            0 <= k <= v@.len(),
            it.remaining() == v@.skip(k),
            forall|j: int| 0 <= j < k ==> numeric_char(#[trigger] v@[j]),
        decreases v@.len() - k,
    {
        match it.next() {
            Some(c) => {
                assert(c == v@[k]);
                if !is_numeric(c) {
                    return false;
                }
                proof {
                    k = k + 1;
                }
                assert(it.remaining() =~= v@.skip(k));
            },
            None => {
                assert(k == v@.len());
                return true;
            },
        }
    }
}

fn starts_upper(v: &str) -> (r: bool)
    ensures
        r == (v@.len() > 0 && upper_char(v@[0])),
{
    let mut it = v.chars();
    match it.next() {
        Some(c) => is_upper(c),
        None => false,
    }
}

fn push_colored(s: &mut String, color: &str, text: &str)
    ensures
        final(s)@ == old(s)@ + colored(color@, text@),
{
    s.append(color);
    s.append(text);
    s.append(RESET);
    assert(final(s)@ =~= old(s)@ + colored(color@, text@));
}

/// A variable name in its color.
pub fn var(v: &str) -> (r: String)
    ensures
        r@ == var_text(v@),
{
    let mut s = String::new();
    let owned = v.to_string();
    proof {
        reveal_strlit("true");
        reveal_strlit("false");
    }
    if owned == "true".to_string() || owned == "false".to_string() {
        s.append(CYAN);
        s.append(ITALIC);
        s.append(v);
        s.append(RESET);
        assert(s@ =~= var_text(v@));
    } else if starts_upper(v) {
        push_colored(&mut s, PINK, v);
        assert(s@ =~= var_text(v@));
    } else if all_numeric(v) {
        push_colored(&mut s, GREEN, v);
        assert(s@ =~= var_text(v@));
    } else {
        push_colored(&mut s, ITALIC, v);
        assert(s@ =~= var_text(v@));
    }
    s
}

fn push_type(s: &mut String, t: &Type)
    ensures
        final(s)@ == old(s)@ + type_text(t@),
    decreases t,
{
    let ghost s0 = s@;
    match t {
        Type::Any => push_colored(s, CYAN, "*"),
        Type::Variable(name) => push_colored(s, PURPLE, name.as_str()),
        Type::Abstraction(t1, t2) => {
            push_type(s, t1);
            s.append(" ");
            push_colored(s, DARK_GRAY, "->");
            s.append(" ");
            push_type(s, t2);
        },
    }
    assert(s@ =~= s0 + type_text(t@));
}

/// A type in color: `*` for the wildcard, `A -> B` for function types.
pub fn ty(t: &Type) -> (r: String)
    ensures
        r@ == type_text(t@),
{
    let mut s = String::new();
    push_type(&mut s, t);
    assert(s@ =~= type_text(t@));
    s
}

fn push_typed_var(s: &mut String, v: &str, t: &Option<Type>)
    ensures
        final(s)@ == old(s)@ + typed_var_text(v@, crate::syntax::opt_type_model(*t)),
{
    let ghost s0 = s@;
    let name = var(v);
    s.append(name.as_str());
    if let Some(t) = t {
        s.append(" ");
        push_colored(s, DARK_GRAY, ":");
        s.append(" ");
        push_type(s, t);
    }
    assert(s@ =~= s0 + typed_var_text(v@, crate::syntax::opt_type_model(*t)));
}

/// A variable with its type annotation, if it has one.
pub fn typed_var(v: &str, t: &Option<Type>) -> (r: String)
    ensures
        r@ == typed_var_text(v@, crate::syntax::opt_type_model(*t)),
{
    let mut s = String::new();
    push_typed_var(&mut s, v, t);
    assert(s@ =~= typed_var_text(v@, crate::syntax::opt_type_model(*t)));
    s
}

fn push_term(s: &mut String, t: &Term)
    ensures
        final(s)@ == old(s)@ + term_text(t@),
    decreases t,
{
    let ghost s0 = s@;
    match t {
        Term::Abstraction(param, expected, body, _) => {
            push_colored(s, YELLOW, "λ");
            push_typed_var(s, param.as_str(), expected);
            push_colored(s, DARK_GRAY, ".");
            push_term(s, body);
        },
        Term::Application(f, x, _) => {
            push_colored(s, DARK_GRAY, "(");
            push_term(s, f);
            s.append(" ");
            push_term(s, x);
            push_colored(s, DARK_GRAY, ")");
        },
        Term::Variable(v, ty, _) => push_typed_var(s, v.as_str(), ty),
    }
    assert(s@ =~= s0 + term_text(t@));
}

/// A term in color.
pub fn term(t: &Term) -> (r: String)
    ensures
        r@ == term_text(t@),
{
    let mut s = String::new();
    push_term(&mut s, t);
    assert(s@ =~= term_text(t@));
    s
}

/// An assignment `target [: type] = body` in color.
pub fn assign(target: &str, t: &Option<Type>, body: &Term) -> (r: String)
    ensures
        r@ == typed_var_text(target@, crate::syntax::opt_type_model(*t)) + " "@ + colored(
            DARK_GRAY@,
            "="@,
        ) + " "@ + term_text(body@),
{
    let mut s = String::new();
    push_typed_var(&mut s, target, t);
    s.append(" ");
    push_colored(&mut s, DARK_GRAY, "=");
    s.append(" ");
    push_term(&mut s, body);
    assert(s@ =~= typed_var_text(target@, crate::syntax::opt_type_model(*t)) + " "@ + colored(
        DARK_GRAY@,
        "="@,
    ) + " "@ + term_text(body@));
    s
}

fn digit(d: usize) -> (c: char)
    requires
        d < 10,
    ensures
        c == digit_char(d as nat),
{
    if d == 0 { '0' }
    else if d == 1 { '1' }
    else if d == 2 { '2' }
    else if d == 3 { '3' }
    else if d == 4 { '4' }
    else if d == 5 { '5' }
    else if d == 6 { '6' }
    else if d == 7 { '7' }
    else if d == 8 { '8' }
    else { '9' }
}

fn push_decimal(s: &mut String, n: usize)
    ensures
        final(s)@ == old(s)@ + decimal(n as nat),
    decreases n,
{
    let ghost s0 = s@;
    if n >= 10 {
        push_decimal(s, n / 10);
    }
    push_char(s, digit(n % 10));
    assert(s@ =~= s0 + decimal(n as nat));
}

fn push_position(s: &mut String, info: &LineInfo)
    ensures
        final(s)@ == old(s)@ + position_text(*info),
{
    let ghost s0 = s@;
    s.append(" at line ");
    push_decimal(s, info.0);
    s.append(" col ");
    push_decimal(s, info.1);
    assert(s@ =~= s0 + position_text(*info));
}

/// A type error as a message with its position.
pub fn ty_err(err: TypeError) -> (r: String)
    ensures
        r@ == type_error_text(err@),
{
    let ghost e = err@;
    let mut s = String::new();
    push_colored(&mut s, RED, "Type error");
    match err {
        TypeError::Mismatch { expected, found, info } => {
            s.append(": expected ");
            push_type(&mut s, &expected);
            s.append(" but found ");
            push_type(&mut s, &found);
            push_position(&mut s, &info);
        },
        TypeError::NotAFunction(t, info) => {
            s.append(": ");
            push_type(&mut s, &t);
            s.append(" is not a function type");
            push_position(&mut s, &info);
        },
        TypeError::Unbound(name, info) => {
            s.append(": unbound variable `");
            let shown = var(name.as_str());
            s.append(shown.as_str());
            s.append("`");
            push_position(&mut s, &info);
        },
    }
    assert(s@ =~= type_error_text(e));
    s
}

/// One line per name of `names` that `c` binds, in the order of `names`.
pub open spec fn ctx_entries_text(c: Map<Seq<char>, SpecType>, names: Seq<Seq<char>>) -> Seq<char>
    decreases names.len(),
{
    if names.len() == 0 {
        Seq::empty()
    } else {
        let rest = ctx_entries_text(c, names.drop_last());
        let n = names.last();
        if c.contains_key(n) {
            rest + "  "@ + var_text(n) + " "@ + colored(DARK_GRAY@, ":"@) + " "@ + type_text(c[n])
                + colored(DARK_GRAY@, ","@) + "\n"@
        } else {
            rest
        }
    }
}

/// The typing context restricted to `names`, one binding per line.
pub fn ctx(context: &Ctx, names: &Vec<String>) -> (r: String)
    ensures
        r@ == "Γ = {\n"@ + ctx_entries_text(ctx_model(context@), names_of(names@)) + "}"@,
{
    let ghost c = ctx_model(context@);
    let mut s = String::new();
    s.append("Γ = {\n");
    let mut i: usize = 0;
    while i < names.len()
        invariant
            i <= names@.len(),
            c == ctx_model(context@),
            s@ == "Γ = {\n"@ + ctx_entries_text(c, names_of(names@).take(i as int)),
        decreases names@.len() - i,
    {
        let ghost s0 = s@;
        let ghost pre = names_of(names@).take(i as int + 1);
        assert(pre.drop_last() =~= names_of(names@).take(i as int));
        assert(pre.last() == names@[i as int]@);
        let name = &names[i];
        if let Some(t) = context.get(name.as_str()) {
            s.append("  ");
            let shown = var(name.as_str());
            s.append(shown.as_str());
            s.append(" ");
            push_colored(&mut s, DARK_GRAY, ":");
            s.append(" ");
            push_type(&mut s, t);
            push_colored(&mut s, DARK_GRAY, ",");
            s.append("\n");
            assert(s@ =~= "Γ = {\n"@ + ctx_entries_text(c, pre));
        } else {
            assert(s@ =~= "Γ = {\n"@ + ctx_entries_text(c, pre));
        }
        i = i + 1;
    }
    assert(names_of(names@).take(names@.len() as int) =~= names_of(names@));
    s.append("}");
    assert(s@ =~= "Γ = {\n"@ + ctx_entries_text(c, names_of(names@)) + "}"@);
    s
}

} // verus!
