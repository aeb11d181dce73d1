use lambda::print::{assign, term, ty, ty_err, typed_var, var};
use lambda::syntax::{LineInfo, Term, Type};
use lambda::types::TypeError;

const RED: &str = "\x1b[31m";
const DARK_GRAY: &str = "\x1b[90m";
const YELLOW: &str = "\x1b[33m";
const CYAN: &str = "\x1b[36m";
const GREEN: &str = "\x1b[32m";
const PINK: &str = "\x1b[35m";
const PURPLE: &str = "\x1b[95m";
const ITALIC: &str = "\x1b[3m";
const RESET: &str = "\x1b[0m";

#[test]
fn var_colors_by_kind() {
    assert_eq!(var("true"), format!("{CYAN}{ITALIC}true{RESET}"));
    assert_eq!(var("false"), format!("{CYAN}{ITALIC}false{RESET}"));
    assert_eq!(var("Foo"), format!("{PINK}Foo{RESET}"));
    assert_eq!(var("42"), format!("{GREEN}42{RESET}"));
    assert_eq!(var("x4"), format!("{ITALIC}x4{RESET}"));
    assert_eq!(var("truex"), format!("{ITALIC}truex{RESET}"));
}

#[test]
fn type_rendering() {
    assert_eq!(ty(&Type::Any), format!("{CYAN}*{RESET}"));
    let f = Type::Abstraction(Box::new(Type::Variable("Nat".to_string())), Box::new(Type::Any));
    assert_eq!(ty(&f), format!("{PURPLE}Nat{RESET} {DARK_GRAY}->{RESET} {CYAN}*{RESET}"));
}

#[test]
fn term_rendering() {
    let t = Term::Application(
        Box::new(Term::Abstraction(
            "x".to_string(),
            None,
            Box::new(Term::Variable("x".to_string(), None, LineInfo(1, 6))),
            LineInfo(1, 2),
        )),
        Box::new(Term::Variable("y".to_string(), Some(Type::Variable("T".to_string())), LineInfo(1, 9))),
        LineInfo(1, 1),
    );
    let x = format!("{ITALIC}x{RESET}");
    let y = format!("{ITALIC}y{RESET}");
    assert_eq!(
        term(&t),
        format!(
            "{DARK_GRAY}({RESET}{YELLOW}λ{RESET}{x}{DARK_GRAY}.{RESET}{x} {y} {DARK_GRAY}:{RESET} {PURPLE}T{RESET}{DARK_GRAY}){RESET}"
        )
    );
}

#[test]
fn typed_var_and_assign_rendering() {
    let x = format!("{ITALIC}x{RESET}");
    assert_eq!(typed_var("x", &None), x);
    assert_eq!(
        typed_var("x", &Some(Type::Any)),
        format!("{x} {DARK_GRAY}:{RESET} {CYAN}*{RESET}")
    );
    let body = Term::Variable("Id".to_string(), None, LineInfo(1, 5));
    assert_eq!(
        assign("x", &None, &body),
        format!("{x} {DARK_GRAY}={RESET} {PINK}Id{RESET}")
    );
}

#[test]
fn type_error_messages() {
    let head = format!("{RED}Type error{RESET}");
    let m = TypeError::Mismatch {
        expected: Type::Variable("Nat".to_string()),
        found: Type::Variable("Bool".to_string()),
        info: LineInfo(12, 305),
    };
    assert_eq!(
        ty_err(m),
        format!("{head}: expected {PURPLE}Nat{RESET} but found {PURPLE}Bool{RESET} at line 12 col 305")
    );
    let n = TypeError::NotAFunction(Type::Any, LineInfo(0, 9));
    assert_eq!(ty_err(n), format!("{head}: {CYAN}*{RESET} is not a function type at line 0 col 9"));
    let u = TypeError::Unbound("q".to_string(), LineInfo(3, 10));
    assert_eq!(
        ty_err(u),
        format!("{head}: unbound variable `{ITALIC}q{RESET}` at line 3 col 10")
    );
}

#[test]
fn context_rendering() {
    let mut c = lambda::types::Ctx::new();
    c.insert("x".to_string(), Type::Variable("Nat".to_string()));
    c.insert("F".to_string(), Type::Any);
    let names = vec!["F".to_string(), "missing".to_string(), "x".to_string()];
    assert_eq!(
        lambda::print::ctx(&c, &names),
        format!(
            "Γ = {{\n  {PINK}F{RESET} {DARK_GRAY}:{RESET} {CYAN}*{RESET}{DARK_GRAY},{RESET}\n  {ITALIC}x{RESET} {DARK_GRAY}:{RESET} {PURPLE}Nat{RESET}{DARK_GRAY},{RESET}\n}}"
        )
    );
    assert_eq!(lambda::print::ctx(&c, &Vec::new()), "Γ = {\n}");
}
