use lambda::eval::{eval_prog, Env};
use lambda::syntax::{Expr, LineInfo, Term, Type};
use lambda::types::{check_program, check_term, compare_types, infer_term, resolve_type, Ctx, TypeError};

fn at(line: usize, col: usize) -> LineInfo {
    LineInfo(line, col)
}

fn tv(name: &str) -> Type {
    Type::Variable(name.to_string())
}

fn arrow(p: Type, r: Type) -> Type {
    Type::Abstraction(Box::new(p), Box::new(r))
}

fn mk_var(name: &str, info: LineInfo) -> Term {
    Term::Variable(name.to_string(), None, info)
}

fn base_ctx() -> Ctx {
    let mut ctx = Ctx::new();
    ctx.insert("true".to_string(), tv("Bool"));
    ctx.insert("zero".to_string(), tv("Nat"));
    ctx
}

#[test]
fn wildcard_matches_every_type() {
    for t in [Type::Any, tv("Nat"), arrow(tv("Nat"), tv("Bool")), arrow(Type::Any, tv("X"))] {
        assert!(compare_types(&Type::Any, &t));
        assert!(compare_types(&t, &Type::Any));
        assert!(compare_types(&t, &t));
    }
    assert!(!compare_types(&tv("Nat"), &tv("Bool")));
    assert!(!compare_types(&tv("Nat"), &arrow(tv("Nat"), tv("Nat"))));
    assert!(compare_types(&arrow(tv("Nat"), Type::Any), &arrow(Type::Any, tv("Bool"))));
}

#[test]
fn wildcard_binding_does_not_chain_equalities() {
    let mut ctx = base_ctx();
    let mut prog = vec![
        Expr::Assignment("A".to_string(), Some(Type::Any), mk_var("zero", at(1, 8))),
        Expr::Assignment("B".to_string(), Some(tv("Nat")), mk_var("A", at(2, 10))),
        Expr::Assignment("C".to_string(), Some(tv("Bool")), mk_var("A", at(3, 11))),
    ];
    assert!(check_program(&mut ctx, &mut prog).is_ok());
    let mut bad = vec![Expr::Assignment("D".to_string(), Some(tv("Bool")), mk_var("B", at(4, 11)))];
    match check_program(&mut ctx, &mut bad) {
        Err(TypeError::Mismatch { expected, found, info }) => {
            assert_eq!(expected, tv("Bool"));
            assert_eq!(found, tv("Nat"));
            assert_eq!(info, at(4, 11));
        }
        other => panic!("Expected a mismatch, got {:?}", other),
    }
    assert_eq!(bad.len(), 1);
}

#[test]
fn mismatch_reported_at_application() {
    // (λx: Nat. x) true
    let mut ctx = base_ctx();
    let f = Term::Abstraction("x".to_string(), Some(tv("Nat")), Box::new(mk_var("x", at(1, 11))), at(1, 2));
    let t = Term::Application(Box::new(f), Box::new(mk_var("true", at(1, 15))), at(1, 1));
    match infer_term(&mut ctx, &t) {
        Err(TypeError::Mismatch { expected, found, info }) => {
            assert_eq!(expected, tv("Nat"));
            assert_eq!(found, tv("Bool"));
            assert_eq!(info, at(1, 1));
        }
        other => panic!("Expected a mismatch, got {:?}", other),
    }
    assert_eq!(ctx.len(), 2);
    assert!(!ctx.contains_key("x"));
}

#[test]
fn unbound_variable_error() {
    let mut ctx = base_ctx();
    match infer_term(&mut ctx, &mk_var("nope", at(3, 4))) {
        Err(TypeError::Unbound(name, info)) => {
            assert_eq!(name, "nope");
            assert_eq!(info, at(3, 4));
        }
        other => panic!("Expected an unbound error, got {:?}", other),
    }
}

#[test]
fn not_a_function_error() {
    let mut ctx = base_ctx();
    let t = Term::Application(Box::new(mk_var("zero", at(1, 1))), Box::new(mk_var("true", at(1, 6))), at(1, 1));
    match infer_term(&mut ctx, &t) {
        Err(TypeError::NotAFunction(ty, info)) => {
            assert_eq!(ty, tv("Nat"));
            assert_eq!(info, at(1, 1));
        }
        other => panic!("Expected a not-a-function error, got {:?}", other),
    }
}

#[test]
fn untyped_abstraction_synthesizes_named_parameter_type() {
    let mut ctx = Ctx::new();
    let id = Term::Abstraction("x".to_string(), None, Box::new(mk_var("x", at(1, 5))), at(1, 1));
    assert_eq!(infer_term(&mut ctx, &id).unwrap(), arrow(tv("x"), tv("x")));
    assert_eq!(ctx.len(), 0);
}

#[test]
fn checking_restores_shadowed_binding() {
    let mut ctx = base_ctx();
    let body = mk_var("zero", at(1, 9));
    let lam = Term::Abstraction("zero".to_string(), None, Box::new(body), at(1, 1));
    assert!(check_term(&mut ctx, &lam, &arrow(tv("Bool"), tv("Bool"))).is_ok());
    assert_eq!(ctx.get("zero"), Some(&tv("Nat")));
    assert_eq!(ctx.len(), 2);
    let err = check_term(&mut ctx, &lam, &arrow(tv("Bool"), tv("Nat")));
    assert!(err.is_err());
    assert_eq!(ctx.get("zero"), Some(&tv("Nat")));
}

#[test]
fn resolve_type_follows_aliases() {
    let mut ctx = Ctx::new();
    ctx.insert("Num".to_string(), tv("Nat"));
    let r = resolve_type(&ctx, &arrow(tv("Num"), arrow(Type::Any, tv("Other"))));
    assert_eq!(r, arrow(tv("Nat"), arrow(Type::Any, tv("Other"))));
}

#[test]
fn check_program_strips_type_defs() {
    let mut ctx = base_ctx();
    let id = Term::Abstraction("x".to_string(), Some(tv("Num")), Box::new(mk_var("x", at(2, 9))), at(2, 5));
    let mut prog = vec![
        Expr::TypeDef("Num".to_string(), tv("Nat")),
        Expr::Assignment("n".to_string(), Some(tv("Num")), mk_var("zero", at(2, 10))),
        Expr::Assignment("I".to_string(), None, id.clone()),
        Expr::TypeDef("Flag".to_string(), tv("Bool")),
        Expr::Term(Term::Application(Box::new(mk_var("I", at(3, 1))), Box::new(mk_var("n", at(3, 3))), at(3, 1))),
    ];
    let original = prog.clone();
    assert!(check_program(&mut ctx, &mut prog).is_ok());
    assert_eq!(prog.len(), 3);
    assert!(prog.iter().all(|e| !matches!(e, Expr::TypeDef(_, _))));
    assert_eq!(prog[0], original[1]);
    assert_eq!(prog[1], original[2]);
    assert_eq!(prog[2], original[4]);
    assert_eq!(ctx.get("n"), Some(&tv("Nat")));
    assert_eq!(ctx.get("I"), Some(&arrow(tv("Nat"), tv("Nat"))));
    let mut env_a = Env::new();
    let mut env_b = Env::new();
    let before = eval_prog(&original, &mut env_a, 100);
    let after = eval_prog(&prog, &mut env_b, 100);
    assert_eq!(before, after);
    assert_eq!(after, vec![mk_var("zero", at(2, 10))]);
}

#[test]
fn check_program_error_leaves_program() {
    let mut ctx = base_ctx();
    let mut prog = vec![
        Expr::TypeDef("Num".to_string(), tv("Nat")),
        Expr::Term(mk_var("missing", at(5, 5))),
    ];
    assert!(check_program(&mut ctx, &mut prog).is_err());
    assert_eq!(prog.len(), 2);
}

#[test]
fn redeclared_binding_must_match_first_type() {
    let mut ctx = base_ctx();
    let mut first = vec![Expr::Assignment("n".to_string(), Some(tv("Nat")), mk_var("zero", at(1, 9)))];
    assert!(check_program(&mut ctx, &mut first).is_ok());
    let mut again = vec![Expr::Assignment("n".to_string(), Some(tv("Bool")), mk_var("true", at(2, 10)))];
    match check_program(&mut ctx, &mut again) {
        Err(TypeError::Mismatch { expected, found, info }) => {
            assert_eq!(expected, tv("Bool"));
            assert_eq!(found, tv("Nat"));
            assert_eq!(info, at(2, 10));
        }
        other => panic!("Expected a mismatch, got {:?}", other),
    }
    let mut wild = vec![Expr::Assignment("n".to_string(), Some(Type::Any), mk_var("zero", at(3, 7)))];
    assert!(check_program(&mut ctx, &mut wild).is_ok());
    assert_eq!(ctx.get("n"), Some(&tv("Nat")));
}

#[test]
fn infer_var_with_declared_type() {
    let mut ctx = base_ctx();
    ctx.insert("Num".to_string(), tv("Nat"));
    let ok = lambda::types::infer_var(&ctx, "zero", &Some(tv("Num")), &at(1, 1));
    assert_eq!(ok.unwrap(), tv("Nat"));
    match lambda::types::infer_var(&ctx, "zero", &Some(tv("Bool")), &at(1, 2)) {
        Err(TypeError::Mismatch { expected, found, .. }) => {
            assert_eq!(expected, tv("Bool"));
            assert_eq!(found, tv("Nat"));
        }
        other => panic!("Expected a mismatch, got {:?}", other),
    }
    match lambda::types::infer_var(&ctx, "w", &Some(tv("Bool")), &at(1, 3)) {
        Err(TypeError::Unbound(name, _)) => assert_eq!(name, "w"),
        other => panic!("Expected an unbound error, got {:?}", other),
    }
}
