use lambda::eval::{
    beta_reduce, env_var, eval_expr, eval_prog, free_vars, inline_vars, reduce_step,
    reduce_to_normal_form, rename_var, substitute, Env,
};
use lambda::parse::parse_prog;
use lambda::print::term;
use lambda::syntax::{Expr, LineInfo, Term};

fn at(line: usize, col: usize) -> LineInfo {
    LineInfo(line, col)
}

fn mk_var(name: &str, info: LineInfo) -> Term {
    Term::Variable(name.to_string(), None, info)
}

fn mk_abs(param: &str, body: Term, info: LineInfo) -> Term {
    Term::Abstraction(param.to_string(), None, Box::new(body), info)
}

fn mk_app(f: Term, x: Term, info: LineInfo) -> Term {
    Term::Application(Box::new(f), Box::new(x), info)
}

fn name_of(t: &Term) -> &str {
    match t {
        Term::Variable(n, _, _) => n.as_str(),
        _ => panic!("Expected a variable"),
    }
}

/// `x = λx. (x y); x y;`: the assignment stores the abstraction and the bare
/// term reduces by one beta step to `(y y)`.
#[test]
fn test_eval() {
    let mut env = Env::new();
    let input = "x = λx. (x y); x y;";
    let prog = parse_prog(input);
    assert_eq!(prog.len(), 2);
    eval_expr(&prog[0], &mut env, 1000);
    let result = eval_expr(&prog[1], &mut env, 1000).unwrap();

    if let Term::Application(f, x, _) = result {
        if let Term::Variable(var_name, _, _) = &*f {
            assert_eq!(var_name, "y");
            if let Term::Variable(arg_name, _, _) = &*x {
                assert_eq!(arg_name, "y");
            } else {
                panic!("Expected a variable for argument in application");
            }
        } else {
            panic!("Expected a variable for function in application");
        }
    } else {
        panic!("Expected a term expression for evaluation result");
    }
}

fn stmt_term(e: &Expr) -> &Term {
    match e {
        Expr::Assignment(_, _, term) => term,
        Expr::TypeDef(_, _) => panic!("Type definitions should not be used as terms"),
        Expr::Term(term) => term,
    }
}

/// We should be able to have recursive function definitions
/// and inline them in one step at a time without any issues.
#[test]
fn test_inline_vars_one_step() {
    let mut env = Env::new();
    let input = "A = λx. (A x); A y;";
    let expected = "(λx. (A x)) y";
    let prog = parse_prog(input);
    let binding = parse_prog(expected).pop().unwrap();
    let prog_expected = stmt_term(&binding);
    assert_eq!(prog.len(), 2);
    eval_expr(&prog[0], &mut env, 1000);
    let inlined = inline_vars(stmt_term(&prog[1]), &env);
    // The two texts place the terms at different columns: compare the terms
    // as shown, and then exactly against the stored definition.
    assert_eq!(term(&inlined), term(prog_expected));
    let exact = mk_app(stmt_term(&prog[0]).clone(), mk_var("y", at(1, 18)), at(1, 16));
    assert_eq!(inlined, exact);
}

#[test]
fn substitution_renames_capturing_parameter() {
    // (λy. x)[x := y] = λy'. y
    let e = mk_abs("y", mk_var("x", at(1, 5)), at(1, 1));
    let v = mk_var("y", at(2, 1));
    let r = substitute(&e, "x", &v);
    match &r {
        Term::Abstraction(p, _, body, _) => {
            assert_eq!(p, "y'");
            assert_eq!(name_of(body), "y");
        }
        _ => panic!("Expected an abstraction"),
    }
    assert!(free_vars(&r).contains("y"));
}

#[test]
fn substitution_adds_primes_until_fresh() {
    // (λy. x)[x := (y y')] = λy''. (y y')
    let e = mk_abs("y", mk_var("x", at(1, 5)), at(1, 1));
    let v = mk_app(mk_var("y", at(2, 1)), mk_var("y'", at(2, 3)), at(2, 1));
    let r = substitute(&e, "x", &v);
    match &r {
        Term::Abstraction(p, _, body, _) => {
            assert_eq!(p, "y''");
            assert_eq!(**body, v);
        }
        _ => panic!("Expected an abstraction"),
    }
}

#[test]
fn substitution_respects_shadowing_and_other_names() {
    let shadow = mk_abs("x", mk_var("x", at(1, 5)), at(1, 1));
    assert_eq!(substitute(&shadow, "x", &mk_var("z", at(2, 1))), shadow);
    let other = mk_var("w", at(1, 1));
    assert_eq!(substitute(&other, "x", &mk_var("z", at(2, 1))), other);
    let plain = mk_abs("p", mk_app(mk_var("x", at(1, 5)), mk_var("p", at(1, 7)), at(1, 5)), at(1, 1));
    let r = substitute(&plain, "x", &mk_var("z", at(2, 1)));
    let expected = mk_abs("p", mk_app(mk_var("z", at(2, 1)), mk_var("p", at(1, 7)), at(1, 5)), at(1, 1));
    assert_eq!(r, expected);
}

#[test]
fn free_vars_respect_binding() {
    let id = mk_abs("x", mk_var("x", at(1, 5)), at(1, 1));
    assert_eq!(free_vars(&id).len(), 0);
    let k = mk_abs("x", mk_var("y", at(1, 5)), at(1, 1));
    let fk = free_vars(&k);
    assert_eq!(fk.len(), 1);
    assert!(fk.contains("y"));
    let app = mk_app(mk_var("f", at(1, 1)), mk_var("x", at(1, 3)), at(1, 1));
    let fa = free_vars(&app);
    assert_eq!(fa.len(), 2);
    assert!(fa.contains("f"));
    assert!(fa.contains("x"));
}

#[test]
fn rename_var_renames_parameters_and_variables() {
    let t = mk_abs("a", mk_app(mk_var("a", at(1, 5)), mk_var("b", at(1, 7)), at(1, 5)), at(1, 1));
    let r = rename_var(&t, "a", "c");
    let expected = mk_abs("c", mk_app(mk_var("c", at(1, 5)), mk_var("b", at(1, 7)), at(1, 5)), at(1, 1));
    assert_eq!(r, expected);
}

#[test]
fn normal_order_fires_outer_redex() {
    // (λx. λy. x) a b  reduces to  a
    let k = mk_abs("x", mk_abs("y", mk_var("x", at(1, 9)), at(1, 5)), at(1, 1));
    let t = mk_app(mk_app(k, mk_var("a", at(1, 13)), at(1, 1)), mk_var("b", at(1, 15)), at(1, 1));
    let env = Env::new();
    let r = reduce_to_normal_form(&t, &env, 100);
    assert_eq!(r, mk_var("a", at(1, 13)));
    assert_eq!(reduce_step(&r, &env), None);
}

#[test]
fn beta_reduce_keeps_argument_unreduced() {
    // (λx. x) ((λz. z) w)  fires the outer redex only
    let inner = mk_app(mk_abs("z", mk_var("z", at(1, 20)), at(1, 15)), mk_var("w", at(1, 23)), at(1, 14));
    let t = mk_app(mk_abs("x", mk_var("x", at(1, 6)), at(1, 1)), inner.clone(), at(1, 1));
    let env = Env::new();
    let mut bound: Vec<String> = Vec::new();
    let r = beta_reduce(&t, &env, &mut bound, 4);
    assert_eq!(r, inner);
    assert!(bound.is_empty());
}

#[test]
fn beta_reduce_leaves_bound_callee_alone() {
    // Under λf, the callee f is a parameter, not the environment's f.
    let mut env = Env::new();
    env.insert("f".to_string(), mk_abs("q", mk_var("q", at(9, 5)), at(9, 1)));
    let t = mk_abs("f", mk_app(mk_var("f", at(1, 5)), mk_var("a", at(1, 7)), at(1, 5)), at(1, 1));
    let mut bound: Vec<String> = Vec::new();
    assert_eq!(beta_reduce(&t, &env, &mut bound, 4), t);
    let free = mk_app(mk_var("f", at(1, 5)), mk_var("a", at(1, 7)), at(1, 5));
    assert_eq!(beta_reduce(&free, &env, &mut bound, 4), mk_var("a", at(1, 7)));
}

#[test]
fn lazy_recursive_binding() {
    let mut env = Env::new();
    let def = mk_abs("x", mk_app(mk_var("A", at(1, 10)), mk_var("x", at(1, 12)), at(1, 9)), at(1, 5));
    let stored = eval_expr(&Expr::Assignment("A".to_string(), None, def.clone()), &mut env, 1000);
    assert_eq!(stored, Some(def.clone()));
    let use_a = mk_app(mk_var("A", at(2, 1)), mk_var("y", at(2, 3)), at(2, 1));
    assert_eq!(inline_vars(&use_a, &env), mk_app(def, mk_var("y", at(2, 3)), at(2, 1)));
    // The term never reaches a normal form; the step budget ends the loop.
    let r = reduce_to_normal_form(&use_a, &env, 25);
    assert!(reduce_step(&r, &env).is_some());
}

#[test]
fn environment_chains_resolve_transitively() {
    let mut env = Env::new();
    env.insert("x".to_string(), mk_var("y", at(1, 5)));
    env.insert("y".to_string(), mk_var("z", at(2, 5)));
    assert_eq!(env_var("x", &env), Some(mk_var("z", at(2, 5))));
    assert_eq!(inline_vars(&mk_var("x", at(3, 1)), &env), mk_var("z", at(2, 5)));
    assert_eq!(env_var("q", &env), None);
}

#[test]
fn environment_chains_stop_at_abstractions() {
    let mut env = Env::new();
    let id = mk_abs("w", mk_var("w", at(1, 9)), at(1, 5));
    env.insert("x".to_string(), id.clone());
    env.insert("y".to_string(), mk_var("x", at(2, 5)));
    assert_eq!(inline_vars(&mk_var("y", at(3, 1)), &env), id);
}

#[test]
fn environment_cycle_ends() {
    let mut env = Env::new();
    env.insert("x".to_string(), mk_var("y", at(1, 5)));
    env.insert("y".to_string(), mk_var("x", at(2, 5)));
    assert_eq!(env_var("x", &env), Some(mk_var("y", at(1, 5))));
}

#[test]
fn eval_prog_returns_bare_term_results() {
    let mut env = Env::new();
    let prog = vec![
        Expr::Assignment("I".to_string(), None, mk_abs("x", mk_var("x", at(1, 9)), at(1, 5))),
        Expr::Term(mk_app(mk_var("I", at(2, 1)), mk_var("a", at(2, 3)), at(2, 1))),
        Expr::TypeDef("T".to_string(), lambda::syntax::Type::Any),
        Expr::Term(mk_var("I", at(3, 1))),
    ];
    let results = eval_prog(&prog, &mut env, 100);
    assert_eq!(results.len(), 2);
    assert_eq!(results[0], mk_var("a", at(2, 3)));
    assert_eq!(results[1], mk_abs("x", mk_var("x", at(1, 9)), at(1, 5)));
    assert!(env.contains_key("I"));
    assert!(!env.contains_key("T"));
}

#[test]
fn reduce_step_inlines_when_no_redex() {
    let mut env = Env::new();
    let id = mk_abs("w", mk_var("w", at(1, 9)), at(1, 5));
    env.insert("x".to_string(), id.clone());
    assert_eq!(reduce_step(&mk_var("x", at(2, 1)), &env), Some(id.clone()));
    assert_eq!(reduce_step(&id, &env), None);
}

#[test]
fn eval_expr_type_def_has_no_effect() {
    let mut env = Env::new();
    let r = eval_expr(&Expr::TypeDef("T".to_string(), lambda::syntax::Type::Any), &mut env, 10);
    assert_eq!(r, None);
    assert_eq!(env.len(), 0);
}

#[test]
fn inlining_leaves_bound_variables() {
    let mut env = Env::new();
    env.insert("x".to_string(), mk_var("z", at(9, 5)));
    let id = mk_abs("x", mk_var("x", at(1, 5)), at(1, 1));
    assert_eq!(inline_vars(&id, &env), id);
    let mixed = mk_abs("y", mk_app(mk_var("x", at(1, 5)), mk_var("y", at(1, 7)), at(1, 5)), at(1, 1));
    let expected = mk_abs("y", mk_app(mk_var("z", at(9, 5)), mk_var("y", at(1, 7)), at(1, 5)), at(1, 1));
    assert_eq!(inline_vars(&mixed, &env), expected);
    let prog = parse_prog("x = z; λx. x;");
    let results = eval_prog(&prog, &mut Env::new(), 100);
    assert_eq!(results.len(), 1);
    assert_eq!(term(&results[0]), term(&mk_abs("x", mk_var("x", at(1, 1)), at(1, 1))));
}

#[test]
fn callee_from_environment_is_reduced() {
    // F = ((λz. z) w): one step on (F q) gives (w q).
    let mut env = Env::new();
    let f_def = mk_app(mk_abs("z", mk_var("z", at(1, 10)), at(1, 6)), mk_var("w", at(1, 13)), at(1, 5));
    env.insert("F".to_string(), f_def);
    let t = mk_app(mk_var("F", at(2, 1)), mk_var("q", at(2, 3)), at(2, 1));
    let expected = mk_app(mk_var("w", at(1, 13)), mk_var("q", at(2, 3)), at(2, 1));
    assert_eq!(reduce_step(&t, &env), Some(expected.clone()));
    let mut bound: Vec<String> = Vec::new();
    assert_eq!(beta_reduce(&t, &env, &mut bound, 1), expected);
    // With no budget the supplied callee is kept as it is.
    let kept = beta_reduce(&t, &env, &mut bound, 0);
    assert_eq!(kept, mk_app(env.get("F").unwrap().clone(), mk_var("q", at(2, 3)), at(2, 1)));
}

#[test]
fn self_calling_callee_step_ends() {
    // A = (A x): one step on (A y) ends within the budget.
    let mut env = Env::new();
    env.insert("A".to_string(), mk_app(mk_var("A", at(1, 6)), mk_var("x", at(1, 8)), at(1, 5)));
    let t = mk_app(mk_var("A", at(2, 1)), mk_var("y", at(2, 3)), at(2, 1));
    assert!(reduce_step(&t, &env).is_some());
}
