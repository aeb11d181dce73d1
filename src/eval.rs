use vstd::prelude::*;
use vstd::hash_map::StringHashMap;
use vstd::hash_set::StringHashSet;

use crate::syntax::{Expr, SpecTerm, Term, clone_opt_type, strip_type_defs, term_eq};
use crate::text::{contains_name, names_of, push_char};

verus! {

broadcast use vstd::string::group_string_axioms;

// ---------------------------------------------------------------------------
// Free variables, renaming and substitution
// ---------------------------------------------------------------------------

/// The names that occur free in `t`.
pub open spec fn free_vars_spec(t: SpecTerm) -> Set<Seq<char>>
    decreases t,
{
    match t {
        SpecTerm::Variable(n, _, _) => set![n],
        SpecTerm::Abstraction(p, _, b, _) => free_vars_spec(*b).remove(p),
        SpecTerm::Application(f, a, _) => free_vars_spec(*f).union(free_vars_spec(*a)),
    }
}

/// Every occurrence of `old_name`, as a variable or as a parameter, becomes `new_name`.
pub open spec fn rename_spec(t: SpecTerm, old_name: Seq<char>, new_name: Seq<char>) -> SpecTerm
    decreases t,
{
    match t {
        SpecTerm::Variable(n, ty, i) => if n == old_name {
            SpecTerm::Variable(new_name, ty, i)
        } else {
            t
        },
        SpecTerm::Abstraction(p, ty, b, i) => SpecTerm::Abstraction(
            if p == old_name { new_name } else { p },
            ty,
            Box::new(rename_spec(*b, old_name, new_name)),
            i,
        ),
        SpecTerm::Application(f, a, i) => SpecTerm::Application(
            Box::new(rename_spec(*f, old_name, new_name)),
            Box::new(rename_spec(*a, old_name, new_name)),
            i,
        ),
    }
}

/// The names of `avoid` that are at least as long as `s`.
pub open spec fn names_not_shorter(avoid: Set<Seq<char>>, s: Seq<char>) -> Set<Seq<char>> {
    avoid.filter(|x: Seq<char>| x.len() >= s.len())
}

/// `s` followed by as few primes as make it a name outside `avoid`.
pub open spec fn fresh_name(s: Seq<char>, avoid: Set<Seq<char>>) -> Seq<char>
    decreases names_not_shorter(avoid, s).len(),
    when avoid.finite()
    via fresh_name_decreases
{
    if avoid.contains(s) {
        fresh_name(s.push('\''), avoid)
    } else {
        s
    }
}

#[via_fn]
proof fn fresh_name_decreases(s: Seq<char>, avoid: Set<Seq<char>>) {
    if avoid.contains(s) {
        lemma_names_not_shorter_shrink(s, avoid);
    }
}

/// Appending a prime leaves fewer names of `avoid` that are at least as long.
proof fn lemma_names_not_shorter_shrink(s: Seq<char>, avoid: Set<Seq<char>>)
    requires
        avoid.finite(),
        avoid.contains(s),
    ensures
        names_not_shorter(avoid, s.push('\'')).len() < names_not_shorter(avoid, s).len(),
        names_not_shorter(avoid, s).finite(),
{
    let big = names_not_shorter(avoid, s);
    let small = names_not_shorter(avoid, s.push('\''));
    avoid.lemma_len_filter(|x: Seq<char>| x.len() >= s.len());
    assert(big.contains(s));
    assert(small.subset_of(big.remove(s)));
    vstd::set_lib::lemma_len_subset(small, big.remove(s));
}

/// Capture-avoiding substitution of `v` for the free occurrences of `x` in `t`.
pub open spec fn subst_spec(t: SpecTerm, x: Seq<char>, v: SpecTerm) -> SpecTerm
    decreases t.size(),
{
    match t {
        SpecTerm::Variable(n, _, _) => if n == x {
            v
        } else {
            t
        },
        SpecTerm::Application(f, a, i) => SpecTerm::Application(
            Box::new(subst_spec(*f, x, v)),
            Box::new(subst_spec(*a, x, v)),
            i,
        ),
        SpecTerm::Abstraction(p, ty, b, i) => if p == x {
            t
        } else if free_vars_spec(v).contains(p) {
            let fresh_p = fresh_name(p, free_vars_spec(v));
            proof {
                lemma_rename_size(*b, p, fresh_p);
            }
            SpecTerm::Abstraction(fresh_p, ty, Box::new(subst_spec(rename_spec(*b, p, fresh_p), x, v)), i)
        } else {
            SpecTerm::Abstraction(p, ty, Box::new(subst_spec(*b, x, v)), i)
        },
    }
}

pub proof fn lemma_rename_size(t: SpecTerm, old_name: Seq<char>, new_name: Seq<char>)
    ensures
        rename_spec(t, old_name, new_name).size() == t.size(),
    decreases t,
{
    match t {
        SpecTerm::Variable(_, _, _) => {},
        SpecTerm::Abstraction(_, _, b, _) => lemma_rename_size(*b, old_name, new_name),
        SpecTerm::Application(f, a, _) => {
            lemma_rename_size(*f, old_name, new_name);
            lemma_rename_size(*a, old_name, new_name);
        },
    }
}

pub proof fn lemma_free_vars_finite(t: SpecTerm)
    ensures
        free_vars_spec(t).finite(),
    decreases t,
{
    match t {
        SpecTerm::Variable(_, _, _) => {},
        SpecTerm::Abstraction(_, _, b, _) => lemma_free_vars_finite(*b),
        SpecTerm::Application(f, a, _) => {
            lemma_free_vars_finite(*f);
            lemma_free_vars_finite(*a);
        },
    }
}

fn collect_free_vars(t: &Term, bound: &mut Vec<String>, acc: &mut StringHashSet)
    ensures
        final(bound)@ == old(bound)@,
        final(acc)@ == old(acc)@.union(
            free_vars_spec(t@).difference(names_of(old(bound)@).to_set()),
        ),
    decreases t,
{
    match t {
        Term::Variable(n, _, _) => {
            if !contains_name(bound, n) {
                acc.insert(n.clone());
            }
            assert(final(acc)@ =~= old(acc)@.union(
                free_vars_spec(t@).difference(names_of(old(bound)@).to_set()),
            ));
        },
        Term::Abstraction(p, _, b, _) => {
            let ghost b0 = bound@;
            bound.push(p.clone());
            assert(names_of(bound@).to_set() =~= names_of(b0).to_set().insert(p@)) by {
                assert(names_of(bound@) =~= names_of(b0).push(p@));
                names_of(b0).lemma_push_to_set_commute(p@);
            }
            collect_free_vars(b, bound, acc);
            bound.pop();
            assert(bound@ =~= b0);
            assert(final(acc)@ =~= old(acc)@.union(
                free_vars_spec(t@).difference(names_of(old(bound)@).to_set()),
            ));
        },
        Term::Application(f, a, _) => {
            collect_free_vars(f, bound, acc);
            collect_free_vars(a, bound, acc);
            assert(final(acc)@ =~= old(acc)@.union(
                free_vars_spec(t@).difference(names_of(old(bound)@).to_set()),
            ));
        },
    }
}

/// The set of names that occur free in `term`.
pub fn free_vars(term: &Term) -> (r: StringHashSet)
    ensures
        r@ == free_vars_spec(term@),
{
    let mut acc = StringHashSet::new();
    let mut bound: Vec<String> = Vec::new();
    collect_free_vars(term, &mut bound, &mut acc);
    assert(names_of(Seq::<String>::empty()).to_set() =~= Set::<Seq<char>>::empty());
    assert(acc@ =~= free_vars_spec(term@));
    acc
}

fn rename_name(term: &Term, old_var: &String, new_var: &String) -> (r: Term)
    ensures
        r@ == rename_spec(term@, old_var@, new_var@),
    decreases term,
{
    match term {
        Term::Variable(s, ty, i) => {
            if *s == *old_var {
                Term::Variable(new_var.clone(), clone_opt_type(ty), *i)
            } else {
                term.clone()
            }
        },
        Term::Abstraction(s, ty, body, i) => {
            let p = if *s == *old_var {
                new_var.clone()
            } else {
                s.clone()
            };
            Term::Abstraction(p, clone_opt_type(ty), Box::new(rename_name(body, old_var, new_var)), *i)
        },
        Term::Application(e1, e2, i) => Term::Application(
            Box::new(rename_name(e1, old_var, new_var)),
            Box::new(rename_name(e2, old_var, new_var)),
            *i,
        ),
    }
}

/// Renames every occurrence of `old_var` in `term`, free or bound, parameters included.
pub fn rename_var(term: &Term, old_var: &str, new_var: &str) -> (r: Term)
    ensures
        r@ == rename_spec(term@, old_var@, new_var@),
{
    rename_name(term, &old_var.to_string(), &new_var.to_string())
}

fn subst_name(term: &Term, var: &String, value: &Term, fv: &StringHashSet) -> (r: Term)
    requires
        fv@ == free_vars_spec(value@),
    ensures
        r@ == subst_spec(term@, var@, value@),
    decreases term@.size(),
{
    match term {
        Term::Variable(v, _, _) => {
            if *v == *var {
                value.clone()
            } else {
                term.clone()
            }
        },
        Term::Application(e1, e2, i) => Term::Application(
            Box::new(subst_name(e1, var, value, fv)),
            Box::new(subst_name(e2, var, value, fv)),
            *i,
        ),
        Term::Abstraction(s, ty, body, i) => {
            if *s == *var {
                term.clone()
            } else if fv.contains(s.as_str()) {
                proof {
                    lemma_free_vars_finite(value@);
                }
                let mut s_new = s.clone();
                while fv.contains(s_new.as_str())
                    invariant
                        fv@ == free_vars_spec(value@),
                        fv@.finite(),
                        fresh_name(s_new@, fv@) == fresh_name(s@, fv@),
                    decreases names_not_shorter(fv@, s_new@).len(),
                {
                    proof {
                        lemma_names_not_shorter_shrink(s_new@, fv@);
                    }
                    push_char(&mut s_new, '\'');
                }
                let renamed = rename_name(body, s, &s_new);
                proof {
                    lemma_rename_size(body@, s@, s_new@);
                }
                let new_body = subst_name(&renamed, var, value, fv);
                Term::Abstraction(s_new, clone_opt_type(ty), Box::new(new_body), *i)
            } else {
                Term::Abstraction(s.clone(), clone_opt_type(ty), Box::new(subst_name(body, var, value, fv)), *i)
            }
        },
    }
}

/// Capture-avoiding substitution of `value` for the free occurrences of `var`.
pub fn substitute(term: &Term, var: &str, value: &Term) -> (r: Term)
    ensures
        r@ == subst_spec(term@, var@, value@),
{
    let fv = free_vars(value);
    subst_name(term, &var.to_string(), value, &fv)
}

// ---------------------------------------------------------------------------
// The binding environment
// ---------------------------------------------------------------------------

/// Names bound to the unevaluated terms most recently assigned to them.
pub type Env = StringHashMap<Term>;

/// The environment with each bound term replaced by its model.
pub open spec fn env_model(m: Map<Seq<char>, Term>) -> Map<Seq<char>, SpecTerm> {
    m.map_values(|t: Term| t@)
}

/// Follows at most `n` links of variable-to-variable bindings starting from `t`.
pub open spec fn chase(m: Map<Seq<char>, SpecTerm>, t: SpecTerm, n: nat) -> SpecTerm
    decreases n,
{
    if n == 0 {
        t
    } else {
        match t {
            SpecTerm::Variable(w, _, _) => if m.contains_key(w) {
                chase(m, m[w], (n - 1) as nat)
            } else {
                t
            },
            _ => t,
        }
    }
}

/// What `v` resolves to in the environment: `None` when it is unbound. A chain of
/// variable bindings is followed until a non-variable term or an unbound name is
/// reached; it is followed for as many links as the environment has entries, so
/// that a chain which comes back on itself ends where those links run out.
pub open spec fn env_var_spec(m: Map<Seq<char>, SpecTerm>, v: Seq<char>) -> Option<SpecTerm> {
    if m.contains_key(v) {
        Some(chase(m, m[v], m.len()))
    } else {
        None
    }
}

/// Every free variable replaced by what it resolves to in the environment.
/// `bound` names the parameters of the enclosing abstractions: a variable that
/// one of them binds is left as it is.
pub open spec fn inline_spec(t: SpecTerm, m: Map<Seq<char>, SpecTerm>, bound: Seq<Seq<char>>) -> SpecTerm
    decreases t,
{
    match t {
        SpecTerm::Variable(v, _, _) => if bound.contains(v) {
            t
        } else {
            match env_var_spec(m, v) {
                Some(r) => r,
                None => t,
            }
        },
        SpecTerm::Abstraction(p, ty, b, i) => SpecTerm::Abstraction(
            p,
            ty,
            Box::new(inline_spec(*b, m, bound.push(p))),
            i,
        ),
        SpecTerm::Application(f, a, i) => SpecTerm::Application(
            Box::new(inline_spec(*f, m, bound)),
            Box::new(inline_spec(*a, m, bound)),
            i,
        ),
    }
}

/// The environment's term for a callee that is a variable bound neither by an
/// enclosing abstraction nor left unbound by the environment.
pub open spec fn head_lookup(f: SpecTerm, m: Map<Seq<char>, SpecTerm>, bound: Seq<Seq<char>>) -> Option<SpecTerm> {
    match f {
        SpecTerm::Variable(v, _, _) => if bound.contains(v) {
            None
        } else {
            env_var_spec(m, v)
        },
        _ => None,
    }
}

/// One round of normal-order beta reduction. The callee of an application is
/// resolved through the environment first; a redex fires without reducing its
/// argument. Otherwise both the callee and the argument are reduced. A callee
/// that the environment supplied may itself call into the environment without
/// end (`A = (A x)`), so such callees are reduced to a depth of `fuel` nested
/// lookups; past it, a callee is kept as the environment supplied it.
pub open spec fn beta_spec(t: SpecTerm, m: Map<Seq<char>, SpecTerm>, bound: Seq<Seq<char>>, fuel: nat) -> SpecTerm
    decreases fuel, t,
{
    match t {
        SpecTerm::Variable(_, _, _) => t,
        SpecTerm::Abstraction(p, ty, b, i) => SpecTerm::Abstraction(
            p,
            ty,
            Box::new(beta_spec(*b, m, bound.push(p), fuel)),
            i,
        ),
        SpecTerm::Application(f, a, i) => match head_lookup(*f, m, bound) {
            Some(g) => match g {
                SpecTerm::Abstraction(p, _, b, _) => subst_spec(*b, p, *a),
                _ => SpecTerm::Application(
                    Box::new(
                        if fuel > 0 {
                            beta_spec(g, m, bound, (fuel - 1) as nat)
                        } else {
                            g
                        },
                    ),
                    Box::new(beta_spec(*a, m, bound, fuel)),
                    i,
                ),
            },
            None => match *f {
                SpecTerm::Abstraction(p, _, b, _) => subst_spec(*b, p, *a),
                _ => SpecTerm::Application(
                    Box::new(beta_spec(*f, m, bound, fuel)),
                    Box::new(beta_spec(*a, m, bound, fuel)),
                    i,
                ),
            },
        },
    }
}

/// One step of the normal-form loop: a beta round, or else inlining; `None`
/// when neither changes the term, which is then in normal form. Callees that
/// the environment supplies are reduced to a depth of as many lookups as the
/// environment has entries.
pub open spec fn step_spec(t: SpecTerm, m: Map<Seq<char>, SpecTerm>) -> Option<SpecTerm> {
    let n = beta_spec(t, m, Seq::empty(), m.len());
    if n != t {
        Some(n)
    } else if inline_spec(t, m, Seq::empty()) != t {
        Some(inline_spec(t, m, Seq::empty()))
    } else {
        None
    }
}

/// The term reached after at most `fuel` steps.
pub open spec fn normalize(t: SpecTerm, m: Map<Seq<char>, SpecTerm>, fuel: nat) -> SpecTerm
    decreases fuel,
{
    if fuel == 0 {
        t
    } else {
        match step_spec(t, m) {
            Some(n) => normalize(n, m, (fuel - 1) as nat),
            None => t,
        }
    }
}

pub open spec fn opt_term_model(t: Option<Term>) -> Option<SpecTerm> {
    match t {
        Some(t) => Some(t@),
        None => None,
    }
}

proof fn lemma_env_model_len(m: Map<Seq<char>, Term>)
    ensures
        env_model(m).len() == m.len(),
        env_model(m).dom() == m.dom(),
{
    assert(env_model(m).dom() =~= m.dom());
}

/// What the variable `var` resolves to in `env`; `None` when it is unbound.
pub fn env_var(var: &str, env: &Env) -> (r: Option<Term>)
    ensures
        opt_term_model(r) == env_var_spec(env_model(env@), var@),
{
    let ghost m = env_model(env@);
    proof {
        lemma_env_model_len(env@);
    }
    match env.get(var) {
        None => None,
        Some(first) => {
            let mut expr = first.clone();
            let mut n: usize = env.len();
            loop
                invariant
                    m == env_model(env@),
                    m.contains_key(var@),
                    chase(m, expr@, n as nat) == chase(m, m[var@], m.len()),
                ensures
                    expr@ == chase(m, m[var@], m.len()),
                decreases n,
            {
                if n == 0 {
                    break;
                }
                let next = match &expr {
                    Term::Variable(v, _, _) => match env.get(v.as_str()) {
                        Some(e) => Some(e.clone()),
                        None => None,
                    },
                    _ => None,
                };
                match next {
                    Some(e) => {
                        expr = e;
                        n = n - 1;
                    },
                    None => {
                        assert(chase(m, expr@, n as nat) == expr@);
                        break;
                    },
                }
            }
            Some(expr)
        },
    }
}

fn inline_under(term: &Term, env: &Env, bound: &mut Vec<String>) -> (r: Term)
    ensures
        final(bound)@ == old(bound)@,
        r@ == inline_spec(term@, env_model(env@), names_of(old(bound)@)),
    decreases term,
{
    match term {
        Term::Variable(v, _, _) => {
            if contains_name(bound, v) {
                term.clone()
            } else {
                match env_var(v.as_str(), env) {
                    Some(r) => r,
                    None => term.clone(),
                }
            }
        },
        Term::Abstraction(param, ty, body, i) => {
            let ghost b0 = bound@;
            bound.push(param.clone());
            assert(names_of(bound@) =~= names_of(b0).push(param@));
            let nb = inline_under(body, env, bound);
            bound.pop();
            assert(bound@ =~= b0);
            Term::Abstraction(param.clone(), clone_opt_type(ty), Box::new(nb), *i)
        },
        Term::Application(f, x, i) => {
            let nf = inline_under(f, env, bound);
            let nx = inline_under(x, env, bound);
            Term::Application(Box::new(nf), Box::new(nx), *i)
        },
    }
}

/// Replaces every free variable of `term` by what it resolves to in `env`;
/// variables bound by an abstraction of `term` stay as they are.
pub fn inline_vars(term: &Term, env: &Env) -> (r: Term)
    ensures
        r@ == inline_spec(term@, env_model(env@), Seq::empty()),
{
    let mut bound: Vec<String> = Vec::new();
    assert(names_of(bound@) =~= Seq::<Seq<char>>::empty());
    inline_under(term, env, &mut bound)
}

/// One round of beta reduction of `term`. `bound_vars` names the parameters of
/// the enclosing abstractions; it is the same on return. Callees supplied by the
/// environment are reduced to a depth of `budget` nested lookups.
pub fn beta_reduce(term: &Term, env: &Env, bound_vars: &mut Vec<String>, budget: usize) -> (r: Term)
    ensures
        final(bound_vars)@ == old(bound_vars)@,
        r@ == beta_spec(term@, env_model(env@), names_of(old(bound_vars)@), budget as nat),
    decreases budget, term,
{
    match term {
        Term::Variable(_, _, _) => term.clone(),
        Term::Abstraction(var, ty, body, i) => {
            let ghost b0 = bound_vars@;
            bound_vars.push(var.clone());
            assert(names_of(bound_vars@) =~= names_of(b0).push(var@));
            let nb = beta_reduce(body, env, bound_vars, budget);
            bound_vars.pop();
            assert(bound_vars@ =~= b0);
            Term::Abstraction(var.clone(), clone_opt_type(ty), Box::new(nb), *i)
        },
        Term::Application(e1, e2, i) => {
            let resolved = match &**e1 {
                Term::Variable(v, _, _) => {
                    if !contains_name(bound_vars, v) {
                        env_var(v.as_str(), env)
                    } else {
                        None
                    }
                },
                _ => None,
            };
            assert(opt_term_model(resolved) == head_lookup(e1@, env_model(env@), names_of(bound_vars@)));
            match resolved {
                Some(g) => match &g {
                    Term::Abstraction(var, _, body, _) => substitute(body, var.as_str(), e2),
                    _ => {
                        let f = if budget > 0 {
                            beta_reduce(&g, env, bound_vars, budget - 1)
                        } else {
                            g
                        };
                        let a = beta_reduce(e2, env, bound_vars, budget);
                        Term::Application(Box::new(f), Box::new(a), *i)
                    },
                },
                None => match &**e1 {
                    Term::Abstraction(var, _, body, _) => substitute(body, var.as_str(), e2),
                    _ => {
                        let f = beta_reduce(e1, env, bound_vars, budget);
                        let a = beta_reduce(e2, env, bound_vars, budget);
                        Term::Application(Box::new(f), Box::new(a), *i)
                    },
                },
            }
        },
    }
}

/// One step towards normal form; `None` when `term` is already in normal form.
pub fn reduce_step(term: &Term, env: &Env) -> (r: Option<Term>)
    ensures
        opt_term_model(r) == step_spec(term@, env_model(env@)),
{
    proof {
        lemma_env_model_len(env@);
    }
    let mut bound: Vec<String> = Vec::new();
    let next = beta_reduce(term, env, &mut bound, env.len());
    assert(names_of(Seq::<String>::empty()) =~= Seq::<Seq<char>>::empty());
    if !term_eq(&next, term) {
        return Some(next);
    }
    let inlined = inline_vars(&next, env);
    if !term_eq(&inlined, term) {
        Some(inlined)
    } else {
        None
    }
}

/// Reduces `term` until it is in normal form or `max_steps` steps were taken.
/// A term without a normal form never stops changing; the step budget is what
/// ends the loop for it. To run without a budget, call `reduce_step` until it
/// returns `None`.
pub fn reduce_to_normal_form(term: &Term, env: &Env, max_steps: usize) -> (r: Term)
    ensures
        r@ == normalize(term@, env_model(env@), max_steps as nat),
{
    let ghost m = env_model(env@);
    let mut cur = term.clone();
    let mut left: usize = max_steps;
    loop
        invariant
            m == env_model(env@),
            normalize(cur@, m, left as nat) == normalize(term@, m, max_steps as nat),
        decreases left,
    {
        if left == 0 {
            return cur;
        }
        match reduce_step(&cur, env) {
            Some(next) => {
                cur = next;
                left = left - 1;
            },
            None => {
                return cur;
            },
        }
    }
}

// ---------------------------------------------------------------------------
// Statements and programs
// ---------------------------------------------------------------------------

/// The result of a statement and the environment after it. An assignment
/// stores its body unevaluated and yields it; a type definition has no effect
/// on evaluation; a bare term is inlined and then reduced.
pub open spec fn eval_expr_spec(e: Expr, m: Map<Seq<char>, Term>, fuel: nat) -> (Option<SpecTerm>, Map<Seq<char>, Term>) {
    match e {
        Expr::Assignment(name, _, body) => (Some(body@), m.insert(name@, body)),
        Expr::TypeDef(_, _) => (None, m),
        Expr::Term(t) => (Some(normalize(inline_spec(t@, env_model(m), Seq::empty()), env_model(m), fuel)), m),
    }
}

/// The results of the bare terms of `prog`, in order, and the environment after it.
pub open spec fn eval_prog_spec(prog: Seq<Expr>, m: Map<Seq<char>, Term>, fuel: nat) -> (Seq<SpecTerm>, Map<Seq<char>, Term>)
    decreases prog.len(),
{
    if prog.len() == 0 {
        (Seq::empty(), m)
    } else {
        let (rs, m1) = eval_prog_spec(prog.drop_last(), m, fuel);
        let (r, m2) = eval_expr_spec(prog.last(), m1, fuel);
        match (prog.last(), r) {
            (Expr::Term(_), Some(t)) => (rs.push(t), m2),
            _ => (rs, m2),
        }
    }
}

/// Evaluates one statement: an assignment stores its body and returns it, a type
/// definition returns `None`, and a bare term is inlined and then reduced, in at
/// most `max_steps` steps.
pub fn eval_expr(expr: &Expr, env: &mut Env, max_steps: usize) -> (r: Option<Term>)
    ensures
        opt_term_model(r) == eval_expr_spec(*expr, old(env)@, max_steps as nat).0,
        final(env)@ == eval_expr_spec(*expr, old(env)@, max_steps as nat).1,
{
    match expr {
        Expr::Assignment(name, _, val) => {
            // The body is stored unevaluated so that recursive definitions
            // only unfold when they are used.
            env.insert(name.clone(), val.clone());
            Some(val.clone())
        },
        Expr::TypeDef(_, _) => None,
        Expr::Term(term) => {
            let t = inline_vars(term, env);
            Some(reduce_to_normal_form(&t, env, max_steps))
        },
    }
}

pub open spec fn terms_model(v: Seq<Term>) -> Seq<SpecTerm> {
    v.map_values(|t: Term| t@)
}

/// Evaluates the statements of `prog` in order and returns the results of its
/// bare terms.
pub fn eval_prog(prog: &Vec<Expr>, env: &mut Env, max_steps: usize) -> (r: Vec<Term>)
    ensures
        terms_model(r@) == eval_prog_spec(prog@, old(env)@, max_steps as nat).0,
        final(env)@ == eval_prog_spec(prog@, old(env)@, max_steps as nat).1,
{
    let ghost m0 = env@;
    let mut results: Vec<Term> = Vec::new();
    let mut i: usize = 0;
    while i < prog.len()
        invariant
            i <= prog@.len(),
            terms_model(results@) == eval_prog_spec(prog@.take(i as int), m0, max_steps as nat).0,
            env@ == eval_prog_spec(prog@.take(i as int), m0, max_steps as nat).1,
        decreases prog@.len() - i,
    {
        let ghost before = results@;
        let r = eval_expr(&prog[i], env, max_steps);
        assert(prog@.take(i + 1).drop_last() =~= prog@.take(i as int));
        if let Expr::Term(_) = &prog[i] {
            if let Some(t) = r {
                results.push(t);
                assert(terms_model(results@) =~= terms_model(before).push(results@.last()@));
            }
        }
        i = i + 1;
    }
    assert(prog@.take(prog@.len() as int) =~= prog@);
    results
}

// ---------------------------------------------------------------------------
// Laws
// ---------------------------------------------------------------------------

proof fn lemma_fresh_name_avoids(s: Seq<char>, avoid: Set<Seq<char>>)
    requires
        avoid.finite(),
    ensures
        !avoid.contains(fresh_name(s, avoid)),
    decreases names_not_shorter(avoid, s).len(),
{
    if avoid.contains(s) {
        lemma_names_not_shorter_shrink(s, avoid);
        lemma_fresh_name_avoids(s.push('\''), avoid);
    }
}

proof fn lemma_fresh_name_primed(s: Seq<char>, avoid: Set<Seq<char>>)
    requires
        avoid.finite(),
        avoid.contains(s),
    ensures
        fresh_name(s, avoid).len() > 0,
        fresh_name(s, avoid).last() == '\'',
    decreases names_not_shorter(avoid, s).len(),
{
    lemma_names_not_shorter_shrink(s, avoid);
    let s2 = s.push('\'');
    if avoid.contains(s2) {
        lemma_fresh_name_primed(s2, avoid);
    } else {
        assert(fresh_name(s2, avoid) == s2);
    }
}

proof fn lemma_rename_keeps_free(t: SpecTerm, p: Seq<char>, fresh_p: Seq<char>, x: Seq<char>)
    requires
        free_vars_spec(t).contains(x),
        x != p,
        x != fresh_p,
    ensures
        free_vars_spec(rename_spec(t, p, fresh_p)).contains(x),
    decreases t,
{
    match t {
        SpecTerm::Variable(_, _, _) => {},
        SpecTerm::Abstraction(_, _, b, _) => lemma_rename_keeps_free(*b, p, fresh_p, x),
        SpecTerm::Application(f, a, _) => {
            if free_vars_spec(*f).contains(x) {
                lemma_rename_keeps_free(*f, p, fresh_p, x);
            } else {
                lemma_rename_keeps_free(*a, p, fresh_p, x);
            }
        },
    }
}

/// Substitution avoids capture: where `x` occurs free in `e`, every name free in
/// `v` is still free in `e[x := v]`, so no abstraction of `e` binds it. Fresh
/// parameter names end with a prime, so `x` is taken to end otherwise.
pub proof fn lemma_substitution_keeps_value_free(e: SpecTerm, x: Seq<char>, v: SpecTerm)
    requires
        free_vars_spec(e).contains(x),
        x.len() == 0 || x.last() != '\'',
    ensures
        free_vars_spec(v).subset_of(free_vars_spec(subst_spec(e, x, v))),
    decreases e.size(),
{
    match e {
        SpecTerm::Variable(_, _, _) => {},
        SpecTerm::Application(f, a, _) => {
            if free_vars_spec(*f).contains(x) {
                lemma_substitution_keeps_value_free(*f, x, v);
            } else {
                lemma_substitution_keeps_value_free(*a, x, v);
            }
        },
        SpecTerm::Abstraction(p, _, b, _) => {
            if free_vars_spec(v).contains(p) {
                let fv = free_vars_spec(v);
                lemma_free_vars_finite(v);
                let fresh_p = fresh_name(p, fv);
                lemma_fresh_name_avoids(p, fv);
                lemma_fresh_name_primed(p, fv);
                assert(x != fresh_p);
                lemma_rename_keeps_free(*b, p, fresh_p, x);
                lemma_rename_size(*b, p, fresh_p);
                lemma_substitution_keeps_value_free(rename_spec(*b, p, fresh_p), x, v);
            } else {
                lemma_substitution_keeps_value_free(*b, x, v);
            }
        },
    }
}

/// Normal order: an application whose callee is an abstraction fires at once,
/// substituting the argument as it stands, unreduced.
pub proof fn lemma_outer_redex_fires_first(
    p: Seq<char>,
    ty: Option<crate::syntax::SpecType>,
    body: SpecTerm,
    arg: SpecTerm,
    at: crate::syntax::LineInfo,
    i: crate::syntax::LineInfo,
    m: Map<Seq<char>, SpecTerm>,
    bound: Seq<Seq<char>>,
    fuel: nat,
)
    ensures
        beta_spec(
            SpecTerm::Application(
                Box::new(SpecTerm::Abstraction(p, ty, Box::new(body), at)),
                Box::new(arg),
                i,
            ),
            m,
            bound,
            fuel,
        ) == subst_spec(body, p, arg),
{
}

/// A callee that the environment resolves to something other than an
/// abstraction is reduced, as is the argument, while the budget lasts.
pub proof fn lemma_resolved_callee_is_reduced(
    f: SpecTerm,
    arg: SpecTerm,
    i: crate::syntax::LineInfo,
    m: Map<Seq<char>, SpecTerm>,
    bound: Seq<Seq<char>>,
    fuel: nat,
)
    requires
        fuel > 0,
        head_lookup(f, m, bound) is Some,
        !(head_lookup(f, m, bound)->0 is Abstraction),
    ensures
        beta_spec(SpecTerm::Application(Box::new(f), Box::new(arg), i), m, bound, fuel)
            == SpecTerm::Application(
            Box::new(beta_spec(head_lookup(f, m, bound)->0, m, bound, (fuel - 1) as nat)),
            Box::new(beta_spec(arg, m, bound, fuel)),
            i,
        ),
{
}

/// Type definitions carry no meaning for evaluation: a program with its type
/// definitions removed yields the same results and leaves the same environment.
pub proof fn lemma_stripping_type_defs_keeps_evaluation(prog: Seq<Expr>, m: Map<Seq<char>, Term>, fuel: nat)
    ensures
        eval_prog_spec(strip_type_defs(prog), m, fuel) == eval_prog_spec(prog, m, fuel),
    decreases prog.len(),
{
    reveal(Seq::filter);
    if prog.len() > 0 {
        let dl = prog.drop_last();
        lemma_stripping_type_defs_keeps_evaluation(dl, m, fuel);
        if !(prog.last() is TypeDef) {
            let s = strip_type_defs(dl).push(prog.last());
            assert(s.drop_last() =~= strip_type_defs(dl));
        }
    } else {
        assert(strip_type_defs(prog) =~= prog);
    }
}

} // verus!
