use vstd::prelude::*;
use vstd::hash_map::StringHashMap;

use crate::syntax::{Expr, LineInfo, SpecExpr, SpecTerm, SpecType, Term, Type, is_type_def, strip_type_defs};

verus! {

broadcast use vstd::string::group_string_axioms;

/// The typing context: names of variables and of type aliases, with their types.
pub type Ctx = StringHashMap<Type>;

/// Why a term does not type-check.
#[derive(Debug)]
pub enum TypeError {
    Mismatch { expected: Type, found: Type, info: LineInfo },
    NotAFunction(Type, LineInfo),
    Unbound(String, LineInfo),
}

/// The mathematical model of a `TypeError`.
pub enum SpecTypeError {
    Mismatch { expected: SpecType, found: SpecType, info: LineInfo },
    NotAFunction(SpecType, LineInfo),
    Unbound(Seq<char>, LineInfo),
}

impl View for TypeError {
    type V = SpecTypeError;

    open spec fn view(&self) -> SpecTypeError {
        match *self {
            TypeError::Mismatch { expected, found, info } => SpecTypeError::Mismatch {
                expected: expected@,
                found: found@,
                info,
            },
            TypeError::NotAFunction(t, i) => SpecTypeError::NotAFunction(t@, i),
            TypeError::Unbound(n, i) => SpecTypeError::Unbound(n@, i),
        }
    }
}

/// The context with each type replaced by its model.
pub open spec fn ctx_model(m: Map<Seq<char>, Type>) -> Map<Seq<char>, SpecType> {
    m.map_values(|t: Type| t@)
}

pub open spec fn type_result(r: Result<Type, TypeError>) -> Result<SpecType, SpecTypeError> {
    match r {
        Ok(t) => Ok(t@),
        Err(e) => Err(e@),
    }
}

pub open spec fn unit_result(r: Result<(), TypeError>) -> Result<(), SpecTypeError> {
    match r {
        Ok(_) => Ok(()),
        Err(e) => Err(e@),
    }
}

// ---------------------------------------------------------------------------
// Alias resolution and wildcard-aware equality
// ---------------------------------------------------------------------------

/// Each type name bound in the context is replaced by its entry.
pub open spec fn resolve_spec(c: Map<Seq<char>, SpecType>, t: SpecType) -> SpecType
    decreases t,
{
    match t {
        SpecType::Any => SpecType::Any,
        SpecType::Variable(n) => if c.contains_key(n) {
            c[n]
        } else {
            t
        },
        SpecType::Abstraction(p, r) => SpecType::Abstraction(
            Box::new(resolve_spec(c, *p)),
            Box::new(resolve_spec(c, *r)),
        ),
    }
}

/// Structural equality in which `Any` matches every type on either side.
pub open spec fn compare_spec(a: SpecType, b: SpecType) -> bool
    decreases a,
{
    match (a, b) {
        (SpecType::Any, _) => true,
        (_, SpecType::Any) => true,
        (SpecType::Variable(x), SpecType::Variable(y)) => x == y,
        (SpecType::Abstraction(pa, ra), SpecType::Abstraction(pb, rb)) => compare_spec(*pa, *pb)
            && compare_spec(*ra, *rb),
        _ => false,
    }
}

/// The wildcard matches every type, on either side.
pub proof fn lemma_any_matches_every_type(t: SpecType)
    ensures
        compare_spec(SpecType::Any, t),
        compare_spec(t, SpecType::Any),
{
}

/// Type equality with the wildcard is reflexive.
pub proof fn lemma_compare_reflexive(t: SpecType)
    ensures
        compare_spec(t, t),
    decreases t,
{
    if let SpecType::Abstraction(p, r) = t {
        lemma_compare_reflexive(*p);
        lemma_compare_reflexive(*r);
    }
}

/// Type equality with the wildcard is not transitive: two distinct atomic types
/// both match `Any` without matching each other.
pub proof fn lemma_compare_not_transitive()
    ensures
        exists|a: SpecType, b: SpecType, c: SpecType|
            compare_spec(a, b) && compare_spec(b, c) && !compare_spec(a, c),
{
    let a = SpecType::Variable(seq!['a']);
    let c = SpecType::Variable(seq!['c']);
    assert(seq!['a'][0] != seq!['c'][0]);
    assert(compare_spec(a, SpecType::Any) && compare_spec(SpecType::Any, c) && !compare_spec(a, c));
}

/// Replaces the alias names in `ty` that `ctx` binds by their entries.
pub fn resolve_type(ctx: &Ctx, ty: &Type) -> (r: Type)
    ensures
        r@ == resolve_spec(ctx_model(ctx@), ty@),
    decreases ty,
{
    match ty {
        Type::Any => Type::Any,
        Type::Variable(name) => match ctx.get(name.as_str()) {
            Some(resolved) => resolved.clone(),
            None => ty.clone(),
        },
        Type::Abstraction(param, ret) => Type::Abstraction(
            Box::new(resolve_type(ctx, param)),
            Box::new(resolve_type(ctx, ret)),
        ),
    }
}

/// Structural type equality in which `Any` matches everything.
pub fn compare_types(a: &Type, b: &Type) -> (r: bool)
    ensures
        r == compare_spec(a@, b@),
    decreases a,
{
    match a {
        Type::Any => true,
        Type::Variable(x) => match b {
            Type::Any => true,
            Type::Variable(y) => *x == *y,
            Type::Abstraction(_, _) => false,
        },
        Type::Abstraction(pa, ra) => match b {
            Type::Any => true,
            Type::Variable(_) => false,
            Type::Abstraction(pb, rb) => compare_types(pa, pb) && compare_types(ra, rb),
        },
    }
}

// ---------------------------------------------------------------------------
// Synthesis and checking
// ---------------------------------------------------------------------------

/// Synthesis for a variable `name` with an optional declared type.
pub open spec fn infer_var_spec(
    c: Map<Seq<char>, SpecType>,
    name: Seq<char>,
    expected: Option<SpecType>,
    info: LineInfo,
) -> Result<SpecType, SpecTypeError> {
    match expected {
        Some(e) if c.contains_key(name) && !compare_spec(resolve_spec(c, e), c[name]) => Err(
            SpecTypeError::Mismatch { expected: resolve_spec(c, e), found: c[name], info },
        ),
        _ => if c.contains_key(name) {
            Ok(c[name])
        } else {
            Err(SpecTypeError::Unbound(name, info))
        },
    }
}

/// The type of a parameter: its declared type, resolved, or else an atomic type
/// named after the parameter itself.
pub open spec fn param_type_spec(c: Map<Seq<char>, SpecType>, p: Seq<char>, ann: Option<SpecType>) -> SpecType {
    match ann {
        Some(t) => resolve_spec(c, t),
        None => SpecType::Variable(p),
    }
}

/// Synthesis: the type inferred for `e` under `c`.
pub open spec fn infer_spec(c: Map<Seq<char>, SpecType>, e: SpecTerm) -> Result<SpecType, SpecTypeError>
    decreases e.size(), 0nat,
{
    match e {
        SpecTerm::Variable(x, ann, i) => infer_var_spec(c, x, ann, i),
        SpecTerm::Abstraction(p, ann, b, _) => {
            let pt = param_type_spec(c, p, ann);
            match infer_spec(c.insert(p, pt), *b) {
                Ok(rt) => Ok(SpecType::Abstraction(Box::new(pt), Box::new(rt))),
                Err(err) => Err(err),
            }
        },
        SpecTerm::Application(f, a, i) => match infer_spec(c, *f) {
            Ok(SpecType::Abstraction(p, r)) => match check_spec(c, *a, *p, i) {
                Ok(_) => Ok(*r),
                Err(err) => Err(err),
            },
            Ok(other) => Err(SpecTypeError::NotAFunction(other, i)),
            Err(err) => Err(err),
        },
    }
}

/// Checking: `e` against `t` under `c`; a mismatch found by the fallback to
/// synthesis is reported at `at`.
pub open spec fn check_spec(c: Map<Seq<char>, SpecType>, e: SpecTerm, t: SpecType, at: LineInfo) -> Result<(), SpecTypeError>
    decreases e.size(), 1nat,
{
    match (e, t) {
        (SpecTerm::Abstraction(x, _, b, _), SpecType::Abstraction(p, r)) => check_spec(
            c.insert(x, *p),
            *b,
            *r,
            b.info(),
        ),
        _ => match infer_spec(c, e) {
            Ok(inferred) => if compare_spec(t, inferred) {
                Ok(())
            } else {
                Err(SpecTypeError::Mismatch { expected: t, found: inferred, info: at })
            },
            Err(err) => Err(err),
        },
    }
}

proof fn lemma_ctx_model_insert(m: Map<Seq<char>, Type>, k: Seq<char>, t: Type)
    ensures
        ctx_model(m.insert(k, t)) == ctx_model(m).insert(k, t@),
{
    assert(ctx_model(m.insert(k, t)) =~= ctx_model(m).insert(k, t@));
}

/// Binds `x : ty` and returns the binding it shadows, if any.
fn bind_scoped(ctx: &mut Ctx, x: &String, ty: Type) -> (prev: Option<Type>)
    ensures
        final(ctx)@ == old(ctx)@.insert(x@, ty),
        prev == (if old(ctx)@.contains_key(x@) {
            Some(old(ctx)@[x@])
        } else {
            None
        }),
{
    let prev = match ctx.get(x.as_str()) {
        Some(t) => Some(t.clone()),
        None => None,
    };
    ctx.insert(x.clone(), ty);
    prev
}

/// Undoes `bind_scoped`: puts back the shadowed binding, or removes `x`.
fn unbind_scoped(ctx: &mut Ctx, x: &String, prev: Option<Type>, Ghost(before): Ghost<Map<Seq<char>, Type>>, Ghost(ty): Ghost<Type>)
    requires
        old(ctx)@ == before.insert(x@, ty),
        prev == (if before.contains_key(x@) {
            Some(before[x@])
        } else {
            None
        }),
    ensures
        final(ctx)@ == before,
{
    match prev {
        Some(t) => {
            ctx.insert(x.clone(), t);
            assert(ctx@ =~= before);
        },
        None => {
            ctx.remove(x.as_str());
            assert(ctx@ =~= before);
        },
    }
}

fn infer_var_in(ctx: &Ctx, name: &String, expected: &Option<Type>, info: &LineInfo) -> (r: Result<Type, TypeError>)
    ensures
        type_result(r) == infer_var_spec(
            ctx_model(ctx@),
            name@,
            crate::syntax::opt_type_model(*expected),
            *info,
        ),
{
    if let Some(expected) = expected {
        let expected = resolve_type(ctx, expected);
        if let Some(var_ty) = ctx.get(name.as_str()) {
            if !compare_types(&expected, var_ty) {
                return Err(TypeError::Mismatch { expected, found: var_ty.clone(), info: *info });
            }
        }
    }
    match ctx.get(name.as_str()) {
        Some(t) => Ok(t.clone()),
        None => Err(TypeError::Unbound(name.clone(), *info)),
    }
}

/// Synthesis for the variable `name` with its declared type `expected`.
pub fn infer_var(ctx: &Ctx, name: &str, expected: &Option<Type>, info: &LineInfo) -> (r: Result<Type, TypeError>)
    ensures
        type_result(r) == infer_var_spec(
            ctx_model(ctx@),
            name@,
            crate::syntax::opt_type_model(*expected),
            *info,
        ),
{
    infer_var_in(ctx, &name.to_string(), expected, info)
}

/// Synthesis: the type of `e`. An abstraction's parameter has its declared
/// type, resolved, or else an atomic type named after itself; the argument of an
/// application is checked against the parameter type, and a disagreement is
/// reported at the application. The context is the same on return, whatever the
/// outcome.
pub fn infer_term(ctx: &mut Ctx, e: &Term) -> (r: Result<Type, TypeError>)
    ensures
        final(ctx)@ == old(ctx)@,
        type_result(r) == infer_spec(ctx_model(old(ctx)@), e@),
    decreases e@.size(), 0nat,
{
    let ghost c0 = ctx@;
    match e {
        Term::Variable(x, expected, info) => infer_var_in(ctx, x, expected, info),
        Term::Abstraction(param, ann, body, _) => {
            let param_ty = match ann {
                Some(t) => resolve_type(ctx, t),
                None => Type::Variable(param.clone()),
            };
            let prev = bind_scoped(ctx, param, param_ty.clone());
            proof {
                lemma_ctx_model_insert(c0, param@, param_ty);
            }
            let ret = infer_term(ctx, body);
            unbind_scoped(ctx, param, prev, Ghost(c0), Ghost(param_ty));
            match ret {
                Ok(ret_ty) => Ok(Type::Abstraction(Box::new(param_ty), Box::new(ret_ty))),
                Err(err) => Err(err),
            }
        },
        Term::Application(lhs, rhs, info) => match infer_term(ctx, lhs) {
            Ok(fun_ty) => match fun_ty {
                Type::Abstraction(param, ret) => match check_against(ctx, rhs, &param, *info) {
                    Ok(()) => Ok(*ret),
                    Err(err) => Err(err),
                },
                other => Err(TypeError::NotAFunction(other, *info)),
            },
            Err(err) => Err(err),
        },
    }
}

fn check_against(ctx: &mut Ctx, e: &Term, expected: &Type, at: LineInfo) -> (r: Result<(), TypeError>)
    ensures
        final(ctx)@ == old(ctx)@,
        unit_result(r) == check_spec(ctx_model(old(ctx)@), e@, expected@, at),
    decreases e@.size(), 1nat,
{
    let ghost c0 = ctx@;
    if let Term::Abstraction(x, _, body, _) = e {
        if let Type::Abstraction(param, ret) = expected {
            let p: Type = (**param).clone();
            let prev = bind_scoped(ctx, x, p);
            proof {
                lemma_ctx_model_insert(c0, x@, p);
            }
            let res = check_against(ctx, body, ret, *body.info());
            unbind_scoped(ctx, x, prev, Ghost(c0), Ghost(p));
            return res;
        }
    }
    match infer_term(ctx, e) {
        Ok(inferred) => {
            if compare_types(expected, &inferred) {
                Ok(())
            } else {
                Err(TypeError::Mismatch { expected: expected.clone(), found: inferred, info: at })
            }
        },
        Err(err) => Err(err),
    }
}

/// Checking: `e` against `expected`; a mismatch is reported at the position of
/// `e`. The context is the same on return, whatever the outcome.
pub fn check_term(ctx: &mut Ctx, e: &Term, expected: &Type) -> (r: Result<(), TypeError>)
    ensures
        final(ctx)@ == old(ctx)@,
        unit_result(r) == check_spec(ctx_model(old(ctx)@), e@, expected@, e@.info()),
{
    check_against(ctx, e, expected, *e.info())
}

// ---------------------------------------------------------------------------
// Statements and programs
// ---------------------------------------------------------------------------

/// A binding statement `target [: expected] = body`: the result and the context
/// after it.
pub open spec fn bind_spec(
    c: Map<Seq<char>, SpecType>,
    target: Seq<char>,
    expected: Option<SpecType>,
    body: SpecTerm,
) -> (Result<SpecType, SpecTypeError>, Map<Seq<char>, SpecType>) {
    match infer_var_spec(c, target, expected, body.info()) {
        Ok(ty) => (
            match check_spec(c, body, ty, body.info()) {
                Ok(_) => Ok(ty),
                Err(err) => Err(err),
            },
            c,
        ),
        Err(SpecTypeError::Unbound(_, _)) => match expected {
            Some(t) => {
                let et = resolve_spec(c, t);
                let c2 = c.insert(target, et);
                (
                    match check_spec(c2, body, et, body.info()) {
                        Ok(_) => Ok(et),
                        Err(err) => Err(err),
                    },
                    c2,
                )
            },
            None => match infer_spec(c, body) {
                Ok(it) => (Ok(it), c.insert(target, it)),
                Err(err) => (Err(err), c),
            },
        },
        Err(err) => (Err(err), c),
    }
}

/// A statement: the result and the context after it.
pub open spec fn expr_check_spec(c: Map<Seq<char>, SpecType>, e: SpecExpr) -> (
    Result<SpecType, SpecTypeError>,
    Map<Seq<char>, SpecType>,
) {
    match e {
        SpecExpr::Assignment(n, ty, b) => bind_spec(c, n, ty, b),
        SpecExpr::TypeDef(n, t) => (Ok(t), c.insert(n, t)),
        SpecExpr::Term(t) => (infer_spec(c, t), c),
    }
}

/// A program checked in order, stopping at the first error: the outcome and the
/// context after it.
pub open spec fn program_check_spec(c: Map<Seq<char>, SpecType>, prog: Seq<Expr>) -> (
    Result<(), SpecTypeError>,
    Map<Seq<char>, SpecType>,
)
    decreases prog.len(),
{
    if prog.len() == 0 {
        (Ok(()), c)
    } else {
        let (r, c1) = program_check_spec(c, prog.drop_last());
        match r {
            Err(err) => (Err(err), c1),
            Ok(_) => {
                let (rb, c2) = expr_check_spec(c1, prog.last()@);
                (
                    match rb {
                        Ok(_) => Ok(()),
                        Err(err) => Err(err),
                    },
                    c2,
                )
            },
        }
    }
}

/// Once a prefix of a program fails, the whole program fails the same way.
proof fn lemma_error_persists(c: Map<Seq<char>, SpecType>, prog: Seq<Expr>, k: int)
    requires
        0 <= k <= prog.len(),
        program_check_spec(c, prog.take(k)).0 is Err,
    ensures
        program_check_spec(c, prog) == program_check_spec(c, prog.take(k)),
    decreases prog.len() - k,
{
    if k < prog.len() {
        assert(prog.take(k + 1).drop_last() =~= prog.take(k));
        lemma_error_persists(c, prog, k + 1);
    } else {
        assert(prog.take(k) =~= prog);
    }
}

/// Checks the binding statement `target [: expected] = body`. A target that is
/// already bound keeps its first type: a re-declared type only has to match it,
/// wildcards included, and the body is checked against the bound type. An
/// unbound target is bound to its declared type, resolved, before its body is
/// checked, so that recursive definitions check; without a declared type it is
/// bound to the type synthesized for its body.
pub fn check_bind(ctx: &mut Ctx, target: &String, expected: &Option<Type>, body: &Term) -> (r: Result<Type, TypeError>)
    ensures
        type_result(r) == bind_spec(
            ctx_model(old(ctx)@),
            target@,
            crate::syntax::opt_type_model(*expected),
            body@,
        ).0,
        ctx_model(final(ctx)@) == bind_spec(
            ctx_model(old(ctx)@),
            target@,
            crate::syntax::opt_type_model(*expected),
            body@,
        ).1,
{
    let ghost c0 = ctx@;
    match infer_var_in(ctx, target, expected, body.info()) {
        Ok(ty) => {
            match check_term(ctx, body, &ty) {
                Ok(()) => Ok(ty),
                Err(err) => Err(err),
            }
        },
        Err(TypeError::Unbound(name, info)) => {
            match expected {
                Some(t) => {
                    let expected_ty = resolve_type(ctx, t);
                    ctx.insert(target.clone(), expected_ty.clone());
                    proof {
                        lemma_ctx_model_insert(c0, target@, expected_ty);
                    }
                    match check_term(ctx, body, &expected_ty) {
                        Ok(()) => Ok(expected_ty),
                        Err(err) => Err(err),
                    }
                },
                None => {
                    match infer_term(ctx, body) {
                        Ok(inferred) => {
                            ctx.insert(target.clone(), inferred.clone());
                            proof {
                                lemma_ctx_model_insert(c0, target@, inferred);
                            }
                            Ok(inferred)
                        },
                        Err(err) => Err(err),
                    }
                },
            }
        },
        Err(err) => Err(err),
    }
}

/// Checks one statement: a binding, a type definition, which binds its alias,
/// or a bare term, whose type is synthesized.
pub fn check_expr(ctx: &mut Ctx, expr: &Expr) -> (r: Result<Type, TypeError>)
    ensures
        type_result(r) == expr_check_spec(ctx_model(old(ctx)@), expr@).0,
        ctx_model(final(ctx)@) == expr_check_spec(ctx_model(old(ctx)@), expr@).1,
{
    let ghost c0 = ctx@;
    match expr {
        Expr::Assignment(target, expected, body) => check_bind(ctx, target, expected, body),
        Expr::TypeDef(target, ty) => {
            ctx.insert(target.clone(), ty.clone());
            proof {
                lemma_ctx_model_insert(c0, target@, *ty);
            }
            Ok(ty.clone())
        },
        Expr::Term(term) => infer_term(ctx, term),
    }
}

/// Checks the statements of `prog` in order, stopping at the first error. On
/// success the type definitions are removed from `prog`, which keeps the other
/// statements in order; on error `prog` is unchanged.
pub fn check_program(ctx: &mut Ctx, prog: &mut Vec<Expr>) -> (r: Result<(), TypeError>)
    ensures
        unit_result(r) == program_check_spec(ctx_model(old(ctx)@), old(prog)@).0,
        ctx_model(final(ctx)@) == program_check_spec(ctx_model(old(ctx)@), old(prog)@).1,
        r is Ok ==> final(prog)@ == strip_type_defs(old(prog)@),
        r is Ok ==> forall|k: int| 0 <= k < final(prog)@.len() ==> !is_type_def(#[trigger] final(prog)@[k]),
        r is Err ==> final(prog)@ == old(prog)@,
{
    let ghost c0 = ctx_model(ctx@);
    let mut i: usize = 0;
    while i < prog.len()
        invariant
            i <= prog@.len(),
            prog@ == old(prog)@,
            c0 == ctx_model(old(ctx)@),
            program_check_spec(c0, prog@.take(i as int)).0 is Ok,
            ctx_model(ctx@) == program_check_spec(c0, prog@.take(i as int)).1,
        decreases prog@.len() - i,
    {
        assert(prog@.take(i + 1).drop_last() =~= prog@.take(i as int));
        assert(prog@.take(i + 1).last() == prog@[i as int]);
        match check_expr(ctx, &prog[i]) {
            Ok(_) => {},
            Err(err) => {
                proof {
                    lemma_error_persists(c0, prog@, i + 1);
                }
                return Err(err);
            },
        }
        i = i + 1;
    }
    assert(prog@.take(prog@.len() as int) =~= prog@);
    let mut kept: Vec<Expr> = Vec::new();
    let mut j: usize = 0;
    while j < prog.len()
        invariant
            j <= prog@.len(),
            prog@ == old(prog)@,
            kept@ == strip_type_defs(prog@.take(j as int)),
        decreases prog@.len() - j,
    {
        assert(prog@.take(j + 1).drop_last() =~= prog@.take(j as int));
        assert(prog@.take(j + 1).last() == prog@[j as int]);
        let ghost f = |e: Expr| !is_type_def(e);
        let ghost before = kept@;
        proof {
            reveal(Seq::filter);
        }
        assert(strip_type_defs(prog@.take(j + 1)) == prog@.take(j + 1).filter(f));
        if let Expr::TypeDef(_, _) = &prog[j] {
            assert(!f(prog@[j as int]));
            assert(prog@.take(j + 1).filter(f) == prog@.take(j as int).filter(f));
        } else {
            kept.push(prog[j].clone());
            assert(f(prog@[j as int]));
            assert(prog@.take(j + 1).filter(f) == prog@.take(j as int).filter(f).push(prog@[j as int]));
        }
        j = j + 1;
    }
    assert(prog@.take(prog@.len() as int) =~= prog@);
    *prog = kept;
    proof {
        let f = |e: Expr| !is_type_def(e);
        assert forall|k: int| 0 <= k < prog@.len() implies !is_type_def(#[trigger] prog@[k]) by {
            old(prog)@.lemma_filter_pred(f, k);
        }
    }
    Ok(())
}

} // verus!
