//! What the type checker guarantees about running programs with functions.
//!
//! A program that type-checks runs to a value, or stops on a division or
//! modulo by zero, or when calls nest deeper than the interpreter allows.
//!
//! The proof types the interpreter's store: each scope gets a checker scope
//! with the same names, and a value has a type when it is a literal of it or
//! a closure whose body checks against what its scope binds.
use vstd::prelude::*;
use crate::ast::{SExpr, SStmt, SType};
use crate::error::SError;
use crate::interpreter::{SState, bind_target, eval, eval_list, param_names, push_call_frame, run_spec, run_stmts, runtime_error};
use crate::types::{SScope, check_args, check_spec, check_stmt, check_stmts, env_define, env_lookup, infer, is_builtin, opens_scope, param_types, scope_lookup};
use crate::value::{SFrame, SValue, store_define, store_get, store_home, store_push, vars_lookup};
use crate::{program_of, run_spec_of, typecheck_spec};

verus! {

/// The checker scopes that scope `e` of the store sees: its ancestors'
/// scopes, outermost first, then its own.
pub open spec fn frame_ctx(st: Seq<SFrame>, sig: Seq<SScope>, e: nat) -> Seq<SScope>
    decreases e,
{
    if e >= st.len() || e >= sig.len() {
        Seq::empty()
    } else {
        match st[e as int].parent {
            Some(p) => if p < e {
                frame_ctx(st, sig, p).push(sig[e as int])
            } else {
                seq![sig[e as int]]
            },
            None => seq![sig[e as int]],
        }
    }
}

/// Whether checker scopes `g` promise no more than scopes `d` give: each
/// name that `g` binds, `d` binds to the same type, and a builtin's name
/// that `g` leaves unbound, `d` leaves unbound too.
pub open spec fn ctx_le(g: Seq<SScope>, d: Seq<SScope>) -> bool {
    forall|n: Seq<char>|
        {
            &&& (#[trigger] env_lookup(g, n)) is Some ==> env_lookup(d, n) == env_lookup(g, n)
            &&& is_builtin(n) && env_lookup(g, n) is None ==> env_lookup(d, n) is None
        }
}

/// The checker scope of a call: each parameter name with its type.
pub open spec fn param_scope(params: Seq<Seq<char>>, pts: Seq<SType>) -> SScope {
    Seq::new(params.len(), |i: int| (params[i], pts[i]))
}

/// Whether a closure's body, checked under scopes `g` that its own scope
/// `cenv` lives up to, with the parameters bound, has type `r`.
pub open spec fn closure_ok(
    st: Seq<SFrame>,
    sig: Seq<SScope>,
    g: Seq<SScope>,
    params: Seq<Seq<char>>,
    pts: Seq<SType>,
    body: SExpr,
    cenv: nat,
    r: SType,
) -> bool {
    &&& ctx_le(g, frame_ctx(st, sig, cenv))
    &&& infer(g.push(param_scope(params, pts)), body) == Ok::<SType, SError>(r)
}

/// Whether value `v` has type `t` in store `st` typed by `sig`.
pub open spec fn value_typed(st: Seq<SFrame>, sig: Seq<SScope>, v: SValue, t: SType) -> bool {
    match v {
        SValue::Int(_) => t == SType::Int,
        SValue::Bool(_) => t == SType::Bool,
        SValue::Str(_) => t == SType::Str,
        SValue::Closure { params, body, env } => match t {
            SType::Fn(pts, r) => {
                &&& params.len() == pts.len()
                &&& env < st.len()
                &&& exists|g: Seq<SScope>| #[trigger] closure_ok(st, sig, g, params, pts, body, env, *r)
            },
            _ => false,
        },
    }
}

/// Whether scope `e` binds, one for one, the names of `sig[e]` to values of
/// their types.
pub open spec fn scope_typed(st: Seq<SFrame>, sig: Seq<SScope>, e: int) -> bool {
    &&& st[e].vars.len() == sig[e].len()
    &&& forall|i: int|
        0 <= i < st[e].vars.len() ==> (#[trigger] st[e].vars[i]).0 == sig[e][i].0 && value_typed(
            st,
            sig,
            st[e].vars[i].1,
            sig[e][i].1,
        )
}

/// Whether `sig` types the store: one checker scope per scope, scope 0 is
/// the root, every other scope's parent is older, and every scope is typed.
pub open spec fn store_typed(st: Seq<SFrame>, sig: Seq<SScope>) -> bool {
    &&& st.len() == sig.len()
    &&& st.len() >= 1
    &&& st[0].parent is None
    &&& forall|e: int| 0 < e < st.len() ==> ((#[trigger] st[e]).parent matches Some(p) && p < e)
    &&& forall|e: int| 0 <= e < st.len() ==> #[trigger] scope_typed(st, sig, e)
}

/// Whether store `st2` typed by `sig2` only adds scopes to `st` typed by `sig`.
pub open spec fn grows(st: Seq<SFrame>, sig: Seq<SScope>, st2: Seq<SFrame>, sig2: Seq<SScope>) -> bool {
    &&& st.len() == sig.len()
    &&& st2.len() == sig2.len()
    &&& st.len() <= st2.len()
    &&& forall|e: int| #![trigger st2[e]] #![trigger sig2[e]] 0 <= e < st.len() ==> st2[e] == st[e] && sig2[e] == sig[e]
}

/// An error that only a zero divisor causes.
pub open spec fn zero_divisor_error(e: SError) -> bool {
    e == runtime_error("division by zero"@) || e == runtime_error("modulo by zero"@)
}

/// The runtime errors that a program that type-checks can still meet.
pub open spec fn allowed_error(err: SError) -> bool {
    zero_divisor_error(err) || err == runtime_error("recursion limit exceeded"@)
}

proof fn lemma_grows_trans(
    st: Seq<SFrame>,
    sig: Seq<SScope>,
    st1: Seq<SFrame>,
    sig1: Seq<SScope>,
    st2: Seq<SFrame>,
    sig2: Seq<SScope>,
)
    requires
        grows(st, sig, st1, sig1),
        grows(st1, sig1, st2, sig2),
    ensures
        grows(st, sig, st2, sig2),
{
    assert forall|e: int| 0 <= e < st.len() implies #[trigger] st2[e] == st[e] && sig2[e] == sig[e] by {
        assert(st1[e] == st[e] && sig1[e] == sig[e]);
    }
}

proof fn lemma_frame_ctx_grows(st: Seq<SFrame>, sig: Seq<SScope>, st2: Seq<SFrame>, sig2: Seq<SScope>, e: nat)
    requires
        grows(st, sig, st2, sig2),
        e < st.len(),
    ensures
        frame_ctx(st2, sig2, e) == frame_ctx(st, sig, e),
    decreases e,
{
    assert(st2[e as int] == st[e as int] && sig2[e as int] == sig[e as int]);
    if let Some(p) = st[e as int].parent {
        if p < e {
            lemma_frame_ctx_grows(st, sig, st2, sig2, p);
        }
    }
}

proof fn lemma_value_grows(st: Seq<SFrame>, sig: Seq<SScope>, st2: Seq<SFrame>, sig2: Seq<SScope>, v: SValue, t: SType)
    requires
        grows(st, sig, st2, sig2),
        value_typed(st, sig, v, t),
    ensures
        value_typed(st2, sig2, v, t),
{
    if let SValue::Closure { params, body, env } = v {
        if let SType::Fn(pts, r) = t {
            let g = choose|g: Seq<SScope>| #[trigger] closure_ok(st, sig, g, params, pts, body, env, *r);
            lemma_frame_ctx_grows(st, sig, st2, sig2, env);
            assert(closure_ok(st2, sig2, g, params, pts, body, env, *r));
        }
    }
}

proof fn lemma_scopes_grow(st: Seq<SFrame>, sig: Seq<SScope>, st2: Seq<SFrame>, sig2: Seq<SScope>)
    requires
        store_typed(st, sig),
        grows(st, sig, st2, sig2),
    ensures
        forall|e: int| 0 <= e < st.len() ==> #[trigger] scope_typed(st2, sig2, e),
{
    assert forall|e: int| 0 <= e < st.len() implies #[trigger] scope_typed(st2, sig2, e) by {
        assert(scope_typed(st, sig, e));
        assert(st2[e] == st[e] && sig2[e] == sig[e]);
        assert forall|i: int| 0 <= i < st2[e].vars.len() implies (#[trigger] st2[e].vars[i]).0 == sig2[e][i].0
            && value_typed(st2, sig2, st2[e].vars[i].1, sig2[e][i].1) by {
            assert(st[e].vars[i].0 == sig[e][i].0 && value_typed(st, sig, st[e].vars[i].1, sig[e][i].1));
            lemma_value_grows(st, sig, st2, sig2, st[e].vars[i].1, sig[e][i].1);
        }
    }
}

proof fn lemma_vars_lookup(st: Seq<SFrame>, sig: Seq<SScope>, vars: Seq<(Seq<char>, SValue)>, sc: SScope, n: Seq<char>)
    requires
        vars.len() == sc.len(),
        forall|i: int| 0 <= i < vars.len() ==> (#[trigger] vars[i]).0 == sc[i].0 && value_typed(st, sig, vars[i].1, sc[i].1),
    ensures
        vars_lookup(vars, n) is None <==> scope_lookup(sc, n) is None,
        vars_lookup(vars, n) matches Some(v) ==> value_typed(st, sig, v, scope_lookup(sc, n)->Some_0),
    decreases vars.len(),
{
    if vars.len() > 0 {
        let k = vars.len() - 1;
        assert(vars.last() == vars[k as int]);
        assert(sc.last() == sc[k as int]);
        if vars.last().0 != n {
            assert forall|i: int| 0 <= i < vars.drop_last().len() implies (#[trigger] vars.drop_last()[i]).0
                == sc.drop_last()[i].0 && value_typed(st, sig, vars.drop_last()[i].1, sc.drop_last()[i].1) by {
                assert(vars.drop_last()[i] == vars[i]);
                assert(sc.drop_last()[i] == sc[i]);
            }
            lemma_vars_lookup(st, sig, vars.drop_last(), sc.drop_last(), n);
        }
    }
}

/// Reading a name from scope `e` agrees with the checker scopes it sees.
proof fn lemma_store_lookup(st: Seq<SFrame>, sig: Seq<SScope>, e: nat, n: Seq<char>)
    requires
        store_typed(st, sig),
        e < st.len(),
    ensures
        store_get(st, e, n) is None <==> env_lookup(frame_ctx(st, sig, e), n) is None,
        store_get(st, e, n) matches Some(v) ==> value_typed(st, sig, v, env_lookup(frame_ctx(st, sig, e), n)->Some_0),
    decreases e,
{
    let ei = e as int;
    assert(scope_typed(st, sig, ei));
    lemma_vars_lookup(st, sig, st[ei].vars, sig[ei], n);
    let ctx = frame_ctx(st, sig, e);
    if e == 0 {
        assert(ctx == seq![sig[0]]);
        assert(ctx.drop_last() =~= Seq::<SScope>::empty());
        assert(ctx.last() == sig[0]);
        assert(store_get(st, e, n) == vars_lookup(st[ei].vars, n));
        assert(env_lookup(ctx.drop_last(), n) is None);
        assert(env_lookup(ctx, n) == scope_lookup(sig[ei], n));
    } else {
        assert(st[ei].parent matches Some(p) && p < e);
        let p = st[ei].parent->Some_0;
        assert(ctx == frame_ctx(st, sig, p).push(sig[ei]));
        assert(ctx.drop_last() =~= frame_ctx(st, sig, p));
        assert(ctx.last() == sig[ei]);
        lemma_store_lookup(st, sig, p, n);
        if vars_lookup(st[ei].vars, n) is None {
            assert(store_get(st, e, n) == store_get(st, p, n));
            assert(env_lookup(ctx, n) == env_lookup(frame_ctx(st, sig, p), n));
        } else {
            assert(store_get(st, e, n) == vars_lookup(st[ei].vars, n));
            assert(env_lookup(ctx, n) == scope_lookup(sig[ei], n));
        }
    }
}

proof fn lemma_ctx_le_push(g: Seq<SScope>, d: Seq<SScope>, sc: SScope)
    requires
        ctx_le(g, d),
    ensures
        ctx_le(g.push(sc), d.push(sc)),
{
    assert forall|n: Seq<char>| {
        &&& (#[trigger] env_lookup(g.push(sc), n)) is Some ==> env_lookup(d.push(sc), n) == env_lookup(g.push(sc), n)
        &&& is_builtin(n) && env_lookup(g.push(sc), n) is None ==> env_lookup(d.push(sc), n) is None
    } by {
        assert(g.push(sc).drop_last() =~= g);
        assert(d.push(sc).drop_last() =~= d);
        assert(g.push(sc).last() == sc);
        assert(d.push(sc).last() == sc);
        assert(env_lookup(g, n) is Some ==> env_lookup(d, n) == env_lookup(g, n));
    }
}

proof fn lemma_check_args(g: Seq<SScope>, args: Seq<SExpr>, ps: Seq<SType>, k: nat)
    requires
        check_args(g, args, ps, k) is Ok,
        args.len() == ps.len(),
    ensures
        forall|i: int| 0 <= i < args.len() ==> infer(g, #[trigger] args[i]) == Ok::<SType, SError>(ps[i]),
    decreases args.len(),
{
    if args.len() > 0 {
        lemma_check_args(g, args.drop_first(), ps.drop_first(), k + 1);
        assert forall|i: int| 0 <= i < args.len() implies infer(g, #[trigger] args[i]) == Ok::<SType, SError>(ps[i]) by {
            if i > 0 {
                assert(args.drop_first()[i - 1] == args[i]);
                assert(ps.drop_first()[i - 1] == ps[i]);
            }
        }
    }
}

/// Evaluating an expression that checks under scopes `g`, which scope `env`
/// lives up to, only adds scopes to a typed store and gives a value of the
/// inferred type, or an allowed error.
proof fn lemma_eval(s: SState, sig: Seq<SScope>, g: Seq<SScope>, env: nat, e: SExpr, fuel: nat) -> (sig2: Seq<SScope>)
    requires
        store_typed(s.st, sig),
        env < s.st.len(),
        ctx_le(g, frame_ctx(s.st, sig, env)),
        infer(g, e) is Ok,
    ensures
        store_typed(eval(s, env, e, fuel).0.st, sig2),
        grows(s.st, sig, eval(s, env, e, fuel).0.st, sig2),
        eval(s, env, e, fuel).1 matches Ok(v) ==> value_typed(eval(s, env, e, fuel).0.st, sig2, v, infer(g, e)->Ok_0),
        eval(s, env, e, fuel).1 matches Err(err) ==> allowed_error(err),
    decreases fuel, e, 1nat,
{
    match e {
        SExpr::Var(n) => {
            lemma_store_lookup(s.st, sig, env, n);
            sig
        },
        SExpr::Unary(op, x) => {
            lemma_eval(s, sig, g, env, *x, fuel)
        },
        SExpr::Binary(op, l, r) => {
            let sig1 = lemma_eval(s, sig, g, env, *l, fuel);
            let (s1, ra) = eval(s, env, *l, fuel);
            if ra is Ok {
                lemma_frame_ctx_grows(s.st, sig, s1.st, sig1, env);
                let sig2 = lemma_eval(s1, sig1, g, env, *r, fuel);
                let (s2, rb) = eval(s1, env, *r, fuel);
                lemma_grows_trans(s.st, sig, s1.st, sig1, s2.st, sig2);
                if rb is Ok {
                    lemma_value_grows(s1.st, sig1, s2.st, sig2, ra->Ok_0, infer(g, *l)->Ok_0);
                }
                sig2
            } else {
                sig1
            }
        },
        SExpr::If(c, t, f) => {
            let sig1 = lemma_eval(s, sig, g, env, *c, fuel);
            let (s1, rc) = eval(s, env, *c, fuel);
            if rc is Ok {
                lemma_frame_ctx_grows(s.st, sig, s1.st, sig1, env);
                if rc->Ok_0 == SValue::Bool(true) {
                    let sig2 = lemma_eval(s1, sig1, g, env, *t, fuel);
                    lemma_grows_trans(s.st, sig, s1.st, sig1, eval(s1, env, *t, fuel).0.st, sig2);
                    sig2
                } else {
                    let sig2 = lemma_eval(s1, sig1, g, env, *f, fuel);
                    lemma_grows_trans(s.st, sig, s1.st, sig1, eval(s1, env, *f, fuel).0.st, sig2);
                    sig2
                }
            } else {
                sig1
            }
        },
        SExpr::Lambda { params, ret, body } => {
            let bt = infer(g.push(params), *body)->Ok_0;
            assert(infer(g, e)->Ok_0 == SType::Fn(param_types(params), Box::new(bt)));
            assert(param_scope(param_names(params), param_types(params)) =~= params);
            assert(closure_ok(s.st, sig, g, param_names(params), param_types(params), *body, env, bt));
            lemma_closure_typed(s.st, sig, g, params, *body, env, bt);
            sig
        },
        SExpr::Call(..) => {
            lemma_call(s, sig, g, env, e, fuel)
        },
        _ => {
            sig
        },
    }
}

/// Evaluating a list of expressions that check to the types `ts` gives
/// values of those types, or an allowed error.
proof fn lemma_eval_list(
    s: SState,
    sig: Seq<SScope>,
    g: Seq<SScope>,
    env: nat,
    es: Seq<SExpr>,
    ts: Seq<SType>,
    fuel: nat,
) -> (sig2: Seq<SScope>)
    requires
        store_typed(s.st, sig),
        env < s.st.len(),
        ctx_le(g, frame_ctx(s.st, sig, env)),
        es.len() == ts.len(),
        forall|i: int| 0 <= i < es.len() ==> infer(g, #[trigger] es[i]) == Ok::<SType, SError>(ts[i]),
    ensures
        store_typed(eval_list(s, env, es, es.len(), fuel).0.st, sig2),
        grows(s.st, sig, eval_list(s, env, es, es.len(), fuel).0.st, sig2),
        eval_list(s, env, es, es.len(), fuel).1 matches Ok(vs) ==> {
            &&& vs.len() == es.len()
            &&& forall|i: int| 0 <= i < vs.len() ==> value_typed(eval_list(s, env, es, es.len(), fuel).0.st, sig2, #[trigger] vs[i], ts[i])
        },
        eval_list(s, env, es, es.len(), fuel).1 matches Err(err) ==> allowed_error(err),
    decreases fuel, es, 1nat,
{
    if es.len() == 0 {
        sig
    } else {
        assert(infer(g, es[0]) == Ok::<SType, SError>(ts[0]));
        let sig1 = lemma_eval(s, sig, g, env, es[0], fuel);
        let (s1, r) = eval(s, env, es[0], fuel);
        if r is Ok {
            lemma_frame_ctx_grows(s.st, sig, s1.st, sig1, env);
            let rest = es.drop_first();
            let rts = ts.drop_first();
            assert forall|i: int| 0 <= i < rest.len() implies infer(g, #[trigger] rest[i]) == Ok::<SType, SError>(rts[i]) by {
                assert(rest[i] == es[i + 1]);
                assert(rts[i] == ts[i + 1]);
                assert(infer(g, es[i + 1]) == Ok::<SType, SError>(ts[i + 1]));
            }
            let sig2 = lemma_eval_list(s1, sig1, g, env, rest, rts, fuel);
            let (s2, rs) = eval_list(s1, env, rest, rest.len(), fuel);
            assert(eval_list(s, env, es, es.len(), fuel) == (s2, match rs {
                Ok(vs) => Ok::<Seq<SValue>, SError>(seq![r->Ok_0] + vs),
                Err(err) => Err(err),
            }));
            lemma_grows_trans(s.st, sig, s1.st, sig1, s2.st, sig2);
            if rs is Ok {
                let v = r->Ok_0;
                lemma_value_grows(s1.st, sig1, s2.st, sig2, v, ts[0]);
                let vs = seq![v] + rs->Ok_0;
                assert forall|i: int| 0 <= i < vs.len() implies value_typed(s2.st, sig2, #[trigger] vs[i], ts[i]) by {
                    if i > 0 {
                        assert(vs[i] == (rs->Ok_0)[i - 1]);
                        assert(rts[i - 1] == ts[i]);
                    }
                }
            }
            sig2
        } else {
            sig1
        }
    }
}

/// The call case of `lemma_eval`.
proof fn lemma_call(s: SState, sig: Seq<SScope>, g: Seq<SScope>, env: nat, e: SExpr, fuel: nat) -> (sig2: Seq<SScope>)
    requires
        store_typed(s.st, sig),
        env < s.st.len(),
        ctx_le(g, frame_ctx(s.st, sig, env)),
        infer(g, e) is Ok,
        e is Call,
    ensures
        store_typed(eval(s, env, e, fuel).0.st, sig2),
        grows(s.st, sig, eval(s, env, e, fuel).0.st, sig2),
        eval(s, env, e, fuel).1 matches Ok(v) ==> value_typed(eval(s, env, e, fuel).0.st, sig2, v, infer(g, e)->Ok_0),
        eval(s, env, e, fuel).1 matches Err(err) ==> allowed_error(err),
    decreases fuel, e, 0nat,
{
    let callee = e->Call_0;
    let args = e->Call_1;
    let st = s.st;
    if let SExpr::Var(name) = *callee {
        lemma_store_lookup(st, sig, env, name);
        assert(env_lookup(g, name) is Some ==> env_lookup(frame_ctx(st, sig, env), name) == env_lookup(g, name));
    }
    if *callee matches SExpr::Var(name) && is_builtin(name) && env_lookup(g, name) is None {
        let name = callee->Var_0;
        assert(store_get(st, env, name) is None);
        assert(infer(g, e) == crate::types::builtin_type(g, name, args));
        assert(args.len() == 1);
        let t = infer(g, args[0])->Ok_0;
        let ts = seq![t];
        let sig1 = lemma_eval_list(s, sig, g, env, args, ts, fuel);
        sig1
    } else {
        let ct = infer(g, *callee)->Ok_0;
        let ps = ct->Fn_0;
        let r = ct->Fn_1;
        assert(args.len() == ps.len());
        lemma_check_args(g, args, ps, 0);
        let sig1 = lemma_eval(s, sig, g, env, *callee, fuel);
        let (s1, rc) = eval(s, env, *callee, fuel);
        if rc is Ok {
            let v = rc->Ok_0;
            assert(value_typed(s1.st, sig1, v, SType::Fn(ps, r)));
            let params = v->Closure_params;
            let body = v->Closure_body;
            let cenv = v->Closure_env;
            let gc = choose|gc: Seq<SScope>| #[trigger] closure_ok(s1.st, sig1, gc, params, ps, body, cenv, *r);
            lemma_frame_ctx_grows(st, sig, s1.st, sig1, env);
            let sig2 = lemma_eval_list(s1, sig1, g, env, args, ps, fuel);
            let (s2, rv) = eval_list(s1, env, args, args.len(), fuel);
            lemma_grows_trans(st, sig, s1.st, sig1, s2.st, sig2);
            if rv is Ok {
                let vals = rv->Ok_0;
                let psc = param_scope(params, ps);
                let call_env = s2.st.len();
                let st3 = push_call_frame(s2.st, cenv, params, vals);
                let sig3 = sig2.push(psc);
                assert(grows(s2.st, sig2, st3, sig3));
                lemma_scopes_grow(s2.st, sig2, st3, sig3);
                assert(scope_typed(st3, sig3, call_env as int)) by {
                    assert forall|i: int| 0 <= i < st3[call_env as int].vars.len() implies (#[trigger] st3[call_env as int].vars[i]).0
                        == sig3[call_env as int][i].0 && value_typed(st3, sig3, st3[call_env as int].vars[i].1, sig3[call_env as int][i].1) by {
                        lemma_value_grows(s2.st, sig2, st3, sig3, vals[i], ps[i]);
                    }
                }
                assert(store_typed(st3, sig3)) by {
                    assert forall|x: int| 0 < x < st3.len() implies ((#[trigger] st3[x]).parent matches Some(p) && p < x) by {
                        if x < s2.st.len() {
                            assert(st3[x] == s2.st[x]);
                        }
                    }
                    assert forall|x: int| 0 <= x < st3.len() implies #[trigger] scope_typed(st3, sig3, x) by {
                        if x < s2.st.len() {
                            assert(scope_typed(st3, sig3, x));
                        }
                    }
                }
                lemma_grows_trans(s1.st, sig1, s2.st, sig2, st3, sig3);
                lemma_frame_ctx_grows(s1.st, sig1, st3, sig3, cenv);
                assert(frame_ctx(st3, sig3, call_env) == frame_ctx(st3, sig3, cenv).push(psc));
                lemma_ctx_le_push(gc, frame_ctx(s1.st, sig1, cenv), psc);
                lemma_grows_trans(st, sig, s2.st, sig2, st3, sig3);
                let s3 = SState { st: st3, out: s2.out };
                if fuel == 0 {
                    sig3
                } else {
                    let sig4 = lemma_eval(s3, sig3, gc.push(psc), call_env, body, (fuel - 1) as nat);
                    lemma_grows_trans(st, sig, st3, sig3, eval(s3, call_env, body, (fuel - 1) as nat).0.st, sig4);
                    sig4
                }
            } else {
                sig2
            }
        } else {
            sig1
        }
    }
}

proof fn lemma_closure_typed(
    st: Seq<SFrame>,
    sig: Seq<SScope>,
    g: Seq<SScope>,
    params: Seq<(Seq<char>, SType)>,
    body: SExpr,
    cenv: nat,
    r: SType,
)
    requires
        closure_ok(st, sig, g, param_names(params), param_types(params), body, cenv, r),
        cenv < st.len(),
    ensures
        value_typed(
            st,
            sig,
            SValue::Closure { params: param_names(params), body, env: cenv },
            SType::Fn(param_types(params), Box::new(r)),
        ),
{
}

/// Whether the checker scope `sc` gives every name the type that the
/// scopes seen from `cur` give it.
pub open spec fn top_matches(st: Seq<SFrame>, sig: Seq<SScope>, cur: nat, sc: SScope) -> bool {
    &&& cur < st.len()
    &&& forall|n: Seq<char>| #[trigger] env_lookup(frame_ctx(st, sig, cur), n) == scope_lookup(sc, n)
}

proof fn lemma_top_ctx_le(st: Seq<SFrame>, sig: Seq<SScope>, cur: nat, sc: SScope)
    requires
        top_matches(st, sig, cur, sc),
    ensures
        ctx_le(seq![sc], frame_ctx(st, sig, cur)),
{
    let g = seq![sc];
    assert(g.drop_last() =~= Seq::<SScope>::empty());
    assert(g.last() == sc);
    assert forall|n: Seq<char>| {
        &&& (#[trigger] env_lookup(g, n)) is Some ==> env_lookup(frame_ctx(st, sig, cur), n) == env_lookup(g, n)
        &&& is_builtin(n) && env_lookup(g, n) is None ==> env_lookup(frame_ctx(st, sig, cur), n) is None
    } by {
        assert(env_lookup(g.drop_last(), n) is None);
        assert(env_lookup(g, n) == scope_lookup(sc, n));
        assert(env_lookup(frame_ctx(st, sig, cur), n) == scope_lookup(sc, n));
    }
}

proof fn lemma_top_grows(st: Seq<SFrame>, sig: Seq<SScope>, st2: Seq<SFrame>, sig2: Seq<SScope>, cur: nat, sc: SScope)
    requires
        top_matches(st, sig, cur, sc),
        grows(st, sig, st2, sig2),
    ensures
        top_matches(st2, sig2, cur, sc),
{
    lemma_frame_ctx_grows(st, sig, st2, sig2, cur);
}

/// A scope that binds `name: t` below scope `cur` matches `sc` with that
/// binding added.
proof fn lemma_top_push(
    st: Seq<SFrame>,
    sig: Seq<SScope>,
    cur: nat,
    sc: SScope,
    st2: Seq<SFrame>,
    sig2: Seq<SScope>,
    scope: nat,
    name: Seq<char>,
    t: SType,
)
    requires
        top_matches(st, sig, cur, sc),
        scope < st2.len(),
        frame_ctx(st2, sig2, scope) == frame_ctx(st, sig, cur).push(seq![(name, t)]),
    ensures
        top_matches(st2, sig2, scope, sc.push((name, t))),
{
    let b: SScope = seq![(name, t)];
    let ctx = frame_ctx(st, sig, cur);
    let sc2 = sc.push((name, t));
    assert(b.last() == (name, t));
    assert(b.drop_last() =~= Seq::<(Seq<char>, SType)>::empty());
    assert(sc2.last() == (name, t));
    assert(sc2.drop_last() =~= sc);
    assert(ctx.push(b).drop_last() =~= ctx);
    assert(ctx.push(b).last() == b);
    assert forall|n: Seq<char>| #[trigger] env_lookup(frame_ctx(st2, sig2, scope), n) == scope_lookup(sc2, n) by {
        assert(scope_lookup(b.drop_last(), n) is None);
        assert(env_lookup(ctx, n) == scope_lookup(sc, n));
    }
}

/// Adding a scope below `p` whose bindings have the types of `bsc` keeps the
/// store typed.
proof fn lemma_push_scope(st: Seq<SFrame>, sig: Seq<SScope>, p: nat, vars: Seq<(Seq<char>, SValue)>, bsc: SScope)
    requires
        store_typed(st, sig),
        p < st.len(),
        vars.len() == bsc.len(),
        forall|i: int| 0 <= i < vars.len() ==> (#[trigger] vars[i]).0 == bsc[i].0 && value_typed(
            st.push(SFrame { vars, parent: Some(p) }),
            sig.push(bsc),
            vars[i].1,
            bsc[i].1,
        ),
    ensures
        store_typed(st.push(SFrame { vars, parent: Some(p) }), sig.push(bsc)),
        grows(st, sig, st.push(SFrame { vars, parent: Some(p) }), sig.push(bsc)),
        frame_ctx(st.push(SFrame { vars, parent: Some(p) }), sig.push(bsc), st.len()) == frame_ctx(st, sig, p).push(bsc),
{
    let st2 = st.push(SFrame { vars, parent: Some(p) });
    let sig2 = sig.push(bsc);
    let f = st.len() as int;
    assert(grows(st, sig, st2, sig2));
    lemma_scopes_grow(st, sig, st2, sig2);
    assert(scope_typed(st2, sig2, f)) by {
        assert forall|i: int| 0 <= i < st2[f].vars.len() implies (#[trigger] st2[f].vars[i]).0 == sig2[f][i].0
            && value_typed(st2, sig2, st2[f].vars[i].1, sig2[f][i].1) by {
            assert(vars[i].0 == bsc[i].0);
        }
    }
    assert forall|x: int| 0 < x < st2.len() implies ((#[trigger] st2[x]).parent matches Some(q) && q < x) by {
        if x < st.len() {
            assert(st2[x] == st[x]);
        }
    }
    assert forall|x: int| 0 <= x < st2.len() implies #[trigger] scope_typed(st2, sig2, x) by {
        if x < st.len() {
            assert(scope_typed(st2, sig2, x));
        }
    }
    lemma_frame_ctx_grows(st, sig, st2, sig2, p);
    assert(frame_ctx(st2, sig2, st.len()) == frame_ctx(st2, sig2, p).push(bsc));
}

/// Scopes older than `k` see the same checker scopes when `k`'s changes.
proof fn lemma_frame_ctx_below(st: Seq<SFrame>, sig: Seq<SScope>, st2: Seq<SFrame>, sig2: Seq<SScope>, k: nat, e: nat)
    requires
        st2.len() == st.len(),
        sig2.len() == sig.len(),
        forall|i: int| 0 <= i < st.len() ==> (#[trigger] st2[i]).parent == st[i].parent,
        forall|i: int| 0 <= i < k ==> #[trigger] sig2[i] == sig[i],
        e < k,
    ensures
        frame_ctx(st2, sig2, e) == frame_ctx(st, sig, e),
    decreases e,
{
    if e < st.len() && e < sig.len() {
        assert(st2[e as int].parent == st[e as int].parent);
        assert(sig2[e as int] == sig[e as int]);
        if let Some(p) = st[e as int].parent {
            if p < e {
                lemma_frame_ctx_below(st, sig, st2, sig2, k, p);
            }
        }
    }
}

/// Adding `name: bt` to scope `k`, where `k` sees `name` unbound or bound to
/// `bt`, changes what a scope sees only for `name`, and only from unbound
/// to `bt` when `k` saw it unbound; `k` itself then sees `bt`.
proof fn lemma_define_ctx(
    st: Seq<SFrame>,
    sig: Seq<SScope>,
    st2: Seq<SFrame>,
    k: nat,
    name: Seq<char>,
    bt: SType,
    e: nat,
    n: Seq<char>,
)
    requires
        store_typed(st, sig),
        st2.len() == st.len(),
        forall|i: int| 0 <= i < st.len() ==> (#[trigger] st2[i]).parent == st[i].parent,
        k < st.len(),
        e < st.len(),
        env_lookup(frame_ctx(st, sig, k), name) is None || env_lookup(frame_ctx(st, sig, k), name) == Some(bt),
    ensures
        e == k ==> env_lookup(frame_ctx(st2, sig.update(k as int, sig[k as int].push((name, bt))), e), name) == Some(bt),
        ({
            let old_l = env_lookup(frame_ctx(st, sig, e), n);
            let new_l = env_lookup(frame_ctx(st2, sig.update(k as int, sig[k as int].push((name, bt))), e), n);
            new_l == old_l || (n == name && old_l is None && env_lookup(frame_ctx(st, sig, k), name) is None
                && new_l == Some(bt))
        }),
    decreases e,
{
    let sig2 = sig.update(k as int, sig[k as int].push((name, bt)));
    let ei = e as int;
    assert(st2[ei].parent == st[ei].parent);
    if e < k {
        assert forall|i: int| 0 <= i < k implies #[trigger] sig2[i] == sig[i] by {}
        lemma_frame_ctx_below(st, sig, st2, sig2, k, e);
    } else {
        let ctx = frame_ctx(st, sig, e);
        let ctx2 = frame_ctx(st2, sig2, e);
        let prev: Seq<SScope> = if e == 0 {
            Seq::empty()
        } else {
            frame_ctx(st, sig, st[ei].parent->Some_0)
        };
        let prev2: Seq<SScope> = if e == 0 {
            Seq::empty()
        } else {
            frame_ctx(st2, sig2, st[ei].parent->Some_0)
        };
        if e > 0 {
            assert(st[ei].parent matches Some(p) && p < e);
        }
        assert(ctx == prev.push(sig[ei]));
        assert(ctx2 == prev2.push(sig2[ei]));
        assert(ctx.drop_last() =~= prev);
        assert(ctx2.drop_last() =~= prev2);
        assert(ctx.last() == sig[ei]);
        assert(ctx2.last() == sig2[ei]);
        if e == 0 {
            assert(env_lookup(prev, n) is None);
            assert(env_lookup(prev2, n) is None);
            assert(env_lookup(prev, name) is None);
            assert(env_lookup(prev2, name) is None);
        }
        if e == k {
            let p = st[ei].parent;
            if e > 0 {
                assert forall|i: int| 0 <= i < k implies #[trigger] sig2[i] == sig[i] by {}
                lemma_frame_ctx_below(st, sig, st2, sig2, k, p->Some_0);
            }
            let r2 = sig[ei].push((name, bt));
            assert(sig2[ei] == r2);
            assert(r2.last() == (name, bt));
            assert(r2.drop_last() =~= sig[ei]);
            assert(env_lookup(prev2, n) == env_lookup(prev, n));
            assert(env_lookup(prev2, name) == env_lookup(prev, name));
        } else {
            assert(sig2[ei] == sig[ei]);
            let p = st[ei].parent->Some_0;
            lemma_define_ctx(st, sig, st2, k, name, bt, p, n);
        }
    }
}

/// Adding `name: bt` to scope `k` keeps a value's type, when `k` sees `name`
/// unbound (and it is not a builtin's name) or bound to `bt`.
proof fn lemma_value_define(
    st: Seq<SFrame>,
    sig: Seq<SScope>,
    st2: Seq<SFrame>,
    k: nat,
    name: Seq<char>,
    bt: SType,
    v: SValue,
    t: SType,
)
    requires
        store_typed(st, sig),
        st2.len() == st.len(),
        forall|i: int| 0 <= i < st.len() ==> (#[trigger] st2[i]).parent == st[i].parent,
        k < st.len(),
        env_lookup(frame_ctx(st, sig, k), name) is None || env_lookup(frame_ctx(st, sig, k), name) == Some(bt),
        env_lookup(frame_ctx(st, sig, k), name) is None ==> !is_builtin(name),
        value_typed(st, sig, v, t),
    ensures
        value_typed(st2, sig.update(k as int, sig[k as int].push((name, bt))), v, t),
{
    let sig2 = sig.update(k as int, sig[k as int].push((name, bt)));
    if let SValue::Closure { params, body, env } = v {
        if let SType::Fn(pts, r) = t {
            let g = choose|g: Seq<SScope>| #[trigger] closure_ok(st, sig, g, params, pts, body, env, *r);
            let d = frame_ctx(st, sig, env);
            let d2 = frame_ctx(st2, sig2, env);
            assert forall|n: Seq<char>| {
                &&& (#[trigger] env_lookup(g, n)) is Some ==> env_lookup(d2, n) == env_lookup(g, n)
                &&& is_builtin(n) && env_lookup(g, n) is None ==> env_lookup(d2, n) is None
            } by {
                lemma_define_ctx(st, sig, st2, k, name, bt, env, n);
            }
            assert(closure_ok(st2, sig2, g, params, pts, body, env, *r));
        }
    }
}

/// Adding `name` bound to a value of type `bt` to scope `k` keeps the store
/// typed, when `k` sees `name` unbound (and it is not a builtin's name) or
/// bound to `bt`.
proof fn lemma_define_store(st: Seq<SFrame>, sig: Seq<SScope>, k: nat, name: Seq<char>, bt: SType, v: SValue)
    requires
        store_typed(st, sig),
        k < st.len(),
        env_lookup(frame_ctx(st, sig, k), name) is None || env_lookup(frame_ctx(st, sig, k), name) == Some(bt),
        env_lookup(frame_ctx(st, sig, k), name) is None ==> !is_builtin(name),
        value_typed(store_define(st, k, name, v), sig.update(k as int, sig[k as int].push((name, bt))), v, bt),
    ensures
        store_typed(store_define(st, k, name, v), sig.update(k as int, sig[k as int].push((name, bt)))),
{
    let st2 = store_define(st, k, name, v);
    let sig2 = sig.update(k as int, sig[k as int].push((name, bt)));
    assert forall|i: int| 0 <= i < st.len() implies (#[trigger] st2[i]).parent == st[i].parent by {}
    assert forall|e: int| 0 < e < st2.len() implies ((#[trigger] st2[e]).parent matches Some(p) && p < e) by {
        assert(st2[e].parent == st[e].parent);
    }
    assert forall|e: int| 0 <= e < st2.len() implies #[trigger] scope_typed(st2, sig2, e) by {
        assert(scope_typed(st, sig, e));
        if e == k {
            assert forall|i: int| 0 <= i < st2[e].vars.len() implies (#[trigger] st2[e].vars[i]).0 == sig2[e][i].0
                && value_typed(st2, sig2, st2[e].vars[i].1, sig2[e][i].1) by {
                if i < st[e].vars.len() {
                    assert(st2[e].vars[i] == st[e].vars[i]);
                    assert(sig2[e][i] == sig[e][i]);
                    lemma_value_define(st, sig, st2, k, name, bt, st[e].vars[i].1, sig[e][i].1);
                }
            }
        } else {
            assert(st2[e] == st[e]);
            assert(sig2[e] == sig[e]);
            assert forall|i: int| 0 <= i < st2[e].vars.len() implies (#[trigger] st2[e].vars[i]).0 == sig2[e][i].0
                && value_typed(st2, sig2, st2[e].vars[i].1, sig2[e][i].1) by {
                lemma_value_define(st, sig, st2, k, name, bt, st[e].vars[i].1, sig[e][i].1);
            }
        }
    }
}

/// The scope whose binding of `name` scope `e` sees is found exactly when
/// `e` sees a binding, and sees the same type.
proof fn lemma_home(st: Seq<SFrame>, sig: Seq<SScope>, e: nat, name: Seq<char>)
    requires
        store_typed(st, sig),
        e < st.len(),
    ensures
        store_home(st, e, name) is None <==> env_lookup(frame_ctx(st, sig, e), name) is None,
        store_home(st, e, name) matches Some(h) ==> h < st.len() && env_lookup(frame_ctx(st, sig, h), name)
            == env_lookup(frame_ctx(st, sig, e), name),
    decreases e,
{
    let ei = e as int;
    assert(scope_typed(st, sig, ei));
    lemma_vars_lookup(st, sig, st[ei].vars, sig[ei], name);
    let ctx = frame_ctx(st, sig, e);
    if e == 0 {
        assert(ctx == seq![sig[0]]);
        assert(ctx.drop_last() =~= Seq::<SScope>::empty());
        assert(ctx.last() == sig[0]);
        assert(env_lookup(ctx.drop_last(), name) is None);
    } else {
        assert(st[ei].parent matches Some(p) && p < e);
        let p = st[ei].parent->Some_0;
        assert(ctx == frame_ctx(st, sig, p).push(sig[ei]));
        assert(ctx.drop_last() =~= frame_ctx(st, sig, p));
        assert(ctx.last() == sig[ei]);
        lemma_home(st, sig, p, name);
    }
}

proof fn lemma_stmts(s: SState, sig: Seq<SScope>, cur: nat, sc: SScope, prog: Seq<SStmt>, last: SValue, fuel: nat)
    requires
        store_typed(s.st, sig),
        top_matches(s.st, sig, cur, sc),
        check_stmts(seq![sc], prog) is Ok,
    ensures
        run_stmts(s, cur, Some(seq![sc]), prog, last, fuel).1 matches Err(err) ==> allowed_error(err),
    decreases prog.len(),
{
    if prog.len() > 0 {
        let scs = seq![sc];
        lemma_top_ctx_le(s.st, sig, cur, sc);
        assert(check_stmt(scs, prog[0]) is Ok);
        let scs1 = check_stmt(scs, prog[0])->Ok_0;
        assert(check_stmts(scs1, prog.drop_first()) is Ok);
        let opens = opens_scope(scs, scs1, prog[0]);
        assert(scs.drop_last() =~= Seq::<SScope>::empty());
        assert(scs.last() == sc);
        match prog[0] {
            SStmt::Let { name, rec, ty, value } => {
                let bt = if rec {
                    SType::Fn(param_types(value->Lambda_params), Box::new(value->Lambda_ret->Some_0))
                } else {
                    match ty {
                        Some(ann) => ann,
                        None => infer(scs, value)->Ok_0,
                    }
                };
                assert(scs1 == env_define(scs, name, bt));
                let sc1 = sc.push((name, bt));
                assert(scs1 =~= seq![sc1]);
                assert(scs1.drop_last() =~= Seq::<SScope>::empty());
                assert(scs1.last() == sc1);
                assert(sc1.last() == (name, bt));
                assert(sc1.drop_last() =~= sc);
                assert(env_lookup(scs.drop_last(), name) is None);
                assert(env_lookup(scs1.drop_last(), name) is None);
                assert(env_lookup(scs, name) == scope_lookup(sc, name));
                assert(env_lookup(scs1, name) == Some(bt));
                assert(env_lookup(frame_ctx(s.st, sig, cur), name) == scope_lookup(sc, name));
                if opens && rec {
                    let params = value->Lambda_params;
                    let r = value->Lambda_ret->Some_0;
                    let body = value->Lambda_body;
                    let scope = s.st.len();
                    let st0 = store_push(s.st, Some(cur));
                    let v = SValue::Closure { params: param_names(params), body: *body, env: scope };
                    assert(eval(SState { st: st0, out: s.out }, scope, value, fuel) == (
                        SState { st: st0, out: s.out },
                        Ok::<SValue, SError>(v),
                    ));
                    let vars = seq![(name, v)];
                    let bsc: SScope = seq![(name, bt)];
                    let st2 = s.st.push(SFrame { vars, parent: Some(cur) });
                    assert(store_define(st0, scope, name, v) =~= st2);
                    let sig2 = sig.push(bsc);
                    assert(grows(s.st, sig, st2, sig2));
                    lemma_frame_ctx_grows(s.st, sig, st2, sig2, cur);
                    assert(frame_ctx(st2, sig2, scope) == frame_ctx(st2, sig2, cur).push(bsc));
                    lemma_top_push(s.st, sig, cur, sc, st2, sig2, scope, name, bt);
                    lemma_top_ctx_le(st2, sig2, scope, sc1);
                    assert(param_scope(param_names(params), param_types(params)) =~= params);
                    assert(closure_ok(st2, sig2, scs1, param_names(params), param_types(params), *body, scope, r));
                    lemma_closure_typed(st2, sig2, scs1, params, *body, scope, r);
                    lemma_push_scope(s.st, sig, cur, vars, bsc);
                    lemma_stmts(SState { st: st2, out: s.out }, sig2, scope, sc1, prog.drop_first(), v, fuel);
                } else {
                    let sig1 = if rec {
                        sig
                    } else {
                        lemma_eval(s, sig, scs, cur, value, fuel)
                    };
                    let (s1, rv) = eval(s, cur, value, fuel);
                    if rec {
                        assert(s1 == s);
                    }
                    if rv is Ok {
                        let v = rv->Ok_0;
                        assert(grows(s.st, sig, s1.st, sig1));
                        lemma_top_grows(s.st, sig, s1.st, sig1, cur, sc);
                        if opens {
                            let scope = s1.st.len();
                            let vars = seq![(name, v)];
                            let bsc: SScope = seq![(name, bt)];
                            let st2 = s1.st.push(SFrame { vars, parent: Some(cur) });
                            assert(store_define(store_push(s1.st, Some(cur)), scope, name, v) =~= st2);
                            let sig2 = sig1.push(bsc);
                            assert(grows(s1.st, sig1, st2, sig2));
                            lemma_value_grows(s1.st, sig1, st2, sig2, v, bt);
                            lemma_push_scope(s1.st, sig1, cur, vars, bsc);
                            lemma_frame_ctx_grows(s1.st, sig1, st2, sig2, cur);
                            lemma_top_push(s1.st, sig1, cur, sc, st2, sig2, scope, name, bt);
                            lemma_stmts(SState { st: st2, out: s1.out }, sig2, scope, sc1, prog.drop_first(), v, fuel);
                        } else {
                            let h = bind_target(s1.st, cur, name);
                            lemma_home(s1.st, sig1, cur, name);
                            let hl = env_lookup(frame_ctx(s1.st, sig1, h), name);
                            assert(hl == scope_lookup(sc, name));
                            assert(hl is None || hl == Some(bt));
                            assert(hl is None ==> !is_builtin(name));
                            assert(hl is None ==> h == cur);
                            let st2 = store_define(s1.st, h, name, v);
                            let sig2 = sig1.update(h as int, sig1[h as int].push((name, bt)));
                            assert forall|i: int| 0 <= i < s1.st.len() implies (#[trigger] st2[i]).parent == s1.st[i].parent by {}
                            assert forall|n: Seq<char>| #[trigger] env_lookup(frame_ctx(st2, sig2, cur), n) == scope_lookup(sc1, n) by {
                                lemma_define_ctx(s1.st, sig1, st2, h, name, bt, cur, n);
                                lemma_define_ctx(s1.st, sig1, st2, h, name, bt, cur, name);
                                assert(sc1.drop_last() =~= sc);
                            }
                            assert(top_matches(st2, sig2, cur, sc1));
                            if rec {
                                let params = value->Lambda_params;
                                let r = value->Lambda_ret->Some_0;
                                let body = value->Lambda_body;
                                assert(v == SValue::Closure { params: param_names(params), body: *body, env: cur });
                                lemma_top_ctx_le(st2, sig2, cur, sc1);
                                assert(param_scope(param_names(params), param_types(params)) =~= params);
                                assert(closure_ok(st2, sig2, scs1, param_names(params), param_types(params), *body, cur, r));
                                lemma_closure_typed(st2, sig2, scs1, params, *body, cur, r);
                            } else {
                                lemma_value_define(s1.st, sig1, st2, h, name, bt, v, bt);
                            }
                            lemma_define_store(s1.st, sig1, h, name, bt, v);
                            lemma_stmts(SState { st: st2, out: s1.out }, sig2, cur, sc1, prog.drop_first(), v, fuel);
                        }
                    }
                }
            },
            SStmt::Expr(e) => {
                let sig1 = lemma_eval(s, sig, scs, cur, e, fuel);
                let (s1, rv) = eval(s, cur, e, fuel);
                if rv is Ok {
                    lemma_top_grows(s.st, sig, s1.st, sig1, cur, sc);
                    assert(scs1 == scs);
                    lemma_stmts(s1, sig1, cur, sc, prog.drop_first(), rv->Ok_0, fuel);
                }
            },
        }
    }
}

/// A program that type-checks runs to a value, or stops on a division or
/// modulo by zero, or when calls nest deeper than `CALL_DEPTH_LIMIT`: no
/// other runtime error is reached.
pub proof fn law_checked_programs_fail_only_on_zero_divisors_or_call_depth(prog: Seq<SStmt>)
    requires
        check_spec(prog) is Ok,
    ensures
        run_spec(prog).1 matches Err(err) ==> zero_divisor_error(err) || err == runtime_error(
            "recursion limit exceeded"@,
        ),
{
    let st = store_push(Seq::empty(), None);
    let sig: Seq<SScope> = seq![Seq::empty()];
    let sc: SScope = Seq::empty();
    assert(scope_typed(st, sig, 0));
    assert(store_typed(st, sig));
    assert(frame_ctx(st, sig, 0) == seq![sc]);
    assert(seq![sc].drop_last() =~= Seq::<SScope>::empty());
    assert forall|n: Seq<char>| #[trigger] env_lookup(frame_ctx(st, sig, 0), n) == scope_lookup(sc, n) by {
        assert(env_lookup(seq![sc].drop_last(), n) is None);
    }
    assert(seq![sc] =~= seq![Seq::<(Seq<char>, SType)>::empty()]);
    lemma_stmts(
        SState { st, out: Seq::empty() },
        sig,
        0,
        sc,
        prog,
        SValue::Int(0),
        crate::interpreter::CALL_DEPTH_LIMIT as nat,
    );
}

/// The same for source text: when `typecheck` accepts a program, `run`
/// gives a value, or stops on a division or modulo by zero or on the
/// call-depth limit; in particular it never meets a lexing, parsing or type
/// error once the program is accepted.
pub proof fn law_accepted_source_fails_only_on_zero_divisors_or_call_depth(src: Seq<char>)
    requires
        typecheck_spec(src) is Ok,
    ensures
        run_spec_of(src) matches Err(err) ==> zero_divisor_error(err) || err == runtime_error(
            "recursion limit exceeded"@,
        ),
        run_spec_of(src) matches Err(err) ==> err is Runtime,
{
    law_checked_programs_fail_only_on_zero_divisors_or_call_depth(program_of(src)->Ok_0);
}

} // verus!
