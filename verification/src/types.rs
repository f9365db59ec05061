//! Static type checker with inference. Every program is fully checked before it
//! runs, so a type error is reported without executing a single expression.
//!
//! The model: a stack of scopes, each a list of bindings in the order they
//! were made (a later binding of a name hides an earlier one); `infer`
//! gives an expression's type or the type error, and `check_stmts` threads
//! the scopes through the statements.
use vstd::prelude::*;
use crate::ast::{BinOp, Expr, Program, SExpr, SStmt, SType, Stmt, Type, UnOp, copy_type, params_view, program_view, type_eq, type_text};
use crate::ast::{exprs_view, lemma_exprs_view, lemma_types_view, types_view};
use crate::error::{Error, SError};
use crate::text::{nat_text, spells_string, uint_to_string};

verus! {

/// Model of one scope: its bindings, oldest first.
pub type SScope = Seq<(Seq<char>, SType)>;

/// The newest binding of `name` in one scope.
pub open spec fn scope_lookup(sc: SScope, name: Seq<char>) -> Option<SType>
    decreases sc.len(),
{
    if sc.len() == 0 {
        None
    } else if sc.last().0 == name {
        Some(sc.last().1)
    } else {
        scope_lookup(sc.drop_last(), name)
    }
}

/// The type of `name` in the innermost scope that binds it.
pub open spec fn env_lookup(scs: Seq<SScope>, name: Seq<char>) -> Option<SType>
    decreases scs.len(),
{
    if scs.len() == 0 {
        None
    } else {
        match scope_lookup(scs.last(), name) {
            Some(t) => Some(t),
            None => env_lookup(scs.drop_last(), name),
        }
    }
}

/// Binds `name` to `t` in the innermost scope.
pub open spec fn env_define(scs: Seq<SScope>, name: Seq<char>, t: SType) -> Seq<SScope> {
    scs.update(scs.len() - 1, scs.last().push((name, t)))
}

pub open spec fn type_error(msg: Seq<char>) -> SError {
    SError::Type(msg)
}

/// `Ok` when `actual` is `expected`, else the mismatch error for context `ctx`.
pub open spec fn unify(actual: SType, expected: SType, ctx: Seq<char>) -> Result<(), SError> {
    if actual == expected {
        Ok(())
    } else {
        Err(type_error(ctx + ": expected "@ + type_text(expected) + ", found "@ + type_text(actual)))
    }
}

/// Whether `name` is a builtin (`print`, `len`, `str`).
pub open spec fn is_builtin(name: Seq<char>) -> bool {
    name == "print"@ || name == "len"@ || name == "str"@
}

/// The parameter types of a parameter list.
pub open spec fn param_types(ps: Seq<(Seq<char>, SType)>) -> Seq<SType> {
    ps.map_values(|p: (Seq<char>, SType)| p.1)
}

/// The type of a binary operation on operands of types `lt` and `rt`.
pub open spec fn binary_type(op: BinOp, lt: SType, rt: SType) -> Result<SType, SError> {
    match op {
        BinOp::Add | BinOp::Sub | BinOp::Mul | BinOp::Div | BinOp::Mod => {
            if lt != SType::Int {
                Err(unify(lt, SType::Int, "arithmetic operator"@)->Err_0)
            } else if rt != SType::Int {
                Err(unify(rt, SType::Int, "arithmetic operator"@)->Err_0)
            } else {
                Ok(SType::Int)
            }
        },
        BinOp::Concat => {
            if lt != SType::Str {
                Err(unify(lt, SType::Str, "operator '++'"@)->Err_0)
            } else if rt != SType::Str {
                Err(unify(rt, SType::Str, "operator '++'"@)->Err_0)
            } else {
                Ok(SType::Str)
            }
        },
        BinOp::Lt | BinOp::Le | BinOp::Gt | BinOp::Ge => {
            if lt != SType::Int {
                Err(unify(lt, SType::Int, "comparison operator"@)->Err_0)
            } else if rt != SType::Int {
                Err(unify(rt, SType::Int, "comparison operator"@)->Err_0)
            } else {
                Ok(SType::Bool)
            }
        },
        BinOp::Eq | BinOp::Ne => {
            if lt is Fn {
                Err(type_error("cannot compare functions"@))
            } else if rt != lt {
                Err(unify(rt, lt, "operands of '==' / '!='"@)->Err_0)
            } else {
                Ok(SType::Bool)
            }
        },
        BinOp::And | BinOp::Or => {
            if lt != SType::Bool {
                Err(unify(lt, SType::Bool, "boolean operator"@)->Err_0)
            } else if rt != SType::Bool {
                Err(unify(rt, SType::Bool, "boolean operator"@)->Err_0)
            } else {
                Ok(SType::Bool)
            }
        },
    }
}

/// The type of an expression under the scopes `scs`, or the first type error.
pub open spec fn infer(scs: Seq<SScope>, e: SExpr) -> Result<SType, SError>
    decreases e,
{
    match e {
        SExpr::Int(_) => Ok(SType::Int),
        SExpr::Bool(_) => Ok(SType::Bool),
        SExpr::Str(_) => Ok(SType::Str),
        SExpr::Var(name) => match env_lookup(scs, name) {
            Some(t) => Ok(t),
            None => Err(type_error("undefined variable '"@ + name + "'"@)),
        },
        SExpr::Unary(op, x) => match infer(scs, *x) {
            Ok(t) => match op {
                UnOp::Not => if t == SType::Bool {
                    Ok(SType::Bool)
                } else {
                    Err(unify(t, SType::Bool, "operator '!'"@)->Err_0)
                },
                UnOp::Neg => if t == SType::Int {
                    Ok(SType::Int)
                } else {
                    Err(unify(t, SType::Int, "unary '-'"@)->Err_0)
                },
            },
            Err(err) => Err(err),
        },
        SExpr::Binary(op, l, r) => match infer(scs, *l) {
            Ok(lt) => match infer(scs, *r) {
                Ok(rt) => binary_type(op, lt, rt),
                Err(err) => Err(err),
            },
            Err(err) => Err(err),
        },
        SExpr::If(c, t, f) => match infer(scs, *c) {
            Ok(ct) => if ct != SType::Bool {
                Err(unify(ct, SType::Bool, "if condition"@)->Err_0)
            } else {
                match infer(scs, *t) {
                    Ok(tt) => match infer(scs, *f) {
                        Ok(et) => if tt != et {
                            Err(
                                type_error(
                                    "if branches disagree: then is "@ + type_text(tt) + ", else is "@
                                        + type_text(et),
                                ),
                            )
                        } else {
                            Ok(tt)
                        },
                        Err(err) => Err(err),
                    },
                    Err(err) => Err(err),
                }
            },
            Err(err) => Err(err),
        },
        SExpr::Lambda { params, ret, body } => match infer(scs.push(params), *body) {
            Ok(bt) => match ret {
                Some(r) => if bt != r {
                    Err(unify(bt, r, "function body"@)->Err_0)
                } else {
                    Ok(SType::Fn(param_types(params), Box::new(r)))
                },
                None => Ok(SType::Fn(param_types(params), Box::new(bt))),
            },
            Err(err) => Err(err),
        },
        SExpr::Call(callee, args) => {
            if *callee matches SExpr::Var(name) && is_builtin(name) && env_lookup(scs, name) is None {
                builtin_type(scs, callee->Var_0, args)
            } else {
                match infer(scs, *callee) {
                    Ok(ct) => match ct {
                        SType::Fn(ps, r) => if args.len() != ps.len() {
                            Err(
                                type_error(
                                    "function expects "@ + nat_text(ps.len()) + " argument(s), got "@
                                        + nat_text(args.len()),
                                ),
                            )
                        } else {
                            match check_args(scs, args, ps, 0) {
                                Ok(_) => Ok(*r),
                                Err(err) => Err(err),
                            }
                        },
                        other => Err(type_error("cannot call a value of type "@ + type_text(other))),
                    },
                    Err(err) => Err(err),
                }
            }
        },
    }
}

/// Checks each argument against the parameter type at the same place;
/// `k` is how many arguments came before.
pub open spec fn check_args(scs: Seq<SScope>, args: Seq<SExpr>, ps: Seq<SType>, k: nat) -> Result<
    (),
    SError,
>
    decreases args,
{
    if args.len() == 0 || ps.len() == 0 {
        Ok(())
    } else {
        match infer(scs, args[0]) {
            Ok(at) => if at != ps[0] {
                unify(at, ps[0], "argument "@ + nat_text(k + 1))
            } else {
                check_args(scs, args.drop_first(), ps.drop_first(), k + 1)
            },
            Err(err) => Err(err),
        }
    }
}

/// The type of a call of the builtin `name` (`print`, `len` or `str`).
pub open spec fn builtin_type(scs: Seq<SScope>, name: Seq<char>, args: Seq<SExpr>) -> Result<
    SType,
    SError,
>
    decreases args,
{
    if args.len() != 1 {
        Err(type_error(name + " takes exactly one argument"@))
    } else {
        match infer(scs, args[0]) {
            Ok(t) => if name == "print"@ {
                if t is Fn {
                    Err(type_error("cannot print a function"@))
                } else {
                    Ok(t)
                }
            } else if name == "len"@ {
                if t != SType::Str {
                    Err(unify(t, SType::Str, "len"@)->Err_0)
                } else {
                    Ok(SType::Int)
                }
            } else {
                if t is Int || t is Bool {
                    Ok(SType::Str)
                } else {
                    Err(type_error("str expects Int or Bool, found "@ + type_text(t)))
                }
            },
            Err(err) => Err(err),
        }
    }
}

/// Checks one statement: the scopes after it, or the type error.
pub open spec fn check_stmt(scs: Seq<SScope>, s: SStmt) -> Result<Seq<SScope>, SError> {
    match s {
        SStmt::Let { name, rec, ty, value } => {
            let ctx = "binding '"@ + name + "'"@;
            if rec {
                if let SExpr::Lambda { params, ret: Some(r), .. } = value {
                    let fn_ty = SType::Fn(param_types(params), Box::new(r));
                    let scs1 = env_define(scs, name, fn_ty);
                    match infer(scs1, value) {
                        Ok(inferred) => if inferred != fn_ty {
                            Err(
                                type_error(
                                    "recursive binding '"@ + name + "' declared "@ + type_text(fn_ty)
                                        + " but body has type "@ + type_text(inferred),
                                ),
                            )
                        } else {
                            match ty {
                                Some(ann) => match unify(inferred, ann, ctx) {
                                    Ok(_) => Ok(scs1),
                                    Err(err) => Err(err),
                                },
                                None => Ok(scs1),
                            }
                        },
                        Err(err) => Err(err),
                    }
                } else {
                    Err(
                        type_error(
                            "recursive binding '"@ + name
                                + "' must be a function with a declared return type"@,
                        ),
                    )
                }
            } else {
                match infer(scs, value) {
                    Ok(inferred) => match ty {
                        Some(ann) => match unify(inferred, ann, ctx) {
                            Ok(_) => Ok(env_define(scs, name, ann)),
                            Err(err) => Err(err),
                        },
                        None => Ok(env_define(scs, name, inferred)),
                    },
                    Err(err) => Err(err),
                }
            }
        },
        SStmt::Expr(e) => match infer(scs, e) {
            Ok(_) => Ok(scs),
            Err(err) => Err(err),
        },
    }
}

/// Checks the statements in order, threading the scopes.
pub open spec fn check_stmts(scs: Seq<SScope>, prog: Seq<SStmt>) -> Result<Seq<SScope>, SError>
    decreases prog.len(),
{
    if prog.len() == 0 {
        Ok(scs)
    } else {
        match check_stmt(scs, prog[0]) {
            Ok(scs1) => check_stmts(scs1, prog.drop_first()),
            Err(err) => Err(err),
        }
    }
}

/// Whether the top-level statement `s`, checked from scopes `scs` to
/// `scs1`, gives a name a type other than the one it had, or first binds a
/// builtin's name. Such a `let` gets a scope of its own when the program
/// runs, so that functions made before it keep the binding they were
/// checked against.
pub open spec fn opens_scope(scs: Seq<SScope>, scs1: Seq<SScope>, s: SStmt) -> bool {
    match s {
        SStmt::Let { name, .. } => {
            ||| env_lookup(scs, name) is None && is_builtin(name)
            ||| env_lookup(scs, name) is Some && env_lookup(scs1, name) != env_lookup(scs, name)
        },
        SStmt::Expr(_) => false,
    }
}

/// Whether a program type-checks: `Ok` or its first type error.
pub open spec fn check_spec(prog: Seq<SStmt>) -> Result<(), SError> {
    match check_stmts(seq![Seq::empty()], prog) {
        Ok(_) => Ok(()),
        Err(err) => Err(err),
    }
}


/// The checker's state: a stack of scopes, innermost last.
pub struct Checker {
    scopes: Vec<Vec<(String, Type)>>,
}

pub open spec fn scopes_view(v: Seq<Vec<(String, Type)>>) -> Seq<SScope> {
    Seq::new(v.len(), |i: int| params_view(v[i]@))
}

pub open spec fn type_result(r: Result<Type, Error>) -> Result<SType, SError> {
    match r {
        Ok(t) => Ok(t@),
        Err(e) => Err(e@),
    }
}

pub open spec fn unit_result(r: Result<(), Error>) -> Result<(), SError> {
    match r {
        Ok(_) => Ok(()),
        Err(e) => Err(e@),
    }
}

/// Whether `name` is one of the builtins `print`, `len`, `str`.
pub fn builtin_name(name: &String) -> (b: bool)
    ensures
        b == is_builtin(name@),
{
    spells_string(name, "print") || spells_string(name, "len") || spells_string(name, "str")
}

fn type_error_of(msg: String) -> (e: Error)
    ensures
        e@ == type_error(msg@),
{
    Error::Type(msg)
}

/// The newest binding of `name` in one scope.
fn scope_get(sc: &Vec<(String, Type)>, name: &String) -> (r: Option<Type>)
    ensures
        match r {
            Some(t) => scope_lookup(params_view(sc@), name@) == Some(t@),
            None => scope_lookup(params_view(sc@), name@) is None,
        },
{
    let ghost v = params_view(sc@);
    let mut j = sc.len();
    assert(v.take(j as int) =~= v);
    while j > 0
        invariant
            j <= sc.len(),
            v == params_view(sc@),
            scope_lookup(v, name@) == scope_lookup(v.take(j as int), name@),
        decreases j,
    {
        let ghost t = v.take(j as int);
        assert(t.drop_last() =~= v.take(j - 1));
        if sc[j - 1].0 == *name {
            return Some(copy_type(&sc[j - 1].1));
        }
        j = j - 1;
    }
    assert(v.take(0) =~= Seq::<(Seq<char>, SType)>::empty());
    None
}

impl Checker {
    pub closed spec fn view_scopes(&self) -> Seq<SScope> {
        scopes_view(self.scopes@)
    }

    fn lookup(&self, name: &String) -> (r: Option<Type>)
        ensures
            match r {
                Some(t) => env_lookup(self.view_scopes(), name@) == Some(t@),
                None => env_lookup(self.view_scopes(), name@) is None,
            },
    {
        let ghost v = self.view_scopes();
        let mut i = self.scopes.len();
        assert(v.take(i as int) =~= v);
        while i > 0
            invariant
                i <= self.scopes.len(),
                v == self.view_scopes(),
                env_lookup(v, name@) == env_lookup(v.take(i as int), name@),
            decreases i,
        {
            let ghost t = v.take(i as int);
            assert(t.drop_last() =~= v.take(i - 1));
            assert(t.last() == params_view(self.scopes@[i - 1]@));
            match scope_get(&self.scopes[i - 1], name) {
                Some(ty) => {
                    return Some(ty);
                },
                None => {},
            }
            i = i - 1;
        }
        assert(v.take(0) =~= Seq::<SScope>::empty());
        None
    }

    fn define(&mut self, name: &String, t: Type)
        requires
            old(self).scopes.len() > 0,
        ensures
            final(self).view_scopes() == env_define(old(self).view_scopes(), name@, t@),
            final(self).scopes.len() == old(self).scopes.len(),
    {
        let ghost v = self.view_scopes();
        let mut sc = self.scopes.pop().unwrap();
        let ghost sv = params_view(sc@);
        sc.push((name.clone(), t));
        assert(params_view(sc@) =~= sv.push((name@, t@)));
        self.scopes.push(sc);
        assert(self.view_scopes() =~= env_define(v, name@, t@));
    }

    fn unify(&self, actual: &Type, expected: &Type, ctx: &str) -> (r: Result<(), Error>)
        ensures
            unit_result(r) == unify(actual@, expected@, ctx@),
    {
        if type_eq(actual, expected) {
            Ok(())
        } else {
            let mut msg = String::from_str(ctx);
            msg.append(": expected ");
            let et = expected.display();
            msg.append(et.as_str());
            msg.append(", found ");
            let at = actual.display();
            msg.append(at.as_str());
            Err(Error::Type(msg))
        }
    }
}

impl Checker {
    /// The type of `e`, or the first type error. On success the scopes are as before.
    fn infer(&mut self, e: &Expr) -> (r: Result<Type, Error>)
        requires
            old(self).scopes.len() > 0,
        ensures
            type_result(r) == infer(old(self).view_scopes(), e@),
            r is Ok ==> final(self).view_scopes() == old(self).view_scopes(),
            r is Ok ==> final(self).scopes.len() == old(self).scopes.len(),
        decreases e, 2nat,
    {
        match e {
            Expr::Int(_) => Ok(Type::Int),
            Expr::Bool(_) => Ok(Type::Bool),
            Expr::Str(_) => Ok(Type::Str),
            Expr::Var(name) => match self.lookup(name) {
                Some(t) => Ok(t),
                None => {
                    let mut msg = String::from_str("undefined variable '");
                    msg.append(name.as_str());
                    msg.append("'");
                    Err(Error::Type(msg))
                },
            },
            Expr::Unary(op, x) => {
                let t = self.infer(x)?;
                match op {
                    UnOp::Not => {
                        self.unify(&t, &Type::Bool, "operator '!'")?;
                        Ok(Type::Bool)
                    },
                    UnOp::Neg => {
                        self.unify(&t, &Type::Int, "unary '-'")?;
                        Ok(Type::Int)
                    },
                }
            },
            Expr::Binary(op, l, r) => {
                let lt = self.infer(l)?;
                let rt = self.infer(r)?;
                self.binary(*op, &lt, &rt)
            },
            Expr::If(c, t, f) => {
                let ct = self.infer(c)?;
                self.unify(&ct, &Type::Bool, "if condition")?;
                let tt = self.infer(t)?;
                let et = self.infer(f)?;
                if !type_eq(&tt, &et) {
                    let mut msg = String::from_str("if branches disagree: then is ");
                    let a = tt.display();
                    msg.append(a.as_str());
                    msg.append(", else is ");
                    let b = et.display();
                    msg.append(b.as_str());
                    return Err(Error::Type(msg));
                }
                Ok(tt)
            },
            Expr::Lambda { .. } => self.infer_lambda(e),
            Expr::Call(..) => self.infer_call(e),
        }
    }

    fn binary(&self, op: BinOp, lt: &Type, rt: &Type) -> (r: Result<Type, Error>)
        ensures
            type_result(r) == binary_type(op, lt@, rt@),
    {
        match op {
            BinOp::Add | BinOp::Sub | BinOp::Mul | BinOp::Div | BinOp::Mod => {
                self.unify(lt, &Type::Int, "arithmetic operator")?;
                self.unify(rt, &Type::Int, "arithmetic operator")?;
                Ok(Type::Int)
            },
            BinOp::Concat => {
                self.unify(lt, &Type::Str, "operator '++'")?;
                self.unify(rt, &Type::Str, "operator '++'")?;
                Ok(Type::Str)
            },
            BinOp::Lt | BinOp::Le | BinOp::Gt | BinOp::Ge => {
                self.unify(lt, &Type::Int, "comparison operator")?;
                self.unify(rt, &Type::Int, "comparison operator")?;
                Ok(Type::Bool)
            },
            BinOp::Eq | BinOp::Ne => {
                if let Type::Fn(..) = lt {
                    return Err(Error::Type(String::from_str("cannot compare functions")));
                }
                self.unify(rt, lt, "operands of '==' / '!='")?;
                Ok(Type::Bool)
            },
            BinOp::And | BinOp::Or => {
                self.unify(lt, &Type::Bool, "boolean operator")?;
                self.unify(rt, &Type::Bool, "boolean operator")?;
                Ok(Type::Bool)
            },
        }
    }

    #[verifier::loop_isolation(false)]
    fn infer_lambda(&mut self, e: &Expr) -> (r: Result<Type, Error>)
        requires
            old(self).scopes.len() > 0,
            e is Lambda,
        ensures
            type_result(r) == infer(old(self).view_scopes(), e@),
            r is Ok ==> final(self).view_scopes() == old(self).view_scopes(),
            r is Ok ==> final(self).scopes.len() == old(self).scopes.len(),
        decreases e, 1nat,
    {
        match e {
            Expr::Lambda { params, ret, body } => {
                let ghost v0 = self.view_scopes();
                let mut sc: Vec<(String, Type)> = Vec::new();
                let mut ptys: Vec<Type> = Vec::new();
                let mut i: usize = 0;
                while i < params.len()
                    invariant
                        i <= params.len(),
                        sc.len() == i,
                        ptys.len() == i,
                        params_view(sc@) =~= params_view(params@).take(i as int),
                        types_view(ptys@) =~= param_types(params_view(params@)).take(i as int),
                    decreases params.len() - i,
                {
                    proof {
                        lemma_types_view(ptys@);
                    }
                    sc.push((params[i].0.clone(), copy_type(&params[i].1)));
                    ptys.push(copy_type(&params[i].1));
                    proof {
                        lemma_types_view(ptys@);
                        assert(types_view(ptys@) =~= param_types(params_view(params@)).take(i + 1));
                    }
                    i = i + 1;
                }
                assert(params_view(params@).take(params.len() as int) =~= params_view(params@));
                assert(param_types(params_view(params@)).take(params.len() as int) =~= param_types(params_view(params@)));
                let ghost s0 = self.scopes@;
                self.scopes.push(sc);
                assert(self.scopes@ == s0.push(sc));
                assert(self.view_scopes() =~= v0.push(params_view(params@)));
                let body_ty = self.infer(body)?;
                let ghost before_pop = self.scopes@;
                self.scopes.pop();
                assert(self.scopes@ =~= before_pop.drop_last());
                assert(scopes_view(before_pop).drop_last() =~= v0);
                assert(self.view_scopes() =~= scopes_view(before_pop).drop_last());
                match ret {
                    Some(rt) => {
                        self.unify(&body_ty, rt, "function body")?;
                        Ok(Type::Fn(ptys, Box::new(copy_type(rt))))
                    },
                    None => Ok(Type::Fn(ptys, Box::new(body_ty))),
                }
            },
            _ => Err(Error::Type(String::new())),
        }
    }
}

impl Checker {
    #[verifier::loop_isolation(false)]
    fn infer_call(&mut self, e: &Expr) -> (r: Result<Type, Error>)
        requires
            old(self).scopes.len() > 0,
            e is Call,
        ensures
            type_result(r) == infer(old(self).view_scopes(), e@),
            r is Ok ==> final(self).view_scopes() == old(self).view_scopes(),
            r is Ok ==> final(self).scopes.len() == old(self).scopes.len(),
        decreases e, 1nat,
    {
        match e {
            Expr::Call(callee, args) => {
                let ghost v0 = self.view_scopes();
                let c: &Expr = &**callee;
                if let Expr::Var(name) = c {
                    if builtin_name(name) && self.lookup(name).is_none() {
                        return self.builtin(name, args);
                    }
                }
                let ct = self.infer(callee)?;
                match ct {
                    Type::Fn(ps, ret) => {
                        proof {
                            lemma_types_view(ps@);
                            lemma_exprs_view(args@);
                        }
                        if args.len() != ps.len() {
                            let mut msg = String::from_str("function expects ");
                            let a = uint_to_string(ps.len() as u64);
                            msg.append(a.as_str());
                            msg.append(" argument(s), got ");
                            let b = uint_to_string(args.len() as u64);
                            msg.append(b.as_str());
                            return Err(Error::Type(msg));
                        }
                        let ghost av = exprs_view(args@);
                        let ghost pv = types_view(ps@);
                        let mut i: usize = 0;
                        assert(av.skip(0) =~= av);
                        assert(pv.skip(0) =~= pv);
                        while i < args.len()
                            invariant
                                i <= args.len(),
                                self.view_scopes() == v0,
                                self.scopes.len() > 0,
                                check_args(v0, av, pv, 0) == check_args(v0, av.skip(i as int), pv.skip(i as int), i as nat),
                            decreases args.len() - i,
                        {
                            assert(av.skip(i as int)[0] == av[i as int]);
                            assert(pv.skip(i as int)[0] == pv[i as int]);
                            assert(av.skip(i as int).drop_first() =~= av.skip(i + 1));
                            assert(pv.skip(i as int).drop_first() =~= pv.skip(i + 1));
                            let at = self.infer(&args[i])?;
                            let mut ctx = String::from_str("argument ");
                            let n = uint_to_string((i + 1) as u64);
                            ctx.append(n.as_str());
                            self.unify(&at, &ps[i], ctx.as_str())?;
                            i = i + 1;
                        }
                        assert(av.skip(i as int).len() == 0);
                        Ok(*ret)
                    },
                    other => {
                        let mut msg = String::from_str("cannot call a value of type ");
                        let t = other.display();
                        msg.append(t.as_str());
                        Err(Error::Type(msg))
                    },
                }
            },
            _ => Err(Error::Type(String::new())),
        }
    }

    fn builtin(&mut self, name: &String, args: &Vec<Expr>) -> (r: Result<Type, Error>)
        requires
            old(self).scopes.len() > 0,
            is_builtin(name@),
        ensures
            type_result(r) == builtin_type(old(self).view_scopes(), name@, exprs_view(args@)),
            r is Ok ==> final(self).view_scopes() == old(self).view_scopes(),
            r is Ok ==> final(self).scopes.len() == old(self).scopes.len(),
        decreases args, 1nat,
    {
        proof {
            lemma_exprs_view(args@);
        }
        if args.len() != 1 {
            let mut msg = name.clone();
            msg.append(" takes exactly one argument");
            return Err(Error::Type(msg));
        }
        let t = self.infer(&args[0])?;
        if spells_string(name, "print") {
            if let Type::Fn(..) = t {
                return Err(Error::Type(String::from_str("cannot print a function")));
            }
            Ok(t)
        } else if spells_string(name, "len") {
            self.unify(&t, &Type::Str, "len")?;
            Ok(Type::Int)
        } else {
            match t {
                Type::Int | Type::Bool => Ok(Type::Str),
                other => {
                    let mut msg = String::from_str("str expects Int or Bool, found ");
                    let s = other.display();
                    msg.append(s.as_str());
                    Err(Error::Type(msg))
                },
            }
        }
    }
}

/// The parameter types of a parameter list, in order.
fn param_type_list(params: &Vec<(String, Type)>) -> (r: Vec<Type>)
    ensures
        types_view(r@) == param_types(params_view(params@)),
{
    let mut ptys: Vec<Type> = Vec::new();
    let mut i: usize = 0;
    while i < params.len()
        invariant
            i <= params.len(),
            ptys.len() == i,
            types_view(ptys@) =~= param_types(params_view(params@)).take(i as int),
        decreases params.len() - i,
    {
        proof {
            lemma_types_view(ptys@);
        }
        ptys.push(copy_type(&params[i].1));
        proof {
            lemma_types_view(ptys@);
            assert(types_view(ptys@) =~= param_types(params_view(params@)).take(i + 1));
        }
        i = i + 1;
    }
    assert(param_types(params_view(params@)).take(params.len() as int) =~= param_types(params_view(params@)));
    ptys
}

pub open spec fn stmt_check_result(r: Result<(), Error>, scs: Seq<SScope>) -> Result<Seq<SScope>, SError> {
    match r {
        Ok(_) => Ok(scs),
        Err(e) => Err(e@),
    }
}

impl Checker {
    fn stmt(&mut self, s: &Stmt) -> (r: Result<(), Error>)
        requires
            old(self).scopes.len() > 0,
        ensures
            stmt_check_result(r, final(self).view_scopes()) == check_stmt(old(self).view_scopes(), s@),
            r is Ok ==> final(self).scopes.len() > 0,
            (s@ matches SStmt::Let { rec, value, .. } && rec && !(value matches SExpr::Lambda { ret: Some(_), .. }))
                ==> final(self).view_scopes() == old(self).view_scopes(),
            (s@ matches SStmt::Let { rec, value, .. } && !rec && infer(old(self).view_scopes(), value) is Ok && r is Err)
                ==> final(self).view_scopes() == old(self).view_scopes(),
    {
        match s {
            Stmt::Let { name, rec, ty, value } => {
                let mut ctx = String::from_str("binding '");
                ctx.append(name.as_str());
                ctx.append("'");
                if *rec {
                    let fn_ty = match value {
                        Expr::Lambda { params, ret: Some(ret), .. } => Type::Fn(
                            param_type_list(params),
                            Box::new(copy_type(ret)),
                        ),
                        _ => {
                            let mut msg = String::from_str("recursive binding '");
                            msg.append(name.as_str());
                            msg.append("' must be a function with a declared return type");
                            return Err(Error::Type(msg));
                        },
                    };
                    self.define(name, copy_type(&fn_ty));
                    let inferred = self.infer(value)?;
                    if !type_eq(&inferred, &fn_ty) {
                        let mut msg = String::from_str("recursive binding '");
                        msg.append(name.as_str());
                        msg.append("' declared ");
                        let a = fn_ty.display();
                        msg.append(a.as_str());
                        msg.append(" but body has type ");
                        let b = inferred.display();
                        msg.append(b.as_str());
                        return Err(Error::Type(msg));
                    }
                    if let Some(ann) = ty {
                        self.unify(&inferred, ann, ctx.as_str())?;
                    }
                } else {
                    let inferred = self.infer(value)?;
                    match ty {
                        Some(ann) => {
                            self.unify(&inferred, ann, ctx.as_str())?;
                            self.define(name, copy_type(ann));
                        },
                        None => {
                            self.define(name, inferred);
                        },
                    }
                }
                Ok(())
            },
            Stmt::Expr(e) => {
                self.infer(e)?;
                Ok(())
            },
        }
    }
}

impl Checker {
    /// Whether the checker has its outermost scope.
    pub closed spec fn ready(&self) -> bool {
        self.scopes.len() > 0
    }

    /// A checker with one empty scope, as a program starts.
    pub(crate) fn new() -> (c: Checker)
        ensures
            c.ready(),
            c.view_scopes() == seq![Seq::<(Seq<char>, SType)>::empty()],
    {
        let first: Vec<(String, Type)> = Vec::new();
        assert(params_view(first@) =~= Seq::<(Seq<char>, SType)>::empty());
        let mut scopes: Vec<Vec<(String, Type)>> = Vec::new();
        scopes.push(first);
        let c = Checker { scopes };
        assert(c.view_scopes() =~= seq![Seq::<(Seq<char>, SType)>::empty()]);
        c
    }

    /// Checks one top-level statement: `None` on a type error, else whether
    /// it opens a scope of its own (`opens_scope`).
    pub(crate) fn step(&mut self, s: &Stmt) -> (r: Option<bool>)
        requires
            old(self).ready(),
        ensures
            match check_stmt(old(self).view_scopes(), s@) {
                Ok(scs1) => r == Some(opens_scope(old(self).view_scopes(), scs1, s@)) && final(self).view_scopes()
                    == scs1 && final(self).ready(),
                Err(_) => r is None,
            },
    {
        match s {
            Stmt::Let { name, .. } => {
                let before = self.lookup(name);
                match self.stmt(s) {
                    Ok(()) => {
                        let after = self.lookup(name);
                        let opens = match (&before, &after) {
                            (None, _) => builtin_name(name),
                            (Some(a), Some(b)) => !type_eq(a, b),
                            (Some(_), None) => true,
                        };
                        Some(opens)
                    },
                    Err(_) => None,
                }
            },
            Stmt::Expr(_) => {
                match self.stmt(s) {
                    Ok(()) => Some(false),
                    Err(_) => None,
                }
            },
        }
    }
}

/// Type-checks a whole program: `Ok(())` when it is well-typed, else its
/// first type error.
pub fn check(prog: &Program) -> (r: Result<(), Error>)
    ensures
        unit_result(r) == check_spec(program_view(prog@)),
{
    let first: Vec<(String, Type)> = Vec::new();
    assert(params_view(first@) =~= Seq::<(Seq<char>, SType)>::empty());
    let mut scopes: Vec<Vec<(String, Type)>> = Vec::new();
    scopes.push(first);
    let mut c = Checker { scopes };
    let ghost pv = program_view(prog@);
    assert(c.view_scopes() =~= seq![Seq::<(Seq<char>, SType)>::empty()]);
    assert(pv.skip(0) =~= pv);
    let mut i: usize = 0;
    while i < prog.len()
        invariant
            i <= prog.len(),
            pv == program_view(prog@),
            c.scopes.len() > 0,
            check_stmts(seq![Seq::empty()], pv) == check_stmts(c.view_scopes(), pv.skip(i as int)),
        decreases prog.len() - i,
    {
        assert(pv.skip(i as int)[0] == pv[i as int]);
        assert(pv.skip(i as int).drop_first() =~= pv.skip(i + 1));
        c.stmt(&prog[i])?;
        i = i + 1;
    }
    Ok(())
}
} // verus!
