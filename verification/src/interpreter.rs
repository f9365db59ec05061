//! Tree-walking interpreter. Runs only after the type checker has passed, so it
//! trusts types and guards just the things types cannot catch (division by zero).
//!
//! The model `eval` threads a state (the scopes made so far and the lines
//! printed so far) through the evaluation. `fuel` bounds how deeply function
//! calls nest; a call made with no fuel left is a runtime error.
use vstd::prelude::*;
use crate::ast::{BinOp, Expr, Program, SExpr, SStmt, SType, Stmt, UnOp, exprs_view, lemma_exprs_view, copy_expr, program_view};
use crate::error::{Error, SError};
use crate::types::{Checker, SScope, builtin_name, check_stmt, is_builtin, opens_scope};
use crate::value::{
    Env, SFrame, SValue, Scope, Store, Value, copy_value, define, get, home, names_view, store_define, store_home,
    store_get, store_push, value_text,
};
use crate::text::spells_string;

verus! {

/// How deeply function calls may nest while a program runs: as deep as a
/// `u64` counts, so that in practice only the machine's stack bounds it.
pub const CALL_DEPTH_LIMIT: u64 = 18446744073709551615;

/// Model of the interpreter's state: the scopes made so far and the lines
/// printed so far.
pub struct SState {
    pub st: Seq<SFrame>,
    pub out: Seq<Seq<char>>,
}

pub open spec fn runtime_error(msg: Seq<char>) -> SError {
    SError::Runtime(msg)
}

/// `-n`, where `-i64::MIN` wraps to `i64::MIN`.
pub open spec fn neg_wrap(n: i64) -> i64 {
    if n == i64::MIN {
        n
    } else {
        (-n) as i64
    }
}

pub open spec fn abs(x: int) -> nat {
    if x < 0 { (-x) as nat } else { x as nat }
}

/// Integer division rounding toward zero (`y != 0`).
pub open spec fn trunc_div(x: int, y: int) -> int {
    let q: int = (abs(x) / abs(y)) as int;
    if (x < 0) != (y < 0) { -q } else { q }
}

/// `x / y` on `i64` (`y != 0`), where `i64::MIN / -1` wraps to `i64::MIN`.
pub open spec fn div_i64(x: i64, y: i64) -> i64 {
    if trunc_div(x as int, y as int) > i64::MAX {
        i64::MIN
    } else {
        trunc_div(x as int, y as int) as i64
    }
}

/// `x % y` on `i64` (`y != 0`): the remainder of the division toward zero,
/// which has the sign of `x` and a magnitude below that of `y`.
pub open spec fn rem_i64(x: i64, y: i64) -> i64 {
    let m = abs(x as int) % abs(y as int);
    if x < 0 { (-m) as i64 } else { m as i64 }
}

/// Equality of values: integers, booleans and strings compare by content;
/// anything else is unequal.
pub open spec fn values_equal(a: SValue, b: SValue) -> bool {
    match (a, b) {
        (SValue::Int(x), SValue::Int(y)) => x == y,
        (SValue::Bool(x), SValue::Bool(y)) => x == y,
        (SValue::Str(x), SValue::Str(y)) => x == y,
        _ => false,
    }
}

/// A binary operation on two values. Integer arithmetic wraps on overflow.
pub open spec fn eval_binary(op: BinOp, a: SValue, b: SValue) -> Result<SValue, SError> {
    match (op, a, b) {
        (BinOp::Add, SValue::Int(x), SValue::Int(y)) => Ok(SValue::Int(x.wrapping_add(y))),
        (BinOp::Sub, SValue::Int(x), SValue::Int(y)) => Ok(SValue::Int(x.wrapping_sub(y))),
        (BinOp::Mul, SValue::Int(x), SValue::Int(y)) => Ok(SValue::Int(x.wrapping_mul(y))),
        (BinOp::Div, SValue::Int(x), SValue::Int(y)) => if y == 0 {
            Err(runtime_error("division by zero"@))
        } else {
            Ok(SValue::Int(div_i64(x, y)))
        },
        (BinOp::Mod, SValue::Int(x), SValue::Int(y)) => if y == 0 {
            Err(runtime_error("modulo by zero"@))
        } else {
            Ok(SValue::Int(rem_i64(x, y)))
        },
        (BinOp::Concat, SValue::Str(x), SValue::Str(y)) => Ok(SValue::Str(x + y)),
        (BinOp::Lt, SValue::Int(x), SValue::Int(y)) => Ok(SValue::Bool(x < y)),
        (BinOp::Le, SValue::Int(x), SValue::Int(y)) => Ok(SValue::Bool(x <= y)),
        (BinOp::Gt, SValue::Int(x), SValue::Int(y)) => Ok(SValue::Bool(x > y)),
        (BinOp::Ge, SValue::Int(x), SValue::Int(y)) => Ok(SValue::Bool(x >= y)),
        (BinOp::And, SValue::Bool(x), SValue::Bool(y)) => Ok(SValue::Bool(x && y)),
        (BinOp::Or, SValue::Bool(x), SValue::Bool(y)) => Ok(SValue::Bool(x || y)),
        (BinOp::Eq, x, y) => Ok(SValue::Bool(values_equal(x, y))),
        (BinOp::Ne, x, y) => Ok(SValue::Bool(!values_equal(x, y))),
        _ => Err(runtime_error("bad operands for binary operator"@)),
    }
}

/// A builtin (`print`, `len`, `str`) applied to the evaluated arguments;
/// `print` adds the text of its argument to the output.
pub open spec fn call_builtin(s: SState, name: Seq<char>, vals: Seq<SValue>) -> (SState, Result<
    SValue,
    SError,
>) {
    if vals.len() == 0 {
        (s, Err(runtime_error(name + " takes exactly one argument"@)))
    } else if name == "print"@ {
        (SState { st: s.st, out: s.out.push(value_text(vals[0])) }, Ok(vals[0]))
    } else if name == "len"@ {
        match vals[0] {
            SValue::Str(x) => (s, Ok(SValue::Int(x.len() as i64))),
            _ => (s, Err(runtime_error("len expects a string"@))),
        }
    } else if name == "str"@ {
        (s, Ok(SValue::Str(value_text(vals[0]))))
    } else {
        (s, Err(runtime_error("unknown builtin '"@ + name + "'"@)))
    }
}

/// The parameter names of a parameter list.
pub open spec fn param_names(ps: Seq<(Seq<char>, crate::ast::SType)>) -> Seq<Seq<char>> {
    ps.map_values(|p: (Seq<char>, crate::ast::SType)| p.0)
}

/// Evaluates `e` in scope `env`, from state `s`, with `fuel` calls of nesting
/// left: the state after it and the value or the runtime error.
pub open spec fn eval(s: SState, env: nat, e: SExpr, fuel: nat) -> (SState, Result<SValue, SError>)
    decreases fuel, e,
{
    match e {
        SExpr::Int(n) => (s, Ok(SValue::Int(n))),
        SExpr::Bool(b) => (s, Ok(SValue::Bool(b))),
        SExpr::Str(x) => (s, Ok(SValue::Str(x))),
        SExpr::Var(name) => match store_get(s.st, env, name) {
            Some(v) => (s, Ok(v)),
            None => (s, Err(runtime_error("undefined variable '"@ + name + "'"@))),
        },
        SExpr::Unary(op, x) => {
            let (s1, r) = eval(s, env, *x, fuel);
            match r {
                Ok(v) => match (op, v) {
                    (UnOp::Neg, SValue::Int(n)) => (s1, Ok(SValue::Int(neg_wrap(n)))),
                    (UnOp::Not, SValue::Bool(b)) => (s1, Ok(SValue::Bool(!b))),
                    _ => (s1, Err(runtime_error("bad operand for unary operator"@))),
                },
                Err(err) => (s1, Err(err)),
            }
        },
        SExpr::Binary(op, l, r) => {
            let (s1, ra) = eval(s, env, *l, fuel);
            match ra {
                Ok(a) => {
                    let (s2, rb) = eval(s1, env, *r, fuel);
                    match rb {
                        Ok(b) => (s2, eval_binary(op, a, b)),
                        Err(err) => (s2, Err(err)),
                    }
                },
                Err(err) => (s1, Err(err)),
            }
        },
        SExpr::If(c, t, f) => {
            let (s1, rc) = eval(s, env, *c, fuel);
            match rc {
                Ok(SValue::Bool(true)) => eval(s1, env, *t, fuel),
                Ok(SValue::Bool(false)) => eval(s1, env, *f, fuel),
                Ok(_) => (s1, Err(runtime_error("if condition is not a boolean"@))),
                Err(err) => (s1, Err(err)),
            }
        },
        SExpr::Lambda { params, body, .. } => (
            s,
            Ok(SValue::Closure { params: param_names(params), body: *body, env }),
        ),
        SExpr::Call(callee, args) => {
            if *callee matches SExpr::Var(name) && is_builtin(name) && store_get(s.st, env, name) is None {
                let (s1, rv) = eval_list(s, env, args, args.len(), fuel);
                match rv {
                    Ok(vals) => call_builtin(s1, callee->Var_0, vals),
                    Err(err) => (s1, Err(err)),
                }
            } else {
                let (s1, rc) = eval(s, env, *callee, fuel);
                match rc {
                    Ok(SValue::Closure { params, body, env: cenv }) => {
                        let count = if params.len() < args.len() { params.len() } else { args.len() };
                        let (s2, rv) = eval_list(s1, env, args, count, fuel);
                        match rv {
                            Ok(vals) => {
                                let call_env = s2.st.len();
                                let s3 = SState { st: push_call_frame(s2.st, cenv, params, vals), out: s2.out };
                                if fuel == 0 {
                                    (s3, Err(runtime_error("recursion limit exceeded"@)))
                                } else {
                                    eval(s3, call_env, body, (fuel - 1) as nat)
                                }
                            },
                            Err(err) => (s2, Err(err)),
                        }
                    },
                    Ok(_) => (s1, Err(runtime_error("attempt to call a non-function"@))),
                    Err(err) => (s1, Err(err)),
                }
            }
        },
    }
}

/// Evaluates the first `count` expressions (all of them when there are
/// fewer) in order, stopping at the first error.
pub open spec fn eval_list(s: SState, env: nat, es: Seq<SExpr>, count: nat, fuel: nat) -> (SState, Result<
    Seq<SValue>,
    SError,
>)
    decreases fuel, es,
{
    if es.len() == 0 || count == 0 {
        (s, Ok(Seq::empty()))
    } else {
        let (s1, r) = eval(s, env, es[0], fuel);
        match r {
            Ok(v) => {
                let (s2, rs) = eval_list(s1, env, es.drop_first(), (count - 1) as nat, fuel);
                match rs {
                    Ok(vs) => (s2, Ok(seq![v] + vs)),
                    Err(err) => (s2, Err(err)),
                }
            },
            Err(err) => (s1, Err(err)),
        }
    }
}

/// A list evaluation that succeeds gives one value per evaluated expression.
pub proof fn lemma_eval_list_len(s: SState, env: nat, es: Seq<SExpr>, count: nat, fuel: nat)
    ensures
        eval_list(s, env, es, count, fuel).1 matches Ok(vs) ==> vs.len() == (if count < es.len() { count } else { es.len() }),
    decreases es.len(),
{
    if es.len() > 0 && count > 0 {
        let (s1, r) = eval(s, env, es[0], fuel);
        if r is Ok {
            lemma_eval_list_len(s1, env, es.drop_first(), (count - 1) as nat, fuel);
        }
    }
}

/// Each value bound to the parameter name at the same place.
pub open spec fn bindings(params: Seq<Seq<char>>, vals: Seq<SValue>) -> Seq<(Seq<char>, SValue)> {
    Seq::new(vals.len(), |i: int| (params[i], vals[i]))
}

/// The store with a new scope for a call: its parent is the closure's scope
/// `cenv`, and it binds the parameters to the argument values.
pub open spec fn push_call_frame(st: Seq<SFrame>, cenv: nat, params: Seq<Seq<char>>, vals: Seq<SValue>) -> Seq<SFrame> {
    st.push(SFrame { vars: bindings(params, vals), parent: Some(cenv) })
}

/// The scope a top-level `let` that opens no scope binds its name in: the
/// one whose binding of the name `cur` sees, so that every function that
/// sees the old binding sees the new one, else `cur` itself.
pub open spec fn bind_target(st: Seq<SFrame>, cur: nat, name: Seq<char>) -> nat {
    match store_home(st, cur, name) {
        Some(h) => h,
        None => cur,
    }
}

/// Runs statements from scope `cur`; `ck` is the checker's scopes while the
/// statements so far type-check, and `None` after the first that does not.
///
/// A top-level `let` rebinds its name where the current binding lives (or
/// adds it to the current scope), so functions made earlier see the new
/// value, as a scope captured by reference does. When the checker gives the
/// name another type than it had, or the `let` first binds a builtin's name
/// (`opens_scope`), the binding goes into a new scope below the current one
/// instead, and later statements run there: functions made earlier keep the
/// binding they were checked against. Such a `let rec` makes that scope
/// first and evaluates its value in it, so the function sees its own name.
/// The result is the value of the last statement (`last` when there is none).
pub open spec fn run_stmts(
    s: SState,
    cur: nat,
    ck: Option<Seq<SScope>>,
    prog: Seq<SStmt>,
    last: SValue,
    fuel: nat,
) -> (SState, Result<SValue, SError>)
    decreases prog.len(),
{
    if prog.len() == 0 {
        (s, Ok(last))
    } else {
        let (opens, ck1) = match ck {
            Some(scs) => match check_stmt(scs, prog[0]) {
                Ok(scs1) => (opens_scope(scs, scs1, prog[0]), Some(scs1)),
                Err(_) => (false, None::<Seq<SScope>>),
            },
            None => (false, None::<Seq<SScope>>),
        };
        match prog[0] {
            SStmt::Let { name, rec, value, .. } => {
                if opens && rec {
                    let scope = s.st.len();
                    let s0 = SState { st: store_push(s.st, Some(cur)), out: s.out };
                    let (s1, r) = eval(s0, scope, value, fuel);
                    match r {
                        Ok(v) => run_stmts(
                            SState { st: store_define(s1.st, scope, name, v), out: s1.out },
                            scope,
                            ck1,
                            prog.drop_first(),
                            v,
                            fuel,
                        ),
                        Err(err) => (s1, Err(err)),
                    }
                } else {
                    let (s1, r) = eval(s, cur, value, fuel);
                    match r {
                        Ok(v) => if opens {
                            let scope = s1.st.len();
                            run_stmts(
                                SState { st: store_define(store_push(s1.st, Some(cur)), scope, name, v), out: s1.out },
                                scope,
                                ck1,
                                prog.drop_first(),
                                v,
                                fuel,
                            )
                        } else {
                            run_stmts(
                                SState { st: store_define(s1.st, bind_target(s1.st, cur, name), name, v), out: s1.out },
                                cur,
                                ck1,
                                prog.drop_first(),
                                v,
                                fuel,
                            )
                        },
                        Err(err) => (s1, Err(err)),
                    }
                }
            },
            SStmt::Expr(e) => {
                let (s1, r) = eval(s, cur, e, fuel);
                match r {
                    Ok(v) => run_stmts(s1, cur, ck1, prog.drop_first(), v, fuel),
                    Err(err) => (s1, Err(err)),
                }
            },
        }
    }
}

/// Runs a program from a single empty root scope: the final state and the
/// value of its last statement (`Int(0)` for an empty program).
pub open spec fn run_spec(prog: Seq<SStmt>) -> (SState, Result<SValue, SError>) {
    run_stmts(
        SState { st: store_push(Seq::empty(), None), out: Seq::empty() },
        0,
        Some(seq![Seq::<(Seq<char>, SType)>::empty()]),
        prog,
        SValue::Int(0),
        CALL_DEPTH_LIMIT as nat,
    )
}


/// The interpreter: the scopes made so far and the lines printed so far.
struct Interp {
    store: Store,
    output: Vec<String>,
}

pub open spec fn strings_view(v: Seq<String>) -> Seq<Seq<char>> {
    Seq::new(v.len(), |i: int| v[i]@)
}

pub open spec fn values_view(v: Seq<Value>) -> Seq<SValue> {
    Seq::new(v.len(), |i: int| v[i]@)
}

pub open spec fn value_res(r: Result<Value, Error>) -> Result<SValue, SError> {
    match r {
        Ok(v) => Ok(v@),
        Err(e) => Err(e@),
    }
}

pub open spec fn values_res(r: Result<Vec<Value>, Error>) -> Result<Seq<SValue>, SError> {
    match r {
        Ok(v) => Ok(values_view(v@)),
        Err(e) => Err(e@),
    }
}

pub open spec fn unit_res(r: Result<(), Error>) -> Result<(), SError> {
    match r {
        Ok(_) => Ok(()),
        Err(e) => Err(e@),
    }
}

/// Values placed in front of what an evaluation of a list produces.
pub open spec fn prepend_values(vs: Seq<SValue>, r: (SState, Result<Seq<SValue>, SError>)) -> (
    SState,
    Result<Seq<SValue>, SError>,
) {
    (r.0, match r.1 {
        Ok(rest) => Ok(vs + rest),
        Err(e) => Err(e),
    })
}

impl Interp {
    spec fn state(&self) -> SState {
        SState { st: self.store@, out: strings_view(self.output@) }
    }
}

fn runtime(msg: String) -> (e: Error)
    ensures
        e@ == runtime_error(msg@),
{
    Error::Runtime(msg)
}

fn div_exec(x: i64, y: i64) -> (q: i64)
    requires
        y != 0,
    ensures
        q == div_i64(x, y),
{
    let ax: u128 = if x < 0 { (0i128 - x as i128) as u128 } else { x as u128 };
    let ay: u128 = if y < 0 { (0i128 - y as i128) as u128 } else { y as u128 };
    let m: u128 = ax / ay;
    assert(m <= ax) by (nonlinear_arith)
        requires
            m == ax / ay,
            ay >= 1,
    ;
    let sq: i128 = if (x < 0) != (y < 0) { 0i128 - m as i128 } else { m as i128 };
    if sq > 9223372036854775807i128 {
        i64::MIN
    } else {
        sq as i64
    }
}

fn rem_exec(x: i64, y: i64) -> (r: i64)
    requires
        y != 0,
    ensures
        r == rem_i64(x, y),
{
    let ax: u128 = if x < 0 { (0i128 - x as i128) as u128 } else { x as u128 };
    let ay: u128 = if y < 0 { (0i128 - y as i128) as u128 } else { y as u128 };
    let m: u128 = ax % ay;
    if x < 0 {
        (0i128 - m as i128) as i64
    } else {
        m as i64
    }
}

fn values_equal_exec(a: &Value, b: &Value) -> (r: bool)
    ensures
        r == values_equal(a@, b@),
{
    match (a, b) {
        (Value::Int(x), Value::Int(y)) => *x == *y,
        (Value::Bool(x), Value::Bool(y)) => *x == *y,
        (Value::Str(x), Value::Str(y)) => *x == *y,
        _ => false,
    }
}

fn eval_binary_exec(op: BinOp, a: Value, b: Value) -> (r: Result<Value, Error>)
    ensures
        value_res(r) == eval_binary(op, a@, b@),
{
    match (op, a, b) {
        (BinOp::Add, Value::Int(x), Value::Int(y)) => Ok(Value::Int(x.wrapping_add(y))),
        (BinOp::Sub, Value::Int(x), Value::Int(y)) => Ok(Value::Int(x.wrapping_sub(y))),
        (BinOp::Mul, Value::Int(x), Value::Int(y)) => Ok(Value::Int(x.wrapping_mul(y))),
        (BinOp::Div, Value::Int(x), Value::Int(y)) => if y == 0 {
            Err(runtime(String::from_str("division by zero")))
        } else {
            Ok(Value::Int(div_exec(x, y)))
        },
        (BinOp::Mod, Value::Int(x), Value::Int(y)) => if y == 0 {
            Err(runtime(String::from_str("modulo by zero")))
        } else {
            Ok(Value::Int(rem_exec(x, y)))
        },
        (BinOp::Concat, Value::Str(x), Value::Str(y)) => {
            let mut s = x;
            s.append(y.as_str());
            Ok(Value::Str(s))
        },
        (BinOp::Lt, Value::Int(x), Value::Int(y)) => Ok(Value::Bool(x < y)),
        (BinOp::Le, Value::Int(x), Value::Int(y)) => Ok(Value::Bool(x <= y)),
        (BinOp::Gt, Value::Int(x), Value::Int(y)) => Ok(Value::Bool(x > y)),
        (BinOp::Ge, Value::Int(x), Value::Int(y)) => Ok(Value::Bool(x >= y)),
        (BinOp::And, Value::Bool(x), Value::Bool(y)) => Ok(Value::Bool(x && y)),
        (BinOp::Or, Value::Bool(x), Value::Bool(y)) => Ok(Value::Bool(x || y)),
        (BinOp::Eq, x, y) => Ok(Value::Bool(values_equal_exec(&x, &y))),
        (BinOp::Ne, x, y) => Ok(Value::Bool(!values_equal_exec(&x, &y))),
        _ => Err(runtime(String::from_str("bad operands for binary operator"))),
    }
}

impl Interp {
    fn eval(&mut self, e: &Expr, env: Env, fuel: u64) -> (r: Result<Value, Error>)
        ensures
            eval(old(self).state(), env as nat, e@, fuel as nat) == (final(self).state(), value_res(r)),
            final(self).store@.len() >= old(self).store@.len(),
        decreases fuel, e, 2nat,
    {
        match e {
            Expr::Int(n) => Ok(Value::Int(*n)),
            Expr::Bool(b) => Ok(Value::Bool(*b)),
            Expr::Str(x) => Ok(Value::Str(x.clone())),
            Expr::Var(name) => match get(&self.store, env, name.as_str()) {
                Some(v) => Ok(v),
                None => {
                    let mut msg = String::from_str("undefined variable '");
                    msg.append(name.as_str());
                    msg.append("'");
                    Err(runtime(msg))
                },
            },
            Expr::Unary(op, x) => {
                let v = self.eval(x, env, fuel)?;
                match (op, v) {
                    (UnOp::Neg, Value::Int(n)) => {
                        let m = if n == i64::MIN {
                            n
                        } else {
                            -n
                        };
                        Ok(Value::Int(m))
                    },
                    (UnOp::Not, Value::Bool(b)) => Ok(Value::Bool(!b)),
                    _ => Err(runtime(String::from_str("bad operand for unary operator"))),
                }
            },
            Expr::Binary(op, l, r) => {
                let a = self.eval(l, env, fuel)?;
                let b = self.eval(r, env, fuel)?;
                eval_binary_exec(*op, a, b)
            },
            Expr::If(c, t, f) => {
                let cv = self.eval(c, env, fuel)?;
                match cv {
                    Value::Bool(true) => self.eval(t, env, fuel),
                    Value::Bool(false) => self.eval(f, env, fuel),
                    _ => Err(runtime(String::from_str("if condition is not a boolean"))),
                }
            },
            Expr::Lambda { params, body, .. } => {
                let mut names: Vec<String> = Vec::new();
                let mut i: usize = 0;
                while i < params.len()
                    invariant
                        i <= params.len(),
                        names_view(names@) =~= param_names(crate::ast::params_view(params@)).take(i as int),
                    decreases params.len() - i,
                {
                    let ghost before = names@;
                    let n = params[i].0.clone();
                    names.push(n);
                    assert(names_view(names@) =~= names_view(before).push(params@[i as int].0@));
                    i = i + 1;
                }
                assert(param_names(crate::ast::params_view(params@)).take(params.len() as int) =~= param_names(crate::ast::params_view(params@)));
                Ok(Value::Closure { params: names, body: Box::new(copy_expr(body)), env })
            },
            Expr::Call(..) => self.eval_call(e, env, fuel),
        }
    }

    #[verifier::loop_isolation(false)]
    fn eval_list(&mut self, args: &Vec<Expr>, count: usize, env: Env, fuel: u64) -> (r: Result<Vec<Value>, Error>)
        ensures
            eval_list(old(self).state(), env as nat, exprs_view(args@), count as nat, fuel as nat) == (final(self).state(), values_res(r)),
            final(self).store@.len() >= old(self).store@.len(),
        decreases fuel, args, 0nat,
    {
        proof {
            lemma_exprs_view(args@);
        }
        let ghost av = exprs_view(args@);
        let ghost s0 = self.state();
        let mut vals: Vec<Value> = Vec::new();
        let mut i: usize = 0;
        assert(av.skip(0) =~= av);
        assert(values_view(vals@) + Seq::<SValue>::empty() =~= Seq::<SValue>::empty());
        while i < args.len() && i < count
            invariant
                i <= args.len(),
                i <= count,
                vals.len() == i,
                self.store@.len() >= old(self).store@.len(),
                eval_list(s0, env as nat, av, count as nat, fuel as nat) == prepend_values(
                    values_view(vals@),
                    eval_list(self.state(), env as nat, av.skip(i as int), (count - i) as nat, fuel as nat),
                ),
            decreases args.len() - i,
        {
            assert(av.skip(i as int)[0] == av[i as int]);
            assert(av.skip(i as int).drop_first() =~= av.skip(i + 1));
            let ghost pre = values_view(vals@);
            let v = self.eval(&args[i], env, fuel)?;
            let ghost vv = v@;
            vals.push(v);
            proof {
                assert(values_view(vals@) =~= pre.push(vv));
                let rest = eval_list(self.state(), env as nat, av.skip(i + 1), (count - i - 1) as nat, fuel as nat);
                match rest.1 {
                    Ok(rs) => {
                        assert(pre + (seq![vv] + rs) =~= pre.push(vv) + rs);
                    },
                    Err(_) => {},
                }
            }
            i = i + 1;
        }
        assert(av.skip(i as int).len() == 0 || count - i == 0);
        assert(values_view(vals@) + Seq::<SValue>::empty() =~= values_view(vals@));
        Ok(vals)
    }

    fn call_builtin(&mut self, name: &String, vals: Vec<Value>) -> (r: Result<Value, Error>)
        ensures
            call_builtin(old(self).state(), name@, values_view(vals@)) == (final(self).state(), value_res(r)),
            final(self).store@.len() == old(self).store@.len(),
    {
        if vals.len() == 0 {
            let mut msg = name.clone();
            msg.append(" takes exactly one argument");
            return Err(runtime(msg));
        }
        if spells_string(name, "print") {
            let line = vals[0].display();
            let ghost before = self.output@;
            self.output.push(line);
            assert(strings_view(self.output@) =~= strings_view(before).push(value_text(vals@[0]@)));
            Ok(copy_value(&vals[0]))
        } else if spells_string(name, "len") {
            match &vals[0] {
                Value::Str(x) => Ok(Value::Int(x.as_str().unicode_len() as i64)),
                _ => Err(runtime(String::from_str("len expects a string"))),
            }
        } else if spells_string(name, "str") {
            Ok(Value::Str(vals[0].display()))
        } else {
            let mut msg = String::from_str("unknown builtin '");
            msg.append(name.as_str());
            msg.append("'");
            Err(runtime(msg))
        }
    }

    fn eval_call(&mut self, e: &Expr, env: Env, fuel: u64) -> (r: Result<Value, Error>)
        requires
            e is Call,
        ensures
            eval(old(self).state(), env as nat, e@, fuel as nat) == (final(self).state(), value_res(r)),
            final(self).store@.len() >= old(self).store@.len(),
        decreases fuel, e, 1nat,
    {
        match e {
            Expr::Call(callee, args) => {
                proof {
                    lemma_exprs_view(args@);
                }
                let c: &Expr = &**callee;
                if let Expr::Var(name) = c {
                    if builtin_name(name) && get(&self.store, env, name.as_str()).is_none() {
                        let vals = self.eval_list(args, args.len(), env, fuel)?;
                        return self.call_builtin(name, vals);
                    }
                }
                let cv = self.eval(callee, env, fuel)?;
                match cv {
                    Value::Closure { params, body, env: cenv } => {
                        let count = if params.len() < args.len() { params.len() } else { args.len() };
                        let ghost s1 = self.state();
                        proof {
                            lemma_eval_list_len(s1, env as nat, exprs_view(args@), count as nat, fuel as nat);
                        }
                        let vals = self.eval_list(args, count, env, fuel)?;
                        let ghost s2 = self.state();
                        let ghost pv = names_view(params@);
                        let ghost vv = values_view(vals@);
                        let call_env = Scope::child(&mut self.store, cenv);
                        let mut i: usize = 0;
                        assert(bindings(pv, vv.take(0)) =~= Seq::<(Seq<char>, SValue)>::empty());
                        while i < vals.len()
                            invariant
                                i <= vals.len(),
                                vals.len() <= params.len(),
                                call_env == s2.st.len(),
                                vv == values_view(vals@),
                                pv == names_view(params@),
                                self.store@ == push_call_frame(s2.st, cenv as nat, pv, vv.take(i as int)),
                                strings_view(self.output@) == s2.out,
                            decreases vals.len() - i,
                        {
                            let ghost before = self.store@;
                            define(&mut self.store, call_env, params[i].as_str(), copy_value(&vals[i]));
                            proof {
                                assert(bindings(pv, vv.take(i + 1)) =~= bindings(pv, vv.take(i as int)).push((pv[i as int], vv[i as int])));
                                assert(self.store@ =~= push_call_frame(s2.st, cenv as nat, pv, vv.take(i + 1)));
                            }
                            i = i + 1;
                        }
                        assert(vv.take(vals.len() as int) =~= vv);
                        if fuel == 0 {
                            return Err(runtime(String::from_str("recursion limit exceeded")));
                        }
                        self.eval(&body, call_env, fuel - 1)
                    },
                    _ => Err(runtime(String::from_str("attempt to call a non-function"))),
                }
            },
            _ => Err(runtime(String::new())),
        }
    }
}

/// Runs a program from an empty root scope and returns the value of its last
/// statement (`Int(0)` when there is none) together with the lines that
/// `print` wrote, in order (also when the run ends in an error).
#[verifier::loop_isolation(false)]
pub fn run_program_with_output(prog: &Program) -> (r: (Result<Value, Error>, Vec<String>))
    ensures
        run_spec(program_view(prog@)).1 == value_res(r.0),
        run_spec(program_view(prog@)).0.out == strings_view(r.1@),
{
    let mut it = Interp { store: Store::new(), output: Vec::new() };
    let root = Scope::root(&mut it.store);
    assert(strings_view(it.output@) =~= Seq::<Seq<char>>::empty());
    let ghost pv = program_view(prog@);
    let mut last = Value::Int(0);
    let mut cur: Env = root;
    let mut ck = Checker::new();
    let mut checked = true;
    let mut i: usize = 0;
    assert(pv.skip(0) =~= pv);
    while i < prog.len()
        invariant
            i <= prog.len(),
            cur < it.store@.len(),
            pv == program_view(prog@),
            checked ==> ck.ready(),
            run_spec(pv) == run_stmts(
                it.state(),
                cur as nat,
                if checked { Some(ck.view_scopes()) } else { None },
                pv.skip(i as int),
                last@,
                CALL_DEPTH_LIMIT as nat,
            ),
        decreases prog.len() - i,
    {
        assert(pv.skip(i as int)[0] == pv[i as int]);
        assert(pv.skip(i as int).drop_first() =~= pv.skip(i + 1));
        let opens = if checked {
            match ck.step(&prog[i]) {
                Some(b) => b,
                None => {
                    checked = false;
                    false
                },
            }
        } else {
            false
        };
        match &prog[i] {
            Stmt::Let { name, rec, value, .. } => {
                if opens && *rec {
                    let scope = Scope::child(&mut it.store, cur);
                    match it.eval(value, scope, CALL_DEPTH_LIMIT) {
                        Ok(v) => {
                            define(&mut it.store, scope, name.as_str(), copy_value(&v));
                            last = v;
                            cur = scope;
                        },
                        Err(e) => {
                            return (Err(e), it.output);
                        },
                    }
                } else {
                    match it.eval(value, cur, CALL_DEPTH_LIMIT) {
                        Ok(v) => {
                            if opens {
                                let scope = Scope::child(&mut it.store, cur);
                                define(&mut it.store, scope, name.as_str(), copy_value(&v));
                                cur = scope;
                            } else {
                                let target = match home(&it.store, cur, name.as_str()) {
                                    Some(h) => h,
                                    None => cur,
                                };
                                define(&mut it.store, target, name.as_str(), copy_value(&v));
                            }
                            last = v;
                        },
                        Err(e) => {
                            return (Err(e), it.output);
                        },
                    }
                }
            },
            Stmt::Expr(e) => {
                match it.eval(e, cur, CALL_DEPTH_LIMIT) {
                    Ok(v) => {
                        last = v;
                    },
                    Err(err) => {
                        return (Err(err), it.output);
                    },
                }
            },
        }
        i = i + 1;
    }
    (Ok(last), it.output)
}

/// Runs a program and returns the value of its last statement (`Int(0)` when
/// there is none).
pub fn run_program(prog: &Program) -> (r: Result<Value, Error>)
    ensures
        value_res(r) == run_spec(program_view(prog@)).1,
{
    let (r, _out) = run_program_with_output(prog);
    r
}
} // verus!
