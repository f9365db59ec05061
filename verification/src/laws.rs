//! Properties of the library as a whole, stated over the models and proved.
use vstd::prelude::*;
use crate::ast::{BinOp, SExpr, SStmt, SType, UnOp};
use crate::lexer::STok;
use crate::lexer::SToken;
use crate::parser::{at, call_at, call_rest, expr_at, level_expr, level_op, level_rest, primary_at, unary_at};
use crate::error::SError;
use crate::interpreter::{SState, abs, call_builtin, div_i64, eval, eval_binary, eval_list, param_names, rem_i64, trunc_div};
use crate::lexer::{lex_chars, word_tok};
use crate::text::{digit_char, digits_value, is_digit, nat_text, unicode_whitespace};
use crate::types::{SScope, binary_type, check_args, check_stmt, env_define, env_lookup, infer};
use crate::value::{SFrame, SValue, store_define, store_get, store_push, value_text, vars_lookup};
use crate::{program_of, run_output_of, run_spec_of, typecheck_spec};
use crate::interpreter::run_spec;

verus! {

/// A program that does not type-check never runs: `run` reports exactly the
/// error that `typecheck` reports, and nothing is printed.
pub proof fn law_rejected_program_never_runs(src: Seq<char>)
    requires
        typecheck_spec(src) is Err,
    ensures
        run_spec_of(src) == Err::<SValue, SError>(typecheck_spec(src)->Err_0),
        run_output_of(src) == Seq::<Seq<char>>::empty(),
{
}

/// A program that type-checks is run: `run` gives the outcome of evaluating
/// the parsed program.
pub proof fn law_accepted_program_runs(src: Seq<char>)
    requires
        typecheck_spec(src) is Ok,
    ensures
        program_of(src) is Ok,
        run_spec_of(src) == run_spec(program_of(src)->Ok_0).1,
{
}

/// Reading a name in the scope it was just defined in gives the defined value.
pub proof fn law_get_after_define(st: Seq<SFrame>, env: nat, name: Seq<char>, v: SValue)
    requires
        env < st.len(),
    ensures
        store_get(store_define(st, env, name, v), env, name) == Some(v),
{
    let st2 = store_define(st, env, name, v);
    assert(st2[env as int].vars.last() == (name, v));
}

proof fn lemma_vars_lookup_push_other(
    vars: Seq<(Seq<char>, SValue)>,
    name: Seq<char>,
    v: SValue,
    other: Seq<char>,
)
    requires
        other != name,
    ensures
        vars_lookup(vars.push((name, v)), other) == vars_lookup(vars, other),
{
    assert(vars.push((name, v)).drop_last() =~= vars);
}

/// Defining a name changes what no scope sees for any other name.
pub proof fn law_define_keeps_other_names(
    st: Seq<SFrame>,
    env: nat,
    name: Seq<char>,
    v: SValue,
    at: nat,
    other: Seq<char>,
)
    requires
        other != name,
    ensures
        store_get(store_define(st, env, name, v), at, other) == store_get(st, at, other),
    decreases at,
{
    let st2 = store_define(st, env, name, v);
    if at < st.len() {
        if at == env {
            lemma_vars_lookup_push_other(st[env as int].vars, name, v, other);
        }
        match st[at as int].parent {
            Some(p) => if p < at {
                law_define_keeps_other_names(st, env, name, v, p, other);
            },
            None => {},
        }
    }
}

/// Making a new scope changes nothing that the existing scopes see.
pub proof fn law_new_scope_keeps_old_scopes(st: Seq<SFrame>, parent: Option<nat>, at: nat, name: Seq<char>)
    requires
        at < st.len(),
    ensures
        store_get(store_push(st, parent), at, name) == store_get(st, at, name),
    decreases at,
{
    let st2 = store_push(st, parent);
    assert(st2[at as int] == st[at as int]);
    match st[at as int].parent {
        Some(p) => if p < at {
            law_new_scope_keeps_old_scopes(st, parent, p, name);
        },
        None => {},
    }
}

/// A new scope sees every binding of its parent scope until it binds the
/// name itself.
pub proof fn law_child_sees_parent(st: Seq<SFrame>, parent: nat, name: Seq<char>)
    requires
        parent < st.len(),
    ensures
        store_get(store_push(st, Some(parent)), st.len(), name) == store_get(st, parent, name),
{
    law_new_scope_keeps_old_scopes(st, Some(parent), parent, name);
    let st2 = store_push(st, Some(parent));
    assert(st2[st.len() as int].vars.len() == 0);
}

/// A function value captures the scope it is made in, so once a `let`
/// binds it there, its body can see the function itself: this is what makes
/// recursion work.
pub proof fn law_function_sees_its_own_binding(
    s: SState,
    env: nat,
    params: Seq<(Seq<char>, SType)>,
    ret: Option<SType>,
    body: SExpr,
    fuel: nat,
    name: Seq<char>,
)
    requires
        env < s.st.len(),
    ensures
        ({
            let (s1, r) = eval(s, env, SExpr::Lambda { params, ret, body: Box::new(body) }, fuel);
            &&& s1 == s
            &&& r == Ok::<SValue, SError>(SValue::Closure { params: param_names(params), body, env })
            &&& store_get(store_define(s1.st, env, name, r->Ok_0), r->Ok_0->Closure_env, name)
                == Some(r->Ok_0)
        }),
{
    let c = SValue::Closure { params: param_names(params), body, env };
    law_get_after_define(s.st, env, name, c);
}

/// In the checker, a name looked up right after it is defined has the type
/// it was defined with.
pub proof fn law_checker_lookup_after_define(scs: Seq<SScope>, name: Seq<char>, t: SType)
    requires
        scs.len() > 0,
    ensures
        env_lookup(env_define(scs, name, t), name) == Some(t),
{
    let scs2 = env_define(scs, name, t);
    assert(scs2.last().last() == (name, t));
}

/// Integer arithmetic fails only on division or modulo by zero; every other
/// arithmetic operation on two integers gives an integer.
pub proof fn law_arithmetic_fails_only_on_zero_divisor(op: BinOp, x: i64, y: i64)
    requires
        op is Add || op is Sub || op is Mul || op is Div || op is Mod,
    ensures
        eval_binary(op, SValue::Int(x), SValue::Int(y)) is Err <==> ((op is Div || op is Mod) && y == 0),
        eval_binary(op, SValue::Int(x), SValue::Int(y)) matches Ok(v) ==> v is Int,
{
}

/// `print` gives back its argument and writes the argument's text as one
/// more line of output; it changes no scope.
pub proof fn law_print_returns_its_argument(s: SState, vals: Seq<SValue>)
    requires
        vals.len() > 0,
    ensures
        call_builtin(s, "print"@, vals).1 == Ok::<SValue, SError>(vals[0]),
        call_builtin(s, "print"@, vals).0.out == s.out.push(value_text(vals[0])),
        call_builtin(s, "print"@, vals).0.st == s.st,
{
}


/// `==` and `!=` accept two operands of the same type, unless it is a
/// function type, and give a `Bool`; any other pair is rejected.
pub proof fn law_equality_compares_same_non_function_types(op: BinOp, lt: SType, rt: SType)
    requires
        op is Eq || op is Ne,
    ensures
        binary_type(op, lt, rt) is Ok <==> (!(lt is Fn) && rt == lt),
        binary_type(op, lt, rt) matches Ok(t) ==> t == SType::Bool,
{
}

/// The other operators' types: arithmetic takes and gives `Int`, a
/// comparison takes `Int` and gives `Bool`, `++` takes and gives `Str`,
/// `&&` and `||` take and give `Bool`; any other operand type is rejected.
pub proof fn law_operator_types(op: BinOp, lt: SType, rt: SType)
    ensures
        (op is Add || op is Sub || op is Mul || op is Div || op is Mod) ==> (binary_type(op, lt, rt) is Ok
            <==> (lt == SType::Int && rt == SType::Int)) && (binary_type(op, lt, rt) matches Ok(t) ==> t
            == SType::Int),
        (op is Lt || op is Le || op is Gt || op is Ge) ==> (binary_type(op, lt, rt) is Ok <==> (lt
            == SType::Int && rt == SType::Int)) && (binary_type(op, lt, rt) matches Ok(t) ==> t
            == SType::Bool),
        op is Concat ==> (binary_type(op, lt, rt) is Ok <==> (lt == SType::Str && rt == SType::Str)) && (
        binary_type(op, lt, rt) matches Ok(t) ==> t == SType::Str),
        (op is And || op is Or) ==> (binary_type(op, lt, rt) is Ok <==> (lt == SType::Bool && rt
            == SType::Bool)) && (binary_type(op, lt, rt) matches Ok(t) ==> t == SType::Bool),
{
}

/// Comparisons of two integers give the order of the integers; `>=` is the
/// negation of `<`, and `>` is `<` with the operands swapped.
pub proof fn law_integer_comparisons(x: i64, y: i64)
    ensures
        eval_binary(BinOp::Lt, SValue::Int(x), SValue::Int(y)) == Ok::<SValue, SError>(SValue::Bool(x < y)),
        eval_binary(BinOp::Le, SValue::Int(x), SValue::Int(y)) == Ok::<SValue, SError>(SValue::Bool(x <= y)),
        eval_binary(BinOp::Gt, SValue::Int(x), SValue::Int(y)) == Ok::<SValue, SError>(SValue::Bool(x > y)),
        eval_binary(BinOp::Ge, SValue::Int(x), SValue::Int(y)) == Ok::<SValue, SError>(SValue::Bool(x >= y)),
        eval_binary(BinOp::Ge, SValue::Int(x), SValue::Int(y)) == Ok::<SValue, SError>(SValue::Bool(
            !(eval_binary(BinOp::Lt, SValue::Int(x), SValue::Int(y))->Ok_0->Bool_0),
        )),
        eval_binary(BinOp::Gt, SValue::Int(x), SValue::Int(y)) == eval_binary(
            BinOp::Lt,
            SValue::Int(y),
            SValue::Int(x),
        ),
        eval_binary(BinOp::Le, SValue::Int(x), SValue::Int(y)) == eval_binary(
            BinOp::Ge,
            SValue::Int(y),
            SValue::Int(x),
        ),
{
}

/// `==` and `!=` on integers, booleans and strings compare their contents,
/// and `!=` is the negation of `==`; `&&`, `||` and `++` do what they say.
pub proof fn law_equality_and_logic(a: SValue, b: SValue)
    ensures
        (a matches SValue::Int(x) && b matches SValue::Int(y)) ==> eval_binary(BinOp::Eq, a, b) == Ok::<
            SValue,
            SError,
        >(SValue::Bool(a->Int_0 == b->Int_0)),
        (a is Bool && b is Bool) ==> eval_binary(BinOp::Eq, a, b) == Ok::<SValue, SError>(SValue::Bool(
            a->Bool_0 == b->Bool_0,
        )),
        (a is Str && b is Str) ==> eval_binary(BinOp::Eq, a, b) == Ok::<SValue, SError>(SValue::Bool(
            a->Str_0 == b->Str_0,
        )),
        eval_binary(BinOp::Eq, a, b) is Ok && eval_binary(BinOp::Ne, a, b) is Ok,
        eval_binary(BinOp::Ne, a, b)->Ok_0 == SValue::Bool(!(eval_binary(BinOp::Eq, a, b)->Ok_0->Bool_0)),
        (a is Bool && b is Bool) ==> eval_binary(BinOp::And, a, b) == Ok::<SValue, SError>(SValue::Bool(
            a->Bool_0 && b->Bool_0,
        )),
        (a is Bool && b is Bool) ==> eval_binary(BinOp::Or, a, b) == Ok::<SValue, SError>(SValue::Bool(
            a->Bool_0 || b->Bool_0,
        )),
        (a is Str && b is Str) ==> eval_binary(BinOp::Concat, a, b) == Ok::<SValue, SError>(SValue::Str(
            a->Str_0 + b->Str_0,
        )),
{
}

/// Integer `+`, `-` and `*` give the mathematical result whenever it fits
/// in an `i64`.
pub proof fn law_integer_arithmetic(x: i64, y: i64)
    ensures
        i64::MIN <= x + y <= i64::MAX ==> eval_binary(BinOp::Add, SValue::Int(x), SValue::Int(y)) == Ok::<
            SValue,
            SError,
        >(SValue::Int((x + y) as i64)),
        i64::MIN <= x - y <= i64::MAX ==> eval_binary(BinOp::Sub, SValue::Int(x), SValue::Int(y)) == Ok::<
            SValue,
            SError,
        >(SValue::Int((x - y) as i64)),
        i64::MIN <= x * y <= i64::MAX ==> eval_binary(BinOp::Mul, SValue::Int(x), SValue::Int(y)) == Ok::<
            SValue,
            SError,
        >(SValue::Int((x * y) as i64)),
{
}


/// Integer `/` and `%` by a non-zero divisor: the quotient times the divisor
/// plus the remainder gives back the dividend, the remainder is smaller than
/// the divisor and takes the dividend's sign (division rounds toward zero),
/// except that `i64::MIN / -1` wraps.
pub proof fn law_division_and_remainder(x: i64, y: i64)
    requires
        y != 0,
        !(x == i64::MIN && y == -1),
    ensures
        eval_binary(BinOp::Div, SValue::Int(x), SValue::Int(y)) matches Ok(SValue::Int(q)) && eval_binary(
            BinOp::Mod,
            SValue::Int(x),
            SValue::Int(y),
        ) matches Ok(SValue::Int(r)) && {
            &&& q * y + r == x
            &&& -abs(y as int) < r < abs(y as int)
            &&& (r == 0 || (r < 0) == (x < 0))
        },
{
    let ax: int = abs(x as int) as int;
    let ay: int = abs(y as int) as int;
    let m: int = ax / ay;
    let rem: int = ax % ay;
    vstd::arithmetic::div_mod::lemma_fundamental_div_mod(ax, ay);
    vstd::arithmetic::div_mod::lemma_mod_bound(ax, ay);
    assert(0 <= m <= ax) by (nonlinear_arith)
        requires
            ax == ay * m + rem,
            0 <= rem < ay,
            ay >= 1,
            ax >= 0,
    ;
    assert(m == ax ==> ay == 1 || ax == 0) by (nonlinear_arith)
        requires
            ax == ay * m + rem,
            0 <= rem,
            ay >= 1,
            m >= 0,
    ;
    let q: int = trunc_div(x as int, y as int);
    assert(q <= i64::MAX);
    assert(div_i64(x, y) as int == q);
    let r: int = rem_i64(x, y) as int;
    assert(abs(x as int) % abs(y as int) == rem);
    if x >= 0 {
        assert(r == rem);
    } else {
        assert(r == -rem);
    }
    if (x < 0) == (y < 0) {
        assert(q == m);
    } else {
        assert(q == -m);
    }
    assert(q * (y as int) + r == x as int) by (nonlinear_arith)
        requires
            ax == ay * m + rem,
            ax == (if x < 0 { -(x as int) } else { x as int }),
            ay == (if y < 0 { -(y as int) } else { y as int }),
            q == (if (x < 0) == (y < 0) { m } else { -m }),
            r == (if x >= 0 { rem } else { -rem }),
    ;
}


/// Whether operator token `a` binds more loosely than `b`: its level is
/// higher.
pub open spec fn looser(a: STok, b: STok) -> bool {
    forall|la: nat, lb: nat| level_op(la, a) is Some && level_op(lb, b) is Some ==> la > lb
}

/// Whether operator tokens `a` and `b` share a precedence level.
pub open spec fn same_level(a: STok, b: STok) -> bool {
    forall|la: nat, lb: nat| level_op(la, a) is Some && level_op(lb, b) is Some ==> la == lb
}

/// Whether token `t` stands for operator `op` at one of the expression
/// levels, and for nothing at any other level.
pub open spec fn stands_for(t: STok, op: BinOp) -> bool {
    &&& exists|l: nat| 5 <= l <= 11 && #[trigger] level_op(l, t) == Some(op)
    &&& forall|l: nat| #[trigger] level_op(l, t) is Some ==> level_op(l, t) == Some(op)
}

/// Operator precedence: `||` binds loosest, then `&&`, then `==` and `!=`,
/// then `<`, `<=`, `>`, `>=`, then `++`, then `+` and `-`, and `*`, `/`,
/// `%` bind tightest; each operator token stands for its operator, and no
/// other token is a binary operator.
pub proof fn law_operator_precedence(t: STok)
    ensures
        stands_for(STok::PipePipe, BinOp::Or),
        stands_for(STok::AmpAmp, BinOp::And),
        stands_for(STok::EqEq, BinOp::Eq),
        stands_for(STok::NotEq, BinOp::Ne),
        stands_for(STok::Lt, BinOp::Lt),
        stands_for(STok::Le, BinOp::Le),
        stands_for(STok::Gt, BinOp::Gt),
        stands_for(STok::Ge, BinOp::Ge),
        stands_for(STok::PlusPlus, BinOp::Concat),
        stands_for(STok::Plus, BinOp::Add),
        stands_for(STok::Minus, BinOp::Sub),
        stands_for(STok::Star, BinOp::Mul),
        stands_for(STok::Slash, BinOp::Div),
        stands_for(STok::Percent, BinOp::Mod),
        looser(STok::PipePipe, STok::AmpAmp),
        looser(STok::AmpAmp, STok::EqEq),
        same_level(STok::EqEq, STok::NotEq),
        looser(STok::EqEq, STok::Lt),
        same_level(STok::Lt, STok::Le),
        same_level(STok::Lt, STok::Gt),
        same_level(STok::Lt, STok::Ge),
        looser(STok::Lt, STok::PlusPlus),
        looser(STok::PlusPlus, STok::Plus),
        same_level(STok::Plus, STok::Minus),
        looser(STok::Plus, STok::Star),
        same_level(STok::Star, STok::Slash),
        same_level(STok::Star, STok::Percent),
        !(t is PipePipe || t is AmpAmp || t is EqEq || t is NotEq || t is Lt || t is Le || t is Gt || t is Ge
            || t is PlusPlus || t is Plus || t is Minus || t is Star || t is Slash || t is Percent) ==> forall|
            l: nat,
        | #[trigger] level_op(l, t) is None,
{
    assert(level_op(11, STok::PipePipe) == Some(BinOp::Or));
    assert(level_op(10, STok::AmpAmp) == Some(BinOp::And));
    assert(level_op(9, STok::EqEq) == Some(BinOp::Eq));
    assert(level_op(9, STok::NotEq) == Some(BinOp::Ne));
    assert(level_op(8, STok::Lt) == Some(BinOp::Lt));
    assert(level_op(8, STok::Le) == Some(BinOp::Le));
    assert(level_op(8, STok::Gt) == Some(BinOp::Gt));
    assert(level_op(8, STok::Ge) == Some(BinOp::Ge));
    assert(level_op(7, STok::PlusPlus) == Some(BinOp::Concat));
    assert(level_op(6, STok::Plus) == Some(BinOp::Add));
    assert(level_op(6, STok::Minus) == Some(BinOp::Sub));
    assert(level_op(5, STok::Star) == Some(BinOp::Mul));
    assert(level_op(5, STok::Slash) == Some(BinOp::Div));
    assert(level_op(5, STok::Percent) == Some(BinOp::Mod));
}


proof fn lemma_level_unique(t: STok, l1: nat, l2: nat)
    requires
        level_op(l1, t) is Some,
        level_op(l2, t) is Some,
    ensures
        l1 == l2,
{
}

/// A name followed by a token that continues no expression of level `l`
/// parses, at level `l`, as that name alone.
proof fn lemma_parse_name(ts: Seq<SToken>, q: nat, x: Seq<char>, l: nat)
    requires
        q + 1 < ts.len(),
        at(ts, q) == STok::Ident(x),
        !(at(ts, q + 1) is LParen),
        l <= 11,
        forall|m: nat| 5 <= m <= l ==> #[trigger] level_op(m, at(ts, q + 1)) is None,
    ensures
        level_expr(l, ts, q) == Ok::<(SExpr, nat), SError>((SExpr::Var(x), q + 1)),
    decreases l,
{
    assert(unary_at(ts, q) == call_at(ts, q));
    assert(primary_at(ts, q) == Ok::<(SExpr, nat), SError>((SExpr::Var(x), q + 1)));
    assert(call_rest(ts, q + 1, SExpr::Var(x)) == Ok::<(SExpr, nat), SError>((SExpr::Var(x), q + 1)));
    assert(call_at(ts, q) == Ok::<(SExpr, nat), SError>((SExpr::Var(x), q + 1)));
    assert(unary_at(ts, q) == Ok::<(SExpr, nat), SError>((SExpr::Var(x), q + 1)));
    if l >= 5 {
        lemma_parse_name(ts, q, x, (l - 1) as nat);
        assert(level_op(l, at(ts, q + 1)) is None);
        assert(level_rest(l, ts, q + 1, SExpr::Var(x)) == Ok::<(SExpr, nat), SError>((SExpr::Var(x), q + 1)));
    }
}

/// `x t y` followed by a token that continues no expression parses at
/// level `l` as `x` alone below the level of `t`, and as `x op y` from it on.
proof fn lemma_parse_two(ts: Seq<SToken>, q: nat, x: Seq<char>, t: STok, lt: nat, op: BinOp, y: Seq<char>, l: nat)
    requires
        q + 3 < ts.len(),
        at(ts, q) == STok::Ident(x),
        at(ts, q + 1) == t,
        at(ts, q + 2) == STok::Ident(y),
        !(at(ts, q + 3) is LParen),
        forall|m: nat| #[trigger] level_op(m, at(ts, q + 3)) is None,
        5 <= lt <= 11,
        level_op(lt, t) == Some(op),
        l <= 11,
    ensures
        level_expr(l, ts, q) == if l < lt {
            Ok::<(SExpr, nat), SError>((SExpr::Var(x), q + 1))
        } else {
            Ok((SExpr::Binary(op, Box::new(SExpr::Var(x)), Box::new(SExpr::Var(y))), q + 3))
        },
    decreases l,
{
    assert forall|m: nat| 5 <= m <= lt - 1 implies #[trigger] level_op(m, at(ts, q + 1)) is None by {
        if level_op(m, t) is Some {
            lemma_level_unique(t, m, lt);
        }
    }
    if l < lt {
        lemma_parse_name(ts, q, x, l);
    } else {
        lemma_parse_two(ts, q, x, t, lt, op, y, (l - 1) as nat);
        lemma_parse_name(ts, q + 2, y, (l - 1) as nat);
        let bin = SExpr::Binary(op, Box::new(SExpr::Var(x)), Box::new(SExpr::Var(y)));
        assert(level_op(l, at(ts, q + 3)) is None);
        assert(level_rest(l, ts, q + 3, bin) == Ok::<(SExpr, nat), SError>((bin, q + 3)));
        if l == lt {
            lemma_parse_name(ts, q, x, (l - 1) as nat);
            assert(level_rest(l, ts, q + 1, SExpr::Var(x)) == Ok::<(SExpr, nat), SError>((bin, q + 3)));
        }
    }
}

/// `a t1 b t2 c` followed by a token that continues no expression, parsed
/// at level `l`.
proof fn lemma_parse_three(
    ts: Seq<SToken>,
    p: nat,
    a: Seq<char>,
    t1: STok,
    l1: nat,
    op1: BinOp,
    b: Seq<char>,
    t2: STok,
    l2: nat,
    op2: BinOp,
    c: Seq<char>,
    l: nat,
)
    requires
        p + 5 < ts.len(),
        at(ts, p) == STok::Ident(a),
        at(ts, p + 1) == t1,
        at(ts, p + 2) == STok::Ident(b),
        at(ts, p + 3) == t2,
        at(ts, p + 4) == STok::Ident(c),
        !(at(ts, p + 5) is LParen),
        forall|m: nat| #[trigger] level_op(m, at(ts, p + 5)) is None,
        5 <= l1 <= 11,
        5 <= l2 <= 11,
        level_op(l1, t1) == Some(op1),
        level_op(l2, t2) == Some(op2),
        l <= 11,
    ensures
        level_expr(l, ts, p) == if l < l1 {
            Ok::<(SExpr, nat), SError>((SExpr::Var(a), p + 1))
        } else if l1 <= l2 && l < l2 {
            Ok((SExpr::Binary(op1, Box::new(SExpr::Var(a)), Box::new(SExpr::Var(b))), p + 3))
        } else if l1 <= l2 {
            Ok((
                SExpr::Binary(
                    op2,
                    Box::new(SExpr::Binary(op1, Box::new(SExpr::Var(a)), Box::new(SExpr::Var(b)))),
                    Box::new(SExpr::Var(c)),
                ),
                p + 5,
            ))
        } else {
            Ok((
                SExpr::Binary(
                    op1,
                    Box::new(SExpr::Var(a)),
                    Box::new(SExpr::Binary(op2, Box::new(SExpr::Var(b)), Box::new(SExpr::Var(c)))),
                ),
                p + 5,
            ))
        },
    decreases l,
{
    assert forall|m: nat| 5 <= m <= l1 - 1 implies #[trigger] level_op(m, at(ts, p + 1)) is None by {
        if level_op(m, t1) is Some {
            lemma_level_unique(t1, m, l1);
        }
    }
    if l < l1 {
        lemma_parse_name(ts, p, a, l);
    } else {
        lemma_parse_three(ts, p, a, t1, l1, op1, b, t2, l2, op2, c, (l - 1) as nat);
        lemma_parse_two(ts, p + 2, b, t2, l2, op2, c, (l - 1) as nat);
        lemma_parse_name(ts, p + 4, c, (l - 1) as nat);
        if level_op(l, t2) is Some {
            lemma_level_unique(t2, l, l2);
        }
        if level_op(l, t1) is Some {
            lemma_level_unique(t1, l, l1);
        }
        let va = SExpr::Var(a);
        let vb = SExpr::Var(b);
        let vc = SExpr::Var(c);
        let b1 = SExpr::Binary(op1, Box::new(va), Box::new(vb));
        let t2e = SExpr::Binary(op2, Box::new(b1), Box::new(vc));
        let r = SExpr::Binary(op2, Box::new(vb), Box::new(vc));
        let t1e = SExpr::Binary(op1, Box::new(va), Box::new(r));
        assert(level_op(l, at(ts, p + 5)) is None);
        assert(level_rest(l, ts, p + 5, t2e) == Ok::<(SExpr, nat), SError>((t2e, p + 5)));
        assert(level_rest(l, ts, p + 5, t1e) == Ok::<(SExpr, nat), SError>((t1e, p + 5)));
        if l1 <= l2 {
            if l == l2 {
                assert(level_rest(l, ts, p + 3, b1) == Ok::<(SExpr, nat), SError>((t2e, p + 5)));
            } else {
                assert(level_rest(l, ts, p + 3, b1) == Ok::<(SExpr, nat), SError>((b1, p + 3)));
            }
        }
        if l == l1 {
            lemma_parse_name(ts, p, a, (l - 1) as nat);
            if l1 <= l2 {
                assert(level_expr((l - 1) as nat, ts, p + 2) == Ok::<(SExpr, nat), SError>((vb, p + 3)));
                assert(level_rest(l, ts, p + 1, va) == level_rest(l, ts, p + 3, b1));
            } else {
                assert(level_expr((l - 1) as nat, ts, p + 2) == Ok::<(SExpr, nat), SError>((r, p + 5)));
                assert(level_rest(l, ts, p + 1, va) == level_rest(l, ts, p + 5, t1e));
            }
        }
    }
}

/// Precedence and associativity in the parser: of `a t1 b t2 c` with two
/// binary operator tokens, the operator of the tighter level takes its
/// operands first; at the same level the left one does (operators group to
/// the left). So `a || b && c` is `a || (b && c)` and `a - b - c` is
/// `(a - b) - c`.
pub proof fn law_binary_operators_group_by_precedence_then_left(
    ts: Seq<SToken>,
    p: nat,
    a: Seq<char>,
    t1: STok,
    b: Seq<char>,
    t2: STok,
    c: Seq<char>,
    l1: nat,
    l2: nat,
)
    requires
        p + 5 < ts.len(),
        at(ts, p) == STok::Ident(a),
        at(ts, p + 1) == t1,
        at(ts, p + 2) == STok::Ident(b),
        at(ts, p + 3) == t2,
        at(ts, p + 4) == STok::Ident(c),
        at(ts, p + 5) == STok::Semi,
        level_op(l1, t1) is Some,
        level_op(l2, t2) is Some,
    ensures
        expr_at(ts, p) == Ok::<(SExpr, nat), SError>(
            (
                if l1 <= l2 {
                    SExpr::Binary(
                        level_op(l2, t2)->0,
                        Box::new(
                            SExpr::Binary(level_op(l1, t1)->0, Box::new(SExpr::Var(a)), Box::new(SExpr::Var(b))),
                        ),
                        Box::new(SExpr::Var(c)),
                    )
                } else {
                    SExpr::Binary(
                        level_op(l1, t1)->0,
                        Box::new(SExpr::Var(a)),
                        Box::new(
                            SExpr::Binary(level_op(l2, t2)->0, Box::new(SExpr::Var(b)), Box::new(SExpr::Var(c))),
                        ),
                    )
                },
                p + 5,
            ),
        ),
{
    assert(5 <= l1 <= 11);
    assert(5 <= l2 <= 11);
    lemma_parse_three(ts, p, a, t1, l1, level_op(l1, t1)->0, b, t2, l2, level_op(l2, t2)->0, c, 11);
}


/// The characters the lexer treats as whitespace are exactly those that
/// `char::is_whitespace` accepts: tab, line feed, vertical tab, form feed,
/// carriage return, space, and the Unicode spaces and separators
/// U+0085, U+00A0, U+1680, U+2000 to U+200A, U+2028, U+2029, U+202F,
/// U+205F and U+3000.
pub proof fn law_whitespace_characters(c: char)
    ensures
        unicode_whitespace(c) <==> (c == '\t' || c == '\n' || c == '\u{0B}' || c == '\u{0C}' || c == '\r'
            || c == ' ' || c == '\u{85}' || c == '\u{A0}' || c == '\u{1680}' || ('\u{2000}' <= c && c
            <= '\u{200A}') || c == '\u{2028}' || c == '\u{2029}' || c == '\u{202F}' || c == '\u{205F}'
            || c == '\u{3000}'),
{
}

/// The lexer skips whitespace: a line feed moves to the next line, and any
/// other whitespace character (a carriage return among them) is passed over
/// on the same line, so `"a\r\nb"` lexes as `"a\nb"` does.
pub proof fn law_lexer_skips_whitespace(cs: Seq<char>, i: nat, line: nat)
    requires
        i < cs.len(),
        unicode_whitespace(cs[i as int]),
    ensures
        cs[i as int] == '\n' ==> lex_chars(cs, i, line) == lex_chars(cs, i + 1, line + 1),
        cs[i as int] != '\n' ==> lex_chars(cs, i, line) == lex_chars(cs, i + 1, line),
{
}

/// The operands of a binary operator are evaluated left to right: the left
/// one first, from the state before; the right one from the state the left
/// one left (so what the left one prints comes first); and the right one
/// not at all when the left one fails.
pub proof fn law_operands_evaluate_left_to_right(s: SState, env: nat, op: BinOp, l: SExpr, r: SExpr, fuel: nat)
    ensures
        ({
            let (s1, ra) = eval(s, env, l, fuel);
            let whole = eval(s, env, SExpr::Binary(op, Box::new(l), Box::new(r)), fuel);
            &&& ra is Err ==> whole == (s1, Err::<SValue, SError>(ra->Err_0))
            &&& ra is Ok ==> whole.0 == eval(s1, env, r, fuel).0
            &&& ra is Ok ==> whole.1 == match eval(s1, env, r, fuel).1 {
                Ok(b) => eval_binary(op, ra->Ok_0, b),
                Err(e) => Err(e),
            }
        }),
{
}

/// A list of expressions (the arguments of a call) is evaluated in order:
/// the first from the state before, the rest from the state it left, and
/// nothing after the first failure.
pub proof fn law_arguments_evaluate_in_order(s: SState, env: nat, es: Seq<SExpr>, fuel: nat)
    requires
        es.len() > 0,
    ensures
        ({
            let (s1, r0) = eval(s, env, es[0], fuel);
            let whole = eval_list(s, env, es, es.len(), fuel);
            let rest = eval_list(s1, env, es.drop_first(), (es.len() - 1) as nat, fuel);
            &&& r0 is Err ==> whole == (s1, Err::<Seq<SValue>, SError>(r0->Err_0))
            &&& r0 is Ok ==> whole.0 == rest.0
            &&& (r0 is Ok && rest.1 is Ok) ==> whole.1 == Ok::<Seq<SValue>, SError>(seq![r0->Ok_0] + rest.1->Ok_0)
        }),
{
}

/// An `if` evaluates its condition first and then exactly one branch, from
/// the state the condition left.
pub proof fn law_if_evaluates_condition_then_one_branch(s: SState, env: nat, c: SExpr, t: SExpr, f: SExpr, fuel: nat)
    ensures
        ({
            let (s1, rc) = eval(s, env, c, fuel);
            let whole = eval(s, env, SExpr::If(Box::new(c), Box::new(t), Box::new(f)), fuel);
            &&& rc == Ok::<SValue, SError>(SValue::Bool(true)) ==> whole == eval(s1, env, t, fuel)
            &&& rc == Ok::<SValue, SError>(SValue::Bool(false)) ==> whole == eval(s1, env, f, fuel)
        }),
{
}


/// Unary operators: `-` negates an integer (wrapping only at `i64::MIN`),
/// `!` negates a boolean, each after evaluating its operand.
pub proof fn law_unary_operators(s: SState, env: nat, x: SExpr, fuel: nat)
    ensures
        ({
            let (s1, rx) = eval(s, env, x, fuel);
            &&& (rx is Ok && rx->Ok_0 is Int && rx->Ok_0->Int_0 != i64::MIN) ==> eval(
                s,
                env,
                SExpr::Unary(UnOp::Neg, Box::new(x)),
                fuel,
            ) == (s1, Ok::<SValue, SError>(SValue::Int((-rx->Ok_0->Int_0) as i64)))
            &&& (rx is Ok && rx->Ok_0 is Bool) ==> eval(s, env, SExpr::Unary(UnOp::Not, Box::new(x)), fuel) == (
                s1,
                Ok::<SValue, SError>(SValue::Bool(!rx->Ok_0->Bool_0)),
            )
        }),
{
}

/// `len` of a string is its number of characters; `str` of an integer or a
/// boolean is its text; neither touches the output.
pub proof fn law_len_and_str(s: SState, x: Seq<char>, v: SValue)
    ensures
        call_builtin(s, "len"@, seq![SValue::Str(x)]) == (s, Ok::<SValue, SError>(SValue::Int(x.len() as i64))),
        call_builtin(s, "str"@, seq![v]) == (s, Ok::<SValue, SError>(SValue::Str(value_text(v)))),
        value_text(SValue::Bool(true)) == "true"@ && value_text(SValue::Bool(false)) == "false"@,
{
    reveal_strlit("len");
    reveal_strlit("str");
    reveal_strlit("print");
    assert("str"@ != "print"@) by {
        assert("str"@.len() != "print"@.len());
    }
    assert("str"@ != "len"@) by {
        assert("str"@[0] != "len"@[0]);
    }
    assert("len"@ != "print"@) by {
        assert("len"@.len() != "print"@.len());
    }
}

/// A name has the type of its newest binding in the innermost scope that
/// binds it, and is rejected when no scope does.
pub proof fn law_name_typing(scs: Seq<SScope>, n: Seq<char>)
    ensures
        infer(scs, SExpr::Var(n)) is Ok <==> env_lookup(scs, n) is Some,
        infer(scs, SExpr::Var(n)) matches Ok(t) ==> env_lookup(scs, n) == Some(t),
{
}

/// An `if` checks when its condition is a `Bool` and both branches have one
/// type, which is then its type.
pub proof fn law_if_typing(scs: Seq<SScope>, c: SExpr, t: SExpr, f: SExpr)
    ensures
        infer(scs, SExpr::If(Box::new(c), Box::new(t), Box::new(f))) is Ok <==> (infer(scs, c) == Ok::<
            SType,
            SError,
        >(SType::Bool) && infer(scs, t) is Ok && infer(scs, f) == infer(scs, t)),
        infer(scs, SExpr::If(Box::new(c), Box::new(t), Box::new(f))) is Ok ==> infer(
            scs,
            SExpr::If(Box::new(c), Box::new(t), Box::new(f)),
        ) == infer(scs, t),
{
}

/// A function literal has the function type of its parameters' types and
/// its body's type, the body checked with the parameters in scope; a
/// declared return type must be the body's type.
pub proof fn law_function_typing(scs: Seq<SScope>, params: Seq<(Seq<char>, SType)>, ret: Option<SType>, body: SExpr)
    ensures
        ({
            let e = SExpr::Lambda { params, ret, body: Box::new(body) };
            let bt = infer(scs.push(params), body);
            &&& infer(scs, e) is Ok <==> (bt is Ok && (ret matches Some(r) ==> bt == Ok::<SType, SError>(r)))
            &&& infer(scs, e) is Ok ==> infer(scs, e) == Ok::<SType, SError>(
                SType::Fn(params.map_values(|p: (Seq<char>, SType)| p.1), Box::new(bt->Ok_0)),
            )
        }),
{
}

/// A call of a function value checks when the callee has a function type,
/// there is one argument per parameter, and each argument has its
/// parameter's type; the call then has the function's result type.
pub proof fn law_call_typing(scs: Seq<SScope>, callee: SExpr, args: Seq<SExpr>, ps: Seq<SType>, r: SType)
    requires
        !(callee is Var),
        infer(scs, callee) == Ok::<SType, SError>(SType::Fn(ps, Box::new(r))),
    ensures
        infer(scs, SExpr::Call(Box::new(callee), args)) is Ok <==> (args.len() == ps.len() && forall|i: int|
            0 <= i < args.len() ==> #[trigger] infer(scs, args[i]) == Ok::<SType, SError>(ps[i])),
        infer(scs, SExpr::Call(Box::new(callee), args)) is Ok ==> infer(scs, SExpr::Call(Box::new(callee), args))
            == Ok::<SType, SError>(r),
{
    if args.len() == ps.len() {
        lemma_check_args_all(scs, args, ps, 0);
    }
}

proof fn lemma_check_args_all(scs: Seq<SScope>, args: Seq<SExpr>, ps: Seq<SType>, k: nat)
    requires
        args.len() == ps.len(),
    ensures
        check_args(scs, args, ps, k) is Ok <==> forall|i: int|
            0 <= i < args.len() ==> #[trigger] infer(scs, args[i]) == Ok::<SType, SError>(ps[i]),
    decreases args.len(),
{
    if args.len() > 0 {
        lemma_check_args_all(scs, args.drop_first(), ps.drop_first(), k + 1);
        if forall|i: int| 0 <= i < args.len() ==> #[trigger] infer(scs, args[i]) == Ok::<SType, SError>(ps[i]) {
            assert forall|i: int| 0 <= i < args.drop_first().len() implies #[trigger] infer(scs, args.drop_first()[i])
                == Ok::<SType, SError>(ps.drop_first()[i]) by {
                assert(args.drop_first()[i] == args[i + 1]);
                assert(infer(scs, args[i + 1]) == Ok::<SType, SError>(ps[i + 1]));
            }
            assert(infer(scs, args[0]) == Ok::<SType, SError>(ps[0]));
        }
        if check_args(scs, args, ps, k) is Ok {
            assert forall|i: int| 0 <= i < args.len() implies #[trigger] infer(scs, args[i]) == Ok::<SType, SError>(
                ps[i],
            ) by {
                if i > 0 {
                    assert(args.drop_first()[i - 1] == args[i]);
                    assert(infer(scs, args.drop_first()[i - 1]) == Ok::<SType, SError>(ps.drop_first()[i - 1]));
                }
            }
        }
    }
}

/// A `let` without `rec` binds its name, in the innermost scope, to the
/// value's type (which must equal a written annotation), and leaves every
/// other name as it was.
pub proof fn law_let_binds_the_inferred_type(scs: Seq<SScope>, name: Seq<char>, ty: Option<SType>, value: SExpr, other: Seq<char>)
    requires
        scs.len() > 0,
        other != name,
    ensures
        ({
            let st = SStmt::Let { name, rec: false, ty, value };
            &&& check_stmt(scs, st) is Ok <==> (infer(scs, value) is Ok && (ty matches Some(a) ==> infer(scs, value)
                == Ok::<SType, SError>(a)))
            &&& check_stmt(scs, st) is Ok ==> env_lookup(check_stmt(scs, st)->Ok_0, name) == Some(
                infer(scs, value)->Ok_0,
            )
            &&& check_stmt(scs, st) is Ok ==> env_lookup(check_stmt(scs, st)->Ok_0, other) == env_lookup(scs, other)
        }),
{
    let st = SStmt::Let { name, rec: false, ty, value };
    if check_stmt(scs, st) is Ok {
        let t = infer(scs, value)->Ok_0;
        let scs1 = check_stmt(scs, st)->Ok_0;
        assert(scs1 == env_define(scs, name, t));
        let last2 = scs.last().push((name, t));
        assert(scs1.last() == last2);
        assert(scs1.drop_last() =~= scs.drop_last());
        assert(last2.last() == (name, t));
        assert(last2.drop_last() =~= scs.last());
    }
}


/// The decimal text of a number is made of digits, starts with a non-zero
/// digit unless the number is zero, and reads back (as the lexer reads an
/// integer) as the number itself.
pub proof fn law_decimal_text_reads_back(n: nat)
    ensures
        forall|i: int| 0 <= i < nat_text(n).len() ==> is_digit(#[trigger] nat_text(n)[i]),
        nat_text(n).len() > 0,
        n > 0 ==> nat_text(n)[0] != '0',
        digits_value(nat_text(n)) == n,
    decreases n,
{
    if n < 10 {
        let t = nat_text(n);
        assert(t == seq![digit_char(n)]);
        assert(t.drop_last() =~= Seq::<char>::empty());
        assert(digits_value(t.drop_last()) == 0);
    } else {
        law_decimal_text_reads_back(n / 10);
        let pre = nat_text(n / 10);
        let t = nat_text(n);
        assert(t == pre.push(digit_char(n % 10)));
        assert(t.drop_last() =~= pre);
        assert(t.last() == digit_char(n % 10));
        assert(t[0] == pre[0]);
        assert forall|i: int| 0 <= i < t.len() implies is_digit(#[trigger] t[i]) by {
            if i < pre.len() {
                assert(t[i] == pre[i]);
            }
        }
        assert(n == (n / 10) * 10 + n % 10);
    }
}


/// A name is a keyword token when it spells one of the eight keywords, and
/// an identifier token holding its own text otherwise.
pub proof fn law_keywords_and_names(w: Seq<char>)
    ensures
        word_tok("let"@) == STok::Let,
        word_tok("rec"@) == STok::Rec,
        word_tok("fn"@) == STok::Fn,
        word_tok("if"@) == STok::If,
        word_tok("then"@) == STok::Then,
        word_tok("else"@) == STok::Else,
        word_tok("true"@) == STok::True,
        word_tok("false"@) == STok::False,
        !(w == "let"@ || w == "rec"@ || w == "fn"@ || w == "if"@ || w == "then"@ || w == "else"@ || w
            == "true"@ || w == "false"@) ==> word_tok(w) == STok::Ident(w),
{
    reveal_strlit("let");
    reveal_strlit("rec");
    reveal_strlit("fn");
    reveal_strlit("if");
    reveal_strlit("then");
    reveal_strlit("else");
    reveal_strlit("true");
    reveal_strlit("false");
    assert("rec"@ != "let"@) by {
        assert("rec"@[0] != "let"@[0]);
    }
    assert("fn"@ != "let"@ && "fn"@ != "rec"@) by {
        assert("fn"@.len() != "let"@.len());
    }
    assert("if"@ != "let"@ && "if"@ != "rec"@ && "if"@ != "fn"@) by {
        assert("if"@[0] != "fn"@[0]);
        assert("if"@.len() != "let"@.len());
    }
    assert("then"@ != "let"@ && "then"@ != "rec"@ && "then"@ != "fn"@ && "then"@ != "if"@) by {
        assert("then"@.len() == 4);
    }
    assert("else"@ != "let"@ && "else"@ != "rec"@ && "else"@ != "fn"@ && "else"@ != "if"@ && "else"@ != "then"@) by {
        assert("else"@[0] != "then"@[0]);
    }
    assert("true"@ != "let"@ && "true"@ != "rec"@ && "true"@ != "fn"@ && "true"@ != "if"@ && "true"@ != "then"@ && "true"@ != "else"@) by {
        assert("true"@[1] != "then"@[1]);
        assert("true"@[0] != "else"@[0]);
    }
    assert("false"@ != "let"@ && "false"@ != "rec"@ && "false"@ != "fn"@ && "false"@ != "if"@ && "false"@ != "then"@ && "false"@ != "else"@ && "false"@ != "true"@) by {
        assert("false"@.len() == 5);
    }
}

} // verus!
