//! Runtime values and lexical scopes.
//!
//! Scopes live in a [`Store`] and an [`Env`] names one of them by its place
//! there. A closure keeps the `Env` it was defined in, so a name defined in
//! that scope later (a recursive function defining itself) is visible when
//! the closure's body runs. A scope's parent is always an older scope.
//! A top-level `let` rebinds its name where that binding lives, unless it
//! changes the name's type (see `run_stmts`).
use vstd::prelude::*;
use crate::ast::{Expr, SExpr, copy_expr};
use crate::text::{int_text, int_to_string, spells_string};

verus! {

/// A scope, named by its place in the [`Store`].
pub type Env = usize;

/// A runtime value.
#[derive(Debug)]
pub enum Value {
    Int(i64),
    Bool(bool),
    Str(String),
    Closure { params: Vec<String>, body: Box<Expr>, env: Env },
}

/// Model of a [`Value`].
pub enum SValue {
    Int(i64),
    Bool(bool),
    Str(Seq<char>),
    Closure { params: Seq<Seq<char>>, body: SExpr, env: nat },
}

pub open spec fn names_view(ns: Seq<String>) -> Seq<Seq<char>> {
    Seq::new(ns.len(), |i: int| ns[i]@)
}

pub open spec fn value_view(v: Value) -> SValue {
    match v {
        Value::Int(n) => SValue::Int(n),
        Value::Bool(b) => SValue::Bool(b),
        Value::Str(s) => SValue::Str(s@),
        Value::Closure { params, body, env } => SValue::Closure {
            params: names_view(params@),
            body: body@,
            env: env as nat,
        },
    }
}

impl View for Value {
    type V = SValue;

    open spec fn view(&self) -> SValue {
        value_view(*self)
    }
}

/// The text of a value, as `Value::display` writes it: the number, `true`
/// or `false`, the string itself, or `<function>`.
pub open spec fn value_text(v: SValue) -> Seq<char> {
    match v {
        SValue::Int(n) => int_text(n as int),
        SValue::Bool(b) => if b { "true"@ } else { "false"@ },
        SValue::Str(s) => s,
        SValue::Closure { .. } => "<function>"@,
    }
}

/// One scope: its bindings, oldest first, and its parent scope.
pub struct Scope {
    pub vars: Vec<(String, Value)>,
    pub parent: Option<Env>,
}

/// Model of a [`Scope`].
pub struct SFrame {
    pub vars: Seq<(Seq<char>, SValue)>,
    pub parent: Option<nat>,
}

pub open spec fn vars_view(vs: Seq<(String, Value)>) -> Seq<(Seq<char>, SValue)> {
    Seq::new(vs.len(), |i: int| (vs[i].0@, vs[i].1@))
}

pub open spec fn opt_env_view(p: Option<Env>) -> Option<nat> {
    match p {
        Some(e) => Some(e as nat),
        None => None,
    }
}

pub open spec fn frame_view(s: Scope) -> SFrame {
    SFrame { vars: vars_view(s.vars@), parent: opt_env_view(s.parent) }
}

/// Every scope made while a program runs.
pub struct Store {
    pub scopes: Vec<Scope>,
}

pub open spec fn store_view(st: Seq<Scope>) -> Seq<SFrame> {
    Seq::new(st.len(), |i: int| frame_view(st[i]))
}

impl View for Store {
    type V = Seq<SFrame>;

    open spec fn view(&self) -> Seq<SFrame> {
        store_view(self.scopes@)
    }
}

/// The newest binding of `name` among `vars`.
pub open spec fn vars_lookup(vars: Seq<(Seq<char>, SValue)>, name: Seq<char>) -> Option<SValue>
    decreases vars.len(),
{
    if vars.len() == 0 {
        None
    } else if vars.last().0 == name {
        Some(vars.last().1)
    } else {
        vars_lookup(vars.drop_last(), name)
    }
}

/// The value of `name` seen from scope `env`: its own newest binding, else
/// what its parent scope sees.
pub open spec fn store_get(st: Seq<SFrame>, env: nat, name: Seq<char>) -> Option<SValue>
    decreases env,
{
    if env >= st.len() {
        None
    } else {
        match vars_lookup(st[env as int].vars, name) {
            Some(v) => Some(v),
            None => match st[env as int].parent {
                Some(p) => if p < env {
                    store_get(st, p, name)
                } else {
                    None
                },
                None => None,
            },
        }
    }
}

/// The scope whose binding of `name` scope `env` sees: `env` itself when it
/// binds `name`, else the one its parent sees.
pub open spec fn store_home(st: Seq<SFrame>, env: nat, name: Seq<char>) -> Option<nat>
    decreases env,
{
    if env >= st.len() {
        None
    } else if vars_lookup(st[env as int].vars, name) is Some {
        Some(env)
    } else {
        match st[env as int].parent {
            Some(p) => if p < env {
                store_home(st, p, name)
            } else {
                None
            },
            None => None,
        }
    }
}

/// Binds `name` to `v` in scope `env`.
pub open spec fn store_define(st: Seq<SFrame>, env: nat, name: Seq<char>, v: SValue) -> Seq<SFrame> {
    if env < st.len() {
        st.update(
            env as int,
            SFrame { vars: st[env as int].vars.push((name, v)), parent: st[env as int].parent },
        )
    } else {
        st
    }
}

/// A store with one more scope, whose parent is `parent`.
pub open spec fn store_push(st: Seq<SFrame>, parent: Option<nat>) -> Seq<SFrame> {
    st.push(SFrame { vars: Seq::empty(), parent })
}

impl Store {
    /// An empty store.
    pub fn new() -> (s: Store)
        ensures
            s@ == Seq::<SFrame>::empty(),
    {
        let s = Store { scopes: Vec::new() };
        assert(s@ =~= Seq::<SFrame>::empty());
        s
    }
}

impl Scope {
    /// A new scope without a parent.
    pub fn root(store: &mut Store) -> (env: Env)
        ensures
            env == old(store)@.len(),
            final(store)@ == store_push(old(store)@, None),
    {
        let env = store.scopes.len();
        let vars: Vec<(String, Value)> = Vec::new();
        assert(vars_view(vars@) =~= Seq::<(Seq<char>, SValue)>::empty());
        store.scopes.push(Scope { vars, parent: None });
        proof {
            assert(final(store)@ =~= store_push(old(store)@, None));
        }
        env
    }

    /// A new scope whose parent is `parent`.
    pub fn child(store: &mut Store, parent: Env) -> (env: Env)
        ensures
            env == old(store)@.len(),
            final(store)@ == store_push(old(store)@, Some(parent as nat)),
    {
        let env = store.scopes.len();
        let vars: Vec<(String, Value)> = Vec::new();
        assert(vars_view(vars@) =~= Seq::<(Seq<char>, SValue)>::empty());
        store.scopes.push(Scope { vars, parent: Some(parent) });
        proof {
            assert(final(store)@ =~= store_push(old(store)@, Some(parent as nat)));
        }
        env
    }
}

/// A copy of a value.
pub fn copy_value(v: &Value) -> (r: Value)
    ensures
        r@ == v@,
{
    match v {
        Value::Int(n) => Value::Int(*n),
        Value::Bool(b) => Value::Bool(*b),
        Value::Str(s) => Value::Str(s.clone()),
        Value::Closure { params, body, env } => {
            let mut ps: Vec<String> = Vec::new();
            let mut i: usize = 0;
            while i < params.len()
                invariant
                    i <= params.len(),
                    names_view(ps@) =~= names_view(params@).take(i as int),
                decreases params.len() - i,
            {
                let ghost before = ps@;
                let n = params[i].clone();
                assert(n@ == params@[i as int]@);
                ps.push(n);
                assert(names_view(ps@) =~= names_view(before).push(params@[i as int]@));
                i = i + 1;
            }
            assert(names_view(params@).take(params.len() as int) =~= names_view(params@));
            Value::Closure { params: ps, body: Box::new(copy_expr(body)), env: *env }
        },
    }
}

impl Value {
    /// The text of this value (what `print` writes and `str` returns).
    pub fn display(&self) -> (s: String)
        ensures
            s@ == value_text(self@),
    {
        match self {
            Value::Int(n) => int_to_string(*n),
            Value::Bool(b) => if *b {
                String::from_str("true")
            } else {
                String::from_str("false")
            },
            Value::Str(s) => s.clone(),
            Value::Closure { .. } => String::from_str("<function>"),
        }
    }
}

/// The scope whose binding of `name` scope `env` sees, if any.
pub fn home(store: &Store, env: Env, name: &str) -> (r: Option<Env>)
    ensures
        match r {
            Some(h) => store_home(store@, env as nat, name@) == Some(h as nat) && h < store@.len(),
            None => store_home(store@, env as nat, name@) is None,
        },
{
    let ghost st = store@;
    let mut cur = env;
    loop
        invariant
            st == store@,
            store_home(st, env as nat, name@) == store_home(st, cur as nat, name@),
        decreases cur,
    {
        if cur >= store.scopes.len() {
            return None;
        }
        let vars = &store.scopes[cur].vars;
        let ghost vv = vars_view(vars@);
        assert(vv == st[cur as int].vars);
        let mut j = vars.len();
        assert(vv.take(j as int) =~= vv);
        while j > 0
            invariant
                j <= vars.len(),
                vv == vars_view(vars@),
                vv == st[cur as int].vars,
                st == store@,
                cur < st.len(),
                store_home(st, env as nat, name@) == store_home(st, cur as nat, name@),
                vars_lookup(vv, name@) == vars_lookup(vv.take(j as int), name@),
            decreases j,
        {
            assert(vv.take(j as int).drop_last() =~= vv.take(j - 1));
            if spells_string(&vars[j - 1].0, name) {
                assert(vv.take(j as int).last() == vv[j - 1]);
                assert(vv[j - 1] == (vars@[j - 1].0@, vars@[j - 1].1@));
                assert(vars_lookup(vv, name@) is Some);
                assert(store_home(st, cur as nat, name@) == Some(cur as nat));
                return Some(cur);
            }
            j = j - 1;
        }
        assert(vv.take(0) =~= Seq::<(Seq<char>, SValue)>::empty());
        match store.scopes[cur].parent {
            Some(p) => {
                if p < cur {
                    cur = p;
                } else {
                    return None;
                }
            },
            None => {
                return None;
            },
        }
    }
}


/// The value of `name` as scope `env` sees it: the newest binding in the
/// scope itself, else what its parent sees; `None` when no scope binds it.
#[verifier::loop_isolation(false)]
pub fn get(store: &Store, env: Env, name: &str) -> (r: Option<Value>)
    ensures
        match r {
            Some(v) => store_get(store@, env as nat, name@) == Some(v@),
            None => store_get(store@, env as nat, name@) is None,
        },
{
    let ghost st = store@;
    let mut cur = env;
    loop
        invariant
            st == store@,
            store_get(st, env as nat, name@) == store_get(st, cur as nat, name@),
        decreases cur,
    {
        if cur >= store.scopes.len() {
            return None;
        }
        let vars = &store.scopes[cur].vars;
        let ghost vv = vars_view(vars@);
        assert(vv == st[cur as int].vars);
        let mut j = vars.len();
        assert(vv.take(j as int) =~= vv);
        while j > 0
            invariant
                j <= vars.len(),
                vv == vars_view(vars@),
                vars_lookup(vv, name@) == vars_lookup(vv.take(j as int), name@),
            decreases j,
        {
            assert(vv.take(j as int).drop_last() =~= vv.take(j - 1));
            if spells_string(&vars[j - 1].0, name) {
                assert(vv.take(j as int).last() == vv[j - 1]);
                assert(vv[j - 1] == (vars@[j - 1].0@, vars@[j - 1].1@));
                return Some(copy_value(&vars[j - 1].1));
            }
            j = j - 1;
        }
        assert(vv.take(0) =~= Seq::<(Seq<char>, SValue)>::empty());
        match store.scopes[cur].parent {
            Some(p) => {
                if p < cur {
                    cur = p;
                } else {
                    return None;
                }
            },
            None => {
                return None;
            },
        }
    }
}

/// Binds `name` to `v` in scope `env`; a later `get` of `name` from `env`
/// sees `v`.
pub fn define(store: &mut Store, env: Env, name: &str, v: Value)
    requires
        env < old(store)@.len(),
    ensures
        final(store)@ == store_define(old(store)@, env as nat, name@, v@),
{
    let ghost st = store@;
    let mut sc = Scope { vars: Vec::new(), parent: None };
    store.scopes.set_and_swap(env, &mut sc);
    let ghost old_vars = vars_view(sc.vars@);
    sc.vars.push((String::from_str(name), v));
    assert(vars_view(sc.vars@) =~= old_vars.push((name@, v@)));
    store.scopes.set_and_swap(env, &mut sc);
    assert(store@ =~= store_define(st, env as nat, name@, v@));
}


impl Clone for Value {
    fn clone(&self) -> (r: Self)
        ensures
            r@ == self@,
    {
        copy_value(self)
    }
}

} // verus!
