//! The shapes the parser produces and the type checker and interpreter walk,
//! with their mathematical models (the `S`-prefixed ghost types).
use vstd::prelude::*;

verus! {

/// A static type of the language.
#[derive(Debug, PartialEq)]
pub enum Type {
    Int,
    Bool,
    Str,
    Fn(Vec<Type>, Box<Type>),
}

#[derive(Debug, Clone, Copy, PartialEq, Eq, Structural)]
pub enum UnOp {
    Neg,
    Not,
}

#[derive(Debug, Clone, Copy, PartialEq, Eq, Structural)]
pub enum BinOp {
    Add,
    Sub,
    Mul,
    Div,
    Mod,
    Concat,
    Eq,
    Ne,
    Lt,
    Le,
    Gt,
    Ge,
    And,
    Or,
}

#[derive(Debug, PartialEq)]
pub enum Expr {
    Int(i64),
    Bool(bool),
    Str(String),
    Var(String),
    Unary(UnOp, Box<Expr>),
    Binary(BinOp, Box<Expr>, Box<Expr>),
    If(Box<Expr>, Box<Expr>, Box<Expr>),
    Lambda { params: Vec<(String, Type)>, ret: Option<Type>, body: Box<Expr> },
    Call(Box<Expr>, Vec<Expr>),
}

#[derive(Debug, PartialEq)]
pub enum Stmt {
    Let { name: String, rec: bool, ty: Option<Type>, value: Expr },
    Expr(Expr),
}

pub type Program = Vec<Stmt>;

/// Model of a [`Type`].
pub enum SType {
    Int,
    Bool,
    Str,
    Fn(Seq<SType>, Box<SType>),
}

/// Model of an [`Expr`]: strings become character sequences.
pub enum SExpr {
    Int(i64),
    Bool(bool),
    Str(Seq<char>),
    Var(Seq<char>),
    Unary(UnOp, Box<SExpr>),
    Binary(BinOp, Box<SExpr>, Box<SExpr>),
    If(Box<SExpr>, Box<SExpr>, Box<SExpr>),
    Lambda { params: Seq<(Seq<char>, SType)>, ret: Option<SType>, body: Box<SExpr> },
    Call(Box<SExpr>, Seq<SExpr>),
}

/// Model of a [`Stmt`].
pub enum SStmt {
    Let { name: Seq<char>, rec: bool, ty: Option<SType>, value: SExpr },
    Expr(SExpr),
}

pub open spec fn type_view(t: Type) -> SType
    decreases t,
{
    match t {
        Type::Int => SType::Int,
        Type::Bool => SType::Bool,
        Type::Str => SType::Str,
        Type::Fn(ps, r) => SType::Fn(types_view(ps@), Box::new(type_view(*r))),
    }
}

pub open spec fn types_view(ts: Seq<Type>) -> Seq<SType>
    decreases ts,
{
    if ts.len() == 0 {
        Seq::empty()
    } else {
        seq![type_view(ts[0])] + types_view(ts.drop_first())
    }
}

pub open spec fn opt_type_view(t: Option<Type>) -> Option<SType> {
    match t {
        Some(t) => Some(type_view(t)),
        None => None,
    }
}

pub open spec fn params_view(ps: Seq<(String, Type)>) -> Seq<(Seq<char>, SType)> {
    Seq::new(ps.len(), |i: int| (ps[i].0@, type_view(ps[i].1)))
}

pub open spec fn expr_view(e: Expr) -> SExpr
    decreases e,
{
    match e {
        Expr::Int(n) => SExpr::Int(n),
        Expr::Bool(b) => SExpr::Bool(b),
        Expr::Str(s) => SExpr::Str(s@),
        Expr::Var(s) => SExpr::Var(s@),
        Expr::Unary(op, x) => SExpr::Unary(op, Box::new(expr_view(*x))),
        Expr::Binary(op, l, r) => SExpr::Binary(op, Box::new(expr_view(*l)), Box::new(expr_view(*r))),
        Expr::If(c, t, f) => SExpr::If(
            Box::new(expr_view(*c)),
            Box::new(expr_view(*t)),
            Box::new(expr_view(*f)),
        ),
        Expr::Lambda { params, ret, body } => SExpr::Lambda {
            params: params_view(params@),
            ret: opt_type_view(ret),
            body: Box::new(expr_view(*body)),
        },
        Expr::Call(f, args) => SExpr::Call(Box::new(expr_view(*f)), exprs_view(args@)),
    }
}

pub open spec fn exprs_view(es: Seq<Expr>) -> Seq<SExpr>
    decreases es,
{
    if es.len() == 0 {
        Seq::empty()
    } else {
        seq![expr_view(es[0])] + exprs_view(es.drop_first())
    }
}

pub open spec fn stmt_view(s: Stmt) -> SStmt {
    match s {
        Stmt::Let { name, rec, ty, value } => SStmt::Let {
            name: name@,
            rec,
            ty: opt_type_view(ty),
            value: expr_view(value),
        },
        Stmt::Expr(e) => SStmt::Expr(expr_view(e)),
    }
}

pub open spec fn program_view(p: Seq<Stmt>) -> Seq<SStmt> {
    Seq::new(p.len(), |i: int| stmt_view(p[i]))
}

impl View for Type {
    type V = SType;

    open spec fn view(&self) -> SType {
        type_view(*self)
    }
}

impl View for Expr {
    type V = SExpr;

    open spec fn view(&self) -> SExpr {
        expr_view(*self)
    }
}

impl View for Stmt {
    type V = SStmt;

    open spec fn view(&self) -> SStmt {
        stmt_view(*self)
    }
}


pub proof fn lemma_types_view(ts: Seq<Type>)
    ensures
        types_view(ts).len() == ts.len(),
        forall|i: int| 0 <= i < ts.len() ==> #[trigger] types_view(ts)[i] == type_view(ts[i]),
    decreases ts.len(),
{
    if ts.len() > 0 {
        lemma_types_view(ts.drop_first());
        assert forall|i: int| 0 <= i < ts.len() implies #[trigger] types_view(ts)[i] == type_view(ts[i]) by {
            if i > 0 {
                assert(ts.drop_first()[i - 1] == ts[i]);
            }
        }
    }
}

pub proof fn lemma_exprs_view(es: Seq<Expr>)
    ensures
        exprs_view(es).len() == es.len(),
        forall|i: int| 0 <= i < es.len() ==> #[trigger] exprs_view(es)[i] == expr_view(es[i]),
    decreases es.len(),
{
    if es.len() > 0 {
        lemma_exprs_view(es.drop_first());
        assert forall|i: int| 0 <= i < es.len() implies #[trigger] exprs_view(es)[i] == expr_view(es[i]) by {
            if i > 0 {
                assert(es.drop_first()[i - 1] == es[i]);
            }
        }
    }
}

/// The text of a type, as `Type::display` writes it: `Int`, `Bool`,
/// `Str`, or `(P1, ..., Pn) -> R`.
pub open spec fn type_text(t: SType) -> Seq<char>
    decreases t,
{
    match t {
        SType::Int => "Int"@,
        SType::Bool => "Bool"@,
        SType::Str => "Str"@,
        SType::Fn(ps, r) => "("@ + types_text(ps) + ") -> "@ + type_text(*r),
    }
}

/// The texts of `ts` joined by `", "`.
pub open spec fn types_text(ts: Seq<SType>) -> Seq<char>
    decreases ts,
{
    if ts.len() == 0 {
        Seq::empty()
    } else if ts.len() == 1 {
        type_text(ts[0])
    } else {
        types_text(ts.drop_last()) + ", "@ + type_text(ts.last())
    }
}

/// Whether two types are the same type.
#[verifier::loop_isolation(false)]
pub fn type_eq(a: &Type, b: &Type) -> (r: bool)
    ensures
        r == (a@ == b@),
    decreases a,
{
    match (a, b) {
        (Type::Int, Type::Int) => true,
        (Type::Bool, Type::Bool) => true,
        (Type::Str, Type::Str) => true,
        (Type::Fn(pa, ra), Type::Fn(pb, rb)) => {
            proof {
                lemma_types_view(pa@);
                lemma_types_view(pb@);
            }
            if pa.len() != pb.len() {
                return false;
            }
            let mut i: usize = 0;
            while i < pa.len()
                invariant
                    pa.len() == pb.len(),
                    i <= pa.len(),
                    types_view(pa@).len() == pa.len(),
                    types_view(pb@).len() == pb.len(),
                    forall|j: int| 0 <= j < pa.len() ==> #[trigger] types_view(pa@)[j] == type_view(pa@[j]),
                    forall|j: int| 0 <= j < pb.len() ==> #[trigger] types_view(pb@)[j] == type_view(pb@[j]),
                    forall|j: int| 0 <= j < i ==> type_view(#[trigger] pa@[j]) == type_view(pb@[j]),
                decreases pa.len() - i,
            {
                if !type_eq(&pa[i], &pb[i]) {
                    assert(types_view(pa@)[i as int] != types_view(pb@)[i as int]);
                    return false;
                }
                i = i + 1;
            }
            assert(types_view(pa@) =~= types_view(pb@));
            type_eq(ra, rb)
        },
        _ => false,
    }
}

/// A structural copy of a type.
pub fn copy_type(t: &Type) -> (r: Type)
    ensures
        r@ == t@,
    decreases t,
{
    match t {
        Type::Int => Type::Int,
        Type::Bool => Type::Bool,
        Type::Str => Type::Str,
        Type::Fn(ps, ret) => {
            let ps2 = copy_types(ps);
            let r2 = copy_type(ret);
            Type::Fn(ps2, Box::new(r2))
        },
    }
}

/// A structural copy of a list of types.
#[verifier::loop_isolation(false)]
pub fn copy_types(ts: &Vec<Type>) -> (r: Vec<Type>)
    ensures
        types_view(r@) == types_view(ts@),
    decreases ts,
{
    proof {
        lemma_types_view(ts@);
    }
    let mut out: Vec<Type> = Vec::new();
    let mut i: usize = 0;
    while i < ts.len()
        invariant
            i <= ts.len(),
            out.len() == i,
            types_view(ts@).len() == ts.len(),
            forall|j: int| 0 <= j < ts.len() ==> #[trigger] types_view(ts@)[j] == type_view(ts@[j]),
            forall|j: int| 0 <= j < i ==> type_view(#[trigger] out@[j]) == type_view(ts@[j]),
        decreases ts.len() - i,
    {
        let t = copy_type(&ts[i]);
        out.push(t);
        i = i + 1;
    }
    proof {
        lemma_types_view(out@);
        assert(types_view(out@) =~= types_view(ts@));
    }
    out
}

impl Type {
    /// The text of this type (`Int`, `Bool`, `Str`, `(P1, ..., Pn) -> R`).
    #[verifier::loop_isolation(false)]
    pub fn display(&self) -> (s: String)
        ensures
            s@ == type_text(self@),
        decreases self,
    {
        match self {
            Type::Int => String::from_str("Int"),
            Type::Bool => String::from_str("Bool"),
            Type::Str => String::from_str("Str"),
            Type::Fn(ps, r) => {
                proof {
                    lemma_types_view(ps@);
                }
                let ghost tv = types_view(ps@);
                let mut s = String::from_str("(");
                let mut i: usize = 0;
                while i < ps.len()
                    invariant
                        i <= ps.len(),
                        tv == types_view(ps@),
                        tv.len() == ps.len(),
                        forall|j: int| 0 <= j < ps.len() ==> #[trigger] tv[j] == type_view(ps@[j]),
                        s@ == "("@ + types_text(tv.take(i as int)),
                    decreases ps.len() - i,
                {
                    let piece = ps[i].display();
                    if i > 0 {
                        s.append(", ");
                    }
                    s.append(piece.as_str());
                    proof {
                        let t1 = tv.take(i + 1);
                        assert(t1.drop_last() =~= tv.take(i as int));
                        assert(t1.last() == tv[i as int]);
                        if i == 0 {
                            assert(tv.take(0) =~= Seq::<SType>::empty());
                        }
                    }
                    i = i + 1;
                }
                assert(tv.take(ps.len() as int) =~= tv);
                s.append(") -> ");
                let rs = r.display();
                s.append(rs.as_str());
                s
            },
        }
    }
}

/// A structural copy of an expression.
#[verifier::loop_isolation(false)]
pub fn copy_expr(e: &Expr) -> (r: Expr)
    ensures
        r@ == e@,
    decreases e,
{
    match e {
        Expr::Int(n) => Expr::Int(*n),
        Expr::Bool(b) => Expr::Bool(*b),
        Expr::Str(s) => Expr::Str(s.clone()),
        Expr::Var(s) => Expr::Var(s.clone()),
        Expr::Unary(op, x) => Expr::Unary(*op, Box::new(copy_expr(x))),
        Expr::Binary(op, l, r) => Expr::Binary(*op, Box::new(copy_expr(l)), Box::new(copy_expr(r))),
        Expr::If(c, t, f) => Expr::If(
            Box::new(copy_expr(c)),
            Box::new(copy_expr(t)),
            Box::new(copy_expr(f)),
        ),
        Expr::Lambda { params, ret, body } => {
            let mut ps: Vec<(String, Type)> = Vec::new();
            let mut i: usize = 0;
            while i < params.len()
                invariant
                    i <= params.len(),
                    params_view(ps@) =~= params_view(params@).take(i as int),
                decreases params.len() - i,
            {
                ps.push((params[i].0.clone(), copy_type(&params[i].1)));
                i = i + 1;
            }
            assert(params_view(params@).take(params.len() as int) =~= params_view(params@));
            let r2 = match ret {
                Some(t) => Some(copy_type(t)),
                None => None,
            };
            Expr::Lambda { params: ps, ret: r2, body: Box::new(copy_expr(body)) }
        },
        Expr::Call(f, args) => {
            proof {
                lemma_exprs_view(args@);
            }
            let mut out: Vec<Expr> = Vec::new();
            let mut i: usize = 0;
            while i < args.len()
                invariant
                    i <= args.len(),
                    out.len() == i,
                    forall|j: int| 0 <= j < i ==> expr_view(#[trigger] out@[j]) == expr_view(args@[j]),
                decreases args.len() - i,
            {
                let a = copy_expr(&args[i]);
                out.push(a);
                i = i + 1;
            }
            proof {
                lemma_exprs_view(out@);
                assert(exprs_view(out@) =~= exprs_view(args@));
            }
            Expr::Call(Box::new(copy_expr(f)), out)
        },
    }
}

impl Clone for Type {
    fn clone(&self) -> (r: Self)
        ensures
            r@ == self@,
    {
        copy_type(self)
    }
}

impl Clone for Expr {
    fn clone(&self) -> (r: Self)
        ensures
            r@ == self@,
    {
        copy_expr(self)
    }
}

impl Clone for Stmt {
    fn clone(&self) -> (r: Self)
        ensures
            r@ == self@,
    {
        match self {
            Stmt::Let { name, rec, ty, value } => Stmt::Let {
                name: name.clone(),
                rec: *rec,
                ty: match ty {
                    Some(t) => Some(copy_type(t)),
                    None => None,
                },
                value: copy_expr(value),
            },
            Stmt::Expr(e) => Stmt::Expr(copy_expr(e)),
        }
    }
}

} // verus!
