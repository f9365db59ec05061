//! Recursive-descent parser. One method per precedence level, top to bottom.
//!
//! The model reads a token sequence from a position and gives the parsed
//! shape with the position after it (`PRes`), or the error. Binary operator
//! levels are numbered: 11 `||`, 10 `&&`, 9 `== !=`, 8 `< <= > >=`, 7 `++`,
//! 6 `+ -`, 5 `* / %`; below them come unary operators, calls and primaries.
use vstd::prelude::*;
use crate::ast::{BinOp, Expr, Program, SExpr, SStmt, SType, Stmt, Type, UnOp, params_view, program_view};
use crate::ast::{lemma_exprs_view, lemma_types_view, exprs_view, types_view};
use crate::error::{Error, SError};
use crate::text::spells_string;
use crate::lexer::{STok, SToken, Tok, Token, tok_debug, tok_eq, tokens_view, ends_with_eof};

verus! {

/// A parse result: the value and the position after it, or the error.
pub type PRes<A> = Result<(A, nat), SError>;

pub open spec fn at(ts: Seq<SToken>, p: nat) -> STok {
    ts[p as int].tok
}

pub open spec fn line_at(ts: Seq<SToken>, p: nat) -> nat {
    ts[p as int].line
}

/// The position after `p`; the last position stays put.
pub open spec fn next_pos(ts: Seq<SToken>, p: nat) -> nat {
    if p + 1 < ts.len() {
        p + 1
    } else {
        p
    }
}

pub open spec fn parse_error(msg: Seq<char>, line: nat) -> SError {
    SError::Parse { msg, line }
}

pub open spec fn expected_msg(what: Seq<char>, found: STok) -> Seq<char> {
    "expected "@ + what + ", found "@ + tok_debug(found)
}

/// Expects `t` at `p`: the position after it, or an error on the line of `p`.
pub open spec fn expect_at(ts: Seq<SToken>, p: nat, t: STok, what: Seq<char>) -> Result<nat, SError> {
    if at(ts, p) == t {
        Ok(next_pos(ts, p))
    } else {
        Err(parse_error(expected_msg(what, at(ts, p)), line_at(ts, p)))
    }
}

/// Takes a name at `p`; the error names the line of the token after it.
pub open spec fn ident_at(ts: Seq<SToken>, p: nat, what: Seq<char>) -> PRes<Seq<char>> {
    match at(ts, p) {
        STok::Ident(s) => Ok((s, next_pos(ts, p))),
        other => Err(parse_error(expected_msg(what, other), line_at(ts, next_pos(ts, p)))),
    }
}

/// A result that stands where a position failed to advance; never produced
/// for a well-terminated stream.
pub open spec fn stuck<A>() -> PRes<A> {
    Err(parse_error(Seq::empty(), 0))
}

/// A type at `p`.
pub open spec fn type_at(ts: Seq<SToken>, p: nat) -> PRes<SType>
    decreases ts.len() - p, 1nat,
{
    if p < ts.len() && at(ts, p) is LParen {
        let q = next_pos(ts, p);
        let params = if at(ts, q) is RParen {
            Ok((Seq::empty(), q))
        } else {
            type_list_from(ts, p, q, Seq::empty())
        };
        match params {
            Ok((ps, q1)) => match expect_at(ts, q1, STok::RParen, "')'"@) {
                Ok(q2) => match expect_at(ts, q2, STok::Arrow, "'->' in function type"@) {
                    Ok(q3) => if p < q3 < ts.len() {
                        match type_at(ts, q3) {
                            Ok((r, q4)) => Ok((SType::Fn(ps, Box::new(r)), q4)),
                            Err(e) => Err(e),
                        }
                    } else {
                        stuck()
                    },
                    Err(e) => Err(e),
                },
                Err(e) => Err(e),
            },
            Err(e) => Err(e),
        }
    } else {
        match ident_at(ts, p, "type name"@) {
            Ok((name, q)) => if name == "Int"@ {
                Ok((SType::Int, q))
            } else if name == "Bool"@ {
                Ok((SType::Bool, q))
            } else if name == "Str"@ {
                Ok((SType::Str, q))
            } else {
                Err(parse_error("unknown type '"@ + name + "'"@, line_at(ts, q)))
            },
            Err(e) => Err(e),
        }
    }
}

/// A comma-separated list of types starting at `q` (with `p < q`), after
/// the types `acc`.
pub open spec fn type_list_from(ts: Seq<SToken>, p: nat, q: nat, acc: Seq<SType>) -> PRes<
    Seq<SType>,
>
    decreases ts.len() - p, 0nat,
{
    if p < q < ts.len() {
        match type_at(ts, q) {
            Ok((t, q1)) => if at(ts, q1) is Comma {
                if p < q1 < ts.len() {
                    type_list_from(ts, q1, next_pos(ts, q1), acc.push(t))
                } else {
                    stuck()
                }
            } else {
                Ok((acc.push(t), q1))
            },
            Err(e) => Err(e),
        }
    } else {
        stuck()
    }
}

/// The binary operator that token `t` spells at operator level `level`.
pub open spec fn level_op(level: nat, t: STok) -> Option<BinOp> {
    if level == 11 {
        if t is PipePipe { Some(BinOp::Or) } else { None }
    } else if level == 10 {
        if t is AmpAmp { Some(BinOp::And) } else { None }
    } else if level == 9 {
        if t is EqEq { Some(BinOp::Eq) } else if t is NotEq { Some(BinOp::Ne) } else { None }
    } else if level == 8 {
        if t is Lt {
            Some(BinOp::Lt)
        } else if t is Le {
            Some(BinOp::Le)
        } else if t is Gt {
            Some(BinOp::Gt)
        } else if t is Ge {
            Some(BinOp::Ge)
        } else {
            None
        }
    } else if level == 7 {
        if t is PlusPlus { Some(BinOp::Concat) } else { None }
    } else if level == 6 {
        if t is Plus { Some(BinOp::Add) } else if t is Minus { Some(BinOp::Sub) } else { None }
    } else if level == 5 {
        if t is Star {
            Some(BinOp::Mul)
        } else if t is Slash {
            Some(BinOp::Div)
        } else if t is Percent {
            Some(BinOp::Mod)
        } else {
            None
        }
    } else {
        None
    }
}

/// An expression at operator level `level` (5 to 11) starting at `p`; levels
/// below 5 are unary expressions. Operators of one level associate to the left.
pub open spec fn level_expr(level: nat, ts: Seq<SToken>, p: nat) -> PRes<SExpr>
    decreases ts.len() - p, 2 * level + 10,
{
    if level < 5 || level > 11 {
        unary_at(ts, p)
    } else {
        match level_expr((level - 1) as nat, ts, p) {
            Ok((left, q)) => if p < q < ts.len() {
                level_rest(level, ts, q, left)
            } else {
                stuck()
            },
            Err(e) => Err(e),
        }
    }
}

/// The operators of level `level` that follow `left`, from `p` on.
pub open spec fn level_rest(level: nat, ts: Seq<SToken>, p: nat, left: SExpr) -> PRes<SExpr>
    decreases ts.len() - p, 2 * level + 9,
{
    if 5 <= level <= 11 && p + 1 < ts.len() && level_op(level, at(ts, p)) is Some {
        let op = level_op(level, at(ts, p))->0;
        match level_expr((level - 1) as nat, ts, p + 1) {
            Ok((right, q)) => if p < q < ts.len() {
                level_rest(level, ts, q, SExpr::Binary(op, Box::new(left), Box::new(right)))
            } else {
                stuck()
            },
            Err(e) => Err(e),
        }
    } else {
        Ok((left, p))
    }
}

/// A whole expression at `p`.
pub open spec fn expr_at(ts: Seq<SToken>, p: nat) -> PRes<SExpr> {
    level_expr(11, ts, p)
}

/// A whole expression at `q`, read from within a construct that began at `p`.
pub open spec fn inner_expr(ts: Seq<SToken>, p: nat, q: nat) -> PRes<SExpr>
    decreases ts.len() - p, 4nat,
{
    if p < q < ts.len() {
        level_expr(11, ts, q)
    } else {
        stuck()
    }
}

/// A prefix `!` or `-` applied to a unary expression, or a call.
pub open spec fn unary_at(ts: Seq<SToken>, p: nat) -> PRes<SExpr>
    decreases ts.len() - p, 9nat,
{
    if p + 1 < ts.len() && at(ts, p) is Bang {
        match unary_at(ts, p + 1) {
            Ok((x, q)) => Ok((SExpr::Unary(UnOp::Not, Box::new(x)), q)),
            Err(e) => Err(e),
        }
    } else if p + 1 < ts.len() && at(ts, p) is Minus {
        match unary_at(ts, p + 1) {
            Ok((x, q)) => Ok((SExpr::Unary(UnOp::Neg, Box::new(x)), q)),
            Err(e) => Err(e),
        }
    } else {
        call_at(ts, p)
    }
}

/// A primary expression followed by any number of argument lists.
pub open spec fn call_at(ts: Seq<SToken>, p: nat) -> PRes<SExpr>
    decreases ts.len() - p, 7nat,
{
    match primary_at(ts, p) {
        Ok((e, q)) => if p < q < ts.len() {
            call_rest(ts, q, e)
        } else {
            stuck()
        },
        Err(e) => Err(e),
    }
}

/// The argument lists that follow the callee `e`, from `p` on.
pub open spec fn call_rest(ts: Seq<SToken>, p: nat, e: SExpr) -> PRes<SExpr>
    decreases ts.len() - p, 6nat,
{
    if p + 1 < ts.len() && at(ts, p) is LParen {
        let q = p + 1;
        let args = if at(ts, q) is RParen {
            Ok((Seq::empty(), q))
        } else {
            args_at(ts, q, Seq::empty())
        };
        match args {
            Ok((args, q1)) => match expect_at(ts, q1, STok::RParen, "')' after arguments"@) {
                Ok(q2) => if p < q2 < ts.len() {
                    call_rest(ts, q2, SExpr::Call(Box::new(e), args))
                } else {
                    stuck()
                },
                Err(err) => Err(err),
            },
            Err(err) => Err(err),
        }
    } else {
        Ok((e, p))
    }
}

/// A comma-separated list of expressions at `p`, after the arguments `acc`.
pub open spec fn args_at(ts: Seq<SToken>, p: nat, acc: Seq<SExpr>) -> PRes<Seq<SExpr>>
    decreases ts.len() - p, 33nat,
{
    match level_expr(11, ts, p) {
        Ok((a, q)) => if at(ts, q) is Comma {
            if p < q && q + 1 < ts.len() {
                args_at(ts, q + 1, acc.push(a))
            } else {
                stuck()
            }
        } else {
            Ok((acc.push(a), q))
        },
        Err(e) => Err(e),
    }
}

/// The parameters of a function literal at `p`, after the parameters `acc`.
pub open spec fn params_at(ts: Seq<SToken>, p: nat, acc: Seq<(Seq<char>, SType)>) -> PRes<
    Seq<(Seq<char>, SType)>,
>
    decreases ts.len() - p,
{
    match ident_at(ts, p, "parameter name"@) {
        Ok((name, q)) => match expect_at(ts, q, STok::Colon, "':' and a type for the parameter"@) {
            Ok(q1) => match type_at(ts, q1) {
                Ok((t, q2)) => if at(ts, q2) is Comma {
                    if p < q2 && q2 + 1 < ts.len() {
                        params_at(ts, q2 + 1, acc.push((name, t)))
                    } else {
                        stuck()
                    }
                } else {
                    Ok((acc.push((name, t)), q2))
                },
                Err(e) => Err(e),
            },
            Err(e) => Err(e),
        },
        Err(e) => Err(e),
    }
}

/// A function literal whose `fn` keyword is at `p`.
pub open spec fn lambda_at(ts: Seq<SToken>, p: nat) -> PRes<SExpr>
    decreases ts.len() - p, 5nat,
{
    match expect_at(ts, next_pos(ts, p), STok::LParen, "'(' after fn"@) {
        Ok(q1) => {
            let params = if at(ts, q1) is RParen {
                Ok((Seq::empty(), q1))
            } else {
                params_at(ts, q1, Seq::empty())
            };
            match params {
                Ok((ps, q2)) => match expect_at(ts, q2, STok::RParen, "')'"@) {
                    Ok(q3) => {
                        let ret = if at(ts, q3) is Arrow {
                            match type_at(ts, next_pos(ts, q3)) {
                                Ok((t, q4)) => Ok((Some(t), q4)),
                                Err(e) => Err(e),
                            }
                        } else {
                            Ok((None, q3))
                        };
                        match ret {
                            Ok((ret, q4)) => match expect_at(
                                ts,
                                q4,
                                STok::FatArrow,
                                "'=>' before the function body"@,
                            ) {
                                Ok(q5) => match inner_expr(ts, p, q5) {
                                    Ok((body, q6)) => Ok(
                                        (SExpr::Lambda { params: ps, ret, body: Box::new(body) }, q6),
                                    ),
                                    Err(e) => Err(e),
                                },
                                Err(e) => Err(e),
                            },
                            Err(e) => Err(e),
                        }
                    },
                    Err(e) => Err(e),
                },
                Err(e) => Err(e),
            }
        },
        Err(e) => Err(e),
    }
}

/// An `if` expression whose `if` keyword is at `p`.
pub open spec fn if_at(ts: Seq<SToken>, p: nat) -> PRes<SExpr>
    decreases ts.len() - p, 5nat,
{
    match inner_expr(ts, p, next_pos(ts, p)) {
        Ok((c, q1)) => match expect_at(ts, q1, STok::Then, "'then'"@) {
            Ok(q2) => match inner_expr(ts, p, q2) {
                Ok((t, q3)) => match expect_at(ts, q3, STok::Else, "'else'"@) {
                    Ok(q4) => match inner_expr(ts, p, q4) {
                        Ok((f, q5)) => Ok(
                            (SExpr::If(Box::new(c), Box::new(t), Box::new(f)), q5),
                        ),
                        Err(e) => Err(e),
                    },
                    Err(e) => Err(e),
                },
                Err(e) => Err(e),
            },
            Err(e) => Err(e),
        },
        Err(e) => Err(e),
    }
}

/// A literal, a name, a parenthesized expression, an `if` or a function literal.
pub open spec fn primary_at(ts: Seq<SToken>, p: nat) -> PRes<SExpr>
    decreases ts.len() - p, 6nat,
{
    let q = next_pos(ts, p);
    match at(ts, p) {
        STok::Int(n) => Ok((SExpr::Int(n), q)),
        STok::True => Ok((SExpr::Bool(true), q)),
        STok::False => Ok((SExpr::Bool(false), q)),
        STok::Str(s) => Ok((SExpr::Str(s), q)),
        STok::Ident(s) => Ok((SExpr::Var(s), q)),
        STok::LParen => match inner_expr(ts, p, q) {
            Ok((e, q1)) => match expect_at(ts, q1, STok::RParen, "')'"@) {
                Ok(q2) => Ok((e, q2)),
                Err(err) => Err(err),
            },
            Err(err) => Err(err),
        },
        STok::If => if_at(ts, p),
        STok::Fn => lambda_at(ts, p),
        other => Err(parse_error("unexpected "@ + tok_debug(other), line_at(ts, p))),
    }
}

/// A statement at `p`: a `let` binding or an expression, ended by `;`.
pub open spec fn stmt_at(ts: Seq<SToken>, p: nat) -> PRes<SStmt> {
    if at(ts, p) is Let {
        let q1 = next_pos(ts, p);
        let rec = at(ts, q1) is Rec;
        let q2 = if rec { next_pos(ts, q1) } else { q1 };
        match ident_at(ts, q2, "binding name"@) {
            Ok((name, q3)) => {
                let ty = if at(ts, q3) is Colon {
                    match type_at(ts, next_pos(ts, q3)) {
                        Ok((t, q4)) => Ok((Some(t), q4)),
                        Err(e) => Err(e),
                    }
                } else {
                    Ok((None, q3))
                };
                match ty {
                    Ok((ty, q4)) => match expect_at(ts, q4, STok::Eq, "'='"@) {
                        Ok(q5) => match expr_at(ts, q5) {
                            Ok((value, q6)) => match expect_at(ts, q6, STok::Semi, "';'"@) {
                                Ok(q7) => Ok((SStmt::Let { name, rec, ty, value }, q7)),
                                Err(e) => Err(e),
                            },
                            Err(e) => Err(e),
                        },
                        Err(e) => Err(e),
                    },
                    Err(e) => Err(e),
                }
            },
            Err(e) => Err(e),
        }
    } else {
        match expr_at(ts, p) {
            Ok((e, q1)) => match expect_at(ts, q1, STok::Semi, "';'"@) {
                Ok(q2) => Ok((SStmt::Expr(e), q2)),
                Err(err) => Err(err),
            },
            Err(err) => Err(err),
        }
    }
}

/// The statements from `p` up to `Eof`, after the statements `acc`.
pub open spec fn stmts_at(ts: Seq<SToken>, p: nat, acc: Seq<SStmt>) -> Result<Seq<SStmt>, SError>
    decreases ts.len() - p,
{
    if p >= ts.len() || at(ts, p) is Eof {
        Ok(acc)
    } else {
        match stmt_at(ts, p) {
            Ok((s, q)) => if p < q < ts.len() {
                stmts_at(ts, q, acc.push(s))
            } else {
                Err(parse_error(Seq::empty(), 0))
            },
            Err(e) => Err(e),
        }
    }
}

/// The program that a token stream spells.
pub open spec fn parse_spec(ts: Seq<SToken>) -> Result<Seq<SStmt>, SError> {
    stmts_at(ts, 0, Seq::empty())
}


/// Reads a token stream; `pos` is the token under consideration.
pub struct Parser {
    toks: Vec<Token>,
    pos: usize,
}

pub open spec fn expr_res(r: Result<Expr, Error>, pos: nat) -> PRes<SExpr> {
    match r {
        Ok(e) => Ok((e@, pos)),
        Err(e) => Err(e@),
    }
}

pub open spec fn type_res(r: Result<Type, Error>, pos: nat) -> PRes<SType> {
    match r {
        Ok(t) => Ok((t@, pos)),
        Err(e) => Err(e@),
    }
}

impl Parser {
    spec fn ts(&self) -> Seq<SToken> {
        tokens_view(self.toks@)
    }

    spec fn inv(&self) -> bool {
        &&& ends_with_eof(self.ts())
        &&& self.pos < self.toks.len()
    }

    /// `self` is `old` moved along the same tokens.
    spec fn moved_from(&self, old: Parser) -> bool {
        &&& self.inv()
        &&& self.toks@ == old.toks@
    }

    fn peek(&self) -> (t: &Tok)
        requires
            self.inv(),
        ensures
            t@ == at(self.ts(), self.pos as nat),
    {
        &self.toks[self.pos].tok
    }

    fn line(&self) -> (l: usize)
        requires
            self.inv(),
        ensures
            l == line_at(self.ts(), self.pos as nat),
    {
        self.toks[self.pos].line
    }

    fn check(&self, t: &Tok) -> (b: bool)
        requires
            self.inv(),
        ensures
            b == (at(self.ts(), self.pos as nat) == t@),
    {
        tok_eq(self.peek(), t)
    }

    fn advance(&mut self) -> (t: Tok)
        requires
            old(self).inv(),
        ensures
            final(self).moved_from(*old(self)),
            final(self).pos == next_pos(old(self).ts(), old(self).pos as nat),
            t@ == at(old(self).ts(), old(self).pos as nat),
    {
        let t = self.toks[self.pos].tok.clone_tok();
        if self.pos < self.toks.len() - 1 {
            self.pos = self.pos + 1;
        }
        t
    }

    fn eat(&mut self, t: &Tok) -> (b: bool)
        requires
            old(self).inv(),
        ensures
            final(self).moved_from(*old(self)),
            b == (at(old(self).ts(), old(self).pos as nat) == t@),
            final(self).pos == (if b { next_pos(old(self).ts(), old(self).pos as nat) } else { old(self).pos as nat }),
    {
        if self.check(t) {
            self.advance();
            true
        } else {
            false
        }
    }

    fn expect(&mut self, t: &Tok, what: &str) -> (r: Result<(), Error>)
        requires
            old(self).inv(),
        ensures
            final(self).moved_from(*old(self)),
            match r {
                Ok(_) => expect_at(old(self).ts(), old(self).pos as nat, t@, what@) == Ok::<nat, SError>(final(self).pos as nat),
                Err(e) => expect_at(old(self).ts(), old(self).pos as nat, t@, what@) == Err::<nat, SError>(e@),
            },
    {
        if self.eat(t) {
            Ok(())
        } else {
            let mut msg = String::from_str("expected ");
            msg.append(what);
            msg.append(", found ");
            let found = self.peek().debug_text();
            msg.append(found.as_str());
            Err(Error::Parse { msg, line: self.line() })
        }
    }

    fn ident(&mut self, what: &str) -> (r: Result<String, Error>)
        requires
            old(self).inv(),
        ensures
            final(self).moved_from(*old(self)),
            final(self).pos == next_pos(old(self).ts(), old(self).pos as nat),
            match r {
                Ok(s) => ident_at(old(self).ts(), old(self).pos as nat, what@) == Ok::<(Seq<char>, nat), SError>((s@, final(self).pos as nat)),
                Err(e) => ident_at(old(self).ts(), old(self).pos as nat, what@) == Err::<(Seq<char>, nat), SError>(e@),
            },
    {
        match self.advance() {
            Tok::Ident(s) => Ok(s),
            other => {
                let mut msg = String::from_str("expected ");
                msg.append(what);
                msg.append(", found ");
                let found = other.debug_text();
                msg.append(found.as_str());
                Err(Error::Parse { msg, line: self.line() })
            },
        }
    }
}

impl Parser {
    #[verifier::loop_isolation(false)]
    fn parse_type(&mut self) -> (r: Result<Type, Error>)
        requires
            old(self).inv(),
        ensures
            final(self).moved_from(*old(self)),
            type_res(r, final(self).pos as nat) == type_at(old(self).ts(), old(self).pos as nat),
            r is Ok ==> old(self).pos < final(self).pos,
        decreases old(self).toks.len() - old(self).pos, 1nat,
    {
        let ghost ts = self.ts();
        let ghost p0 = self.pos as nat;
        if self.eat(&Tok::LParen) {
            let ghost q = self.pos as nat;
            let mut params: Vec<Type> = Vec::new();
            if !self.check(&Tok::RParen) {
                let ghost mut prev: nat = p0;
                loop
                    invariant
                        self.moved_from(*old(self)),
                        self.ts() == ts,
                        prev < self.pos < ts.len(),
                        p0 <= prev,
                        type_list_from(ts, p0, q, Seq::empty()) == type_list_from(
                            ts,
                            prev,
                            self.pos as nat,
                            types_view(params@),
                        ),
                    decreases self.toks.len() - self.pos,
                {
                    let ghost here = self.pos as nat;
                    let t = self.parse_type()?;
                    let ghost after = self.pos as nat;
                    proof {
                        lemma_types_view(params@);
                        lemma_types_view(params@.push(t));
                        assert(types_view(params@.push(t)) =~= types_view(params@).push(t@));
                    }
                    params.push(t);
                    if !self.eat(&Tok::Comma) {
                        break;
                    }
                    proof {
                        prev = after;
                    }
                }
            } else {
                proof {
                    assert(types_view(params@) =~= Seq::<SType>::empty());
                }
            }
            self.expect(&Tok::RParen, "')'")?;
            self.expect(&Tok::Arrow, "'->' in function type")?;
            let ret = self.parse_type()?;
            return Ok(Type::Fn(params, Box::new(ret)));
        }
        let name = self.ident("type name")?;
        if spells_string(&name, "Int") {
            Ok(Type::Int)
        } else if spells_string(&name, "Bool") {
            Ok(Type::Bool)
        } else if spells_string(&name, "Str") {
            Ok(Type::Str)
        } else {
            let mut msg = String::from_str("unknown type '");
            msg.append(name.as_str());
            msg.append("'");
            Err(Error::Parse { msg, line: self.line() })
        }
    }
}

/// The binary operator that `t` spells at operator level `level`.
fn level_op_of(level: u8, t: &Tok) -> (r: Option<BinOp>)
    ensures
        r == level_op(level as nat, t@),
{
    match t {
        Tok::PipePipe => if level == 11 { Some(BinOp::Or) } else { None },
        Tok::AmpAmp => if level == 10 { Some(BinOp::And) } else { None },
        Tok::EqEq => if level == 9 { Some(BinOp::Eq) } else { None },
        Tok::NotEq => if level == 9 { Some(BinOp::Ne) } else { None },
        Tok::Lt => if level == 8 { Some(BinOp::Lt) } else { None },
        Tok::Le => if level == 8 { Some(BinOp::Le) } else { None },
        Tok::Gt => if level == 8 { Some(BinOp::Gt) } else { None },
        Tok::Ge => if level == 8 { Some(BinOp::Ge) } else { None },
        Tok::PlusPlus => if level == 7 { Some(BinOp::Concat) } else { None },
        Tok::Plus => if level == 6 { Some(BinOp::Add) } else { None },
        Tok::Minus => if level == 6 { Some(BinOp::Sub) } else { None },
        Tok::Star => if level == 5 { Some(BinOp::Mul) } else { None },
        Tok::Slash => if level == 5 { Some(BinOp::Div) } else { None },
        Tok::Percent => if level == 5 { Some(BinOp::Mod) } else { None },
        _ => None,
    }
}

impl Parser {
    #[verifier::loop_isolation(false)]
    fn or(&mut self) -> (r: Result<Expr, Error>)
        requires
            old(self).inv(),
        ensures
            final(self).moved_from(*old(self)),
            expr_res(r, final(self).pos as nat) == level_expr(11, old(self).ts(), old(self).pos as nat),
            r is Ok ==> old(self).pos < final(self).pos,
        decreases old(self).toks.len() - old(self).pos, 32nat,
    {
        let ghost ts = self.ts();
        let ghost p0 = self.pos as nat;
        let mut left = self.and()?;
        loop
            invariant
                self.moved_from(*old(self)),
                self.ts() == ts,
                p0 < self.pos,
                level_expr(11, ts, p0) == level_rest(11, ts, self.pos as nat, left@),
            decreases self.toks.len() - self.pos,
        {
            let op = match level_op_of(11, self.peek()) {
                Some(op) => op,
                None => {
                    break;
                },
            };
            self.advance();
            let right = self.and()?;
            left = Expr::Binary(op, Box::new(left), Box::new(right));
        }
        Ok(left)
    }

    #[verifier::loop_isolation(false)]
    fn and(&mut self) -> (r: Result<Expr, Error>)
        requires
            old(self).inv(),
        ensures
            final(self).moved_from(*old(self)),
            expr_res(r, final(self).pos as nat) == level_expr(10, old(self).ts(), old(self).pos as nat),
            r is Ok ==> old(self).pos < final(self).pos,
        decreases old(self).toks.len() - old(self).pos, 30nat,
    {
        let ghost ts = self.ts();
        let ghost p0 = self.pos as nat;
        let mut left = self.equality()?;
        loop
            invariant
                self.moved_from(*old(self)),
                self.ts() == ts,
                p0 < self.pos,
                level_expr(10, ts, p0) == level_rest(10, ts, self.pos as nat, left@),
            decreases self.toks.len() - self.pos,
        {
            let op = match level_op_of(10, self.peek()) {
                Some(op) => op,
                None => {
                    break;
                },
            };
            self.advance();
            let right = self.equality()?;
            left = Expr::Binary(op, Box::new(left), Box::new(right));
        }
        Ok(left)
    }

    #[verifier::loop_isolation(false)]
    fn equality(&mut self) -> (r: Result<Expr, Error>)
        requires
            old(self).inv(),
        ensures
            final(self).moved_from(*old(self)),
            expr_res(r, final(self).pos as nat) == level_expr(9, old(self).ts(), old(self).pos as nat),
            r is Ok ==> old(self).pos < final(self).pos,
        decreases old(self).toks.len() - old(self).pos, 28nat,
    {
        let ghost ts = self.ts();
        let ghost p0 = self.pos as nat;
        let mut left = self.comparison()?;
        loop
            invariant
                self.moved_from(*old(self)),
                self.ts() == ts,
                p0 < self.pos,
                level_expr(9, ts, p0) == level_rest(9, ts, self.pos as nat, left@),
            decreases self.toks.len() - self.pos,
        {
            let op = match level_op_of(9, self.peek()) {
                Some(op) => op,
                None => {
                    break;
                },
            };
            self.advance();
            let right = self.comparison()?;
            left = Expr::Binary(op, Box::new(left), Box::new(right));
        }
        Ok(left)
    }

    #[verifier::loop_isolation(false)]
    fn comparison(&mut self) -> (r: Result<Expr, Error>)
        requires
            old(self).inv(),
        ensures
            final(self).moved_from(*old(self)),
            expr_res(r, final(self).pos as nat) == level_expr(8, old(self).ts(), old(self).pos as nat),
            r is Ok ==> old(self).pos < final(self).pos,
        decreases old(self).toks.len() - old(self).pos, 26nat,
    {
        let ghost ts = self.ts();
        let ghost p0 = self.pos as nat;
        let mut left = self.concat()?;
        loop
            invariant
                self.moved_from(*old(self)),
                self.ts() == ts,
                p0 < self.pos,
                level_expr(8, ts, p0) == level_rest(8, ts, self.pos as nat, left@),
            decreases self.toks.len() - self.pos,
        {
            let op = match level_op_of(8, self.peek()) {
                Some(op) => op,
                None => {
                    break;
                },
            };
            self.advance();
            let right = self.concat()?;
            left = Expr::Binary(op, Box::new(left), Box::new(right));
        }
        Ok(left)
    }

    #[verifier::loop_isolation(false)]
    fn concat(&mut self) -> (r: Result<Expr, Error>)
        requires
            old(self).inv(),
        ensures
            final(self).moved_from(*old(self)),
            expr_res(r, final(self).pos as nat) == level_expr(7, old(self).ts(), old(self).pos as nat),
            r is Ok ==> old(self).pos < final(self).pos,
        decreases old(self).toks.len() - old(self).pos, 24nat,
    {
        let ghost ts = self.ts();
        let ghost p0 = self.pos as nat;
        let mut left = self.add()?;
        loop
            invariant
                self.moved_from(*old(self)),
                self.ts() == ts,
                p0 < self.pos,
                level_expr(7, ts, p0) == level_rest(7, ts, self.pos as nat, left@),
            decreases self.toks.len() - self.pos,
        {
            let op = match level_op_of(7, self.peek()) {
                Some(op) => op,
                None => {
                    break;
                },
            };
            self.advance();
            let right = self.add()?;
            left = Expr::Binary(op, Box::new(left), Box::new(right));
        }
        Ok(left)
    }

    #[verifier::loop_isolation(false)]
    fn add(&mut self) -> (r: Result<Expr, Error>)
        requires
            old(self).inv(),
        ensures
            final(self).moved_from(*old(self)),
            expr_res(r, final(self).pos as nat) == level_expr(6, old(self).ts(), old(self).pos as nat),
            r is Ok ==> old(self).pos < final(self).pos,
        decreases old(self).toks.len() - old(self).pos, 22nat,
    {
        let ghost ts = self.ts();
        let ghost p0 = self.pos as nat;
        let mut left = self.mul()?;
        loop
            invariant
                self.moved_from(*old(self)),
                self.ts() == ts,
                p0 < self.pos,
                level_expr(6, ts, p0) == level_rest(6, ts, self.pos as nat, left@),
            decreases self.toks.len() - self.pos,
        {
            let op = match level_op_of(6, self.peek()) {
                Some(op) => op,
                None => {
                    break;
                },
            };
            self.advance();
            let right = self.mul()?;
            left = Expr::Binary(op, Box::new(left), Box::new(right));
        }
        Ok(left)
    }

    #[verifier::loop_isolation(false)]
    fn mul(&mut self) -> (r: Result<Expr, Error>)
        requires
            old(self).inv(),
        ensures
            final(self).moved_from(*old(self)),
            expr_res(r, final(self).pos as nat) == level_expr(5, old(self).ts(), old(self).pos as nat),
            r is Ok ==> old(self).pos < final(self).pos,
        decreases old(self).toks.len() - old(self).pos, 20nat,
    {
        let ghost ts = self.ts();
        let ghost p0 = self.pos as nat;
        assert(level_expr(4, ts, self.pos as nat) == unary_at(ts, self.pos as nat));
        let mut left = self.unary()?;
        loop
            invariant
                self.moved_from(*old(self)),
                self.ts() == ts,
                p0 < self.pos,
                level_expr(5, ts, p0) == level_rest(5, ts, self.pos as nat, left@),
            decreases self.toks.len() - self.pos,
        {
            let op = match level_op_of(5, self.peek()) {
                Some(op) => op,
                None => {
                    break;
                },
            };
            self.advance();
            assert(level_expr(4, ts, self.pos as nat) == unary_at(ts, self.pos as nat));
            let right = self.unary()?;
            left = Expr::Binary(op, Box::new(left), Box::new(right));
        }
        Ok(left)
    }

}

impl Parser {
    fn expr(&mut self) -> (r: Result<Expr, Error>)
        requires
            old(self).inv(),
        ensures
            final(self).moved_from(*old(self)),
            expr_res(r, final(self).pos as nat) == expr_at(old(self).ts(), old(self).pos as nat),
            r is Ok ==> old(self).pos < final(self).pos,
        decreases old(self).toks.len() - old(self).pos, 33nat,
    {
        self.or()
    }

    fn unary(&mut self) -> (r: Result<Expr, Error>)
        requires
            old(self).inv(),
        ensures
            final(self).moved_from(*old(self)),
            expr_res(r, final(self).pos as nat) == unary_at(old(self).ts(), old(self).pos as nat),
            r is Ok ==> old(self).pos < final(self).pos,
        decreases old(self).toks.len() - old(self).pos, 9nat,
    {
        if self.eat(&Tok::Bang) {
            let x = self.unary()?;
            return Ok(Expr::Unary(UnOp::Not, Box::new(x)));
        }
        if self.eat(&Tok::Minus) {
            let x = self.unary()?;
            return Ok(Expr::Unary(UnOp::Neg, Box::new(x)));
        }
        self.call()
    }

    #[verifier::loop_isolation(false)]
    fn call(&mut self) -> (r: Result<Expr, Error>)
        requires
            old(self).inv(),
        ensures
            final(self).moved_from(*old(self)),
            expr_res(r, final(self).pos as nat) == call_at(old(self).ts(), old(self).pos as nat),
            r is Ok ==> old(self).pos < final(self).pos,
        decreases old(self).toks.len() - old(self).pos, 7nat,
    {
        let ghost ts = self.ts();
        let ghost p0 = self.pos as nat;
        let mut e = self.primary()?;
        loop
            invariant
                self.moved_from(*old(self)),
                self.ts() == ts,
                p0 < self.pos,
                call_at(ts, p0) == call_rest(ts, self.pos as nat, e@),
            decreases self.toks.len() - self.pos,
        {
            if !self.eat(&Tok::LParen) {
                break;
            }
            let ghost q = self.pos as nat;
            let mut args: Vec<Expr> = Vec::new();
            if !self.check(&Tok::RParen) {
                loop
                    invariant
                        self.moved_from(*old(self)),
                        self.ts() == ts,
                        q <= self.pos,
                        args_at(ts, q, Seq::empty()) == args_at(ts, self.pos as nat, exprs_view(args@)),
                    decreases self.toks.len() - self.pos,
                {
                    let a = self.expr()?;
                    proof {
                        lemma_exprs_view(args@);
                        lemma_exprs_view(args@.push(a));
                        assert(exprs_view(args@.push(a)) =~= exprs_view(args@).push(a@));
                    }
                    args.push(a);
                    if !self.eat(&Tok::Comma) {
                        break;
                    }
                }
            } else {
                proof {
                    assert(exprs_view(args@) =~= Seq::<SExpr>::empty());
                }
            }
            self.expect(&Tok::RParen, "')' after arguments")?;
            e = Expr::Call(Box::new(e), args);
        }
        Ok(e)
    }

    #[verifier::loop_isolation(false)]
    fn primary(&mut self) -> (r: Result<Expr, Error>)
        requires
            old(self).inv(),
        ensures
            final(self).moved_from(*old(self)),
            expr_res(r, final(self).pos as nat) == primary_at(old(self).ts(), old(self).pos as nat),
            r is Ok ==> old(self).pos < final(self).pos,
        decreases old(self).toks.len() - old(self).pos, 6nat,
    {
        let ghost ts = self.ts();
        let ghost p0 = self.pos as nat;
        match self.peek().clone_tok() {
            Tok::Int(n) => {
                self.advance();
                Ok(Expr::Int(n))
            },
            Tok::True => {
                self.advance();
                Ok(Expr::Bool(true))
            },
            Tok::False => {
                self.advance();
                Ok(Expr::Bool(false))
            },
            Tok::Str(s) => {
                self.advance();
                Ok(Expr::Str(s))
            },
            Tok::Ident(s) => {
                self.advance();
                Ok(Expr::Var(s))
            },
            Tok::LParen => {
                self.advance();
                let e = self.expr()?;
                self.expect(&Tok::RParen, "')'")?;
                Ok(e)
            },
            Tok::If => self.if_expr(),
            Tok::Fn => self.lambda(),
            other => {
                let mut msg = String::from_str("unexpected ");
                let found = other.debug_text();
                msg.append(found.as_str());
                Err(Error::Parse { msg, line: self.line() })
            },
        }
    }
}

impl Parser {
    fn if_expr(&mut self) -> (r: Result<Expr, Error>)
        requires
            old(self).inv(),
            at(old(self).ts(), old(self).pos as nat) is If,
        ensures
            final(self).moved_from(*old(self)),
            expr_res(r, final(self).pos as nat) == if_at(old(self).ts(), old(self).pos as nat),
            r is Ok ==> old(self).pos < final(self).pos,
        decreases old(self).toks.len() - old(self).pos, 5nat,
    {
        self.advance();
        let cond = self.expr()?;
        self.expect(&Tok::Then, "'then'")?;
        let then = self.expr()?;
        self.expect(&Tok::Else, "'else'")?;
        let els = self.expr()?;
        Ok(Expr::If(Box::new(cond), Box::new(then), Box::new(els)))
    }

    #[verifier::loop_isolation(false)]
    fn lambda(&mut self) -> (r: Result<Expr, Error>)
        requires
            old(self).inv(),
            at(old(self).ts(), old(self).pos as nat) is Fn,
        ensures
            final(self).moved_from(*old(self)),
            expr_res(r, final(self).pos as nat) == lambda_at(old(self).ts(), old(self).pos as nat),
            r is Ok ==> old(self).pos < final(self).pos,
        decreases old(self).toks.len() - old(self).pos, 5nat,
    {
        let ghost ts = self.ts();
        self.advance();
        self.expect(&Tok::LParen, "'(' after fn")?;
        let ghost q1 = self.pos as nat;
        let mut params: Vec<(String, Type)> = Vec::new();
        assert(params_view(params@) =~= Seq::<(Seq<char>, SType)>::empty());
        if !self.check(&Tok::RParen) {
            loop
                invariant
                    self.moved_from(*old(self)),
                    self.ts() == ts,
                    q1 <= self.pos,
                    params_at(ts, q1, Seq::empty()) == params_at(
                        ts,
                        self.pos as nat,
                        params_view(params@),
                    ),
                decreases self.toks.len() - self.pos,
            {
                let name = self.ident("parameter name")?;
                self.expect(&Tok::Colon, "':' and a type for the parameter")?;
                let ty = self.parse_type()?;
                proof {
                    assert(params_view(params@.push((name, ty))) =~= params_view(params@).push((name@, ty@)));
                }
                params.push((name, ty));
                if !self.eat(&Tok::Comma) {
                    break;
                }
            }
        }
        self.expect(&Tok::RParen, "')'")?;
        let ret = if self.eat(&Tok::Arrow) {
            let t = self.parse_type()?;
            Some(t)
        } else {
            None
        };
        self.expect(&Tok::FatArrow, "'=>' before the function body")?;
        let body = self.expr()?;
        Ok(Expr::Lambda { params, ret, body: Box::new(body) })
    }
}

pub open spec fn stmt_res(r: Result<Stmt, Error>, pos: nat) -> PRes<SStmt> {
    match r {
        Ok(s) => Ok((s@, pos)),
        Err(e) => Err(e@),
    }
}

pub open spec fn program_res(r: Result<Program, Error>) -> Result<Seq<SStmt>, SError> {
    match r {
        Ok(p) => Ok(program_view(p@)),
        Err(e) => Err(e@),
    }
}

impl Parser {
    fn stmt(&mut self) -> (r: Result<Stmt, Error>)
        requires
            old(self).inv(),
        ensures
            final(self).moved_from(*old(self)),
            stmt_res(r, final(self).pos as nat) == stmt_at(old(self).ts(), old(self).pos as nat),
            r is Ok ==> old(self).pos < final(self).pos,
    {
        if self.eat(&Tok::Let) {
            let rec = self.eat(&Tok::Rec);
            let name = self.ident("binding name")?;
            let ty = if self.eat(&Tok::Colon) {
                let t = self.parse_type()?;
                Some(t)
            } else {
                None
            };
            self.expect(&Tok::Eq, "'='")?;
            let value = self.expr()?;
            self.expect(&Tok::Semi, "';'")?;
            Ok(Stmt::Let { name, rec, ty, value })
        } else {
            let e = self.expr()?;
            self.expect(&Tok::Semi, "';'")?;
            Ok(Stmt::Expr(e))
        }
    }
}

/// Parses a token stream (as the lexer produces it) into a program.
#[verifier::loop_isolation(false)]
pub fn parse(toks: Vec<Token>) -> (r: Result<Program, Error>)
    requires
        ends_with_eof(tokens_view(toks@)),
    ensures
        program_res(r) == parse_spec(tokens_view(toks@)),
{
    let ghost ts = tokens_view(toks@);
    let mut p = Parser { toks, pos: 0 };
    let mut prog: Vec<Stmt> = Vec::new();
    assert(program_view(prog@) =~= Seq::<SStmt>::empty());
    while !p.check(&Tok::Eof)
        invariant
            p.inv(),
            p.ts() == ts,
            parse_spec(ts) == stmts_at(ts, p.pos as nat, program_view(prog@)),
        decreases p.toks.len() - p.pos,
    {
        let s = p.stmt()?;
        proof {
            assert(program_view(prog@.push(s)) =~= program_view(prog@).push(s@));
        }
        prog.push(s);
    }
    Ok(prog)
}
} // verus!
