//! Builds the syntax tree of a program from its tokens.
use vstd::prelude::*;
use std::collections::VecDeque;

use crate::lexer::{BinOp, Token, TokenTag, TokenV, token_tag, tokens_view};
use crate::types::{Type, TypeV};

verus! {

/// An expression.
#[derive(Debug)]
pub enum ExprAst {
    Number(u128),
    BinOp { lhs: Box<ExprAst>, op: BinOp, rhs: Box<ExprAst> },
    VarUse(String),
    FunctionCall { fun: Box<ExprAst>, args: Vec<ExprAst> },
}

/// A statement.
#[derive(Debug)]
pub enum StatementAst {
    Expr(ExprAst),
    Return(ExprAst),
    Var { name: String, var_type: Type, val: ExprAst },
    If { condition: ExprAst, if_body: Vec<StatementAst>, else_body: Option<Vec<StatementAst>> },
}

/// A function parameter.
#[derive(Debug)]
pub struct Arg {
    pub name: String,
    pub arg_type: Type,
}

/// A top-level declaration.
#[derive(Debug)]
pub enum TopLevelAst {
    Function { name: String, args: Vec<Arg>, body: Vec<StatementAst>, return_type: Type },
}

/// Mathematical model of an [`ExprAst`].
pub enum ExprV {
    Number(u128),
    BinOp { lhs: Box<ExprV>, op: BinOp, rhs: Box<ExprV> },
    VarUse(Seq<char>),
    FunctionCall { fun: Box<ExprV>, args: Seq<ExprV> },
}

/// Mathematical model of a [`StatementAst`].
pub enum StmtV {
    Expr(ExprV),
    Return(ExprV),
    Var { name: Seq<char>, var_type: TypeV, val: ExprV },
    If { condition: ExprV, if_body: Seq<StmtV>, else_body: Option<Seq<StmtV>> },
}

/// Mathematical model of an [`Arg`].
pub struct ArgV {
    pub name: Seq<char>,
    pub arg_type: TypeV,
}

/// Mathematical model of a [`TopLevelAst`].
pub enum TopV {
    Function { name: Seq<char>, args: Seq<ArgV>, body: Seq<StmtV>, return_type: TypeV },
}

pub open spec fn expr_view(e: ExprAst) -> ExprV
    decreases e,
{
    match e {
        ExprAst::Number(n) => ExprV::Number(n),
        ExprAst::BinOp { lhs, op, rhs } => ExprV::BinOp {
            lhs: Box::new(expr_view(*lhs)),
            op,
            rhs: Box::new(expr_view(*rhs)),
        },
        ExprAst::VarUse(s) => ExprV::VarUse(s@),
        ExprAst::FunctionCall { fun, args } => ExprV::FunctionCall {
            fun: Box::new(expr_view(*fun)),
            args: exprs_view(args@),
        },
    }
}

pub open spec fn exprs_view(s: Seq<ExprAst>) -> Seq<ExprV>
    decreases s,
{
    if s.len() == 0 {
        Seq::empty()
    } else {
        seq![expr_view(s[0])] + exprs_view(s.subrange(1, s.len() as int))
    }
}

pub open spec fn stmt_view(s: StatementAst) -> StmtV
    decreases s,
{
    match s {
        StatementAst::Expr(e) => StmtV::Expr(expr_view(e)),
        StatementAst::Return(e) => StmtV::Return(expr_view(e)),
        StatementAst::Var { name, var_type, val } => StmtV::Var {
            name: name@,
            var_type: var_type@,
            val: expr_view(val),
        },
        StatementAst::If { condition, if_body, else_body } => StmtV::If {
            condition: expr_view(condition),
            if_body: stmts_view(if_body@),
            else_body: match else_body {
                Some(b) => Some(stmts_view(b@)),
                None => None,
            },
        },
    }
}

pub open spec fn stmts_view(s: Seq<StatementAst>) -> Seq<StmtV>
    decreases s,
{
    if s.len() == 0 {
        Seq::empty()
    } else {
        seq![stmt_view(s[0])] + stmts_view(s.subrange(1, s.len() as int))
    }
}

/// Depth of an expression tree.
pub open spec fn expr_height(e: ExprV) -> nat
    decreases e,
{
    match e {
        ExprV::Number(_) => 0,
        ExprV::VarUse(_) => 0,
        ExprV::BinOp { lhs, op: _, rhs } => {
            let l = expr_height(*lhs);
            let r = expr_height(*rhs);
            1 + if l >= r {
                l
            } else {
                r
            }
        },
        ExprV::FunctionCall { fun, args } => {
            let f = expr_height(*fun);
            let a = exprs_height(args);
            1 + if f >= a {
                f
            } else {
                a
            }
        },
    }
}

/// Greatest depth of a sequence of expression trees.
pub open spec fn exprs_height(s: Seq<ExprV>) -> nat
    decreases s,
{
    if s.len() == 0 {
        0
    } else {
        let h = expr_height(s[0]);
        let rest = exprs_height(s.subrange(1, s.len() as int));
        if h >= rest {
            h
        } else {
            rest
        }
    }
}

/// Each expression of a sequence is at most as deep as the sequence's deepest.
pub proof fn lemma_exprs_height(s: Seq<ExprV>, i: int)
    requires
        0 <= i < s.len(),
    ensures
        expr_height(s[i]) <= exprs_height(s),
    decreases s.len(),
{
    if i > 0 {
        let rest = s.subrange(1, s.len() as int);
        lemma_exprs_height(rest, i - 1);
        assert(rest[i - 1] == s[i]);
    }
}

pub open spec fn args_view(s: Seq<Arg>) -> Seq<ArgV> {
    s.map_values(|a: Arg| a@)
}

impl View for ExprAst {
    type V = ExprV;

    open spec fn view(&self) -> ExprV {
        expr_view(*self)
    }
}

impl View for StatementAst {
    type V = StmtV;

    open spec fn view(&self) -> StmtV {
        stmt_view(*self)
    }
}

impl View for Arg {
    type V = ArgV;

    open spec fn view(&self) -> ArgV {
        ArgV { name: self.name@, arg_type: self.arg_type@ }
    }
}

impl View for TopLevelAst {
    type V = TopV;

    open spec fn view(&self) -> TopV {
        match self {
            TopLevelAst::Function { name, args, body, return_type } => TopV::Function {
                name: name@,
                args: args_view(args@),
                body: stmts_view(body@),
                return_type: return_type@,
            },
        }
    }
}

pub proof fn lemma_exprs_view(s: Seq<ExprAst>)
    ensures
        exprs_view(s).len() == s.len(),
        forall|i: int| 0 <= i < s.len() ==> #[trigger] exprs_view(s)[i] == expr_view(s[i]),
    decreases s.len(),
{
    if s.len() > 0 {
        let rest = s.subrange(1, s.len() as int);
        lemma_exprs_view(rest);
        assert forall|i: int| 0 <= i < s.len() implies #[trigger] exprs_view(s)[i] == expr_view(
            s[i],
        ) by {
            if i > 0 {
                assert(s[i] == rest[i - 1]);
            }
        }
    }
}

pub proof fn lemma_exprs_view_push(s: Seq<ExprAst>, e: ExprAst)
    ensures
        exprs_view(s.push(e)) == exprs_view(s).push(expr_view(e)),
{
    lemma_exprs_view(s);
    lemma_exprs_view(s.push(e));
    assert(exprs_view(s.push(e)) =~= exprs_view(s).push(expr_view(e)));
}

pub proof fn lemma_stmts_view(s: Seq<StatementAst>)
    ensures
        stmts_view(s).len() == s.len(),
        forall|i: int| 0 <= i < s.len() ==> #[trigger] stmts_view(s)[i] == stmt_view(s[i]),
    decreases s.len(),
{
    if s.len() > 0 {
        let rest = s.subrange(1, s.len() as int);
        lemma_stmts_view(rest);
        assert forall|i: int| 0 <= i < s.len() implies #[trigger] stmts_view(s)[i] == stmt_view(
            s[i],
        ) by {
            if i > 0 {
                assert(s[i] == rest[i - 1]);
            }
        }
    }
}

pub proof fn lemma_stmts_view_push(s: Seq<StatementAst>, e: StatementAst)
    ensures
        stmts_view(s.push(e)) == stmts_view(s).push(stmt_view(e)),
{
    lemma_stmts_view(s);
    lemma_stmts_view(s.push(e));
    assert(stmts_view(s.push(e)) =~= stmts_view(s).push(stmt_view(e)));
}

/// Why a sequence of tokens is not a program.
#[derive(Debug, Clone, Copy, PartialEq, Eq, Structural)]
pub enum ParseError {
    /// The tokens ended where more were needed.
    UnexpectedEnd,
    /// A token of another kind than the grammar asks for there.
    WrongToken { found: TokenTag, expected: TokenTag },
    /// A token that cannot start what is parsed there.
    UnexpectedToken(TokenTag),
    /// A variable declaration whose name is not followed by `=`.
    ExpectedAssign(TokenTag),
    /// A statement not ended by `;`.
    MissingSemicolon,
}

/// A parse of a prefix of the tokens: the value and the tokens left.
pub type PResult<T> = Result<(T, Seq<TokenV>), ParseError>;

/// Precedence of a binary operator: a higher one binds tighter.
pub open spec fn prec(op: BinOp) -> nat {
    match op {
        BinOp::Equal => 0,
        BinOp::Cmp => 1,
        BinOp::Plus | BinOp::Minus => 2,
        BinOp::Mult | BinOp::Div => 3,
    }
}

/// The operator at the front of the tokens, if they start with one.
pub open spec fn front_binop(ts: Seq<TokenV>) -> Option<BinOp> {
    if ts.len() > 0 {
        match ts[0] {
            TokenV::BinOp(op) => Some(op),
            _ => None,
        }
    } else {
        None
    }
}

/// Takes a token of kind `tag` from the front.
pub open spec fn sp_eat(ts: Seq<TokenV>, tag: TokenTag) -> PResult<TokenV> {
    if ts.len() == 0 {
        Err(ParseError::UnexpectedEnd)
    } else if token_tag(ts[0]) != tag {
        Err(ParseError::WrongToken { found: token_tag(ts[0]), expected: tag })
    } else {
        Ok((ts[0], ts.drop_first()))
    }
}

/// A number or a variable.
pub open spec fn sp_primary(ts: Seq<TokenV>) -> PResult<ExprV> {
    if ts.len() == 0 {
        Err(ParseError::UnexpectedEnd)
    } else {
        match ts[0] {
            TokenV::Number(n) => Ok((ExprV::Number(n), ts.drop_first())),
            TokenV::Identifier(s) => Ok((ExprV::VarUse(s), ts.drop_first())),
            t => Err(ParseError::UnexpectedToken(token_tag(t))),
        }
    }
}

pub proof fn lemma_primary_rest(ts: Seq<TokenV>)
    ensures
        sp_primary(ts) matches Ok((_, r)) ==> r == ts.drop_first() && ts.len() > 0,
{
}

pub proof fn lemma_eat_rest(ts: Seq<TokenV>, tag: TokenTag)
    ensures
        sp_eat(ts, tag) matches Ok((t, r)) ==> r == ts.drop_first() && ts.len() > 0 && t == ts[0]
            && token_tag(t) == tag,
{
}

/// Operator-precedence parsing: extends `lhs` with the operators of precedence at
/// least `min` at the front of the tokens; each right operand is a primary,
/// extended by the operators that bind tighter than its own (left associative).
pub open spec fn sp_binop(ts: Seq<TokenV>, lhs: ExprV, min: nat) -> PResult<ExprV>
    decreases ts.len(), 0nat,
{
    match front_binop(ts) {
        Some(op) => if prec(op) >= min {
            match sp_primary(ts.drop_first()) {
                Err(e) => Err(e),
                Ok((rhs, r2)) => {
                    proof {
                        lemma_primary_rest(ts.drop_first());
                    }
                    match sp_climb(r2, rhs, prec(op)) {
                        Err(e) => Err(e),
                        Ok((rhs2, r3)) => if r3.len() < ts.len() {
                            sp_binop(
                                r3,
                                ExprV::BinOp { lhs: Box::new(lhs), op, rhs: Box::new(rhs2) },
                                min,
                            )
                        } else {
                            Err(ParseError::UnexpectedEnd)
                        },
                    }
                },
            }
        } else {
            Ok((lhs, ts))
        },
        None => Ok((lhs, ts)),
    }
}

/// Extends the right operand `rhs` of an operator of precedence `op_prec` with the
/// operators at the front that bind tighter.
pub open spec fn sp_climb(ts: Seq<TokenV>, rhs: ExprV, op_prec: nat) -> PResult<ExprV>
    decreases ts.len(), 1nat,
{
    match front_binop(ts) {
        Some(b) => if prec(b) > op_prec {
            match sp_binop(ts, rhs, op_prec + 1) {
                Err(e) => Err(e),
                Ok((rhs2, r)) => if r.len() < ts.len() {
                    sp_climb(r, rhs2, op_prec)
                } else {
                    Err(ParseError::UnexpectedEnd)
                },
            }
        } else {
            Ok((rhs, ts))
        },
        None => Ok((rhs, ts)),
    }
}

/// Each operator that `sp_binop` and `sp_climb` take consumes tokens.
pub proof fn lemma_binop_rest(ts: Seq<TokenV>, lhs: ExprV, min: nat)
    ensures
        sp_binop(ts, lhs, min) matches Ok((_, r)) ==> r.len() <= ts.len(),
        sp_binop(ts, lhs, min) matches Ok((_, r)) ==> (front_binop(ts) matches Some(op) && prec(op)
            >= min ==> r.len() < ts.len()),
    decreases ts.len(), 0nat,
{
    if let Some(op) = front_binop(ts) {
        if prec(op) >= min {
            lemma_primary_rest(ts.drop_first());
            if let Ok((rhs, r2)) = sp_primary(ts.drop_first()) {
                lemma_climb_rest(r2, rhs, prec(op));
                if let Ok((rhs2, r3)) = sp_climb(r2, rhs, prec(op)) {
                    lemma_binop_rest(
                        r3,
                        ExprV::BinOp { lhs: Box::new(lhs), op, rhs: Box::new(rhs2) },
                        min,
                    );
                }
            }
        }
    }
}

pub proof fn lemma_climb_rest(ts: Seq<TokenV>, rhs: ExprV, op_prec: nat)
    ensures
        sp_climb(ts, rhs, op_prec) matches Ok((_, r)) ==> r.len() <= ts.len(),
    decreases ts.len(), 1nat,
{
    if let Some(b) = front_binop(ts) {
        if prec(b) > op_prec {
            lemma_binop_rest(ts, rhs, op_prec + 1);
            if let Ok((rhs2, r)) = sp_binop(ts, rhs, op_prec + 1) {
                if r.len() < ts.len() {
                    lemma_climb_rest(r, rhs2, op_prec);
                }
            }
        }
    }
}

/// A call's arguments up to the closing parenthesis, separated by commas.
pub open spec fn sp_args(ts: Seq<TokenV>, first: bool) -> PResult<Seq<ExprV>>
    decreases ts.len(), 2nat,
{
    if ts.len() == 0 || ts[0] is RightParen {
        Ok((seq![], ts))
    } else {
        let sep: Result<Seq<TokenV>, ParseError> = if first {
            Ok(ts)
        } else {
            match sp_eat(ts, TokenTag::Colon) {
                Ok((_, r)) => Ok(r),
                Err(e) => Err(e),
            }
        };
        match sep {
            Err(e) => Err(e),
            Ok(r0) => {
                proof {
                    lemma_eat_rest(ts, TokenTag::Colon);
                }
                match sp_expr(r0) {
                    Err(e) => Err(e),
                    Ok((a, r1)) => if r1.len() < ts.len() {
                        match sp_args(r1, false) {
                            Err(e) => Err(e),
                            Ok((more, r2)) => Ok((seq![a] + more, r2)),
                        }
                    } else {
                        Err(ParseError::UnexpectedEnd)
                    },
                }
            },
        }
    }
}

/// Whether a token is a number or an identifier.
pub open spec fn is_primary_token(t: TokenV) -> bool {
    t is Number || t is Identifier
}

/// The expression of a number or identifier token.
pub open spec fn primary_of(t: TokenV) -> ExprV {
    match t {
        TokenV::Number(n) => ExprV::Number(n),
        TokenV::Identifier(s) => ExprV::VarUse(s),
        _ => ExprV::Number(0),
    }
}

/// Precedence and associativity: in `a o1 b o2 c` the operator of higher precedence
/// binds tighter, and of two operators of equal precedence the left one is applied
/// first.
pub proof fn lemma_precedence(a: TokenV, o1: BinOp, b: TokenV, o2: BinOp, c: TokenV)
    requires
        is_primary_token(a),
        is_primary_token(b),
        is_primary_token(c),
    ensures
        sp_expr(seq![a, TokenV::BinOp(o1), b, TokenV::BinOp(o2), c]) == Ok::<(ExprV, Seq<TokenV>), ParseError>(
            (
                if prec(o2) > prec(o1) {
                    ExprV::BinOp {
                        lhs: Box::new(primary_of(a)),
                        op: o1,
                        rhs: Box::new(
                            ExprV::BinOp {
                                lhs: Box::new(primary_of(b)),
                                op: o2,
                                rhs: Box::new(primary_of(c)),
                            },
                        ),
                    }
                } else {
                    ExprV::BinOp {
                        lhs: Box::new(
                            ExprV::BinOp {
                                lhs: Box::new(primary_of(a)),
                                op: o1,
                                rhs: Box::new(primary_of(b)),
                            },
                        ),
                        op: o2,
                        rhs: Box::new(primary_of(c)),
                    }
                },
                Seq::<TokenV>::empty(),
            ),
        ),
{
    let ts = seq![a, TokenV::BinOp(o1), b, TokenV::BinOp(o2), c];
    let t1 = seq![TokenV::BinOp(o1), b, TokenV::BinOp(o2), c];
    let t2 = seq![b, TokenV::BinOp(o2), c];
    let t3 = seq![TokenV::BinOp(o2), c];
    let t4 = seq![c];
    let e: Seq<TokenV> = Seq::empty();
    assert(ts.drop_first() =~= t1);
    assert(t1.drop_first() =~= t2);
    assert(t2.drop_first() =~= t3);
    assert(t3.drop_first() =~= t4);
    assert(t4.drop_first() =~= e);
    let ea = primary_of(a);
    let eb = primary_of(b);
    let ec = primary_of(c);
    assert(sp_primary(ts) == Ok::<(ExprV, Seq<TokenV>), ParseError>((ea, t1)));
    assert(sp_call(ts) == Ok::<(ExprV, Seq<TokenV>), ParseError>((ea, t1)));
    assert(sp_primary(t2) == Ok::<(ExprV, Seq<TokenV>), ParseError>((eb, t3)));
    assert(sp_primary(t4) == Ok::<(ExprV, Seq<TokenV>), ParseError>((ec, e)));
    assert(sp_climb(e, ec, prec(o2)) == Ok::<(ExprV, Seq<TokenV>), ParseError>((ec, e)));
    let bc = ExprV::BinOp { lhs: Box::new(eb), op: o2, rhs: Box::new(ec) };
    let ab = ExprV::BinOp { lhs: Box::new(ea), op: o1, rhs: Box::new(eb) };
    if prec(o2) > prec(o1) {
        assert(sp_binop(e, bc, prec(o1) + 1) == Ok::<(ExprV, Seq<TokenV>), ParseError>((bc, e)));
        assert(sp_binop(t3, eb, prec(o1) + 1) == Ok::<(ExprV, Seq<TokenV>), ParseError>((bc, e)));
        assert(sp_climb(e, bc, prec(o1)) == Ok::<(ExprV, Seq<TokenV>), ParseError>((bc, e)));
        assert(sp_climb(t3, eb, prec(o1)) == Ok::<(ExprV, Seq<TokenV>), ParseError>((bc, e)));
        let whole = ExprV::BinOp { lhs: Box::new(ea), op: o1, rhs: Box::new(bc) };
        assert(sp_binop(e, whole, 0) == Ok::<(ExprV, Seq<TokenV>), ParseError>((whole, e)));
        assert(sp_binop(t1, ea, 0) == Ok::<(ExprV, Seq<TokenV>), ParseError>((whole, e)));
    } else {
        assert(sp_climb(t3, eb, prec(o1)) == Ok::<(ExprV, Seq<TokenV>), ParseError>((eb, t3)));
        let whole = ExprV::BinOp { lhs: Box::new(ab), op: o2, rhs: Box::new(ec) };
        assert(sp_binop(e, whole, 0) == Ok::<(ExprV, Seq<TokenV>), ParseError>((whole, e)));
        assert(sp_binop(t3, ab, 0) == Ok::<(ExprV, Seq<TokenV>), ParseError>((whole, e)));
        assert(sp_binop(t1, ea, 0) == Ok::<(ExprV, Seq<TokenV>), ParseError>((whole, e)));
    }
}

/// The operator levels of C: `+` and `-` share one level, `*` and `/` share one
/// above it, `==` is below both and `=` lowest of all.
pub proof fn lemma_operator_levels()
    ensures
        prec(BinOp::Plus) == prec(BinOp::Minus),
        prec(BinOp::Mult) == prec(BinOp::Div),
        prec(BinOp::Mult) > prec(BinOp::Plus),
        prec(BinOp::Plus) > prec(BinOp::Cmp),
        prec(BinOp::Cmp) > prec(BinOp::Equal),
{
}

/// Whether an operator is `+` or `-`.
pub open spec fn is_additive(op: BinOp) -> bool {
    op == BinOp::Plus || op == BinOp::Minus
}

/// Whether an operator is `*` or `/`.
pub open spec fn is_multiplicative(op: BinOp) -> bool {
    op == BinOp::Mult || op == BinOp::Div
}

/// How `a o1 b o2 c` groups for the arithmetic operators: two of `+`/`-`, or two
/// of `*`/`/`, group to the left (`8 - 4 + 2` is `(8 - 4) + 2`); a `*` or `/` after
/// a `+` or `-` is applied first (`1 + 2 * 3` is `1 + (2 * 3)`), and one before it
/// is applied first too (`2 * 3 + 1` is `(2 * 3) + 1`).
pub proof fn lemma_arithmetic_grouping(a: TokenV, o1: BinOp, b: TokenV, o2: BinOp, c: TokenV)
    requires
        is_primary_token(a),
        is_primary_token(b),
        is_primary_token(c),
        is_additive(o1) || is_multiplicative(o1),
        is_additive(o2) || is_multiplicative(o2),
    ensures
        sp_expr(seq![a, TokenV::BinOp(o1), b, TokenV::BinOp(o2), c]) == Ok::<(ExprV, Seq<TokenV>), ParseError>(
            (
                if is_additive(o1) && is_multiplicative(o2) {
                    ExprV::BinOp {
                        lhs: Box::new(primary_of(a)),
                        op: o1,
                        rhs: Box::new(
                            ExprV::BinOp {
                                lhs: Box::new(primary_of(b)),
                                op: o2,
                                rhs: Box::new(primary_of(c)),
                            },
                        ),
                    }
                } else {
                    ExprV::BinOp {
                        lhs: Box::new(
                            ExprV::BinOp {
                                lhs: Box::new(primary_of(a)),
                                op: o1,
                                rhs: Box::new(primary_of(b)),
                            },
                        ),
                        op: o2,
                        rhs: Box::new(primary_of(c)),
                    }
                },
                Seq::<TokenV>::empty(),
            ),
        ),
{
    lemma_precedence(a, o1, b, o2, c);
}

/// A primary, called when a parenthesised argument list follows.
pub open spec fn sp_call(ts: Seq<TokenV>) -> PResult<ExprV>
    decreases ts.len(), 0nat,
{
    match sp_primary(ts) {
        Err(e) => Err(e),
        Ok((e, r)) => if r.len() > 0 && r[0] is LeftParen {
            proof {
                lemma_primary_rest(ts);
            }
            match sp_args(r.drop_first(), true) {
                Err(err) => Err(err),
                Ok((args, r2)) => match sp_eat(r2, TokenTag::RightParen) {
                    Err(err) => Err(err),
                    Ok((_, r3)) => Ok((ExprV::FunctionCall { fun: Box::new(e), args }, r3)),
                },
            }
        } else {
            Ok((e, r))
        },
    }
}

/// An expression: a call or primary, then binary operators.
pub open spec fn sp_expr(ts: Seq<TokenV>) -> PResult<ExprV>
    decreases ts.len(), 1nat,
{
    match sp_call(ts) {
        Err(e) => Err(e),
        Ok((lhs, r)) => sp_binop(r, lhs, 0),
    }
}

pub proof fn lemma_expr_rest(ts: Seq<TokenV>)
    ensures
        sp_expr(ts) matches Ok((_, r)) ==> r.len() < ts.len(),
    decreases ts.len(), 1nat,
{
    lemma_call_rest(ts);
    if let Ok((lhs, r)) = sp_call(ts) {
        lemma_binop_rest(r, lhs, 0);
    }
}

pub proof fn lemma_call_rest(ts: Seq<TokenV>)
    ensures
        sp_call(ts) matches Ok((_, r)) ==> r.len() < ts.len(),
    decreases ts.len(), 0nat,
{
    lemma_primary_rest(ts);
    if let Ok((e, r)) = sp_primary(ts) {
        if r.len() > 0 && r[0] is LeftParen {
            lemma_args_rest(r.drop_first(), true);
            if let Ok((args, r2)) = sp_args(r.drop_first(), true) {
                lemma_eat_rest(r2, TokenTag::RightParen);
            }
        }
    }
}

pub proof fn lemma_args_rest(ts: Seq<TokenV>, first: bool)
    ensures
        sp_args(ts, first) matches Ok((_, r)) ==> r.len() <= ts.len(),
    decreases ts.len(), 2nat,
{
    if !(ts.len() == 0 || ts[0] is RightParen) {
        lemma_eat_rest(ts, TokenTag::Colon);
        let sep: Result<Seq<TokenV>, ParseError> = if first {
            Ok(ts)
        } else {
            match sp_eat(ts, TokenTag::Colon) {
                Ok((_, r)) => Ok(r),
                Err(e) => Err(e),
            }
        };
        if let Ok(r0) = sep {
            lemma_expr_rest(r0);
            if let Ok((a, r1)) = sp_expr(r0) {
                if r1.len() < ts.len() {
                    lemma_args_rest(r1, false);
                }
            }
        }
    }
}

/// Requires `;` after a parsed statement.
pub open spec fn sp_semicolon(res: PResult<StmtV>) -> PResult<StmtV> {
    match res {
        Err(e) => Err(e),
        Ok((s, r)) => if r.len() > 0 && r[0] is SemiColon {
            Ok((s, r.drop_first()))
        } else {
            Err(ParseError::MissingSemicolon)
        },
    }
}

/// `name = value` after a type.
pub open spec fn sp_var_decl(ts: Seq<TokenV>, t: TypeV) -> PResult<StmtV> {
    match sp_eat(ts, TokenTag::Identifier) {
        Err(e) => Err(e),
        Ok((ident, r)) => {
            let name = match ident {
                TokenV::Identifier(s) => s,
                _ => Seq::empty(),
            };
            if r.len() == 0 {
                Err(ParseError::UnexpectedEnd)
            } else if r[0] != TokenV::BinOp(BinOp::Equal) {
                Err(ParseError::ExpectedAssign(token_tag(r[0])))
            } else {
                match sp_expr(r.drop_first()) {
                    Err(e) => Err(e),
                    Ok((val, r2)) => Ok((StmtV::Var { name, var_type: t, val }, r2)),
                }
            }
        },
    }
}

/// A statement; `if` statements take no `;`.
pub open spec fn sp_stmt(ts: Seq<TokenV>) -> PResult<StmtV>
    decreases ts.len(), 0nat,
{
    if ts.len() == 0 {
        Err(ParseError::UnexpectedEnd)
    } else {
        match ts[0] {
            TokenV::Return => sp_semicolon(
                match sp_expr(ts.drop_first()) {
                    Err(e) => Err(e),
                    Ok((e, r)) => Ok((StmtV::Return(e), r)),
                },
            ),
            TokenV::Type(t) => sp_semicolon(sp_var_decl(ts.drop_first(), t)),
            TokenV::If => sp_if(ts.drop_first()),
            _ => sp_semicolon(
                match sp_expr(ts) {
                    Err(e) => Err(e),
                    Ok((e, r)) => Ok((StmtV::Expr(e), r)),
                },
            ),
        }
    }
}

/// Statements up to a closing brace (or the end of the tokens).
pub open spec fn sp_block(ts: Seq<TokenV>) -> PResult<Seq<StmtV>>
    decreases ts.len(), 1nat,
{
    if ts.len() == 0 || ts[0] is RightBrace {
        Ok((seq![], ts))
    } else {
        match sp_stmt(ts) {
            Err(e) => Err(e),
            Ok((st, r)) => if r.len() < ts.len() {
                match sp_block(r) {
                    Err(e) => Err(e),
                    Ok((more, r2)) => Ok((seq![st] + more, r2)),
                }
            } else {
                Err(ParseError::UnexpectedEnd)
            },
        }
    }
}

/// `{ statements }`: the statements and what follows the closing brace.
pub open spec fn sp_braced(ts: Seq<TokenV>) -> PResult<Seq<StmtV>>
    decreases ts.len(), 2nat,
{
    match sp_eat(ts, TokenTag::LeftBrace) {
        Err(e) => Err(e),
        Ok((_, r)) => {
            proof {
                lemma_eat_rest(ts, TokenTag::LeftBrace);
            }
            match sp_block(r) {
                Err(e) => Err(e),
                Ok((body, r2)) => match sp_eat(r2, TokenTag::RightBrace) {
                    Err(e) => Err(e),
                    Ok((_, r3)) => Ok((body, r3)),
                },
            }
        },
    }
}

/// `( condition ) { ... }`, optionally followed by `else { ... }`.
pub open spec fn sp_if(ts: Seq<TokenV>) -> PResult<StmtV>
    decreases ts.len(), 3nat,
{
    match sp_eat(ts, TokenTag::LeftParen) {
        Err(e) => Err(e),
        Ok((_, r0)) => match sp_expr(r0) {
            Err(e) => Err(e),
            Ok((condition, r1)) => match sp_eat(r1, TokenTag::RightParen) {
                Err(e) => Err(e),
                Ok((_, r2)) => {
                    proof {
                        lemma_eat_rest(ts, TokenTag::LeftParen);
                        lemma_expr_rest(r0);
                        lemma_eat_rest(r1, TokenTag::RightParen);
                    }
                    match sp_braced(r2) {
                        Err(e) => Err(e),
                        Ok((if_body, r3)) => if r3.len() > 0 && r3[0] is Else {
                            if r3.len() < ts.len() {
                                match sp_braced(r3.drop_first()) {
                                    Err(e) => Err(e),
                                    Ok((else_body, r4)) => Ok(
                                        (
                                            StmtV::If {
                                                condition,
                                                if_body,
                                                else_body: Some(else_body),
                                            },
                                            r4,
                                        ),
                                    ),
                                }
                            } else {
                                Err(ParseError::UnexpectedEnd)
                            }
                        } else {
                            Ok((StmtV::If { condition, if_body, else_body: None }, r3))
                        },
                    }
                },
            },
        },
    }
}

/// Function parameters `type name, ...` up to the closing parenthesis.
pub open spec fn sp_params(ts: Seq<TokenV>, first: bool) -> PResult<Seq<ArgV>>
    decreases ts.len(),
{
    if ts.len() == 0 || ts[0] is RightParen {
        Ok((seq![], ts))
    } else {
        let sep: Result<Seq<TokenV>, ParseError> = if first {
            Ok(ts)
        } else {
            match sp_eat(ts, TokenTag::Colon) {
                Ok((_, r)) => Ok(r),
                Err(e) => Err(e),
            }
        };
        match sep {
            Err(e) => Err(e),
            Ok(r0) => match sp_eat(r0, TokenTag::Type) {
                Err(e) => Err(e),
                Ok((tt, r1)) => match sp_eat(r1, TokenTag::Identifier) {
                    Err(e) => Err(e),
                    Ok((nt, r2)) => {
                        proof {
                            lemma_eat_rest(ts, TokenTag::Colon);
                            lemma_eat_rest(r0, TokenTag::Type);
                            lemma_eat_rest(r1, TokenTag::Identifier);
                        }
                        let arg_type = match tt {
                            TokenV::Type(t) => t,
                            _ => TypeV::Int,
                        };
                        let name = match nt {
                            TokenV::Identifier(s) => s,
                            _ => Seq::empty(),
                        };
                        match sp_params(r2, false) {
                            Err(e) => Err(e),
                            Ok((more, r3)) => Ok((seq![ArgV { name, arg_type }] + more, r3)),
                        }
                    },
                },
            },
        }
    }
}

/// A function definition after its return type: `name ( params ) { body }`.
pub open spec fn sp_top_level_decl(ts: Seq<TokenV>, t: TypeV) -> PResult<TopV> {
    match sp_eat(ts, TokenTag::Identifier) {
        Err(e) => Err(e),
        Ok((nt, r0)) => match sp_eat(r0, TokenTag::LeftParen) {
            Err(e) => Err(e),
            Ok((_, r1)) => match sp_params(r1, true) {
                Err(e) => Err(e),
                Ok((args, r2)) => match sp_eat(r2, TokenTag::RightParen) {
                    Err(e) => Err(e),
                    Ok((_, r3)) => match sp_braced(r3) {
                        Err(e) => Err(e),
                        Ok((body, r4)) => {
                            let name = match nt {
                                TokenV::Identifier(s) => s,
                                _ => Seq::empty(),
                            };
                            Ok((TopV::Function { name, args, body, return_type: t }, r4))
                        },
                    },
                },
            },
        },
    }
}

/// A top-level declaration, which starts with a type.
pub open spec fn sp_top_level(ts: Seq<TokenV>) -> PResult<TopV> {
    if ts.len() == 0 {
        Err(ParseError::UnexpectedEnd)
    } else {
        match ts[0] {
            TokenV::Type(t) => sp_top_level_decl(ts.drop_first(), t),
            other => Err(ParseError::UnexpectedToken(token_tag(other))),
        }
    }
}

pub proof fn lemma_stmt_rest(ts: Seq<TokenV>)
    ensures
        sp_stmt(ts) matches Ok((_, r)) ==> r.len() < ts.len(),
    decreases ts.len(), 0nat,
{
    if ts.len() > 0 {
        lemma_expr_rest(ts);
        lemma_expr_rest(ts.drop_first());
        lemma_eat_rest(ts.drop_first(), TokenTag::Identifier);
        if let Ok((ident, r)) = sp_eat(ts.drop_first(), TokenTag::Identifier) {
            if r.len() > 0 {
                lemma_expr_rest(r.drop_first());
            }
        }
        if ts[0] is If {
            lemma_if_rest(ts.drop_first());
        }
    }
}

pub proof fn lemma_block_rest(ts: Seq<TokenV>)
    ensures
        sp_block(ts) matches Ok((_, r)) ==> r.len() <= ts.len(),
    decreases ts.len(), 1nat,
{
    if !(ts.len() == 0 || ts[0] is RightBrace) {
        lemma_stmt_rest(ts);
        if let Ok((st, r)) = sp_stmt(ts) {
            if r.len() < ts.len() {
                lemma_block_rest(r);
            }
        }
    }
}

pub proof fn lemma_braced_rest(ts: Seq<TokenV>)
    ensures
        sp_braced(ts) matches Ok((_, r)) ==> r.len() < ts.len(),
    decreases ts.len(), 2nat,
{
    lemma_eat_rest(ts, TokenTag::LeftBrace);
    if let Ok((_, r)) = sp_eat(ts, TokenTag::LeftBrace) {
        lemma_block_rest(r);
        if let Ok((body, r2)) = sp_block(r) {
            lemma_eat_rest(r2, TokenTag::RightBrace);
        }
    }
}

pub proof fn lemma_if_rest(ts: Seq<TokenV>)
    ensures
        sp_if(ts) matches Ok((_, r)) ==> r.len() < ts.len(),
    decreases ts.len(), 3nat,
{
    lemma_eat_rest(ts, TokenTag::LeftParen);
    if let Ok((_, r0)) = sp_eat(ts, TokenTag::LeftParen) {
        lemma_expr_rest(r0);
        if let Ok((condition, r1)) = sp_expr(r0) {
            lemma_eat_rest(r1, TokenTag::RightParen);
            if let Ok((_, r2)) = sp_eat(r1, TokenTag::RightParen) {
                lemma_braced_rest(r2);
                if let Ok((if_body, r3)) = sp_braced(r2) {
                    if r3.len() > 0 && r3[0] is Else && r3.len() < ts.len() {
                        lemma_braced_rest(r3.drop_first());
                    }
                }
            }
        }
    }
}

pub proof fn lemma_params_rest(ts: Seq<TokenV>, first: bool)
    ensures
        sp_params(ts, first) matches Ok((_, r)) ==> r.len() <= ts.len(),
    decreases ts.len(),
{
    if !(ts.len() == 0 || ts[0] is RightParen) {
        lemma_eat_rest(ts, TokenTag::Colon);
        let sep: Result<Seq<TokenV>, ParseError> = if first {
            Ok(ts)
        } else {
            match sp_eat(ts, TokenTag::Colon) {
                Ok((_, r)) => Ok(r),
                Err(e) => Err(e),
            }
        };
        if let Ok(r0) = sep {
            lemma_eat_rest(r0, TokenTag::Type);
            if let Ok((tt, r1)) = sp_eat(r0, TokenTag::Type) {
                lemma_eat_rest(r1, TokenTag::Identifier);
                if let Ok((nt, r2)) = sp_eat(r1, TokenTag::Identifier) {
                    lemma_params_rest(r2, false);
                }
            }
        }
    }
}

pub proof fn lemma_top_level_rest(ts: Seq<TokenV>)
    ensures
        sp_top_level(ts) matches Ok((_, r)) ==> r.len() < ts.len(),
{
    if ts.len() > 0 {
        if let TokenV::Type(t) = ts[0] {
            let ts1 = ts.drop_first();
            lemma_eat_rest(ts1, TokenTag::Identifier);
            if let Ok((nt, r0)) = sp_eat(ts1, TokenTag::Identifier) {
                lemma_eat_rest(r0, TokenTag::LeftParen);
                if let Ok((_, r1)) = sp_eat(r0, TokenTag::LeftParen) {
                    lemma_params_rest(r1, true);
                    if let Ok((args, r2)) = sp_params(r1, true) {
                        lemma_eat_rest(r2, TokenTag::RightParen);
                        if let Ok((_, r3)) = sp_eat(r2, TokenTag::RightParen) {
                            lemma_braced_rest(r3);
                        }
                    }
                }
            }
        }
    }
}

/// The top-level declarations of a whole program, or why its tokens do not form one.
pub open spec fn spec_parse(ts: Seq<TokenV>) -> Result<Seq<TopV>, ParseError>
    decreases ts.len(),
{
    if ts.len() == 0 {
        Ok(seq![])
    } else {
        match sp_top_level(ts) {
            Err(e) => Err(e),
            Ok((top, r)) => {
                proof {
                    lemma_top_level_rest(ts);
                }
                match spec_parse(r) {
                    Err(e) => Err(e),
                    Ok(more) => Ok(seq![top] + more),
                }
            },
        }
    }
}

/// The models of the tokens still to parse.
pub open spec fn toks(d: VecDeque<Token>) -> Seq<TokenV> {
    tokens_view(d@)
}

/// Whether the exec result `r` with `rest` left is what the spec parse `s` gives.
pub open spec fn parsed<V>(s: PResult<V>, r: Result<V, ParseError>, rest: Seq<TokenV>) -> bool {
    match r {
        Ok(v) => s matches Ok((v2, r2)) && v2 == v && r2 == rest,
        Err(e) => s matches Err(e2) && e2 == e,
    }
}

pub open spec fn expr_res(r: Result<ExprAst, ParseError>) -> Result<ExprV, ParseError> {
    match r {
        Ok(e) => Ok(e@),
        Err(e) => Err(e),
    }
}

pub open spec fn stmt_res(r: Result<StatementAst, ParseError>) -> Result<StmtV, ParseError> {
    match r {
        Ok(e) => Ok(e@),
        Err(e) => Err(e),
    }
}

pub open spec fn top_res(r: Result<TopLevelAst, ParseError>) -> Result<TopV, ParseError> {
    match r {
        Ok(e) => Ok(e@),
        Err(e) => Err(e),
    }
}

proof fn lemma_toks_pop(ts: Seq<Token>)
    requires
        ts.len() > 0,
    ensures
        tokens_view(ts.subrange(1, ts.len() as int)) == tokens_view(ts).drop_first(),
        tokens_view(ts)[0] == ts[0]@,
{
    assert(tokens_view(ts.subrange(1, ts.len() as int)) =~= tokens_view(ts).drop_first());
}

/// The kind of the first token, if there is one.
fn front_tag(tokens: &VecDeque<Token>) -> (r: Option<TokenTag>)
    ensures
        r == (if toks(*tokens).len() > 0 {
            Some(token_tag(toks(*tokens)[0]))
        } else {
            None::<TokenTag>
        }),
{
    if tokens.len() > 0 {
        Some(tokens[0].tag())
    } else {
        None
    }
}

/// The operator at the front, if the first token is one.
fn front_binop_exec(tokens: &VecDeque<Token>) -> (r: Option<BinOp>)
    ensures
        r == front_binop(toks(*tokens)),
{
    if tokens.len() > 0 {
        match &tokens[0] {
            Token::BinOp(op) => Some(*op),
            _ => None,
        }
    } else {
        None
    }
}

/// Takes a token of kind `token_type` from the front.
pub fn eat_token(tokens: &mut VecDeque<Token>, token_type: TokenTag) -> (r: Result<Token, ParseError>)
    ensures
        match r {
            Ok(t) => sp_eat(toks(*old(tokens)), token_type) == Ok::<(TokenV, Seq<TokenV>), ParseError>((t@, toks(*final(tokens)))),
            Err(e) => sp_eat(toks(*old(tokens)), token_type) matches Err(e2) && e2 == e,
        },
{
    match tokens.pop_front() {
        None => Err(ParseError::UnexpectedEnd),
        Some(tok) => {
            proof {
                lemma_toks_pop(old(tokens)@);
            }
            let found = tok.tag();
            if token_type != found {
                Err(ParseError::WrongToken { found, expected: token_type })
            } else {
                Ok(tok)
            }
        },
    }
}

/// Takes the first token.
pub fn pass_token(tokens: &mut VecDeque<Token>) -> (r: Result<Token, ParseError>)
    ensures
        match r {
            Ok(t) => toks(*old(tokens)).len() > 0 && t@ == toks(*old(tokens))[0] && toks(*final(tokens)) == toks(*old(tokens)).drop_first(),
            Err(e) => toks(*old(tokens)).len() == 0 && e == ParseError::UnexpectedEnd,
        },
{
    match tokens.pop_front() {
        None => Err(ParseError::UnexpectedEnd),
        Some(tok) => {
            proof {
                lemma_toks_pop(old(tokens)@);
            }
            Ok(tok)
        },
    }
}

/// Parses a number or a variable.
pub fn parse_primary(tokens: &mut VecDeque<Token>) -> (r: Result<ExprAst, ParseError>)
    ensures
        parsed(sp_primary(toks(*old(tokens))), expr_res(r), toks(*final(tokens))),
{
    let t = match pass_token(tokens) {
        Ok(t) => t,
        Err(e) => {
            return Err(e);
        },
    };
    match t {
        Token::Number(nb) => Ok(ExprAst::Number(nb)),
        Token::Identifier(ident) => Ok(ExprAst::VarUse(ident)),
        _ => Err(ParseError::UnexpectedToken(t.tag())),
    }
}

/// The precedence of a binary operator.
pub fn get_prec(binop: BinOp) -> (r: u8)
    ensures
        r == prec(binop),
{
    match binop {
        BinOp::Equal => 0,
        BinOp::Cmp => 1,
        BinOp::Plus | BinOp::Minus => 2,
        BinOp::Mult | BinOp::Div => 3,
    }
}

/// Operator-precedence parsing of the operators of precedence at least `min_prec`
/// that follow `lhs`.
#[verifier::loop_isolation(false)]
pub fn parse_binop(tokens: &mut VecDeque<Token>, lhs: ExprAst, min_prec: u8) -> (r: Result<
    ExprAst,
    ParseError,
>)
    ensures
        parsed(sp_binop(toks(*old(tokens)), lhs@, min_prec as nat), expr_res(r), toks(*final(tokens))),
    decreases old(tokens)@.len(),
{
    let ghost ts0 = toks(*tokens);
    let ghost lhs0 = lhs@;
    let mut lhs = lhs;
    loop
        invariant
            sp_binop(ts0, lhs0, min_prec as nat) == sp_binop(toks(*tokens), lhs@, min_prec as nat),
            toks(*tokens).len() <= ts0.len(),
            ts0 == toks(*old(tokens)),
        decreases toks(*tokens).len(),
    {
        let ghost cur = toks(*tokens);
        let peek = front_binop_exec(tokens);
        match peek {
            Some(binop) => {
                if get_prec(binop) >= min_prec {
                    let _ = pass_token(tokens);
                    let op = binop;
                    let op_prec = get_prec(op);
                    proof {
                        lemma_primary_rest(cur.drop_first());
                    }
                    let mut rhs = match parse_primary(tokens) {
                        Ok(e) => e,
                        Err(e) => {
                            return Err(e);
                        },
                    };
                    let ghost r2 = toks(*tokens);
                    let ghost rhs0 = rhs@;
                    loop
                        invariant
                            sp_climb(r2, rhs0, op_prec as nat) == sp_climb(
                                toks(*tokens),
                                rhs@,
                                op_prec as nat,
                            ),
                            toks(*tokens).len() <= r2.len(),
                            r2.len() < cur.len(),
                            cur.len() <= ts0.len(),
                            ts0 == toks(*old(tokens)),
                            op_prec <= 3,
                        decreases toks(*tokens).len(),
                    {
                        let ghost cur2 = toks(*tokens);
                        let peek2 = front_binop_exec(tokens);
                        match peek2 {
                            Some(b) => {
                                if get_prec(b) > op_prec {
                                    proof {
                                        lemma_binop_rest(cur2, rhs@, (op_prec + 1) as nat);
                                    }
                                    rhs = match parse_binop(tokens, rhs, op_prec + 1) {
                                        Ok(e) => e,
                                        Err(e) => {
                                            return Err(e);
                                        },
                                    };
                                } else {
                                    break ;
                                }
                            },
                            None => {
                                break ;
                            },
                        }
                    }
                    proof {
                        lemma_climb_rest(r2, rhs0, op_prec as nat);
                    }
                    lhs = ExprAst::BinOp { lhs: Box::new(lhs), op, rhs: Box::new(rhs) };
                } else {
                    return Ok(lhs);
                }
            },
            None => {
                return Ok(lhs);
            },
        }
    }
}

/// The values `pre` followed by those of a parse, or its error.
pub open spec fn prepend_parsed<V>(pre: Seq<V>, res: PResult<Seq<V>>) -> PResult<Seq<V>> {
    match res {
        Ok((more, r)) => Ok((pre + more, r)),
        Err(e) => Err(e),
    }
}

proof fn lemma_prepend_parsed_assoc<V>(a: Seq<V>, b: Seq<V>, res: PResult<Seq<V>>)
    ensures
        prepend_parsed(a, prepend_parsed(b, res)) == prepend_parsed(a + b, res),
{
    if let Ok((more, r)) = res {
        assert(a + (b + more) =~= (a + b) + more);
    }
}

proof fn lemma_prepend_parsed_empty<V>(res: PResult<Seq<V>>)
    ensures
        prepend_parsed(Seq::<V>::empty(), res) == res,
{
    if let Ok((more, r)) = res {
        assert(Seq::<V>::empty() + more =~= more);
    }
}

/// Parses a primary, and the parenthesised arguments of a call if they follow.
#[verifier::loop_isolation(false)]
pub fn parse_function_call(tokens: &mut VecDeque<Token>) -> (r: Result<ExprAst, ParseError>)
    ensures
        parsed(sp_call(toks(*old(tokens))), expr_res(r), toks(*final(tokens))),
    decreases old(tokens)@.len(), 0nat,
{
    let ghost ts0 = toks(*tokens);
    proof {
        lemma_primary_rest(ts0);
    }
    let expr = match parse_primary(tokens) {
        Ok(e) => e,
        Err(e) => {
            return Err(e);
        },
    };
    let ghost rp = toks(*tokens);
    match front_tag(tokens) {
        Some(TokenTag::LeftParen) => {},
        _ => {
            return Ok(expr);
        },
    }
    let _ = eat_token(tokens, TokenTag::LeftParen);
    let ghost r1 = toks(*tokens);
    assert(r1 == rp.drop_first());
    let mut is_first = true;
    let mut args: Vec<ExprAst> = Vec::new();
    proof {
        lemma_exprs_view(args@);
        lemma_prepend_parsed_empty(sp_args(r1, true));
    }
    loop
        invariant
            sp_args(r1, true) == prepend_parsed(
                exprs_view(args@),
                sp_args(toks(*tokens), is_first),
            ),
            toks(*tokens).len() <= r1.len(),
            r1.len() < ts0.len(),
            ts0 == toks(*old(tokens)),
        decreases toks(*tokens).len(),
    {
        let ghost cur = toks(*tokens);
        let ghost first0 = is_first;
        match front_tag(tokens) {
            Some(TokenTag::RightParen) => {
                break ;
            },
            None => {
                break ;
            },
            _ => {},
        }
        if is_first {
            is_first = false;
        } else {
            match eat_token(tokens, TokenTag::Colon) {
                Ok(_) => {},
                Err(e) => {
                    return Err(e);
                },
            }
        }
        let ghost r0 = toks(*tokens);
        proof {
            lemma_expr_rest(r0);
            lemma_eat_rest(cur, TokenTag::Colon);
        }
        let arg = match parse_expr(tokens) {
            Ok(a) => a,
            Err(e) => {
                return Err(e);
            },
        };
        proof {
            assert(toks(*tokens).len() < cur.len());
            assert(sp_args(cur, first0) == prepend_parsed(
                seq![arg@],
                sp_args(toks(*tokens), false),
            ));
            lemma_exprs_view_push(args@, arg);
            assert(exprs_view(args@).push(arg@) =~= exprs_view(args@) + seq![arg@]);
            lemma_prepend_parsed_assoc(
                exprs_view(args@),
                seq![arg@],
                sp_args(toks(*tokens), false),
            );
        }
        args.push(arg);
    }
    match eat_token(tokens, TokenTag::RightParen) {
        Ok(_) => {},
        Err(e) => {
            return Err(e);
        },
    }
    Ok(ExprAst::FunctionCall { fun: Box::new(expr), args })
}

/// Parses an expression.
pub fn parse_expr(tokens: &mut VecDeque<Token>) -> (r: Result<ExprAst, ParseError>)
    ensures
        parsed(sp_expr(toks(*old(tokens))), expr_res(r), toks(*final(tokens))),
    decreases old(tokens)@.len(), 1nat,
{
    let lhs = match parse_function_call(tokens) {
        Ok(e) => e,
        Err(e) => {
            return Err(e);
        },
    };
    parse_binop(tokens, lhs, 0)
}

/// Parses `name = value` after the type of a variable declaration.
pub fn parse_var_decl(tokens: &mut VecDeque<Token>, var_type: Type) -> (r: Result<
    StatementAst,
    ParseError,
>)
    ensures
        parsed(sp_var_decl(toks(*old(tokens)), var_type@), stmt_res(r), toks(*final(tokens))),
{
    let ident = match eat_token(tokens, TokenTag::Identifier) {
        Ok(t) => t,
        Err(e) => {
            return Err(e);
        },
    };
    let ident_str = match ident {
        Token::Identifier(ident) => ident,
        _ => {
            return Err(ParseError::UnexpectedEnd);
        },
    };
    match pass_token(tokens) {
        Err(e) => {
            return Err(e);
        },
        Ok(t) => match t {
            Token::BinOp(BinOp::Equal) => {},
            other => {
                return Err(ParseError::ExpectedAssign(other.tag()));
            },
        },
    }
    let val = match parse_expr(tokens) {
        Ok(e) => e,
        Err(e) => {
            return Err(e);
        },
    };
    Ok(StatementAst::Var { name: ident_str, var_type, val })
}

pub open spec fn stmts_res(r: Result<Vec<StatementAst>, ParseError>) -> Result<
    Seq<StmtV>,
    ParseError,
> {
    match r {
        Ok(v) => Ok(stmts_view(v@)),
        Err(e) => Err(e),
    }
}

/// Parses `{ statements }`.
#[verifier::loop_isolation(false)]
#[verifier::spinoff_prover]
fn parse_braced(tokens: &mut VecDeque<Token>) -> (r: Result<Vec<StatementAst>, ParseError>)
    ensures
        parsed(sp_braced(toks(*old(tokens))), stmts_res(r), toks(*final(tokens))),
    decreases old(tokens)@.len(),
{
    let ghost ts0 = toks(*tokens);
    match eat_token(tokens, TokenTag::LeftBrace) {
        Ok(_) => {},
        Err(e) => {
            return Err(e);
        },
    }
    proof {
        lemma_eat_rest(ts0, TokenTag::LeftBrace);
    }
    let ghost b0 = toks(*tokens);
    let mut statements: Vec<StatementAst> = Vec::new();
    proof {
        lemma_stmts_view(statements@);
        lemma_prepend_parsed_empty(sp_block(b0));
    }
    loop
        invariant
            sp_block(b0) == prepend_parsed(stmts_view(statements@), sp_block(toks(*tokens))),
            toks(*tokens).len() <= b0.len(),
            b0.len() < ts0.len(),
            ts0 == toks(*old(tokens)),
        decreases toks(*tokens).len(),
    {
        let ghost cur = toks(*tokens);
        match front_tag(tokens) {
            Some(TokenTag::RightBrace) => {
                break ;
            },
            None => {
                break ;
            },
            _ => {},
        }
        proof {
            lemma_stmt_rest(cur);
        }
        let st = match parse_statement(tokens) {
            Ok(st) => st,
            Err(e) => {
                return Err(e);
            },
        };
        proof {
            assert(sp_block(cur) == prepend_parsed(seq![st@], sp_block(toks(*tokens))));
            lemma_stmts_view_push(statements@, st);
            assert(stmts_view(statements@).push(st@) =~= stmts_view(statements@) + seq![st@]);
            lemma_prepend_parsed_assoc(
                stmts_view(statements@),
                seq![st@],
                sp_block(toks(*tokens)),
            );
        }
        statements.push(st);
    }
    proof {
        assert(stmts_view(statements@) + Seq::<StmtV>::empty() =~= stmts_view(statements@));
    }
    match eat_token(tokens, TokenTag::RightBrace) {
        Ok(_) => {},
        Err(e) => {
            return Err(e);
        },
    }
    Ok(statements)
}

/// Parses the rest of an `if` statement after the keyword.
#[verifier::rlimit(60)]
#[verifier::spinoff_prover]
pub fn parse_if(tokens: &mut VecDeque<Token>) -> (r: Result<StatementAst, ParseError>)
    ensures
        parsed(sp_if(toks(*old(tokens))), stmt_res(r), toks(*final(tokens))),
    decreases old(tokens)@.len(),
{
    let ghost ts0 = toks(*tokens);
    match eat_token(tokens, TokenTag::LeftParen) {
        Ok(_) => {},
        Err(e) => {
            return Err(e);
        },
    }
    let ghost r0 = toks(*tokens);
    proof {
        lemma_eat_rest(ts0, TokenTag::LeftParen);
        lemma_expr_rest(r0);
    }
    let condition = match parse_expr(tokens) {
        Ok(e) => e,
        Err(e) => {
            return Err(e);
        },
    };
    let ghost r1 = toks(*tokens);
    match eat_token(tokens, TokenTag::RightParen) {
        Ok(_) => {},
        Err(e) => {
            return Err(e);
        },
    }
    proof {
        lemma_eat_rest(r1, TokenTag::RightParen);
    }
    let ghost r2 = toks(*tokens);
    proof {
        lemma_braced_rest(r2);
    }
    let if_body = match parse_braced(tokens) {
        Ok(b) => b,
        Err(e) => {
            return Err(e);
        },
    };
    let ghost r3 = toks(*tokens);
    let mut else_body = None;
    match front_tag(tokens) {
        Some(TokenTag::Else) => {
            let _ = eat_token(tokens, TokenTag::Else);
            let else_statements = match parse_braced(tokens) {
                Ok(b) => b,
                Err(e) => {
                    return Err(e);
                },
            };
            else_body = Some(else_statements);
        },
        _ => {},
    }
    Ok(StatementAst::If { condition, if_body, else_body })
}

/// Parses a statement.
#[verifier::rlimit(80)]
#[verifier::spinoff_prover]
pub fn parse_statement(tokens: &mut VecDeque<Token>) -> (r: Result<StatementAst, ParseError>)
    ensures
        parsed(sp_stmt(toks(*old(tokens))), stmt_res(r), toks(*final(tokens))),
    decreases old(tokens)@.len(),
{
    let ghost ts0 = toks(*tokens);
    let tag = match front_tag(tokens) {
        Some(tag) => tag,
        None => {
            return Err(ParseError::UnexpectedEnd);
        },
    };
    let mut need_semicolon = true;
    let statement = match tag {
        TokenTag::Return => {
            let _ = pass_token(tokens);
            match parse_expr(tokens) {
                Ok(e) => StatementAst::Return(e),
                Err(e) => {
                    return Err(e);
                },
            }
        },
        TokenTag::Type => {
            let t = match pass_token(tokens) {
                Ok(Token::Type(t)) => t,
                _ => {
                    return Err(ParseError::UnexpectedEnd);
                },
            };
            match parse_var_decl(tokens, t) {
                Ok(st) => st,
                Err(e) => {
                    return Err(e);
                },
            }
        },
        TokenTag::If => {
            need_semicolon = false;
            let _ = pass_token(tokens);
            match parse_if(tokens) {
                Ok(st) => st,
                Err(e) => {
                    return Err(e);
                },
            }
        },
        _ => match parse_expr(tokens) {
            Ok(e) => StatementAst::Expr(e),
            Err(e) => {
                return Err(e);
            },
        },
    };
    if need_semicolon {
        match front_tag(tokens) {
            Some(TokenTag::SemiColon) => {
                let _ = pass_token(tokens);
            },
            _ => {
                return Err(ParseError::MissingSemicolon);
            },
        }
    }
    Ok(statement)
}

/// Parses a function definition after its return type.
#[verifier::loop_isolation(false)]
#[verifier::rlimit(40)]
pub fn parse_top_level_decl(tokens: &mut VecDeque<Token>, t: Type) -> (r: Result<
    TopLevelAst,
    ParseError,
>)
    ensures
        parsed(sp_top_level_decl(toks(*old(tokens)), t@), top_res(r), toks(*final(tokens))),
{
    let ghost ts0 = toks(*tokens);
    let ident = match eat_token(tokens, TokenTag::Identifier) {
        Ok(t) => t,
        Err(e) => {
            return Err(e);
        },
    };
    let ident_str = match ident {
        Token::Identifier(ident) => ident,
        _ => {
            return Err(ParseError::UnexpectedEnd);
        },
    };
    match eat_token(tokens, TokenTag::LeftParen) {
        Ok(_) => {},
        Err(e) => {
            return Err(e);
        },
    }
    let ghost p0 = toks(*tokens);
    let mut args: Vec<Arg> = Vec::new();
    let mut is_first = true;
    proof {
        assert(args_view(args@) =~= Seq::<ArgV>::empty());
        lemma_prepend_parsed_empty(sp_params(p0, true));
    }
    loop
        invariant
            sp_params(p0, true) == prepend_parsed(args_view(args@), sp_params(toks(*tokens), is_first)),
            toks(*tokens).len() <= p0.len(),
        decreases toks(*tokens).len(),
    {
        let ghost cur = toks(*tokens);
        let ghost first0 = is_first;
        match front_tag(tokens) {
            Some(TokenTag::RightParen) => {
                break ;
            },
            None => {
                break ;
            },
            _ => {},
        }
        if is_first {
            is_first = false;
        } else {
            match eat_token(tokens, TokenTag::Colon) {
                Ok(_) => {},
                Err(e) => {
                    return Err(e);
                },
            }
        }
        let type_tok = match eat_token(tokens, TokenTag::Type) {
            Ok(t) => t,
            Err(e) => {
                return Err(e);
            },
        };
        let arg_type = match type_tok {
            Token::Type(t) => t,
            _ => {
                return Err(ParseError::UnexpectedEnd);
            },
        };
        let arg_name_tok = match eat_token(tokens, TokenTag::Identifier) {
            Ok(t) => t,
            Err(e) => {
                return Err(e);
            },
        };
        let arg_name = match arg_name_tok {
            Token::Identifier(arg_name) => arg_name,
            _ => {
                return Err(ParseError::UnexpectedEnd);
            },
        };
        let arg = Arg { name: arg_name, arg_type };
        proof {
            lemma_eat_rest(cur, TokenTag::Colon);
            assert(sp_params(cur, first0) == prepend_parsed(
                seq![arg@],
                sp_params(toks(*tokens), false),
            ));
            assert(args_view(args@.push(arg)) =~= args_view(args@) + seq![arg@]);
            lemma_prepend_parsed_assoc(
                args_view(args@),
                seq![arg@],
                sp_params(toks(*tokens), false),
            );
        }
        args.push(arg);
    }
    proof {
        assert(args_view(args@) + Seq::<ArgV>::empty() =~= args_view(args@));
    }
    match eat_token(tokens, TokenTag::RightParen) {
        Ok(_) => {},
        Err(e) => {
            return Err(e);
        },
    }
    let statements = match parse_braced(tokens) {
        Ok(b) => b,
        Err(e) => {
            return Err(e);
        },
    };
    Ok(TopLevelAst::Function { name: ident_str, body: statements, return_type: t, args })
}

/// Parses a top-level declaration.
pub fn parse_top_level(tokens: &mut VecDeque<Token>) -> (r: Result<TopLevelAst, ParseError>)
    ensures
        parsed(sp_top_level(toks(*old(tokens))), top_res(r), toks(*final(tokens))),
{
    let t = match pass_token(tokens) {
        Ok(t) => t,
        Err(e) => {
            return Err(e);
        },
    };
    match t {
        Token::Type(t) => parse_top_level_decl(tokens, t),
        other => Err(ParseError::UnexpectedToken(other.tag())),
    }
}

/// The models of top-level declarations.
pub open spec fn tops_view(s: Seq<TopLevelAst>) -> Seq<TopV> {
    s.map_values(|t: TopLevelAst| t@)
}

/// Parses a whole program.
#[verifier::rlimit(40)]
#[verifier::loop_isolation(false)]
pub fn parse(tokens: VecDeque<Token>) -> (r: Result<Vec<TopLevelAst>, ParseError>)
    ensures
        match r {
            Ok(v) => spec_parse(toks(tokens)) == Ok::<Seq<TopV>, ParseError>(tops_view(v@)),
            Err(e) => spec_parse(toks(tokens)) == Err::<Seq<TopV>, ParseError>(e),
        },
{
    let ghost ts0 = toks(tokens);
    let mut tokens = tokens;
    let mut top_level: Vec<TopLevelAst> = Vec::new();
    proof {
        assert(tops_view(top_level@) =~= Seq::<TopV>::empty());
        if let Ok(more) = spec_parse(ts0) {
            assert(Seq::<TopV>::empty() + more =~= more);
        }
    }
    while tokens.len() > 0
        invariant
            spec_parse(ts0) == (match spec_parse(toks(tokens)) {
                Ok(more) => Ok(tops_view(top_level@) + more),
                Err(e) => Err(e),
            }),
        decreases toks(tokens).len(),
    {
        let ghost cur = toks(tokens);
        proof {
            lemma_top_level_rest(cur);
        }
        let top = match parse_top_level(&mut tokens) {
            Ok(t) => t,
            Err(e) => {
                return Err(e);
            },
        };
        proof {
            assert(tops_view(top_level@.push(top)) =~= tops_view(top_level@) + seq![top@]);
            if let Ok(more) = spec_parse(toks(tokens)) {
                assert(tops_view(top_level@) + (seq![top@] + more) =~= (tops_view(top_level@)
                    + seq![top@]) + more);
            }
        }
        top_level.push(top);
    }
    proof {
        assert(tops_view(top_level@) + Seq::<TopV>::empty() =~= tops_view(top_level@));
    }
    Ok(top_level)
}

} // verus!
