//! The evaluator: a tree walk producing a value or failing with a
//! located error.
//!
//! External commands are not spawned here. The evaluator is driven with
//! a list of spawn outcomes: each command invocation consumes the next
//! outcome, and when the list runs out, evaluation stops with the
//! command's path and arguments so the caller can spawn it and drive
//! evaluation again with the outcome appended. Everything else about a
//! program's meaning is decided here.

use vstd::prelude::*;

use crate::ast::{is_expr_elem, is_item_elem, is_node_of, is_op_token, is_token_of};
use crate::env::{lookup_chain, resolve_spec, Env, ResolvedS};
use crate::syntax_kind::SyntaxKind;
use crate::text_range::TextRange;
use crate::tree::{elems_view, ElemV, SyntaxElement};
use crate::val::{
    dec_str_i64, digits_value, num_add, num_div, num_mul, num_sub, Val, ValV,
};

verus! {

/// Why evaluation failed.
#[derive(Debug, Clone, Copy, PartialEq, Eq, Structural)]
pub enum EvalErrorKind {
    /// a `$name` usage found no binding of that name
    BindingDoesNotExist,
    /// a call name matched neither a binding nor a cached command
    FuncOrCommandDoesNotExist,
    /// a call name was bound to a value of this type, not to a lambda,
    /// and no cached command matched either
    CallNonLambda {
        /// the type the binding held
        ty: crate::val::Ty,
    },
    /// a lambda was called with fewer arguments than it has parameters
    TooFewParams,
    /// a lambda was called with more arguments than it has parameters
    TooManyParams,
    /// a binary operation was applied to operands of these types
    BinOpOnNonNumbers {
        /// the type of the left operand
        lhs_ty: crate::val::Ty,
        /// the type of the right operand
        rhs_ty: crate::val::Ty,
    },
    /// a conditional's condition was not a boolean
    NonBoolCond,
    /// a command argument had no textual form
    UndisplayableCommandArg,
    /// a command could not be spawned
    FailedRunningCommand,
    /// a division's right operand was zero
    DivisionByZero,
}

/// An evaluation error: why it failed, and the exact source range
/// responsible.
#[derive(Debug, Clone, Copy, PartialEq, Eq, Structural)]
pub struct EvalError {
    /// why evaluation failed
    pub kind: EvalErrorKind,
    /// the source range responsible
    pub range: TextRange,
}

impl EvalError {
    /// Builds an error from its kind and range.
    pub fn new(kind: EvalErrorKind, range: TextRange) -> (r: EvalError)
        ensures
            r == (EvalError { kind, range }),
    {
        EvalError { kind, range }
    }
}

/// The characters of a token element; empty for a node.
pub open spec fn tok_text(e: ElemV) -> Seq<char> {
    match e {
        ElemV::Token { text, .. } => text,
        ElemV::Node { .. } => Seq::empty(),
    }
}

/// The children of a node element; empty for a token.
pub open spec fn node_children(e: ElemV) -> Seq<ElemV> {
    match e {
        ElemV::Node { children, .. } => children,
        ElemV::Token { .. } => Seq::empty(),
    }
}

/// The first index at or after `i` holding a token of the kind, or the
/// length if there is none.
pub open spec fn tok_idx(cs: Seq<ElemV>, kind: SyntaxKind, i: int) -> int
    decreases cs.len() - i,
{
    if i < 0 || i >= cs.len() {
        cs.len() as int
    } else if is_token_of(cs[i], kind) {
        i
    } else {
        tok_idx(cs, kind, i + 1)
    }
}

/// The first index at or after `i` holding a node of the kind, or the
/// length if there is none.
pub open spec fn node_idx(cs: Seq<ElemV>, kind: SyntaxKind, i: int) -> int
    decreases cs.len() - i,
{
    if i < 0 || i >= cs.len() {
        cs.len() as int
    } else if is_node_of(cs[i], kind) {
        i
    } else {
        node_idx(cs, kind, i + 1)
    }
}

/// The first index at or after `i` holding an operator token, or the
/// length if there is none.
pub open spec fn op_idx(cs: Seq<ElemV>, i: int) -> int
    decreases cs.len() - i,
{
    if i < 0 || i >= cs.len() {
        cs.len() as int
    } else if is_op_token(cs[i]) {
        i
    } else {
        op_idx(cs, i + 1)
    }
}

/// The index of the `n`-th expression child at or after `i`, or the
/// length if there are not that many.
pub open spec fn expr_idx(cs: Seq<ElemV>, n: int, i: int) -> int
    decreases cs.len() - i,
{
    if i < 0 || i >= cs.len() {
        cs.len() as int
    } else if is_expr_elem(cs[i]) {
        if n <= 0 {
            i
        } else {
            expr_idx(cs, n - 1, i + 1)
        }
    } else {
        expr_idx(cs, n, i + 1)
    }
}

/// Where at least `n + 1` expression children remain, the `n`-th one
/// exists.
pub proof fn lemma_expr_idx(cs: Seq<ElemV>, n: int, i: int)
    requires
        0 <= i <= cs.len(),
        0 <= n,
        crate::ast::count_exprs(cs, i) > n,
    ensures
        i <= expr_idx(cs, n, i) < cs.len(),
        is_expr_elem(cs[expr_idx(cs, n, i)]),
    decreases cs.len() - i,
{
    crate::ast::lemma_count_exprs_nonneg(cs, i + 1);
    if i < cs.len() {
        if is_expr_elem(cs[i]) && n <= 0 {
        } else if is_expr_elem(cs[i]) {
            lemma_expr_idx(cs, n - 1, i + 1);
        } else {
            lemma_expr_idx(cs, n, i + 1);
        }
    }
}

/// The texts of the atom tokens from `i` on, in order.
pub open spec fn atoms_of(cs: Seq<ElemV>, i: int) -> Seq<Seq<char>>
    decreases cs.len() - i,
{
    if i < 0 || i >= cs.len() {
        Seq::empty()
    } else if is_token_of(cs[i], SyntaxKind::Atom) {
        seq![tok_text(cs[i])] + atoms_of(cs, i + 1)
    } else {
        atoms_of(cs, i + 1)
    }
}

/// Parameter names bound to their arguments, in order: a repeated name
/// keeps its last argument.
pub open spec fn bind_params(ps: Seq<Seq<char>>, vs: Seq<ValV>) -> Map<Seq<char>, ValV>
    decreases ps.len(),
{
    if ps.len() == 0 || vs.len() == 0 {
        Map::empty()
    } else {
        bind_params(ps.drop_last(), vs.drop_last()).insert(ps.last(), vs.last())
    }
}

/// How one step of evaluation ended.
pub enum Outcome {
    /// a value
    Val(ValV),
    /// the first failure, which stops everything after it
    Fail(EvalError),
    /// a command must run before evaluation can go on: its path and
    /// its rendered arguments
    Pending(Seq<char>, Seq<Seq<char>>),
    /// the fuel ran out before evaluation ended
    OutOfFuel,
}

/// The result of evaluating an expression: how it ended, and how many
/// spawn outcomes are consumed up to that point.
pub struct ExprR {
    /// how evaluation ended
    pub out: Outcome,
    /// spawn outcomes consumed so far
    pub used: int,
}

/// The result of evaluating items: how it ended, the environment chain
/// it left, and the spawn outcomes consumed.
pub struct ItemR {
    /// how evaluation ended
    pub out: Outcome,
    /// the environment chain after the items ran
    pub env: Seq<Map<Seq<char>, ValV>>,
    /// spawn outcomes consumed so far
    pub used: int,
}

/// The result of evaluating an argument list.
pub struct ArgsR {
    /// `None` when every argument produced a value; otherwise how
    /// evaluation stopped
    pub stop: Option<Outcome>,
    /// the argument values, in order
    pub vals: Seq<ValV>,
    /// spawn outcomes consumed so far
    pub used: int,
}

/// Evaluates the item children of `cs` from `i` on, in order: the last
/// item's value is the sequence's value, `acc` standing in for it when
/// nothing remains.
pub open spec fn sp_items(
    fuel: nat,
    cs: Seq<ElemV>,
    i: int,
    acc: ValV,
    env: Seq<Map<Seq<char>, ValV>>,
    cmds: Map<Seq<char>, Seq<char>>,
    outs: Seq<bool>,
    used: int,
) -> ItemR
    decreases fuel,
{
    if i < 0 || i >= cs.len() {
        ItemR { out: Outcome::Val(acc), env, used }
    } else if fuel == 0 {
        ItemR { out: Outcome::OutOfFuel, env, used }
    } else if is_item_elem(cs[i]) {
        let r = sp_item((fuel - 1) as nat, cs[i], env, cmds, outs, used);
        match r.out {
            Outcome::Val(v) => sp_items((fuel - 1) as nat, cs, i + 1, v, r.env, cmds, outs, r.used),
            _ => r,
        }
    } else {
        sp_items((fuel - 1) as nat, cs, i + 1, acc, env, cmds, outs, used)
    }
}

/// Evaluates one item. A binding definition evaluates its right-hand
/// side, stores it in the innermost scope, and contributes nil; an
/// expression contributes its value.
pub open spec fn sp_item(
    fuel: nat,
    e: ElemV,
    env: Seq<Map<Seq<char>, ValV>>,
    cmds: Map<Seq<char>, Seq<char>>,
    outs: Seq<bool>,
    used: int,
) -> ItemR
    decreases fuel,
{
    if fuel == 0 {
        ItemR { out: Outcome::OutOfFuel, env, used }
    } else if e.kind() == SyntaxKind::BindingDef {
        let cs = node_children(e);
        let ti = tok_idx(cs, SyntaxKind::Atom, 0);
        let name = tok_text(cs[ti]);
        let r = sp_expr((fuel - 1) as nat, cs[expr_idx(cs, 0, ti + 1)], env, cmds, outs, used);
        match r.out {
            Outcome::Val(v) => ItemR {
                out: Outcome::Val(ValV::Nil),
                env: if env.len() > 0 {
                    env.update(env.len() - 1, env.last().insert(name, v))
                } else {
                    env
                },
                used: r.used,
            },
            out => ItemR { out, env, used: r.used },
        }
    } else {
        let r = sp_expr((fuel - 1) as nat, e, env, cmds, outs, used);
        ItemR { out: r.out, env, used: r.used }
    }
}

/// Evaluates the argument expressions among the children `cs[i..]` in
/// order, stopping at the first failure.
pub open spec fn sp_args(
    fuel: nat,
    cs: Seq<ElemV>,
    i: int,
    acc: Seq<ValV>,
    env: Seq<Map<Seq<char>, ValV>>,
    cmds: Map<Seq<char>, Seq<char>>,
    outs: Seq<bool>,
    used: int,
) -> ArgsR
    decreases fuel,
{
    if i < 0 || i >= cs.len() {
        ArgsR { stop: None, vals: acc, used }
    } else if fuel == 0 {
        ArgsR { stop: Some(Outcome::OutOfFuel), vals: acc, used }
    } else if is_expr_elem(cs[i]) {
        let r = sp_expr((fuel - 1) as nat, cs[i], env, cmds, outs, used);
        match r.out {
            Outcome::Val(v) => sp_args(
                (fuel - 1) as nat,
                cs,
                i + 1,
                acc.push(v),
                env,
                cmds,
                outs,
                r.used,
            ),
            out => ArgsR { stop: Some(out), vals: acc, used: r.used },
        }
    } else {
        sp_args((fuel - 1) as nat, cs, i + 1, acc, env, cmds, outs, used)
    }
}

/// The first argument, at or after `i`, with no textual form; the
/// argument count when all have one.
pub open spec fn first_undisplayable(vs: Seq<ValV>, i: int) -> int
    decreases vs.len() - i,
{
    if i < 0 || i >= vs.len() {
        vs.len() as int
    } else {
        match vs[i] {
            ValV::Num(..) | ValV::Str(..) => first_undisplayable(vs, i + 1),
            _ => i,
        }
    }
}

/// The textual forms of displayable argument values.
pub open spec fn displayed(vs: Seq<ValV>) -> Seq<Seq<char>> {
    Seq::new(
        vs.len(),
        |i: int|
            match vs[i] {
                ValV::Num(n) => dec_str_i64(n),
                ValV::Str(s) => s,
                _ => Seq::empty(),
            },
    )
}

/// Evaluates one expression. The environment chain is read, never
/// changed: scopes grown inside blocks and calls are gone by the time
/// the expression's value stands.
pub open spec fn sp_expr(
    fuel: nat,
    e: ElemV,
    env: Seq<Map<Seq<char>, ValV>>,
    cmds: Map<Seq<char>, Seq<char>>,
    outs: Seq<bool>,
    used: int,
) -> ExprR
    decreases fuel,
{
    if fuel == 0 {
        ExprR { out: Outcome::OutOfFuel, used }
    } else {
        let cs = node_children(e);
        match e.kind() {
            SyntaxKind::Digits => ExprR {
                out: Outcome::Val(ValV::Num(digits_value(tok_text(e)))),
                used,
            },
            SyntaxKind::StringLiteral => {
                let t = tok_text(e);
                let inner = if t.len() >= 2 {
                    t.subrange(1, t.len() - 1)
                } else {
                    Seq::empty()
                };
                ExprR { out: Outcome::Val(ValV::Str(inner)), used }
            },
            SyntaxKind::Atom => ExprR { out: Outcome::Val(ValV::Str(tok_text(e))), used },
            SyntaxKind::TrueKw => ExprR { out: Outcome::Val(ValV::Bool(true)), used },
            SyntaxKind::FalseKw => ExprR { out: Outcome::Val(ValV::Bool(false)), used },
            SyntaxKind::Lambda => ExprR { out: Outcome::Val(ValV::Lambda(e)), used },
            SyntaxKind::BindingUsage => {
                let name = tok_text(cs[tok_idx(cs, SyntaxKind::Atom, 0)]);
                match lookup_chain(env, name) {
                    Some(v) => ExprR { out: Outcome::Val(v), used },
                    None => ExprR {
                        out: Outcome::Fail(
                            EvalError {
                                kind: EvalErrorKind::BindingDoesNotExist,
                                range: e.range(),
                            },
                        ),
                        used,
                    },
                }
            },
            SyntaxKind::Block => {
                let r = sp_items(
                    (fuel - 1) as nat,
                    cs,
                    0,
                    ValV::Nil,
                    env.push(Map::empty()),
                    cmds,
                    outs,
                    used,
                );
                ExprR { out: r.out, used: r.used }
            },
            SyntaxKind::BinOp => sp_binop((fuel - 1) as nat, e, env, cmds, outs, used),
            SyntaxKind::If => sp_if((fuel - 1) as nat, e, env, cmds, outs, used),
            SyntaxKind::FunctionCall => sp_call((fuel - 1) as nat, e, env, cmds, outs, used),
            _ => ExprR { out: Outcome::Val(ValV::Nil), used },
        }
    }
}

/// Evaluates a binary operation: both operands must be numbers, a zero
/// right operand of a division is an error, and the arithmetic wraps at
/// sixty-four bits.
pub open spec fn sp_binop(
    fuel: nat,
    e: ElemV,
    env: Seq<Map<Seq<char>, ValV>>,
    cmds: Map<Seq<char>, Seq<char>>,
    outs: Seq<bool>,
    used: int,
) -> ExprR
    decreases fuel,
{
    if fuel == 0 {
        ExprR { out: Outcome::OutOfFuel, used }
    } else {
        let cs = node_children(e);
        let opk = cs[op_idx(cs, 0)].kind();
        let r1 = sp_expr((fuel - 1) as nat, cs[expr_idx(cs, 0, 0)], env, cmds, outs, used);
        match r1.out {
            Outcome::Val(v1) => {
                let r2 = sp_expr(
                    (fuel - 1) as nat,
                    cs[expr_idx(cs, 1, 0)],
                    env,
                    cmds,
                    outs,
                    r1.used,
                );
                match r2.out {
                    Outcome::Val(v2) => match (v1, v2) {
                        (ValV::Num(a), ValV::Num(b)) => {
                            if opk == SyntaxKind::Plus {
                                ExprR { out: Outcome::Val(ValV::Num(num_add(a, b))), used: r2.used }
                            } else if opk == SyntaxKind::Minus {
                                ExprR { out: Outcome::Val(ValV::Num(num_sub(a, b))), used: r2.used }
                            } else if opk == SyntaxKind::Star {
                                ExprR { out: Outcome::Val(ValV::Num(num_mul(a, b))), used: r2.used }
                            } else if b == 0 {
                                ExprR {
                                    out: Outcome::Fail(
                                        EvalError {
                                            kind: EvalErrorKind::DivisionByZero,
                                            range: e.range(),
                                        },
                                    ),
                                    used: r2.used,
                                }
                            } else {
                                ExprR { out: Outcome::Val(ValV::Num(num_div(a, b))), used: r2.used }
                            }
                        },
                        (a, b) => ExprR {
                            out: Outcome::Fail(
                                EvalError {
                                    kind: EvalErrorKind::BinOpOnNonNumbers {
                                        lhs_ty: a.ty(),
                                        rhs_ty: b.ty(),
                                    },
                                    range: e.range(),
                                },
                            ),
                            used: r2.used,
                        },
                    },
                    out => ExprR { out, used: r2.used },
                }
            },
            out => ExprR { out, used: r1.used },
        }
    }
}

/// Evaluates a conditional: the condition must be a boolean, and only
/// the taken branch is evaluated.
pub open spec fn sp_if(
    fuel: nat,
    e: ElemV,
    env: Seq<Map<Seq<char>, ValV>>,
    cmds: Map<Seq<char>, Seq<char>>,
    outs: Seq<bool>,
    used: int,
) -> ExprR
    decreases fuel,
{
    if fuel == 0 {
        ExprR { out: Outcome::OutOfFuel, used }
    } else {
        let cs = node_children(e);
        let cond = cs[expr_idx(cs, 0, 0)];
        let r = sp_expr((fuel - 1) as nat, cond, env, cmds, outs, used);
        match r.out {
            Outcome::Val(ValV::Bool(true)) => sp_expr(
                (fuel - 1) as nat,
                cs[expr_idx(cs, 1, 0)],
                env,
                cmds,
                outs,
                r.used,
            ),
            Outcome::Val(ValV::Bool(false)) => sp_expr(
                (fuel - 1) as nat,
                cs[expr_idx(cs, 2, 0)],
                env,
                cmds,
                outs,
                r.used,
            ),
            Outcome::Val(..) => ExprR {
                out: Outcome::Fail(
                    EvalError { kind: EvalErrorKind::NonBoolCond, range: cond.range() },
                ),
                used: r.used,
            },
            out => ExprR { out, used: r.used },
        }
    }
}

/// Evaluates a function call: the name resolves to a lambda or to a
/// command; the arguments are evaluated in the caller's environment; a
/// lambda's body runs in a fresh scope binding each parameter, and a
/// command consumes the next spawn outcome.
pub open spec fn sp_call(
    fuel: nat,
    e: ElemV,
    env: Seq<Map<Seq<char>, ValV>>,
    cmds: Map<Seq<char>, Seq<char>>,
    outs: Seq<bool>,
    used: int,
) -> ExprR
    decreases fuel,
{
    if fuel == 0 {
        ExprR { out: Outcome::OutOfFuel, used }
    } else {
        let cs = node_children(e);
        let name_tok = cs[tok_idx(cs, SyntaxKind::Atom, 0)];
        let name = tok_text(name_tok);
        match resolve_spec(env, cmds, name) {
            ResolvedS::Missing(kind) => ExprR {
                out: Outcome::Fail(EvalError { kind, range: name_tok.range() }),
                used,
            },
            resolved => {
                let params_node = cs[node_idx(cs, SyntaxKind::FunctionCallParams, 0)];
                let pcs = node_children(params_node);
                let ra = sp_args((fuel - 1) as nat, pcs, 0, Seq::empty(), env, cmds, outs, used);
                match ra.stop {
                    Some(out) => ExprR { out, used: ra.used },
                    None => match resolved {
                        ResolvedS::Func(lam) => sp_apply(
                            (fuel - 1) as nat,
                            lam,
                            params_node.range(),
                            ra.vals,
                            env,
                            cmds,
                            outs,
                            ra.used,
                        ),
                        ResolvedS::Command(path) => sp_run_command(
                            path,
                            name_tok.range(),
                            pcs,
                            ra.vals,
                            outs,
                            ra.used,
                        ),
                        _ => ExprR { out: Outcome::Val(ValV::Nil), used: ra.used },
                    },
                }
            },
        }
    }
}

/// Applies a lambda value to evaluated arguments: the argument count
/// must equal the parameter count exactly, and the body runs in a fresh
/// scope of the caller's environment binding each parameter.
pub open spec fn sp_apply(
    fuel: nat,
    lam: ElemV,
    call_params_range: TextRange,
    vals: Seq<ValV>,
    env: Seq<Map<Seq<char>, ValV>>,
    cmds: Map<Seq<char>, Seq<char>>,
    outs: Seq<bool>,
    used: int,
) -> ExprR
    decreases fuel,
{
    if fuel == 0 {
        ExprR { out: Outcome::OutOfFuel, used }
    } else {
        let lcs = node_children(lam);
        let pnames = atoms_of(node_children(lcs[node_idx(lcs, SyntaxKind::LambdaParams, 0)]), 0);
        if vals.len() < pnames.len() {
            ExprR {
                out: Outcome::Fail(
                    EvalError { kind: EvalErrorKind::TooFewParams, range: call_params_range },
                ),
                used,
            }
        } else if vals.len() > pnames.len() {
            ExprR {
                out: Outcome::Fail(
                    EvalError { kind: EvalErrorKind::TooManyParams, range: call_params_range },
                ),
                used,
            }
        } else {
            let body = lcs[expr_idx(lcs, 0, 0)];
            sp_expr(
                (fuel - 1) as nat,
                body,
                env.push(bind_params(pnames, vals)),
                cmds,
                outs,
                used,
            )
        }
    }
}

/// Runs a command: every argument must have a textual form, and the
/// next spawn outcome decides between nil and a failure; when no
/// outcome remains, evaluation stops with the command to spawn.
pub open spec fn sp_run_command(
    path: Seq<char>,
    name_range: TextRange,
    pcs: Seq<ElemV>,
    vals: Seq<ValV>,
    outs: Seq<bool>,
    used: int,
) -> ExprR {
    let bad = first_undisplayable(vals, 0);
    if bad < vals.len() {
        ExprR {
            out: Outcome::Fail(
                EvalError {
                    kind: EvalErrorKind::UndisplayableCommandArg,
                    range: pcs[expr_idx(pcs, bad, 0)].range(),
                },
            ),
            used,
        }
    } else if 0 <= used < outs.len() {
        if outs[used] {
            ExprR { out: Outcome::Val(ValV::Nil), used: used + 1 }
        } else {
            ExprR {
                out: Outcome::Fail(
                    EvalError { kind: EvalErrorKind::FailedRunningCommand, range: name_range },
                ),
                used: used + 1,
            }
        }
    } else {
        ExprR { out: Outcome::Pending(path, displayed(vals)), used }
    }
}

/// A command waiting to be spawned: its path and rendered arguments.
#[derive(Debug)]
pub struct PendingCommand {
    /// the executable's path
    pub path: String,
    /// the rendered arguments, in order
    pub args: Vec<String>,
}

/// Why evaluation stopped short of a value.
#[derive(Debug)]
pub enum EvalStop {
    /// an evaluation error
    Error(EvalError),
    /// a command must be spawned, and its outcome fed back, before
    /// evaluation can go on
    Pending(PendingCommand),
    /// the fuel bound on evaluation steps ran out
    OutOfFuel,
}

/// An executable stop agrees with how a specification step ended.
pub open spec fn stop_rel(st: EvalStop, out: Outcome) -> bool {
    match (st, out) {
        (EvalStop::Error(e), Outcome::Fail(ee)) => e == ee,
        (EvalStop::Pending(p), Outcome::Pending(path, args)) => {
            p.path@ == path && p.args.deep_view() == args
        },
        (EvalStop::OutOfFuel, Outcome::OutOfFuel) => true,
        _ => false,
    }
}

/// An executable result agrees with how a specification step ended.
pub open spec fn out_rel(r: Result<Val, EvalStop>, out: Outcome) -> bool {
    match r {
        Result::Ok(v) => out matches Outcome::Val(vv) && v@ == vv,
        Result::Err(st) => stop_rel(st, out),
    }
}

/// A value is sound to store: a lambda it holds is a shaped `Lambda`
/// node.
pub open spec fn val_ok(v: ValV) -> bool {
    match v {
        ValV::Lambda(e) => crate::ast::shaped(e) && is_node_of(e, SyntaxKind::Lambda),
        _ => true,
    }
}

/// Every value in the chain is sound to store.
pub open spec fn env_ok(envs: Seq<Map<Seq<char>, ValV>>) -> bool {
    forall|k: int, name: Seq<char>|
        0 <= k < envs.len() && (#[trigger] envs[k].contains_key(name)) ==> val_ok(
            envs[k][name],
        )
}

/// A lookup in a sound chain finds a sound value.
pub proof fn lemma_lookup_ok(envs: Seq<Map<Seq<char>, ValV>>, name: Seq<char>)
    requires
        env_ok(envs),
    ensures
        match lookup_chain(envs, name) {
            Some(v) => val_ok(v),
            None => true,
        },
    decreases envs.len(),
{
    if envs.len() > 0 && !envs.last().contains_key(name) {
        assert forall|k: int, nm: Seq<char>|
            0 <= k < envs.drop_last().len() && #[trigger] envs.drop_last()[k].contains_key(
                nm,
            ) implies val_ok(envs.drop_last()[k][nm]) by {
            assert(envs.drop_last()[k] == envs[k]);
        }
        lemma_lookup_ok(envs.drop_last(), name);
    }
}

/// A sound chain with a sound value stored stays sound.
pub proof fn lemma_env_ok_store(envs: Seq<Map<Seq<char>, ValV>>, name: Seq<char>, v: ValV)
    requires
        env_ok(envs),
        val_ok(v),
        envs.len() > 0,
    ensures
        env_ok(envs.update(envs.len() - 1, envs.last().insert(name, v))),
{
    let out = envs.update(envs.len() - 1, envs.last().insert(name, v));
    assert forall|k: int, nm: Seq<char>|
        0 <= k < out.len() && #[trigger] out[k].contains_key(nm) implies val_ok(
        out[k][nm],
    ) by {
        if k < envs.len() - 1 {
            assert(out[k] == envs[k]);
        } else {
            if nm != name {
                assert(envs.last().contains_key(nm));
            }
        }
    }
}

/// A sound chain with a sound scope pushed stays sound.
pub proof fn lemma_env_ok_push(envs: Seq<Map<Seq<char>, ValV>>, m: Map<Seq<char>, ValV>)
    requires
        env_ok(envs),
        forall|name: Seq<char>| m.contains_key(name) ==> val_ok(#[trigger] m[name]),
    ensures
        env_ok(envs.push(m)),
{
    let out = envs.push(m);
    assert forall|k: int, nm: Seq<char>|
        0 <= k < out.len() && #[trigger] out[k].contains_key(nm) implies val_ok(
        out[k][nm],
    ) by {
        if k < envs.len() {
            assert(out[k] == envs[k]);
        }
    }
}

/// A sound chain with its innermost scope dropped stays sound.
pub proof fn lemma_env_ok_drop(envs: Seq<Map<Seq<char>, ValV>>)
    requires
        env_ok(envs),
        envs.len() > 0,
    ensures
        env_ok(envs.drop_last()),
{
    assert forall|k: int, nm: Seq<char>|
        0 <= k < envs.drop_last().len() && #[trigger] envs.drop_last()[k].contains_key(
            nm,
        ) implies val_ok(envs.drop_last()[k][nm]) by {
        assert(envs.drop_last()[k] == envs[k]);
    }
}

/// Evaluating items changes at most the innermost scope of the chain it
/// was given.
pub proof fn lemma_sp_items_frame(
    fuel: nat,
    cs: Seq<ElemV>,
    i: int,
    acc: ValV,
    env: Seq<Map<Seq<char>, ValV>>,
    cmds: Map<Seq<char>, Seq<char>>,
    outs: Seq<bool>,
    used: int,
)
    ensures
        ({
            let r = sp_items(fuel, cs, i, acc, env, cmds, outs, used);
            r.env.len() == env.len() && forall|k: int|
                0 <= k < env.len() - 1 ==> r.env[k] == env[k]
        }),
    decreases fuel,
{
    if i < 0 || i >= cs.len() || fuel == 0 {
    } else if is_item_elem(cs[i]) {
        lemma_sp_item_frame((fuel - 1) as nat, cs[i], env, cmds, outs, used);
        let r = sp_item((fuel - 1) as nat, cs[i], env, cmds, outs, used);
        match r.out {
            Outcome::Val(v) => {
                lemma_sp_items_frame((fuel - 1) as nat, cs, i + 1, v, r.env, cmds, outs, r.used);
            },
            _ => {},
        }
    } else {
        lemma_sp_items_frame((fuel - 1) as nat, cs, i + 1, acc, env, cmds, outs, used);
    }
}

/// Evaluating one item changes at most the innermost scope.
pub proof fn lemma_sp_item_frame(
    fuel: nat,
    e: ElemV,
    env: Seq<Map<Seq<char>, ValV>>,
    cmds: Map<Seq<char>, Seq<char>>,
    outs: Seq<bool>,
    used: int,
)
    ensures
        ({
            let r = sp_item(fuel, e, env, cmds, outs, used);
            r.env.len() == env.len() && forall|k: int|
                0 <= k < env.len() - 1 ==> r.env[k] == env[k]
        }),
    decreases fuel,
{
}

/// Finds the first token child of the kind; the length when none
/// exists.
pub(crate) fn find_tok(cs: &Vec<SyntaxElement>, kind: SyntaxKind) -> (r: usize)
    ensures
        r as int == tok_idx(elems_view(cs@, 0), kind, 0),
        r <= cs@.len(),
{
    proof {
        crate::tree::lemma_elems_view_index(cs@, 0);
    }
    let ghost vs = elems_view(cs@, 0);
    let n = cs.len();
    let mut i: usize = 0;
    while i < n
        invariant
            vs == elems_view(cs@, 0),
            vs.len() == cs@.len(),
            forall|k: int| 0 <= k < cs@.len() ==> vs[k] == crate::tree::elem_view(cs@[k]),
            n == cs@.len(),
            i <= n,
            tok_idx(vs, kind, 0) == tok_idx(vs, kind, i as int),
        decreases n - i,
    {
        let hit = match &cs[i] {
            SyntaxElement::Token(t) => t.kind == kind,
            _ => false,
        };
        if hit {
            return i;
        }
        i = i + 1;
    }
    n
}

/// Finds the first node child of the kind; the length when none exists.
pub(crate) fn find_node(cs: &Vec<SyntaxElement>, kind: SyntaxKind) -> (r: usize)
    ensures
        r as int == node_idx(elems_view(cs@, 0), kind, 0),
        r <= cs@.len(),
{
    proof {
        crate::tree::lemma_elems_view_index(cs@, 0);
    }
    let ghost vs = elems_view(cs@, 0);
    let n = cs.len();
    let mut i: usize = 0;
    while i < n
        invariant
            vs == elems_view(cs@, 0),
            vs.len() == cs@.len(),
            forall|k: int| 0 <= k < cs@.len() ==> vs[k] == crate::tree::elem_view(cs@[k]),
            n == cs@.len(),
            i <= n,
            node_idx(vs, kind, 0) == node_idx(vs, kind, i as int),
        decreases n - i,
    {
        let hit = match &cs[i] {
            SyntaxElement::Node(nd) => nd.kind == kind,
            _ => false,
        };
        if hit {
            return i;
        }
        i = i + 1;
    }
    n
}

/// Finds the first operator token child; the length when none exists.
pub(crate) fn find_op(cs: &Vec<SyntaxElement>) -> (r: usize)
    ensures
        r as int == op_idx(elems_view(cs@, 0), 0),
        r <= cs@.len(),
{
    proof {
        crate::tree::lemma_elems_view_index(cs@, 0);
    }
    let ghost vs = elems_view(cs@, 0);
    let n = cs.len();
    let mut i: usize = 0;
    while i < n
        invariant
            vs == elems_view(cs@, 0),
            vs.len() == cs@.len(),
            forall|k: int| 0 <= k < cs@.len() ==> vs[k] == crate::tree::elem_view(cs@[k]),
            n == cs@.len(),
            i <= n,
            op_idx(vs, 0) == op_idx(vs, i as int),
        decreases n - i,
    {
        let hit = match &cs[i] {
            SyntaxElement::Token(t) => {
                t.kind == SyntaxKind::Plus || t.kind == SyntaxKind::Minus || t.kind
                    == SyntaxKind::Star || t.kind == SyntaxKind::Slash
            },
            _ => false,
        };
        if hit {
            return i;
        }
        i = i + 1;
    }
    n
}

/// Finds the `n`-th expression child; the length when there are not
/// that many.
pub(crate) fn find_expr(cs: &Vec<SyntaxElement>, n: usize) -> (r: usize)
    ensures
        r as int == expr_idx(elems_view(cs@, 0), n as int, 0),
        r <= cs@.len(),
{
    find_expr_from(cs, n, 0)
}

/// Finds the `n`-th expression child at or after `start`; the length
/// when there are not that many.
pub(crate) fn find_expr_from(cs: &Vec<SyntaxElement>, n: usize, start: usize) -> (r: usize)
    ensures
        r as int == expr_idx(elems_view(cs@, 0), n as int, start as int),
        r <= cs@.len(),
{
    proof {
        crate::tree::lemma_elems_view_index(cs@, 0);
    }
    let ghost vs = elems_view(cs@, 0);
    let len = cs.len();
    if start > len {
        return len;
    }
    let mut i: usize = start;
    let mut left: usize = n;
    while i < len
        invariant
            vs == elems_view(cs@, 0),
            vs.len() == cs@.len(),
            forall|k: int| 0 <= k < cs@.len() ==> vs[k] == crate::tree::elem_view(cs@[k]),
            len == cs@.len(),
            i <= len,
            expr_idx(vs, n as int, start as int) == expr_idx(vs, left as int, i as int),
        decreases len - i,
    {
        let is_expr = match &cs[i] {
            SyntaxElement::Token(t) => {
                t.kind == SyntaxKind::Digits || t.kind == SyntaxKind::StringLiteral || t.kind
                    == SyntaxKind::Atom || t.kind == SyntaxKind::TrueKw || t.kind
                    == SyntaxKind::FalseKw
            },
            SyntaxElement::Node(nd) => {
                nd.kind == SyntaxKind::BinOp || nd.kind == SyntaxKind::If || nd.kind
                    == SyntaxKind::FunctionCall || nd.kind == SyntaxKind::Lambda || nd.kind
                    == SyntaxKind::BindingUsage || nd.kind == SyntaxKind::Block
            },
        };
        if is_expr {
            if left == 0 {
                return i;
            }
            left = left - 1;
        }
        i = i + 1;
    }
    len
}

/// A token child of the kind exists where something guarantees one.
pub proof fn lemma_tok_idx_exists(cs: Seq<ElemV>, kind: SyntaxKind, i: int)
    requires
        0 <= i <= cs.len(),
        exists|j: int| i <= j < cs.len() && is_token_of(#[trigger] cs[j], kind),
    ensures
        i <= tok_idx(cs, kind, i) < cs.len(),
        is_token_of(cs[tok_idx(cs, kind, i)], kind),
    decreases cs.len() - i,
{
    if !is_token_of(cs[i], kind) {
        lemma_tok_idx_exists(cs, kind, i + 1);
    }
}

/// A node child of the kind exists where something guarantees one.
pub proof fn lemma_node_idx_exists(cs: Seq<ElemV>, kind: SyntaxKind, i: int)
    requires
        0 <= i <= cs.len(),
        exists|j: int| i <= j < cs.len() && is_node_of(#[trigger] cs[j], kind),
    ensures
        i <= node_idx(cs, kind, i) < cs.len(),
        is_node_of(cs[node_idx(cs, kind, i)], kind),
    decreases cs.len() - i,
{
    if !is_node_of(cs[i], kind) {
        lemma_node_idx_exists(cs, kind, i + 1);
    }
}

/// An operator token child exists where something guarantees one.
pub proof fn lemma_op_idx_exists(cs: Seq<ElemV>, i: int)
    requires
        0 <= i <= cs.len(),
        exists|j: int| i <= j < cs.len() && is_op_token(#[trigger] cs[j]),
    ensures
        i <= op_idx(cs, i) < cs.len(),
        is_op_token(cs[op_idx(cs, i)]),
    decreases cs.len() - i,
{
    if !is_op_token(cs[i]) {
        lemma_op_idx_exists(cs, i + 1);
    }
}

/// Binding sound arguments to parameters gives a sound scope.
pub proof fn lemma_bind_params_ok(ps: Seq<Seq<char>>, vs: Seq<ValV>)
    requires
        forall|k: int| 0 <= k < vs.len() ==> val_ok(#[trigger] vs[k]),
    ensures
        forall|name: Seq<char>|
            bind_params(ps, vs).contains_key(name) ==> val_ok(#[trigger] bind_params(ps, vs)[name]),
    decreases ps.len(),
{
    if ps.len() > 0 && vs.len() > 0 {
        assert forall|k: int| 0 <= k < vs.drop_last().len() implies val_ok(
            #[trigger] vs.drop_last()[k],
        ) by {
            assert(vs.drop_last()[k] == vs[k]);
        }
        lemma_bind_params_ok(ps.drop_last(), vs.drop_last());
        let m = bind_params(ps, vs);
        let m0 = bind_params(ps.drop_last(), vs.drop_last());
        assert forall|name: Seq<char>| m.contains_key(name) implies val_ok(
            #[trigger] m[name],
        ) by {
            if name == ps.last() {
                assert(m[name] == vs.last());
                assert(vs.last() == vs[vs.len() - 1]);
            } else {
                assert(m0.contains_key(name));
            }
        }
    }
}

/// A completed argument walk yields one value per expression child.
pub proof fn lemma_sp_args_len(
    fuel: nat,
    cs: Seq<ElemV>,
    i: int,
    acc: Seq<ValV>,
    env: Seq<Map<Seq<char>, ValV>>,
    cmds: Map<Seq<char>, Seq<char>>,
    outs: Seq<bool>,
    used: int,
)
    requires
        0 <= i <= cs.len(),
    ensures
        ({
            let s = sp_args(fuel, cs, i, acc, env, cmds, outs, used);
            s.stop is None ==> s.vals.len() == acc.len() + crate::ast::count_exprs(cs, i)
        }),
    decreases fuel,
{
    crate::ast::lemma_count_exprs_nonneg(cs, i);
    if i < cs.len() && fuel > 0 {
        crate::ast::lemma_count_exprs_nonneg(cs, i + 1);
        if is_expr_elem(cs[i]) {
            let r = sp_expr((fuel - 1) as nat, cs[i], env, cmds, outs, used);
            match r.out {
                Outcome::Val(v) => {
                    lemma_sp_args_len(
                        (fuel - 1) as nat,
                        cs,
                        i + 1,
                        acc.push(v),
                        env,
                        cmds,
                        outs,
                        r.used,
                    );
                },
                _ => {},
            }
        } else {
            lemma_sp_args_len((fuel - 1) as nat, cs, i + 1, acc, env, cmds, outs, used);
        }
    }
}

/// Collects the texts of the atom tokens among the children.
pub(crate) fn collect_atoms(cs: &Vec<SyntaxElement>) -> (r: Vec<String>)
    ensures
        r.deep_view() == atoms_of(elems_view(cs@, 0), 0),
{
    proof {
        crate::tree::lemma_elems_view_index(cs@, 0);
    }
    let ghost vs = elems_view(cs@, 0);
    let n = cs.len();
    let mut out: Vec<String> = Vec::new();
    let mut i: usize = 0;
    while i < n
        invariant
            vs == elems_view(cs@, 0),
            vs.len() == cs@.len(),
            forall|k: int| 0 <= k < cs@.len() ==> vs[k] == crate::tree::elem_view(cs@[k]),
            n == cs@.len(),
            i <= n,
            atoms_of(vs, 0) =~= out.deep_view() + atoms_of(vs, i as int),
        decreases n - i,
    {
        let ghost before = out.deep_view();
        match &cs[i] {
            SyntaxElement::Token(t) => {
                if t.kind == SyntaxKind::Atom {
                    out.push(t.text.clone());
                }
            },
            _ => {},
        }
        proof {
            assert(out.deep_view() =~= if vs[i as int] matches ElemV::Token { .. }
                && is_token_of(vs[i as int], SyntaxKind::Atom) {
                before.push(tok_text(vs[i as int]))
            } else {
                before
            });
            assert(atoms_of(vs, 0) =~= out.deep_view() + atoms_of(vs, i as int + 1));
        }
        i = i + 1;
    }
    proof {
        assert(atoms_of(vs, n as int) =~= Seq::<Seq<char>>::empty());
        assert(atoms_of(vs, 0) =~= out.deep_view());
    }
    out
}

/// Evaluates the item children of `cs` from `i` on, in order.
#[verifier::rlimit(100)]
pub(crate) fn ev_items(
    cs: &Vec<SyntaxElement>,
    i: usize,
    acc: Val,
    env: &mut Env,
    fuel: u64,
    outs: &Vec<bool>,
    used: &mut usize,
) -> (r: Result<Val, EvalStop>)
    requires
        old(env).wf(),
        env_ok(old(env).view_scopes()),
        crate::ast::shaped_from(elems_view(cs@, 0), i as int),
        i <= cs@.len(),
        *old(used) <= outs@.len(),
        val_ok(acc@),
    ensures
        final(env).wf(),
        env_ok(final(env).view_scopes()),
        final(env).view_cmds() == old(env).view_cmds(),
        *final(used) <= outs@.len(),
        ({
            let s = sp_items(
                fuel as nat,
                elems_view(cs@, 0),
                i as int,
                acc@,
                old(env).view_scopes(),
                old(env).view_cmds(),
                outs@,
                *old(used) as int,
            );
            out_rel(r, s.out) && final(env).view_scopes() == s.env && *final(used) == s.used
        }),
        match r {
            Result::Ok(v) => val_ok(v@),
            _ => true,
        },
    decreases fuel, 1int,
{
    let ghost vs = elems_view(cs@, 0);
    proof {
        crate::tree::lemma_elems_view_index(cs@, 0);
    }
    if i >= cs.len() {
        return Ok(acc);
    }
    if fuel == 0 {
        return Err(EvalStop::OutOfFuel);
    }
    let is_item = match &cs[i] {
        SyntaxElement::Node(n) => {
            n.kind == SyntaxKind::BindingDef || n.kind == SyntaxKind::BinOp || n.kind
                == SyntaxKind::If || n.kind == SyntaxKind::FunctionCall || n.kind
                == SyntaxKind::Lambda || n.kind == SyntaxKind::BindingUsage || n.kind
                == SyntaxKind::Block
        },
        SyntaxElement::Token(t) => {
            t.kind == SyntaxKind::Digits || t.kind == SyntaxKind::StringLiteral || t.kind
                == SyntaxKind::Atom || t.kind == SyntaxKind::TrueKw || t.kind
                == SyntaxKind::FalseKw
        },
    };
    proof {
        assert(is_item == is_item_elem(vs[i as int]));
    }
    if is_item {
        let r = ev_item(&cs[i], env, fuel - 1, outs, used);
        match r {
            Ok(v) => ev_items(cs, i + 1, v, env, fuel - 1, outs, used),
            Err(st) => Err(st),
        }
    } else {
        ev_items(cs, i + 1, acc, env, fuel - 1, outs, used)
    }
}

/// Evaluates one item: a binding definition stores its right-hand
/// side's value under its name and contributes nil; an expression
/// contributes its value.
#[verifier::rlimit(100)]
pub(crate) fn ev_item(e: &SyntaxElement, env: &mut Env, fuel: u64, outs: &Vec<bool>, used: &mut usize) -> (r:
    Result<Val, EvalStop>)
    requires
        old(env).wf(),
        env_ok(old(env).view_scopes()),
        crate::ast::shaped(e@),
        is_item_elem(e@),
        *old(used) <= outs@.len(),
    ensures
        final(env).wf(),
        env_ok(final(env).view_scopes()),
        final(env).view_cmds() == old(env).view_cmds(),
        *final(used) <= outs@.len(),
        ({
            let s = sp_item(
                fuel as nat,
                e@,
                old(env).view_scopes(),
                old(env).view_cmds(),
                outs@,
                *old(used) as int,
            );
            out_rel(r, s.out) && final(env).view_scopes() == s.env && *final(used) == s.used
        }),
        match r {
            Result::Ok(v) => val_ok(v@),
            _ => true,
        },
    decreases fuel, 2int,
{
    if fuel == 0 {
        return Err(EvalStop::OutOfFuel);
    }
    let is_bdef = match e {
        SyntaxElement::Node(n) => n.kind == SyntaxKind::BindingDef,
        _ => false,
    };
    if is_bdef {
        let n = match e {
            SyntaxElement::Node(n) => n,
            _ => unreached(),
        };
        let ghost vcs = node_children(e@);
        proof {
            crate::tree::lemma_elems_view_index(n.children@, 0);
            assert(vcs == elems_view(n.children@, 0));
            lemma_tok_idx_exists(vcs, SyntaxKind::Atom, 0);
        }
        let ti = find_tok(&n.children, SyntaxKind::Atom);
        let name = match &n.children[ti] {
            SyntaxElement::Token(t) => t.text.clone(),
            _ => unreached(),
        };
        proof {
            assert(name@ == tok_text(vcs[tok_idx(vcs, SyntaxKind::Atom, 0)]));
            assert(ti < n.children@.len());
            let j = choose|j: int|
                0 <= j < vcs.len() && is_token_of(#[trigger] vcs[j], SyntaxKind::Atom)
                    && crate::ast::count_exprs(vcs, j + 1) >= 1;
            lemma_tok_idx_min(vcs, SyntaxKind::Atom, 0, j);
            lemma_count_exprs_mono(vcs, ti as int + 1, j + 1);
            lemma_expr_idx(vcs, 0, ti as int + 1);
            crate::ast::lemma_shaped_at(vcs, 0, expr_idx(vcs, 0, ti as int + 1));
        }
        let nlen = n.children.len();
        proof {
            assert(ti < nlen);
        }
        let xi = find_expr_from(&n.children, 0, ti + 1);
        let r = ev_expr(&n.children[xi], env, fuel - 1, outs, used);
        match r {
            Ok(v) => {
                let ghost mid = env.view_scopes();
                proof {
                    lemma_env_ok_store(env.view_scopes(), name@, v@);
                }
                env.store_binding(name, v);
                proof {
                    assert(env.view_scopes() =~= mid.update(
                        mid.len() - 1,
                        mid.last().insert(name@, v@),
                    ));
                }
                Ok(Val::Nil)
            },
            Err(st) => Err(st),
        }
    } else {
        ev_expr(e, env, fuel - 1, outs, used)
    }
}

/// Evaluates one expression; the environment is exactly as it was when
/// the value stands.
#[verifier::rlimit(100)]
pub(crate) fn ev_expr(e: &SyntaxElement, env: &mut Env, fuel: u64, outs: &Vec<bool>, used: &mut usize) -> (r:
    Result<Val, EvalStop>)
    requires
        old(env).wf(),
        env_ok(old(env).view_scopes()),
        crate::ast::shaped(e@),
        is_expr_elem(e@),
        *old(used) <= outs@.len(),
    ensures
        final(env).wf(),
        final(env).view_scopes() == old(env).view_scopes(),
        final(env).view_cmds() == old(env).view_cmds(),
        env_ok(final(env).view_scopes()),
        *final(used) <= outs@.len(),
        ({
            let s = sp_expr(
                fuel as nat,
                e@,
                old(env).view_scopes(),
                old(env).view_cmds(),
                outs@,
                *old(used) as int,
            );
            out_rel(r, s.out) && *final(used) == s.used
        }),
        match r {
            Result::Ok(v) => val_ok(v@),
            _ => true,
        },
    decreases fuel, 3int,
{
    if fuel == 0 {
        return Err(EvalStop::OutOfFuel);
    }
    match e {
        SyntaxElement::Token(t) => {
            if t.kind == SyntaxKind::Digits {
                Ok(Val::Number(crate::val::parse_digits(t.text.as_str())))
            } else if t.kind == SyntaxKind::StringLiteral {
                let len = t.text.as_str().unicode_len();
                let inner = if len >= 2 {
                    t.text.as_str().substring_char(1, len - 1).to_owned()
                } else {
                    String::new()
                };
                Ok(Val::Str(inner))
            } else if t.kind == SyntaxKind::Atom {
                Ok(Val::Str(t.text.clone()))
            } else if t.kind == SyntaxKind::TrueKw {
                Ok(Val::Bool(true))
            } else {
                proof {
                    assert(t.kind == SyntaxKind::FalseKw);
                }
                Ok(Val::Bool(false))
            }
        },
        SyntaxElement::Node(n) => {
            let ghost vcs = node_children(e@);
            proof {
                crate::tree::lemma_elems_view_index(n.children@, 0);
                assert(vcs == elems_view(n.children@, 0));
            }
            if n.kind == SyntaxKind::Lambda {
                Ok(Val::Lambda(e.deep_clone()))
            } else if n.kind == SyntaxKind::BindingUsage {
                proof {
                    lemma_tok_idx_exists(vcs, SyntaxKind::Atom, 0);
                }
                let ti = find_tok(&n.children, SyntaxKind::Atom);
                let name = match &n.children[ti] {
                    SyntaxElement::Token(t) => t.text.clone(),
                    _ => unreached(),
                };
                match env.get_binding(name.as_str()) {
                    Some(v) => {
                        proof {
                            lemma_lookup_ok(env.view_scopes(), name@);
                        }
                        Ok(v)
                    },
                    None => Err(
                        EvalStop::Error(
                            EvalError { kind: EvalErrorKind::BindingDoesNotExist, range: n.range },
                        ),
                    ),
                }
            } else if n.kind == SyntaxKind::Block {
                let ghost env0 = env.view_scopes();
                env.create_child();
                proof {
                    lemma_env_ok_push(env0, Map::empty());
                }
                let r = ev_items(&n.children, 0, Val::Nil, env, fuel - 1, outs, used);
                proof {
                    lemma_sp_items_frame(
                        (fuel - 1) as nat,
                        vcs,
                        0,
                        ValV::Nil,
                        env0.push(Map::empty()),
                        old(env).view_cmds(),
                        outs@,
                        *old(used) as int,
                    );
                    lemma_env_ok_drop(env.view_scopes());
                }
                let ghost after_items = env.view_scopes();
                env.drop_child();
                proof {
                    assert forall|k: int| 0 <= k < env0.len() implies after_items.drop_last()[k]
                        == env0[k] by {
                        assert(after_items[k] == env0.push(Map::empty())[k]);
                    }
                    assert(env.view_scopes() =~= env0);
                }
                r
            } else if n.kind == SyntaxKind::BinOp {
                ev_binop(e, env, fuel - 1, outs, used)
            } else if n.kind == SyntaxKind::If {
                ev_if(e, env, fuel - 1, outs, used)
            } else {
                proof {
                    assert(n.kind == SyntaxKind::FunctionCall);
                }
                ev_call(e, env, fuel - 1, outs, used)
            }
        },
    }
}

/// Evaluates a binary operation.
#[verifier::rlimit(100)]
pub(crate) fn ev_binop(e: &SyntaxElement, env: &mut Env, fuel: u64, outs: &Vec<bool>, used: &mut usize) -> (r:
    Result<Val, EvalStop>)
    requires
        old(env).wf(),
        env_ok(old(env).view_scopes()),
        crate::ast::shaped(e@),
        e@.kind() == SyntaxKind::BinOp,
        e@ matches ElemV::Node { .. },
        *old(used) <= outs@.len(),
    ensures
        final(env).wf(),
        final(env).view_scopes() == old(env).view_scopes(),
        final(env).view_cmds() == old(env).view_cmds(),
        env_ok(final(env).view_scopes()),
        *final(used) <= outs@.len(),
        ({
            let s = sp_binop(
                fuel as nat,
                e@,
                old(env).view_scopes(),
                old(env).view_cmds(),
                outs@,
                *old(used) as int,
            );
            out_rel(r, s.out) && *final(used) == s.used
        }),
        match r {
            Result::Ok(v) => val_ok(v@),
            _ => true,
        },
    decreases fuel, 0int,
{
    if fuel == 0 {
        return Err(EvalStop::OutOfFuel);
    }
    let n = match e {
        SyntaxElement::Node(n) => n,
        _ => unreached(),
    };
    let ghost vcs = node_children(e@);
    proof {
        crate::tree::lemma_elems_view_index(n.children@, 0);
        assert(vcs == elems_view(n.children@, 0));
        lemma_op_idx_exists(vcs, 0);
        crate::ast::lemma_count_exprs_nonneg(vcs, 0);
        lemma_expr_idx(vcs, 0, 0);
        lemma_expr_idx(vcs, 1, 0);
        crate::ast::lemma_shaped_at(vcs, 0, expr_idx(vcs, 0, 0));
        crate::ast::lemma_shaped_at(vcs, 0, expr_idx(vcs, 1, 0));
    }
    let oi = find_op(&n.children);
    let opk = match &n.children[oi] {
        SyntaxElement::Token(t) => t.kind,
        _ => unreached(),
    };
    let xi = find_expr(&n.children, 0);
    let r1 = match ev_expr(&n.children[xi], env, fuel - 1, outs, used) {
        Ok(v) => v,
        Err(st) => {
            return Err(st);
        },
    };
    let yi = find_expr(&n.children, 1);
    let r2 = match ev_expr(&n.children[yi], env, fuel - 1, outs, used) {
        Ok(v) => v,
        Err(st) => {
            return Err(st);
        },
    };
    match (r1, r2) {
        (Val::Number(a), Val::Number(b)) => {
            if opk == SyntaxKind::Plus {
                Ok(Val::Number(crate::val::exec_num_add(a, b)))
            } else if opk == SyntaxKind::Minus {
                Ok(Val::Number(crate::val::exec_num_sub(a, b)))
            } else if opk == SyntaxKind::Star {
                Ok(Val::Number(crate::val::exec_num_mul(a, b)))
            } else if b == 0 {
                Err(
                    EvalStop::Error(
                        EvalError { kind: EvalErrorKind::DivisionByZero, range: n.range },
                    ),
                )
            } else {
                Ok(Val::Number(crate::val::exec_num_div(a, b)))
            }
        },
        (a, b) => {
            let lhs_ty = a.ty();
            let rhs_ty = b.ty();
            Err(
                EvalStop::Error(
                    EvalError {
                        kind: EvalErrorKind::BinOpOnNonNumbers { lhs_ty, rhs_ty },
                        range: n.range,
                    },
                ),
            )
        },
    }
}

/// Evaluates a conditional.
#[verifier::rlimit(100)]
pub(crate) fn ev_if(e: &SyntaxElement, env: &mut Env, fuel: u64, outs: &Vec<bool>, used: &mut usize) -> (r:
    Result<Val, EvalStop>)
    requires
        old(env).wf(),
        env_ok(old(env).view_scopes()),
        crate::ast::shaped(e@),
        e@.kind() == SyntaxKind::If,
        e@ matches ElemV::Node { .. },
        *old(used) <= outs@.len(),
    ensures
        final(env).wf(),
        final(env).view_scopes() == old(env).view_scopes(),
        final(env).view_cmds() == old(env).view_cmds(),
        env_ok(final(env).view_scopes()),
        *final(used) <= outs@.len(),
        ({
            let s = sp_if(
                fuel as nat,
                e@,
                old(env).view_scopes(),
                old(env).view_cmds(),
                outs@,
                *old(used) as int,
            );
            out_rel(r, s.out) && *final(used) == s.used
        }),
        match r {
            Result::Ok(v) => val_ok(v@),
            _ => true,
        },
    decreases fuel, 0int,
{
    if fuel == 0 {
        return Err(EvalStop::OutOfFuel);
    }
    let n = match e {
        SyntaxElement::Node(n) => n,
        _ => unreached(),
    };
    let ghost vcs = node_children(e@);
    proof {
        crate::tree::lemma_elems_view_index(n.children@, 0);
        assert(vcs == elems_view(n.children@, 0));
        crate::ast::lemma_count_exprs_nonneg(vcs, 0);
        lemma_expr_idx(vcs, 0, 0);
        lemma_expr_idx(vcs, 1, 0);
        lemma_expr_idx(vcs, 2, 0);
        crate::ast::lemma_shaped_at(vcs, 0, expr_idx(vcs, 0, 0));
        crate::ast::lemma_shaped_at(vcs, 0, expr_idx(vcs, 1, 0));
        crate::ast::lemma_shaped_at(vcs, 0, expr_idx(vcs, 2, 0));
    }
    let ci = find_expr(&n.children, 0);
    let cond_range = n.children[ci].range();
    let c = match ev_expr(&n.children[ci], env, fuel - 1, outs, used) {
        Ok(v) => v,
        Err(st) => {
            return Err(st);
        },
    };
    match c {
        Val::Bool(true) => {
            let bi = find_expr(&n.children, 1);
            ev_expr(&n.children[bi], env, fuel - 1, outs, used)
        },
        Val::Bool(false) => {
            let bi = find_expr(&n.children, 2);
            ev_expr(&n.children[bi], env, fuel - 1, outs, used)
        },
        _ => Err(
            EvalStop::Error(EvalError { kind: EvalErrorKind::NonBoolCond, range: cond_range }),
        ),
    }
}

/// Evaluates the argument expressions among the children from `i` on.
#[verifier::rlimit(100)]
pub(crate) fn ev_args(
    cs: &Vec<SyntaxElement>,
    i: usize,
    acc: Vec<Val>,
    env: &mut Env,
    fuel: u64,
    outs: &Vec<bool>,
    used: &mut usize,
) -> (r: Result<Vec<Val>, EvalStop>)
    requires
        old(env).wf(),
        env_ok(old(env).view_scopes()),
        crate::ast::shaped_from(elems_view(cs@, 0), i as int),
        i <= cs@.len(),
        *old(used) <= outs@.len(),
        forall|k: int| 0 <= k < acc.deep_view().len() ==> val_ok(#[trigger] acc.deep_view()[k]),
    ensures
        final(env).wf(),
        final(env).view_scopes() == old(env).view_scopes(),
        final(env).view_cmds() == old(env).view_cmds(),
        env_ok(final(env).view_scopes()),
        *final(used) <= outs@.len(),
        ({
            let s = sp_args(
                fuel as nat,
                elems_view(cs@, 0),
                i as int,
                acc.deep_view(),
                old(env).view_scopes(),
                old(env).view_cmds(),
                outs@,
                *old(used) as int,
            );
            &&& *final(used) == s.used
            &&& match r {
                Result::Ok(vs) => s.stop is None && vs.deep_view() == s.vals && forall|k: int|
                    0 <= k < vs.deep_view().len() ==> val_ok(#[trigger] vs.deep_view()[k]),
                Result::Err(st) => s.stop matches Some(out) && stop_rel(st, out),
            }
        }),
    decreases fuel, 0int,
{
    let ghost vs = elems_view(cs@, 0);
    proof {
        crate::tree::lemma_elems_view_index(cs@, 0);
    }
    if i >= cs.len() {
        return Ok(acc);
    }
    if fuel == 0 {
        return Err(EvalStop::OutOfFuel);
    }
    let is_expr = match &cs[i] {
        SyntaxElement::Token(t) => {
            t.kind == SyntaxKind::Digits || t.kind == SyntaxKind::StringLiteral || t.kind
                == SyntaxKind::Atom || t.kind == SyntaxKind::TrueKw || t.kind == SyntaxKind::FalseKw
        },
        SyntaxElement::Node(nd) => {
            nd.kind == SyntaxKind::BinOp || nd.kind == SyntaxKind::If || nd.kind
                == SyntaxKind::FunctionCall || nd.kind == SyntaxKind::Lambda || nd.kind
                == SyntaxKind::BindingUsage || nd.kind == SyntaxKind::Block
        },
    };
    proof {
        assert(is_expr == is_expr_elem(vs[i as int]));
    }
    if is_expr {
        let v = match ev_expr(&cs[i], env, fuel - 1, outs, used) {
            Ok(v) => v,
            Err(st) => {
                return Err(st);
            },
        };
        let ghost accv = acc.deep_view();
        let mut acc2 = acc;
        acc2.push(v);
        proof {
            assert(acc2.deep_view() =~= accv.push(v@));
        }
        ev_args(cs, i + 1, acc2, env, fuel - 1, outs, used)
    } else {
        ev_args(cs, i + 1, acc, env, fuel - 1, outs, used)
    }
}

/// Applies a lambda value to evaluated arguments.
#[verifier::rlimit(100)]
pub(crate) fn ev_apply(
    lam: &SyntaxElement,
    call_params_range: TextRange,
    vals: Vec<Val>,
    env: &mut Env,
    fuel: u64,
    outs: &Vec<bool>,
    used: &mut usize,
) -> (r: Result<Val, EvalStop>)
    requires
        old(env).wf(),
        env_ok(old(env).view_scopes()),
        crate::ast::shaped(lam@),
        lam@.kind() == SyntaxKind::Lambda,
        lam@ matches ElemV::Node { .. },
        *old(used) <= outs@.len(),
        forall|k: int| 0 <= k < vals.deep_view().len() ==> val_ok(#[trigger] vals.deep_view()[k]),
    ensures
        final(env).wf(),
        final(env).view_scopes() == old(env).view_scopes(),
        final(env).view_cmds() == old(env).view_cmds(),
        env_ok(final(env).view_scopes()),
        *final(used) <= outs@.len(),
        ({
            let s = sp_apply(
                fuel as nat,
                lam@,
                call_params_range,
                vals.deep_view(),
                old(env).view_scopes(),
                old(env).view_cmds(),
                outs@,
                *old(used) as int,
            );
            out_rel(r, s.out) && *final(used) == s.used
        }),
        match r {
            Result::Ok(v) => val_ok(v@),
            _ => true,
        },
    decreases fuel, 0int,
{
    if fuel == 0 {
        return Err(EvalStop::OutOfFuel);
    }
    let n = match lam {
        SyntaxElement::Node(n) => n,
        _ => unreached(),
    };
    let ghost lcs = node_children(lam@);
    proof {
        crate::tree::lemma_elems_view_index(n.children@, 0);
        assert(lcs == elems_view(n.children@, 0));
        lemma_node_idx_exists(lcs, SyntaxKind::LambdaParams, 0);
        crate::ast::lemma_count_exprs_nonneg(lcs, 0);
        lemma_expr_idx(lcs, 0, 0);
        crate::ast::lemma_shaped_at(lcs, 0, expr_idx(lcs, 0, 0));
    }
    let pi = find_node(&n.children, SyntaxKind::LambdaParams);
    let pn = match &n.children[pi] {
        SyntaxElement::Node(p) => p,
        _ => unreached(),
    };
    proof {
        crate::tree::lemma_elems_view_index(pn.children@, 0);
        assert(elems_view(pn.children@, 0) == node_children(lcs[node_idx(
            lcs,
            SyntaxKind::LambdaParams,
            0,
        )]));
    }
    let names = collect_atoms(&pn.children);
    let ghost pnames = names.deep_view();
    if vals.len() < names.len() {
        proof {
            assert(vals.deep_view().len() == vals@.len());
            assert(pnames.len() == names@.len());
        }
        return Err(
            EvalStop::Error(
                EvalError { kind: EvalErrorKind::TooFewParams, range: call_params_range },
            ),
        );
    }
    if vals.len() > names.len() {
        return Err(
            EvalStop::Error(
                EvalError { kind: EvalErrorKind::TooManyParams, range: call_params_range },
            ),
        );
    }
    let ghost env0 = env.view_scopes();
    let ghost vvals = vals.deep_view();
    env.create_child();
    proof {
        lemma_env_ok_push(env0, Map::empty());
        assert(bind_params(pnames.take(0), vvals.take(0)) =~= Map::<Seq<char>, ValV>::empty());
    }
    let count = names.len();
    let mut k: usize = 0;
    while k < count
        invariant
            env.wf(),
            env_ok(env.view_scopes()),
            count == names@.len(),
            count == vals@.len(),
            k <= count,
            pnames == names.deep_view(),
            vvals == vals.deep_view(),
            pnames.len() == count,
            vvals.len() == count,
            forall|j: int| 0 <= j < vvals.len() ==> val_ok(#[trigger] vvals[j]),
            env.view_scopes() =~= env0.push(bind_params(pnames.take(k as int), vvals.take(k as int))),
            env.view_cmds() == old(env).view_cmds(),
        decreases count - k,
    {
        let name = names[k].clone();
        let v = vals[k].dup();
        let ghost pre = env.view_scopes();
        proof {
            assert(v@ == vvals[k as int]);
            lemma_env_ok_store(pre, name@, v@);
        }
        env.store_binding(name, v);
        proof {
            let m0 = bind_params(pnames.take(k as int), vvals.take(k as int));
            let m1 = bind_params(pnames.take(k as int + 1), vvals.take(k as int + 1));
            assert(pnames.take(k as int + 1).drop_last() =~= pnames.take(k as int));
            assert(vvals.take(k as int + 1).drop_last() =~= vvals.take(k as int));
            assert(m1 == m0.insert(pnames[k as int], vvals[k as int]));
            assert(env.view_scopes() =~= env0.push(m1));
        }
        k = k + 1;
    }
    proof {
        assert(pnames.take(count as int) =~= pnames);
        assert(vvals.take(count as int) =~= vvals);
        lemma_bind_params_ok(pnames, vvals);
        lemma_env_ok_push(env0, bind_params(pnames, vvals));
        assert(env_ok(env.view_scopes()));
    }
    let bi = find_expr(&n.children, 0);
    let r = ev_expr(&n.children[bi], env, fuel - 1, outs, used);
    proof {
        lemma_env_ok_drop(env.view_scopes());
    }
    env.drop_child();
    proof {
        assert(env.view_scopes() =~= env0);
    }
    r
}

/// Runs one command invocation against the next spawn outcome.
#[verifier::rlimit(100)]
pub(crate) fn ev_run_command(
    path: String,
    name_range: TextRange,
    pcs: &Vec<SyntaxElement>,
    vals: &Vec<Val>,
    outs: &Vec<bool>,
    used: &mut usize,
) -> (r: Result<Val, EvalStop>)
    requires
        *old(used) <= outs@.len(),
        crate::ast::count_exprs(elems_view(pcs@, 0), 0) >= vals.deep_view().len(),
    ensures
        *final(used) <= outs@.len(),
        ({
            let s = sp_run_command(
                path@,
                name_range,
                elems_view(pcs@, 0),
                vals.deep_view(),
                outs@,
                *old(used) as int,
            );
            out_rel(r, s.out) && *final(used) == s.used
        }),
        match r {
            Result::Ok(v) => val_ok(v@),
            _ => true,
        },
{
    let ghost vv = vals.deep_view();
    let n = vals.len();
    let mut shown: Vec<String> = Vec::new();
    let mut k: usize = 0;
    proof {
        assert(vv.len() == vals@.len());
    }
    while k < n
        invariant
            vv == vals.deep_view(),
            n == vals@.len(),
            vv.len() == n,
            k <= n,
            *used == *old(used),
            *old(used) <= outs@.len(),
            crate::ast::count_exprs(elems_view(pcs@, 0), 0) >= vv.len(),
            shown@.len() == k,
            first_undisplayable(vv, 0) == first_undisplayable(vv, k as int),
            forall|j: int| 0 <= j < k ==> shown.deep_view()[j] == displayed(vv)[j],
        decreases n - k,
    {
        match vals[k].display_repr() {
            Some(s) => {
                shown.push(s);
            },
            None => {
                proof {
                    assert(first_undisplayable(vv, k as int) == k);
                    crate::ast::lemma_count_exprs_nonneg(elems_view(pcs@, 0), 0);
                    lemma_expr_idx(elems_view(pcs@, 0), k as int, 0);
                    crate::tree::lemma_elems_view_index(pcs@, 0);
                }
                let bi = find_expr(pcs, k);
                let brange = pcs[bi].range();
                return Err(
                    EvalStop::Error(
                        EvalError { kind: EvalErrorKind::UndisplayableCommandArg, range: brange },
                    ),
                );
            },
        }
        k = k + 1;
    }
    proof {
        assert(first_undisplayable(vv, n as int) == vv.len());
        assert(shown.deep_view() =~= displayed(vv));
    }
    if *used < outs.len() {
        let ok = outs[*used];
        *used = *used + 1;
        if ok {
            Ok(Val::Nil)
        } else {
            Err(
                EvalStop::Error(
                    EvalError { kind: EvalErrorKind::FailedRunningCommand, range: name_range },
                ),
            )
        }
    } else {
        Err(EvalStop::Pending(PendingCommand { path, args: shown }))
    }
}

/// Evaluates a function call.
#[verifier::rlimit(100)]
pub(crate) fn ev_call(e: &SyntaxElement, env: &mut Env, fuel: u64, outs: &Vec<bool>, used: &mut usize) -> (r:
    Result<Val, EvalStop>)
    requires
        old(env).wf(),
        env_ok(old(env).view_scopes()),
        crate::ast::shaped(e@),
        e@.kind() == SyntaxKind::FunctionCall,
        e@ matches ElemV::Node { .. },
        *old(used) <= outs@.len(),
    ensures
        final(env).wf(),
        final(env).view_scopes() == old(env).view_scopes(),
        final(env).view_cmds() == old(env).view_cmds(),
        env_ok(final(env).view_scopes()),
        *final(used) <= outs@.len(),
        ({
            let s = sp_call(
                fuel as nat,
                e@,
                old(env).view_scopes(),
                old(env).view_cmds(),
                outs@,
                *old(used) as int,
            );
            out_rel(r, s.out) && *final(used) == s.used
        }),
        match r {
            Result::Ok(v) => val_ok(v@),
            _ => true,
        },
    decreases fuel, 0int,
{
    if fuel == 0 {
        return Err(EvalStop::OutOfFuel);
    }
    let n = match e {
        SyntaxElement::Node(n) => n,
        _ => unreached(),
    };
    let ghost vcs = node_children(e@);
    proof {
        crate::tree::lemma_elems_view_index(n.children@, 0);
        assert(vcs == elems_view(n.children@, 0));
        lemma_tok_idx_exists(vcs, SyntaxKind::Atom, 0);
        lemma_node_idx_exists(vcs, SyntaxKind::FunctionCallParams, 0);
    }
    let ti = find_tok(&n.children, SyntaxKind::Atom);
    let (name, name_rg) = match &n.children[ti] {
        SyntaxElement::Token(t) => (t.text.clone(), t.range),
        _ => unreached(),
    };
    let resolved = env.get_func_or_command(name.as_str());
    let resolved = match resolved {
        Ok(f) => f,
        Err(kind) => {
            return Err(EvalStop::Error(EvalError { kind, range: name_rg }));
        },
    };
    let pi = find_node(&n.children, SyntaxKind::FunctionCallParams);
    let params_rg = n.children[pi].range();
    let pn = match &n.children[pi] {
        SyntaxElement::Node(p) => p,
        _ => unreached(),
    };
    proof {
        crate::ast::lemma_shaped_at(vcs, 0, node_idx(vcs, SyntaxKind::FunctionCallParams, 0));
        crate::tree::lemma_elems_view_index(pn.children@, 0);
        assert(elems_view(pn.children@, 0) == node_children(vcs[node_idx(
            vcs,
            SyntaxKind::FunctionCallParams,
            0,
        )]));
        assert(crate::ast::shaped_from(elems_view(pn.children@, 0), 0));
    }
    let args_acc: Vec<Val> = Vec::new();
    proof {
        assert(args_acc.deep_view() =~= Seq::<ValV>::empty());
    }
    let vals = match ev_args(&pn.children, 0, args_acc, env, fuel - 1, outs, used) {
        Ok(vs) => vs,
        Err(st) => {
            return Err(st);
        },
    };
    match resolved {
        crate::env::FuncOrCommand::Func(f) => {
            let lamval = match f {
                Val::Lambda(el) => el,
                _ => unreached(),
            };
            proof {
                lemma_lookup_ok(old(env).view_scopes(), name@);
            }
            ev_apply(&lamval, params_rg, vals, env, fuel - 1, outs, used)
        },
        crate::env::FuncOrCommand::Command(path) => {
            proof {
                lemma_sp_args_len(
                    (fuel - 1) as nat,
                    elems_view(pn.children@, 0),
                    0,
                    Seq::empty(),
                    old(env).view_scopes(),
                    old(env).view_cmds(),
                    outs@,
                    *old(used) as int,
                );
            }
            ev_run_command(path, name_rg, &pn.children, &vals, outs, used)
        },
    }
}

/// No token child of the kind exists past the length.
pub proof fn lemma_tok_idx_none(cs: Seq<ElemV>, kind: SyntaxKind, i: int)
    requires
        0 <= i <= cs.len(),
        tok_idx(cs, kind, i) == cs.len(),
    ensures
        forall|j: int| i <= j < cs.len() ==> !is_token_of(#[trigger] cs[j], kind),
    decreases cs.len() - i,
{
    if i < cs.len() {
        lemma_tok_idx_none(cs, kind, i + 1);
    }
}

/// No node child of the kind exists past the length.
pub proof fn lemma_node_idx_none(cs: Seq<ElemV>, kind: SyntaxKind, i: int)
    requires
        0 <= i <= cs.len(),
        node_idx(cs, kind, i) == cs.len(),
    ensures
        forall|j: int| i <= j < cs.len() ==> !is_node_of(#[trigger] cs[j], kind),
    decreases cs.len() - i,
{
    if i < cs.len() {
        lemma_node_idx_none(cs, kind, i + 1);
    }
}

/// No operator token child exists past the length.
pub proof fn lemma_op_idx_none(cs: Seq<ElemV>, i: int)
    requires
        0 <= i <= cs.len(),
        op_idx(cs, i) == cs.len(),
    ensures
        forall|j: int| i <= j < cs.len() ==> !is_op_token(#[trigger] cs[j]),
    decreases cs.len() - i,
{
    if i < cs.len() {
        lemma_op_idx_none(cs, i + 1);
    }
}

/// A search that stopped early found what it looked for.
pub proof fn lemma_tok_idx_found(cs: Seq<ElemV>, kind: SyntaxKind, i: int)
    requires
        0 <= i <= cs.len(),
        tok_idx(cs, kind, i) < cs.len(),
    ensures
        is_token_of(cs[tok_idx(cs, kind, i)], kind),
    decreases cs.len() - i,
{
    if i < cs.len() && !is_token_of(cs[i], kind) {
        lemma_tok_idx_found(cs, kind, i + 1);
    }
}

/// A search that stopped early found what it looked for.
pub proof fn lemma_node_idx_found(cs: Seq<ElemV>, kind: SyntaxKind, i: int)
    requires
        0 <= i <= cs.len(),
        node_idx(cs, kind, i) < cs.len(),
    ensures
        is_node_of(cs[node_idx(cs, kind, i)], kind),
    decreases cs.len() - i,
{
    if i < cs.len() && !is_node_of(cs[i], kind) {
        lemma_node_idx_found(cs, kind, i + 1);
    }
}

/// A search that stopped early found what it looked for.
pub proof fn lemma_op_idx_found(cs: Seq<ElemV>, i: int)
    requires
        0 <= i <= cs.len(),
        op_idx(cs, i) < cs.len(),
    ensures
        is_op_token(cs[op_idx(cs, i)]),
    decreases cs.len() - i,
{
    if i < cs.len() && !is_op_token(cs[i]) {
        lemma_op_idx_found(cs, i + 1);
    }
}

/// A search that stopped early found an expression child.
pub proof fn lemma_expr_idx_found(cs: Seq<ElemV>, n: int, i: int)
    requires
        0 <= i <= cs.len(),
        expr_idx(cs, n, i) < cs.len(),
    ensures
        is_expr_elem(cs[expr_idx(cs, n, i)]),
    decreases cs.len() - i,
{
    if i < cs.len() {
        if is_expr_elem(cs[i]) && n <= 0 {
        } else if is_expr_elem(cs[i]) {
            lemma_expr_idx_found(cs, n - 1, i + 1);
        } else {
            lemma_expr_idx_found(cs, n, i + 1);
        }
    }
}

/// The search finds the first match: no later witness comes before it.
pub proof fn lemma_tok_idx_min(cs: Seq<ElemV>, kind: SyntaxKind, i: int, j: int)
    requires
        0 <= i <= j < cs.len(),
        is_token_of(cs[j], kind),
    ensures
        tok_idx(cs, kind, i) <= j,
    decreases cs.len() - i,
{
    if !is_token_of(cs[i], kind) && i < j {
        lemma_tok_idx_min(cs, kind, i + 1, j);
    }
}

/// Counting from earlier in the children finds at least as many
/// expressions.
pub proof fn lemma_count_exprs_mono(cs: Seq<ElemV>, a: int, b: int)
    requires
        0 <= a <= b <= cs.len(),
    ensures
        crate::ast::count_exprs(cs, a) >= crate::ast::count_exprs(cs, b),
    decreases b - a,
{
    crate::ast::lemma_count_exprs_nonneg(cs, a);
    if a < b {
        lemma_count_exprs_mono(cs, a + 1, b);
        crate::ast::lemma_count_exprs_nonneg(cs, a + 1);
    }
}

/// Counts the children that can stand as expressions.
pub(crate) fn count_expr_children(cs: &Vec<SyntaxElement>) -> (r: usize)
    ensures
        r as int == crate::ast::count_exprs(elems_view(cs@, 0), 0),
{
    count_expr_children_from(cs, 0)
}

/// Counts the children from `start` on that can stand as expressions.
pub(crate) fn count_expr_children_from(cs: &Vec<SyntaxElement>, start: usize) -> (r: usize)
    ensures
        r as int == crate::ast::count_exprs(elems_view(cs@, 0), start as int),
{
    proof {
        crate::tree::lemma_elems_view_index(cs@, 0);
    }
    let ghost vs = elems_view(cs@, 0);
    let n = cs.len();
    if start > n {
        return 0;
    }
    let mut count: usize = 0;
    let mut i: usize = start;
    while i < n
        invariant
            vs == elems_view(cs@, 0),
            vs.len() == cs@.len(),
            forall|k: int| 0 <= k < cs@.len() ==> vs[k] == crate::tree::elem_view(cs@[k]),
            n == cs@.len(),
            start <= i <= n,
            count <= i,
            count as int + crate::ast::count_exprs(vs, i as int) == crate::ast::count_exprs(
                vs,
                start as int,
            ),
        decreases n - i,
    {
        let is_expr = match &cs[i] {
            SyntaxElement::Token(t) => {
                t.kind == SyntaxKind::Digits || t.kind == SyntaxKind::StringLiteral || t.kind
                    == SyntaxKind::Atom || t.kind == SyntaxKind::TrueKw || t.kind
                    == SyntaxKind::FalseKw
            },
            SyntaxElement::Node(nd) => {
                nd.kind == SyntaxKind::BinOp || nd.kind == SyntaxKind::If || nd.kind
                    == SyntaxKind::FunctionCall || nd.kind == SyntaxKind::Lambda || nd.kind
                    == SyntaxKind::BindingUsage || nd.kind == SyntaxKind::Block
            },
        };
        if is_expr {
            count = count + 1;
        }
        i = i + 1;
    }
    count
}

/// Decides whether a tree is shaped: every node has the children its
/// kind owes the evaluator.
#[verifier::rlimit(100)]
pub fn is_shaped(e: &SyntaxElement) -> (r: bool)
    ensures
        r == crate::ast::shaped(e@),
    decreases *e,
{
    let n = match e {
        SyntaxElement::Token(..) => {
            return true;
        },
        SyntaxElement::Node(n) => n,
    };
    let ghost vcs = node_children(e@);
    proof {
        crate::tree::lemma_elems_view_index(n.children@, 0);
        assert(vcs == elems_view(n.children@, 0));
    }
    let len = n.children.len();
    let mut i: usize = 0;
    let mut all = true;
    while i < len
        invariant
            *e == SyntaxElement::Node(*n),
            vcs == elems_view(n.children@, 0),
            vcs.len() == n.children@.len(),
            forall|k: int|
                0 <= k < n.children@.len() ==> vcs[k] == crate::tree::elem_view(n.children@[k]),
            len == n.children@.len(),
            i <= len,
            all ==> forall|k: int| 0 <= k < i ==> crate::ast::shaped(#[trigger] vcs[k]),
            !all ==> !crate::ast::shaped_from(vcs, 0),
        decreases len - i,
    {
        proof {
            assert(decreases_to!(*e => (*e)->Node_0));
            assert((*e)->Node_0 == *n);
            assert(decreases_to!(*n => n.children));
            assert(decreases_to!(n.children => n.children@));
            assert(decreases_to!(n.children@ => n.children@[i as int]));
        }
        let ok = is_shaped(&n.children[i]);
        if !ok {
            proof {
                if crate::ast::shaped_from(vcs, 0) {
                    crate::ast::lemma_shaped_at(vcs, 0, i as int);
                }
            }
            all = false;
            i = len;
        } else {
            i = i + 1;
        }
    }
    if !all {
        return false;
    }
    proof {
        crate::ast::lemma_all_shaped(vcs, 0);
        assert(crate::ast::shaped_from(vcs, 0));
    }
    let arity = if n.kind == SyntaxKind::BinOp {
        let c = count_expr_children(&n.children);
        let oi = find_op(&n.children);
        proof {
            if oi < len {
                lemma_op_idx_found(vcs, 0);
            } else {
                lemma_op_idx_none(vcs, 0);
            }
        }
        c >= 2 && oi < len
    } else if n.kind == SyntaxKind::If {
        count_expr_children(&n.children) >= 3
    } else if n.kind == SyntaxKind::FunctionCall {
        let ti = find_tok(&n.children, SyntaxKind::Atom);
        let pi = find_node(&n.children, SyntaxKind::FunctionCallParams);
        proof {
            if ti >= len {
                lemma_tok_idx_none(vcs, SyntaxKind::Atom, 0);
            } else {
                lemma_tok_idx_found(vcs, SyntaxKind::Atom, 0);
            }
            if pi >= len {
                lemma_node_idx_none(vcs, SyntaxKind::FunctionCallParams, 0);
            } else {
                lemma_node_idx_found(vcs, SyntaxKind::FunctionCallParams, 0);
            }
        }
        ti < len && pi < len
    } else if n.kind == SyntaxKind::Lambda {
        let pi = find_node(&n.children, SyntaxKind::LambdaParams);
        proof {
            if pi >= len {
                lemma_node_idx_none(vcs, SyntaxKind::LambdaParams, 0);
            } else {
                lemma_node_idx_found(vcs, SyntaxKind::LambdaParams, 0);
            }
        }
        pi < len && count_expr_children(&n.children) >= 1
    } else if n.kind == SyntaxKind::BindingUsage {
        let ti = find_tok(&n.children, SyntaxKind::Atom);
        proof {
            if ti >= len {
                lemma_tok_idx_none(vcs, SyntaxKind::Atom, 0);
            } else {
                lemma_tok_idx_found(vcs, SyntaxKind::Atom, 0);
            }
        }
        ti < len
    } else if n.kind == SyntaxKind::BindingDef {
        let ti = find_tok(&n.children, SyntaxKind::Atom);
        let ok = if ti < len {
            count_expr_children_from(&n.children, ti + 1) >= 1
        } else {
            false
        };
        proof {
            if ti >= len {
                lemma_tok_idx_none(vcs, SyntaxKind::Atom, 0);
            } else {
                lemma_tok_idx_found(vcs, SyntaxKind::Atom, 0);
                if ok {
                } else {
                    if crate::ast::arity_ok(SyntaxKind::BindingDef, vcs) {
                        let j = choose|j: int|
                            0 <= j < vcs.len() && is_token_of(#[trigger] vcs[j], SyntaxKind::Atom)
                                && crate::ast::count_exprs(vcs, j + 1) >= 1;
                        lemma_tok_idx_min(vcs, SyntaxKind::Atom, 0, j);
                        lemma_count_exprs_mono(vcs, ti as int + 1, j + 1);
                        assert(false);
                    }
                }
            }
        }
        ok
    } else {
        true
    };
    proof {
        assert(arity == crate::ast::arity_ok(n.kind, vcs));
    }
    arity
}

/// Evaluates the items of a root or block element in order under the
/// given environment; the value is the last item's.
pub fn eval_item_children(
    e: &SyntaxElement,
    env: &mut Env,
    fuel: u64,
    outcomes: &Vec<bool>,
) -> (r: Result<Val, EvalStop>)
    requires
        old(env).wf(),
        env_ok(old(env).view_scopes()),
        crate::ast::shaped(e@),
        e@ matches ElemV::Node { .. },
    ensures
        final(env).wf(),
        env_ok(final(env).view_scopes()),
        final(env).view_cmds() == old(env).view_cmds(),
        ({
            let s = sp_items(
                fuel as nat,
                node_children(e@),
                0,
                ValV::Nil,
                old(env).view_scopes(),
                old(env).view_cmds(),
                outcomes@,
                0,
            );
            out_rel(r, s.out) && final(env).view_scopes() == s.env
        }),
{
    let n = match e {
        SyntaxElement::Node(n) => n,
        _ => unreached(),
    };
    proof {
        crate::tree::lemma_elems_view_index(n.children@, 0);
        assert(node_children(e@) == elems_view(n.children@, 0));
    }
    let mut used: usize = 0;
    ev_items(&n.children, 0, Val::Nil, env, fuel, outcomes, &mut used)
}

/// Why a whole run of source text failed: a parse that found syntax
/// errors is distinguishable from an evaluation that failed.
#[derive(Debug)]
pub enum Error {
    /// the parser found these syntax errors; nothing was evaluated
    Parse(Vec<crate::parser::SyntaxError>),
    /// evaluation failed with this located error
    Eval(EvalError),
    /// a command must be spawned, and its outcome appended to the
    /// outcome list, before another run can finish
    Pending(PendingCommand),
    /// the fuel bound on evaluation steps ran out
    OutOfFuel,
}

/// A whole-run result agrees with how a specification step ended.
pub open spec fn res_rel(r: Result<Val, Error>, out: Outcome) -> bool {
    match r {
        Result::Ok(v) => out matches Outcome::Val(vv) && v@ == vv,
        Result::Err(Error::Eval(e)) => out matches Outcome::Fail(ee) && e == ee,
        Result::Err(Error::Pending(p)) => out matches Outcome::Pending(path, args) && p.path@
            == path && p.args.deep_view() == args,
        Result::Err(Error::OutOfFuel) => out is OutOfFuel,
        Result::Err(Error::Parse(..)) => false,
    }
}

/// The tree that parsing a source text yields: the grammar's word on
/// the lexer's word.
pub open spec fn parse_tree_of(source: Seq<char>) -> ElemV {
    crate::parser::grammar::pp_root(crate::lexer::lex_spec(source, 0)).added[0]
}

/// How many syntax errors parsing a source text records.
pub open spec fn parse_errs_of(source: Seq<char>) -> int {
    crate::parser::grammar::pp_root(crate::lexer::lex_spec(source, 0)).errs
}

/// Parses and evaluates source text under the given environment. A
/// parse that found syntax errors reports them all and evaluates
/// nothing; otherwise the items of the tree the grammar assigns to the
/// source — lossless, shaped, and pinned by `parse_tree_of` — are
/// evaluated in order.
pub fn eval(source: &str, env: &mut Env, fuel: u64, outcomes: &Vec<bool>) -> (r: Result<
    Val,
    Error,
>)
    requires
        old(env).wf(),
        env_ok(old(env).view_scopes()),
    ensures
        final(env).wf(),
        env_ok(final(env).view_scopes()),
        final(env).view_cmds() == old(env).view_cmds(),
        (r matches Result::Err(Error::Parse(..))) <==> parse_errs_of(source@) != 0,
        r matches Result::Err(Error::Parse(errs)) ==> errs@.len() == parse_errs_of(source@)
            && final(env).view_scopes() == old(env).view_scopes(),
        !(r matches Result::Err(Error::Parse(..))) ==> ({
            let root = parse_tree_of(source@);
            &&& root.wf_at(0)
            &&& root.kind() == SyntaxKind::Root
            &&& root.text() == source@
            &&& crate::ast::shaped(root)
            &&& ({
                let s = sp_items(
                    fuel as nat,
                    node_children(root),
                    0,
                    ValV::Nil,
                    old(env).view_scopes(),
                    old(env).view_cmds(),
                    outcomes@,
                    0,
                );
                res_rel(r, s.out) && final(env).view_scopes() == s.env
            })
        }),
{
    let p = crate::parser::Parser::new(source);
    proof {
        p.lemma_views_are_lex_spec();
    }
    let out = p.parse();
    if out.errors.len() > 0 {
        return Err(Error::Parse(out.errors));
    }
    let ghost rootv = out.root@;
    proof {
        assert(rootv == parse_tree_of(source@));
    }
    let r = eval_item_children(&out.root, env, fuel, outcomes);
    match r {
        Ok(v) => {
            proof {
                assert(rootv matches ElemV::Node { .. });
            }
            Ok(v)
        },
        Err(EvalStop::Error(e)) => Err(Error::Eval(e)),
        Err(EvalStop::Pending(pc)) => Err(Error::Pending(pc)),
        Err(EvalStop::OutOfFuel) => Err(Error::OutOfFuel),
    }
}

} // verus!
