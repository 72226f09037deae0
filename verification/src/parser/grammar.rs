//! The grammar as mathematics: a specification-level parser over the
//! lexeme records the lexer is specified by. For every lexeme sequence
//! it says which lexemes each construct consumes, which children it
//! emits, and how many errors it records — so the executable parser's
//! output is pinned exactly, recovery paths included.

use vstd::prelude::*;

use crate::lexer::LexemeV;
use crate::parser::expr::{infix_bp_spec, Op};
use crate::syntax_kind::SyntaxKind;
use crate::text_range::TextRange;
use crate::tree::ElemV;

verus! {

/// One parsing step: the position after it, the children it appended
/// at the current level, and how many errors it recorded.
pub struct PStep {
    /// the position after the step
    pub pos: int,
    /// the children the step appended, in order
    pub added: Seq<ElemV>,
    /// how many errors the step recorded
    pub errs: int,
}

/// An operator scan: the operator found, if any, besides a step's
/// usual outcome.
pub struct ScanR {
    /// the operator the scan stopped at, if it found one
    pub op: Option<Op>,
    /// the position after the scan
    pub pos: int,
    /// the error tokens the scan consumed, in order
    pub added: Seq<ElemV>,
    /// how many errors the scan recorded
    pub errs: int,
}

/// The kind of the lexeme at `pos`, if there is one.
pub open spec fn k_at(ls: Seq<LexemeV>, pos: int) -> Option<SyntaxKind> {
    if 0 <= pos < ls.len() {
        Some(ls[pos].kind)
    } else {
        None
    }
}

/// The text offset once `pos` lexemes are consumed.
pub open spec fn off_at(ls: Seq<LexemeV>, pos: int) -> int {
    let p = if pos > ls.len() {
        ls.len() as int
    } else {
        pos
    };
    if p <= 0 || ls.len() == 0 {
        0
    } else {
        ls[p - 1].start + ls[p - 1].text.len()
    }
}

/// The lexeme at `pos` as a leaf, under its own kind.
pub open spec fn tok_at(ls: Seq<LexemeV>, pos: int) -> ElemV {
    ElemV::Token {
        kind: ls[pos].kind,
        text: ls[pos].text,
        range: TextRange {
            start: ls[pos].start as usize,
            end: (ls[pos].start + ls[pos].text.len()) as usize,
        },
    }
}

/// The lexeme at `pos` as a leaf, demoted to an `Error` token.
pub open spec fn err_tok_at(ls: Seq<LexemeV>, pos: int) -> ElemV {
    ElemV::Token {
        kind: SyntaxKind::Error,
        text: ls[pos].text,
        range: TextRange {
            start: ls[pos].start as usize,
            end: (ls[pos].start + ls[pos].text.len()) as usize,
        },
    }
}

/// A node covering `start..end` with the given children.
pub open spec fn mk_node(kind: SyntaxKind, start: int, end: int, children: Seq<ElemV>) -> ElemV {
    ElemV::Node {
        kind,
        range: TextRange { start: start as usize, end: end as usize },
        children,
    }
}

/// A position bumped to at least `lo` and at most the input's length.
pub open spec fn step_pos(ls: Seq<LexemeV>, p: int, lo: int) -> int {
    let q = if p < lo {
        lo
    } else {
        p
    };
    if q > ls.len() {
        ls.len() as int
    } else {
        q
    }
}

/// Consumes a run of whitespace lexemes.
pub open spec fn pp_skip_ws(ls: Seq<LexemeV>, pos: int) -> PStep
    decreases ls.len() - pos,
{
    if 0 <= pos < ls.len() && ls[pos].kind == SyntaxKind::Whitespace {
        let r = pp_skip_ws(ls, pos + 1);
        PStep { pos: r.pos, added: seq![tok_at(ls, pos)] + r.added, errs: 0 }
    } else {
        PStep { pos, added: Seq::empty(), errs: 0 }
    }
}

/// Consumes a run of whitespace and line-break lexemes.
pub open spec fn pp_skip_ws_eol(ls: Seq<LexemeV>, pos: int) -> PStep
    decreases ls.len() - pos,
{
    if 0 <= pos < ls.len() && (ls[pos].kind == SyntaxKind::Whitespace || ls[pos].kind
        == SyntaxKind::Eol) {
        let r = pp_skip_ws_eol(ls, pos + 1);
        PStep { pos: r.pos, added: seq![tok_at(ls, pos)] + r.added, errs: 0 }
    } else {
        PStep { pos, added: Seq::empty(), errs: 0 }
    }
}

/// Records one error: the offending lexeme is consumed as an `Error`
/// token, unless the line or the input ends here.
pub open spec fn pp_error(ls: Seq<LexemeV>, pos: int) -> PStep {
    match k_at(ls, pos) {
        Some(SyntaxKind::Eol) | None => PStep { pos, added: Seq::empty(), errs: 1 },
        Some(..) => PStep { pos: pos + 1, added: seq![err_tok_at(ls, pos)], errs: 1 },
    }
}

/// Scans for the next operator, consuming and reporting everything
/// that is neither an operator nor an end of line, brace or input.
pub open spec fn pp_scan_op(ls: Seq<LexemeV>, pos: int) -> ScanR
    decreases ls.len() - pos,
{
    match k_at(ls, pos) {
        Some(SyntaxKind::Plus) => ScanR { op: Some(Op::Add), pos, added: Seq::empty(), errs: 0 },
        Some(SyntaxKind::Minus) => ScanR { op: Some(Op::Sub), pos, added: Seq::empty(), errs: 0 },
        Some(SyntaxKind::Star) => ScanR { op: Some(Op::Mul), pos, added: Seq::empty(), errs: 0 },
        Some(SyntaxKind::Slash) => ScanR { op: Some(Op::Div), pos, added: Seq::empty(), errs: 0 },
        Some(SyntaxKind::Eol) | Some(SyntaxKind::RBrace) | None => ScanR {
            op: None,
            pos,
            added: Seq::empty(),
            errs: 0,
        },
        Some(..) => {
            let r = pp_scan_op(ls, pos + 1);
            ScanR {
                op: r.op,
                pos: r.pos,
                added: seq![err_tok_at(ls, pos)] + r.added,
                errs: 1 + r.errs,
            }
        },
    }
}

/// Consumes a lambda's parameter names after the opening pipe: atoms
/// and the closing pipe, reporting anything else.
pub open spec fn pp_lambda_params(ls: Seq<LexemeV>, pos: int) -> PStep
    decreases ls.len() - pos,
{
    match k_at(ls, pos) {
        None => PStep { pos, added: Seq::empty(), errs: 0 },
        Some(SyntaxKind::Atom) => {
            let w = pp_skip_ws(ls, pos + 1);
            let r = pp_lambda_params(ls, step_pos(ls, w.pos, pos + 1));
            PStep { pos: r.pos, added: seq![tok_at(ls, pos)] + w.added + r.added, errs: r.errs }
        },
        Some(SyntaxKind::Pipe) => PStep { pos: pos + 1, added: seq![tok_at(ls, pos)], errs: 0 },
        Some(SyntaxKind::Eol) => PStep { pos, added: Seq::empty(), errs: 1 },
        Some(..) => {
            let w = pp_skip_ws(ls, pos + 1);
            let r = pp_lambda_params(ls, step_pos(ls, w.pos, pos + 1));
            PStep {
                pos: r.pos,
                added: seq![err_tok_at(ls, pos)] + w.added + r.added,
                errs: 1 + r.errs,
            }
        },
    }
}

/// Parses one item: a binding definition where `let` begins it, an
/// expression otherwise.
pub open spec fn pp_item(ls: Seq<LexemeV>, pos: int) -> PStep
    decreases ls.len() - pos, 18int,
{
    if pos < 0 || pos > ls.len() {
        PStep { pos, added: Seq::empty(), errs: 0 }
    } else {
        match k_at(ls, pos) {
            Some(SyntaxKind::Let) => pp_statement(ls, pos),
            _ => pp_expr(ls, pos),
        }
    }
}

/// Parses a `let NAME = EXPR` binding definition, recovering on a
/// malformed name, equals sign or right-hand side.
pub open spec fn pp_statement(ls: Seq<LexemeV>, pos: int) -> PStep
    decreases ls.len() - pos, 16int,
{
    if pos < 0 || pos > ls.len() {
        PStep { pos, added: Seq::empty(), errs: 0 }
    } else {
        if k_at(ls, pos) != Some(SyntaxKind::Let) {
            PStep { pos, added: Seq::empty(), errs: 0 }
        } else {
            let start = off_at(ls, pos);
            let p1 = pos + 1;
            let w1 = pp_skip_ws(ls, p1);
            let p2 = step_pos(ls, w1.pos, p1);
            let name = if k_at(ls, p2) == Some(SyntaxKind::Atom) {
                PStep { pos: p2 + 1, added: seq![tok_at(ls, p2)], errs: 0 }
            } else {
                pp_error(ls, p2)
            };
            let p3 = step_pos(ls, name.pos, p2);
            let w2 = pp_skip_ws(ls, p3);
            let p4 = step_pos(ls, w2.pos, p3);
            let eq = if k_at(ls, p4) == Some(SyntaxKind::Equals) {
                PStep { pos: p4 + 1, added: seq![tok_at(ls, p4)], errs: 0 }
            } else {
                pp_error(ls, p4)
            };
            let p5 = step_pos(ls, eq.pos, p4);
            let w3 = pp_skip_ws(ls, p5);
            let p6 = step_pos(ls, w3.pos, p5);
            let rhs = pp_expr(ls, step_pos(ls, p6, pos + 1));
            let children = seq![tok_at(ls, pos)] + w1.added + name.added + w2.added + eq.added
                + w3.added + rhs.added;
            PStep {
                pos: rhs.pos,
                added: seq![
                    mk_node(SyntaxKind::BindingDef, start, off_at(ls, rhs.pos), children),
                ],
                errs: name.errs + eq.errs + rhs.errs,
            }
        }
    }
}

/// Parses an expression.
pub open spec fn pp_expr(ls: Seq<LexemeV>, pos: int) -> PStep
    decreases ls.len() - pos, 14int,
{
    if pos < 0 || pos > ls.len() {
        PStep { pos, added: Seq::empty(), errs: 0 }
    } else {
        pp_expr_bp(ls, pos, 0)
    }
}

/// Parses an expression whose operators bind at least as tightly as
/// `min_bp`.
pub open spec fn pp_expr_bp(ls: Seq<LexemeV>, pos: int, min_bp: u8) -> PStep
    decreases ls.len() - pos, 12int,
{
    if pos < 0 || pos > ls.len() {
        PStep { pos, added: Seq::empty(), errs: 0 }
    } else {
        let r1 = pp_one_expr(ls, pos);
        let w = pp_skip_ws(ls, step_pos(ls, r1.pos, pos));
        proof {
            assert(pos <= step_pos(ls, w.pos, pos) <= ls.len());
        }
        let lp = pp_bp_loop(ls, step_pos(ls, w.pos, pos), min_bp, r1.added + w.added);
        PStep { pos: lp.pos, added: lp.added, errs: r1.errs + lp.errs }
    }
}

/// The precedence-climbing fold: as long as an operator at or above
/// `min_bp` appears, everything parsed since the fold began is wrapped
/// into an operation node with that operator and its right operand.
pub open spec fn pp_bp_loop(ls: Seq<LexemeV>, pos: int, min_bp: u8, acc: Seq<ElemV>) -> PStep
    decreases ls.len() - pos, 11int,
{
    if pos < 0 || pos > ls.len() {
        PStep { pos, added: acc, errs: 0 }
    } else {
        let s = pp_scan_op(ls, pos);
        match s.op {
            None => PStep { pos: s.pos, added: acc + s.added, errs: s.errs },
            Some(op) => {
                let bp = infix_bp_spec(op);
                if bp.0 < min_bp {
                    PStep { pos: s.pos, added: acc + s.added, errs: s.errs }
                } else {
                    proof {
                        lemma_scan_op_in_range(ls, pos);
                    }
                    let acc1 = acc + s.added;
                    let sp = step_pos(ls, s.pos, pos);
                    let wrap_start = if acc1.len() > 0 {
                        acc1[0].range().start as int
                    } else {
                        off_at(ls, sp)
                    };
                    let optok = tok_at(ls, sp);
                    let w = pp_skip_ws(ls, sp + 1);
                    proof {
                        assert(pos + 1 <= step_pos(ls, w.pos, pos + 1) <= ls.len());
                    }
                    let r = pp_expr_bp(ls, step_pos(ls, w.pos, pos + 1), bp.1);
                    let node = mk_node(
                        SyntaxKind::BinOp,
                        wrap_start,
                        off_at(ls, r.pos),
                        acc1 + seq![optok] + w.added + r.added,
                    );
                    proof {
                        assert(pos + 1 <= step_pos(ls, r.pos, pos + 1) <= ls.len());
                    }
                    let rec = pp_bp_loop(ls, step_pos(ls, r.pos, pos + 1), min_bp, seq![node]);
                    PStep { pos: rec.pos, added: rec.added, errs: s.errs + r.errs + rec.errs }
                }
            },
        }
    }
}

/// A scan that found an operator began inside the input.
pub proof fn lemma_scan_op_in_range(ls: Seq<LexemeV>, pos: int)
    requires
        pp_scan_op(ls, pos).op is Some,
    ensures
        0 <= pos < ls.len(),
{
    if !(0 <= pos < ls.len()) {
        assert(pp_scan_op(ls, pos).op is None);
    }
}

/// Parses one operand: a contained expression, a function call, or a
/// lambda.
pub open spec fn pp_one_expr(ls: Seq<LexemeV>, pos: int) -> PStep
    decreases ls.len() - pos, 10int,
{
    if pos < 0 || pos > ls.len() {
        PStep { pos, added: Seq::empty(), errs: 0 }
    } else {
        match k_at(ls, pos) {
            Some(SyntaxKind::Digits) | Some(SyntaxKind::StringLiteral) | Some(SyntaxKind::Dollar)
                | Some(SyntaxKind::TrueKw) | Some(SyntaxKind::FalseKw) | Some(SyntaxKind::LBrace)
                | Some(SyntaxKind::IfKw) => pp_contained(ls, pos),
            Some(SyntaxKind::Atom) => pp_fc(ls, pos),
            Some(SyntaxKind::Pipe) => pp_lambda(ls, pos),
            _ => pp_error(ls, pos),
        }
    }
}

/// Parses an expression that needs no terminator.
pub open spec fn pp_contained(ls: Seq<LexemeV>, pos: int) -> PStep
    decreases ls.len() - pos, 6int,
{
    if pos < 0 || pos > ls.len() {
        PStep { pos, added: Seq::empty(), errs: 0 }
    } else {
        match k_at(ls, pos) {
            Some(SyntaxKind::Digits) | Some(SyntaxKind::StringLiteral) | Some(SyntaxKind::Atom)
                | Some(SyntaxKind::TrueKw) | Some(SyntaxKind::FalseKw) => PStep {
                pos: pos + 1,
                added: seq![tok_at(ls, pos)],
                errs: 0,
            },
            Some(SyntaxKind::Dollar) => pp_busage(ls, pos),
            Some(SyntaxKind::LBrace) => pp_block(ls, pos),
            Some(SyntaxKind::IfKw) => pp_if(ls, pos),
            _ => pp_error(ls, pos),
        }
    }
}

/// Parses a `$name` binding usage, keeping a junk name as an `Error`
/// token.
pub open spec fn pp_busage(ls: Seq<LexemeV>, pos: int) -> PStep
    decreases ls.len() - pos, 4int,
{
    if pos < 0 || pos > ls.len() {
        PStep { pos, added: Seq::empty(), errs: 0 }
    } else {
        if k_at(ls, pos) != Some(SyntaxKind::Dollar) {
            PStep { pos, added: Seq::empty(), errs: 0 }
        } else {
            let start = off_at(ls, pos);
            let inner = if k_at(ls, pos + 1) == Some(SyntaxKind::Atom) {
                PStep { pos: pos + 2, added: seq![tok_at(ls, pos + 1)], errs: 0 }
            } else {
                pp_error(ls, pos + 1)
            };
            let children = seq![tok_at(ls, pos)] + inner.added;
            PStep {
                pos: inner.pos,
                added: seq![
                    mk_node(SyntaxKind::BindingUsage, start, off_at(ls, inner.pos), children),
                ],
                errs: inner.errs,
            }
        }
    }
}

/// Parses an `if COND then EXPR else EXPR` conditional, recovering on
/// a missing keyword.
pub open spec fn pp_if(ls: Seq<LexemeV>, pos: int) -> PStep
    decreases ls.len() - pos, 4int,
{
    if pos < 0 || pos > ls.len() {
        PStep { pos, added: Seq::empty(), errs: 0 }
    } else {
        if k_at(ls, pos) != Some(SyntaxKind::IfKw) {
            PStep { pos, added: Seq::empty(), errs: 0 }
        } else {
            let start = off_at(ls, pos);
            let p1 = pos + 1;
            let w1 = pp_skip_ws(ls, p1);
            let cond = pp_contained(ls, step_pos(ls, w1.pos, p1));
            let p2 = step_pos(ls, cond.pos, p1);
            let w2 = pp_skip_ws(ls, p2);
            let p3 = step_pos(ls, w2.pos, p2);
            let thn = if k_at(ls, p3) == Some(SyntaxKind::ThenKw) {
                PStep { pos: p3 + 1, added: seq![tok_at(ls, p3)], errs: 0 }
            } else {
                pp_error(ls, p3)
            };
            let p4 = step_pos(ls, thn.pos, p3);
            let w3 = pp_skip_ws(ls, p4);
            let tb = pp_contained(ls, step_pos(ls, w3.pos, p1));
            let p5 = step_pos(ls, tb.pos, p1);
            let w4 = pp_skip_ws(ls, p5);
            let p6 = step_pos(ls, w4.pos, p5);
            let els = if k_at(ls, p6) == Some(SyntaxKind::ElseKw) {
                PStep { pos: p6 + 1, added: seq![tok_at(ls, p6)], errs: 0 }
            } else {
                pp_error(ls, p6)
            };
            let p7 = step_pos(ls, els.pos, p6);
            let w5 = pp_skip_ws(ls, p7);
            let fb = pp_contained(ls, step_pos(ls, w5.pos, p1));
            let children = seq![tok_at(ls, pos)] + w1.added + cond.added + w2.added + thn.added
                + w3.added + tb.added + w4.added + els.added + w5.added + fb.added;
            PStep {
                pos: fb.pos,
                added: seq![mk_node(SyntaxKind::If, start, off_at(ls, fb.pos), children)],
                errs: cond.errs + thn.errs + tb.errs + els.errs + fb.errs,
            }
        }
    }
}

/// Parses a function call: a name, then whitespace-separated argument
/// expressions until the line, a block, or the input ends.
pub open spec fn pp_fc(ls: Seq<LexemeV>, pos: int) -> PStep
    decreases ls.len() - pos, 8int,
{
    if pos < 0 || pos > ls.len() {
        PStep { pos, added: Seq::empty(), errs: 0 }
    } else {
        if k_at(ls, pos) != Some(SyntaxKind::Atom) {
            PStep { pos, added: Seq::empty(), errs: 0 }
        } else {
            let start = off_at(ls, pos);
            let p1 = pos + 1;
            let w = pp_skip_ws(ls, p1);
            let p2 = step_pos(ls, w.pos, p1);
            let params_start = off_at(ls, p2);
            let a = pp_fc_args(ls, p2);
            let params = mk_node(
                SyntaxKind::FunctionCallParams,
                params_start,
                off_at(ls, a.pos),
                a.added,
            );
            let children = seq![tok_at(ls, pos)] + w.added + seq![params];
            PStep {
                pos: a.pos,
                added: seq![
                    mk_node(SyntaxKind::FunctionCall, start, off_at(ls, a.pos), children),
                ],
                errs: a.errs,
            }
        }
    }
}

/// Parses a call's argument expressions.
pub open spec fn pp_fc_args(ls: Seq<LexemeV>, pos: int) -> PStep
    decreases ls.len() - pos, 9int,
{
    if pos < 0 || pos > ls.len() {
        PStep { pos, added: Seq::empty(), errs: 0 }
    } else {
        match k_at(ls, pos) {
            None | Some(SyntaxKind::Eol) | Some(SyntaxKind::RBrace) => PStep {
                pos,
                added: Seq::empty(),
                errs: 0,
            },
            _ => {
                let c = pp_contained(ls, pos);
                let w = pp_skip_ws(ls, step_pos(ls, c.pos, pos));
                let r = pp_fc_args(ls, step_pos(ls, w.pos, pos + 1));
                PStep { pos: r.pos, added: c.added + w.added + r.added, errs: c.errs + r.errs }
            },
        }
    }
}

/// Parses a `|params| body` lambda literal.
pub open spec fn pp_lambda(ls: Seq<LexemeV>, pos: int) -> PStep
    decreases ls.len() - pos, 8int,
{
    if pos < 0 || pos > ls.len() {
        PStep { pos, added: Seq::empty(), errs: 0 }
    } else {
        if k_at(ls, pos) != Some(SyntaxKind::Pipe) {
            PStep { pos, added: Seq::empty(), errs: 0 }
        } else {
            let start = off_at(ls, pos);
            let p1 = pos + 1;
            let w0 = pp_skip_ws(ls, p1);
            let pl = pp_lambda_params(ls, step_pos(ls, w0.pos, p1));
            let params_children = seq![tok_at(ls, pos)] + w0.added + pl.added;
            let p2 = step_pos(ls, pl.pos, p1);
            let params = mk_node(SyntaxKind::LambdaParams, start, off_at(ls, p2), params_children);
            let w1 = pp_skip_ws(ls, p2);
            let body = pp_expr(ls, step_pos(ls, w1.pos, pos + 1));
            let children = seq![params] + w1.added + body.added;
            PStep {
                pos: body.pos,
                added: seq![
                    mk_node(SyntaxKind::Lambda, start, off_at(ls, body.pos), children),
                ],
                errs: pl.errs + body.errs,
            }
        }
    }
}

/// Parses a `{ items }` block.
pub open spec fn pp_block(ls: Seq<LexemeV>, pos: int) -> PStep
    decreases ls.len() - pos, 2int,
{
    if pos < 0 || pos > ls.len() {
        PStep { pos, added: Seq::empty(), errs: 0 }
    } else {
        if k_at(ls, pos) != Some(SyntaxKind::LBrace) {
            PStep { pos, added: Seq::empty(), errs: 0 }
        } else {
            let start = off_at(ls, pos);
            let p1 = pos + 1;
            let w = pp_skip_ws_eol(ls, p1);
            let items = pp_block_items(ls, step_pos(ls, w.pos, p1));
            let p2 = step_pos(ls, items.pos, p1);
            let close = if k_at(ls, p2) == Some(SyntaxKind::RBrace) {
                PStep { pos: p2 + 1, added: seq![tok_at(ls, p2)], errs: 0 }
            } else {
                pp_error(ls, p2)
            };
            let children = seq![tok_at(ls, pos)] + w.added + items.added + close.added;
            PStep {
                pos: close.pos,
                added: seq![
                    mk_node(SyntaxKind::Block, start, off_at(ls, close.pos), children),
                ],
                errs: items.errs + close.errs,
            }
        }
    }
}

/// Parses a block's item sequence: one item per line until the block
/// closes or the input ends.
pub open spec fn pp_block_items(ls: Seq<LexemeV>, pos: int) -> PStep
    decreases ls.len() - pos, 19int,
{
    if pos < 0 || pos > ls.len() {
        PStep { pos, added: Seq::empty(), errs: 0 }
    } else {
        match k_at(ls, pos) {
            None | Some(SyntaxKind::RBrace) => PStep { pos, added: Seq::empty(), errs: 0 },
            _ => {
                let it = pp_item(ls, pos);
                let w = pp_skip_ws(ls, step_pos(ls, it.pos, pos));
                let p2 = step_pos(ls, w.pos, pos);
                match k_at(ls, p2) {
                    Some(SyntaxKind::Eol) => {
                        let r = pp_block_items(ls, step_pos(ls, p2 + 1, pos + 1));
                        PStep {
                            pos: r.pos,
                            added: it.added + w.added + seq![tok_at(ls, p2)] + r.added,
                            errs: it.errs + r.errs,
                        }
                    },
                    Some(SyntaxKind::RBrace) | None => PStep {
                        pos: p2,
                        added: it.added + w.added,
                        errs: it.errs,
                    },
                    _ => {
                        let e = pp_error(ls, p2);
                        let r = pp_block_items(ls, step_pos(ls, e.pos, pos + 1));
                        PStep {
                            pos: r.pos,
                            added: it.added + w.added + e.added + r.added,
                            errs: it.errs + 1 + r.errs,
                        }
                    },
                }
            },
        }
    }
}

/// Parses the top-level item sequence: one item per line until the
/// input ends.
pub open spec fn pp_root_items(ls: Seq<LexemeV>, pos: int) -> PStep
    decreases ls.len() - pos, 20int,
{
    if pos < 0 || pos > ls.len() {
        PStep { pos, added: Seq::empty(), errs: 0 }
    } else {
        match k_at(ls, pos) {
            None => PStep { pos, added: Seq::empty(), errs: 0 },
            _ => {
                let it = pp_item(ls, pos);
                let w = pp_skip_ws(ls, step_pos(ls, it.pos, pos));
                let p2 = step_pos(ls, w.pos, pos);
                match k_at(ls, p2) {
                    Some(SyntaxKind::Eol) => {
                        let r = pp_root_items(ls, step_pos(ls, p2 + 1, pos + 1));
                        PStep {
                            pos: r.pos,
                            added: it.added + w.added + seq![tok_at(ls, p2)] + r.added,
                            errs: it.errs + r.errs,
                        }
                    },
                    None => PStep { pos: p2, added: it.added + w.added, errs: it.errs },
                    _ => {
                        let e = pp_error(ls, p2);
                        let r = pp_root_items(ls, step_pos(ls, e.pos, pos + 1));
                        PStep {
                            pos: r.pos,
                            added: it.added + w.added + e.added + r.added,
                            errs: it.errs + 1 + r.errs,
                        }
                    },
                }
            },
        }
    }
}

/// The whole parse: the `Root` tree a lexeme sequence yields, and how
/// many errors parsing it records.
pub open spec fn pp_root(ls: Seq<LexemeV>) -> PStep {
    let w = pp_skip_ws_eol(ls, 0);
    let items = pp_root_items(ls, step_pos(ls, w.pos, 0));
    PStep {
        pos: items.pos,
        added: seq![
            mk_node(
                SyntaxKind::Root,
                0,
                off_at(ls, ls.len() as int),
                w.added + items.added,
            ),
        ],
        errs: items.errs,
    }
}

} // verus!
