//! Expression parsing: a precedence-climbing core over the binary
//! operators, with the primary forms around it.

use vstd::prelude::*;

use crate::ast::{
    count_exprs, expr_run, is_expr_elem, is_node_of, is_op_token, is_token_of,
    lemma_concat_shape, lemma_expr_run_facts, lemma_shaped_push, lemma_single_elem,
    lemma_trivia_run, shaped, shaped_from,
};
use crate::parser::Parser;
use crate::syntax_kind::SyntaxKind;
use crate::tree::ElemV;

verus! {

/// A binary arithmetic operator.
#[derive(Debug, Clone, Copy, PartialEq, Eq, Structural)]
pub enum Op {
    /// `+`
    Add,
    /// `-`
    Sub,
    /// `*`
    Mul,
    /// `/`
    Div,
}

/// The token kind an operator is written with.
pub open spec fn op_kind(op: Op) -> SyntaxKind {
    match op {
        Op::Add => SyntaxKind::Plus,
        Op::Sub => SyntaxKind::Minus,
        Op::Mul => SyntaxKind::Star,
        Op::Div => SyntaxKind::Slash,
    }
}

/// The binding powers of an operator: multiplication and division bind
/// tighter than addition and subtraction, and all four associate to the
/// left.
pub open spec fn infix_bp_spec(op: Op) -> (u8, u8) {
    match op {
        Op::Add | Op::Sub => (1u8, 2u8),
        Op::Mul | Op::Div => (3u8, 4u8),
    }
}

/// The binding powers of an operator.
pub fn infix_bp(op: Op) -> (r: (u8, u8))
    ensures
        r == infix_bp_spec(op),
{
    match op {
        Op::Add | Op::Sub => (1, 2),
        Op::Mul | Op::Div => (3, 4),
    }
}

/// Scans for the next binary operator, recording an error for, and
/// consuming, every lexeme that is neither an operator nor the end of
/// the line.
fn scan_op(p: &mut Parser) -> (r: Option<Op>)
    requires
        old(p).inv(),
        old(p).builder.depth() > 0,
    ensures
        old(p).carries(*final(p)),
        old(p).errors_eq(*final(p)) ==> old(p).added(*final(p)) =~= Seq::<ElemV>::empty(),
        match r {
            Some(op) => final(p).peek_spec() == Some(op_kind(op)),
            None => final(p).peek_spec() is None || final(p).peek_spec() == Some(SyntaxKind::Eol)
                || final(p).peek_spec() == Some(SyntaxKind::RBrace),
        },
        ({
            let s = crate::parser::grammar::pp_scan_op(old(p).lex_views(), old(p).pos as int);
            r == s.op && final(p).pos as int == s.pos && old(p).added(*final(p)) == s.added
                && final(p).errors@.len() == old(p).errors@.len() + s.errs
        }),
{
    let ghost s0 = *p;
    let ghost full = crate::parser::grammar::pp_scan_op(s0.lex_views(), s0.pos as int);
    loop
        invariant
            s0 == *old(p),
            s0.inv(),
            s0.builder.depth() > 0,
            s0.carries(*p),
            full == crate::parser::grammar::pp_scan_op(s0.lex_views(), s0.pos as int),
            ({
                let rest = crate::parser::grammar::pp_scan_op(s0.lex_views(), p.pos as int);
                &&& full.op == rest.op
                &&& full.pos == rest.pos
                &&& full.added =~= s0.added(*p) + rest.added
                &&& full.errs == p.errors@.len() - s0.errors@.len() + rest.errs
            }),
            s0.errors_eq(*p) ==> s0.added(*p) =~= Seq::<ElemV>::empty(),
        decreases p.remaining(),
    {
        let ghost prev = *p;
        proof {
            let rest = crate::parser::grammar::pp_scan_op(s0.lex_views(), prev.pos as int);
            assert(rest.op is None || rest.added =~= Seq::<ElemV>::empty()
                || rest.added.len() >= 0);
        }
        match p.peek() {
            Some(SyntaxKind::Plus) => {
                proof {
                    assert(full.added =~= s0.added(*p));
                }
                return Some(Op::Add);
            },
            Some(SyntaxKind::Minus) => {
                proof {
                    assert(full.added =~= s0.added(*p));
                }
                return Some(Op::Sub);
            },
            Some(SyntaxKind::Star) => {
                proof {
                    assert(full.added =~= s0.added(*p));
                }
                return Some(Op::Mul);
            },
            Some(SyntaxKind::Slash) => {
                proof {
                    assert(full.added =~= s0.added(*p));
                }
                return Some(Op::Div);
            },
            Some(SyntaxKind::Eol) | Some(SyntaxKind::RBrace) | None => {
                proof {
                    assert(full.added =~= s0.added(*p));
                }
                return None;
            },
            Some(_) => {
                proof {
                    s0.lemma_tok_view(p.pos as int);
                }
                p.error("expected operator");
                proof {
                    Parser::lemma_carries_trans(s0, prev, *p);
                    Parser::lemma_added_concat(s0, prev, *p);
                    let rest = crate::parser::grammar::pp_scan_op(
                        s0.lex_views(),
                        prev.pos as int,
                    );
                    let rest2 = crate::parser::grammar::pp_scan_op(
                        s0.lex_views(),
                        p.pos as int,
                    );
                    assert(rest.added =~= seq![
                        crate::parser::grammar::err_tok_at(s0.lex_views(), prev.pos as int),
                    ] + rest2.added);
                    assert(full.added =~= s0.added(*p) + rest2.added);
                }
            },
        }
    }
}

/// Parses an expression.
pub fn parse_expr(p: &mut Parser)
    requires
        old(p).inv(),
        old(p).builder.depth() > 0,
    ensures
        old(p).carries(*final(p)),
        old(p).errors_eq(*final(p)) ==> expr_run(old(p).added(*final(p))),
        final(p).pos == old(p).pos ==> (old(p).peek_spec() is None || old(p).peek_spec() == Some(
            SyntaxKind::Eol,
        ) || old(p).peek_spec() == Some(SyntaxKind::RBrace)),
        old(p).pp_agree(
            *final(p),
            crate::parser::grammar::pp_expr(old(p).lex_views(), old(p).pos as int),
        ),
    decreases old(p).remaining(), 7int,
{
    parse_expr_bp(p, 0);
}

/// Parses an expression whose operators bind at least as tightly as
/// `min_bp`, wrapping already-parsed operands into left-nested
/// operation nodes as operators appear.
#[verifier::rlimit(100)]
fn parse_expr_bp(p: &mut Parser, min_bp: u8)
    requires
        old(p).inv(),
        old(p).builder.depth() > 0,
    ensures
        old(p).carries(*final(p)),
        old(p).errors_eq(*final(p)) ==> expr_run(old(p).added(*final(p))),
        final(p).pos == old(p).pos ==> (old(p).peek_spec() is None || old(p).peek_spec() == Some(
            SyntaxKind::Eol,
        ) || old(p).peek_spec() == Some(SyntaxKind::RBrace)),
        old(p).pp_agree(
            *final(p),
            crate::parser::grammar::pp_expr_bp(old(p).lex_views(), old(p).pos as int, min_bp),
        ),
    decreases old(p).remaining(), 6int,
{
    let ghost s0 = *p;
    let ghost vs = s0.lex_views();
    let ghost pos0 = s0.pos as int;
    let ghost pe = crate::parser::grammar::pp_expr_bp(vs, pos0, min_bp);
    let cp = p.checkpoint();
    parse_one_expr(p);
    let ghost sa = *p;
    p.skip_ws();
    let ghost sl = *p;
    proof {
        Parser::lemma_carries_trans(s0, sa, *p);
        if s0.errors_eq(*p) {
            Parser::lemma_added_concat(s0, sa, *p);
            assert(expr_run(s0.added(*p)));
        }
        Parser::lemma_added_concat(s0, sa, sl);
    }
    let ghost lt = crate::parser::grammar::pp_bp_loop(
        vs,
        sl.pos as int,
        min_bp,
        s0.added(sl),
    );
    proof {
        // the grammar's word decomposes into the operand, the
        // whitespace, and the fold
        let r1 = crate::parser::grammar::pp_one_expr(vs, pos0);
        assert(sa.pos as int == r1.pos && s0.added(sa) == r1.added);
        let w = crate::parser::grammar::pp_skip_ws(
            vs,
            crate::parser::grammar::step_pos(vs, r1.pos, pos0),
        );
        assert(crate::parser::grammar::step_pos(vs, r1.pos, pos0) == sa.pos as int);
        assert(sl.pos as int == w.pos && sa.added(sl) == w.added);
        assert(crate::parser::grammar::step_pos(vs, w.pos, pos0) == sl.pos as int);
        assert(r1.added + w.added =~= s0.added(sl));
        assert(pe.pos == lt.pos && pe.added == lt.added && pe.errs == r1.errs + lt.errs);
        assert(sl.errors@.len() == s0.errors@.len() + r1.errs);
    }
    loop
        invariant
            s0 == *old(p),
            s0.inv(),
            s0.builder.depth() > 0,
            s0.carries(*p),
            vs == s0.lex_views(),
            pe == crate::parser::grammar::pp_expr_bp(vs, pos0, min_bp),
            pos0 == s0.pos as int,
            cp == s0.builder.top_views().len(),
            sl.errors@.len() <= p.errors@.len(),
            pe.pos == lt.pos && pe.added == lt.added,
            pe.errs == lt.errs + sl.errors@.len() - s0.errors@.len(),
            ({
                let cur = crate::parser::grammar::pp_bp_loop(
                    vs,
                    p.pos as int,
                    min_bp,
                    s0.added(*p),
                );
                lt.pos == cur.pos && lt.added == cur.added && lt.errs == cur.errs
                    + p.errors@.len() - sl.errors@.len()
            }),
            s0.errors_eq(*p) ==> expr_run(s0.added(*p)),
            p.pos == s0.pos ==> (s0.peek_spec() is None || s0.peek_spec() == Some(
                SyntaxKind::Eol,
            ) || s0.peek_spec() == Some(SyntaxKind::RBrace)),
        ensures
            s0.carries(*p),
            s0.errors_eq(*p) ==> expr_run(s0.added(*p)),
            p.pos == s0.pos ==> (s0.peek_spec() is None || s0.peek_spec() == Some(
                SyntaxKind::Eol,
            ) || s0.peek_spec() == Some(SyntaxKind::RBrace)),
            p.pos as int == pe.pos,
            s0.added(*p) == pe.added,
            p.errors@.len() == s0.errors@.len() + pe.errs,
        decreases p.remaining(),
    {
        let ghost sb0 = *p;
        let ghost scan = crate::parser::grammar::pp_scan_op(vs, sb0.pos as int);
        let op = match scan_op(p) {
            Some(op) => op,
            None => {
                proof {
                    Parser::lemma_carries_trans(s0, sb0, *p);
                    Parser::lemma_added_concat(s0, sb0, *p);
                    if s0.errors_eq(*p) {
                        assert(s0.added(*p) =~= s0.added(sb0));
                    }
                    assert(s0.added(*p) =~= s0.added(sb0) + scan.added);
                }
                return;
            },
        };
        proof {
            Parser::lemma_carries_trans(s0, sb0, *p);
            Parser::lemma_added_concat(s0, sb0, *p);
            if s0.errors_eq(*p) {
                assert(s0.added(*p) =~= s0.added(sb0));
            }
            assert(s0.added(*p) =~= s0.added(sb0) + scan.added);
        }
        let ghost sb = *p;
        let bp = infix_bp(op);
        if bp.0 < min_bp {
            break;
        }
        proof {
            assert(sb.builder.top_views().len() >= cp);
        }
        p.start_node_at(cp, SyntaxKind::BinOp);
        let ghost sc = *p;
        proof {
            assert(sb.builder.top_views().take(cp as int) =~= s0.builder.top_views());
            assert(sc.builder.top_views() =~= s0.added(sb));
            sb.lemma_tok_view(sb.pos as int);
        }
        p.bump();
        let ghost sd = *p;
        p.skip_ws();
        let ghost se = *p;
        proof {
            Parser::lemma_carries_trans(sc, sd, *p);
        }
        parse_expr_bp(p, bp.1);
        let ghost sf = *p;
        p.finish_node();
        let ghost sg = *p;
        proof {
            Parser::lemma_carries_trans(sc, se, sf);
            Parser::lemma_wrapped_at(s0, sb, sc, sf, sg, cp, SyntaxKind::BinOp);
            let node = sf.builder.finished_top();
            if s0.errors_eq(*p) {
                // every intermediate state kept the error count
                let lhs = s0.added(sb);
                let optok = ElemV::Token {
                    kind: sb.lexemes@[sb.pos as int].kind,
                    text: sb.lexemes@[sb.pos as int].text@,
                    range: sb.lexemes@[sb.pos as int].range,
                };
                assert(sc.added(sd) =~= seq![optok]);
                assert(optok.kind() == op_kind(op));
                assert(!is_expr_elem(optok));
                assert(shaped(optok));
                lemma_expr_run_facts(lhs, 0);
                lemma_single_elem(optok);
                assert(shaped_from(sc.added(sd), 0));
                assert(count_exprs(sc.added(sd), 0) == 0);
                lemma_trivia_step(sd, se);
                Parser::lemma_extend(sc, sd, se, 0, 0);
                lemma_expr_run_facts(se.added(sf), 0);
                Parser::lemma_extend(sc, se, sf, 0, 1);
                let children = sf.builder.top_views();
                assert(children =~= lhs + sc.added(sf));
                lemma_expr_run_facts(lhs, 0);
                lemma_concat_shape(lhs, sc.added(sf));
                assert(count_exprs(children, 0) == 2);
                assert(shaped_from(children, 0));
                // the operator token stands among the children
                Parser::lemma_added_index(sc, sd, sf, 0);
                assert(sc.added(sf)[0] == optok);
                assert(children[lhs.len() as int] == optok);
                assert(is_op_token(optok));
                assert(crate::ast::arity_ok(SyntaxKind::BinOp, children));
                assert(shaped(node));
                assert(is_expr_elem(node));
                assert(expr_run(s0.added(sg)));
            }
            // one pass of the grammar's fold
            let cur = crate::parser::grammar::pp_bp_loop(
                vs,
                sb0.pos as int,
                min_bp,
                s0.added(sb0),
            );
            let acc1 = s0.added(sb0) + scan.added;
            assert(acc1 =~= s0.added(sb));
            let sp = crate::parser::grammar::step_pos(vs, scan.pos, sb0.pos as int);
            assert(sp == sb.pos as int);
            let wrap_start = if acc1.len() > 0 {
                acc1[0].range().start as int
            } else {
                crate::parser::grammar::off_at(vs, sp)
            };
            assert(sc.builder.frames@.last().start as int == wrap_start) by {
                if acc1.len() > 0 {
                    assert(sb.builder.top_views()[cp as int] == s0.added(sb)[0]);
                } else {
                    sb.lemma_off_view(sb.pos as int);
                }
            }
            let w = crate::parser::grammar::pp_skip_ws(vs, sp + 1);
            assert(sd.pos as int == sp + 1);
            assert(se.pos as int == w.pos && sd.added(se) == w.added);
            let r = crate::parser::grammar::pp_expr_bp(
                vs,
                crate::parser::grammar::step_pos(vs, w.pos, sb0.pos as int + 1),
                bp.1,
            );
            assert(crate::parser::grammar::step_pos(vs, w.pos, sb0.pos as int + 1)
                == se.pos as int);
            assert(sf.pos as int == r.pos && se.added(sf) == r.added);
            let nodep = crate::parser::grammar::mk_node(
                SyntaxKind::BinOp,
                wrap_start,
                crate::parser::grammar::off_at(vs, r.pos),
                acc1 + seq![crate::parser::grammar::tok_at(vs, sp)] + w.added + r.added,
            );
            sf.lemma_off_view(sf.pos as int);
            Parser::lemma_added_concat(sc, sd, se);
            Parser::lemma_added_concat(sc, se, sf);
            assert(sc.added(sd) =~= seq![crate::parser::grammar::tok_at(vs, sp)]);
            assert(sf.builder.top_views() =~= acc1 + seq![
                crate::parser::grammar::tok_at(vs, sp),
            ] + w.added + r.added);
            assert(node == nodep);
            assert(s0.added(sg) =~= seq![nodep]);
            assert(s0.added(sg) == seq![nodep]);
            let rec = crate::parser::grammar::pp_bp_loop(
                vs,
                crate::parser::grammar::step_pos(vs, r.pos, sb0.pos as int + 1),
                min_bp,
                seq![nodep],
            );
            assert(crate::parser::grammar::step_pos(vs, r.pos, sb0.pos as int + 1)
                == sg.pos as int);
            assert(cur.pos == rec.pos && cur.added == rec.added && cur.errs == scan.errs
                + r.errs + rec.errs);
            assert(sg.errors@.len() == sb0.errors@.len() + scan.errs + r.errs);
        }
    }
    proof {
        if s0.errors_eq(*p) {
        }
    }
}

/// Parses one operand: a contained expression, a function call, or a
/// lambda.
fn parse_one_expr(p: &mut Parser)
    requires
        old(p).inv(),
        old(p).builder.depth() > 0,
    ensures
        old(p).carries(*final(p)),
        old(p).errors_eq(*final(p)) ==> expr_run(old(p).added(*final(p))),
        final(p).pos == old(p).pos ==> (old(p).peek_spec() is None || old(p).peek_spec() == Some(
            SyntaxKind::Eol,
        ) || old(p).peek_spec() == Some(SyntaxKind::RBrace)),
        old(p).pp_agree(
            *final(p),
            crate::parser::grammar::pp_one_expr(old(p).lex_views(), old(p).pos as int),
        ),
    decreases old(p).remaining(), 5int,
{
    match p.peek() {
        Some(SyntaxKind::Digits) | Some(SyntaxKind::StringLiteral) | Some(SyntaxKind::Dollar)
            | Some(SyntaxKind::TrueKw) | Some(SyntaxKind::FalseKw) | Some(SyntaxKind::LBrace)
            | Some(SyntaxKind::IfKw) => parse_contained_expr(p),
        Some(SyntaxKind::Atom) => parse_function_call(p),
        Some(SyntaxKind::Pipe) => parse_lambda(p),
        _ => p.error("expected expression"),
    }
}

/// Parses an expression that needs no terminator: a literal, a binding
/// usage, a block, or a conditional.
pub fn parse_contained_expr(p: &mut Parser)
    requires
        old(p).inv(),
        old(p).builder.depth() > 0,
    ensures
        old(p).carries(*final(p)),
        old(p).errors_eq(*final(p)) ==> expr_run(old(p).added(*final(p))),
        final(p).pos == old(p).pos ==> (old(p).peek_spec() is None || old(p).peek_spec() == Some(
            SyntaxKind::Eol,
        ) || old(p).peek_spec() == Some(SyntaxKind::RBrace)),
        old(p).pp_agree(
            *final(p),
            crate::parser::grammar::pp_contained(old(p).lex_views(), old(p).pos as int),
        ),
    decreases old(p).remaining(), 3int,
{
    let ghost s0 = *p;
    match p.peek() {
        Some(SyntaxKind::Digits) | Some(SyntaxKind::StringLiteral) | Some(SyntaxKind::Atom)
            | Some(SyntaxKind::TrueKw) | Some(SyntaxKind::FalseKw) => {
            proof {
                s0.lemma_tok_view(s0.pos as int);
            }
            p.bump();
            proof {
                let tok = s0.added(*p).last();
                assert(s0.added(*p) =~= seq![tok]);
                assert(shaped(tok));
                assert(s0.added(*p) =~= seq![
                    crate::parser::grammar::tok_at(s0.lex_views(), s0.pos as int),
                ]);
            }
        },
        Some(SyntaxKind::Dollar) => parse_binding_usage(p),
        Some(SyntaxKind::LBrace) => parse_block(p),
        Some(SyntaxKind::IfKw) => parse_if(p),
        _ => p.error("expected expression"),
    }
}

/// Parses a `$name` binding usage.
pub fn parse_binding_usage(p: &mut Parser)
    requires
        old(p).inv(),
        old(p).builder.depth() > 0,
        old(p).peek_spec() == Some(SyntaxKind::Dollar),
    ensures
        old(p).carries(*final(p)),
        old(p).errors_eq(*final(p)) ==> expr_run(old(p).added(*final(p))),
        final(p).pos > old(p).pos,
        old(p).pp_agree(
            *final(p),
            crate::parser::grammar::pp_busage(old(p).lex_views(), old(p).pos as int),
        ),
    decreases old(p).remaining(), 2int,
{
    let ghost s0 = *p;
    p.start_node(SyntaxKind::BindingUsage);
    let ghost s1 = *p;
    p.bump();
    let ghost s2 = *p;
    match p.peek() {
        Some(SyntaxKind::Atom) => p.bump(),
        _ => p.error("expected atom"),
    }
    let ghost s3 = *p;
    p.finish_node();
    let ghost s4 = *p;
    proof {
        Parser::lemma_carries_trans(s1, s2, s3);
        Parser::lemma_wrapped_node(s0, s1, s3, s4, SyntaxKind::BindingUsage);
        let node = s3.builder.finished_top();
        // the grammar's word on this usage
        let vs = s0.lex_views();
        let pos = s0.pos as int;
        let st = crate::parser::grammar::pp_busage(vs, pos);
        s0.lemma_tok_view(pos);
        s0.lemma_off_view(pos);
        s3.lemma_off_view(s3.pos as int);
        if s0.pos + 1 < s0.lexemes@.len() {
            s0.lemma_tok_view(pos + 1);
        }
        assert(s0.builder.offset as int == crate::parser::grammar::off_at(vs, pos));
        assert(s3.builder.offset as int == crate::parser::grammar::off_at(vs, s3.pos as int));
        let inner = if crate::parser::grammar::k_at(vs, pos + 1) == Some(SyntaxKind::Atom) {
            crate::parser::grammar::PStep {
                pos: pos + 2,
                added: seq![crate::parser::grammar::tok_at(vs, pos + 1)],
                errs: 0,
            }
        } else {
            crate::parser::grammar::pp_error(vs, pos + 1)
        };
        assert(s3.builder.top_views() =~= seq![crate::parser::grammar::tok_at(vs, pos)] + inner.added);
        assert(s3.pos as int == inner.pos);
        assert(s3.errors@.len() == s0.errors@.len() + inner.errs);
        assert(node == st.added[0]);
        assert(s0.added(s4) =~= st.added);
        assert(s0.pp_agree(s4, st));
        if s0.errors_eq(s4) {
            let cs = s3.builder.top_views();
            let dtok = ElemV::Token {
                kind: s1.lexemes@[s1.pos as int].kind,
                text: s1.lexemes@[s1.pos as int].text@,
                range: s1.lexemes@[s1.pos as int].range,
            };
            let atok = ElemV::Token {
                kind: s2.lexemes@[s2.pos as int].kind,
                text: s2.lexemes@[s2.pos as int].text@,
                range: s2.lexemes@[s2.pos as int].range,
            };
            assert(cs =~= s1.added(s3));
            assert(cs =~= seq![dtok, atok]);
            assert(cs[1] == atok);
            assert(cs[0] == dtok);
            assert(shaped(dtok));
            assert(shaped(atok));
            assert(is_token_of(atok, SyntaxKind::Atom));
            assert(shaped_from(cs, 2));
            assert(shaped_from(cs, 1));
            assert(shaped_from(cs, 0));
            assert(crate::ast::arity_ok(SyntaxKind::BindingUsage, cs));
            assert(shaped(node));
            assert(expr_run(s0.added(s4)));
        }
    }
}

/// Parses an `if COND then EXPR else EXPR` conditional.
#[verifier::rlimit(100)]
pub fn parse_if(p: &mut Parser)
    requires
        old(p).inv(),
        old(p).builder.depth() > 0,
        old(p).peek_spec() == Some(SyntaxKind::IfKw),
    ensures
        old(p).carries(*final(p)),
        old(p).errors_eq(*final(p)) ==> expr_run(old(p).added(*final(p))),
        final(p).pos > old(p).pos,
        old(p).pp_agree(
            *final(p),
            crate::parser::grammar::pp_if(old(p).lex_views(), old(p).pos as int),
        ),
    decreases old(p).remaining(), 2int,
{
    let ghost s0 = *p;
    let ghost vs = s0.lex_views();
    let ghost pos = s0.pos as int;
    p.start_node(SyntaxKind::If);
    let ghost s1 = *p;
    proof {
        s0.lemma_tok_view(pos);
    }
    p.bump();
    let ghost a1 = *p;
    proof {
        step_token(s1, s1, *p);
    }
    p.skip_ws();
    let ghost a2 = *p;
    proof {
        step_trivia(s1, a1, *p);
    }
    parse_contained_expr(p);
    let ghost a3 = *p;
    proof {
        step_expr(s1, a2, *p);
    }
    p.skip_ws();
    let ghost a4 = *p;
    proof {
        step_trivia(s1, a3, *p);
    }
    proof {
        if a4.pos < a4.lexemes@.len() {
            s0.lemma_tok_view(a4.pos as int);
        }
    }
    match p.peek() {
        Some(SyntaxKind::ThenKw) => p.bump(),
        _ => p.error("expected then"),
    }
    let ghost a5 = *p;
    proof {
        step_token(s1, a4, *p);
    }
    p.skip_ws();
    let ghost a6 = *p;
    proof {
        step_trivia(s1, a5, *p);
    }
    parse_contained_expr(p);
    let ghost a7 = *p;
    proof {
        step_expr(s1, a6, *p);
    }
    p.skip_ws();
    let ghost a8 = *p;
    proof {
        step_trivia(s1, a7, *p);
    }
    proof {
        if a8.pos < a8.lexemes@.len() {
            s0.lemma_tok_view(a8.pos as int);
        }
    }
    match p.peek() {
        Some(SyntaxKind::ElseKw) => p.bump(),
        _ => p.error("expected else"),
    }
    let ghost a9 = *p;
    proof {
        step_token(s1, a8, *p);
    }
    p.skip_ws();
    let ghost a10 = *p;
    proof {
        step_trivia(s1, a9, *p);
    }
    parse_contained_expr(p);
    let ghost s3 = *p;
    proof {
        step_expr(s1, a10, *p);
    }
    p.finish_node();
    let ghost s4 = *p;
    proof {
        Parser::lemma_wrapped_node(s0, s1, s3, s4, SyntaxKind::If);
        let node = s3.builder.finished_top();
        if s0.errors_eq(s4) {
            let cs = s3.builder.top_views();
            assert(shaped_from(cs, 0) && count_exprs(cs, 0) == 3);
            assert(crate::ast::arity_ok(SyntaxKind::If, cs));
            assert(shaped(node));
            assert(expr_run(s0.added(s4)));
        }
        // the grammar's word on this conditional
        let st = crate::parser::grammar::pp_if(vs, pos);
        s0.lemma_off_view(pos);
        s3.lemma_off_view(s3.pos as int);
        let p1 = pos + 1;
        let w1 = crate::parser::grammar::pp_skip_ws(vs, p1);
        assert(a2.pos as int == w1.pos && a1.added(a2) == w1.added);
        let cond = crate::parser::grammar::pp_contained(
            vs,
            crate::parser::grammar::step_pos(vs, w1.pos, p1),
        );
        assert(crate::parser::grammar::step_pos(vs, w1.pos, p1) == a2.pos as int);
        assert(a3.pos as int == cond.pos && a2.added(a3) == cond.added);
        let p2 = crate::parser::grammar::step_pos(vs, cond.pos, p1);
        assert(p2 == a3.pos as int);
        let w2 = crate::parser::grammar::pp_skip_ws(vs, p2);
        assert(a4.pos as int == crate::parser::grammar::step_pos(vs, w2.pos, p2)
            && a3.added(a4) == w2.added);
        let p3 = crate::parser::grammar::step_pos(vs, w2.pos, p2);
        let thn = if crate::parser::grammar::k_at(vs, p3) == Some(SyntaxKind::ThenKw) {
            crate::parser::grammar::PStep {
                pos: p3 + 1,
                added: seq![crate::parser::grammar::tok_at(vs, p3)],
                errs: 0,
            }
        } else {
            crate::parser::grammar::pp_error(vs, p3)
        };
        assert(a5.pos as int == thn.pos && a4.added(a5) == thn.added);
        let p4 = crate::parser::grammar::step_pos(vs, thn.pos, p3);
        assert(p4 == a5.pos as int);
        let w3 = crate::parser::grammar::pp_skip_ws(vs, p4);
        assert(a6.pos as int == crate::parser::grammar::step_pos(vs, w3.pos, p1)
            && a5.added(a6) == w3.added);
        let tb = crate::parser::grammar::pp_contained(
            vs,
            crate::parser::grammar::step_pos(vs, w3.pos, p1),
        );
        assert(a7.pos as int == tb.pos && a6.added(a7) == tb.added);
        let p5 = crate::parser::grammar::step_pos(vs, tb.pos, p1);
        assert(p5 == a7.pos as int);
        let w4 = crate::parser::grammar::pp_skip_ws(vs, p5);
        assert(a8.pos as int == crate::parser::grammar::step_pos(vs, w4.pos, p5)
            && a7.added(a8) == w4.added);
        let p6 = crate::parser::grammar::step_pos(vs, w4.pos, p5);
        let els = if crate::parser::grammar::k_at(vs, p6) == Some(SyntaxKind::ElseKw) {
            crate::parser::grammar::PStep {
                pos: p6 + 1,
                added: seq![crate::parser::grammar::tok_at(vs, p6)],
                errs: 0,
            }
        } else {
            crate::parser::grammar::pp_error(vs, p6)
        };
        assert(a9.pos as int == els.pos && a8.added(a9) == els.added);
        let p7 = crate::parser::grammar::step_pos(vs, els.pos, p6);
        assert(p7 == a9.pos as int);
        let w5 = crate::parser::grammar::pp_skip_ws(vs, p7);
        assert(a10.pos as int == crate::parser::grammar::step_pos(vs, w5.pos, p1)
            && a9.added(a10) == w5.added);
        let fb = crate::parser::grammar::pp_contained(
            vs,
            crate::parser::grammar::step_pos(vs, w5.pos, p1),
        );
        assert(s3.pos as int == fb.pos && a10.added(s3) == fb.added);
        // the children are the concatenation of every segment
        Parser::lemma_added_concat(s1, a1, a2);
        Parser::lemma_added_concat(s1, a2, a3);
        Parser::lemma_added_concat(s1, a3, a4);
        Parser::lemma_added_concat(s1, a4, a5);
        Parser::lemma_added_concat(s1, a5, a6);
        Parser::lemma_added_concat(s1, a6, a7);
        Parser::lemma_added_concat(s1, a7, a8);
        Parser::lemma_added_concat(s1, a8, a9);
        Parser::lemma_added_concat(s1, a9, a10);
        Parser::lemma_added_concat(s1, a10, s3);
        assert(s1.added(a1) =~= seq![crate::parser::grammar::tok_at(vs, pos)]);
        assert(s3.builder.top_views() =~= seq![crate::parser::grammar::tok_at(vs, pos)]
            + w1.added + cond.added + w2.added + thn.added + w3.added + tb.added + w4.added
            + els.added + w5.added + fb.added);
        assert(node == st.added[0]);
        assert(s0.added(s4) =~= st.added);
        assert(s0.pp_agree(s4, st));
    }
}

/// Parses a function call: a name followed by whitespace-separated
/// argument expressions, ending at the end of the line or of the input.
#[verifier::rlimit(100)]
pub fn parse_function_call(p: &mut Parser)
    requires
        old(p).inv(),
        old(p).builder.depth() > 0,
        old(p).peek_spec() == Some(SyntaxKind::Atom),
    ensures
        old(p).carries(*final(p)),
        old(p).errors_eq(*final(p)) ==> expr_run(old(p).added(*final(p))),
        final(p).pos > old(p).pos,
        old(p).pp_agree(
            *final(p),
            crate::parser::grammar::pp_fc(old(p).lex_views(), old(p).pos as int),
        ),
    decreases old(p).remaining(), 4int,
{
    let ghost s0 = *p;
    let ghost vs = s0.lex_views();
    let ghost pos = s0.pos as int;
    p.start_node(SyntaxKind::FunctionCall);
    let ghost s1 = *p;
    proof {
        s0.lemma_tok_view(pos);
    }
    p.bump();
    let ghost s2 = *p;
    proof {
        step_token_any(s1, s1, *p);
    }
    p.skip_ws();
    proof {
        step_trivia_any(s1, s2, *p);
    }
    let ghost sp0 = *p;
    p.start_node(SyntaxKind::FunctionCallParams);
    let ghost sp1 = *p;
    let ghost full = crate::parser::grammar::pp_fc_args(vs, sp1.pos as int);
    loop
        invariant
            s0 == *old(p),
            old(p).pos <= p.pos,
            p.lexemes@ == old(p).lexemes@,
            vs == s0.lex_views(),
            sp1.inv(),
            sp1.builder.depth() > 0,
            sp1.lexemes@ == s0.lexemes@,
            sp1.input == s0.input,
            sp1.carries(*p),
            full == crate::parser::grammar::pp_fc_args(vs, sp1.pos as int),
            ({
                let rest = crate::parser::grammar::pp_fc_args(vs, p.pos as int);
                &&& full.pos == rest.pos
                &&& full.added =~= sp1.added(*p) + rest.added
                &&& full.errs == p.errors@.len() - sp1.errors@.len() + rest.errs
            }),
            sp1.errors_eq(*p) ==> shaped_from(sp1.added(*p), 0),
        ensures
            old(p).pos <= p.pos,
            sp1.carries(*p),
            full.pos == p.pos as int,
            full.added == sp1.added(*p),
            full.errs == p.errors@.len() - sp1.errors@.len(),
            sp1.errors_eq(*p) ==> shaped_from(sp1.added(*p), 0),
            p.peek_spec() is None || p.peek_spec() == Some(SyntaxKind::Eol) || p.peek_spec()
                == Some(SyntaxKind::RBrace),
        decreases p.remaining(),
    {
        let stop = match p.peek() {
            None | Some(SyntaxKind::Eol) | Some(SyntaxKind::RBrace) => true,
            _ => false,
        };
        if stop {
            proof {
                let rest = crate::parser::grammar::pp_fc_args(vs, p.pos as int);
                assert(rest.added =~= Seq::<ElemV>::empty());
                assert(full.added =~= sp1.added(*p));
                assert(full.added == sp1.added(*p));
            }
            break;
        }
        let ghost run = *p;
        parse_contained_expr(p);
        let ghost run2 = *p;
        p.skip_ws();
        proof {
            Parser::lemma_carries_trans(run, run2, *p);
            Parser::lemma_carries_trans(sp1, run, *p);
            if sp1.errors_eq(*p) {
                lemma_expr_run_facts(run.added(run2), 0);
                lemma_trivia_step(run2, *p);
                Parser::lemma_extend(run, run2, *p, 1, 0);
                Parser::lemma_added_concat(sp1, run, *p);
                lemma_concat_shape(sp1.added(run), run.added(*p));
            }
            // one pass of the grammar's argument walk
            let rest = crate::parser::grammar::pp_fc_args(vs, run.pos as int);
            let c = crate::parser::grammar::pp_contained(vs, run.pos as int);
            assert(run2.pos as int == c.pos && run.added(run2) == c.added);
            let w = crate::parser::grammar::pp_skip_ws(
                vs,
                crate::parser::grammar::step_pos(vs, c.pos, run.pos as int),
            );
            assert(crate::parser::grammar::step_pos(vs, c.pos, run.pos as int)
                == run2.pos as int);
            assert(p.pos as int == crate::parser::grammar::step_pos(
                vs,
                w.pos,
                run.pos as int + 1,
            ) && run2.added(*p) == w.added);
            let rest2 = crate::parser::grammar::pp_fc_args(vs, p.pos as int);
            assert(rest.added =~= c.added + w.added + rest2.added);
            Parser::lemma_added_concat(sp1, run, run2);
            Parser::lemma_added_concat(sp1, run2, *p);
            assert(full.added =~= sp1.added(*p) + rest2.added);
        }
    }
    let ghost sp3 = *p;
    p.finish_node();
    let ghost sp4 = *p;
    proof {
        Parser::lemma_wrapped_node(sp0, sp1, sp3, sp4, SyntaxKind::FunctionCallParams);
    }
    let ghost s3 = *p;
    p.finish_node();
    let ghost s4 = *p;
    proof {
        Parser::lemma_carries_trans(s1, sp0, sp4);
        Parser::lemma_wrapped_node(s0, s1, s3, s4, SyntaxKind::FunctionCall);
        let node = s3.builder.finished_top();
        let pnode = sp3.builder.finished_top();
        let atok = ElemV::Token {
            kind: s1.lexemes@[s1.pos as int].kind,
            text: s1.lexemes@[s1.pos as int].text@,
            range: s1.lexemes@[s1.pos as int].range,
        };
        assert(s1.added(s2) =~= seq![atok]);
        if s0.errors_eq(s4) {
            let cs = s3.builder.top_views();
            assert(shaped(pnode)) by {
                assert(sp1.added(sp3) == sp3.builder.top_views());
            }
            assert(cs =~= s1.added(sp0).push(pnode));
            Parser::lemma_added_index(s1, s2, sp0, 0);
            assert(s1.added(sp0)[0] == atok);
            assert(cs[0] == atok);
            assert(is_token_of(atok, SyntaxKind::Atom));
            assert(cs.last() == pnode);
            assert(is_node_of(pnode, SyntaxKind::FunctionCallParams));
            assert(shaped_from(s1.added(sp0), 0)) by {
                assert forall|j: int| 0 <= j < s1.added(sp0).len() implies shaped(
                    #[trigger] s1.added(sp0)[j],
                ) by {
                    assert(s1.added(sp0)[j] matches ElemV::Token { .. });
                }
                crate::ast::lemma_all_shaped(s1.added(sp0), 0);
            }
            lemma_shaped_push(s1.added(sp0), pnode, 0);
            assert(shaped_from(cs, 0));
            assert(crate::ast::arity_ok(SyntaxKind::FunctionCall, cs));
            assert(shaped(node));
            assert(expr_run(s0.added(s4)));
        }
        // the grammar's word on this call
        let st = crate::parser::grammar::pp_fc(vs, pos);
        s0.lemma_off_view(pos);
        sp0.lemma_off_view(sp0.pos as int);
        s3.lemma_off_view(s3.pos as int);
        let p1 = pos + 1;
        let w = crate::parser::grammar::pp_skip_ws(vs, p1);
        assert(sp0.pos as int == crate::parser::grammar::step_pos(vs, w.pos, p1)
            && s2.added(sp0) == w.added);
        assert(sp1.pos as int == sp0.pos as int);
        assert(crate::parser::grammar::pp_fc_args(
            vs,
            crate::parser::grammar::step_pos(vs, w.pos, p1),
        ) == full);
        Parser::lemma_added_concat(s1, s2, sp0);
        assert(s3.builder.top_views() =~= seq![crate::parser::grammar::tok_at(vs, pos)]
            + w.added + seq![pnode]);
        assert(node == st.added[0]);
        assert(s0.added(s4) =~= st.added);
        assert(s0.pp_agree(s4, st));
    }
}

/// Parses a `|params| body` lambda literal.
#[verifier::rlimit(100)]
pub fn parse_lambda(p: &mut Parser)
    requires
        old(p).inv(),
        old(p).builder.depth() > 0,
        old(p).peek_spec() == Some(SyntaxKind::Pipe),
    ensures
        old(p).carries(*final(p)),
        old(p).errors_eq(*final(p)) ==> expr_run(old(p).added(*final(p))),
        final(p).pos > old(p).pos,
        old(p).pp_agree(
            *final(p),
            crate::parser::grammar::pp_lambda(old(p).lex_views(), old(p).pos as int),
        ),
    decreases old(p).remaining(), 4int,
{
    let ghost s0 = *p;
    let ghost vs = s0.lex_views();
    let ghost pos = s0.pos as int;
    p.start_node(SyntaxKind::Lambda);
    let ghost s1 = *p;
    p.start_node(SyntaxKind::LambdaParams);
    let ghost sp1 = *p;
    proof {
        s0.lemma_tok_view(pos);
    }
    p.bump();
    let ghost s2 = *p;
    proof {
        step_token_any(sp1, sp1, *p);
    }
    p.skip_ws();
    let ghost sw = *p;
    proof {
        step_trivia_any(sp1, s2, *p);
    }
    let ghost full = crate::parser::grammar::pp_lambda_params(vs, sw.pos as int);
    loop
        invariant_except_break
            ({
                let rest = crate::parser::grammar::pp_lambda_params(vs, p.pos as int);
                &&& full.pos == rest.pos
                &&& full.added =~= sw.added(*p) + rest.added
                &&& full.errs == p.errors@.len() - sw.errors@.len() + rest.errs
            }),
        invariant
            s0 == *old(p),
            old(p).pos <= p.pos,
            p.lexemes@ == old(p).lexemes@,
            vs == s0.lex_views(),
            sw.inv(),
            sw.builder.depth() > 0,
            sw.lexemes@ == s0.lexemes@,
            sw.input == s0.input,
            sw.carries(*p),
            full == crate::parser::grammar::pp_lambda_params(vs, sw.pos as int),
            forall|j: int|
                0 <= j < sw.added(*p).len() ==> (#[trigger] sw.added(*p)[j]) matches
                    ElemV::Token { .. },
            p.pos > s0.pos,
        ensures
            old(p).pos <= p.pos,
            sw.carries(*p),
            full.pos == p.pos as int,
            full.added == sw.added(*p),
            full.errs == p.errors@.len() - sw.errors@.len(),
            forall|j: int|
                0 <= j < sw.added(*p).len() ==> (#[trigger] sw.added(*p)[j]) matches
                    ElemV::Token { .. },
            p.pos > s0.pos,
        decreases p.remaining(),
    {
        if p.at_end() {
            proof {
                let rest = crate::parser::grammar::pp_lambda_params(vs, p.pos as int);
                assert(rest.added =~= Seq::<ElemV>::empty());
                assert(full.added =~= sw.added(*p));
                assert(full.added == sw.added(*p));
            }
            break;
        }
        let ghost run = *p;
        proof {
            assert(run.lex_views() =~= vs);
            if run.pos < run.lexemes@.len() {
                run.lemma_tok_view(run.pos as int);
            }
        }
        let done = match p.peek() {
            Some(SyntaxKind::Atom) => {
                p.bump();
                false
            },
            Some(SyntaxKind::Pipe) => {
                p.bump();
                true
            },
            Some(SyntaxKind::Eol) => {
                p.error("expected atom or pipe");
                true
            },
            _ => {
                p.error("expected atom or pipe");
                false
            },
        };
        let ghost mid = *p;
        proof {
            Parser::lemma_carries_trans(sw, run, *p);
            Parser::lemma_added_concat(sw, run, *p);
        }
        if done {
            proof {
                let restr = crate::parser::grammar::pp_lambda_params(vs, run.pos as int);
                assert(full.pos == restr.pos && full.added =~= sw.added(run) + restr.added);
                assert(full.added =~= sw.added(*p));
                assert(full.added == sw.added(*p));
            }
            break;
        }
        p.skip_ws();
        proof {
            Parser::lemma_carries_trans(sw, mid, *p);
            Parser::lemma_added_concat(sw, mid, *p);
            let rest = crate::parser::grammar::pp_lambda_params(vs, run.pos as int);
            let w = crate::parser::grammar::pp_skip_ws(vs, run.pos as int + 1);
            let rest2 = crate::parser::grammar::pp_lambda_params(
                vs,
                crate::parser::grammar::step_pos(vs, w.pos, run.pos as int + 1),
            );
            assert(crate::parser::grammar::step_pos(vs, w.pos, run.pos as int + 1)
                == p.pos as int);
            assert(rest.added =~= rest.added.take(1) + w.added + rest2.added);
            assert(full.added =~= sw.added(*p) + rest2.added);
        }
    }
    let ghost sp3 = *p;
    p.finish_node();
    let ghost sp4 = *p;
    proof {
        Parser::lemma_wrapped_node(s1, sp1, sp3, sp4, SyntaxKind::LambdaParams);
    }
    let ghost run = *p;
    p.skip_ws();
    let ghost a1 = *p;
    proof {
        let pnode = sp3.builder.finished_top();
        assert(shaped(pnode)) by {
            assert(sp1.added(sp3) == sp3.builder.top_views());
            Parser::lemma_added_concat(sp1, s2, sw);
            Parser::lemma_added_concat(sp1, sw, sp3);
            assert forall|j: int| 0 <= j < sp3.builder.top_views().len() implies shaped(
                #[trigger] sp3.builder.top_views()[j],
            ) by {
                let cs = sp3.builder.top_views();
                if j < sp1.added(sw).len() {
                    assert(cs[j] == sp1.added(sw)[j]);
                    assert(cs[j] matches ElemV::Token { .. });
                } else {
                    assert(cs[j] == sw.added(sp3)[j - sp1.added(sw).len()]);
                    assert(cs[j] matches ElemV::Token { .. });
                }
            }
            crate::ast::lemma_all_shaped(sp3.builder.top_views(), 0);
        }
        lemma_single_elem(pnode);
        step_trivia(s1, run, *p);
        assert(run.lex_views() =~= vs);
    }
    parse_expr(p);
    let ghost s3 = *p;
    proof {
        step_expr(s1, a1, *p);
    }
    p.finish_node();
    let ghost s4 = *p;
    proof {
        Parser::lemma_wrapped_node(s0, s1, s3, s4, SyntaxKind::Lambda);
        let node = s3.builder.finished_top();
        let pnode = sp3.builder.finished_top();
        if s0.errors_eq(s4) {
            let cs = s3.builder.top_views();
            assert(cs[0] == pnode) by {
                Parser::lemma_added_index(s1, sp4, s3, 0);
                assert(s1.added(sp4) =~= seq![pnode]);
            }
            assert(is_node_of(pnode, SyntaxKind::LambdaParams));
            assert(shaped_from(cs, 0) && count_exprs(cs, 0) == 1);
            assert(crate::ast::arity_ok(SyntaxKind::Lambda, cs));
            assert(shaped(node));
            assert(expr_run(s0.added(s4)));
        }
        // the grammar's word on this lambda
        let st = crate::parser::grammar::pp_lambda(vs, pos);
        s0.lemma_off_view(pos);
        sp3.lemma_off_view(sp3.pos as int);
        s3.lemma_off_view(s3.pos as int);
        let p1 = pos + 1;
        let w0 = crate::parser::grammar::pp_skip_ws(vs, p1);
        assert(sw.pos as int == crate::parser::grammar::step_pos(vs, w0.pos, p1)
            && s2.added(sw) == w0.added);
        let pl = crate::parser::grammar::pp_lambda_params(
            vs,
            crate::parser::grammar::step_pos(vs, w0.pos, p1),
        );
        assert(pl == full);
        assert(sp3.pos as int == pl.pos && sw.added(sp3) == pl.added);
        let p2 = crate::parser::grammar::step_pos(vs, pl.pos, p1);
        assert(p2 == sp3.pos as int);
        Parser::lemma_added_concat(sp1, s2, sw);
        Parser::lemma_added_concat(sp1, sw, sp3);
        assert(sp3.builder.top_views() =~= seq![crate::parser::grammar::tok_at(vs, pos)]
            + w0.added + pl.added);
        assert(sp4.pos as int == p2);
        let w1 = crate::parser::grammar::pp_skip_ws(vs, p2);
        assert(a1.pos as int == w1.pos && sp4.added(a1) == w1.added);
        assert(a1.pos as int == crate::parser::grammar::step_pos(vs, w1.pos, pos + 1));
        let body = crate::parser::grammar::pp_expr(
            vs,
            crate::parser::grammar::step_pos(vs, w1.pos, pos + 1),
        );
        assert(s3.pos as int == body.pos && a1.added(s3) == body.added);
        Parser::lemma_added_concat(s1, sp4, a1);
        Parser::lemma_added_concat(s1, a1, s3);
        assert(s1.added(sp4) =~= seq![pnode]);
        assert(s3.builder.top_views() =~= seq![pnode] + w1.added + body.added);
        assert(pnode == crate::parser::grammar::mk_node(
            SyntaxKind::LambdaParams,
            crate::parser::grammar::off_at(vs, pos),
            crate::parser::grammar::off_at(vs, p2),
            seq![crate::parser::grammar::tok_at(vs, pos)] + w0.added + pl.added,
        ));
        assert(node == st.added[0]);
        assert(s0.added(s4) =~= st.added);
        assert(s0.pp_agree(s4, st));
    }
}

/// Parses a `{ items }` block.
#[verifier::rlimit(100)]
pub fn parse_block(p: &mut Parser)
    requires
        old(p).inv(),
        old(p).builder.depth() > 0,
        old(p).peek_spec() == Some(SyntaxKind::LBrace),
    ensures
        old(p).carries(*final(p)),
        old(p).errors_eq(*final(p)) ==> expr_run(old(p).added(*final(p))),
        final(p).pos > old(p).pos,
        old(p).pp_agree(
            *final(p),
            crate::parser::grammar::pp_block(old(p).lex_views(), old(p).pos as int),
        ),
    decreases old(p).remaining(), 1int,
{
    let ghost s0 = *p;
    let ghost vs = s0.lex_views();
    let ghost pos = s0.pos as int;
    p.start_node(SyntaxKind::Block);
    let ghost s1 = *p;
    proof {
        s0.lemma_tok_view(pos);
    }
    p.bump();
    let ghost a1 = *p;
    proof {
        step_token(s1, s1, *p);
    }
    p.skip_ws_and_eol();
    let ghost sw = *p;
    proof {
        Parser::lemma_carries_trans(s1, a1, *p);
        if s1.errors_eq(*p) {
            lemma_trivia_step(a1, *p);
            Parser::lemma_extend(s1, a1, *p, 0, 0);
        }
    }
    let ghost bt = crate::parser::grammar::pp_block_items(vs, sw.pos as int);
    loop
        invariant
            s0 == *old(p),
            old(p).pos <= p.pos,
            p.lexemes@ == old(p).lexemes@,
            vs == s0.lex_views(),
            s1.inv(),
            s1.builder.depth() > 0,
            s1.pos == old(p).pos,
            s1.carries(*p),
            sw.inv(),
            sw.builder.depth() > 0,
            sw.lexemes@ == s0.lexemes@,
            sw.input == s0.input,
            sw.carries(*p),
            sw.errors@.len() <= p.errors@.len(),
            bt == crate::parser::grammar::pp_block_items(vs, sw.pos as int),
            ({
                let cur = crate::parser::grammar::pp_block_items(vs, p.pos as int);
                bt.pos == cur.pos && bt.added =~= sw.added(*p) + cur.added && bt.errs
                    == cur.errs + p.errors@.len() - sw.errors@.len()
            }),
            s1.errors_eq(*p) ==> shaped_from(s1.added(*p), 0),
            p.pos > s1.pos,
        ensures
            old(p).pos <= p.pos,
            s1.carries(*p),
            sw.carries(*p),
            p.pos as int == bt.pos,
            sw.added(*p) == bt.added,
            p.errors@.len() == sw.errors@.len() + bt.errs,
            s1.errors_eq(*p) ==> shaped_from(s1.added(*p), 0),
            p.pos > s1.pos,
            p.peek_spec() is None || p.peek_spec() == Some(SyntaxKind::RBrace),
        decreases p.remaining(),
    {
        let stop = match p.peek() {
            None | Some(SyntaxKind::RBrace) => true,
            _ => false,
        };
        if stop {
            proof {
                let cur = crate::parser::grammar::pp_block_items(vs, p.pos as int);
                assert(cur.added =~= Seq::<ElemV>::empty());
                assert(bt.added =~= sw.added(*p));
                assert(bt.added == sw.added(*p));
            }
            break;
        }
        let ghost run = *p;
        let ghost it = crate::parser::grammar::pp_item(vs, run.pos as int);
        crate::parser::item::parse_item(p);
        let ghost run2 = *p;
        p.skip_ws();
        proof {
            Parser::lemma_carries_trans(run, run2, *p);
            Parser::lemma_carries_trans(s1, run, *p);
            if s1.errors_eq(*p) {
                crate::ast::lemma_item_run_shaped(run.added(run2), 0);
                lemma_trivia_step(run2, *p);
                crate::ast::lemma_run_facts(run2.added(*p), 0);
                Parser::lemma_added_concat(run, run2, *p);
                lemma_concat_shape(run.added(run2), run2.added(*p));
                Parser::lemma_added_concat(s1, run, *p);
                lemma_concat_shape(s1.added(run), run.added(*p));
            }
        }
        let ghost run3 = *p;
        proof {
            if run3.pos < run3.lexemes@.len() {
                sw.lemma_tok_view(run3.pos as int);
            }
        }
        let again = match p.peek() {
            Some(SyntaxKind::Eol) => {
                p.bump();
                true
            },
            Some(SyntaxKind::RBrace) | None => false,
            _ => {
                p.error("expected end of line");
                true
            },
        };
        proof {
            Parser::lemma_carries_trans(s1, run3, *p);
            if s1.errors_eq(*p) {
                lemma_token_step(run3, *p);
                Parser::lemma_added_concat(s1, run3, *p);
                lemma_concat_shape(s1.added(run3), run3.added(*p));
            }
            // one pass of the grammar's item walk
            let w = crate::parser::grammar::pp_skip_ws(
                vs,
                crate::parser::grammar::step_pos(vs, it.pos, run.pos as int),
            );
            assert(crate::parser::grammar::step_pos(vs, it.pos, run.pos as int)
                == run2.pos as int);
            assert(run3.pos as int == crate::parser::grammar::step_pos(
                vs,
                w.pos,
                run.pos as int,
            ) && run2.added(run3) == w.added);
            let p2 = crate::parser::grammar::step_pos(vs, w.pos, run.pos as int);
            Parser::lemma_added_concat(sw, run, run2);
            Parser::lemma_added_concat(sw, run2, run3);
            Parser::lemma_added_concat(sw, run3, *p);
            let curr = crate::parser::grammar::pp_block_items(vs, run.pos as int);
            match crate::parser::grammar::k_at(vs, p2) {
                Some(SyntaxKind::Eol) => {
                    let rec = crate::parser::grammar::pp_block_items(
                        vs,
                        crate::parser::grammar::step_pos(vs, p2 + 1, run.pos as int + 1),
                    );
                    assert(crate::parser::grammar::step_pos(
                        vs,
                        p2 + 1,
                        run.pos as int + 1,
                    ) == p.pos as int);
                    assert(curr.added =~= it.added + w.added + seq![
                        crate::parser::grammar::tok_at(vs, p2),
                    ] + rec.added);
                    assert(bt.added =~= sw.added(*p) + rec.added);
                },
                Some(SyntaxKind::RBrace) | None => {
                    assert(curr.added =~= it.added + w.added);
                    assert(bt.added =~= sw.added(*p) + Seq::<ElemV>::empty());
                },
                _ => {
                    let e = crate::parser::grammar::pp_error(vs, p2);
                    let rec = crate::parser::grammar::pp_block_items(
                        vs,
                        crate::parser::grammar::step_pos(vs, e.pos, run.pos as int + 1),
                    );
                    assert(crate::parser::grammar::step_pos(
                        vs,
                        e.pos,
                        run.pos as int + 1,
                    ) == p.pos as int);
                    assert(curr.added =~= it.added + w.added + e.added + rec.added);
                    assert(bt.added =~= sw.added(*p) + rec.added);
                },
            }
        }
        if !again {
            break;
        }
    }
    let ghost s2 = *p;
    proof {
        if s2.pos < s2.lexemes@.len() {
            sw.lemma_tok_view(s2.pos as int);
        }
    }
    match p.peek() {
        Some(SyntaxKind::RBrace) => p.bump(),
        _ => p.error("expected closing brace"),
    }
    let ghost s3 = *p;
    proof {
        Parser::lemma_carries_trans(s1, s2, *p);
        if s1.errors_eq(*p) {
            lemma_token_step(s2, *p);
            Parser::lemma_added_concat(s1, s2, *p);
            lemma_concat_shape(s1.added(s2), s2.added(*p));
        }
    }
    p.finish_node();
    let ghost s4 = *p;
    proof {
        Parser::lemma_wrapped_node(s0, s1, s3, s4, SyntaxKind::Block);
        let node = s3.builder.finished_top();
        if s0.errors_eq(s4) {
            assert(shaped(node));
            assert(expr_run(s0.added(s4)));
        }
        // the grammar's word on this block
        let st = crate::parser::grammar::pp_block(vs, pos);
        s0.lemma_off_view(pos);
        s3.lemma_off_view(s3.pos as int);
        let p1 = pos + 1;
        let w = crate::parser::grammar::pp_skip_ws_eol(vs, p1);
        assert(sw.pos as int == crate::parser::grammar::step_pos(vs, w.pos, p1)
            && a1.added(sw) == w.added);
        assert(crate::parser::grammar::pp_block_items(
            vs,
            crate::parser::grammar::step_pos(vs, w.pos, p1),
        ) == bt);
        let p2 = crate::parser::grammar::step_pos(vs, bt.pos, p1);
        assert(p2 == s2.pos as int);
        let close = if crate::parser::grammar::k_at(vs, p2) == Some(SyntaxKind::RBrace) {
            crate::parser::grammar::PStep {
                pos: p2 + 1,
                added: seq![crate::parser::grammar::tok_at(vs, p2)],
                errs: 0,
            }
        } else {
            crate::parser::grammar::pp_error(vs, p2)
        };
        assert(s3.pos as int == close.pos && s2.added(s3) == close.added);
        Parser::lemma_added_concat(s1, a1, sw);
        Parser::lemma_added_concat(s1, sw, s2);
        Parser::lemma_added_concat(s1, s2, s3);
        assert(s3.builder.top_views() =~= seq![crate::parser::grammar::tok_at(vs, pos)]
            + w.added + bt.added + close.added);
        assert(node == st.added[0]);
        assert(s0.added(s4) =~= st.added);
        assert(s0.pp_agree(s4, st));
    }
}

/// A step that added only tokens of one lexeme, or nothing: its run is
/// shaped and adds no expression when the token is not an expression
/// form.
pub(crate) proof fn lemma_token_step(a: Parser, b: Parser)
    requires
        a.carries(b),
        forall|j: int|
            0 <= j < a.added(b).len() ==> ((#[trigger] a.added(b)[j]) matches ElemV::Token { .. })
                && !is_expr_elem(a.added(b)[j]),
    ensures
        shaped_from(a.added(b), 0),
        count_exprs(a.added(b), 0) == 0,
{
    assert forall|j: int| 0 <= j < a.added(b).len() implies !is_expr_elem(
        #[trigger] a.added(b)[j],
    ) && shaped(a.added(b)[j]) by {
        assert(a.added(b)[j] matches ElemV::Token { .. });
    }
    crate::ast::lemma_run_facts(a.added(b), 0);
}

/// A trivia-only step: shaped, no expressions.
pub(crate) proof fn lemma_trivia_step(a: Parser, b: Parser)
    requires
        a.carries(b),
        forall|j: int|
            0 <= j < a.added(b).len() ==> ((#[trigger] a.added(b)[j]) matches ElemV::Token { .. })
                && a.added(b)[j].kind().is_trivia(),
    ensures
        shaped_from(a.added(b), 0),
        count_exprs(a.added(b), 0) == 0,
{
    lemma_trivia_run(a.added(b));
}

/// Folds one non-expression token step into the running
/// characterization that starts at `s1`.
pub(crate) proof fn step_token(s1: Parser, a: Parser, b: Parser)
    requires
        s1.carries(a),
        a.carries(b),
        s1.errors_eq(b) ==> {
            &&& shaped_from(s1.added(a), 0)
            &&& forall|j: int|
                0 <= j < a.added(b).len() ==> ((#[trigger] a.added(b)[j]) matches ElemV::Token {
                    ..
                }) && !is_expr_elem(a.added(b)[j])
        },
    ensures
        s1.carries(b),
        s1.errors_eq(b) ==> shaped_from(s1.added(b), 0) && count_exprs(s1.added(b), 0)
            == count_exprs(s1.added(a), 0),
{
    Parser::lemma_carries_trans(s1, a, b);
    if s1.errors_eq(b) {
        lemma_token_step(a, b);
        Parser::lemma_added_concat(s1, a, b);
        lemma_concat_shape(s1.added(a), a.added(b));
    }
}

/// Folds one trivia step into the running characterization.
pub(crate) proof fn step_trivia(s1: Parser, a: Parser, b: Parser)
    requires
        s1.carries(a),
        a.carries(b),
        s1.errors_eq(b) ==> {
            &&& shaped_from(s1.added(a), 0)
            &&& forall|j: int|
                0 <= j < a.added(b).len() ==> ((#[trigger] a.added(b)[j]) matches ElemV::Token {
                    ..
                }) && a.added(b)[j].kind().is_trivia()
        },
    ensures
        s1.carries(b),
        s1.errors_eq(b) ==> shaped_from(s1.added(b), 0) && count_exprs(s1.added(b), 0)
            == count_exprs(s1.added(a), 0),
{
    Parser::lemma_carries_trans(s1, a, b);
    if s1.errors_eq(b) {
        lemma_trivia_step(a, b);
        Parser::lemma_added_concat(s1, a, b);
        lemma_concat_shape(s1.added(a), a.added(b));
    }
}

/// Folds one expression step into the running characterization.
pub(crate) proof fn step_expr(s1: Parser, a: Parser, b: Parser)
    requires
        s1.carries(a),
        a.carries(b),
        s1.errors_eq(b) ==> shaped_from(s1.added(a), 0),
        s1.errors_eq(b) && a.errors_eq(b) ==> expr_run(a.added(b)),
    ensures
        s1.carries(b),
        s1.errors_eq(b) ==> shaped_from(s1.added(b), 0) && count_exprs(s1.added(b), 0)
            == count_exprs(s1.added(a), 0) + 1,
{
    Parser::lemma_carries_trans(s1, a, b);
    if s1.errors_eq(b) {
        lemma_expr_run_facts(a.added(b), 0);
        Parser::lemma_added_concat(s1, a, b);
        lemma_concat_shape(s1.added(a), a.added(b));
    }
}

/// Folds one token step into a tokens-only characterization.
pub(crate) proof fn step_token_any(s1: Parser, a: Parser, b: Parser)
    requires
        s1.carries(a),
        a.carries(b),
        forall|j: int|
            0 <= j < s1.added(a).len() ==> (#[trigger] s1.added(a)[j]) matches ElemV::Token {
                ..
            },
        forall|j: int|
            0 <= j < a.added(b).len() ==> (#[trigger] a.added(b)[j]) matches ElemV::Token { .. },
    ensures
        s1.carries(b),
        forall|j: int|
            0 <= j < s1.added(b).len() ==> (#[trigger] s1.added(b)[j]) matches ElemV::Token {
                ..
            },
{
    Parser::lemma_carries_trans(s1, a, b);
    Parser::lemma_added_concat(s1, a, b);
}

/// Folds one trivia step into a tokens-only characterization.
pub(crate) proof fn step_trivia_any(s1: Parser, a: Parser, b: Parser)
    requires
        s1.carries(a),
        a.carries(b),
        forall|j: int|
            0 <= j < s1.added(a).len() ==> (#[trigger] s1.added(a)[j]) matches ElemV::Token {
                ..
            },
        forall|j: int|
            0 <= j < a.added(b).len() ==> ((#[trigger] a.added(b)[j]) matches ElemV::Token { .. })
                && a.added(b)[j].kind().is_trivia(),
    ensures
        s1.carries(b),
        forall|j: int|
            0 <= j < s1.added(b).len() ==> (#[trigger] s1.added(b)[j]) matches ElemV::Token {
                ..
            },
{
    Parser::lemma_carries_trans(s1, a, b);
    Parser::lemma_added_concat(s1, a, b);
}

} // verus!
