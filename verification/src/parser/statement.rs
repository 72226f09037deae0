//! Statement parsing: the `let NAME = EXPR` binding definition.

use vstd::prelude::*;

use crate::ast::{count_exprs, is_token_of, item_run, shaped, shaped_from};
use crate::parser::Parser;
use crate::syntax_kind::SyntaxKind;
use crate::tree::ElemV;

verus! {

/// Parses a `let NAME = EXPR` binding definition. On a malformed
/// binding name, equals sign or right-hand side it records an error,
/// consumes one lexeme as an `Error` token, and parses the rest.
#[verifier::rlimit(100)]
#[verifier::spinoff_prover]
pub fn parse_statement(p: &mut Parser)
    requires
        old(p).inv(),
        old(p).builder.depth() > 0,
        old(p).peek_spec() == Some(SyntaxKind::Let),
    ensures
        old(p).carries(*final(p)),
        old(p).errors_eq(*final(p)) ==> item_run(old(p).added(*final(p))),
        final(p).pos > old(p).pos,
        old(p).pp_agree(
            *final(p),
            crate::parser::grammar::pp_statement(old(p).lex_views(), old(p).pos as int),
        ),
    decreases old(p).remaining(), 8int,
{
    let ghost s0 = *p;
    let ghost vs = s0.lex_views();
    let ghost pos = s0.pos as int;
    p.start_node(SyntaxKind::BindingDef);
    let ghost s1 = *p;
    proof {
        s0.lemma_tok_view(pos);
    }
    p.bump();
    let ghost a1 = *p;
    proof {
        crate::parser::expr::step_token(s1, s1, *p);
    }
    p.skip_ws();
    let ghost a2 = *p;
    proof {
        crate::parser::expr::step_trivia(s1, a1, *p);
    }
    proof {
        if a2.pos < a2.lexemes@.len() {
            s0.lemma_tok_view(a2.pos as int);
        }
    }
    match p.peek() {
        Some(SyntaxKind::Atom) => p.bump(),
        _ => p.error("expected binding name"),
    }
    let ghost named = *p;
    let ghost name_idx: int = a2.builder.top_views().len() - s1.builder.top_views().len();
    proof {
        Parser::lemma_carries_trans(s1, a2, *p);
        if s1.errors_eq(*p) {
            let atok = ElemV::Token {
                kind: a2.lexemes@[a2.pos as int].kind,
                text: a2.lexemes@[a2.pos as int].text@,
                range: a2.lexemes@[a2.pos as int].range,
            };
            assert(named.pos == a2.pos + 1);
            assert(a2.added(named) =~= seq![atok]);
            crate::ast::lemma_single_elem(atok);
            Parser::lemma_added_concat(s1, a2, named);
            crate::ast::lemma_concat_shape(s1.added(a2), a2.added(named));
            assert(s1.added(named)[name_idx as int] == atok);
            assert(is_token_of(s1.added(named)[name_idx as int], SyntaxKind::Atom));
        }
    }
    p.skip_ws();
    let ghost a3 = *p;
    proof {
        crate::parser::expr::step_trivia(s1, named, *p);
    }
    proof {
        if a3.pos < a3.lexemes@.len() {
            s0.lemma_tok_view(a3.pos as int);
        }
    }
    match p.peek() {
        Some(SyntaxKind::Equals) => p.bump(),
        _ => p.error("expected equals sign"),
    }
    let ghost a4 = *p;
    proof {
        crate::parser::expr::step_token(s1, a3, *p);
    }
    p.skip_ws();
    let ghost a5 = *p;
    proof {
        crate::parser::expr::step_trivia(s1, a4, *p);
    }
    crate::parser::expr::parse_expr(p);
    let ghost s3 = *p;
    proof {
        crate::parser::expr::step_expr(s1, a5, *p);
    }
    p.finish_node();
    let ghost s4 = *p;
    proof {
        Parser::lemma_wrapped_node(s0, s1, s3, s4, SyntaxKind::BindingDef);
        let node = s3.builder.finished_top();
        if s0.errors_eq(s4) {
            let cs = s3.builder.top_views();
            Parser::lemma_added_index(s1, named, s3, name_idx as int);
            assert(is_token_of(cs[name_idx as int], SyntaxKind::Atom));
            assert(shaped_from(cs, 0));
            // the expression the steps added sits after the name, so
            // counting past the name still finds it
            Parser::lemma_added_concat(s1, named, s3);
            assert(cs.take(name_idx + 1) =~= s1.added(named));
            crate::ast::lemma_count_exprs_split(cs, 0, name_idx + 1);
            assert(count_exprs(s1.added(named), 0) == 1);
            assert(count_exprs(cs.take(name_idx + 1), 0) == 1);
            assert(count_exprs(cs, 0) == 2);
            assert(count_exprs(cs, name_idx + 1) >= 1);
            assert(crate::ast::arity_ok(SyntaxKind::BindingDef, cs));
            assert(shaped(node));
            assert(item_run(s0.added(s4)));
        }
        // the grammar's word on this binding definition
        let st = crate::parser::grammar::pp_statement(vs, pos);
        s0.lemma_off_view(pos);
        s3.lemma_off_view(s3.pos as int);
        let p1 = pos + 1;
        let w1 = crate::parser::grammar::pp_skip_ws(vs, p1);
        assert(a2.pos as int == crate::parser::grammar::step_pos(vs, w1.pos, p1)
            && a1.added(a2) == w1.added);
        let p2 = crate::parser::grammar::step_pos(vs, w1.pos, p1);
        let name = if crate::parser::grammar::k_at(vs, p2) == Some(SyntaxKind::Atom) {
            crate::parser::grammar::PStep {
                pos: p2 + 1,
                added: seq![crate::parser::grammar::tok_at(vs, p2)],
                errs: 0,
            }
        } else {
            crate::parser::grammar::pp_error(vs, p2)
        };
        assert(named.pos as int == name.pos && a2.added(named) == name.added);
        let p3 = crate::parser::grammar::step_pos(vs, name.pos, p2);
        assert(p3 == named.pos as int);
        let w2 = crate::parser::grammar::pp_skip_ws(vs, p3);
        assert(a3.pos as int == crate::parser::grammar::step_pos(vs, w2.pos, p3)
            && named.added(a3) == w2.added);
        let p4 = crate::parser::grammar::step_pos(vs, w2.pos, p3);
        let eq = if crate::parser::grammar::k_at(vs, p4) == Some(SyntaxKind::Equals) {
            crate::parser::grammar::PStep {
                pos: p4 + 1,
                added: seq![crate::parser::grammar::tok_at(vs, p4)],
                errs: 0,
            }
        } else {
            crate::parser::grammar::pp_error(vs, p4)
        };
        assert(a4.pos as int == eq.pos && a3.added(a4) == eq.added);
        let p5 = crate::parser::grammar::step_pos(vs, eq.pos, p4);
        assert(p5 == a4.pos as int);
        let w3 = crate::parser::grammar::pp_skip_ws(vs, p5);
        assert(a5.pos as int == crate::parser::grammar::step_pos(vs, w3.pos, p5)
            && a4.added(a5) == w3.added);
        let p6 = crate::parser::grammar::step_pos(vs, w3.pos, p5);
        let rhs = crate::parser::grammar::pp_expr(
            vs,
            crate::parser::grammar::step_pos(vs, p6, pos + 1),
        );
        assert(crate::parser::grammar::step_pos(vs, p6, pos + 1) == a5.pos as int);
        assert(s3.pos as int == rhs.pos && a5.added(s3) == rhs.added);
        Parser::lemma_added_concat(s1, a1, a2);
        Parser::lemma_added_concat(s1, a2, named);
        Parser::lemma_added_concat(s1, named, a3);
        Parser::lemma_added_concat(s1, a3, a4);
        Parser::lemma_added_concat(s1, a4, a5);
        Parser::lemma_added_concat(s1, a5, s3);
        assert(s1.added(a1) =~= seq![crate::parser::grammar::tok_at(vs, pos)]);
        assert(s3.builder.top_views() =~= seq![crate::parser::grammar::tok_at(vs, pos)]
            + w1.added + name.added + w2.added + eq.added + w3.added + rhs.added);
        assert(node == st.added[0]);
        assert(s0.added(s4) =~= st.added);
        assert(s0.pp_agree(s4, st));
    }
}

} // verus!
