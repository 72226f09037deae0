//! Item parsing: a top-level or block-level line is either a binding
//! definition or an expression.

use vstd::prelude::*;

use crate::ast::{expr_run, item_run};
use crate::parser::Parser;
use crate::syntax_kind::SyntaxKind;

verus! {

/// Parses one item: a `let` binding definition, or an expression.
pub fn parse_item(p: &mut Parser)
    requires
        old(p).inv(),
        old(p).builder.depth() > 0,
    ensures
        old(p).carries(*final(p)),
        old(p).errors_eq(*final(p)) ==> item_run(old(p).added(*final(p))),
        final(p).pos == old(p).pos ==> (old(p).peek_spec() is None || old(p).peek_spec() == Some(
            SyntaxKind::Eol,
        ) || old(p).peek_spec() == Some(SyntaxKind::RBrace)),
        old(p).pp_agree(
            *final(p),
            crate::parser::grammar::pp_item(old(p).lex_views(), old(p).pos as int),
        ),
    decreases old(p).remaining(), 9int,
{
    match p.peek() {
        Some(SyntaxKind::Let) => crate::parser::statement::parse_statement(p),
        _ => {
            let ghost s0 = *p;
            crate::parser::expr::parse_expr(p);
            proof {
                if s0.errors_eq(*p) {
                    assert(expr_run(s0.added(*p)));
                    assert(item_run(s0.added(*p)));
                }
            }
        },
    }
}

} // verus!
