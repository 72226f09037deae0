//! Parsing and the results thereof.
//!
//! The parser consumes the lexeme stream and drives the tree builder to
//! produce one `Root` node covering the entire input, plus a list of
//! recoverable syntax errors. A malformed token never aborts parsing:
//! the parser records an error, consumes at most one lexeme as an
//! `Error` token, and goes on.

use vstd::prelude::*;

pub mod expr;
pub mod grammar;
pub mod item;
pub mod statement;

use crate::builder::TreeBuilder;
use crate::lexer::{lex, lex_texts, lexemes_laid, lexemes_match, lemma_lex_texts_snoc, lex_spec, LexemeV};
use crate::parser::grammar::{off_at, pp_error, pp_root, tok_at, PStep};
use crate::syntax_kind::SyntaxKind;
use crate::text_range::TextRange;
use crate::tree::{ElemV, SyntaxElement, SyntaxToken};

verus! {

/// One recoverable syntax error: what was expected, and the range of
/// the offending lexeme.
#[derive(Debug, Clone, PartialEq)]
pub struct SyntaxError {
    /// what the parser expected
    pub message: String,
    /// the range of the lexeme that did not fit
    pub range: TextRange,
}

/// The output of parsing Fjord code: the root of the syntax tree and
/// the recoverable errors found on the way. The tree always covers the
/// whole input, whatever the errors.
#[derive(Debug)]
pub struct ParseOutput {
    /// the `Root` element covering the entire input
    pub root: SyntaxElement,
    /// the syntax errors, in the order they were found
    pub errors: Vec<SyntaxError>,
}

impl ParseOutput {
    /// A representation of the underlying syntax tree suitable for
    /// debugging purposes: one line per node or token.
    pub fn debug_tree(&self) -> String {
        crate::tree::debug_tree_of(&self.root)
    }

    /// Evaluates the parsed syntax tree with the given environment.
    ///
    /// The parser guarantees the shape this requires whenever it
    /// recorded no syntax error.
    pub fn eval(&self, env: &mut crate::env::Env, fuel: u64, outcomes: &Vec<bool>) -> (r: Result<
        crate::val::Val,
        crate::eval::EvalStop,
    >)
        requires
            old(env).wf(),
            crate::eval::env_ok(old(env).view_scopes()),
            crate::ast::shaped(self.root@),
            self.root@ matches ElemV::Node { .. },
        ensures
            final(env).wf(),
            crate::eval::env_ok(final(env).view_scopes()),
            final(env).view_cmds() == old(env).view_cmds(),
            ({
                let s = crate::eval::sp_items(
                    fuel as nat,
                    crate::eval::node_children(self.root@),
                    0,
                    crate::val::ValV::Nil,
                    old(env).view_scopes(),
                    old(env).view_cmds(),
                    outcomes@,
                    0,
                );
                crate::eval::out_rel(r, s.out) && final(env).view_scopes() == s.env
            }),
    {
        crate::eval::eval_item_children(&self.root, env, fuel, outcomes)
    }
}

/// Parses Fjord code.
pub struct Parser {
    /// the lexemes of the input, in order
    pub lexemes: Vec<SyntaxToken>,
    /// how many lexemes have been consumed
    pub pos: usize,
    /// the tree builder driven by the parser
    pub builder: TreeBuilder,
    /// the recoverable errors found so far
    pub errors: Vec<SyntaxError>,
    /// the characters of the input
    pub input: Ghost<Seq<char>>,
}

impl Parser {
    /// The parser's invariant: every consumed lexeme's text stands in
    /// the builder, in order, and the lexemes cover the input exactly.
    pub open spec fn inv(self) -> bool {
        &&& self.pos <= self.lexemes@.len()
        &&& self.builder.wf()
        &&& lexemes_laid(self.lexemes@)
        &&& lexemes_match(self.lexemes@, lex_spec(self.input@, 0))
        &&& lex_texts(self.lexemes@, 0, self.lexemes@.len() as int) == self.input@
        &&& self.builder.text() == lex_texts(self.lexemes@, 0, self.pos as int)
    }

    /// The lexemes as the records the lexer and the grammar are
    /// specified by.
    pub open spec fn lex_views(self) -> Seq<LexemeV> {
        Seq::new(
            self.lexemes@.len(),
            |i: int|
                LexemeV {
                    kind: self.lexemes@[i].kind,
                    text: self.lexemes@[i].text@,
                    start: self.lexemes@[i].range.start as int,
                },
        )
    }

    /// A step took the parser from `self` to `new` exactly as the
    /// grammar's word `st` says: same end position, same appended
    /// children, same number of errors recorded.
    pub open spec fn pp_agree(self, new: Parser, st: PStep) -> bool {
        &&& new.pos as int == st.pos
        &&& self.added(new) == st.added
        &&& new.errors@.len() == self.errors@.len() + st.errs
    }

    /// The grammar's leaf for a position is exactly the lexeme there.
    pub proof fn lemma_tok_view(self, j: int)
        requires
            self.inv(),
            0 <= j < self.lexemes@.len(),
        ensures
            tok_at(self.lex_views(), j) == (ElemV::Token {
                kind: self.lexemes@[j].kind,
                text: self.lexemes@[j].text@,
                range: self.lexemes@[j].range,
            }),
            crate::parser::grammar::err_tok_at(self.lex_views(), j) == (ElemV::Token {
                kind: SyntaxKind::Error,
                text: self.lexemes@[j].text@,
                range: self.lexemes@[j].range,
            }),
    {
        assert(self.lexemes@[j].range.end == self.lexemes@[j].range.start
            + self.lexemes@[j].text@.len());
    }

    /// The grammar's offset for a position is the text length consumed
    /// up to it — the builder's running offset.
    pub proof fn lemma_off_view(self, j: int)
        requires
            self.inv(),
            0 <= j <= self.lexemes@.len(),
        ensures
            off_at(self.lex_views(), j) == lex_texts(self.lexemes@, 0, j).len(),
    {
        if j == 0 {
            assert(lex_texts(self.lexemes@, 0, 0) =~= Seq::<char>::empty());
        } else {
            lemma_lex_texts_snoc(self.lexemes@, 0, j - 1);
            assert(self.lexemes@[j - 1].range.start == lex_texts(
                self.lexemes@,
                0,
                j - 1,
            ).len());
        }
    }

    /// The views of the parser's lexemes are the lexer's word on its
    /// input.
    pub proof fn lemma_views_are_lex_spec(self)
        requires
            self.inv(),
        ensures
            self.lex_views() == lex_spec(self.input@, 0),
    {
        assert(self.lex_views() =~= lex_spec(self.input@, 0));
    }

    /// The number of lexemes not yet consumed.
    pub open spec fn remaining(self) -> int {
        self.lexemes@.len() - self.pos
    }

    /// The kind of the next lexeme, if there is one.
    pub open spec fn peek_spec(self) -> Option<SyntaxKind> {
        if self.pos < self.lexemes@.len() {
            Some(self.lexemes@[self.pos as int].kind)
        } else {
            None
        }
    }

    /// What every parsing step preserves: the lexemes, the input, the
    /// builder's depth and outer frames; consumed lexemes and errors
    /// only grow.
    pub open spec fn carries(self, new: Parser) -> bool {
        &&& new.inv()
        &&& new.lexemes@ == self.lexemes@
        &&& new.input == self.input
        &&& self.pos <= new.pos
        &&& new.builder.depth() == self.builder.depth()
        &&& self.builder.same_but_top(new.builder)
        &&& self.builder.top_views().is_prefix_of(new.builder.top_views())
        &&& self.errors@.len() <= new.errors@.len()
    }

    /// The children the step added to the innermost open node.
    pub open spec fn added(self, new: Parser) -> Seq<ElemV> {
        new.builder.top_views().skip(self.builder.top_views().len() as int)
    }

    /// One step carries over another.
    pub proof fn lemma_carries_trans(a: Parser, b: Parser, c: Parser)
        requires
            a.carries(b),
            b.carries(c),
        ensures
            a.carries(c),
    {
        assert(a.builder.top_views().is_prefix_of(c.builder.top_views()));
    }

    /// Creates a new Parser given the input.
    pub fn new(input: &str) -> (p: Parser)
        ensures
            p.inv(),
            p.pos == 0,
            p.builder.depth() == 0,
            p.builder.base@.len() == 0,
            p.errors@.len() == 0,
            p.input@ == input@,
    {
        let lexemes = lex(input);
        let p = Parser {
            lexemes,
            pos: 0,
            builder: TreeBuilder::new(),
            errors: Vec::new(),
            input: Ghost(input@),
        };
        proof {
            assert(lex_texts(p.lexemes@, 0, 0) =~= Seq::<char>::empty());
        }
        p
    }

    /// The kind of the next lexeme, without consuming it.
    pub fn peek(&self) -> (r: Option<SyntaxKind>)
        ensures
            r == self.peek_spec(),
    {
        if self.pos < self.lexemes.len() {
            Some(self.lexemes[self.pos].kind)
        } else {
            None
        }
    }

    /// True when every lexeme has been consumed.
    pub fn at_end(&self) -> (r: bool)
        ensures
            r == (self.peek_spec() is None),
    {
        self.pos >= self.lexemes.len()
    }

    /// True at the end of the input or of the line.
    pub fn at_end_or_eol(&self) -> (r: bool)
        ensures
            r == (self.peek_spec() is None || self.peek_spec() == Some(SyntaxKind::Eol)),
    {
        match self.peek() {
            None => true,
            Some(k) => k == SyntaxKind::Eol,
        }
    }

    /// Consumes the next lexeme into the tree under the given kind.
    fn advance(&mut self, kind: SyntaxKind)
        requires
            old(self).inv(),
            old(self).builder.depth() > 0,
            old(self).pos < old(self).lexemes@.len(),
        ensures
            old(self).carries(*final(self)),
            final(self).pos == old(self).pos + 1,
            final(self).errors@ == old(self).errors@,
            final(self).builder.top_views() == old(self).builder.top_views().push(
                ElemV::Token {
                    kind,
                    text: old(self).lexemes@[old(self).pos as int].text@,
                    range: old(self).lexemes@[old(self).pos as int].range,
                },
            ),
    {
        let ghost oldp = *self;
        let text = self.lexemes[self.pos].text.clone();
        proof {
            let ls = self.lexemes@;
            let j = self.pos as int;
            assert(ls[j].range.start == lex_texts(ls, 0, j).len());
            assert(self.builder.offset == ls[j].range.start);
            assert(ls[j].range.end <= usize::MAX);
            lemma_lex_texts_snoc(ls, 0, j);
        }
        self.builder.token(kind, text);
        // the next position exists, so the counter stays in range
        let lexeme_count: usize = self.lexemes.len();
        proof {
            assert(self.pos < lexeme_count);
        }
        self.pos = self.pos + 1;
        proof {
            assert(self.builder.top_views() =~= oldp.builder.top_views().push(
                ElemV::Token {
                    kind,
                    text: oldp.lexemes@[oldp.pos as int].text@,
                    range: oldp.lexemes@[oldp.pos as int].range,
                },
            ));
            assert(oldp.builder.top_views().is_prefix_of(self.builder.top_views()));
        }
    }

    /// Consumes the next lexeme under its own kind.
    pub fn bump(&mut self)
        requires
            old(self).inv(),
            old(self).builder.depth() > 0,
            old(self).pos < old(self).lexemes@.len(),
        ensures
            old(self).carries(*final(self)),
            final(self).pos == old(self).pos + 1,
            final(self).errors@ == old(self).errors@,
            final(self).builder.top_views() == old(self).builder.top_views().push(
                ElemV::Token {
                    kind: old(self).lexemes@[old(self).pos as int].kind,
                    text: old(self).lexemes@[old(self).pos as int].text@,
                    range: old(self).lexemes@[old(self).pos as int].range,
                },
            ),
    {
        let kind = self.lexemes[self.pos].kind;
        self.advance(kind);
    }

    /// Consumes whitespace lexemes.
    pub fn skip_ws(&mut self)
        requires
            old(self).inv(),
            old(self).builder.depth() > 0,
        ensures
            old(self).carries(*final(self)),
            final(self).errors@ == old(self).errors@,
            forall|j: int|
                0 <= j < old(self).added(*final(self)).len() ==> (#[trigger] old(self).added(
                    *final(self),
                )[j]) matches ElemV::Token { kind: SyntaxKind::Whitespace, .. },
            final(self).peek_spec() != Some(SyntaxKind::Whitespace),
            old(self).pp_agree(
                *final(self),
                crate::parser::grammar::pp_skip_ws(old(self).lex_views(), old(self).pos as int),
            ),
    {
        let ghost oldp = *self;
        let ghost full = crate::parser::grammar::pp_skip_ws(oldp.lex_views(), oldp.pos as int);
        loop
            invariant
                oldp.inv(),
                oldp.builder.depth() > 0,
                oldp.carries(*self),
                self.errors@ == oldp.errors@,
                self.builder.depth() == oldp.builder.depth(),
                full == crate::parser::grammar::pp_skip_ws(oldp.lex_views(), oldp.pos as int),
                ({
                    let rest = crate::parser::grammar::pp_skip_ws(
                        oldp.lex_views(),
                        self.pos as int,
                    );
                    full.pos == rest.pos && full.added =~= oldp.added(*self) + rest.added
                }),
                forall|j: int|
                    0 <= j < oldp.added(*self).len() ==> (#[trigger] oldp.added(*self)[j]) matches
                        ElemV::Token { kind: SyntaxKind::Whitespace, .. },
            ensures
                oldp.carries(*self),
                self.errors@ == oldp.errors@,
                forall|j: int|
                    0 <= j < oldp.added(*self).len() ==> (#[trigger] oldp.added(*self)[j]) matches
                        ElemV::Token { kind: SyntaxKind::Whitespace, .. },
                self.peek_spec() != Some(SyntaxKind::Whitespace),
                oldp.pp_agree(*self, full),
            decreases self.remaining(),
        {
            let ghost prev = *self;
            match self.peek() {
                Some(SyntaxKind::Whitespace) => {
                    proof {
                        oldp.lemma_tok_view(self.pos as int);
                    }
                    self.bump();
                    proof {
                        Parser::lemma_carries_trans(oldp, prev, *self);
                        assert(oldp.added(*self) =~= oldp.added(prev).push(
                            self.builder.top_views().last(),
                        ));
                        let rest = crate::parser::grammar::pp_skip_ws(
                            oldp.lex_views(),
                            prev.pos as int,
                        );
                        let rest2 = crate::parser::grammar::pp_skip_ws(
                            oldp.lex_views(),
                            self.pos as int,
                        );
                        assert(rest.added =~= seq![
                            crate::parser::grammar::tok_at(oldp.lex_views(), prev.pos as int),
                        ] + rest2.added);
                        assert(full.added =~= oldp.added(*self) + rest2.added);
                    }
                },
                _ => {
                    proof {
                        let rest = crate::parser::grammar::pp_skip_ws(
                            oldp.lex_views(),
                            self.pos as int,
                        );
                        assert(rest.added =~= Seq::<ElemV>::empty());
                        assert(full.added =~= oldp.added(*self));
                        assert(oldp.added(*self) == full.added);
                    }
                    break;
                },
            }
        }
    }

    /// Consumes whitespace and line-break lexemes.
    pub fn skip_ws_and_eol(&mut self)
        requires
            old(self).inv(),
            old(self).builder.depth() > 0,
        ensures
            old(self).carries(*final(self)),
            final(self).errors@ == old(self).errors@,
            forall|j: int|
                0 <= j < old(self).added(*final(self)).len() ==> ((#[trigger] old(self).added(
                    *final(self),
                )[j]) matches ElemV::Token { .. }) && old(self).added(*final(self))[j].kind().is_trivia(),
            final(self).peek_spec() != Some(SyntaxKind::Whitespace),
            final(self).peek_spec() != Some(SyntaxKind::Eol),
            old(self).pp_agree(
                *final(self),
                crate::parser::grammar::pp_skip_ws_eol(
                    old(self).lex_views(),
                    old(self).pos as int,
                ),
            ),
    {
        let ghost oldp = *self;
        let ghost full = crate::parser::grammar::pp_skip_ws_eol(
            oldp.lex_views(),
            oldp.pos as int,
        );
        loop
            invariant
                oldp.inv(),
                oldp.builder.depth() > 0,
                oldp.carries(*self),
                self.errors@ == oldp.errors@,
                self.builder.depth() == oldp.builder.depth(),
                full == crate::parser::grammar::pp_skip_ws_eol(
                    oldp.lex_views(),
                    oldp.pos as int,
                ),
                ({
                    let rest = crate::parser::grammar::pp_skip_ws_eol(
                        oldp.lex_views(),
                        self.pos as int,
                    );
                    full.pos == rest.pos && full.added =~= oldp.added(*self) + rest.added
                }),
                forall|j: int|
                    0 <= j < oldp.added(*self).len() ==> ((#[trigger] oldp.added(
                        *self,
                    )[j]) matches ElemV::Token { .. }) && oldp.added(*self)[j].kind().is_trivia(),
            ensures
                oldp.carries(*self),
                self.errors@ == oldp.errors@,
                forall|j: int|
                    0 <= j < oldp.added(*self).len() ==> ((#[trigger] oldp.added(
                        *self,
                    )[j]) matches ElemV::Token { .. }) && oldp.added(*self)[j].kind().is_trivia(),
                self.peek_spec() != Some(SyntaxKind::Whitespace),
                self.peek_spec() != Some(SyntaxKind::Eol),
                oldp.pp_agree(*self, full),
            decreases self.remaining(),
        {
            let ghost prev = *self;
            let skip = match self.peek() {
                Some(SyntaxKind::Whitespace) => true,
                Some(SyntaxKind::Eol) => true,
                _ => false,
            };
            if skip {
                proof {
                    oldp.lemma_tok_view(self.pos as int);
                }
                self.bump();
                proof {
                    Parser::lemma_carries_trans(oldp, prev, *self);
                    assert(oldp.added(*self) =~= oldp.added(prev).push(
                        self.builder.top_views().last(),
                    ));
                    let rest = crate::parser::grammar::pp_skip_ws_eol(
                        oldp.lex_views(),
                        prev.pos as int,
                    );
                    let rest2 = crate::parser::grammar::pp_skip_ws_eol(
                        oldp.lex_views(),
                        self.pos as int,
                    );
                    assert(rest.added =~= seq![
                        crate::parser::grammar::tok_at(oldp.lex_views(), prev.pos as int),
                    ] + rest2.added);
                    assert(full.added =~= oldp.added(*self) + rest2.added);
                }
            } else {
                proof {
                    let rest = crate::parser::grammar::pp_skip_ws_eol(
                        oldp.lex_views(),
                        self.pos as int,
                    );
                    assert(rest.added =~= Seq::<ElemV>::empty());
                    assert(full.added =~= oldp.added(*self));
                    assert(oldp.added(*self) == full.added);
                }
                break;
            }
        }
    }

    /// Two steps in sequence add the concatenation of what each added.
    pub proof fn lemma_added_concat(a: Parser, b: Parser, c: Parser)
        requires
            a.carries(b),
            b.carries(c),
        ensures
            a.added(c) =~= a.added(b) + b.added(c),
    {
        let la = a.builder.top_views().len() as int;
        let lb = b.builder.top_views().len() as int;
        assert(b.builder.top_views() =~= c.builder.top_views().take(lb));
        assert(a.added(c) =~= a.added(b) + b.added(c));
    }

    /// The errors did not change between two parser states.
    pub open spec fn errors_eq(self, b: Parser) -> bool {
        self.errors@.len() == b.errors@.len()
    }

    /// Composes one `start_node`, a balanced body, and one
    /// `finish_node` into a single appended node.
    pub proof fn lemma_wrapped_node(s0: Parser, s1: Parser, s3: Parser, s4: Parser, kind: SyntaxKind)
        requires
            s0.inv(),
            s0.builder.depth() > 0,
            s1.inv(),
            s1.lexemes@ == s0.lexemes@,
            s1.input == s0.input,
            s1.pos == s0.pos,
            s1.errors@ == s0.errors@,
            s1.builder.depth() == s0.builder.depth() + 1,
            forall|k: int|
                0 <= k < s0.builder.frames@.len() ==> #[trigger] s1.builder.frames@[k]
                    == s0.builder.frames@[k],
            s1.builder.top_views() == Seq::<ElemV>::empty(),
            s1.builder.frames@.last().kind == kind,
            s1.builder.base@ == s0.builder.base@,
            s1.carries(s3),
            s4.inv(),
            s4.lexemes@ == s3.lexemes@,
            s4.input == s3.input,
            s4.pos == s3.pos,
            s4.errors@ == s3.errors@,
            s4.builder.depth() == s3.builder.depth() - 1,
            forall|k: int|
                0 <= k < s3.builder.frames@.len() - 2 ==> #[trigger] s4.builder.frames@[k]
                    == s3.builder.frames@[k],
            s4.builder.frames@.last().kind == s3.builder.frames@[s3.builder.frames@.len()
                - 2].kind,
            s4.builder.frames@.last().start == s3.builder.frames@[s3.builder.frames@.len()
                - 2].start,
            s4.builder.top_views() == crate::builder::frame_views(
                s3.builder.frames@[s3.builder.frames@.len() - 2],
            ).push(s3.builder.finished_top()),
            s4.builder.base@ == s3.builder.base@,
        ensures
            s0.carries(s4),
            s4.pos == s3.pos,
            s0.added(s4) =~= seq![s3.builder.finished_top()],
            s3.builder.finished_top().kind() == kind,
            s3.builder.finished_top() matches ElemV::Node { children, .. } && children
                == s3.builder.top_views(),
            s3.builder.top_views() == s1.added(s3),
    {
        let d = s0.builder.frames@.len() as int;
        assert(s3.builder.frames@.len() == d + 1);
        assert(s3.builder.frames@[d - 1] == s1.builder.frames@[d - 1]);
        assert(s1.builder.frames@[d - 1] == s0.builder.frames@[d - 1]);
        assert(s4.builder.top_views() == s0.builder.top_views().push(
            s3.builder.finished_top(),
        ));
        assert(s0.builder.top_views().is_prefix_of(s4.builder.top_views()));
        assert(s3.builder.frames@.last().kind == s1.builder.frames@.last().kind);
        assert(s1.added(s3) =~= s3.builder.top_views());
        assert(s0.added(s4) =~= seq![s3.builder.finished_top()]);
        assert forall|k: int| 0 <= k < d - 1 implies #[trigger] s4.builder.frames@[k]
            == s0.builder.frames@[k] by {
            assert(s4.builder.frames@[k] == s3.builder.frames@[k]);
            assert(s3.builder.frames@[k] == s1.builder.frames@[k]);
        }
    }

    /// Extends a characterized run of added children by one more
    /// characterized segment.
    pub proof fn lemma_extend(s1: Parser, a: Parser, b: Parser, c0: int, c1: int)
        requires
            s1.carries(a),
            a.carries(b),
            crate::ast::shaped_from(s1.added(a), 0),
            crate::ast::count_exprs(s1.added(a), 0) == c0,
            crate::ast::shaped_from(a.added(b), 0),
            crate::ast::count_exprs(a.added(b), 0) == c1,
        ensures
            s1.carries(b),
            crate::ast::shaped_from(s1.added(b), 0),
            crate::ast::count_exprs(s1.added(b), 0) == c0 + c1,
    {
        Parser::lemma_carries_trans(s1, a, b);
        Parser::lemma_added_concat(s1, a, b);
        crate::ast::lemma_concat_shape(s1.added(a), a.added(b));
    }

    /// What an earlier step added stays in place as later steps add
    /// more.
    pub proof fn lemma_added_index(s1: Parser, a: Parser, b: Parser, idx: int)
        requires
            s1.carries(a),
            a.carries(b),
            0 <= idx < s1.added(a).len(),
        ensures
            s1.added(b).len() >= s1.added(a).len(),
            s1.added(b)[idx] == s1.added(a)[idx],
    {
        Parser::lemma_added_concat(s1, a, b);
    }

    /// Composes one `start_node_at`, a balanced body, and one
    /// `finish_node` into a single node that replaces the children
    /// emitted since the checkpoint.
    pub proof fn lemma_wrapped_at(
        s0: Parser,
        sb: Parser,
        sc: Parser,
        sf: Parser,
        sg: Parser,
        cp: usize,
        kind: SyntaxKind,
    )
        requires
            s0.inv(),
            s0.builder.depth() > 0,
            s0.carries(sb),
            cp == s0.builder.top_views().len(),
            sc.inv(),
            sc.lexemes@ == sb.lexemes@,
            sc.input == sb.input,
            sc.pos == sb.pos,
            sc.errors@ == sb.errors@,
            sc.builder.depth() == sb.builder.depth() + 1,
            forall|k: int|
                0 <= k < sb.builder.frames@.len() - 1 ==> #[trigger] sc.builder.frames@[k]
                    == sb.builder.frames@[k],
            sc.builder.frames@[sb.builder.frames@.len() - 1].kind
                == sb.builder.frames@.last().kind,
            sc.builder.frames@[sb.builder.frames@.len() - 1].start
                == sb.builder.frames@.last().start,
            crate::builder::frame_views(sc.builder.frames@[sb.builder.frames@.len() - 1])
                == sb.builder.top_views().take(cp as int),
            sc.builder.frames@.last().kind == kind,
            sc.builder.top_views() == sb.builder.top_views().skip(cp as int),
            sc.builder.base@ == sb.builder.base@,
            sc.carries(sf),
            sg.inv(),
            sg.lexemes@ == sf.lexemes@,
            sg.input == sf.input,
            sg.pos == sf.pos,
            sg.errors@ == sf.errors@,
            sg.builder.depth() == sf.builder.depth() - 1,
            forall|k: int|
                0 <= k < sf.builder.frames@.len() - 2 ==> #[trigger] sg.builder.frames@[k]
                    == sf.builder.frames@[k],
            sg.builder.frames@.last().kind == sf.builder.frames@[sf.builder.frames@.len()
                - 2].kind,
            sg.builder.frames@.last().start == sf.builder.frames@[sf.builder.frames@.len()
                - 2].start,
            sg.builder.top_views() == crate::builder::frame_views(
                sf.builder.frames@[sf.builder.frames@.len() - 2],
            ).push(sf.builder.finished_top()),
            sg.builder.base@ == sf.builder.base@,
        ensures
            s0.carries(sg),
            s0.added(sg) =~= seq![sf.builder.finished_top()],
            sf.builder.finished_top().kind() == kind,
            sf.builder.finished_top() matches ElemV::Node { children, .. } && children
                == sf.builder.top_views(),
            sf.builder.top_views() =~= s0.added(sb) + sc.added(sf),
    {
        let d = s0.builder.frames@.len() as int;
        assert(sb.builder.frames@.len() == d);
        assert(sc.builder.frames@.len() == d + 1);
        assert(sf.builder.frames@.len() == d + 1);
        assert(sf.builder.frames@[d - 1] == sc.builder.frames@[d - 1]);
        assert(crate::builder::frame_views(sf.builder.frames@[d - 1])
            == sb.builder.top_views().take(cp as int));
        assert(sb.builder.top_views().take(cp as int) =~= s0.builder.top_views());
        assert(sg.builder.top_views() == s0.builder.top_views().push(
            sf.builder.finished_top(),
        ));
        assert(s0.builder.top_views().is_prefix_of(sg.builder.top_views()));
        assert(s0.added(sg) =~= seq![sf.builder.finished_top()]);
        assert(sc.builder.top_views() =~= s0.added(sb));
        assert(sc.builder.top_views().is_prefix_of(sf.builder.top_views()));
        assert(sf.builder.top_views() =~= s0.added(sb) + sc.added(sf));
        assert(sf.builder.frames@.last().kind == sc.builder.frames@.last().kind);
        assert forall|k: int| 0 <= k < d - 1 implies #[trigger] sg.builder.frames@[k]
            == s0.builder.frames@[k] by {
            assert(sg.builder.frames@[k] == sf.builder.frames@[k]);
            assert(sf.builder.frames@[k] == sc.builder.frames@[k]);
            assert(sc.builder.frames@[k] == sb.builder.frames@[k]);
            assert(sb.builder.frames@[k] == s0.builder.frames@[k]);
        }
        assert(sg.builder.frames@.last().kind == s0.builder.frames@.last().kind);
        assert(sg.builder.frames@.last().start == s0.builder.frames@.last().start);
    }

    /// Opens a node in the tree under construction.
    pub fn start_node(&mut self, kind: SyntaxKind)
        requires
            old(self).inv(),
        ensures
            final(self).inv(),
            final(self).lexemes@ == old(self).lexemes@,
            final(self).input == old(self).input,
            final(self).pos == old(self).pos,
            final(self).errors@ == old(self).errors@,
            final(self).builder.depth() == old(self).builder.depth() + 1,
            forall|k: int|
                0 <= k < old(self).builder.frames@.len() ==> #[trigger] final(self).builder.frames@[k] == old(self).builder.frames@[k],
            final(self).builder.top_views() == Seq::<ElemV>::empty(),
            final(self).builder.frames@.last().kind == kind,
            final(self).builder.frames@.last().start == old(self).builder.offset,
            final(self).builder.base@ == old(self).builder.base@,
            final(self).builder.offset == old(self).builder.offset,
    {
        self.builder.start_node(kind);
    }

    /// A checkpoint at the current position among the open node's
    /// children.
    pub fn checkpoint(&self) -> (r: usize)
        requires
            self.inv(),
            self.builder.depth() > 0,
        ensures
            r == self.builder.top_views().len(),
    {
        self.builder.checkpoint()
    }

    /// Opens a node that adopts every child emitted since the
    /// checkpoint.
    pub fn start_node_at(&mut self, checkpoint: usize, kind: SyntaxKind)
        requires
            old(self).inv(),
            old(self).builder.depth() > 0,
            checkpoint <= old(self).builder.top_views().len(),
        ensures
            final(self).inv(),
            final(self).lexemes@ == old(self).lexemes@,
            final(self).input == old(self).input,
            final(self).pos == old(self).pos,
            final(self).errors@ == old(self).errors@,
            final(self).builder.depth() == old(self).builder.depth() + 1,
            forall|k: int|
                0 <= k < old(self).builder.frames@.len() - 1 ==> #[trigger] final(self).builder.frames@[k] == old(self).builder.frames@[k],
            final(self).builder.frames@[old(self).builder.frames@.len() - 1].kind == old(self).builder.frames@.last().kind,
            final(self).builder.frames@[old(self).builder.frames@.len() - 1].start == old(self).builder.frames@.last().start,
            crate::builder::frame_views(
                final(self).builder.frames@[old(self).builder.frames@.len() - 1],
            ) == old(self).builder.top_views().take(checkpoint as int),
            final(self).builder.frames@.last().kind == kind,
            final(self).builder.frames@.last().start as int == (if (checkpoint as int) < old(
                self,
            ).builder.top_views().len() {
                old(self).builder.top_views()[checkpoint as int].range().start as int
            } else {
                old(self).builder.offset as int
            }),
            final(self).builder.top_views() == old(self).builder.top_views().skip(
                checkpoint as int,
            ),
            final(self).builder.base@ == old(self).builder.base@,
            final(self).builder.offset == old(self).builder.offset,
    {
        self.builder.start_node_at(checkpoint, kind);
    }

    /// Closes the innermost open node, appending it to its parent.
    pub fn finish_node(&mut self)
        requires
            old(self).inv(),
            old(self).builder.depth() > 1,
        ensures
            final(self).inv(),
            final(self).lexemes@ == old(self).lexemes@,
            final(self).input == old(self).input,
            final(self).pos == old(self).pos,
            final(self).errors@ == old(self).errors@,
            final(self).builder.depth() == old(self).builder.depth() - 1,
            forall|k: int|
                0 <= k < old(self).builder.frames@.len() - 2 ==> #[trigger] final(self).builder.frames@[k] == old(self).builder.frames@[k],
            final(self).builder.frames@.last().kind == old(self).builder.frames@[old(self).builder.frames@.len() - 2].kind,
            final(self).builder.frames@.last().start == old(self).builder.frames@[old(self).builder.frames@.len() - 2].start,
            final(self).builder.top_views() == crate::builder::frame_views(
                old(self).builder.frames@[old(self).builder.frames@.len() - 2],
            ).push(old(self).builder.finished_top()),
            final(self).builder.base@ == old(self).builder.base@,
            final(self).builder.offset == old(self).builder.offset,
    {
        self.builder.finish_node();
    }

    /// Parses the input the `Parser` was constructed with: one `Root`
    /// node covering the entire input, plus the recoverable errors.
    #[verifier::rlimit(100)]
    #[verifier::spinoff_prover]
    pub fn parse(self) -> (r: ParseOutput)
        requires
            self.inv(),
            self.builder.depth() == 0,
            self.builder.base@.len() == 0,
            self.pos == 0,
            self.errors@.len() == 0,
        ensures
            r.root@.wf_at(0),
            r.root@.kind() == SyntaxKind::Root,
            r.root@ matches ElemV::Node { .. },
            r.root@.text() == self.input@,
            r.errors@.len() == 0 ==> crate::ast::shaped(r.root@),
            r.root@ == pp_root(self.lex_views()).added[0],
            r.errors@.len() == pp_root(self.lex_views()).errs,
    {
        let mut p = self;
        let ghost vs = self.lex_views();
        p.start_node(SyntaxKind::Root);
        let ghost s1 = p;
        p.skip_ws_and_eol();
        let ghost sw = p;
        proof {
            if s1.errors_eq(p) {
                crate::ast::lemma_trivia_run(s1.added(p));
            }
        }
        let ghost rt = crate::parser::grammar::pp_root_items(vs, sw.pos as int);
        loop
            invariant
                s1.inv(),
                s1.builder.depth() == 1,
                s1.errors@.len() == 0,
                s1.builder.top_views() == Seq::<ElemV>::empty(),
                s1.builder.frames@.last().kind == SyntaxKind::Root,
                s1.builder.base@.len() == 0,
                s1.carries(p),
                vs == s1.lex_views(),
                sw.inv(),
                sw.builder.depth() > 0,
                sw.lexemes@ == s1.lexemes@,
                sw.input == s1.input,
                sw.carries(p),
                sw.errors@.len() <= p.errors@.len(),
                rt == crate::parser::grammar::pp_root_items(vs, sw.pos as int),
                ({
                    let cur = crate::parser::grammar::pp_root_items(vs, p.pos as int);
                    rt.pos == cur.pos && rt.added =~= sw.added(p) + cur.added && rt.errs
                        == cur.errs + p.errors@.len() - sw.errors@.len()
                }),
                s1.errors_eq(p) ==> crate::ast::shaped_from(s1.added(p), 0),
                s1.input == self.input,
            ensures
                s1.carries(p),
                sw.carries(p),
                s1.errors_eq(p) ==> crate::ast::shaped_from(s1.added(p), 0),
                p.peek_spec() is None,
                p.pos as int == rt.pos,
                sw.added(p) == rt.added,
                p.errors@.len() == sw.errors@.len() + rt.errs,
            decreases p.remaining(),
        {
            let stop = match p.peek() {
                None => true,
                _ => false,
            };
            if stop {
                proof {
                    let cur = crate::parser::grammar::pp_root_items(vs, p.pos as int);
                    assert(cur.added =~= Seq::<ElemV>::empty());
                    assert(rt.added =~= sw.added(p));
                    assert(rt.added == sw.added(p));
                }
                break;
            }
            let ghost run = p;
            let ghost it = crate::parser::grammar::pp_item(vs, run.pos as int);
            crate::parser::item::parse_item(&mut p);
            let ghost run2 = p;
            p.skip_ws();
            proof {
                Parser::lemma_carries_trans(run, run2, p);
                Parser::lemma_carries_trans(s1, run, p);
                if s1.errors_eq(p) {
                    crate::ast::lemma_item_run_shaped(run.added(run2), 0);
                    crate::ast::lemma_trivia_run(run2.added(p));
                    Parser::lemma_added_concat(run, run2, p);
                    crate::ast::lemma_concat_shape(run.added(run2), run2.added(p));
                    Parser::lemma_added_concat(s1, run, p);
                    crate::ast::lemma_concat_shape(s1.added(run), run.added(p));
                }
            }
            let ghost run3 = p;
            proof {
                if run3.pos < run3.lexemes@.len() {
                    sw.lemma_tok_view(run3.pos as int);
                }
            }
            let again = match p.peek() {
                Some(SyntaxKind::Eol) => {
                    p.bump();
                    true
                },
                None => false,
                _ => {
                    p.error("expected end of line");
                    true
                },
            };
            proof {
                Parser::lemma_carries_trans(s1, run3, p);
                if s1.errors_eq(p) {
                    crate::parser::expr::lemma_token_step(run3, p);
                    Parser::lemma_added_concat(s1, run3, p);
                    crate::ast::lemma_concat_shape(s1.added(run3), run3.added(p));
                }
                // one pass of the grammar's item walk
                let w = crate::parser::grammar::pp_skip_ws(
                    vs,
                    crate::parser::grammar::step_pos(vs, it.pos, run.pos as int),
                );
                assert(crate::parser::grammar::step_pos(vs, it.pos, run.pos as int)
                    == run2.pos as int);
                assert(run3.pos as int == crate::parser::grammar::step_pos(
                    vs,
                    w.pos,
                    run.pos as int,
                ) && run2.added(run3) == w.added);
                let p2 = crate::parser::grammar::step_pos(vs, w.pos, run.pos as int);
                Parser::lemma_added_concat(sw, run, run2);
                Parser::lemma_added_concat(sw, run2, run3);
                Parser::lemma_added_concat(sw, run3, p);
                let curr = crate::parser::grammar::pp_root_items(vs, run.pos as int);
                match crate::parser::grammar::k_at(vs, p2) {
                    Some(SyntaxKind::Eol) => {
                        let rec = crate::parser::grammar::pp_root_items(
                            vs,
                            crate::parser::grammar::step_pos(vs, p2 + 1, run.pos as int + 1),
                        );
                        assert(crate::parser::grammar::step_pos(
                            vs,
                            p2 + 1,
                            run.pos as int + 1,
                        ) == p.pos as int);
                        assert(curr.added =~= it.added + w.added + seq![
                            crate::parser::grammar::tok_at(vs, p2),
                        ] + rec.added);
                        assert(rt.added =~= sw.added(p) + rec.added);
                    },
                    None => {
                        assert(curr.added =~= it.added + w.added);
                        assert(rt.added =~= sw.added(p) + Seq::<ElemV>::empty());
                    },
                    _ => {
                        let e = crate::parser::grammar::pp_error(vs, p2);
                        let rec = crate::parser::grammar::pp_root_items(
                            vs,
                            crate::parser::grammar::step_pos(vs, e.pos, run.pos as int + 1),
                        );
                        assert(crate::parser::grammar::step_pos(
                            vs,
                            e.pos,
                            run.pos as int + 1,
                        ) == p.pos as int);
                        assert(curr.added =~= it.added + w.added + e.added + rec.added);
                        assert(rt.added =~= sw.added(p) + rec.added);
                    },
                }
            }
            if !again {
                break;
            }
        }
        let ghost s3 = p;
        let ghost node = p.builder.finished_top();
        proof {
            assert(p.pos == p.lexemes@.len());
        }
        p.builder.finish_node();
        let errors = p.errors;
        proof {
            assert(p.builder.base_views() =~= Seq::<ElemV>::empty().push(node));
            crate::tree::lemma_elems_view_index(p.builder.base@, 0);
            assert(p.builder.base@.len() == 1);
            assert(p.builder.base_views()[0] == node);
            assert(node.kind() == SyntaxKind::Root);
            if errors@.len() == 0 {
                assert(s3.builder.top_views() =~= s1.added(s3));
                assert(crate::ast::shaped(node));
            }
            // the grammar's word on the whole parse
            let st = pp_root(vs);
            let w = crate::parser::grammar::pp_skip_ws_eol(vs, 0);
            assert(sw.pos as int == crate::parser::grammar::step_pos(vs, w.pos, 0)
                && s1.added(sw) == w.added);
            assert(crate::parser::grammar::pp_root_items(
                vs,
                crate::parser::grammar::step_pos(vs, w.pos, 0),
            ) == rt);
            self.lemma_off_view(self.lexemes@.len() as int);
            s3.lemma_off_view(s3.pos as int);
            Parser::lemma_added_concat(s1, sw, s3);
            assert(s3.builder.top_views() =~= w.added + rt.added);
            assert(node == st.added[0]);
            assert(errors@.len() == st.errs);
        }
        let root = p.builder.finish();
        ParseOutput { root, errors }
    }

    /// Closes the single open node and hands out the finished element:
    /// the way a partial parse, driven from outside, ends.
    pub fn finish_and_get_syntax(self) -> (r: SyntaxElement)
        requires
            self.inv(),
            self.builder.depth() == 1,
            self.builder.base@.len() == 0,
        ensures
            r@ == self.builder.finished_top(),
            r@.wf_at(0),
    {
        let ghost node = self.builder.finished_top();
        let mut b = self.builder;
        b.finish_node();
        proof {
            assert(b.base_views() =~= Seq::<ElemV>::empty().push(node));
            crate::tree::lemma_elems_view_index(b.base@, 0);
            assert(b.base@.len() == 1);
            assert(b.base_views()[0] == node);
        }
        b.finish()
    }

    /// Records one recoverable error at the current lexeme, consuming
    /// it as an `Error` token unless the line or the input ends here.
    pub fn error(&mut self, message: &str)
        requires
            old(self).inv(),
            old(self).builder.depth() > 0,
        ensures
            old(self).carries(*final(self)),
            final(self).errors@.len() == old(self).errors@.len() + 1,
            if old(self).peek_spec() is None || old(self).peek_spec() == Some(SyntaxKind::Eol) {
                final(self).pos == old(self).pos && old(self).added(*final(self))
                    =~= Seq::<ElemV>::empty()
            } else {
                final(self).pos == old(self).pos + 1 && old(self).added(*final(self)) =~= seq![
                    ElemV::Token {
                        kind: SyntaxKind::Error,
                        text: old(self).lexemes@[old(self).pos as int].text@,
                        range: old(self).lexemes@[old(self).pos as int].range,
                    },
                ]
            },
            old(self).pp_agree(
                *final(self),
                pp_error(old(self).lex_views(), old(self).pos as int),
            ),
    {
        let ghost oldp = *self;
        proof {
            if oldp.pos < oldp.lexemes@.len() {
                oldp.lemma_tok_view(oldp.pos as int);
            }
        }
        let range = if self.pos < self.lexemes.len() {
            self.lexemes[self.pos].range
        } else {
            let off = self.builder.offset;
            TextRange { start: off, end: off }
        };
        self.errors.push(SyntaxError { message: message.to_owned(), range });
        let ghost mid = *self;
        match self.peek() {
            Some(SyntaxKind::Eol) | None => {
                proof {
                    assert(oldp.added(*self) =~= Seq::<ElemV>::empty());
                }
            },
            Some(_) => {
                self.advance(SyntaxKind::Error);
                proof {
                    Parser::lemma_carries_trans(oldp, mid, *self);
                    assert(oldp.added(*self) =~= seq![
                        ElemV::Token {
                            kind: SyntaxKind::Error,
                            text: oldp.lexemes@[oldp.pos as int].text@,
                            range: oldp.lexemes@[oldp.pos as int].range,
                        },
                    ]);
                }
            },
        }
    }
}

} // verus!
