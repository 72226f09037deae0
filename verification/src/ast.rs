//! The typed view of the syntax tree: kind-validated casts and child
//! accessors, and the shape a tree must have for every accessor the
//! evaluator relies on to find its child.
//!
//! The parser guarantees these shapes whenever it records no error; a
//! tree produced by error recovery may break them, and the evaluator
//! refuses such a tree instead of failing midway.

use vstd::prelude::*;

use crate::env::Env;
use crate::eval::{
    env_ok, expr_idx, node_children, node_idx, out_rel, sp_apply, sp_binop, sp_expr, sp_if,
    sp_item, sp_items, tok_idx, tok_text, val_ok, EvalError, EvalErrorKind, EvalStop, Outcome,
};
use crate::syntax_kind::SyntaxKind;
use crate::text_range::TextRange;
use crate::tree::{elems_view, ElemV, SyntaxElement};
use crate::val::{digits_value, Val, ValV};

verus! {

/// The closed set of typed views over the syntax tree: nothing outside
/// this crate can join it.
pub trait Sealed {

}

/// True when the element can stand where an expression is expected.
pub open spec fn is_expr_elem(e: ElemV) -> bool {
    match e {
        ElemV::Token { kind, .. } => {
            ||| kind == SyntaxKind::Digits
            ||| kind == SyntaxKind::StringLiteral
            ||| kind == SyntaxKind::Atom
            ||| kind == SyntaxKind::TrueKw
            ||| kind == SyntaxKind::FalseKw
        },
        ElemV::Node { kind, .. } => {
            ||| kind == SyntaxKind::BinOp
            ||| kind == SyntaxKind::If
            ||| kind == SyntaxKind::FunctionCall
            ||| kind == SyntaxKind::Lambda
            ||| kind == SyntaxKind::BindingUsage
            ||| kind == SyntaxKind::Block
        },
    }
}

/// True when the element can stand where an item is expected: a binding
/// definition or an expression.
pub open spec fn is_item_elem(e: ElemV) -> bool {
    is_expr_elem(e) || is_node_of(e, SyntaxKind::BindingDef)
}

/// True when the element is a token of the given kind.
pub open spec fn is_token_of(e: ElemV, kind: SyntaxKind) -> bool {
    e matches ElemV::Token { .. } && e.kind() == kind
}

/// True when the element is a node of the given kind.
pub open spec fn is_node_of(e: ElemV, kind: SyntaxKind) -> bool {
    e matches ElemV::Node { .. } && e.kind() == kind
}

/// True when the element is a binary-operator token.
pub open spec fn is_op_token(e: ElemV) -> bool {
    e matches ElemV::Token { .. } && (e.kind() == SyntaxKind::Plus || e.kind() == SyntaxKind::Minus
        || e.kind() == SyntaxKind::Star || e.kind() == SyntaxKind::Slash)
}

/// How many of the children from `i` on can stand as expressions.
pub open spec fn count_exprs(cs: Seq<ElemV>, i: int) -> int
    decreases cs.len() - i,
{
    if i < 0 || i >= cs.len() {
        0
    } else {
        (if is_expr_elem(cs[i]) {
            1int
        } else {
            0int
        }) + count_exprs(cs, i + 1)
    }
}

/// The arity a node's children owe its kind: every child the evaluator
/// asks for by position or kind is present.
pub open spec fn arity_ok(kind: SyntaxKind, cs: Seq<ElemV>) -> bool {
    match kind {
        SyntaxKind::BinOp => {
            &&& count_exprs(cs, 0) >= 2
            &&& exists|j: int| 0 <= j < cs.len() && is_op_token(#[trigger] cs[j])
        },
        SyntaxKind::If => count_exprs(cs, 0) >= 3,
        SyntaxKind::FunctionCall => {
            &&& exists|j: int| 0 <= j < cs.len() && is_token_of(#[trigger] cs[j], SyntaxKind::Atom)
            &&& exists|j: int|
                0 <= j < cs.len() && is_node_of(#[trigger] cs[j], SyntaxKind::FunctionCallParams)
        },
        SyntaxKind::Lambda => {
            &&& exists|j: int|
                0 <= j < cs.len() && is_node_of(#[trigger] cs[j], SyntaxKind::LambdaParams)
            &&& count_exprs(cs, 0) >= 1
        },
        SyntaxKind::BindingUsage => exists|j: int|
            0 <= j < cs.len() && is_token_of(#[trigger] cs[j], SyntaxKind::Atom),
        SyntaxKind::BindingDef => exists|j: int|
            0 <= j < cs.len() && is_token_of(#[trigger] cs[j], SyntaxKind::Atom) && count_exprs(
                cs,
                j + 1,
            ) >= 1,
        _ => true,
    }
}

/// Every node of the tree has the children its kind owes.
pub open spec fn shaped(e: ElemV) -> bool
    decreases e, 0int,
{
    match e {
        ElemV::Token { .. } => true,
        ElemV::Node { kind, children, .. } => {
            shaped_from(children, 0) && arity_ok(kind, children)
        },
    }
}

/// The children from `i` on are shaped.
pub open spec fn shaped_from(cs: Seq<ElemV>, i: int) -> bool
    decreases cs, cs.len() - i,
{
    if i < 0 || i >= cs.len() {
        true
    } else {
        shaped(cs[i]) && shaped_from(cs, i + 1)
    }
}

/// Every element of an all-token run is shaped.
pub proof fn lemma_all_shaped(s: Seq<ElemV>, i: int)
    requires
        0 <= i <= s.len(),
        forall|j: int| 0 <= j < s.len() ==> shaped(#[trigger] s[j]),
    ensures
        shaped_from(s, i),
    decreases s.len() - i,
{
    if i < s.len() {
        lemma_all_shaped(s, i + 1);
    }
}

/// Each child of a shaped run is shaped.
pub proof fn lemma_shaped_at(cs: Seq<ElemV>, i: int, j: int)
    requires
        shaped_from(cs, i),
        0 <= i <= j < cs.len(),
    ensures
        shaped(cs[j]),
    decreases j - i,
{
    if i < j {
        lemma_shaped_at(cs, i + 1, j);
    }
}

/// A shaped run stays shaped when a shaped child is appended.
pub proof fn lemma_shaped_push(cs: Seq<ElemV>, v: ElemV, i: int)
    requires
        0 <= i <= cs.len(),
        shaped_from(cs, i),
        shaped(v),
    ensures
        shaped_from(cs.push(v), i),
    decreases cs.len() - i,
{
    if i == cs.len() {
        assert(cs.push(v)[i] == v);
        assert(shaped_from(cs.push(v), i + 1));
    } else {
        assert(cs.push(v)[i] == cs[i]);
        lemma_shaped_push(cs, v, i + 1);
    }
}

/// Shapedness of a run does not depend on where it starts inside the
/// sequence.
pub proof fn lemma_shaped_skip(cs: Seq<ElemV>, m: int, j: int)
    requires
        0 <= m <= j <= cs.len(),
    ensures
        shaped_from(cs, j) == shaped_from(cs.skip(m), j - m),
    decreases cs.len() - j,
{
    if j < cs.len() {
        assert(cs.skip(m)[j - m] == cs[j]);
        lemma_shaped_skip(cs, m, j + 1);
    }
}

/// A shaped run splits into shaped halves, and conversely.
pub proof fn lemma_shaped_split(cs: Seq<ElemV>, i: int, m: int)
    requires
        0 <= i <= m <= cs.len(),
    ensures
        shaped_from(cs, i) == (shaped_from(cs.take(m), i) && shaped_from(cs, m)),
    decreases m - i,
{
    if i == m {
    } else {
        assert(cs.take(m)[i] == cs[i]);
        lemma_shaped_split(cs, i + 1, m);
    }
}

/// Counting expressions splits at any point.
pub proof fn lemma_count_exprs_split(cs: Seq<ElemV>, i: int, m: int)
    requires
        0 <= i <= m <= cs.len(),
    ensures
        count_exprs(cs, i) == count_exprs(cs.take(m), i) + count_exprs(cs, m),
    decreases m - i,
{
    if i == m {
        assert(count_exprs(cs.take(m), i) == 0);
    } else {
        assert(cs.take(m)[i] == cs[i]);
        lemma_count_exprs_split(cs, i + 1, m);
    }
}

/// Counting expressions is nonnegative.
pub proof fn lemma_count_exprs_nonneg(cs: Seq<ElemV>, i: int)
    ensures
        count_exprs(cs, i) >= 0,
    decreases cs.len() - i,
{
    if 0 <= i && i < cs.len() {
        lemma_count_exprs_nonneg(cs, i + 1);
    }
}

/// Counting from a later start ignores the skipped part.
pub proof fn lemma_count_exprs_skip(cs: Seq<ElemV>, m: int, j: int)
    requires
        0 <= m <= j <= cs.len(),
    ensures
        count_exprs(cs, j) == count_exprs(cs.skip(m), j - m),
    decreases cs.len() - j,
{
    if j < cs.len() {
        assert(cs.skip(m)[j - m] == cs[j]);
        lemma_count_exprs_skip(cs, m, j + 1);
    }
}

/// Shapedness and expression counts distribute over concatenation.
pub proof fn lemma_concat_shape(a: Seq<ElemV>, b: Seq<ElemV>)
    ensures
        shaped_from(a + b, 0) == (shaped_from(a, 0) && shaped_from(b, 0)),
        count_exprs(a + b, 0) == count_exprs(a, 0) + count_exprs(b, 0),
{
    let c = a + b;
    let m = a.len() as int;
    assert(c.take(m) =~= a);
    assert(c.skip(m) =~= b);
    lemma_shaped_split(c, 0, m);
    lemma_shaped_skip(c, m, m);
    lemma_count_exprs_split(c, 0, m);
    lemma_count_exprs_skip(c, m, m);
}

/// A run of shaped non-expression elements contributes no expressions.
pub proof fn lemma_run_facts(s: Seq<ElemV>, i: int)
    requires
        0 <= i <= s.len(),
        forall|j: int| 0 <= j < s.len() ==> !is_expr_elem(#[trigger] s[j]) && shaped(s[j]),
    ensures
        shaped_from(s, i),
        count_exprs(s, i) == 0,
    decreases s.len() - i,
{
    if i < s.len() {
        lemma_run_facts(s, i + 1);
    }
}

/// A run in expression normal form: one shaped expression first, then
/// only trivia.
pub open spec fn expr_run(s: Seq<ElemV>) -> bool {
    &&& s.len() >= 1
    &&& is_expr_elem(s[0])
    &&& shaped(s[0])
    &&& forall|j: int|
        1 <= j < s.len() ==> ((#[trigger] s[j]) matches ElemV::Token { .. })
            && s[j].kind().is_trivia()
}

/// A single shaped element is a one-element run.
pub proof fn lemma_single_elem(v: ElemV)
    requires
        shaped(v),
    ensures
        shaped_from(seq![v], 0),
        count_exprs(seq![v], 0) == if is_expr_elem(v) {
            1int
        } else {
            0int
        },
{
    assert(seq![v][0] == v);
    assert(shaped_from(seq![v], 1));
    assert(count_exprs(seq![v], 1) == 0);
}

/// A run of trivia tokens is shaped and holds no expression.
pub proof fn lemma_trivia_run(s: Seq<ElemV>)
    requires
        forall|j: int|
            0 <= j < s.len() ==> ((#[trigger] s[j]) matches ElemV::Token { .. })
                && s[j].kind().is_trivia(),
    ensures
        shaped_from(s, 0),
        count_exprs(s, 0) == 0,
{
    assert forall|j: int| 0 <= j < s.len() implies !is_expr_elem(#[trigger] s[j]) && shaped(
        s[j],
    ) by {
        assert(s[j] matches ElemV::Token { .. });
    }
    lemma_run_facts(s, 0);
}

/// A run in item normal form: one shaped item first, then only trivia.
pub open spec fn item_run(s: Seq<ElemV>) -> bool {
    &&& s.len() >= 1
    &&& is_item_elem(s[0])
    &&& shaped(s[0])
    &&& forall|j: int|
        1 <= j < s.len() ==> ((#[trigger] s[j]) matches ElemV::Token { .. })
            && s[j].kind().is_trivia()
}

/// An item-normal-form run is shaped throughout.
pub proof fn lemma_item_run_shaped(s: Seq<ElemV>, i: int)
    requires
        item_run(s),
        0 <= i <= s.len(),
    ensures
        shaped_from(s, i),
    decreases s.len() - i,
{
    if i < s.len() {
        lemma_item_run_shaped(s, i + 1);
        if i > 0 {
            assert(s[i] matches ElemV::Token { .. });
            assert(shaped(s[i]));
        }
    }
}

/// An expression-normal-form run is shaped, counts one expression, and
/// holds no operator token.
pub proof fn lemma_expr_run_facts(s: Seq<ElemV>, i: int)
    requires
        expr_run(s),
        0 <= i <= s.len(),
    ensures
        shaped_from(s, i),
        count_exprs(s, i) == if i == 0 {
            1int
        } else {
            0int
        },
    decreases s.len() - i,
{
    if i < s.len() {
        lemma_expr_run_facts(s, i + 1);
        if i > 0 {
            assert(s[i].kind().is_trivia());
            assert(!is_expr_elem(s[i]));
            assert(shaped(s[i]));
        }
    }
}


/// The whole-input view: the `Root` node.
#[derive(Debug)]
pub struct Root(pub SyntaxElement);

/// A top-level or block-level item: a binding definition or an
/// expression.
#[derive(Debug)]
pub struct Item(pub SyntaxElement);

/// A `let NAME = EXPR` binding definition.
#[derive(Debug)]
pub struct BindingDef(pub SyntaxElement);

/// Any expression element.
#[derive(Debug)]
pub struct Expr(pub SyntaxElement);

/// A binary operation.
#[derive(Debug)]
pub struct BinOp(pub SyntaxElement);

/// An `if COND then EXPR else EXPR` conditional.
#[derive(Debug)]
pub struct If(pub SyntaxElement);

/// A function or command call.
#[derive(Debug)]
pub struct FunctionCall(pub SyntaxElement);

/// A `|params| body` lambda literal.
#[derive(Debug)]
pub struct Lambda(pub SyntaxElement);

/// A `$name` binding usage.
#[derive(Debug)]
pub struct BindingUsage(pub SyntaxElement);

/// A `{ items }` block.
#[derive(Debug)]
pub struct Block(pub SyntaxElement);

/// A bare word used as a string value.
#[derive(Debug)]
pub struct Atom(pub SyntaxElement);

/// A digit-run number literal.
#[derive(Debug)]
pub struct Digits(pub SyntaxElement);

/// A quoted string literal.
#[derive(Debug)]
pub struct StringLiteral(pub SyntaxElement);

impl Sealed for Root {

}

impl Sealed for Item {

}

impl Sealed for BindingDef {

}

impl Sealed for Expr {

}

impl Sealed for BinOp {

}

impl Sealed for If {

}

impl Sealed for FunctionCall {

}

impl Sealed for Lambda {

}

impl Sealed for BindingUsage {

}

impl Sealed for Block {

}

impl Sealed for Atom {

}

impl Sealed for Digits {

}

impl Sealed for StringLiteral {

}

/// True when the element is a node of the kind, decided at run time.
fn kind_node(e: &SyntaxElement, kind: SyntaxKind) -> (r: bool)
    ensures
        r == is_node_of(e@, kind),
{
    match e {
        SyntaxElement::Node(n) => n.kind == kind,
        _ => false,
    }
}

/// True when the element is a token of the kind, decided at run time.
fn kind_token(e: &SyntaxElement, kind: SyntaxKind) -> (r: bool)
    ensures
        r == is_token_of(e@, kind),
{
    match e {
        SyntaxElement::Token(t) => t.kind == kind,
        _ => false,
    }
}

/// Finds the first token child of the kind and copies its text.
fn tok_text_of(e: &SyntaxElement, kind: SyntaxKind) -> (r: Option<String>)
    requires
        e@ matches ElemV::Node { .. },
    ensures
        ({
            let cs = node_children(e@);
            match r {
                Some(s) => tok_idx(cs, kind, 0) < cs.len() && s@ == tok_text(
                    cs[tok_idx(cs, kind, 0)],
                ),
                None => tok_idx(cs, kind, 0) == cs.len(),
            }
        }),
{
    let n = match e {
        SyntaxElement::Node(n) => n,
        _ => unreached(),
    };
    proof {
        crate::tree::lemma_elems_view_index(n.children@, 0);
    }
    let i = crate::eval::find_tok(&n.children, kind);
    if i < n.children.len() {
        proof {
            crate::eval::lemma_tok_idx_found(elems_view(n.children@, 0), kind, 0);
        }
        match &n.children[i] {
            SyntaxElement::Token(t) => Some(t.text.clone()),
            _ => unreached(),
        }
    } else {
        None
    }
}

/// Finds the `n`-th expression child and copies its subtree.
fn expr_child_of(e: &SyntaxElement, n: usize) -> (r: Option<Expr>)
    requires
        e@ matches ElemV::Node { .. },
    ensures
        ({
            let cs = node_children(e@);
            match r {
                Some(x) => expr_idx(cs, n as int, 0) < cs.len() && x.0@ == cs[expr_idx(
                    cs,
                    n as int,
                    0,
                )] && is_expr_elem(x.0@),
                None => expr_idx(cs, n as int, 0) == cs.len(),
            }
        }),
{
    let nd = match e {
        SyntaxElement::Node(nd) => nd,
        _ => unreached(),
    };
    proof {
        crate::tree::lemma_elems_view_index(nd.children@, 0);
    }
    let i = crate::eval::find_expr(&nd.children, n);
    if i < nd.children.len() {
        proof {
            crate::eval::lemma_expr_idx_found(elems_view(nd.children@, 0), n as int, 0);
        }
        Some(Expr(nd.children[i].deep_clone()))
    } else {
        None
    }
}

impl Root {
    /// Wraps the element when it is a `Root` node.
    pub fn cast(e: SyntaxElement) -> (r: Option<Root>)
        ensures
            match r {
                Some(x) => is_node_of(e@, SyntaxKind::Root) && x.0@ == e@,
                None => !is_node_of(e@, SyntaxKind::Root),
            },
    {
        if kind_node(&e, SyntaxKind::Root) {
            Some(Root(e))
        } else {
            None
        }
    }

    /// The range the whole input covers.
    pub fn text_range(&self) -> (r: TextRange)
        ensures
            r == self.0@.range(),
    {
        self.0.range()
    }

    /// Evaluates every item in order under the given environment; the
    /// value is the last item's, or nil for an empty input.
    ///
    /// The parser guarantees the shape this requires whenever it
    /// recorded no syntax error.
    pub fn eval(&self, env: &mut Env, fuel: u64, outcomes: &Vec<bool>) -> (r: Result<
        Val,
        EvalStop,
    >)
        requires
            old(env).wf(),
            env_ok(old(env).view_scopes()),
            shaped(self.0@),
            self.0@ matches ElemV::Node { .. },
        ensures
            final(env).wf(),
            env_ok(final(env).view_scopes()),
            final(env).view_cmds() == old(env).view_cmds(),
            ({
                let s = sp_items(
                    fuel as nat,
                    node_children(self.0@),
                    0,
                    ValV::Nil,
                    old(env).view_scopes(),
                    old(env).view_cmds(),
                    outcomes@,
                    0,
                );
                out_rel(r, s.out) && final(env).view_scopes() == s.env
            }),
    {
        crate::eval::eval_item_children(&self.0, env, fuel, outcomes)
    }
}

impl Item {
    /// Wraps the element when it can stand as an item.
    pub fn cast(e: SyntaxElement) -> (r: Option<Item>)
        ensures
            match r {
                Some(x) => is_item_elem(e@) && x.0@ == e@,
                None => !is_item_elem(e@),
            },
    {
        let ok = kind_node(&e, SyntaxKind::BindingDef) || is_expr_element(&e);
        if ok {
            Some(Item(e))
        } else {
            None
        }
    }

    /// Evaluates the item: a binding definition stores its value and
    /// contributes nil; an expression contributes its value.
    pub fn eval(&self, env: &mut Env, fuel: u64, outcomes: &Vec<bool>) -> (r: Result<
        Val,
        EvalStop,
    >)
        requires
            old(env).wf(),
            env_ok(old(env).view_scopes()),
            shaped(self.0@),
            is_item_elem(self.0@),
        ensures
            final(env).wf(),
            env_ok(final(env).view_scopes()),
            final(env).view_cmds() == old(env).view_cmds(),
            ({
                let s = sp_item(
                    fuel as nat,
                    self.0@,
                    old(env).view_scopes(),
                    old(env).view_cmds(),
                    outcomes@,
                    0,
                );
                out_rel(r, s.out) && final(env).view_scopes() == s.env
            }),
    {
        let mut used: usize = 0;
        crate::eval::ev_item(&self.0, env, fuel, outcomes, &mut used)
    }
}

/// True when the element can stand as an expression, decided at run
/// time.
pub fn is_expr_element(e: &SyntaxElement) -> (r: bool)
    ensures
        r == is_expr_elem(e@),
{
    match e {
        SyntaxElement::Token(t) => {
            t.kind == SyntaxKind::Digits || t.kind == SyntaxKind::StringLiteral || t.kind
                == SyntaxKind::Atom || t.kind == SyntaxKind::TrueKw || t.kind == SyntaxKind::FalseKw
        },
        SyntaxElement::Node(n) => {
            n.kind == SyntaxKind::BinOp || n.kind == SyntaxKind::If || n.kind
                == SyntaxKind::FunctionCall || n.kind == SyntaxKind::Lambda || n.kind
                == SyntaxKind::BindingUsage || n.kind == SyntaxKind::Block
        },
    }
}

impl Expr {
    /// Wraps the element when it can stand as an expression.
    pub fn cast(e: SyntaxElement) -> (r: Option<Expr>)
        ensures
            match r {
                Some(x) => is_expr_elem(e@) && x.0@ == e@,
                None => !is_expr_elem(e@),
            },
    {
        if is_expr_element(&e) {
            Some(Expr(e))
        } else {
            None
        }
    }

    /// The range the expression covers.
    pub fn text_range(&self) -> (r: TextRange)
        ensures
            r == self.0@.range(),
    {
        self.0.range()
    }

    /// Evaluates the expression; the environment is exactly as it was
    /// when the value stands.
    pub fn eval(&self, env: &mut Env, fuel: u64, outcomes: &Vec<bool>) -> (r: Result<
        Val,
        EvalStop,
    >)
        requires
            old(env).wf(),
            env_ok(old(env).view_scopes()),
            shaped(self.0@),
            is_expr_elem(self.0@),
        ensures
            final(env).wf(),
            final(env).view_scopes() == old(env).view_scopes(),
            final(env).view_cmds() == old(env).view_cmds(),
            env_ok(final(env).view_scopes()),
            ({
                let s = sp_expr(
                    fuel as nat,
                    self.0@,
                    old(env).view_scopes(),
                    old(env).view_cmds(),
                    outcomes@,
                    0,
                );
                out_rel(r, s.out)
            }),
    {
        let mut used: usize = 0;
        crate::eval::ev_expr(&self.0, env, fuel, outcomes, &mut used)
    }
}

impl BindingDef {
    /// Wraps the element when it is a `BindingDef` node.
    pub fn cast(e: SyntaxElement) -> (r: Option<BindingDef>)
        ensures
            match r {
                Some(x) => is_node_of(e@, SyntaxKind::BindingDef) && x.0@ == e@,
                None => !is_node_of(e@, SyntaxKind::BindingDef),
            },
    {
        if kind_node(&e, SyntaxKind::BindingDef) {
            Some(BindingDef(e))
        } else {
            None
        }
    }

    /// The binding's name: the first atom among the children.
    pub fn binding_name(&self) -> (r: Option<String>)
        requires
            self.0@ matches ElemV::Node { .. },
        ensures
            ({
                let cs = node_children(self.0@);
                match r {
                    Some(s) => tok_idx(cs, SyntaxKind::Atom, 0) < cs.len() && s@ == tok_text(
                        cs[tok_idx(cs, SyntaxKind::Atom, 0)],
                    ),
                    None => tok_idx(cs, SyntaxKind::Atom, 0) == cs.len(),
                }
            }),
    {
        tok_text_of(&self.0, SyntaxKind::Atom)
    }

    /// The bound expression: the first expression after the name.
    pub fn expr(&self) -> (r: Option<Expr>)
        requires
            self.0@ matches ElemV::Node { .. },
        ensures
            ({
                let cs = node_children(self.0@);
                let start = tok_idx(cs, SyntaxKind::Atom, 0) + 1;
                match r {
                    Some(x) => expr_idx(cs, 0, start) < cs.len() && x.0@ == cs[expr_idx(
                        cs,
                        0,
                        start,
                    )],
                    None => expr_idx(cs, 0, start) == cs.len(),
                }
            }),
    {
        let nd = match &self.0 {
            SyntaxElement::Node(nd) => nd,
            _ => unreached(),
        };
        proof {
            crate::tree::lemma_elems_view_index(nd.children@, 0);
        }
        let ti = crate::eval::find_tok(&nd.children, SyntaxKind::Atom);
        if ti >= nd.children.len() {
            proof {
                assert(expr_idx(
                    node_children(self.0@),
                    0,
                    tok_idx(node_children(self.0@), SyntaxKind::Atom, 0) + 1,
                ) == node_children(self.0@).len());
            }
            return None;
        }
        let i = crate::eval::find_expr_from(&nd.children, 0, ti + 1);
        if i < nd.children.len() {
            Some(Expr(nd.children[i].deep_clone()))
        } else {
            None
        }
    }

    /// Evaluates the right-hand side in the current scope and stores it
    /// under the binding's name in that same scope.
    pub fn eval(&self, env: &mut Env, fuel: u64, outcomes: &Vec<bool>) -> (r: Result<
        (),
        EvalStop,
    >)
        requires
            old(env).wf(),
            env_ok(old(env).view_scopes()),
            shaped(self.0@),
            is_node_of(self.0@, SyntaxKind::BindingDef),
        ensures
            final(env).wf(),
            env_ok(final(env).view_scopes()),
            final(env).view_cmds() == old(env).view_cmds(),
            ({
                let s = sp_item(
                    fuel as nat,
                    self.0@,
                    old(env).view_scopes(),
                    old(env).view_cmds(),
                    outcomes@,
                    0,
                );
                match r {
                    Result::Ok(()) => (s.out matches Outcome::Val(v) && v == ValV::Nil)
                        && final(env).view_scopes() == s.env,
                    Result::Err(st) => crate::eval::stop_rel(st, s.out)
                        && final(env).view_scopes() == s.env,
                }
            }),
    {
        let mut used: usize = 0;
        match crate::eval::ev_item(&self.0, env, fuel, outcomes, &mut used) {
            Ok(_) => Ok(()),
            Err(st) => Err(st),
        }
    }
}


impl BinOp {
    /// Wraps the element when it is a binary-operation node.
    pub fn cast(e: SyntaxElement) -> (r: Option<BinOp>)
        ensures
            match r {
                Some(x) => is_node_of(e@, SyntaxKind::BinOp) && x.0@ == e@,
                None => !is_node_of(e@, SyntaxKind::BinOp),
            },
    {
        if kind_node(&e, SyntaxKind::BinOp) {
            Some(BinOp(e))
        } else {
            None
        }
    }

    /// The range the operation covers.
    pub fn text_range(&self) -> (r: TextRange)
        ensures
            r == self.0@.range(),
    {
        self.0.range()
    }

    /// The operator: the first operator token among the children.
    pub fn op(&self) -> (r: Option<crate::parser::expr::Op>)
        requires
            self.0@ matches ElemV::Node { .. },
        ensures
            ({
                let cs = node_children(self.0@);
                match r {
                    Some(op) => crate::eval::op_idx(cs, 0) < cs.len() && cs[crate::eval::op_idx(
                        cs,
                        0,
                    )].kind() == crate::parser::expr::op_kind(op),
                    None => crate::eval::op_idx(cs, 0) == cs.len(),
                }
            }),
    {
        let n = match &self.0 {
            SyntaxElement::Node(n) => n,
            _ => unreached(),
        };
        proof {
            crate::tree::lemma_elems_view_index(n.children@, 0);
        }
        let i = crate::eval::find_op(&n.children);
        if i < n.children.len() {
            proof {
                crate::eval::lemma_op_idx_found(elems_view(n.children@, 0), 0);
            }
            let k = match &n.children[i] {
                SyntaxElement::Token(t) => t.kind,
                _ => unreached(),
            };
            if k == SyntaxKind::Plus {
                Some(crate::parser::expr::Op::Add)
            } else if k == SyntaxKind::Minus {
                Some(crate::parser::expr::Op::Sub)
            } else if k == SyntaxKind::Star {
                Some(crate::parser::expr::Op::Mul)
            } else {
                Some(crate::parser::expr::Op::Div)
            }
        } else {
            None
        }
    }

    /// The left operand: the first expression among the children.
    pub fn lhs(&self) -> (r: Option<Expr>)
        requires
            self.0@ matches ElemV::Node { .. },
        ensures
            ({
                let cs = node_children(self.0@);
                match r {
                    Some(x) => expr_idx(cs, 0, 0) < cs.len() && x.0@ == cs[expr_idx(cs, 0, 0)],
                    None => expr_idx(cs, 0, 0) == cs.len(),
                }
            }),
    {
        expr_child_of(&self.0, 0)
    }

    /// The right operand: the second expression among the children.
    pub fn rhs(&self) -> (r: Option<Expr>)
        requires
            self.0@ matches ElemV::Node { .. },
        ensures
            ({
                let cs = node_children(self.0@);
                match r {
                    Some(x) => expr_idx(cs, 1, 0) < cs.len() && x.0@ == cs[expr_idx(cs, 1, 0)],
                    None => expr_idx(cs, 1, 0) == cs.len(),
                }
            }),
    {
        expr_child_of(&self.0, 1)
    }

    /// Evaluates both operands, which must be numbers, and applies the
    /// operator; dividing by zero is an error, and the arithmetic wraps
    /// at sixty-four bits.
    pub fn eval(&self, env: &mut Env, fuel: u64, outcomes: &Vec<bool>) -> (r: Result<
        Val,
        EvalStop,
    >)
        requires
            old(env).wf(),
            env_ok(old(env).view_scopes()),
            shaped(self.0@),
            is_node_of(self.0@, SyntaxKind::BinOp),
        ensures
            final(env).wf(),
            final(env).view_scopes() == old(env).view_scopes(),
            final(env).view_cmds() == old(env).view_cmds(),
            env_ok(final(env).view_scopes()),
            ({
                let s = sp_binop(
                    fuel as nat,
                    self.0@,
                    old(env).view_scopes(),
                    old(env).view_cmds(),
                    outcomes@,
                    0,
                );
                out_rel(r, s.out)
            }),
    {
        let mut used: usize = 0;
        crate::eval::ev_binop(&self.0, env, fuel, outcomes, &mut used)
    }
}

impl If {
    /// Wraps the element when it is a conditional node.
    pub fn cast(e: SyntaxElement) -> (r: Option<If>)
        ensures
            match r {
                Some(x) => is_node_of(e@, SyntaxKind::If) && x.0@ == e@,
                None => !is_node_of(e@, SyntaxKind::If),
            },
    {
        if kind_node(&e, SyntaxKind::If) {
            Some(If(e))
        } else {
            None
        }
    }

    /// The condition: the first expression among the children.
    pub fn condition(&self) -> (r: Option<Expr>)
        requires
            self.0@ matches ElemV::Node { .. },
        ensures
            ({
                let cs = node_children(self.0@);
                match r {
                    Some(x) => expr_idx(cs, 0, 0) < cs.len() && x.0@ == cs[expr_idx(cs, 0, 0)],
                    None => expr_idx(cs, 0, 0) == cs.len(),
                }
            }),
    {
        expr_child_of(&self.0, 0)
    }

    /// The branch taken on a true condition.
    pub fn true_branch(&self) -> (r: Option<Expr>)
        requires
            self.0@ matches ElemV::Node { .. },
        ensures
            ({
                let cs = node_children(self.0@);
                match r {
                    Some(x) => expr_idx(cs, 1, 0) < cs.len() && x.0@ == cs[expr_idx(cs, 1, 0)],
                    None => expr_idx(cs, 1, 0) == cs.len(),
                }
            }),
    {
        expr_child_of(&self.0, 1)
    }

    /// The branch taken on a false condition.
    pub fn false_branch(&self) -> (r: Option<Expr>)
        requires
            self.0@ matches ElemV::Node { .. },
        ensures
            ({
                let cs = node_children(self.0@);
                match r {
                    Some(x) => expr_idx(cs, 2, 0) < cs.len() && x.0@ == cs[expr_idx(cs, 2, 0)],
                    None => expr_idx(cs, 2, 0) == cs.len(),
                }
            }),
    {
        expr_child_of(&self.0, 2)
    }

    /// Evaluates the condition, which must be a boolean, and then
    /// exactly the branch it picks.
    pub fn eval(&self, env: &mut Env, fuel: u64, outcomes: &Vec<bool>) -> (r: Result<
        Val,
        EvalStop,
    >)
        requires
            old(env).wf(),
            env_ok(old(env).view_scopes()),
            shaped(self.0@),
            is_node_of(self.0@, SyntaxKind::If),
        ensures
            final(env).wf(),
            final(env).view_scopes() == old(env).view_scopes(),
            final(env).view_cmds() == old(env).view_cmds(),
            env_ok(final(env).view_scopes()),
            ({
                let s = sp_if(
                    fuel as nat,
                    self.0@,
                    old(env).view_scopes(),
                    old(env).view_cmds(),
                    outcomes@,
                    0,
                );
                out_rel(r, s.out)
            }),
    {
        let mut used: usize = 0;
        crate::eval::ev_if(&self.0, env, fuel, outcomes, &mut used)
    }
}

impl FunctionCall {
    /// Wraps the element when it is a call node.
    pub fn cast(e: SyntaxElement) -> (r: Option<FunctionCall>)
        ensures
            match r {
                Some(x) => is_node_of(e@, SyntaxKind::FunctionCall) && x.0@ == e@,
                None => !is_node_of(e@, SyntaxKind::FunctionCall),
            },
    {
        if kind_node(&e, SyntaxKind::FunctionCall) {
            Some(FunctionCall(e))
        } else {
            None
        }
    }

    /// The callee's name: the first atom token among the children.
    pub fn name(&self) -> (r: Option<String>)
        requires
            self.0@ matches ElemV::Node { .. },
        ensures
            ({
                let cs = node_children(self.0@);
                match r {
                    Some(s) => tok_idx(cs, SyntaxKind::Atom, 0) < cs.len() && s@ == tok_text(
                        cs[tok_idx(cs, SyntaxKind::Atom, 0)],
                    ),
                    None => tok_idx(cs, SyntaxKind::Atom, 0) == cs.len(),
                }
            }),
    {
        tok_text_of(&self.0, SyntaxKind::Atom)
    }

    /// Resolves the callee, evaluates the arguments, and applies the
    /// lambda or consumes the next spawn outcome for the command.
    pub fn eval(&self, env: &mut Env, fuel: u64, outcomes: &Vec<bool>) -> (r: Result<
        Val,
        EvalStop,
    >)
        requires
            old(env).wf(),
            env_ok(old(env).view_scopes()),
            shaped(self.0@),
            is_node_of(self.0@, SyntaxKind::FunctionCall),
        ensures
            final(env).wf(),
            final(env).view_scopes() == old(env).view_scopes(),
            final(env).view_cmds() == old(env).view_cmds(),
            env_ok(final(env).view_scopes()),
            ({
                let s = crate::eval::sp_call(
                    fuel as nat,
                    self.0@,
                    old(env).view_scopes(),
                    old(env).view_cmds(),
                    outcomes@,
                    0,
                );
                out_rel(r, s.out)
            }),
    {
        let mut used: usize = 0;
        crate::eval::ev_call(&self.0, env, fuel, outcomes, &mut used)
    }
}

impl Lambda {
    /// Wraps the element when it is a lambda node.
    pub fn cast(e: SyntaxElement) -> (r: Option<Lambda>)
        ensures
            match r {
                Some(x) => is_node_of(e@, SyntaxKind::Lambda) && x.0@ == e@,
                None => !is_node_of(e@, SyntaxKind::Lambda),
            },
    {
        if kind_node(&e, SyntaxKind::Lambda) {
            Some(Lambda(e))
        } else {
            None
        }
    }

    /// The parameter names, in order.
    pub fn param_names(&self) -> (r: Vec<String>)
        requires
            self.0@ matches ElemV::Node { .. },
        ensures
            ({
                let cs = node_children(self.0@);
                let pi = node_idx(cs, SyntaxKind::LambdaParams, 0);
                pi < cs.len() ==> r.deep_view() == crate::eval::atoms_of(
                    node_children(cs[pi]),
                    0,
                )
            }),
    {
        let n = match &self.0 {
            SyntaxElement::Node(n) => n,
            _ => unreached(),
        };
        proof {
            crate::tree::lemma_elems_view_index(n.children@, 0);
        }
        let i = crate::eval::find_node(&n.children, SyntaxKind::LambdaParams);
        if i < n.children.len() {
            proof {
                crate::eval::lemma_node_idx_found(
                    elems_view(n.children@, 0),
                    SyntaxKind::LambdaParams,
                    0,
                );
            }
            let pn = match &n.children[i] {
                SyntaxElement::Node(p) => p,
                _ => unreached(),
            };
            proof {
                crate::tree::lemma_elems_view_index(pn.children@, 0);
            }
            crate::eval::collect_atoms(&pn.children)
        } else {
            Vec::new()
        }
    }

    /// The body: the first expression among the children.
    pub fn body(&self) -> (r: Option<Expr>)
        requires
            self.0@ matches ElemV::Node { .. },
        ensures
            ({
                let cs = node_children(self.0@);
                match r {
                    Some(x) => expr_idx(cs, 0, 0) < cs.len() && x.0@ == cs[expr_idx(cs, 0, 0)],
                    None => expr_idx(cs, 0, 0) == cs.len(),
                }
            }),
    {
        expr_child_of(&self.0, 0)
    }

    /// Applies the lambda to already-evaluated arguments: their count
    /// must equal the parameter count exactly, and the body runs in a
    /// fresh scope of the caller\u{2019}s environment binding each parameter.
    pub fn eval(
        &self,
        call_params_range: TextRange,
        params: Vec<Val>,
        env: &mut Env,
        fuel: u64,
        outcomes: &Vec<bool>,
    ) -> (r: Result<Val, EvalStop>)
        requires
            old(env).wf(),
            env_ok(old(env).view_scopes()),
            shaped(self.0@),
            is_node_of(self.0@, SyntaxKind::Lambda),
            forall|k: int|
                0 <= k < params.deep_view().len() ==> val_ok(#[trigger] params.deep_view()[k]),
        ensures
            final(env).wf(),
            final(env).view_scopes() == old(env).view_scopes(),
            final(env).view_cmds() == old(env).view_cmds(),
            env_ok(final(env).view_scopes()),
            ({
                let s = sp_apply(
                    fuel as nat,
                    self.0@,
                    call_params_range,
                    params.deep_view(),
                    old(env).view_scopes(),
                    old(env).view_cmds(),
                    outcomes@,
                    0,
                );
                out_rel(r, s.out)
            }),
    {
        let mut used: usize = 0;
        crate::eval::ev_apply(&self.0, call_params_range, params, env, fuel, outcomes, &mut used)
    }
}

impl BindingUsage {
    /// Wraps the element when it is a binding-usage node.
    pub fn cast(e: SyntaxElement) -> (r: Option<BindingUsage>)
        ensures
            match r {
                Some(x) => is_node_of(e@, SyntaxKind::BindingUsage) && x.0@ == e@,
                None => !is_node_of(e@, SyntaxKind::BindingUsage),
            },
    {
        if kind_node(&e, SyntaxKind::BindingUsage) {
            Some(BindingUsage(e))
        } else {
            None
        }
    }

    /// The used name: the first atom token among the children.
    pub fn binding_name(&self) -> (r: Option<String>)
        requires
            self.0@ matches ElemV::Node { .. },
        ensures
            ({
                let cs = node_children(self.0@);
                match r {
                    Some(s) => tok_idx(cs, SyntaxKind::Atom, 0) < cs.len() && s@ == tok_text(
                        cs[tok_idx(cs, SyntaxKind::Atom, 0)],
                    ),
                    None => tok_idx(cs, SyntaxKind::Atom, 0) == cs.len(),
                }
            }),
    {
        tok_text_of(&self.0, SyntaxKind::Atom)
    }

    /// The range the usage covers.
    pub fn text_range(&self) -> (r: TextRange)
        ensures
            r == self.0@.range(),
    {
        self.0.range()
    }

    /// Looks the name up through the scope chain; absence is an error
    /// at the usage\u{2019}s own range.
    pub fn eval(&self, env: &Env) -> (r: Result<Val, EvalError>)
        requires
            shaped(self.0@),
            is_node_of(self.0@, SyntaxKind::BindingUsage),
        ensures
            ({
                let cs = node_children(self.0@);
                let name = tok_text(cs[tok_idx(cs, SyntaxKind::Atom, 0)]);
                match r {
                    Result::Ok(v) => crate::env::lookup_chain(env.view_scopes(), name) == Some(
                        v@,
                    ),
                    Result::Err(e) => crate::env::lookup_chain(env.view_scopes(), name) is None
                        && e == (EvalError {
                        kind: EvalErrorKind::BindingDoesNotExist,
                        range: self.0@.range(),
                    }),
                }
            }),
    {
        let n = match &self.0 {
            SyntaxElement::Node(n) => n,
            _ => unreached(),
        };
        let ghost vcs = node_children(self.0@);
        proof {
            crate::tree::lemma_elems_view_index(n.children@, 0);
            crate::eval::lemma_tok_idx_exists(vcs, SyntaxKind::Atom, 0);
        }
        let ti = crate::eval::find_tok(&n.children, SyntaxKind::Atom);
        let name = match &n.children[ti] {
            SyntaxElement::Token(t) => t.text.clone(),
            _ => unreached(),
        };
        match env.get_binding(name.as_str()) {
            Some(v) => Ok(v),
            None => Err(
                EvalError { kind: EvalErrorKind::BindingDoesNotExist, range: n.range },
            ),
        }
    }
}

impl Block {
    /// Wraps the element when it is a block node.
    pub fn cast(e: SyntaxElement) -> (r: Option<Block>)
        ensures
            match r {
                Some(x) => is_node_of(e@, SyntaxKind::Block) && x.0@ == e@,
                None => !is_node_of(e@, SyntaxKind::Block),
            },
    {
        if kind_node(&e, SyntaxKind::Block) {
            Some(Block(e))
        } else {
            None
        }
    }

    /// Evaluates the block's items under one fresh scope, which is gone
    /// when the block's value stands: bindings do not escape.
    pub fn eval(&self, env: &mut Env, fuel: u64, outcomes: &Vec<bool>) -> (r: Result<
        Val,
        EvalStop,
    >)
        requires
            old(env).wf(),
            env_ok(old(env).view_scopes()),
            shaped(self.0@),
            is_node_of(self.0@, SyntaxKind::Block),
        ensures
            final(env).wf(),
            final(env).view_scopes() == old(env).view_scopes(),
            final(env).view_cmds() == old(env).view_cmds(),
            env_ok(final(env).view_scopes()),
            ({
                let s = sp_expr(
                    fuel as nat,
                    self.0@,
                    old(env).view_scopes(),
                    old(env).view_cmds(),
                    outcomes@,
                    0,
                );
                out_rel(r, s.out)
            }),
    {
        let mut used: usize = 0;
        crate::eval::ev_expr(&self.0, env, fuel, outcomes, &mut used)
    }
}

impl Atom {
    /// Wraps the element when it is an atom token.
    pub fn cast(e: SyntaxElement) -> (r: Option<Atom>)
        ensures
            match r {
                Some(x) => is_token_of(e@, SyntaxKind::Atom) && x.0@ == e@,
                None => !is_token_of(e@, SyntaxKind::Atom),
            },
    {
        if kind_token(&e, SyntaxKind::Atom) {
            Some(Atom(e))
        } else {
            None
        }
    }

    /// A bare word evaluates to its own text as a string.
    pub fn eval(&self) -> (r: Val)
        requires
            self.0@ matches ElemV::Token { .. },
        ensures
            r@ == ValV::Str(tok_text(self.0@)),
    {
        match &self.0 {
            SyntaxElement::Token(t) => Val::Str(t.text.clone()),
            _ => unreached(),
        }
    }
}

impl Digits {
    /// Wraps the element when it is a digit-run token.
    pub fn cast(e: SyntaxElement) -> (r: Option<Digits>)
        ensures
            match r {
                Some(x) => is_token_of(e@, SyntaxKind::Digits) && x.0@ == e@,
                None => !is_token_of(e@, SyntaxKind::Digits),
            },
    {
        if kind_token(&e, SyntaxKind::Digits) {
            Some(Digits(e))
        } else {
            None
        }
    }

    /// A digit run evaluates to the number it denotes, wrapped to
    /// sixty-four bits.
    pub fn eval(&self) -> (r: Val)
        requires
            self.0@ matches ElemV::Token { .. },
        ensures
            r@ == ValV::Num(digits_value(tok_text(self.0@))),
    {
        match &self.0 {
            SyntaxElement::Token(t) => Val::Number(crate::val::parse_digits(t.text.as_str())),
            _ => unreached(),
        }
    }
}

impl StringLiteral {
    /// Wraps the element when it is a string-literal token.
    pub fn cast(e: SyntaxElement) -> (r: Option<StringLiteral>)
        ensures
            match r {
                Some(x) => is_token_of(e@, SyntaxKind::StringLiteral) && x.0@ == e@,
                None => !is_token_of(e@, SyntaxKind::StringLiteral),
            },
    {
        if kind_token(&e, SyntaxKind::StringLiteral) {
            Some(StringLiteral(e))
        } else {
            None
        }
    }

    /// A string literal evaluates to its text with the surrounding
    /// quote characters stripped.
    pub fn eval(&self) -> (r: Val)
        requires
            self.0@ matches ElemV::Token { .. },
        ensures
            ({
                let t = tok_text(self.0@);
                let inner = if t.len() >= 2 {
                    t.subrange(1, t.len() - 1)
                } else {
                    Seq::empty()
                };
                r@ == ValV::Str(inner)
            }),
    {
        match &self.0 {
            SyntaxElement::Token(t) => {
                let len = t.text.as_str().unicode_len();
                let inner = if len >= 2 {
                    t.text.as_str().substring_char(1, len - 1).to_owned()
                } else {
                    String::new()
                };
                Val::Str(inner)
            },
            _ => unreached(),
        }
    }
}

} // verus!
