//! The lossless concrete syntax tree: kind-tagged nodes and tokens that
//! together preserve every character of the input.

use vstd::prelude::*;

use crate::syntax_kind::SyntaxKind;
use crate::text_range::TextRange;

verus! {

/// A leaf of the syntax tree: one lexeme, with its exact text.
#[derive(Debug)]
pub struct SyntaxToken {
    /// what the token is
    pub kind: SyntaxKind,
    /// the exact characters the token covers
    pub text: String,
    /// where in the source the token lies
    pub range: TextRange,
}

/// An interior node of the syntax tree, owning its children in order.
#[derive(Debug)]
pub struct SyntaxNode {
    /// what the node is
    pub kind: SyntaxKind,
    /// where in the source the node lies
    pub range: TextRange,
    /// the node's children, leftmost first
    pub children: Vec<SyntaxElement>,
}

/// Either a node or a token.
#[derive(Debug)]
pub enum SyntaxElement {
    /// an interior node
    Node(SyntaxNode),
    /// a leaf token
    Token(SyntaxToken),
}

/// The mathematical shape of a syntax element: the same tree with text as
/// character sequences.
pub enum ElemV {
    /// a leaf token
    Token {
        /// what the token is
        kind: SyntaxKind,
        /// the token's characters
        text: Seq<char>,
        /// where in the source the token lies
        range: TextRange,
    },
    /// an interior node
    Node {
        /// what the node is
        kind: SyntaxKind,
        /// where in the source the node lies
        range: TextRange,
        /// the node's children, leftmost first
        children: Seq<ElemV>,
    },
}

impl ElemV {
    /// The kind tag of the element.
    pub open spec fn kind(self) -> SyntaxKind {
        match self {
            ElemV::Token { kind, .. } => kind,
            ElemV::Node { kind, .. } => kind,
        }
    }

    /// The range of the element.
    pub open spec fn range(self) -> TextRange {
        match self {
            ElemV::Token { range, .. } => range,
            ElemV::Node { range, .. } => range,
        }
    }

    /// The text the element covers: a token's own text, or the
    /// concatenation of the children's texts in order.
    pub open spec fn text(self) -> Seq<char>
        decreases self, 0int,
    {
        match self {
            ElemV::Token { text, .. } => text,
            ElemV::Node { children, .. } => ElemV::text_of(children, 0),
        }
    }

    /// The concatenated text of `children[i..]`.
    pub open spec fn text_of(children: Seq<ElemV>, i: int) -> Seq<char>
        decreases children, children.len() - i,
    {
        if i < 0 || i >= children.len() {
            Seq::empty()
        } else {
            children[i].text() + ElemV::text_of(children, i + 1)
        }
    }

    /// Ranges are consistent with the text when the element starts at
    /// `off`: each token's range is exactly its text, each node's range
    /// covers exactly its children, which follow one another with no gap.
    pub open spec fn wf_at(self, off: int) -> bool
        decreases self, 0int,
    {
        match self {
            ElemV::Token { text, range, .. } => {
                range.start == off && range.end == off + text.len()
            },
            ElemV::Node { range, children, .. } => {
                &&& range.start == off
                &&& range.end == off + self.text().len()
                &&& ElemV::wf_children_at(children, off)
            },
        }
    }

    /// The children are well formed, laid out one after another starting
    /// at `off`.
    pub open spec fn wf_children_at(children: Seq<ElemV>, off: int) -> bool
        decreases children, children.len() + 1,
    {
        ElemV::wf_children_from(children, 0, off)
    }

    /// The children from index `i` on are well formed and contiguous from
    /// `off`.
    pub open spec fn wf_children_from(children: Seq<ElemV>, i: int, off: int) -> bool
        decreases children, children.len() - i,
    {
        if i < 0 || i >= children.len() {
            true
        } else {
            children[i].wf_at(off)
                && ElemV::wf_children_from(children, i + 1, off + children[i].text().len())
        }
    }
}

/// The mathematical shape of an element.
pub open spec fn elem_view(e: SyntaxElement) -> ElemV
    decreases e, 0int, 0int,
{
    match e {
        SyntaxElement::Token(t) => ElemV::Token { kind: t.kind, text: t.text@, range: t.range },
        SyntaxElement::Node(n) => {
            proof {
                assert(decreases_to!(e => n));
                assert(decreases_to!(n => n.children));
                assert(decreases_to!(n.children => n.children@));
            }
            ElemV::Node { kind: n.kind, range: n.range, children: elems_view(n.children@, 0) }
        },
    }
}

/// The mathematical shapes of the elements of `s` from index `i` on.
pub open spec fn elems_view(s: Seq<SyntaxElement>, i: int) -> Seq<ElemV>
    decreases s, s.len() - i, 1int,
{
    if i < 0 || i >= s.len() {
        Seq::empty()
    } else {
        proof {
            assert(decreases_to!(s => s[i]));
        }
        seq![elem_view(s[i])] + elems_view(s, i + 1)
    }
}

/// Element views are positional: the view of `s` from `i` has one entry
/// per element of `s` from `i` on.
pub proof fn lemma_elems_view_index(s: Seq<SyntaxElement>, i: int)
    requires
        0 <= i <= s.len(),
    ensures
        elems_view(s, i).len() == s.len() - i,
        forall|k: int|
            0 <= k < s.len() - i ==> elems_view(s, i)[k] == elem_view(s[i + k]),
    decreases s.len() - i,
{
    if i < s.len() {
        lemma_elems_view_index(s, i + 1);
        assert forall|k: int| 0 <= k < s.len() - i implies elems_view(s, i)[k] == elem_view(
            s[i + k],
        ) by {
            if k > 0 {
                assert(elems_view(s, i)[k] == elems_view(s, i + 1)[k - 1]);
            }
        }
    }
}

/// Appending an element appends its view.
pub proof fn lemma_elems_view_push(s: Seq<SyntaxElement>, e: SyntaxElement)
    ensures
        elems_view(s.push(e), 0) == elems_view(s, 0).push(elem_view(e)),
{
    lemma_elems_view_index(s, 0);
    lemma_elems_view_index(s.push(e), 0);
    assert(elems_view(s.push(e), 0) =~= elems_view(s, 0).push(elem_view(e)));
}

/// Appending a child appends its text.
pub proof fn lemma_text_of_push(cs: Seq<ElemV>, v: ElemV, i: int)
    requires
        0 <= i <= cs.len(),
    ensures
        ElemV::text_of(cs.push(v), i) == ElemV::text_of(cs, i) + v.text(),
    decreases cs.len() - i,
{
    if i == cs.len() {
        assert(cs.push(v)[i] == v);
        assert(ElemV::text_of(cs.push(v), i + 1) =~= Seq::<char>::empty());
        assert(ElemV::text_of(cs, i) =~= Seq::<char>::empty());
        assert(ElemV::text_of(cs.push(v), i) =~= ElemV::text_of(cs, i) + v.text());
    } else {
        lemma_text_of_push(cs, v, i + 1);
        assert(cs.push(v)[i] == cs[i]);
        assert(ElemV::text_of(cs.push(v), i) =~= ElemV::text_of(cs, i) + v.text());
    }
}

/// Text from `j` equals text of the suffix dropped at `m`, shifted.
pub proof fn lemma_text_of_shift(cs: Seq<ElemV>, m: int, j: int)
    requires
        0 <= m <= j <= cs.len(),
    ensures
        ElemV::text_of(cs, j) == ElemV::text_of(cs.skip(m), j - m),
    decreases cs.len() - j,
{
    if j < cs.len() {
        lemma_text_of_shift(cs, m, j + 1);
        assert(cs.skip(m)[j - m] == cs[j]);
    }
}

/// The text of children splits at any point.
pub proof fn lemma_text_of_split(cs: Seq<ElemV>, i: int, m: int)
    requires
        0 <= i <= m <= cs.len(),
    ensures
        ElemV::text_of(cs, i) == ElemV::text_of(cs.take(m), i) + ElemV::text_of(cs, m),
    decreases m - i,
{
    if i == m {
        assert(ElemV::text_of(cs.take(m), i) =~= Seq::<char>::empty());
        assert(ElemV::text_of(cs, i) =~= ElemV::text_of(cs.take(m), i) + ElemV::text_of(cs, m));
    } else {
        lemma_text_of_split(cs, i + 1, m);
        assert(cs.take(m)[i] == cs[i]);
        assert(ElemV::text_of(cs, i) =~= ElemV::text_of(cs.take(m), i) + ElemV::text_of(cs, m));
    }
}

/// Appending a child that starts where the others end keeps the layout
/// well formed.
pub proof fn lemma_wf_children_push(cs: Seq<ElemV>, v: ElemV, i: int, off: int)
    requires
        0 <= i <= cs.len(),
        ElemV::wf_children_from(cs, i, off),
        v.wf_at(off + ElemV::text_of(cs, i).len()),
    ensures
        ElemV::wf_children_from(cs.push(v), i, off),
    decreases cs.len() - i,
{
    if i == cs.len() {
        assert(ElemV::text_of(cs, i).len() == 0);
        assert(cs.push(v)[i] == v);
        assert(ElemV::wf_children_from(cs.push(v), i + 1, off + v.text().len()));
    } else {
        assert(cs.push(v)[i] == cs[i]);
        lemma_wf_children_push(cs, v, i + 1, off + cs[i].text().len());
    }
}

/// A well-formed layout from `j` is the same thing as a well-formed
/// layout of the suffix dropped at `m`.
pub proof fn lemma_wf_children_shift(cs: Seq<ElemV>, m: int, j: int, off: int)
    requires
        0 <= m <= j <= cs.len(),
    ensures
        ElemV::wf_children_from(cs, j, off) == ElemV::wf_children_from(cs.skip(m), j - m, off),
    decreases cs.len() - j,
{
    if j < cs.len() {
        assert(cs.skip(m)[j - m] == cs[j]);
        lemma_wf_children_shift(cs, m, j + 1, off + cs[j].text().len());
    }
}

/// A well-formed layout splits at any point: the prefix is well formed
/// where it was, the rest is well formed where the prefix ends.
pub proof fn lemma_wf_children_split(cs: Seq<ElemV>, i: int, m: int, off: int)
    requires
        0 <= i <= m <= cs.len(),
        ElemV::wf_children_from(cs, i, off),
    ensures
        ElemV::wf_children_from(cs.take(m), i, off),
        ElemV::wf_children_from(cs, m, off + ElemV::text_of(cs.take(m), i).len()),
    decreases m - i,
{
    if i == m {
        assert(ElemV::text_of(cs.take(m), i).len() == 0);
    } else {
        assert(cs.take(m)[i] == cs[i]);
        lemma_wf_children_split(cs, i + 1, m, off + cs[i].text().len());
        assert(ElemV::text_of(cs.take(m), i) == cs[i].text() + ElemV::text_of(cs.take(m), i + 1));
    }
}

/// In a well-formed layout every child sits flush against the one
/// before it: the first starts at the layout's offset, each next one
/// starts where the previous ends, and the last ends where the whole
/// text ends.
pub proof fn lemma_child_positions(cs: Seq<ElemV>, i: int, off: int)
    requires
        0 <= i <= cs.len(),
        ElemV::wf_children_from(cs, i, off),
    ensures
        forall|j: int|
            i <= j < cs.len() ==> (#[trigger] cs[j].range()).end == cs[j].range().start
                + cs[j].text().len(),
        i < cs.len() ==> cs[i].range().start == off,
        forall|j: int|
            i <= j < cs.len() - 1 ==> (#[trigger] cs[j].range()).end == cs[j + 1].range().start,
        i < cs.len() ==> cs.last().range().end == off + ElemV::text_of(cs, i).len(),
    decreases cs.len() - i,
{
    if i < cs.len() {
        crate::builder::lemma_wf_at_start(cs[i], off);
        lemma_child_positions(cs, i + 1, off + cs[i].text().len());
        if i == cs.len() - 1 {
            assert(ElemV::text_of(cs, i + 1).len() == 0);
        }
    }
}

/// Sibling ranges come one after another: an earlier child ends at or
/// before a later child starts.
pub proof fn lemma_sibling_order(cs: Seq<ElemV>, i: int, off: int, a: int, b: int)
    requires
        0 <= i <= a < b < cs.len(),
        ElemV::wf_children_from(cs, i, off),
    ensures
        cs[a].range().end <= cs[b].range().start,
    decreases b - a,
{
    lemma_child_positions(cs, i, off);
    if a + 1 < b {
        lemma_sibling_order(cs, i, off, a + 1, b);
        assert(cs[a].range().end == cs[a + 1].range().start);
        assert(cs[a + 1].range().start <= cs[a + 1].range().end);
    }
}

/// Range coverage: in a well-formed tree, a node's range is exactly the
/// minimal range covering its children — it starts where its first
/// child starts and ends where its last child ends — and sibling
/// ranges never overlap.
pub proof fn lemma_range_coverage(v: ElemV, off: int)
    requires
        v.wf_at(off),
    ensures
        v.range().start == off,
        v.range().end == off + v.text().len(),
        v matches ElemV::Node { children, .. } ==> {
            &&& children.len() > 0 ==> v.range().start == children[0].range().start
                && v.range().end == children.last().range().end
            &&& children.len() == 0 ==> v.range().start == v.range().end
            &&& forall|a: int, b: int|
                0 <= a < b < children.len() ==> (#[trigger] children[a].range()).end
                    <= (#[trigger] children[b].range()).start
        },
{
    crate::builder::lemma_wf_at_start(v, off);
    match v {
        ElemV::Token { .. } => {},
        ElemV::Node { children, .. } => {
            lemma_child_positions(children, 0, off);
            assert forall|a: int, b: int| 0 <= a < b < children.len() implies (
            #[trigger] children[a].range()).end <= (#[trigger] children[b].range()).start by {
                lemma_sibling_order(children, 0, off, a, b);
            }
        },
    }
}

impl View for SyntaxElement {
    type V = ElemV;

    open spec fn view(&self) -> ElemV {
        elem_view(*self)
    }
}

impl View for SyntaxNode {
    type V = ElemV;

    open spec fn view(&self) -> ElemV {
        elem_view(SyntaxElement::Node(*self))
    }
}

impl SyntaxElement {
    /// The kind tag of the element.
    pub fn kind(&self) -> (k: SyntaxKind)
        ensures
            k == self@.kind(),
    {
        match self {
            SyntaxElement::Node(n) => n.kind,
            SyntaxElement::Token(t) => t.kind,
        }
    }

    /// The range of the element.
    pub fn range(&self) -> (r: TextRange)
        ensures
            r == self@.range(),
    {
        match self {
            SyntaxElement::Node(n) => n.range,
            SyntaxElement::Token(t) => t.range,
        }
    }
}


impl SyntaxElement {
    /// The exact characters the element covers: a token's own text, or
    /// its children's texts concatenated in order.
    pub fn text(&self) -> (r: String)
        ensures
            r@ == self@.text(),
        decreases *self,
    {
        match self {
            SyntaxElement::Token(t) => t.text.clone(),
            SyntaxElement::Node(n) => {
                let ghost vs = elems_view(n.children@, 0);
                proof {
                    lemma_elems_view_index(n.children@, 0);
                }
                let mut out = String::new();
                let len = n.children.len();
                let mut i: usize = 0;
                proof {
                    assert(out@ =~= Seq::<char>::empty());
                }
                while i < len
                    invariant
                        *self == SyntaxElement::Node(*n),
                        vs == elems_view(n.children@, 0),
                        vs.len() == n.children@.len(),
                        forall|k: int|
                            0 <= k < n.children@.len() ==> vs[k] == elem_view(n.children@[k]),
                        len == n.children@.len(),
                        i <= len,
                        out@ + ElemV::text_of(vs, i as int) == ElemV::text_of(vs, 0),
                    decreases len - i,
                {
                    proof {
                        assert(decreases_to!(*self => (*self)->Node_0));
                        assert((*self)->Node_0 == *n);
                        assert(decreases_to!(*n => n.children));
                        assert(decreases_to!(n.children => n.children@));
                        assert(decreases_to!(n.children@ => n.children@[i as int]));
                    }
                    let piece = n.children[i].text();
                    out.append(piece.as_str());
                    proof {
                        assert(ElemV::text_of(vs, i as int) == vs[i as int].text()
                            + ElemV::text_of(vs, i as int + 1));
                        assert(out@ + ElemV::text_of(vs, i as int + 1) =~= ElemV::text_of(vs, 0));
                    }
                    i = i + 1;
                }
                proof {
                    assert(ElemV::text_of(vs, len as int) =~= Seq::<char>::empty());
                    assert(out@ =~= ElemV::text_of(vs, 0));
                }
                out
            },
        }
    }
}

impl SyntaxElement {
    /// Copies the whole subtree.
    pub fn deep_clone(&self) -> (r: SyntaxElement)
        ensures
            r@ == self@,
        decreases *self,
    {
        match self {
            SyntaxElement::Token(t) => SyntaxElement::Token(
                SyntaxToken { kind: t.kind, text: t.text.clone(), range: t.range },
            ),
            SyntaxElement::Node(n) => {
                let mut cs: Vec<SyntaxElement> = Vec::new();
                let len = n.children.len();
                proof {
                    lemma_elems_view_index(n.children@, 0);
                }
                for i in 0..len
                    invariant
                        *self == SyntaxElement::Node(*n),
                        len == n.children@.len(),
                        cs@.len() == i,
                        forall|k: int|
                            0 <= k < i ==> elem_view(#[trigger] cs@[k]) == elem_view(
                                n.children@[k],
                            ),
                {
                    proof {
                        assert(decreases_to!(*self => (*self)->Node_0));
                        assert((*self)->Node_0 == *n);
                        assert(decreases_to!(*n => n.children));
                        assert(decreases_to!(n.children => n.children@));
                        assert(decreases_to!(n.children@ => n.children@[i as int]));
                    }
                    let c = n.children[i].deep_clone();
                    cs.push(c);
                }
                let out = SyntaxNode { kind: n.kind, range: n.range, children: cs };
                proof {
                    lemma_elems_view_index(out.children@, 0);
                    lemma_elems_view_index(n.children@, 0);
                    assert(elems_view(out.children@, 0) =~= elems_view(n.children@, 0));
                }
                SyntaxElement::Node(out)
            },
        }
    }
}


/// Appends the characters of `s`, escaping quotes, backslashes and line
/// feeds the way the tree printer shows token text.
fn push_escaped(s: &str, out: &mut String) {
    let n = s.unicode_len();
    let mut i: usize = 0;
    while i < n
        invariant
            n == s@.len(),
            i <= n,
        decreases n - i,
    {
        let c = s.get_char(i);
        if c == '"' {
            out.push('\\');
            out.push('"');
        } else if c == '\\' {
            out.push('\\');
            out.push('\\');
        } else if c == '\n' {
            out.push('\\');
            out.push('n');
        } else {
            out.push(c);
        }
        i = i + 1;
    }
}

/// Appends a number in decimal.
fn push_num(n: usize, out: &mut String) {
    let digits = crate::val::render_u64(n as u64);
    out.append(digits.as_str());
}

/// Appends one line per node or token, indented by nesting depth.
fn render_at(e: &SyntaxElement, depth: usize, out: &mut String)
    decreases *e,
{
    let mut d: usize = 0;
    while d < depth
        invariant
            d <= depth,
        decreases depth - d,
    {
        out.push(' ');
        out.push(' ');
        d = d + 1;
    }
    match e {
        SyntaxElement::Token(t) => {
            out.append(t.kind.name());
            out.push('@');
            push_num(t.range.start, out);
            out.push('.');
            out.push('.');
            push_num(t.range.end, out);
            out.push(' ');
            out.push('"');
            push_escaped(t.text.as_str(), out);
            out.push('"');
        },
        SyntaxElement::Node(n) => {
            out.append(n.kind.name());
            out.push('@');
            push_num(n.range.start, out);
            out.push('.');
            out.push('.');
            push_num(n.range.end, out);
            let len = n.children.len();
            let d2: usize = if depth < 10000 {
                depth + 1
            } else {
                depth
            };
            let mut i: usize = 0;
            while i < len
                invariant
                    *e == SyntaxElement::Node(*n),
                    len == n.children@.len(),
                    i <= len,
                decreases len - i,
            {
                proof {
                    assert(decreases_to!(*e => (*e)->Node_0));
                    assert((*e)->Node_0 == *n);
                    assert(decreases_to!(*n => n.children));
                    assert(decreases_to!(n.children => n.children@));
                    assert(decreases_to!(n.children@ => n.children@[i as int]));
                }
                out.push('\n');
                render_at(&n.children[i], d2, out);
                i = i + 1;
            }
        },
    }
}

/// A representation of a tree suitable for debugging: one line per node
/// or token, with its kind, its range, and (for tokens) its text,
/// indented by nesting depth.
pub fn debug_tree_of(e: &SyntaxElement) -> String {
    let mut out = String::new();
    render_at(e, 0, &mut out);
    out
}

} // verus!
