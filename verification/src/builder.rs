//! The syntax-tree builder: assembles a tree bottom-up from a stream of
//! tokens and start-node / finish-node events, with checkpoints that can
//! wrap an already-emitted run of children in a new parent after the
//! fact.

use vstd::prelude::*;

use crate::syntax_kind::SyntaxKind;
use crate::text_range::TextRange;
use crate::tree::{
    elems_view, lemma_elems_view_push, lemma_text_of_push, lemma_text_of_shift,
    lemma_text_of_split, lemma_wf_children_push, lemma_wf_children_shift,
    lemma_wf_children_split, ElemV, SyntaxElement, SyntaxNode, SyntaxToken,
};

verus! {

/// A node under construction: its kind, where it starts, and the
/// children emitted so far.
pub struct Frame {
    /// the kind the node will have
    pub kind: SyntaxKind,
    /// the offset at which the node starts
    pub start: usize,
    /// the children emitted so far
    pub children: Vec<SyntaxElement>,
}

/// Builds a syntax tree bottom-up. Tokens and finished nodes are
/// appended to the innermost open node; `finish` hands out the single
/// finished root element.
pub struct TreeBuilder {
    /// finished elements not enclosed by any open node
    pub base: Vec<SyntaxElement>,
    /// the stack of open nodes, outermost first
    pub frames: Vec<Frame>,
    /// the total length of all text emitted so far
    pub offset: usize,
}

/// The views of a frame's children.
pub open spec fn frame_views(f: Frame) -> Seq<ElemV> {
    elems_view(f.children@, 0)
}

/// The text of a frame's children.
pub open spec fn frame_text(f: Frame) -> Seq<char> {
    ElemV::text_of(frame_views(f), 0)
}

/// The concatenated text of the children of the first `k` frames.
pub open spec fn frames_text_upto(fs: Seq<Frame>, k: int) -> Seq<char>
    decreases k,
{
    if k <= 0 {
        Seq::empty()
    } else {
        frames_text_upto(fs, k - 1) + frame_text(fs[k - 1])
    }
}

/// Frames with equal children texts contribute equal text.
pub proof fn lemma_upto_prefix(fs: Seq<Frame>, gs: Seq<Frame>, k: int)
    requires
        k <= fs.len(),
        k <= gs.len(),
        forall|j: int| 0 <= j < k ==> frame_text(#[trigger] fs[j]) == frame_text(gs[j]),
    ensures
        frames_text_upto(fs, k) == frames_text_upto(gs, k),
    decreases k,
{
    if k > 0 {
        lemma_upto_prefix(fs, gs, k - 1);
    }
}

impl TreeBuilder {
    /// The views of the base elements.
    pub open spec fn base_views(self) -> Seq<ElemV> {
        elems_view(self.base@, 0)
    }

    /// The text emitted before frame `k`'s children.
    pub open spec fn pre_text(self, k: int) -> Seq<char> {
        ElemV::text_of(self.base_views(), 0) + frames_text_upto(self.frames@, k)
    }

    /// All text emitted so far, in order.
    pub open spec fn text(self) -> Seq<char> {
        self.pre_text(self.frames@.len() as int)
    }

    /// The builder's invariant: every element sits exactly where the
    /// text emitted before it ends, and `offset` is the total text
    /// length.
    pub open spec fn wf(self) -> bool {
        &&& ElemV::wf_children_at(self.base_views(), 0)
        &&& forall|k: int|
            0 <= k < self.frames@.len() ==> (#[trigger] self.frames@[k]).start
                == self.pre_text(k).len()
        &&& forall|k: int|
            0 <= k < self.frames@.len() ==> ElemV::wf_children_at(
                frame_views(#[trigger] self.frames@[k]),
                self.frames@[k].start as int,
            )
        &&& self.offset == self.text().len()
    }

    /// The number of open nodes.
    pub open spec fn depth(self) -> int {
        self.frames@.len() as int
    }

    /// The children views of the innermost open node.
    pub open spec fn top_views(self) -> Seq<ElemV> {
        frame_views(self.frames@.last())
    }

    /// The frames other than the innermost are unchanged between two
    /// builder states, kind and start of the innermost included.
    pub open spec fn same_but_top(self, other: TreeBuilder) -> bool {
        &&& other.frames@.len() == self.frames@.len()
        &&& forall|k: int|
            0 <= k < self.frames@.len() - 1 ==> #[trigger] other.frames@[k] == self.frames@[k]
        &&& other.frames@.last().kind == self.frames@.last().kind
        &&& other.frames@.last().start == self.frames@.last().start
        &&& other.base@ == self.base@
    }

    /// A fresh builder with nothing emitted.
    pub fn new() -> (r: TreeBuilder)
        ensures
            r.wf(),
            r.depth() == 0,
            r.base@.len() == 0,
            r.text() == Seq::<char>::empty(),
            r.offset == 0,
    {
        let r = TreeBuilder { base: Vec::new(), frames: Vec::new(), offset: 0 };
        proof {
            assert(r.base_views() =~= Seq::<ElemV>::empty());
            assert(r.text() =~= Seq::<char>::empty());
        }
        r
    }

    /// Appends one token to the innermost open node.
    pub fn token(&mut self, kind: SyntaxKind, text: String)
        requires
            old(self).wf(),
            old(self).depth() > 0,
            old(self).offset + text@.len() <= usize::MAX,
        ensures
            final(self).wf(),
            old(self).same_but_top(*final(self)),
            final(self).top_views() == old(self).top_views().push(
                ElemV::Token {
                    kind,
                    text: text@,
                    range: TextRange {
                        start: old(self).offset,
                        end: (old(self).offset + text@.len()) as usize,
                    },
                },
            ),
            final(self).text() == old(self).text() + text@,
            final(self).offset == old(self).offset + text@.len(),
    {
        let len: usize = text.as_str().unicode_len();
        let tok = SyntaxToken {
            kind,
            text,
            range: TextRange { start: self.offset, end: self.offset + len },
        };
        let ghost tokv = ElemV::Token { kind: tok.kind, text: tok.text@, range: tok.range };
        let ghost oldb = *self;
        let mut f = match self.frames.pop() {
            Some(f) => f,
            None => unreached(),
        };
        f.children.push(SyntaxElement::Token(tok));
        self.frames.push(f);
        self.offset = self.offset + len;
        proof {
            assert(self.frames@ =~= oldb.frames@.update(oldb.frames@.len() - 1, self.frames@.last()));
        }
        proof {
            let fs0 = oldb.frames@;
            let fs1 = self.frames@;
            let k = fs0.len() - 1;
            lemma_elems_view_push(fs0[k].children@, SyntaxElement::Token(tok));
            assert(frame_views(fs1[k]) == frame_views(fs0[k]).push(tokv));
            lemma_text_of_push(frame_views(fs0[k]), tokv, 0);
            lemma_upto_prefix(fs1, fs0, k);
            assert(frames_text_upto(fs1, k + 1) == frames_text_upto(fs1, k) + frame_text(
                fs1[k],
            ));
            assert(self.text() =~= oldb.text() + tok.text@);
            assert forall|j: int| 0 <= j < fs1.len() implies (#[trigger] fs1[j]).start
                == self.pre_text(j).len() by {
                lemma_upto_prefix(fs1, fs0, j);
            }
            assert forall|j: int| 0 <= j < fs1.len() implies ElemV::wf_children_at(
                frame_views(#[trigger] fs1[j]),
                fs1[j].start as int,
            ) by {
                if j == k {
                    lemma_upto_prefix(fs1, fs0, k);
                    assert(tokv.wf_at(fs0[k].start + ElemV::text_of(frame_views(fs0[k]), 0).len()));
                    lemma_wf_children_push(frame_views(fs0[k]), tokv, 0, fs0[k].start as int);
                }
            }
        }
    }

    /// Opens a node whose children are everything emitted from now until
    /// the matching `finish_node`.
    pub fn start_node(&mut self, kind: SyntaxKind)
        requires
            old(self).wf(),
        ensures
            final(self).wf(),
            final(self).frames@.len() == old(self).frames@.len() + 1,
            forall|k: int|
                0 <= k < old(self).frames@.len() ==> #[trigger] final(self).frames@[k] == old(
                    self,
                ).frames@[k],
            final(self).frames@.last().kind == kind,
            final(self).frames@.last().start == old(self).offset,
            final(self).top_views() == Seq::<ElemV>::empty(),
            final(self).base@ == old(self).base@,
            final(self).text() == old(self).text(),
            final(self).offset == old(self).offset,
    {
        let ghost oldb = *self;
        let f = Frame { kind, start: self.offset, children: Vec::new() };
        self.frames.push(f);
        proof {
            let fs1 = self.frames@;
            let k = fs1.len() - 1;
            lemma_upto_prefix(fs1, oldb.frames@, k);
            assert(frame_views(fs1[k]) =~= Seq::<ElemV>::empty());
            assert(frame_text(fs1[k]) =~= Seq::<char>::empty());
            assert(self.text() =~= oldb.text());
            assert forall|j: int| 0 <= j < fs1.len() implies (#[trigger] fs1[j]).start
                == self.pre_text(j).len() by {
                if j < k {
                    lemma_upto_prefix(fs1, oldb.frames@, j);
                } else {
                    assert(self.pre_text(k) =~= self.text());
                }
            }
            assert forall|j: int| 0 <= j < fs1.len() implies ElemV::wf_children_at(
                frame_views(#[trigger] fs1[j]),
                fs1[j].start as int,
            ) by {}
        }
    }

    /// A checkpoint: a mark before which nothing will later be wrapped.
    pub fn checkpoint(&self) -> (r: usize)
        requires
            self.depth() > 0,
        ensures
            r == self.top_views().len(),
    {
        let top: usize = self.frames.len() - 1;
        proof {
            crate::tree::lemma_elems_view_index(self.frames@[top as int].children@, 0);
        }
        self.frames[top].children.len()
    }

    /// Opens a node that retroactively adopts every child emitted at the
    /// innermost level since the checkpoint was taken.
    #[verifier::rlimit(60)]
    pub fn start_node_at(&mut self, checkpoint: usize, kind: SyntaxKind)
        requires
            old(self).wf(),
            old(self).depth() > 0,
            checkpoint <= old(self).top_views().len(),
        ensures
            final(self).wf(),
            final(self).frames@.len() == old(self).frames@.len() + 1,
            forall|k: int|
                0 <= k < old(self).frames@.len() - 1 ==> #[trigger] final(self).frames@[k] == old(
                    self,
                ).frames@[k],
            final(self).frames@[old(self).frames@.len() - 1].kind == old(self).frames@.last().kind,
            final(self).frames@[old(self).frames@.len() - 1].start == old(self).frames@.last().start,
            frame_views(final(self).frames@[old(self).frames@.len() - 1]) == old(self).top_views().take(
                checkpoint as int,
            ),
            final(self).frames@.last().kind == kind,
            final(self).top_views() == old(self).top_views().skip(checkpoint as int),
            final(self).base@ == old(self).base@,
            final(self).text() == old(self).text(),
            final(self).offset == old(self).offset,
    {
        let ghost oldb = *self;
        let top: usize = self.frames.len() - 1;
        proof {
            crate::tree::lemma_elems_view_index(self.frames@[top as int].children@, 0);
        }
        let start: usize = if checkpoint < self.frames[top].children.len() {
            let ghost cs = oldb.top_views();
            proof {
                lemma_wf_children_split(cs, 0, checkpoint as int, oldb.frames@[top as int].start as int);
                lemma_wf_at_start(cs[checkpoint as int], oldb.frames@[top as int].start
                    + ElemV::text_of(cs.take(checkpoint as int), 0).len());
            }
            let f = &self.frames[top];
            f.children[checkpoint].range().start
        } else {
            self.offset
        };
        let mut f = match self.frames.pop() {
            Some(f) => f,
            None => unreached(),
        };
        let moved = f.children.split_off(checkpoint);
        self.frames.push(f);
        let nf = Frame { kind, start, children: moved };
        self.frames.push(nf);
        proof {
            let fs0 = oldb.frames@;
            let fs1 = self.frames@;
            let k = fs0.len() - 1;
            let cs = oldb.top_views();
            let cp = checkpoint as int;
            lemma_elems_view_take(fs0[k].children@, cp);
            lemma_elems_view_skip(fs0[k].children@, cp);
            assert(frame_views(fs1[k]) == cs.take(cp));
            assert(frame_views(fs1[k + 1]) == cs.skip(cp));
            lemma_wf_children_split(cs, 0, cp, fs0[k].start as int);
            lemma_wf_children_shift(cs, cp, cp, fs0[k].start + ElemV::text_of(cs.take(cp), 0).len());
            lemma_text_of_split(cs, 0, cp);
            lemma_text_of_shift(cs, cp, cp);
            // the new frame starts where the kept prefix ends
            assert(nf.start == fs0[k].start + ElemV::text_of(cs.take(cp), 0).len()) by {
                if cp < cs.len() {
                    lemma_wf_at_start(cs[cp], fs0[k].start + ElemV::text_of(cs.take(cp), 0).len());
                } else {
                    assert(cs.take(cp) =~= cs);
                }
            }
            lemma_upto_prefix(fs1, fs0, k);
            assert(frames_text_upto(fs1, k + 2) == frames_text_upto(fs1, k + 1) + frame_text(
                fs1[k + 1],
            ));
            assert(frames_text_upto(fs1, k + 1) == frames_text_upto(fs1, k) + frame_text(fs1[k]));
            assert(frames_text_upto(fs0, k + 1) == frames_text_upto(fs0, k) + frame_text(fs0[k]));
            assert(frame_text(fs0[k]) == frame_text(fs1[k]) + frame_text(fs1[k + 1]));
            assert(self.text() =~= oldb.text());
            assert(self.pre_text(k + 1) =~= oldb.pre_text(k) + frame_text(fs1[k]));
            assert forall|j: int| 0 <= j < fs1.len() implies (#[trigger] fs1[j]).start
                == self.pre_text(j).len() by {
                if j < k {
                    lemma_upto_prefix(fs1, fs0, j);
                } else if j == k {
                    lemma_upto_prefix(fs1, fs0, k);
                }
            }
            assert forall|j: int| 0 <= j < fs1.len() implies ElemV::wf_children_at(
                frame_views(#[trigger] fs1[j]),
                fs1[j].start as int,
            ) by {}
        }
    }

    /// Closes the innermost open node and appends it to its parent.
    pub fn finish_node(&mut self)
        requires
            old(self).wf(),
            old(self).depth() > 0,
        ensures
            final(self).wf(),
            final(self).frames@.len() == old(self).frames@.len() - 1,
            forall|k: int|
                0 <= k < old(self).frames@.len() - 2 ==> #[trigger] final(self).frames@[k] == old(
                    self,
                ).frames@[k],
            old(self).frames@.len() > 1 ==> {
                &&& final(self).frames@.last().kind == old(self).frames@[old(self).frames@.len()
                    - 2].kind
                &&& final(self).frames@.last().start == old(self).frames@[old(self).frames@.len()
                    - 2].start
                &&& final(self).top_views() == frame_views(
                    old(self).frames@[old(self).frames@.len() - 2],
                ).push(old(self).finished_top())
                &&& final(self).base@ == old(self).base@
            },
            old(self).frames@.len() == 1 ==> final(self).base_views() == old(self).base_views().push(
                old(self).finished_top(),
            ),
            final(self).text() == old(self).text(),
            final(self).offset == old(self).offset,
    {
        let f = match self.frames.pop() {
            Some(f) => f,
            None => {
                proof {
                    assert(false);
                }
                unreached()
            },
        };
        let ghost oldb = *old(self);
        let node = SyntaxNode {
            kind: f.kind,
            range: TextRange { start: f.start, end: self.offset },
            children: f.children,
        };
        let ghost nodev = elem_view_of_node(node);
        proof {
            let fs0 = oldb.frames@;
            let k = fs0.len() - 1;
            assert(self.frames@ == fs0.drop_last());
            // the popped frame's text is the node's text
            assert(nodev == oldb.finished_top());
            lemma_upto_prefix(self.frames@, fs0, k);
            assert(oldb.text() =~= oldb.pre_text(k) + frame_text(fs0[k]));
            assert(nodev.wf_at(fs0[k].start as int));
        }
        if self.frames.len() > 0 {
            let mut g = match self.frames.pop() {
                Some(g) => g,
                None => unreached(),
            };
            g.children.push(SyntaxElement::Node(node));
            self.frames.push(g);
            proof {
                let fs0 = oldb.frames@;
                let fs1 = self.frames@;
                let k = fs0.len() - 1;
                let p = k - 1;
                lemma_elems_view_push(fs0[p].children@, SyntaxElement::Node(node));
                assert(frame_views(fs1[p]) == frame_views(fs0[p]).push(nodev));
                lemma_text_of_push(frame_views(fs0[p]), nodev, 0);
                lemma_upto_prefix(fs1, fs0, p);
                assert(frames_text_upto(fs1, p + 1) == frames_text_upto(fs1, p) + frame_text(
                    fs1[p],
                ));
                assert(frames_text_upto(fs0, k + 1) == frames_text_upto(fs0, k) + frame_text(
                    fs0[k],
                ));
                assert(frames_text_upto(fs0, k) == frames_text_upto(fs0, p) + frame_text(
                    fs0[p],
                ));
                assert(self.text() =~= oldb.text());
                assert forall|j: int| 0 <= j < fs1.len() implies (#[trigger] fs1[j]).start
                    == self.pre_text(j).len() by {
                    lemma_upto_prefix(fs1, fs0, j);
                }
                assert forall|j: int| 0 <= j < fs1.len() implies ElemV::wf_children_at(
                    frame_views(#[trigger] fs1[j]),
                    fs1[j].start as int,
                ) by {
                    if j == p {
                        assert(fs0[k].start == oldb.pre_text(k).len());
                        assert(oldb.pre_text(k) =~= oldb.pre_text(p) + frame_text(fs0[p]));
                        lemma_wf_children_push(frame_views(fs0[p]), nodev, 0, fs0[p].start as int);
                    }
                }
            }
        } else {
            self.base.push(SyntaxElement::Node(node));
            proof {
                let fs0 = oldb.frames@;
                lemma_elems_view_push(oldb.base@, SyntaxElement::Node(node));
                lemma_text_of_push(oldb.base_views(), nodev, 0);
                assert(oldb.pre_text(0) =~= ElemV::text_of(oldb.base_views(), 0));
                lemma_wf_children_push(oldb.base_views(), nodev, 0, 0);
                assert(self.text() =~= oldb.text());
            }
        }
    }

    /// The node the innermost open frame would close into.
    pub open spec fn finished_top(self) -> ElemV {
        ElemV::Node {
            kind: self.frames@.last().kind,
            range: TextRange {
                start: self.frames@.last().start,
                end: self.offset,
            },
            children: self.top_views(),
        }
    }

    /// Hands out the single finished element.
    pub fn finish(self) -> (r: SyntaxElement)
        requires
            self.wf(),
            self.depth() == 0,
            self.base@.len() == 1,
        ensures
            r@ == self.base_views()[0],
            r@.wf_at(0),
            r@.text() == self.text(),
    {
        proof {
            crate::tree::lemma_elems_view_index(self.base@, 0);
            assert(self.text() =~= ElemV::text_of(self.base_views(), 0));
            assert(ElemV::text_of(self.base_views(), 1) =~= Seq::<char>::empty());
            assert(self.text() =~= self.base_views()[0].text());
        }
        let mut base = self.base;
        match base.pop() {
            Some(e) => e,
            None => {
                proof {
                    assert(false);
                }
                unreached()
            },
        }
    }
}

/// The view of a node element.
pub open spec fn elem_view_of_node(n: SyntaxNode) -> ElemV {
    crate::tree::elem_view(SyntaxElement::Node(n))
}

/// Views of a prefix are the prefix of the views.
pub proof fn lemma_elems_view_take(s: Seq<SyntaxElement>, m: int)
    requires
        0 <= m <= s.len(),
    ensures
        elems_view(s.subrange(0, m), 0) == elems_view(s, 0).take(m),
{
    crate::tree::lemma_elems_view_index(s, 0);
    crate::tree::lemma_elems_view_index(s.subrange(0, m), 0);
    assert(elems_view(s.subrange(0, m), 0) =~= elems_view(s, 0).take(m));
}

/// Views of a suffix are the suffix of the views.
pub proof fn lemma_elems_view_skip(s: Seq<SyntaxElement>, m: int)
    requires
        0 <= m <= s.len(),
    ensures
        elems_view(s.subrange(m, s.len() as int), 0) == elems_view(s, 0).skip(m),
{
    crate::tree::lemma_elems_view_index(s, 0);
    crate::tree::lemma_elems_view_index(s.subrange(m, s.len() as int), 0);
    assert(elems_view(s.subrange(m, s.len() as int), 0) =~= elems_view(s, 0).skip(m));
}

/// A well-formed element's range starts at its offset.
pub proof fn lemma_wf_at_start(v: ElemV, off: int)
    requires
        v.wf_at(off),
    ensures
        v.range().start == off,
        v.range().end == off + v.text().len(),
{
}

} // verus!
