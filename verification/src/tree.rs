//! The arena tree and the tree-construction contract that fills it.
//!
//! Nodes live in one growable arena and point at each other with plain
//! indices: a node's `parent` is the index of its parent (or `None` while the
//! node is detached), and `children` lists the indices of its children in
//! document order.  Construction only ever appends nodes and links them, so a
//! child's index is always strictly greater than its parent's; that ordering
//! is part of the well-formedness invariant and is what makes every walk down
//! the tree terminate.

use vstd::prelude::*;

use crate::node::DoctypeData;
use crate::node::ElementData;
use crate::node::NodeKind;
use crate::node::Attribute;

verus! {

/// The document-wide legacy-rendering compatibility flag.
#[derive(Clone, Copy, PartialEq, Eq, Structural, Debug)]
pub enum QuirksMode {
    NoQuirks,
    LimitedQuirks,
    Quirks,
}

/// One slot of the arena: a node's content and its links.
pub struct ArenaNode {
    pub kind: NodeKind,
    pub parent: Option<usize>,
    pub children: Vec<usize>,
}

/// An HTML tree.
///
/// Construction never fails hard: malformed markup only adds entries to
/// `errors` and possibly changes `quirks_mode`, while the tree is still
/// populated as best as possible.
pub struct Html {
    /// Parse diagnostics, in the order they were reported.
    pub errors: Vec<String>,
    /// The quirks mode; later reports override earlier ones.
    pub quirks_mode: QuirksMode,
    /// The node arena.  Slot 0 is the root.
    pub nodes: Vec<ArenaNode>,
}

impl Html {
    /// Everything well-formedness asks of one arena slot: links in bounds,
    /// children strictly after their parent, parent and child lists agreeing,
    /// and no child listed twice.
    pub open spec fn node_ok(&self, i: int) -> bool {
        let n = self.nodes@[i];
        &&& match n.parent {
            Some(p) => p < i && self.nodes@[p as int].children@.contains(i as usize),
            None => true,
        }
        &&& forall|k: int|
            0 <= k < n.children@.len() ==> i < #[trigger] n.children@[k] < self.nodes@.len()
        &&& forall|k: int|
            0 <= k < n.children@.len() ==> self.nodes@[#[trigger] n.children@[k] as int].parent
                == Some(i as usize)
        &&& forall|k1: int, k2: int|
            0 <= k1 < k2 < n.children@.len() ==> n.children@[k1] != n.children@[k2]
    }

    /// Structural validity of the whole tree: one root in slot 0, of a root
    /// kind, and every slot's links consistent.
    pub open spec fn wf(&self) -> bool {
        &&& 1 <= self.nodes@.len()
        &&& self.nodes@[0].parent is None
        &&& (self.nodes@[0].kind is Document || self.nodes@[0].kind is Fragment)
        &&& forall|i: int| 0 <= i < self.nodes@.len() ==> #[trigger] self.node_ok(i)
    }

    /// A node whose parent link is `None` stands in no child list.
    proof fn lemma_detached_unlisted(&self, c: usize)
        requires
            self.wf(),
            c < self.nodes@.len(),
            self.nodes@[c as int].parent is None,
        ensures
            forall|i: int, k: int|
                0 <= i < self.nodes@.len() && 0 <= k < self.nodes@[i].children@.len()
                    ==> self.nodes@[i].children@[k] != c,
    {
        assert forall|i: int, k: int|
            0 <= i < self.nodes@.len() && 0 <= k < self.nodes@[i].children@.len()
                implies self.nodes@[i].children@[k] != c by {
            assert(self.node_ok(i));
        }
    }

    fn root_kind(document: bool) -> (r: NodeKind)
        ensures
            document ==> r is Document,
            !document ==> r is Fragment,
    {
        if document {
            NodeKind::Document
        } else {
            NodeKind::Fragment
        }
    }

    fn new_root(document: bool) -> (r: Html)
        ensures
            r.wf(),
            r.nodes@.len() == 1,
            document ==> r.nodes@[0].kind is Document,
            !document ==> r.nodes@[0].kind is Fragment,
            r.nodes@[0].children@ =~= Seq::<usize>::empty(),
            r.errors@ =~= Seq::<String>::empty(),
            r.quirks_mode == QuirksMode::NoQuirks,
    {
        let root = ArenaNode { kind: Self::root_kind(document), parent: None, children: Vec::new() };
        let mut nodes: Vec<ArenaNode> = Vec::new();
        nodes.push(root);
        Html { errors: Vec::new(), quirks_mode: QuirksMode::NoQuirks, nodes }
    }

    /// Creates an empty HTML document.
    pub fn new_document() -> (r: Html)
        ensures
            r.wf(),
            r.nodes@.len() == 1,
            r.nodes@[0].kind is Document,
            r.nodes@[0].children@ =~= Seq::<usize>::empty(),
            r.errors@ =~= Seq::<String>::empty(),
            r.quirks_mode == QuirksMode::NoQuirks,
    {
        Self::new_root(true)
    }

    /// Creates an empty HTML fragment.
    pub fn new_fragment() -> (r: Html)
        ensures
            r.wf(),
            r.nodes@.len() == 1,
            r.nodes@[0].kind is Fragment,
            r.nodes@[0].children@ =~= Seq::<usize>::empty(),
            r.errors@ =~= Seq::<String>::empty(),
            r.quirks_mode == QuirksMode::NoQuirks,
    {
        Self::new_root(false)
    }

    /// Records the quirks mode reported by the tokenizer.  A later report
    /// overrides an earlier one; the tokenizer reports at most one that
    /// matters.
    pub fn set_quirks_mode(&mut self, mode: QuirksMode)
        ensures
            final(self).quirks_mode == mode,
            final(self).nodes == old(self).nodes,
            final(self).errors == old(self).errors,
    {
        self.quirks_mode = mode;
    }

    /// Appends one diagnostic.  Construction never aborts on malformed input.
    pub fn parse_error(&mut self, message: String)
        ensures
            final(self).errors@ == old(self).errors@.push(message),
            final(self).nodes == old(self).nodes,
            final(self).quirks_mode == old(self).quirks_mode,
    {
        self.errors.push(message);
    }

    /// The handle of the root node.
    pub fn get_document(&self) -> (r: usize)
        ensures
            r == 0,
    {
        0
    }

    /// Identity comparison of two handles.
    pub fn same_node(&self, a: usize, b: usize) -> (r: bool)
        ensures
            r == (a == b),
    {
        a == b
    }

    /// Allocates a detached node holding `kind` and returns its handle.
    fn create_node(&mut self, kind: NodeKind) -> (id: usize)
        requires
            old(self).wf(),
            old(self).nodes@.len() < usize::MAX,
        ensures
            final(self).wf(),
            id == old(self).nodes@.len(),
            final(self).nodes@.len() == old(self).nodes@.len() + 1,
            final(self).nodes@[id as int].kind == kind,
            final(self).nodes@[id as int].parent is None,
            final(self).nodes@[id as int].children@ =~= Seq::<usize>::empty(),
            forall|i: int|
                0 <= i < old(self).nodes@.len() ==> final(self).nodes@[i] == old(self).nodes@[i],
            final(self).errors == old(self).errors,
            final(self).quirks_mode == old(self).quirks_mode,
    {
        let id = self.nodes.len();
        let fresh = ArenaNode { kind, parent: None, children: Vec::new() };
        self.nodes.push(fresh);
        proof {
            assert forall|i: int| 0 <= i < self.nodes@.len() implies #[trigger] self.node_ok(i) by {
                if i < id {
                    assert(old(self).node_ok(i));
                }
            }
        }
        id
    }

    /// Allocates a detached element node.
    pub fn create_element(&mut self, name: String, attrs: Vec<Attribute>) -> (id: usize)
        requires
            old(self).wf(),
            old(self).nodes@.len() < usize::MAX,
        ensures
            final(self).wf(),
            id == old(self).nodes@.len(),
            final(self).nodes@.len() == old(self).nodes@.len() + 1,
            final(self).nodes@[id as int].kind == NodeKind::Element(ElementData { name, attrs }),
            final(self).nodes@[id as int].parent is None,
            final(self).nodes@[id as int].children@ =~= Seq::<usize>::empty(),
            forall|i: int|
                0 <= i < old(self).nodes@.len() ==> final(self).nodes@[i] == old(self).nodes@[i],
            final(self).errors == old(self).errors,
            final(self).quirks_mode == old(self).quirks_mode,
    {
        self.create_node(NodeKind::Element(ElementData { name, attrs }))
    }

    /// Allocates a detached text node.
    pub fn create_text(&mut self, text: String) -> (id: usize)
        requires
            old(self).wf(),
            old(self).nodes@.len() < usize::MAX,
        ensures
            final(self).wf(),
            id == old(self).nodes@.len(),
            final(self).nodes@.len() == old(self).nodes@.len() + 1,
            final(self).nodes@[id as int].kind == NodeKind::Text(text),
            final(self).nodes@[id as int].parent is None,
            final(self).nodes@[id as int].children@ =~= Seq::<usize>::empty(),
            forall|i: int|
                0 <= i < old(self).nodes@.len() ==> final(self).nodes@[i] == old(self).nodes@[i],
            final(self).errors == old(self).errors,
            final(self).quirks_mode == old(self).quirks_mode,
    {
        self.create_node(NodeKind::Text(text))
    }

    /// Allocates a detached comment node.
    pub fn create_comment(&mut self, text: String) -> (id: usize)
        requires
            old(self).wf(),
            old(self).nodes@.len() < usize::MAX,
        ensures
            final(self).wf(),
            id == old(self).nodes@.len(),
            final(self).nodes@.len() == old(self).nodes@.len() + 1,
            final(self).nodes@[id as int].kind == NodeKind::Comment(text),
            final(self).nodes@[id as int].parent is None,
            final(self).nodes@[id as int].children@ =~= Seq::<usize>::empty(),
            forall|i: int|
                0 <= i < old(self).nodes@.len() ==> final(self).nodes@[i] == old(self).nodes@[i],
            final(self).errors == old(self).errors,
            final(self).quirks_mode == old(self).quirks_mode,
    {
        self.create_node(NodeKind::Comment(text))
    }

    /// Allocates a detached processing-instruction node.
    pub fn create_processing_instruction(&mut self, text: String) -> (id: usize)
        requires
            old(self).wf(),
            old(self).nodes@.len() < usize::MAX,
        ensures
            final(self).wf(),
            id == old(self).nodes@.len(),
            final(self).nodes@.len() == old(self).nodes@.len() + 1,
            final(self).nodes@[id as int].kind == NodeKind::ProcessingInstruction(text),
            final(self).nodes@[id as int].parent is None,
            final(self).nodes@[id as int].children@ =~= Seq::<usize>::empty(),
            forall|i: int|
                0 <= i < old(self).nodes@.len() ==> final(self).nodes@[i] == old(self).nodes@[i],
            final(self).errors == old(self).errors,
            final(self).quirks_mode == old(self).quirks_mode,
    {
        self.create_node(NodeKind::ProcessingInstruction(text))
    }

    /// Attaches the already-created, still detached node `child` as the last
    /// child of `parent`.  Handles outside these bounds are a programming
    /// error of the driver, not a recoverable HTML error.
    pub fn append_child(&mut self, parent: usize, child: usize)
        requires
            old(self).wf(),
            parent < child,
            child < old(self).nodes@.len(),
            old(self).nodes@[child as int].parent is None,
        ensures
            final(self).wf(),
            final(self).nodes@.len() == old(self).nodes@.len(),
            final(self).nodes@[parent as int].children@ == old(self).nodes@[
                parent as int
            ].children@.push(child),
            final(self).nodes@[parent as int].kind == old(self).nodes@[parent as int].kind,
            final(self).nodes@[parent as int].parent == old(self).nodes@[parent as int].parent,
            final(self).nodes@[child as int].parent == Some(parent),
            final(self).nodes@[child as int].kind == old(self).nodes@[child as int].kind,
            final(self).nodes@[child as int].children == old(self).nodes@[child as int].children,
            forall|i: int|
                0 <= i < old(self).nodes@.len() && i != parent && i != child
                    ==> final(self).nodes@[i] == old(self).nodes@[i],
            final(self).errors == old(self).errors,
            final(self).quirks_mode == old(self).quirks_mode,
    {
        proof {
            old(self).lemma_detached_unlisted(child);
        }
        let parent_ref = &mut self.nodes[parent];
        parent_ref.children.push(child);
        let child_ref = &mut self.nodes[child];
        child_ref.parent = Some(parent);
        proof {
            let oldn = old(self).nodes@;
            let newn = self.nodes@;
            assert(newn[parent as int].children@ == oldn[parent as int].children@.push(child));
            assert(newn[parent as int].parent == oldn[parent as int].parent);
            assert(newn[parent as int].kind == oldn[parent as int].kind);
            assert(newn[child as int].children == oldn[child as int].children);
            assert(newn[child as int].kind == oldn[child as int].kind);
            assert(newn[child as int].parent == Some(parent));
            assert(forall|j: int|
                0 <= j < newn.len() && j != parent && j != child ==> newn[j] == oldn[j]);
            assert forall|i: int| 0 <= i < newn.len() implies #[trigger] self.node_ok(i) by {
                assert(old(self).node_ok(i));
                let n = newn[i];
                match n.parent {
                    Some(p) => {
                        if i == child as int {
                            let cs = newn[parent as int].children@;
                            assert(cs[cs.len() - 1] == child);
                            assert(cs.contains(i as usize));
                        } else {
                            let ocs = oldn[p as int].children@;
                            assert(ocs.contains(i as usize));
                            let w = choose|w: int| 0 <= w < ocs.len() && ocs[w] == i as usize;
                            assert(newn[p as int].children@[w] == i as usize);
                            assert(newn[p as int].children@.contains(i as usize));
                        }
                    },
                    None => {},
                }
                assert forall|k: int| 0 <= k < n.children@.len() implies {
                    &&& i < #[trigger] n.children@[k] < newn.len()
                    &&& newn[n.children@[k] as int].parent == Some(i as usize)
                } by {
                    let c = n.children@[k];
                    if i == parent as int && k == n.children@.len() - 1 {
                        assert(c == child);
                    } else {
                        assert(oldn[i].children@[k] == c);
                        assert(c != child);
                        assert(i < c < newn.len());
                        assert(newn[c as int].parent == oldn[c as int].parent);
                    }
                }
                assert forall|k1: int, k2: int| 0 <= k1 < k2 < n.children@.len() implies n
                    .children@[k1] != n.children@[k2] by {
                    if i == parent as int && k2 == n.children@.len() - 1 {
                        assert(oldn[i].children@[k1] != child);
                    }
                }
            }
        }
    }

    /// Attaches a fresh doctype node as the last child of the root.
    pub fn append_doctype(&mut self, name: String, public_id: String, system_id: String)
        requires
            old(self).wf(),
            old(self).nodes@.len() < usize::MAX,
        ensures
            final(self).wf(),
            final(self).nodes@.len() == old(self).nodes@.len() + 1,
            final(self).nodes@[old(self).nodes@.len() as int].kind == NodeKind::Doctype(
                DoctypeData { name, public_id, system_id },
            ),
            final(self).nodes@[old(self).nodes@.len() as int].parent == Some(0usize),
            final(self).nodes@[0].children@ == old(self).nodes@[0].children@.push(
                old(self).nodes@.len() as usize,
            ),
            forall|i: int|
                0 < i < old(self).nodes@.len() ==> final(self).nodes@[i] == old(self).nodes@[i],
            final(self).errors == old(self).errors,
            final(self).quirks_mode == old(self).quirks_mode,
    {
        let id = self.create_node(NodeKind::Doctype(DoctypeData { name, public_id, system_id }));
        self.append_child(0, id);
    }

    /// The text-node policy of this builder: a run of text appended to the
    /// same parent coalesces into one text node.  If the last child of
    /// `parent` is a text node the new text is appended to it; otherwise a
    /// fresh text node is attached.
    pub fn append_text(&mut self, parent: usize, text: String)
        requires
            old(self).wf(),
            parent < old(self).nodes@.len(),
            old(self).nodes@.len() < usize::MAX,
        ensures
            final(self).wf(),
            ({
                let cs = old(self).nodes@[parent as int].children@;
                if cs.len() > 0 && old(self).nodes@[cs.last() as int].kind is Text {
                    let t = old(self).nodes@[cs.last() as int].kind->Text_0;
                    &&& final(self).nodes@.len() == old(self).nodes@.len()
                    &&& final(self).nodes@[cs.last() as int].kind matches NodeKind::Text(u)
                        && u@ == t@ + text@
                    &&& final(self).nodes@[parent as int].children@ == cs
                    &&& forall|i: int|
                        0 <= i < old(self).nodes@.len() && i != cs.last()
                            ==> final(self).nodes@[i] == old(self).nodes@[i]
                } else {
                    &&& final(self).nodes@.len() == old(self).nodes@.len() + 1
                    &&& final(self).nodes@[old(self).nodes@.len() as int].kind matches
                        NodeKind::Text(u) && u@ == text@
                    &&& final(self).nodes@[old(self).nodes@.len() as int].parent == Some(parent)
                    &&& final(self).nodes@[parent as int].children@ == cs.push(
                        old(self).nodes@.len() as usize,
                    )
                    &&& forall|i: int|
                        0 <= i < old(self).nodes@.len() && i != parent
                            ==> final(self).nodes@[i] == old(self).nodes@[i]
                }
            }),
            final(self).errors == old(self).errors,
            final(self).quirks_mode == old(self).quirks_mode,
    {
        let n_children = self.nodes[parent].children.len();
        if n_children > 0 {
            let last = self.nodes[parent].children[n_children - 1];
            proof {
                assert(old(self).node_ok(parent as int));
            }
            let is_text = matches!(&self.nodes[last].kind, NodeKind::Text(_));
            if is_text {
                let node_ref = &mut self.nodes[last];
                match &mut node_ref.kind {
                    NodeKind::Text(t) => {
                        t.append(text.as_str());
                    },
                    _ => {},
                }
                proof {
                    assert(self.nodes@.len() == old(self).nodes@.len());
                    assert(self.nodes@[last as int].parent == old(self).nodes@[
                        last as int
                    ].parent);
                    assert(self.nodes@[last as int].children == old(self).nodes@[
                        last as int
                    ].children);
                    assert(forall|i: int|
                        0 <= i < self.nodes@.len() && i != last ==> self.nodes@[i] == old(
                            self,
                        ).nodes@[i]);
                    assert forall|i: int| 0 <= i < self.nodes@.len() implies #[trigger] self
                        .node_ok(i) by {
                        assert(old(self).node_ok(i));
                        assert(self.nodes@[i].parent == old(self).nodes@[i].parent);
                        assert(self.nodes@[i].children == old(self).nodes@[i].children);
                    }
                }
                return ;
            }
        }
        let id = self.create_text(text);
        self.append_child(parent, id);
    }

    /// Inserts the detached node `new_node` immediately before `sibling`
    /// under the latter's parent; used for the re-parenting cases of the
    /// construction algorithm.
    pub fn append_before_sibling(&mut self, sibling: usize, new_node: usize)
        requires
            old(self).wf(),
            sibling < old(self).nodes@.len(),
            old(self).nodes@[sibling as int].parent is Some,
            new_node < old(self).nodes@.len(),
            old(self).nodes@[new_node as int].parent is None,
            old(self).nodes@[sibling as int].parent->0 < new_node,
        ensures
            final(self).wf(),
            final(self).nodes@.len() == old(self).nodes@.len(),
            ({
                let p = old(self).nodes@[sibling as int].parent->0;
                let cs = old(self).nodes@[p as int].children@;
                &&& final(self).nodes@[p as int].children@ == cs.insert(
                    cs.index_of(sibling),
                    new_node,
                )
                &&& final(self).nodes@[new_node as int].parent == Some(p)
                &&& final(self).nodes@[new_node as int].kind == old(self).nodes@[
                    new_node as int
                ].kind
                &&& forall|i: int|
                    0 <= i < old(self).nodes@.len() && i != p && i != new_node
                        ==> final(self).nodes@[i] == old(self).nodes@[i]
            }),
            final(self).errors == old(self).errors,
            final(self).quirks_mode == old(self).quirks_mode,
    {
        proof {
            old(self).lemma_detached_unlisted(new_node);
            assert(old(self).node_ok(sibling as int));
        }
        let p = match self.nodes[sibling].parent {
            Some(p) => p,
            None => {
                // unreachable under the precondition
                return ;
            },
        };
        let ghost cs = self.nodes@[p as int].children@;
        let n_children = self.nodes[p].children.len();
        let mut j: usize = 0;
        while j < n_children && self.nodes[p].children[j] != sibling
            invariant
                self == old(self),
                p < self.nodes@.len(),
                n_children == self.nodes@[p as int].children@.len(),
                0 <= j <= n_children,
                forall|k: int| 0 <= k < j ==> self.nodes@[p as int].children@[k] != sibling,
            decreases n_children - j,
        {
            j += 1;
        }
        proof {
            assert(old(self).node_ok(p as int));
            assert(cs.contains(sibling));
            assert(j < n_children && cs[j as int] == sibling) by {
                if j == n_children {
                    let w = choose|w: int| 0 <= w < cs.len() && cs[w] == sibling;
                    assert(cs[w] != sibling);
                }
            }
            // the found position is the unique index of `sibling`
            assert(cs.index_of(sibling) == j) by {
                let w = cs.index_of(sibling);
                assert(cs.contains(sibling));
                assert(0 <= w < cs.len() && cs[w] == sibling);
                if w != j {
                    assert(old(self).node_ok(p as int));
                }
            }
        }
        let parent_ref = &mut self.nodes[p];
        parent_ref.children.insert(j, new_node);
        let new_ref = &mut self.nodes[new_node];
        new_ref.parent = Some(p);
        proof {
            let oldn = old(self).nodes@;
            let newn = self.nodes@;
            let csn = newn[p as int].children@;
            cs.insert_ensures(j as int, new_node);
            assert(csn == cs.insert(j as int, new_node));
            assert(newn[p as int].parent == oldn[p as int].parent);
            assert(newn[p as int].kind == oldn[p as int].kind);
            assert(newn[new_node as int].children == oldn[new_node as int].children);
            assert(newn[new_node as int].kind == oldn[new_node as int].kind);
            assert(newn[new_node as int].parent == Some(p));
            assert(forall|q: int|
                0 <= q < newn.len() && q != p && q != new_node ==> newn[q] == oldn[q]);
            assert forall|i: int| 0 <= i < newn.len() implies #[trigger] self.node_ok(i) by {
                assert(old(self).node_ok(i));
                let n = newn[i];
                match n.parent {
                    Some(q) => {
                        if i == new_node as int {
                            assert(csn[j as int] == new_node);
                            assert(csn.contains(i as usize));
                        } else {
                            let ocs = oldn[q as int].children@;
                            assert(ocs.contains(i as usize));
                            let w = choose|w: int| 0 <= w < ocs.len() && ocs[w] == i as usize;
                            if q == p {
                                if w < j {
                                    assert(csn[w] == ocs[w]);
                                } else {
                                    assert(csn[w + 1] == ocs[w]);
                                }
                                assert(csn.contains(i as usize));
                            } else {
                                assert(newn[q as int].children@[w] == i as usize);
                                assert(newn[q as int].children@.contains(i as usize));
                            }
                        }
                    },
                    None => {},
                }
                assert forall|k: int| 0 <= k < n.children@.len() implies {
                    &&& i < #[trigger] n.children@[k] < newn.len()
                    &&& newn[n.children@[k] as int].parent == Some(i as usize)
                } by {
                    let c = n.children@[k];
                    if i == p as int {
                        if k == j {
                            assert(c == new_node);
                        } else if k < j {
                            assert(c == cs[k]);
                            assert(c != new_node);
                        } else {
                            assert(c == cs[k - 1]);
                            assert(c != new_node);
                        }
                    } else {
                        assert(oldn[i].children@[k] == c);
                        assert(c != new_node);
                        assert(newn[c as int].parent == oldn[c as int].parent);
                    }
                }
                assert forall|k1: int, k2: int| 0 <= k1 < k2 < n.children@.len() implies n
                    .children@[k1] != n.children@[k2] by {
                    if i == p as int {
                        let c1 = n.children@[k1];
                        let c2 = n.children@[k2];
                        if k1 == j {
                            assert(c1 == new_node);
                            assert(c2 == cs[k2 - 1]);
                            assert(c2 != new_node);
                        } else if k2 == j {
                            assert(c2 == new_node);
                            assert(c1 == cs[k1]);
                            assert(c1 != new_node);
                        } else {
                            let w1: int = if k1 < j { k1 } else { k1 - 1 };
                            let w2: int = if k2 < j { k2 } else { k2 - 1 };
                            assert(c1 == cs[w1]);
                            assert(c2 == cs[w2]);
                            assert(w1 < w2);
                        }
                    }
                }
            }
        }
    }
}

} // verus!
