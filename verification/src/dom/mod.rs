//! The svg3 document model.
//!
//! A [`Document`] is a flat arena of [`Node`]s addressed by [`NodeId`]. Each
//! node carries [`Element`] data (tag kind and raw attributes) and the ids of
//! its children. A well-formed document (see [`Document::wf`]) is a forest
//! in which every child sits at a larger arena index than its parent, so
//! every walk down the tree ends.
use vstd::prelude::*;

pub mod attributes;
pub mod element;
pub mod parser;

pub use attributes::AttributeMap;
pub use element::ElementKind;
pub use parser::{parse, ParseError};

use crate::text::{trim, trim_str};

verus! {

/// Root `<svg>` attribute that opts a document into svg3's 3D extension.
pub const SVG3_EXTENSION_ATTRIBUTE: &'static str = "extension";

/// Required value for [`SVG3_EXTENSION_ATTRIBUTE`].
pub const SVG3_EXTENSION_VALUE: &'static str = "pupiltong";

/// Element data living on a [`Node`]: a tag kind and the raw attributes
/// read from XML, values unescaped but otherwise uninterpreted.
#[derive(Debug, Clone, PartialEq, Eq)]
pub struct Element {
    /// Tag kind.
    pub kind: ElementKind,
    /// Raw attributes, keyed by name.
    pub attributes: AttributeMap,
}

impl Element {
    /// An element of the given kind with no attributes.
    pub fn new(kind: ElementKind) -> (r: Self)
        ensures
            r.kind == kind,
            r.attributes@ == Map::<Seq<char>, Seq<char>>::empty(),
    {
        Element { kind, attributes: AttributeMap::new() }
    }
}

/// Stable identifier of a [`Node`] inside a [`Document`]: a dense arena
/// index, meaningful only in the document that produced it.
#[derive(Debug, Clone, Copy, PartialEq, Eq, Hash, Structural)]
pub struct NodeId(u32);

impl NodeId {
    /// The arena index of this id.
    pub closed spec fn idx(self) -> int {
        self.0 as int
    }

    /// An id's index fits in 32 bits.
    pub broadcast proof fn lemma_idx_range(self)
        ensures
            0 <= #[trigger] self.idx() <= u32::MAX,
    {
    }

    /// Ids are determined by their index.
    pub proof fn lemma_idx_injective(self, other: NodeId)
        requires
            self.idx() == other.idx(),
        ensures
            self == other,
    {
    }

    /// The id of arena slot `index` (truncated to 32 bits, as stored).
    pub fn from_index(index: usize) -> (r: Self)
        ensures
            r.idx() == (index as u32) as int,
    {
        NodeId(index as u32)
    }

    /// The arena index of this id.
    pub fn index(self) -> (r: usize)
        ensures
            r as int == self.idx(),
    {
        self.0 as usize
    }
}

/// One node of a [`Document`]: element data and children in document order.
#[derive(Debug, Clone, PartialEq, Eq)]
pub struct Node {
    /// Element data on this node.
    pub element: Element,
    /// Children in document order.
    pub children: Vec<NodeId>,
}

/// Whether `nodes` with root `root` form a well-formed arena: the root is
/// in range, every child index lies after its parent's and inside the
/// arena, and every index fits in a [`NodeId`].
pub open spec fn arena_wf(nodes: Seq<Node>, root: NodeId) -> bool {
    &&& 0 <= root.idx() < nodes.len()
    &&& nodes.len() <= u32::MAX
    &&& forall|i: int, j: int|
        0 <= i < nodes.len() && 0 <= j < nodes[i].children@.len() ==> i < (
        #[trigger] nodes[i].children@[j]).idx() < nodes.len()
}

/// A parsed svg3 document: a flat arena of nodes and the id of its root.
#[derive(Debug, Clone)]
pub struct Document {
    nodes: Vec<Node>,
    root: NodeId,
}

impl Document {
    /// The arena, in index order.
    pub closed spec fn nodes_view(&self) -> Seq<Node> {
        self.nodes@
    }

    /// The id of the root node.
    pub closed spec fn root_view(&self) -> NodeId {
        self.root
    }

    /// Well-formedness: see [`arena_wf`].
    pub open spec fn wf(&self) -> bool {
        arena_wf(self.nodes_view(), self.root_view())
    }

    /// The node with id `id`.
    pub open spec fn node_at(&self, id: NodeId) -> Node {
        self.nodes_view()[id.idx()]
    }

    /// The document invariant that [`Document::new`] and a successful
    /// [`parse`] establish and that [`Document::append_child`] and
    /// [`Document::push_node`] keep: well formed, with an `<svg>` root.
    pub open spec fn rooted_at_svg(&self) -> bool {
        self.wf() && self.node_at(self.root_view()).element.kind == ElementKind::Svg
    }

    /// A document with an `<svg>` root holds at least that root.
    pub proof fn lemma_rooted_nonempty(&self)
        requires
            self.rooted_at_svg(),
        ensures
            self.nodes_view().len() >= 1,
            self.contains(self.root_view()),
    {
    }

    /// Whether `id` names a node of this document.
    pub open spec fn contains(&self, id: NodeId) -> bool {
        0 <= id.idx() < self.nodes_view().len()
    }

    /// An empty document holding just an `<svg>` root.
    pub fn new() -> (r: Self)
        ensures
            r.wf(),
            r.nodes_view().len() == 1,
            r.root_view().idx() == 0,
            r.nodes_view()[0].element.kind == ElementKind::Svg,
            r.nodes_view()[0].element.attributes@ == Map::<Seq<char>, Seq<char>>::empty(),
            r.nodes_view()[0].children@.len() == 0,
            r.rooted_at_svg(),
    {
        let svg = Node { element: Element::new(ElementKind::Svg), children: Vec::new() };
        let mut nodes: Vec<Node> = Vec::new();
        nodes.push(svg);
        Document { nodes, root: NodeId(0) }
    }

    /// A document over a prepared arena and root.
    pub(crate) fn from_arena(nodes: Vec<Node>, root: NodeId) -> (r: Self)
        ensures
            r.nodes_view() == nodes@,
            r.root_view() == root,
    {
        Document { nodes, root }
    }

    /// The id of the root node.
    pub fn root(&self) -> (r: NodeId)
        ensures
            r == self.root_view(),
    {
        self.root
    }

    /// The node with id `id`. The id must belong to this document.
    pub fn node(&self, id: NodeId) -> (r: &Node)
        requires
            self.contains(id),
        ensures
            *r == self.node_at(id),
    {
        &self.nodes[id.index()]
    }

    /// Mutable access to the node with id `id`. The id must belong to this
    /// document. Changing the node's children can break [`Document::wf`].
    pub fn node_mut(&mut self, id: NodeId) -> (r: &mut Node)
        requires
            old(self).contains(id),
        ensures
            *r == old(self).node_at(id),
            final(self).nodes_view() == old(self).nodes_view().update(id.idx(), *final(r)),
            final(self).root_view() == old(self).root_view(),
    {
        &mut self.nodes[id.index()]
    }

    /// The element of node `id`.
    pub fn element(&self, id: NodeId) -> (r: &Element)
        requires
            self.contains(id),
        ensures
            *r == self.node_at(id).element,
    {
        &self.node(id).element
    }

    /// Whether the root opts into svg3's 3D extension: its `extension`
    /// attribute, trimmed, is `pupiltong`.
    pub fn svg3_extension_enabled(&self) -> (r: bool)
        requires
            self.contains(self.root_view()),
        ensures
            r == (self.node_at(self.root_view()).element.attributes@.contains_key("extension"@)
                && trim(self.node_at(self.root_view()).element.attributes@["extension"@])
                == "pupiltong"@),
    {
        match self.element(self.root()).attributes.get(SVG3_EXTENSION_ATTRIBUTE) {
            Some(value) => crate::text::str_eq(trim_str(value.as_str()), SVG3_EXTENSION_VALUE),
            None => false,
        }
    }

    /// Append a new child of kind `kind` under `parent`, returning its id.
    pub fn append_child(&mut self, parent: NodeId, kind: ElementKind) -> (r: NodeId)
        requires
            old(self).contains(parent),
            old(self).nodes_view().len() < u32::MAX,
        ensures
            r.idx() == old(self).nodes_view().len(),
            final(self).root_view() == old(self).root_view(),
            final(self).nodes_view().len() == old(self).nodes_view().len() + 1,
            final(self).nodes_view().last().element.kind == kind,
            final(self).nodes_view().last().element.attributes@
                == Map::<Seq<char>, Seq<char>>::empty(),
            final(self).nodes_view().last().children@.len() == 0,
            final(self).nodes_view()[parent.idx()].element == old(self).node_at(parent).element,
            final(self).nodes_view()[parent.idx()].children@
                == old(self).node_at(parent).children@.push(r),
            forall|i: int|
                0 <= i < old(self).nodes_view().len() && i != parent.idx()
                    ==> #[trigger] final(self).nodes_view()[i] == old(self).nodes_view()[i],
            old(self).wf() ==> final(self).wf(),
            old(self).rooted_at_svg() ==> final(self).rooted_at_svg(),
            appended_child(*old(self), *final(self)),
    {
        let id = self.push_node(Element::new(kind));
        let mut children: Vec<NodeId> = Vec::new();
        let p = parent.index();
        std::mem::swap(&mut children, &mut self.nodes[p].children);
        children.push(id);
        std::mem::swap(&mut children, &mut self.nodes[p].children);
        proof {
            let n = self.nodes_view();
            if old(self).wf() {
                assert forall|i: int, j: int|
                    0 <= i < n.len() && 0 <= j < n[i].children@.len() implies i < (
                    #[trigger] n[i].children@[j]).idx() < n.len() by {
                    if i != p && i < n.len() - 1 {
                        assert(n[i] == old(self).nodes_view()[i]);
                    }
                }
            }
        }
        id
    }

    /// Number of nodes in the arena.
    pub fn len(&self) -> (r: usize)
        ensures
            r == self.nodes_view().len(),
    {
        self.nodes.len()
    }

    /// Whether the arena holds no node; never true for a document built by
    /// [`Document::new`] or [`parse`].
    pub fn is_empty(&self) -> (r: bool)
        ensures
            r == (self.nodes_view().len() == 0),
    {
        self.nodes.len() == 0
    }

    /// Push a childless node holding `element`, returning its id.
    pub fn push_node(&mut self, element: Element) -> (r: NodeId)
        requires
            old(self).nodes_view().len() < u32::MAX,
        ensures
            r.idx() == old(self).nodes_view().len(),
            final(self).root_view() == old(self).root_view(),
            final(self).nodes_view() == old(self).nodes_view().push(
                Node { element, children: final(self).nodes_view().last().children },
            ),
            final(self).nodes_view().last().children@.len() == 0,
            old(self).wf() ==> final(self).wf(),
            old(self).rooted_at_svg() ==> final(self).rooted_at_svg(),
    {
        let id = NodeId::from_index(self.nodes.len());
        self.nodes.push(Node { element, children: Vec::new() });
        proof {
            let n = self.nodes_view();
            if old(self).wf() {
                assert forall|i: int, j: int|
                    0 <= i < n.len() && 0 <= j < n[i].children@.len() implies i < (
                    #[trigger] n[i].children@[j]).idx() < n.len() by {
                    if i < n.len() - 1 {
                        assert(n[i] == old(self).nodes_view()[i]);
                    }
                }
            }
        }
        id
    }

    /// Check [`Document::wf`] at run time.
    pub fn is_well_formed(&self) -> (r: bool)
        ensures
            r == self.wf(),
    {
        let n = self.nodes.len();
        if n > 0xffff_ffff || self.root.index() >= n {
            return false;
        }
        let mut i: usize = 0;
        while i < n
            invariant
                i <= n == self.nodes@.len(),
                n <= u32::MAX,
                self.root.idx() < n,
                forall|a: int, b: int|
                    0 <= a < i && 0 <= b < self.nodes@[a].children@.len() ==> a < (
                    #[trigger] self.nodes@[a].children@[b]).idx() < n,
            decreases n - i,
        {
            let children = &self.nodes[i].children;
            let mut j: usize = 0;
            while j < children.len()
                invariant
                    i < n == self.nodes@.len(),
                    *children == self.nodes@[i as int].children,
                    j <= children@.len(),
                    forall|b: int| 0 <= b < j ==> i < (#[trigger] children@[b]).idx() < n,
                decreases children@.len() - j,
            {
                let c = children[j].index();
                if c <= i || c >= n {
                    return false;
                }
                j = j + 1;
            }
            i = i + 1;
        }
        true
    }
}

/// What one [`Document::append_child`] call does to a document: the root
/// stays, one node is added, every earlier node keeps its element, and a
/// well-formed document stays well formed.
pub open spec fn appended_child(before: Document, after: Document) -> bool {
    &&& after.root_view() == before.root_view()
    &&& after.nodes_view().len() == before.nodes_view().len() + 1
    &&& forall|i: int|
        0 <= i < before.nodes_view().len() ==> #[trigger] after.nodes_view()[i].element
            == before.nodes_view()[i].element
    &&& before.wf() ==> after.wf()
}

/// Along any run of [`Document::append_child`] calls (`docs[i + 1]` is
/// `docs[i]` after one call) from a document with an `<svg>` root, such as
/// one from [`Document::new`] or [`parse`]: the root stays an in-range
/// `<svg>` node, and after `i` calls the document holds `i` more nodes (so
/// one from [`Document::new`] holds `1 + i`).
pub proof fn lemma_appends_keep_svg_root(docs: Seq<Document>)
    requires
        docs.len() >= 1,
        docs[0].rooted_at_svg(),
        forall|i: int| 0 <= i < docs.len() - 1 ==> appended_child(#[trigger] docs[i], docs[i + 1]),
    ensures
        forall|i: int|
            0 <= i < docs.len() ==> (#[trigger] docs[i]).rooted_at_svg() && docs[i].nodes_view().len()
                == docs[0].nodes_view().len() + i,
    decreases docs.len(),
{
    if docs.len() > 1 {
        let shorter = docs.drop_last();
        assert forall|i: int| 0 <= i < shorter.len() - 1 implies appended_child(
            #[trigger] shorter[i],
            shorter[i + 1],
        ) by {
            assert(appended_child(docs[i], docs[i + 1]));
        }
        lemma_appends_keep_svg_root(shorter);
        let n = docs.len() - 1;
        assert(shorter[n - 1] == docs[n - 1]);
        assert(appended_child(docs[n - 1], docs[n]));
        assert forall|i: int| 0 <= i < docs.len() implies (#[trigger] docs[i]).rooted_at_svg()
            && docs[i].nodes_view().len() == docs[0].nodes_view().len() + i by {
            if i < n {
                assert(shorter[i] == docs[i]);
            } else {
                let a = docs[n - 1];
                let b = docs[n];
                assert(a.rooted_at_svg());
                assert(b.nodes_view()[a.root_view().idx()].element == a.nodes_view()[a.root_view().idx()].element);
            }
        }
    }
}

impl Default for Document {
    fn default() -> (r: Self)
        ensures
            r.wf(),
            r.nodes_view().len() == 1,
            r.root_view().idx() == 0,
            r.nodes_view()[0].element.kind == ElementKind::Svg,
            r.rooted_at_svg(),
    {
        Self::new()
    }
}

} // verus!
