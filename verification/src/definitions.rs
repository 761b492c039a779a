//! Definition collection: walking a document for the elements that other
//! elements reference by `url(#id)` (clip paths, masks, markers, filters
//! and paint servers), keyed by their `id` attribute.
//!
//! The walk visits nodes in document order (pre-order, children left to
//! right) and does not descend into a definition. When several
//! definitions share an id, the first one in that order wins.
use vstd::prelude::*;

use crate::dom::{Document, ElementKind, Node, NodeId};

verus! {

broadcast use NodeId::lemma_idx_range;

/// Which definitions a walk collects.
#[derive(Debug, Clone, Copy, PartialEq, Eq, Structural)]
pub enum DefinitionSet {
    /// `<clipPath>` elements.
    ClipPaths,
    /// `<mask>` elements.
    Masks,
    /// `<marker>` elements.
    Markers,
    /// `<filter>` elements.
    Filters,
    /// Paint servers: `<linearGradient>`, `<radialGradient>`, `<pattern>`,
    /// and `<svg>` elements other than the document root (texture sources).
    Paints,
}

/// Whether a node of `kind` is a definition of `set`; `is_root` tells
/// whether the node is the document root.
pub open spec fn is_definition(set: DefinitionSet, kind: ElementKind, is_root: bool) -> bool {
    match set {
        DefinitionSet::ClipPaths => kind is ClipPath,
        DefinitionSet::Masks => kind is Mask,
        DefinitionSet::Markers => kind is Marker,
        DefinitionSet::Filters => kind is Filter,
        DefinitionSet::Paints => kind is LinearGradient || kind is RadialGradient || kind is Pattern
            || (kind is Svg && !is_root),
    }
}

/// Executable [`is_definition`].
pub fn is_definition_exec(set: DefinitionSet, kind: &ElementKind, is_root: bool) -> (r: bool)
    ensures
        r == is_definition(set, *kind, is_root),
{
    match set {
        DefinitionSet::ClipPaths => matches!(kind, ElementKind::ClipPath),
        DefinitionSet::Masks => matches!(kind, ElementKind::Mask),
        DefinitionSet::Markers => matches!(kind, ElementKind::Marker),
        DefinitionSet::Filters => matches!(kind, ElementKind::Filter),
        DefinitionSet::Paints => match kind {
            ElementKind::LinearGradient | ElementKind::RadialGradient | ElementKind::Pattern => true,
            ElementKind::Svg => !is_root,
            _ => false,
        },
    }
}

/// The nodes a definition walk visits from `id`, in order: the node
/// itself, then (unless it is a definition) the walks of its children.
pub open spec fn walk(nodes: Seq<Node>, root: int, id: int, set: DefinitionSet) -> Seq<int>
    decreases nodes.len() - id, if 0 <= id < nodes.len() {
        nodes[id].children@.len() + 1
    } else {
        0
    },
{
    if !(0 <= id < nodes.len()) {
        Seq::empty()
    } else if is_definition(set, nodes[id].element.kind, id == root) {
        seq![id]
    } else {
        seq![id] + walk_children(nodes, root, id, 0, set)
    }
}

/// The walks of the children of `parent` from the `k`-th on, in order.
pub open spec fn walk_children(nodes: Seq<Node>, root: int, parent: int, k: int, set: DefinitionSet) -> Seq<int>
    decreases nodes.len() - parent, if 0 <= parent < nodes.len() && 0 <= k {
        nodes[parent].children@.len() - k
    } else {
        0
    },
{
    if !(0 <= parent < nodes.len()) || k < 0 || k >= nodes[parent].children@.len() {
        Seq::empty()
    } else {
        let c = nodes[parent].children@[k].idx();
        (if parent < c < nodes.len() {
            walk(nodes, root, c, set)
        } else {
            Seq::empty()
        }) + walk_children(nodes, root, parent, k + 1, set)
    }
}

/// The `(id, node)` entries contributed by the visited nodes `ids`, in
/// order: every visited definition that has an `id` attribute.
pub open spec fn entries_of(nodes: Seq<Node>, root: int, ids: Seq<int>, set: DefinitionSet) -> Seq<(Seq<char>, int)>
    decreases ids.len(),
{
    if ids.len() == 0 {
        Seq::empty()
    } else {
        let i = ids.last();
        let before = entries_of(nodes, root, ids.drop_last(), set);
        if 0 <= i < nodes.len() && is_definition(set, nodes[i].element.kind, i == root)
            && nodes[i].element.attributes@.contains_key("id"@) {
            before.push((nodes[i].element.attributes@["id"@], i))
        } else {
            before
        }
    }
}

proof fn lemma_entries_in_range(nodes: Seq<Node>, root: int, ids: Seq<int>, set: DefinitionSet)
    ensures
        forall|k: int|
            0 <= k < entries_of(nodes, root, ids, set).len() ==> 0 <= #[trigger] entries_of(
                nodes,
                root,
                ids,
                set,
            )[k].1 < nodes.len(),
    decreases ids.len(),
{
    if ids.len() > 0 {
        lemma_entries_in_range(nodes, root, ids.drop_last(), set);
        let before = entries_of(nodes, root, ids.drop_last(), set);
        let all = entries_of(nodes, root, ids, set);
        assert forall|k: int| 0 <= k < all.len() implies 0 <= #[trigger] all[k].1 < nodes.len() by {
            if k < before.len() {
                assert(all[k] == before[k]);
            }
        }
    }
}

/// Every collected definition is a node of the document.
pub proof fn lemma_definitions_in_range(doc: Document, set: DefinitionSet)
    ensures
        forall|k: int|
            0 <= k < definitions_of(doc, set).len() ==> 0 <= #[trigger] definitions_of(doc, set)[k].1
                < doc.nodes_view().len(),
{
    lemma_entries_in_range(
        doc.nodes_view(),
        doc.root_view().idx(),
        walk(doc.nodes_view(), doc.root_view().idx(), doc.root_view().idx(), set),
        set,
    );
}

/// The definitions of `set` in `doc`, in document order.
pub open spec fn definitions_of(doc: Document, set: DefinitionSet) -> Seq<(Seq<char>, int)> {
    entries_of(
        doc.nodes_view(),
        doc.root_view().idx(),
        walk(doc.nodes_view(), doc.root_view().idx(), doc.root_view().idx(), set),
        set,
    )
}

/// The walks of the ids on `stack`, top (last) first.
pub open spec fn stack_walk(nodes: Seq<Node>, root: int, stack: Seq<NodeId>, set: DefinitionSet) -> Seq<int>
    decreases stack.len(),
{
    if stack.len() == 0 {
        Seq::empty()
    } else {
        walk(nodes, root, stack.last().idx(), set) + stack_walk(nodes, root, stack.drop_last(), set)
    }
}

proof fn lemma_entries_append(nodes: Seq<Node>, root: int, a: Seq<int>, b: Seq<int>, set: DefinitionSet)
    ensures
        entries_of(nodes, root, a + b, set) == entries_of(nodes, root, a, set) + entries_of(nodes, root, b, set),
    decreases b.len(),
{
    if b.len() == 0 {
        assert(a + b =~= a);
        assert(entries_of(nodes, root, b, set) =~= Seq::<(Seq<char>, int)>::empty());
        assert(entries_of(nodes, root, a, set) + Seq::<(Seq<char>, int)>::empty() =~= entries_of(nodes, root, a, set));
    } else {
        lemma_entries_append(nodes, root, a, b.drop_last(), set);
        assert((a + b).drop_last() =~= a + b.drop_last());
        assert((a + b).last() == b.last());
        let ea = entries_of(nodes, root, a, set);
        let eb = entries_of(nodes, root, b.drop_last(), set);
        assert((ea + eb).push((nodes[b.last()].element.attributes@["id"@], b.last())) =~= ea + eb.push(
            (nodes[b.last()].element.attributes@["id"@], b.last()),
        ));
    }
}

/// Pushing the children of `parent` from the `k`-th on, in reverse, onto
/// a stack makes their walks come first, in order.
proof fn lemma_stack_children(nodes: Seq<Node>, root: int, parent: int, k: int, base: Seq<NodeId>, set: DefinitionSet)
    requires
        0 <= parent < nodes.len(),
        0 <= k <= nodes[parent].children@.len(),
        forall|j: int|
            0 <= j < nodes[parent].children@.len() ==> parent < (#[trigger] nodes[parent].children@[j]).idx()
                < nodes.len(),
    ensures
        stack_walk(nodes, root, base + nodes[parent].children@.skip(k).reverse(), set) == walk_children(
            nodes,
            root,
            parent,
            k,
            set,
        ) + stack_walk(nodes, root, base, set),
    decreases nodes[parent].children@.len() - k,
{
    let ch = nodes[parent].children@;
    if k == ch.len() {
        assert(base + ch.skip(k).reverse() =~= base);
        assert(walk_children(nodes, root, parent, k, set) =~= Seq::<int>::empty());
        assert(Seq::<int>::empty() + stack_walk(nodes, root, base, set) =~= stack_walk(nodes, root, base, set));
    } else {
        lemma_stack_children(nodes, root, parent, k + 1, base, set);
        let s = base + ch.skip(k).reverse();
        let s1 = base + ch.skip(k + 1).reverse();
        assert(s.last() == ch[k]);
        assert(s.drop_last() =~= s1);
        let c = ch[k].idx();
        assert(parent < c < nodes.len());
        assert(stack_walk(nodes, root, s, set) == walk(nodes, root, c, set) + stack_walk(nodes, root, s1, set));
        assert(walk_children(nodes, root, parent, k, set) == walk(nodes, root, c, set) + walk_children(
            nodes,
            root,
            parent,
            k + 1,
            set,
        ));
        assert(walk(nodes, root, c, set) + (walk_children(nodes, root, parent, k + 1, set) + stack_walk(
            nodes,
            root,
            base,
            set,
        )) =~= (walk(nodes, root, c, set) + walk_children(nodes, root, parent, k + 1, set)) + stack_walk(
            nodes,
            root,
            base,
            set,
        ));
    }
}

/// The position of the first entry at or after `i` whose id is `key`.
pub open spec fn first_position_from<V>(entries: Seq<(Seq<char>, V)>, key: Seq<char>, i: int) -> Option<int>
    decreases entries.len() - i,
{
    if i < 0 || i >= entries.len() {
        None
    } else if entries[i].0 == key {
        Some(i)
    } else {
        first_position_from(entries, key, i + 1)
    }
}

/// The position of the first entry whose id is `key`.
pub open spec fn first_position<V>(entries: Seq<(Seq<char>, V)>, key: Seq<char>) -> Option<int> {
    first_position_from(entries, key, 0)
}

/// The node of the first entry whose id is `key`.
pub open spec fn first_node(entries: Seq<(Seq<char>, int)>, key: Seq<char>) -> Option<int> {
    match first_position(entries, key) {
        Some(i) => Some(entries[i].1),
        None => None,
    }
}

pub proof fn lemma_first_position_from<V>(entries: Seq<(Seq<char>, V)>, key: Seq<char>, i: int)
    requires
        0 <= i,
    ensures
        first_position_from(entries, key, i) matches Some(p) ==> i <= p < entries.len()
            && entries[p].0 == key && forall|j: int| i <= j < p ==> #[trigger] entries[j].0 != key,
        first_position_from(entries, key, i) is None ==> forall|j: int|
            i <= j < entries.len() ==> #[trigger] entries[j].0 != key,
    decreases entries.len() - i,
{
    if i < entries.len() && entries[i].0 != key {
        lemma_first_position_from(entries, key, i + 1);
    }
}

/// Ids and nodes of the definitions of one kind, in document order; a
/// lookup returns the first definition with the id.
pub struct DefinitionIndex {
    entries: Vec<(String, NodeId)>,
}

impl DefinitionIndex {
    /// The entries, as character sequences and node indices.
    pub closed spec fn entries_view(&self) -> Seq<(Seq<char>, int)> {
        self.entries@.map_values(|e: (String, NodeId)| (e.0@, e.1.idx()))
    }

    /// Collect the definitions of `set` from `document`.
    pub fn collect(document: &Document, set: DefinitionSet) -> (r: Self)
        requires
            document.wf(),
        ensures
            r.entries_view() == definitions_of(*document, set),
    {
        let ghost nodes = document.nodes_view();
        let root = document.root();
        let ghost root_i = root.idx();
        let ghost full = walk(nodes, root_i, root_i, set);
        let mut entries: Vec<(String, NodeId)> = Vec::new();
        let mut stack: Vec<NodeId> = Vec::new();
        stack.push(root);
        let ghost mut visited: Seq<int> = Seq::empty();
        proof {
            assert(stack@ =~= seq![root]);
            assert(stack_walk(nodes, root_i, stack@.drop_last(), set) =~= Seq::<int>::empty());
            assert(visited + stack_walk(nodes, root_i, stack@, set) =~= full);
            assert(entries@.map_values(|e: (String, NodeId)| (e.0@, e.1.idx())) =~= entries_of(nodes, root_i, visited, set));
        }
        while stack.len() > 0
            invariant
                document.wf(),
                nodes == document.nodes_view(),
                root == document.root_view(),
                root_i == root.idx(),
                full == walk(nodes, root_i, root_i, set),
                visited + stack_walk(nodes, root_i, stack@, set) == full,
                entries@.map_values(|e: (String, NodeId)| (e.0@, e.1.idx())) == entries_of(
                    nodes,
                    root_i,
                    visited,
                    set,
                ),
                forall|k: int| 0 <= k < stack@.len() ==> 0 <= #[trigger] stack@[k].idx() < nodes.len(),
            decreases stack_walk(nodes, root_i, stack@, set).len(),
        {
            let ghost before = stack@;
            let id = stack.pop().unwrap();
            let ghost rest = stack@;
            proof {
                assert(before.drop_last() =~= rest);
                assert(before.last() == id);
            }
            let node = document.node(id);
            let is_root = id == root;
            proof {
                if id.idx() == root.idx() {
                    id.lemma_idx_injective(root);
                }
            }
            if is_definition_exec(set, &node.element.kind, is_root) {
                let ghost old_entries = entries@;
                if let Some(name) = node.element.attributes.get("id") {
                    entries.push((name.clone(), id));
                }
                proof {
                    assert(walk(nodes, root_i, id.idx(), set) =~= seq![id.idx()]);
                    assert(visited + stack_walk(nodes, root_i, before, set) == visited + (seq![id.idx()]
                        + stack_walk(nodes, root_i, rest, set)));
                    assert(visited + (seq![id.idx()] + stack_walk(nodes, root_i, rest, set)) =~= visited.push(
                        id.idx(),
                    ) + stack_walk(nodes, root_i, rest, set));
                    assert(visited.push(id.idx()).drop_last() =~= visited);
                    visited = visited.push(id.idx());
                    assert(entries@.map_values(|e: (String, NodeId)| (e.0@, e.1.idx())) =~= entries_of(
                        nodes,
                        root_i,
                        visited,
                        set,
                    ));
                }
            } else {
                let n = node.children.len();
                let mut k: usize = n;
                proof {
                    assert(node.children@.skip(n as int).reverse() =~= Seq::<NodeId>::empty());
                    assert(stack@ =~= rest + node.children@.skip(n as int).reverse());
                }
                while k > 0
                    invariant
                        k <= n == node.children@.len(),
                        *node == nodes[id.idx()],
                        0 <= id.idx() < nodes.len(),
                        document.wf(),
                        nodes == document.nodes_view(),
                        stack@ == rest + node.children@.skip(k as int).reverse(),
                        forall|j: int| 0 <= j < rest.len() ==> 0 <= #[trigger] rest[j].idx() < nodes.len(),
                    decreases k,
                {
                    k = k - 1;
                    stack.push(node.children[k]);
                    proof {
                        assert(node.children@.skip(k as int).reverse() =~= node.children@.skip(k + 1).reverse().push(
                            node.children@[k as int],
                        ));
                    }
                }
                proof {
                    let ch = node.children@;
                    assert forall|j: int| 0 <= j < ch.len() implies id.idx() < (#[trigger] ch[j]).idx()
                        < nodes.len() by {
                        assert(nodes[id.idx()].children@[j] == ch[j]);
                    }
                    lemma_stack_children(nodes, root_i, id.idx(), 0, rest, set);
                    assert(ch.skip(0) =~= ch);
                    assert(walk(nodes, root_i, id.idx(), set) == seq![id.idx()] + walk_children(
                        nodes,
                        root_i,
                        id.idx(),
                        0,
                        set,
                    ));
                    assert(visited + stack_walk(nodes, root_i, before, set) =~= visited.push(id.idx())
                        + stack_walk(nodes, root_i, stack@, set));
                    assert(visited.push(id.idx()).drop_last() =~= visited);
                    visited = visited.push(id.idx());
                    assert(entries@.map_values(|e: (String, NodeId)| (e.0@, e.1.idx())) =~= entries_of(
                        nodes,
                        root_i,
                        visited,
                        set,
                    ));
                    assert forall|j: int| 0 <= j < stack@.len() implies 0 <= #[trigger] stack@[j].idx()
                        < nodes.len() by {
                        if j >= rest.len() {
                            assert(stack@[j] == ch.reverse()[j - rest.len()]);
                        } else {
                            assert(stack@[j] == rest[j]);
                        }
                    }
                }
            }
        }
        proof {
            assert(visited =~= full);
        }
        DefinitionIndex { entries }
    }

    /// The position of the first entry with id `id`.
    pub fn position(&self, id: &str) -> (r: Option<usize>)
        ensures
            r matches Some(i) ==> first_position(self.entries_view(), id@) == Some(i as int),
            r is None ==> first_position(self.entries_view(), id@) is None,
    {
        let key = id.to_owned();
        let mut i: usize = 0;
        while i < self.entries.len()
            invariant
                i <= self.entries@.len(),
                key@ == id@,
                first_position(self.entries_view(), id@) == first_position_from(
                    self.entries_view(),
                    id@,
                    i as int,
                ),
            decreases self.entries@.len() - i,
        {
            assert(self.entries_view()[i as int] == (self.entries@[i as int].0@, self.entries@[i as int].1.idx()));
            if self.entries[i].0 == key {
                return Some(i);
            }
            i = i + 1;
        }
        None
    }

    /// The node of the first definition with id `id`.
    pub fn get(&self, id: &str) -> (r: Option<NodeId>)
        ensures
            r matches Some(n) ==> first_node(self.entries_view(), id@) == Some(n.idx()),
            r is None ==> first_node(self.entries_view(), id@) is None,
    {
        match self.position(id) {
            Some(i) => {
                proof {
                    lemma_first_position_from(self.entries_view(), id@, 0);
                }
                assert(self.entries_view()[i as int].1 == self.entries@[i as int].1.idx());
                Some(self.entries[i].1)
            },
            None => None,
        }
    }

    /// Number of entries, duplicates included.
    pub fn len(&self) -> (r: usize)
        ensures
            r == self.entries_view().len(),
    {
        self.entries.len()
    }

    /// The id and node of entry `i`.
    pub fn entry(&self, i: usize) -> (r: (&String, NodeId))
        requires
            i < self.entries_view().len(),
        ensures
            (r.0@, r.1.idx()) == self.entries_view()[i as int],
    {
        (&self.entries[i].0, self.entries[i].1)
    }
}

} // verus!
