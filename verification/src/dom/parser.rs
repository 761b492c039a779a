//! The svg3 XML parser.
//!
//! Structural only: attribute values are kept as unescaped strings and
//! text content is ignored. [`DocumentBuilder`] turns the stream of tags
//! into a [`Document`] arena; [`parse`] feeds it from `quick_xml`.
use vstd::prelude::*;

use quick_xml::events::attributes::AttrError;
use std::str::Utf8Error;

use super::element::{known_kind, lemma_known_kind_tag, lemma_tag_injective, lemma_tag_round_trip, tag_of};
use super::{Document, Element, ElementKind, Node, NodeId};
use crate::xml::{
    self, xml_event, xml_normalized_value, XmlEvent, XmlEventView, XmlStream, XmlTag, XmlTagView,
};
use vstd::string::StringSliceAdditionalSpecFns;
use vstd::utf8::{decode_utf8, valid_utf8};

verus! {

/// Errors that can occur while parsing an svg3 document.
#[derive(Debug)]
pub enum ParseError {
    /// The document contained no element.
    EmptyDocument,
    /// The root element was not `<svg>`.
    UnexpectedRoot {
        /// The tag name found at the document root.
        found: String,
    },
    /// An element was left open at the end of the document.
    UnclosedElement {
        /// The tag name that was never closed.
        tag: String,
    },
    /// Malformed XML, as reported by the XML reader.
    Xml(quick_xml::Error),
    /// A malformed attribute.
    Attribute(AttrError),
    /// A tag name or attribute key that is not valid UTF-8.
    Utf8(Utf8Error),
    /// The document has more elements than node ids can address, or more
    /// events than one per byte of input (plus the end).
    TooLarge,
    /// A second element at the top level of the document: a document has a
    /// single root element.
    MultipleRoots,
}

/// The kinds of [`ParseError`], with the tag names they carry.
pub enum ParseErrorKind {
    /// See [`ParseError::EmptyDocument`].
    EmptyDocument,
    /// See [`ParseError::UnexpectedRoot`].
    UnexpectedRoot(Seq<char>),
    /// See [`ParseError::UnclosedElement`].
    UnclosedElement(Seq<char>),
    /// See [`ParseError::Xml`].
    Xml,
    /// See [`ParseError::Attribute`].
    Attribute,
    /// See [`ParseError::Utf8`].
    Utf8,
    /// See [`ParseError::TooLarge`].
    TooLarge,
    /// See [`ParseError::MultipleRoots`].
    MultipleRoots,
}

/// Whether `e` is an error of kind `k` (carrying the same tag name).
pub open spec fn error_matches(e: ParseError, k: ParseErrorKind) -> bool {
    match (e, k) {
        (ParseError::EmptyDocument, ParseErrorKind::EmptyDocument) => true,
        (ParseError::UnexpectedRoot { found }, ParseErrorKind::UnexpectedRoot(t)) => found@ == t,
        (ParseError::UnclosedElement { tag }, ParseErrorKind::UnclosedElement(t)) => tag@ == t,
        (ParseError::Xml(_), ParseErrorKind::Xml) => true,
        (ParseError::Attribute(_), ParseErrorKind::Attribute) => true,
        (ParseError::Utf8(_), ParseErrorKind::Utf8) => true,
        (ParseError::TooLarge, ParseErrorKind::TooLarge) => true,
        (ParseError::MultipleRoots, ParseErrorKind::MultipleRoots) => true,
        _ => false,
    }
}

/// A node as plain values: its tag name, attributes and children's indices.
pub struct NodeModel {
    /// The tag name (see [`tag_of`]).
    pub tag: Seq<char>,
    /// The attributes.
    pub attributes: Map<Seq<char>, Seq<char>>,
    /// The children's arena indices, in document order.
    pub children: Seq<int>,
}

/// A node of the arena as plain values.
pub open spec fn node_model(n: Node) -> NodeModel {
    NodeModel {
        tag: tag_of(n.element.kind),
        attributes: n.element.attributes@,
        children: n.children@.map_values(|c: NodeId| c.idx()),
    }
}

/// A document's arena as plain values, in index order.
pub open spec fn document_model(doc: Document) -> Seq<NodeModel> {
    doc.nodes_view().map_values(|n: Node| node_model(n))
}

/// Whether `r` is the outcome `m`: the document with these nodes and this
/// root index, or an error of this kind.
pub open spec fn outcome_matches(
    r: Result<Document, ParseError>,
    m: Result<(Seq<NodeModel>, int), ParseErrorKind>,
) -> bool {
    match m {
        Ok((nodes, root)) => r matches Ok(doc) && doc.wf() && document_model(doc) == nodes
            && doc.root_view().idx() == root,
        Err(k) => r matches Err(e) && error_matches(e, k),
    }
}

/// A builder's state as plain values.
pub struct BuildModel {
    /// The nodes allocated so far.
    pub nodes: Seq<NodeModel>,
    /// The indices of the open elements, outermost first.
    pub parents: Seq<int>,
    /// The index of the top-level element, if any.
    pub root: Option<int>,
}

impl BuildModel {
    /// No node, nothing open.
    pub open spec fn empty() -> BuildModel {
        BuildModel { nodes: Seq::empty(), parents: Seq::empty(), root: None }
    }

    /// A new childless node with `tag` and `attributes`, appended to the
    /// innermost open element's children, or made the root when none is
    /// open.
    pub open spec fn added(self, tag: Seq<char>, attributes: Map<Seq<char>, Seq<char>>) -> BuildModel {
        let id = self.nodes.len() as int;
        let nodes = self.nodes.push(NodeModel { tag, attributes, children: Seq::empty() });
        if self.parents.len() > 0 {
            let p = self.parents.last();
            BuildModel {
                nodes: nodes.update(
                    p,
                    NodeModel {
                        tag: nodes[p].tag,
                        attributes: nodes[p].attributes,
                        children: nodes[p].children.push(id),
                    },
                ),
                parents: self.parents,
                root: self.root,
            }
        } else {
            BuildModel { nodes, parents: self.parents, root: Some(id) }
        }
    }

    /// An opening tag: [`BuildModel::added`], then the new node is open.
    pub open spec fn opened(self, tag: Seq<char>, attributes: Map<Seq<char>, Seq<char>>) -> BuildModel {
        let a = self.added(tag, attributes);
        BuildModel { nodes: a.nodes, parents: a.parents.push(self.nodes.len() as int), root: a.root }
    }

    /// A closing tag: the innermost open element is closed.
    pub open spec fn closed(self) -> BuildModel {
        BuildModel { nodes: self.nodes, parents: self.parents.drop_last(), root: self.root }
    }

    /// End of input: the nodes and root, or why there is no document.
    pub open spec fn finished(self) -> Result<(Seq<NodeModel>, int), ParseErrorKind> {
        if self.parents.len() > 0 {
            Err(ParseErrorKind::UnclosedElement(self.nodes[self.parents.last()].tag))
        } else {
            match self.root {
                None => Err(ParseErrorKind::EmptyDocument),
                Some(r) => if self.nodes[r].tag != tag_of(ElementKind::Svg) {
                    Err(ParseErrorKind::UnexpectedRoot(self.nodes[r].tag))
                } else {
                    Ok((self.nodes, r))
                },
            }
        }
    }
}

/// A canonical kind is `svg` exactly when its tag name is.
pub proof fn lemma_svg_tag(kind: ElementKind)
    requires
        canonical_kind(kind),
    ensures
        (kind == ElementKind::Svg) <==> (tag_of(kind) == tag_of(ElementKind::Svg)),
{
    lemma_tag_round_trip(ElementKind::Svg);
    if !(kind is Unknown) && tag_of(kind) == tag_of(ElementKind::Svg) {
        lemma_tag_injective(kind, ElementKind::Svg);
    }
}

/// A canonical kind is the one its tag name reads as: a known name gives
/// its kind, any other name an unknown kind.
pub proof fn lemma_canonical_kind_of_tag(kind: ElementKind)
    requires
        canonical_kind(kind),
    ensures
        match known_kind(tag_of(kind)) {
            Some(k) => kind == k,
            None => kind is Unknown,
        },
{
    if !(kind is Unknown) {
        lemma_tag_round_trip(kind);
    }
}

/// Whether an element kind is the one its tag name reads as: an unknown
/// kind never carries the name of a known one.
pub open spec fn canonical_kind(kind: ElementKind) -> bool {
    kind matches ElementKind::Unknown(name) ==> known_kind(name@) is None
}

/// Builds a [`Document`] arena from a stream of opening, self-closing and
/// closing tags.
pub struct DocumentBuilder {
    arena: Vec<Node>,
    parents: Vec<NodeId>,
    root: Option<NodeId>,
}

/// Whether every child in `nodes` lies after its parent and inside the
/// arena.
pub open spec fn children_after_parent(nodes: Seq<Node>) -> bool {
    forall|i: int, j: int|
        0 <= i < nodes.len() && 0 <= j < nodes[i].children@.len() ==> i < (
        #[trigger] nodes[i].children@[j]).idx() < nodes.len()
}

impl DocumentBuilder {
    /// Nodes allocated so far.
    pub closed spec fn arena_view(&self) -> Seq<Node> {
        self.arena@
    }

    /// Currently open elements, outermost first.
    pub closed spec fn parents_view(&self) -> Seq<NodeId> {
        self.parents@
    }

    /// The most recent top-level element, if any.
    pub closed spec fn root_view(&self) -> Option<NodeId> {
        self.root
    }

    /// This builder's state as plain values.
    pub open spec fn model(&self) -> BuildModel {
        BuildModel {
            nodes: self.arena_view().map_values(|n: Node| node_model(n)),
            parents: self.parents_view().map_values(|p: NodeId| p.idx()),
            root: match self.root_view() {
                Some(r) => Some(r.idx()),
                None => None,
            },
        }
    }

    /// The builder's invariant.
    pub open spec fn wf(&self) -> bool {
        &&& children_after_parent(self.arena_view())
        &&& self.arena_view().len() <= u32::MAX
        &&& forall|k: int|
            0 <= k < self.parents_view().len() ==> 0 <= #[trigger] self.parents_view()[k].idx()
                < self.arena_view().len()
        &&& self.root_view() matches Some(r) ==> 0 <= r.idx() < self.arena_view().len()
    }

    /// An empty builder.
    pub fn new() -> (r: Self)
        ensures
            r.wf(),
            r.arena_view().len() == 0,
            r.parents_view().len() == 0,
            r.root_view() is None,
            r.model() == BuildModel::empty(),
    {
        let r = DocumentBuilder { arena: Vec::new(), parents: Vec::new(), root: None };
        assert(r.model().nodes =~= Seq::<NodeModel>::empty());
        assert(r.model().parents =~= Seq::<int>::empty());
        r
    }

    /// Whether a top-level element has been added and no element is open:
    /// another element now would be a second root.
    pub fn has_closed_root(&self) -> (r: bool)
        ensures
            r == (self.parents_view().len() == 0 && self.root_view() is Some),
    {
        self.parents.len() == 0 && self.root.is_some()
    }

    /// Number of nodes allocated so far.
    pub fn len(&self) -> (r: usize)
        ensures
            r == self.arena_view().len(),
    {
        self.arena.len()
    }

    /// Allocate `element` as a new childless node and attach it: as the last
    /// child of the innermost open element, or as the root when no element
    /// is open (which the builder allows only before any root exists).
    fn add(&mut self, element: Element) -> (r: NodeId)
        requires
            old(self).wf(),
            old(self).arena_view().len() < u32::MAX,
            old(self).parents_view().len() == 0 ==> old(self).root_view() is None,
        ensures
            final(self).wf(),
            r.idx() == old(self).arena_view().len(),
            final(self).parents_view() == old(self).parents_view(),
            final(self).arena_view().len() == old(self).arena_view().len() + 1,
            final(self).arena_view().last().element == element,
            final(self).arena_view().last().children@.len() == 0,
            final(self).model() == old(self).model().added(tag_of(element.kind), element.attributes@),
            old(self).parents_view().len() > 0 ==> {
                let p = old(self).parents_view().last().idx();
                &&& final(self).root_view() == old(self).root_view()
                &&& final(self).arena_view()[p].element == old(self).arena_view()[p].element
                &&& final(self).arena_view()[p].children@ == old(self).arena_view()[p].children@.push(r)
                &&& forall|i: int|
                    0 <= i < old(self).arena_view().len() && i != p ==> #[trigger] final(self).arena_view()[i]
                        == old(self).arena_view()[i]
            },
            old(self).parents_view().len() == 0 ==> {
                &&& final(self).root_view() == Some(r)
                &&& forall|i: int|
                    0 <= i < old(self).arena_view().len() ==> #[trigger] final(self).arena_view()[i]
                        == old(self).arena_view()[i]
            },
    {
        let id = NodeId::from_index(self.arena.len());
        self.arena.push(Node { element, children: Vec::new() });
        let np = self.parents.len();
        if np > 0 {
            let p = self.parents[np - 1].index();
            let mut children: Vec<NodeId> = Vec::new();
            std::mem::swap(&mut children, &mut self.arena[p].children);
            children.push(id);
            std::mem::swap(&mut children, &mut self.arena[p].children);
        } else {
            self.root = Some(id);
        }
        proof {
            let n = self.arena_view();
            let o = old(self).arena_view();
            assert forall|i: int, j: int|
                0 <= i < n.len() && 0 <= j < n[i].children@.len() implies i < (
                #[trigger] n[i].children@[j]).idx() < n.len() by {
                if i < o.len() && !(np > 0 && i == old(self).parents_view().last().idx()) {
                    assert(n[i] == o[i]);
                }
            }
            let nm = self.model();
            let om = old(self).model();
            let expect = om.added(tag_of(element.kind), element.attributes@);
            assert(n.last().children@.map_values(|c: NodeId| c.idx()) =~= Seq::<int>::empty());
            if np > 0 {
                let pp = old(self).parents_view().last().idx();
                assert(om.parents.last() == pp);
                assert(n[pp].children@.map_values(|c: NodeId| c.idx()) =~= o[pp].children@.map_values(
                    |c: NodeId| c.idx(),
                ).push(id.idx()));
            }
            assert(nm.nodes =~= expect.nodes);
            assert(nm.parents =~= expect.parents);
        }
        id
    }

    /// An opening tag: add `element` and make it the innermost open element.
    /// A second top-level element is not taken (see [`ParseError::MultipleRoots`]).
    pub fn open(&mut self, element: Element)
        requires
            old(self).wf(),
            old(self).arena_view().len() < u32::MAX,
            old(self).parents_view().len() == 0 ==> old(self).root_view() is None,
        ensures
            final(self).wf(),
            final(self).arena_view().len() == old(self).arena_view().len() + 1,
            final(self).arena_view().last().element == element,
            final(self).parents_view().len() == old(self).parents_view().len() + 1,
            final(self).parents_view().drop_last() == old(self).parents_view(),
            final(self).parents_view().last().idx() == old(self).arena_view().len(),
            final(self).model() == old(self).model().opened(tag_of(element.kind), element.attributes@),
            forall|i: int|
                0 <= i < old(self).arena_view().len() ==> #[trigger] final(self).arena_view()[i].element
                    == old(self).arena_view()[i].element,
    {
        let ghost tag = tag_of(element.kind);
        let ghost attributes = element.attributes@;
        let id = self.add(element);
        self.parents.push(id);
        proof {
            assert(self.parents_view().drop_last() =~= old(self).parents_view());
            assert(self.model().parents =~= old(self).model().opened(tag, attributes).parents);
        }
    }

    /// A self-closing tag: add `element` without opening it. A second
    /// top-level element is not taken (see [`ParseError::MultipleRoots`]).
    pub fn leaf(&mut self, element: Element)
        requires
            old(self).wf(),
            old(self).arena_view().len() < u32::MAX,
            old(self).parents_view().len() == 0 ==> old(self).root_view() is None,
        ensures
            final(self).wf(),
            final(self).arena_view().len() == old(self).arena_view().len() + 1,
            final(self).arena_view().last().element == element,
            final(self).parents_view() == old(self).parents_view(),
            final(self).model() == old(self).model().added(tag_of(element.kind), element.attributes@),
            forall|i: int|
                0 <= i < old(self).arena_view().len() ==> #[trigger] final(self).arena_view()[i].element
                    == old(self).arena_view()[i].element,
    {
        let _ = self.add(element);
    }

    /// A closing tag: close the innermost open element. Fails with
    /// [`ParseError::EmptyDocument`] when no element is open.
    pub fn close(&mut self) -> (r: Result<(), ParseError>)
        requires
            old(self).wf(),
        ensures
            final(self).wf(),
            final(self).arena_view() == old(self).arena_view(),
            final(self).root_view() == old(self).root_view(),
            old(self).parents_view().len() == 0 ==> (r matches Err(ParseError::EmptyDocument)
                && final(self).parents_view() == old(self).parents_view()),
            old(self).parents_view().len() > 0 ==> (r is Ok && final(self).parents_view()
                == old(self).parents_view().drop_last()),
            old(self).parents_view().len() == 0 ==> final(self).model() == old(self).model(),
            old(self).parents_view().len() > 0 ==> final(self).model() == old(self).model().closed(),
    {
        let r = match self.parents.pop() {
            Some(_) => Ok(()),
            None => Err(ParseError::EmptyDocument),
        };
        proof {
            if old(self).parents_view().len() > 0 {
                assert(self.model().parents =~= old(self).model().closed().parents);
            } else {
                assert(self.model().parents =~= old(self).model().parents);
            }
            assert(self.model().nodes =~= old(self).model().nodes);
        }
        r
    }

    /// End of input: the finished document, or the reason there is none.
    pub fn finish(self) -> (r: Result<Document, ParseError>)
        requires
            self.wf(),
        ensures
            self.parents_view().len() > 0 ==> (r matches Err(ParseError::UnclosedElement { tag })
                && tag@ == tag_of(self.arena_view()[self.parents_view().last().idx()].element.kind)),
            self.parents_view().len() == 0 && self.root_view() is None ==> (r matches Err(
                ParseError::EmptyDocument,
            )),
            self.parents_view().len() == 0 && self.root_view() is Some
                && self.arena_view()[self.root_view()->0.idx()].element.kind != ElementKind::Svg
                ==> (r matches Err(ParseError::UnexpectedRoot { found }) && found@ == tag_of(
                self.arena_view()[self.root_view()->0.idx()].element.kind,
            )),
            self.parents_view().len() == 0 && self.root_view() is Some
                && self.arena_view()[self.root_view()->0.idx()].element.kind == ElementKind::Svg
                ==> (r matches Ok(doc) && doc.wf() && doc.nodes_view() == self.arena_view()
                && doc.root_view() == self.root_view()->0),
            (forall|i: int|
                0 <= i < self.arena_view().len() ==> canonical_kind(
                    #[trigger] self.arena_view()[i].element.kind,
                )) ==> outcome_matches(r, self.model().finished()),
    {
        proof {
            if self.parents_view().len() == 0 {
                if let Some(root) = self.root_view() {
                    if forall|i: int|
                        0 <= i < self.arena_view().len() ==> canonical_kind(
                            #[trigger] self.arena_view()[i].element.kind,
                        ) {
                        lemma_svg_tag(self.arena_view()[root.idx()].element.kind);
                    }
                }
            }
        }
        let np = self.parents.len();
        if np > 0 {
            let last = self.parents[np - 1].index();
            let tag = self.arena[last].element.kind.as_tag().to_owned();
            return Err(ParseError::UnclosedElement { tag });
        }
        let root = match self.root {
            Some(root) => root,
            None => return Err(ParseError::EmptyDocument),
        };
        let kind = &self.arena[root.index()].element.kind;
        if !matches!(kind, ElementKind::Svg) {
            return Err(ParseError::UnexpectedRoot { found: kind.as_tag().to_owned() });
        }
        Ok(Document::from_arena(self.arena, root))
    }
}

/// The attributes that a tag's `(key, value)` pairs give, in source order:
/// a later pair with the same key replaces an earlier one.
pub open spec fn attributes_of(pairs: Seq<(Seq<char>, Seq<char>)>) -> Map<Seq<char>, Seq<char>>
    decreases pairs.len(),
{
    if pairs.len() == 0 {
        Map::empty()
    } else {
        attributes_of(pairs.drop_last()).insert(pairs.last().0, pairs.last().1)
    }
}

/// An element from its tag name and its attributes' `(key, value)` pairs
/// in source order (see [`attributes_of`]).
pub fn element_from_parts(tag: &str, pairs: Vec<(String, String)>) -> (r: Element)
    ensures
        match known_kind(tag@) {
            Some(k) => r.kind == k,
            None => r.kind matches ElementKind::Unknown(name) && name@ == tag@,
        },
        r.kind matches ElementKind::Unknown(name) ==> known_kind(name@) is None,
        r.attributes@ == attributes_of(pairs@.map_values(|p: (String, String)| (p.0@, p.1@))),
{
    let ghost views = pairs@.map_values(|p: (String, String)| (p.0@, p.1@));
    let mut element = Element::new(ElementKind::from_tag(tag));
    let count = pairs.len();
    let mut rest = pairs;
    let ghost total = rest@;
    let mut taken: usize = 0;
    proof {
        assert(views.take(0) =~= Seq::<(Seq<char>, Seq<char>)>::empty());
        assert(element.attributes@ =~= Map::<Seq<char>, Seq<char>>::empty());
    }
    while rest.len() > 0
        invariant
            taken + rest@.len() == total.len() == count,
            rest@ == total.skip(taken as int),
            views == total.map_values(|p: (String, String)| (p.0@, p.1@)),
            element.attributes@ == attributes_of(views.take(taken as int)),
            match known_kind(tag@) {
                Some(k) => element.kind == k,
                None => element.kind matches ElementKind::Unknown(name) && name@ == tag@,
            },
            element.kind matches ElementKind::Unknown(name) ==> known_kind(name@) is None,
        decreases rest@.len(),
    {
        let (key, value) = rest.remove(0);
        proof {
            assert(total[taken as int] == (key, value));
            assert(views.take(taken + 1).drop_last() =~= views.take(taken as int));
            assert(views.take(taken + 1).last() == (key@, value@));
            assert(rest@ =~= total.skip(taken + 1));
        }
        let _ = element.attributes.insert(key, value);
        taken = taken + 1;
    }
    proof {
        assert(views.take(total.len() as int) =~= views);
    }
    element
}

/// One attribute read from a tag, as `(name, value)`: the reader's
/// attribute error, a name that is not UTF-8, or a value that cannot be
/// unescaped are checked in that order.
pub open spec fn attribute_entry(a: Option<(Seq<u8>, Seq<u8>)>) -> Result<
    (Seq<char>, Seq<char>),
    ParseErrorKind,
> {
    match a {
        None => Err(ParseErrorKind::Attribute),
        Some((key, raw)) => if !valid_utf8(key) {
            Err(ParseErrorKind::Utf8)
        } else {
            match xml_normalized_value(raw) {
                None => Err(ParseErrorKind::Xml),
                Some(value) => Ok((decode_utf8(key), value)),
            }
        },
    }
}

/// A tag's attributes as `(name, value)` pairs in source order, or the
/// first attribute's error.
pub open spec fn attribute_entries(attributes: Seq<Option<(Seq<u8>, Seq<u8>)>>) -> Result<
    Seq<(Seq<char>, Seq<char>)>,
    ParseErrorKind,
>
    decreases attributes.len(),
{
    if attributes.len() == 0 {
        Ok(Seq::empty())
    } else {
        match attribute_entries(attributes.drop_last()) {
            Err(e) => Err(e),
            Ok(pairs) => match attribute_entry(attributes.last()) {
                Err(e) => Err(e),
                Ok(entry) => Ok(pairs.push(entry)),
            },
        }
    }
}

/// The element a tag describes, as its tag name and attributes (a later
/// attribute with the same name replaces an earlier one), or the first
/// error: a tag name that is not UTF-8, then the attributes' errors.
pub open spec fn tag_model(t: XmlTagView) -> Result<(Seq<char>, Map<Seq<char>, Seq<char>>), ParseErrorKind> {
    if !valid_utf8(t.name) {
        Err(ParseErrorKind::Utf8)
    } else {
        match attribute_entries(t.attributes) {
            Err(e) => Err(e),
            Ok(pairs) => Ok((decode_utf8(t.name), attributes_of(pairs))),
        }
    }
}

/// Whether `r` is the element (or the error) that `m` describes.
pub open spec fn element_matches(
    r: Result<Element, ParseError>,
    m: Result<(Seq<char>, Map<Seq<char>, Seq<char>>), ParseErrorKind>,
) -> bool {
    match m {
        Ok((tag, attributes)) => r matches Ok(element) && tag_of(element.kind) == tag
            && element.attributes@ == attributes && canonical_kind(element.kind),
        Err(k) => r matches Err(e) && error_matches(e, k),
    }
}

/// Once a prefix of the attributes has an error, every longer prefix has
/// that same error.
proof fn lemma_entries_error_stays(attributes: Seq<Option<(Seq<u8>, Seq<u8>)>>, j: int)
    requires
        0 <= j <= attributes.len(),
        attribute_entries(attributes.take(j)) is Err,
    ensures
        attribute_entries(attributes) == attribute_entries(attributes.take(j)),
    decreases attributes.len(),
{
    if j == attributes.len() {
        assert(attributes.take(j) =~= attributes);
    } else {
        assert(attributes.drop_last().take(j) =~= attributes.take(j));
        lemma_entries_error_stays(attributes.drop_last(), j);
    }
}

/// Build an [`Element`] from a tag read by the XML reader: the tag name and
/// each attribute's name and unescaped value, in source order, go to
/// [`element_from_parts`]. Fails on a tag name that is not UTF-8, else on
/// the first attribute that is malformed, has a name that is not UTF-8, or
/// a value that cannot be unescaped.
pub fn build_element(tag: XmlTag) -> (r: Result<Element, ParseError>)
    ensures
        element_matches(r, tag_model(tag.view())),
{
    let ghost view = tag.view();
    let name = match xml::utf8_to_string(tag.name.as_slice()) {
        Ok(name) => name,
        Err(err) => return Err(ParseError::Utf8(err)),
    };
    let mut rest = tag.attributes;
    let ghost attrs = view.attributes;
    let ghost total = rest@;
    let mut taken: usize = 0;
    let total_len = rest.len();
    let mut pairs: Vec<(String, String)> = Vec::new();
    proof {
        assert(attrs.take(0) =~= Seq::<Option<(Seq<u8>, Seq<u8>)>>::empty());
        assert(pairs@.map_values(|p: (String, String)| (p.0@, p.1@)) =~= Seq::<
            (Seq<char>, Seq<char>),
        >::empty());
    }
    while rest.len() > 0
        invariant
            taken + rest@.len() == total.len() == total_len,
            rest@ == total.skip(taken as int),
            attrs == xml::raw_attributes_view(total),
            view.attributes == attrs,
            view == tag.view(),
            valid_utf8(view.name),
            name@ == decode_utf8(view.name),
            attribute_entries(attrs.take(taken as int)) == Ok::<
                Seq<(Seq<char>, Seq<char>)>,
                ParseErrorKind,
            >(pairs@.map_values(|p: (String, String)| (p.0@, p.1@))),
        decreases rest@.len(),
    {
        let item = rest.remove(0);
        proof {
            assert(total[taken as int] == item);
            assert(attrs.take(taken + 1).drop_last() =~= attrs.take(taken as int));
            assert(attrs.take(taken + 1).last() == xml::raw_attribute_view(item));
            assert(rest@ =~= total.skip(taken + 1));
        }
        match item {
            Err(err) => {
                proof {
                    assert(attribute_entries(attrs.take(taken + 1)) == Err::<
                        Seq<(Seq<char>, Seq<char>)>,
                        ParseErrorKind,
                    >(ParseErrorKind::Attribute));
                    lemma_entries_error_stays(attrs, taken + 1);
                }
                return Err(ParseError::Attribute(err));
            },
            Ok((key_bytes, raw)) => {
                let key = match xml::utf8_to_string(key_bytes.as_slice()) {
                    Ok(key) => key,
                    Err(err) => {
                        proof {
                            assert(attribute_entries(attrs.take(taken + 1)) == Err::<
                                Seq<(Seq<char>, Seq<char>)>,
                                ParseErrorKind,
                            >(ParseErrorKind::Utf8));
                            lemma_entries_error_stays(attrs, taken + 1);
                        }
                        return Err(ParseError::Utf8(err));
                    },
                };
                let value = match xml::normalized_value(raw.as_slice()) {
                    Ok(value) => value,
                    Err(err) => {
                        proof {
                            lemma_entries_error_stays(attrs, taken + 1);
                        }
                        return Err(ParseError::Xml(err));
                    },
                };
                let ghost before = pairs@;
                let ghost entry = (key@, value@);
                pairs.push((key, value));
                proof {
                    assert(pairs@.map_values(|p: (String, String)| (p.0@, p.1@)) =~= before.map_values(
                        |p: (String, String)| (p.0@, p.1@),
                    ).push(entry));
                }
            },
        }
        taken = taken + 1;
    }
    proof {
        assert(attrs.take(total.len() as int) =~= attrs);
    }
    let element = element_from_parts(name.as_str(), pairs);
    proof {
        lemma_known_kind_tag(name@);
    }
    Ok(element)
}

/// Where reading a document stands after some events: still building, or
/// done with an outcome.
pub enum ParseStep {
    /// Still reading, with the builder in this state.
    Running(BuildModel),
    /// Done: the document's nodes and root index, or the error.
    Stopped(Result<(Seq<NodeModel>, int), ParseErrorKind>),
}

/// What one event does to a builder in state `m`; `None` is a reader error.
pub open spec fn event_step(m: BuildModel, event: Option<XmlEventView>) -> ParseStep {
    match event {
        None => ParseStep::Stopped(Err(ParseErrorKind::Xml)),
        Some(XmlEventView::Start(t)) => element_step(m, t, true),
        Some(XmlEventView::Empty(t)) => element_step(m, t, false),
        Some(XmlEventView::End) => if m.parents.len() == 0 {
            ParseStep::Stopped(Err(ParseErrorKind::EmptyDocument))
        } else {
            ParseStep::Running(m.closed())
        },
        Some(XmlEventView::Eof) => ParseStep::Stopped(m.finished()),
        Some(XmlEventView::Other) => ParseStep::Running(m),
    }
}

/// An opening (`open`) or self-closing tag: its element, unless the tag is
/// faulty, the arena is full, or it would be a second top-level element.
pub open spec fn element_step(m: BuildModel, t: XmlTagView, open: bool) -> ParseStep {
    match tag_model(t) {
        Err(e) => ParseStep::Stopped(Err(e)),
        Ok((tag, attributes)) => if m.nodes.len() >= u32::MAX {
            ParseStep::Stopped(Err(ParseErrorKind::TooLarge))
        } else if m.parents.len() == 0 && m.root is Some {
            ParseStep::Stopped(Err(ParseErrorKind::MultipleRoots))
        } else if open {
            ParseStep::Running(m.opened(tag, attributes))
        } else {
            ParseStep::Running(m.added(tag, attributes))
        },
    }
}

/// Where reading the document with bytes `input` stands after its first
/// `count` events.
pub open spec fn parse_run(input: Seq<u8>, count: nat) -> ParseStep
    decreases count,
{
    if count == 0 {
        ParseStep::Running(BuildModel::empty())
    } else {
        match parse_run(input, (count - 1) as nat) {
            ParseStep::Stopped(o) => ParseStep::Stopped(o),
            ParseStep::Running(m) => event_step(m, xml_event(input, (count - 1) as nat)),
        }
    }
}

/// The outcome of parsing the document with bytes `input`: at most one
/// event per byte plus the end of input are read; a stream longer than that
/// is [`ParseErrorKind::TooLarge`].
pub open spec fn parse_model(input: Seq<u8>) -> Result<(Seq<NodeModel>, int), ParseErrorKind> {
    match parse_run(input, input.len() + 1) {
        ParseStep::Stopped(o) => o,
        ParseStep::Running(_) => Err(ParseErrorKind::TooLarge),
    }
}

/// Once reading has stopped, later events change nothing.
proof fn lemma_run_stays_stopped(input: Seq<u8>, k: nat, j: nat)
    requires
        k <= j,
        parse_run(input, k) is Stopped,
    ensures
        parse_run(input, j) == parse_run(input, k),
    decreases j,
{
    if j > k {
        lemma_run_stays_stopped(input, k, (j - 1) as nat);
    }
}

/// Build the element of an opening (`open`) or self-closing tag and add it
/// to `builder`, as [`element_step`] describes; fails, leaving the builder
/// as it was, where that step stops with an error.
fn add_element(builder: &mut DocumentBuilder, tag: XmlTag, open: bool) -> (r: Result<(), ParseError>)
    requires
        old(builder).wf(),
        forall|i: int|
            0 <= i < old(builder).arena_view().len() ==> canonical_kind(
                #[trigger] old(builder).arena_view()[i].element.kind,
            ),
    ensures
        final(builder).wf(),
        forall|i: int|
            0 <= i < final(builder).arena_view().len() ==> canonical_kind(
                #[trigger] final(builder).arena_view()[i].element.kind,
            ),
        match element_step(old(builder).model(), tag.view(), open) {
            ParseStep::Running(m) => r is Ok && final(builder).model() == m,
            ParseStep::Stopped(Err(k)) => r matches Err(e) && error_matches(e, k),
            ParseStep::Stopped(Ok(_)) => false,
        },
{
    let element = match build_element(tag) {
        Ok(element) => element,
        Err(err) => return Err(err),
    };
    if builder.len() >= 0xffff_ffff {
        return Err(ParseError::TooLarge);
    }
    if builder.has_closed_root() {
        return Err(ParseError::MultipleRoots);
    }
    if open {
        builder.open(element);
    } else {
        builder.leaf(element);
    }
    Ok(())
}

/// Parse an svg3 document from XML text.
///
/// The root element must be `<svg>`, and it must be the document's only
/// top-level element. Tag names map to kinds by [`ElementKind::from_tag`];
/// unknown tags are kept verbatim. Attribute values are unescaped and
/// stored as strings on their element; text, comments and declarations are
/// ignored. The result is [`parse_model`] of the input's bytes: nodes are
/// numbered in document order, each lists its children in document order.
pub fn parse(input: &str) -> (r: Result<Document, ParseError>)
    ensures
        outcome_matches(r, parse_model(input.spec_bytes())),
        r matches Ok(doc) ==> doc.rooted_at_svg(),
        r matches Ok(doc) ==> forall|i: int|
            0 <= i < doc.nodes_view().len() ==> canonical_kind(#[trigger] doc.nodes_view()[i].element.kind),
{
    let ghost bytes = input.spec_bytes();
    let mut stream = XmlStream::new(input);
    let mut builder = DocumentBuilder::new();
    let limit = input.as_bytes().len();
    let mut count: usize = 0;
    loop
        invariant
            builder.wf(),
            forall|i: int|
                0 <= i < builder.arena_view().len() ==> canonical_kind(
                    #[trigger] builder.arena_view()[i].element.kind,
                ),
            stream.input_view() == bytes,
            bytes == input.spec_bytes(),
            stream.read_view() == count,
            count <= limit,
            limit == bytes.len(),
            parse_run(bytes, count as nat) == ParseStep::Running(builder.model()),
        decreases limit - count,
    {
        let ghost m = builder.model();
        let event = xml::read_xml_event(&mut stream);
        let ghost next = parse_run(bytes, (count + 1) as nat);
        assert(next == event_step(m, xml_event(bytes, count as nat)));
        let event = match event {
            Ok(event) => event,
            Err(err) => {
                proof {
                    lemma_run_stays_stopped(bytes, (count + 1) as nat, (limit + 1) as nat);
                }
                return Err(ParseError::Xml(err));
            },
        };
        let added = match event {
            XmlEvent::Start(tag) => add_element(&mut builder, tag, true),
            XmlEvent::Empty(tag) => add_element(&mut builder, tag, false),
            XmlEvent::End => match builder.close() {
                Ok(()) => Ok(()),
                Err(err) => Err(err),
            },
            XmlEvent::Eof => {
                proof {
                    lemma_run_stays_stopped(bytes, (count + 1) as nat, (limit + 1) as nat);
                }
                return builder.finish();
            },
            XmlEvent::Other => Ok(()),
        };
        if let Err(err) = added {
            proof {
                lemma_run_stays_stopped(bytes, (count + 1) as nat, (limit + 1) as nat);
            }
            return Err(err);
        }
        if count == limit {
            return Err(ParseError::TooLarge);
        }
        count = count + 1;
    }
}

} // verus!
