//! The render plan: the painter-order walk over a document that decides,
//! element by element, what is drawn directly, what goes through a filter
//! pass, and what a broken filter reference drops.
//!
//! The walk skips definition containers and, unless the svg3 extension is
//! on, svg3's 3D elements. An element whose `filter` resolves to a chain is
//! drawn with its subtree through that filter (and its `clip-path`, if
//! any); one whose filter resolves to nothing is dropped with its subtree;
//! any other element is drawn and the walk goes on into its children,
//! except below an element that owns its children (`<surface>`).
//!
//! A filtered step also says whether the chain generates content of its
//! own and whether it is rewired; with the two facts that only the renderer
//! can measure (the subtree's geometry is empty, some primitive's float
//! parameters or subregion change its input), [`filter_pass`] then decides
//! whether the filter is skipped, drawn inline or run in a pass of its own.
use vstd::prelude::*;

use crate::definitions::{definitions_of, DefinitionSet};
use crate::dom::{Document, Element, ElementKind, Node, NodeId};
use crate::filters::{
    attr_view, chain_source, filter_input_spec, has_primitives, is_supported_primitive,
    is_supported_primitive_exec, primitive_links, referenced_definition, result_name, FilterInput, ClipPathDefinitions, FilterDefinitions, FilterTarget,
    MAX_HREF_DEPTH,
};
use crate::references::{href_target, reference_id};
use crate::text::trim;
use crate::scene::{
    is_3d_kind, is_definition_container, is_definition_container_kind, is_svg3_3d_element,
    owns_children,
};

verus! {

/// One step of the render plan, in painter's order.
#[derive(Debug, Clone, Copy, PartialEq, Eq, Structural)]
pub enum PlanStep {
    /// Draw this element's own geometry.
    Draw(NodeId),
    /// Draw this element with its subtree through the primitives of the
    /// `<filter>` node `filter`, clipped by the `<clipPath>` node `clip`.
    Filtered {
        /// The filtered element.
        node: NodeId,
        /// The `<filter>` node whose children are the primitives.
        filter: NodeId,
        /// The element's clip path, if it names one.
        clip: Option<NodeId>,
        /// Whether some primitive of the chain makes content of its own
        /// (see [`chain_generates`]).
        generator: bool,
        /// Whether some primitive of the chain reads a non-default input or
        /// names its result (see [`chain_rewired`]).
        rewired: bool,
    },
    /// A filter reference that resolves to nothing: the element and its
    /// subtree render as transparent black.
    Dropped(NodeId),
}

/// A plan step with node ids as arena indices.
pub enum PlanStepView {
    /// See [`PlanStep::Draw`].
    Draw(int),
    /// See [`PlanStep::Filtered`]: element, filter node, clip node,
    /// generator, rewired.
    Filtered(int, int, Option<int>, bool, bool),
    /// See [`PlanStep::Dropped`].
    Dropped(int),
}

impl PlanStep {
    /// This step with node ids as arena indices.
    pub open spec fn view(&self) -> PlanStepView {
        match *self {
            PlanStep::Draw(n) => PlanStepView::Draw(n.idx()),
            PlanStep::Filtered { node, filter, clip, generator, rewired } => PlanStepView::Filtered(
                node.idx(),
                filter.idx(),
                match clip {
                    Some(c) => Some(c.idx()),
                    None => None,
                },
                generator,
                rewired,
            ),
            PlanStep::Dropped(n) => PlanStepView::Dropped(n.idx()),
        }
    }
}

/// A plan as arena indices.
pub open spec fn plan_view(steps: Seq<PlanStep>) -> Seq<PlanStepView> {
    steps.map_values(|s: PlanStep| s.view())
}

/// What an element's `filter` attribute does: `None` where it has none (or
/// names no `url(#id)`), `Some(Some(n))` where it resolves to the filter
/// node `n`, `Some(None)` where it resolves to nothing.
pub open spec fn filter_outcome(
    filters: FilterDefinitions,
    attributes: Map<Seq<char>, Seq<char>>,
) -> Option<Option<int>> {
    if !attributes.contains_key("filter"@) {
        None
    } else {
        match reference_id(attributes["filter"@]) {
            None => None,
            Some(id) => Some(
                chain_source(
                    filters.entries_view(),
                    filters.prims_view(),
                    filters.hrefs_view(),
                    id,
                    Seq::empty(),
                    MAX_HREF_DEPTH as nat,
                ),
            ),
        }
    }
}

/// Whether a filter child is a primitive that makes content of its own,
/// whatever its input: `<feFlood>`, `<feTurbulence>` or an `<feImage>`.
pub open spec fn primitive_generates(element: Element) -> bool {
    is_supported_primitive(element) && (element.kind is FeFlood || element.kind is FeTurbulence
        || element.kind is FeImage)
}

/// Whether a filter child is a primitive whose wiring differs from the
/// default: an `in` or `in2` other than the previous result, or a `result`
/// name that a later primitive may read.
pub open spec fn primitive_rewired(element: Element) -> bool {
    is_supported_primitive(element) && (!(filter_input_spec(
        attr_view(element.attributes@, "in"@),
    ) is Default) || !(filter_input_spec(attr_view(element.attributes@, "in2"@)) is Default)
        || result_name(element.attributes@) is Some)
}

/// Whether some primitive of the `<filter>` node `f` generates content.
pub open spec fn chain_generates(nodes: Seq<Node>, f: int) -> bool {
    0 <= f < nodes.len() && exists|j: int|
        0 <= j < nodes[f].children@.len() && 0 <= #[trigger] nodes[f].children@[j].idx() < nodes.len()
            && primitive_generates(nodes[nodes[f].children@[j].idx()].element)
}

/// Whether some primitive of the `<filter>` node `f` is rewired.
pub open spec fn chain_rewired(nodes: Seq<Node>, f: int) -> bool {
    0 <= f < nodes.len() && exists|j: int|
        0 <= j < nodes[f].children@.len() && 0 <= #[trigger] nodes[f].children@[j].idx() < nodes.len()
            && primitive_rewired(nodes[nodes[f].children@[j].idx()].element)
}

/// Whether the `<filter>` node `f` has a generating primitive, and whether
/// it has a rewired one.
fn chain_flags(document: &Document, f: NodeId) -> (r: (bool, bool))
    requires
        document.wf(),
        document.contains(f),
    ensures
        r.0 == chain_generates(document.nodes_view(), f.idx()),
        r.1 == chain_rewired(document.nodes_view(), f.idx()),
{
    let ghost nodes = document.nodes_view();
    let children = &document.node(f).children;
    let mut generator = false;
    let mut rewired = false;
    let mut j: usize = 0;
    while j < children.len()
        invariant
            document.wf(),
            document.contains(f),
            nodes == document.nodes_view(),
            *children == nodes[f.idx()].children,
            j <= children@.len(),
            generator == exists|k: int|
                0 <= k < j && 0 <= #[trigger] children@[k].idx() < nodes.len() && primitive_generates(
                    nodes[children@[k].idx()].element,
                ),
            rewired == exists|k: int|
                0 <= k < j && 0 <= #[trigger] children@[k].idx() < nodes.len() && primitive_rewired(
                    nodes[children@[k].idx()].element,
                ),
        decreases children@.len() - j,
    {
        let child = children[j];
        assert(document.contains(child));
        let element = document.element(child);
        if is_supported_primitive_exec(element) {
            let makes = match element.kind {
                ElementKind::FeFlood | ElementKind::FeTurbulence | ElementKind::FeImage => true,
                _ => false,
            };
            let links = primitive_links(element);
            let wired = !matches!(links.input, FilterInput::Default) || !matches!(
                links.input2,
                FilterInput::Default,
            ) || links.result.is_some();
            assert(wired == primitive_rewired(*element));
            generator = generator || makes;
            rewired = rewired || wired;
        }
        proof {
            assert(children@[j as int] == child);
        }
        j = j + 1;
    }
    (generator, rewired)
}

/// How the renderer paints a [`PlanStep::Filtered`] element.
#[derive(Debug, Clone, Copy, PartialEq, Eq, Structural)]
pub enum FilterPass {
    /// Nothing: the subtree draws no geometry and no primitive makes
    /// content of its own.
    Skip,
    /// Draw the subtree inline, as if unfiltered: no primitive changes it.
    Inline,
    /// Run the filter chain on the subtree in a pass of its own.
    Isolate,
}

/// The pass for a filtered element, from the plan step's `generator` and
/// `rewired` flags and two facts the renderer measures: whether the
/// subtree's geometry is empty, and whether some primitive changes its
/// input by its parameters or clips it to a subregion (`shown`).
pub fn filter_pass(generator: bool, rewired: bool, mesh_empty: bool, shown: bool) -> (r: FilterPass)
    ensures
        r == (if mesh_empty && !generator {
            FilterPass::Skip
        } else if rewired || shown {
            FilterPass::Isolate
        } else {
            FilterPass::Inline
        }),
{
    if mesh_empty && !generator {
        FilterPass::Skip
    } else if rewired || shown {
        FilterPass::Isolate
    } else {
        FilterPass::Inline
    }
}

/// The plan of the subtree at arena index `id`.
pub open spec fn node_plan(
    nodes: Seq<Node>,
    id: int,
    filters: FilterDefinitions,
    clips: ClipPathDefinitions,
    extension: bool,
) -> Seq<PlanStepView>
    decreases nodes.len() - id, 1int, 0int,
{
    if !(0 <= id < nodes.len()) {
        Seq::empty()
    } else {
        let element = nodes[id].element;
        if is_definition_container_kind(element.kind) || (is_3d_kind(element.kind) && !extension) {
            Seq::empty()
        } else {
            match filter_outcome(filters, element.attributes@) {
                Some(Some(f)) => seq![
                    PlanStepView::Filtered(
                        id,
                        f,
                        referenced_definition(
                            clips.entries_view(),
                            element.attributes@,
                            "clip-path"@,
                        ),
                        chain_generates(nodes, f),
                        chain_rewired(nodes, f),
                    ),
                ],
                Some(None) => seq![PlanStepView::Dropped(id)],
                None => if element.kind is Surface {
                    seq![PlanStepView::Draw(id)]
                } else {
                    seq![PlanStepView::Draw(id)] + children_plan(
                        nodes,
                        id,
                        0,
                        filters,
                        clips,
                        extension,
                    )
                },
            }
        }
    }
}

/// The plans of the children of node `id` from the `j`-th on, in order.
pub open spec fn children_plan(
    nodes: Seq<Node>,
    id: int,
    j: int,
    filters: FilterDefinitions,
    clips: ClipPathDefinitions,
    extension: bool,
) -> Seq<PlanStepView>
    decreases nodes.len() - id, 0int, nodes[id].children@.len() - j,
{
    if !(0 <= id < nodes.len()) || j < 0 || j >= nodes[id].children@.len() {
        Seq::empty()
    } else {
        let c = nodes[id].children@[j].idx();
        let first = if id < c < nodes.len() {
            node_plan(nodes, c, filters, clips, extension)
        } else {
            Seq::empty()
        };
        first + children_plan(nodes, id, j + 1, filters, clips, extension)
    }
}

/// Whether a filter child makes content of its own, whatever its input:
/// an `<feFlood>`, an `<feTurbulence>`, or an `<feImage>` that names an
/// image (`href` or `xlink:href`).
pub open spec fn makes_own_content(element: Element) -> bool {
    element.kind is FeFlood || element.kind is FeTurbulence || (element.kind is FeImage && (
    element.attributes@.contains_key("href"@) || element.attributes@.contains_key("xlink:href"@)))
}

/// An element that the walk reaches and whose `filter` resolves to the
/// filter node `f` gives exactly one filtered step for itself and `f`; its
/// `generator` flag holds exactly when some child of `f` makes content of
/// its own (so an empty subtree is still painted by, say, a flood).
pub proof fn lemma_filtered_step_generator(
    nodes: Seq<Node>,
    id: int,
    filters: FilterDefinitions,
    clips: ClipPathDefinitions,
    extension: bool,
    f: int,
)
    requires
        0 <= id < nodes.len(),
        0 <= f < nodes.len(),
        !is_definition_container_kind(nodes[id].element.kind),
        !(is_3d_kind(nodes[id].element.kind) && !extension),
        filter_outcome(filters, nodes[id].element.attributes@) == Some(Some(f)),
    ensures
        node_plan(nodes, id, filters, clips, extension).len() == 1,
        node_plan(nodes, id, filters, clips, extension)[0] matches PlanStepView::Filtered(
            n,
            g,
            _,
            generator,
            _,
        ) && n == id && g == f && (generator <==> exists|j: int|
            0 <= j < nodes[f].children@.len() && 0 <= #[trigger] nodes[f].children@[j].idx() < nodes.len()
                && makes_own_content(nodes[nodes[f].children@[j].idx()].element)),
{
    assert forall|e: Element| primitive_generates(e) <==> makes_own_content(e) by {
    }
    if chain_generates(nodes, f) {
        let j = choose|j: int|
            0 <= j < nodes[f].children@.len() && 0 <= #[trigger] nodes[f].children@[j].idx() < nodes.len()
                && primitive_generates(nodes[nodes[f].children@[j].idx()].element);
        assert(makes_own_content(nodes[nodes[f].children@[j].idx()].element));
    }
    if exists|j: int|
        0 <= j < nodes[f].children@.len() && 0 <= #[trigger] nodes[f].children@[j].idx() < nodes.len()
            && makes_own_content(nodes[nodes[f].children@[j].idx()].element) {
        let j = choose|j: int|
            0 <= j < nodes[f].children@.len() && 0 <= #[trigger] nodes[f].children@[j].idx() < nodes.len()
                && makes_own_content(nodes[nodes[f].children@[j].idx()].element);
        assert(primitive_generates(nodes[nodes[f].children@[j].idx()].element));
    }
}

/// Append the plan of the subtree at `id` to `plan`.
fn append_plan(
    document: &Document,
    id: NodeId,
    filters: &FilterDefinitions,
    clips: &ClipPathDefinitions,
    extension: bool,
    plan: &mut Vec<PlanStep>,
)
    requires
        document.wf(),
        filters.wf(),
        document.contains(id),
    ensures
        plan_view(final(plan)@) == plan_view(old(plan)@) + node_plan(
            document.nodes_view(),
            id.idx(),
            *filters,
            *clips,
            extension,
        ),
    decreases document.nodes_view().len() - id.idx(),
{
    let ghost nodes = document.nodes_view();
    let ghost start = plan_view(plan@);
    let node = document.node(id);
    let kind = &node.element.kind;
    if is_definition_container(kind) || (is_svg3_3d_element(kind) && !extension) {
        assert(plan_view(plan@) =~= start + Seq::<PlanStepView>::empty());
        return;
    }
    let clip = clips.resolve(&node.element);
    match filters.resolve(&node.element) {
        Some(FilterTarget::Chain(filter)) => {
            let (generator, rewired) = if filter.index() < document.len() {
                chain_flags(document, filter)
            } else {
                (false, false)
            };
            plan.push(PlanStep::Filtered { node: id, filter, clip, generator, rewired });
            assert(plan_view(plan@) =~= start + node_plan(nodes, id.idx(), *filters, *clips, extension));
            return;
        },
        Some(FilterTarget::EmptyTransparent) => {
            plan.push(PlanStep::Dropped(id));
            assert(plan_view(plan@) =~= start + node_plan(nodes, id.idx(), *filters, *clips, extension));
            return;
        },
        None => {},
    }
    plan.push(PlanStep::Draw(id));
    if owns_children(kind) {
        assert(plan_view(plan@) =~= start + node_plan(nodes, id.idx(), *filters, *clips, extension));
        return;
    }
    let ghost target = start + node_plan(nodes, id.idx(), *filters, *clips, extension);
    let count = node.children.len();
    let mut j: usize = 0;
    assert(plan_view(plan@) + children_plan(nodes, id.idx(), 0, *filters, *clips, extension)
        =~= target);
    while j < count
        invariant
            document.wf(),
            filters.wf(),
            document.contains(id),
            nodes == document.nodes_view(),
            *node == nodes[id.idx()],
            count == node.children@.len(),
            j <= count,
            plan_view(plan@) + children_plan(nodes, id.idx(), j as int, *filters, *clips, extension)
                == target,
        decreases count - j,
    {
        let child = node.children[j];
        let ghost before = plan_view(plan@);
        assert(id.idx() < child.idx() < nodes.len());
        append_plan(document, child, filters, clips, extension, plan);
        assert(children_plan(nodes, id.idx(), j as int, *filters, *clips, extension) == node_plan(
            nodes,
            child.idx(),
            *filters,
            *clips,
            extension,
        ) + children_plan(nodes, id.idx(), j + 1, *filters, *clips, extension));
        assert(plan_view(plan@) + children_plan(nodes, id.idx(), j + 1, *filters, *clips, extension)
            =~= before + children_plan(nodes, id.idx(), j as int, *filters, *clips, extension));
        j = j + 1;
    }
    assert(plan_view(plan@) =~= target);
}

/// The render plan of `document`: the plans of the root's children, in
/// order (see [`node_plan`]), with svg3's 3D elements kept only where
/// `extension` is on.
pub fn render_plan(
    document: &Document,
    filters: &FilterDefinitions,
    clips: &ClipPathDefinitions,
    extension: bool,
) -> (r: Vec<PlanStep>)
    requires
        document.wf(),
        filters.wf(),
    ensures
        plan_view(r@) == children_plan(
            document.nodes_view(),
            document.root_view().idx(),
            0,
            *filters,
            *clips,
            extension,
        ),
{
    let ghost nodes = document.nodes_view();
    let root = document.root();
    let node = document.node(root);
    let count = node.children.len();
    let mut plan: Vec<PlanStep> = Vec::new();
    let ghost target = children_plan(nodes, root.idx(), 0, *filters, *clips, extension);
    let mut j: usize = 0;
    assert(plan_view(plan@) + target =~= target);
    while j < count
        invariant
            document.wf(),
            filters.wf(),
            nodes == document.nodes_view(),
            root == document.root_view(),
            *node == nodes[root.idx()],
            count == node.children@.len(),
            j <= count,
            plan_view(plan@) + children_plan(nodes, root.idx(), j as int, *filters, *clips, extension)
                == target,
        decreases count - j,
    {
        let child = node.children[j];
        let ghost before = plan_view(plan@);
        assert(root.idx() < child.idx() < nodes.len());
        append_plan(document, child, filters, clips, extension, &mut plan);
        assert(children_plan(nodes, root.idx(), j as int, *filters, *clips, extension) == node_plan(
            nodes,
            child.idx(),
            *filters,
            *clips,
            extension,
        ) + children_plan(nodes, root.idx(), j + 1, *filters, *clips, extension));
        assert(plan_view(plan@) + children_plan(nodes, root.idx(), j + 1, *filters, *clips, extension)
            =~= before + children_plan(nodes, root.idx(), j as int, *filters, *clips, extension));
        j = j + 1;
    }
    assert(plan_view(plan@) =~= target);
    plan
}

/// Whether `filters` holds exactly the `<filter>` definitions of
/// `document`, as [`FilterDefinitions::collect`] gathers them.
pub open spec fn filters_of(filters: FilterDefinitions, document: Document) -> bool {
    &&& filters.wf()
    &&& filters.entries_view() == definitions_of(document, DefinitionSet::Filters)
    &&& forall|i: int|
        0 <= i < filters.entries_view().len() ==> #[trigger] filters.prims_view()[i]
            == has_primitives(document.nodes_view(), filters.entries_view()[i].1)
    &&& forall|i: int|
        0 <= i < filters.entries_view().len() ==> #[trigger] filters.hrefs_view()[i] == href_target(
            document.nodes_view()[filters.entries_view()[i].1].element.attributes@,
        )
}

/// The render plan of `document` with its own `<filter>` and `<clipPath>`
/// definitions, and svg3's 3D elements kept only where the root enables the
/// extension.
pub fn build_render_plan(document: &Document) -> (r: Vec<PlanStep>)
    requires
        document.wf(),
    ensures
        exists|filters: FilterDefinitions, clips: ClipPathDefinitions|
            #![trigger filters_of(filters, *document), clips.entries_view()]
            filters_of(filters, *document) && clips.entries_view() == definitions_of(
                *document,
                DefinitionSet::ClipPaths,
            ) && plan_view(r@) == children_plan(
                document.nodes_view(),
                document.root_view().idx(),
                0,
                filters,
                clips,
                extension_enabled(*document),
            ),
{
    let filters = FilterDefinitions::collect(document);
    let clips = ClipPathDefinitions::collect(document);
    let extension = document.svg3_extension_enabled();
    let r = render_plan(document, &filters, &clips, extension);
    assert(filters_of(filters, *document));
    assert(clips.entries_view() == definitions_of(*document, DefinitionSet::ClipPaths));
    r
}

/// Whether the root of `document` enables the svg3 extension (see
/// [`Document::svg3_extension_enabled`]).
pub open spec fn extension_enabled(document: Document) -> bool {
    document.node_at(document.root_view()).element.attributes@.contains_key("extension"@) && trim(
        document.node_at(document.root_view()).element.attributes@["extension"@],
    ) == "pupiltong"@
}

} // verus!
