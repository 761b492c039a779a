//! The parts of `<filter>`, `<clipPath>` and `<mask>` resolution that do
//! not involve geometry: primitive inputs and outputs, keyword attributes,
//! definition lookup and the `href` inheritance of filter definitions.
use vstd::prelude::*;

use crate::definitions::{
    definitions_of, first_node, first_position, lemma_first_position_from, DefinitionIndex,
    DefinitionSet,
};
use crate::dom::{Document, Element, ElementKind, Node, NodeId};
use crate::references::{filter_href_target, href_target, reference_id, url_reference_id};
use crate::text::{
    ascii_lower, ascii_upper, chars_of, eq_ignore_case, eq_ignore_ascii_case, first_word,
    first_word_range, range_eq, range_eq_ignore_case, range_lower_eq, range_upper_eq, str_eq, trim,
    trim_range, trim_str,
};

verus! {

broadcast use NodeId::lemma_idx_range;

/// One of a filter primitive's `in` / `in2` input references.
#[derive(Debug, Clone, PartialEq, Eq)]
pub enum FilterInput {
    /// Attribute absent or empty: the previous primitive's result, or the
    /// source graphic for the first primitive.
    Default,
    /// `SourceGraphic`.
    SourceGraphic,
    /// `SourceAlpha`.
    SourceAlpha,
    /// `BackgroundImage`.
    BackgroundImage,
    /// `BackgroundAlpha`.
    BackgroundAlpha,
    /// `FillPaint`.
    FillPaint,
    /// `StrokePaint`.
    StrokePaint,
    /// A named earlier primitive's `result`.
    Named(String),
}

/// [`FilterInput`] with the name as a character sequence.
pub enum FilterInputView {
    Default,
    SourceGraphic,
    SourceAlpha,
    BackgroundImage,
    BackgroundAlpha,
    FillPaint,
    StrokePaint,
    Named(Seq<char>),
}

impl View for FilterInput {
    type V = FilterInputView;

    open spec fn view(&self) -> FilterInputView {
        match self {
            FilterInput::Default => FilterInputView::Default,
            FilterInput::SourceGraphic => FilterInputView::SourceGraphic,
            FilterInput::SourceAlpha => FilterInputView::SourceAlpha,
            FilterInput::BackgroundImage => FilterInputView::BackgroundImage,
            FilterInput::BackgroundAlpha => FilterInputView::BackgroundAlpha,
            FilterInput::FillPaint => FilterInputView::FillPaint,
            FilterInput::StrokePaint => FilterInputView::StrokePaint,
            FilterInput::Named(name) => FilterInputView::Named(name@),
        }
    }
}

/// The input named by an `in` / `in2` value: absent or blank is the
/// default, the pseudo-input keywords are matched exactly after trimming,
/// anything else names an earlier result.
pub open spec fn filter_input_spec(value: Option<Seq<char>>) -> FilterInputView {
    match value {
        None => FilterInputView::Default,
        Some(v) => {
            let t = trim(v);
            if t.len() == 0 {
                FilterInputView::Default
            } else if t == "SourceGraphic"@ {
                FilterInputView::SourceGraphic
            } else if t == "SourceAlpha"@ {
                FilterInputView::SourceAlpha
            } else if t == "BackgroundImage"@ {
                FilterInputView::BackgroundImage
            } else if t == "BackgroundAlpha"@ {
                FilterInputView::BackgroundAlpha
            } else if t == "FillPaint"@ {
                FilterInputView::FillPaint
            } else if t == "StrokePaint"@ {
                FilterInputView::StrokePaint
            } else {
                FilterInputView::Named(t)
            }
        },
    }
}

/// The character view of an optional string slice.
pub open spec fn opt_view(value: Option<&str>) -> Option<Seq<char>> {
    match value {
        Some(s) => Some(s@),
        None => None,
    }
}

/// The character view of an optional attribute value.
pub open spec fn attr_view(attributes: Map<Seq<char>, Seq<char>>, name: Seq<char>) -> Option<Seq<char>> {
    if attributes.contains_key(name) {
        Some(attributes[name])
    } else {
        None
    }
}

impl FilterInput {
    /// Parse an `in` / `in2` attribute value (see [`filter_input_spec`]).
    pub fn parse(value: Option<&str>) -> (r: Self)
        ensures
            r@ == filter_input_spec(opt_view(value)),
    {
        let value = match value {
            Some(value) => value,
            None => return FilterInput::Default,
        };
        let t = trim_str(value);
        if t.unicode_len() == 0 {
            FilterInput::Default
        } else if str_eq(t, "SourceGraphic") {
            FilterInput::SourceGraphic
        } else if str_eq(t, "SourceAlpha") {
            FilterInput::SourceAlpha
        } else if str_eq(t, "BackgroundImage") {
            FilterInput::BackgroundImage
        } else if str_eq(t, "BackgroundAlpha") {
            FilterInput::BackgroundAlpha
        } else if str_eq(t, "FillPaint") {
            FilterInput::FillPaint
        } else if str_eq(t, "StrokePaint") {
            FilterInput::StrokePaint
        } else {
            FilterInput::Named(t.to_owned())
        }
    }
}

/// The input and output names of one filter primitive.
#[derive(Debug, Clone, PartialEq, Eq)]
pub struct PrimitiveLinks {
    /// The `in` input.
    pub input: FilterInput,
    /// The `in2` input.
    pub input2: FilterInput,
    /// The trimmed, non-empty `result` name, if any.
    pub result: Option<String>,
}

/// The trimmed `result` name of a primitive, if present and not blank.
pub open spec fn result_name(attributes: Map<Seq<char>, Seq<char>>) -> Option<Seq<char>> {
    if attributes.contains_key("result"@) && trim(attributes["result"@]).len() > 0 {
        Some(trim(attributes["result"@]))
    } else {
        None
    }
}

/// Read a primitive's `in`, `in2` and `result` attributes.
pub fn primitive_links(element: &Element) -> (r: PrimitiveLinks)
    ensures
        r.input@ == filter_input_spec(attr_view(element.attributes@, "in"@)),
        r.input2@ == filter_input_spec(attr_view(element.attributes@, "in2"@)),
        r.result matches Some(s) ==> result_name(element.attributes@) == Some(s@),
        r.result is None ==> result_name(element.attributes@) is None,
{
    let input = match element.attributes.get("in") {
        Some(v) => FilterInput::parse(Some(v.as_str())),
        None => FilterInput::parse(None),
    };
    let input2 = match element.attributes.get("in2") {
        Some(v) => FilterInput::parse(Some(v.as_str())),
        None => FilterInput::parse(None),
    };
    let result = match element.attributes.get("result") {
        Some(v) => {
            let t = trim_str(v.as_str());
            if t.unicode_len() > 0 {
                Some(t.to_owned())
            } else {
                None
            }
        },
        None => None,
    };
    PrimitiveLinks { input, input2, result }
}

/// What a primitive reads for one of its inputs.
#[derive(Debug, Clone, Copy, PartialEq, Eq, Structural)]
pub enum InputSource {
    /// The filtered content.
    SourceGraphic,
    /// The alpha channel of the filtered content.
    SourceAlpha,
    /// The output of the primitive at this position in the chain.
    Output(usize),
}

/// The position of the latest primitive whose `result` is `name`, among
/// the `(result, position)` registrations `named`, in registration order.
pub open spec fn latest_result(named: Seq<(Seq<char>, usize)>, name: Seq<char>) -> Option<usize>
    decreases named.len(),
{
    if named.len() == 0 {
        None
    } else if named.last().0 == name {
        Some(named.last().1)
    } else {
        latest_result(named.drop_last(), name)
    }
}

/// The source an input resolves to, given the previous primitive's
/// position (if any) and the results registered so far. An unresolvable
/// reference reads the source graphic; the background pseudo-inputs read
/// the source graphic or its alpha, and the paint pseudo-inputs the
/// source graphic.
pub open spec fn input_source(input: FilterInputView, prev_index: Option<usize>, named: Seq<(Seq<char>, usize)>) -> InputSource {
    match input {
        FilterInputView::Default => match prev_index {
            Some(i) => InputSource::Output(i),
            None => InputSource::SourceGraphic,
        },
        FilterInputView::SourceAlpha | FilterInputView::BackgroundAlpha => InputSource::SourceAlpha,
        FilterInputView::Named(name) => match latest_result(named, name) {
            Some(i) => InputSource::Output(i),
            None => InputSource::SourceGraphic,
        },
        _ => InputSource::SourceGraphic,
    }
}

/// The character view of result registrations.
pub open spec fn registrations_view(named: Seq<(String, usize)>) -> Seq<(Seq<char>, usize)> {
    named.map_values(|e: (String, usize)| (e.0@, e.1))
}

/// Resolve a primitive's input reference to what it reads (see
/// [`input_source`]). `named` lists `(result, position)` registrations in
/// the order the chain made them; a later registration of a name wins.
pub fn resolve_input(input: &FilterInput, prev_index: Option<usize>, named: &[(String, usize)]) -> (r: InputSource)
    ensures
        r == input_source(input@, prev_index, registrations_view(named@)),
{
    match input {
        FilterInput::Default => match prev_index {
            Some(i) => InputSource::Output(i),
            None => InputSource::SourceGraphic,
        },
        FilterInput::SourceAlpha | FilterInput::BackgroundAlpha => InputSource::SourceAlpha,
        FilterInput::Named(name) => {
            let ghost view = registrations_view(named@);
            let mut i: usize = named.len();
            proof {
                assert(view.take(named@.len() as int) =~= view);
            }
            while i > 0
                invariant
                    i <= named@.len(),
                    view == registrations_view(named@),
                    input@ == FilterInputView::Named(name@),
                    latest_result(view, name@) == latest_result(view.take(i as int), name@),
                decreases i,
            {
                proof {
                    assert(view.take(i as int).drop_last() =~= view.take(i - 1));
                    assert(view.take(i as int).last() == view[i - 1]);
                    assert(view[i - 1] == (named@[i - 1].0@, named@[i - 1].1));
                }
                if str_eq(named[i - 1].0.as_str(), name.as_str()) {
                    proof {
                        let t = view.take(i as int);
                        assert(t.last().0 == name@);
                        assert(latest_result(t, name@) == Some(named@[i - 1].1));
                    }
                    return InputSource::Output(named[i - 1].1);
                }
                i = i - 1;
            }
            proof {
                assert(view.take(0) =~= Seq::<(Seq<char>, usize)>::empty());
            }
            InputSource::SourceGraphic
        },
        _ => InputSource::SourceGraphic,
    }
}

/// The `(result, position)` registrations that the first `count`
/// primitives of a chain make, in chain order: each primitive with a
/// `result` name registers it at its own position.
pub open spec fn chain_registrations(links: Seq<PrimitiveLinks>, count: int) -> Seq<(Seq<char>, usize)>
    decreases count,
{
    if count <= 0 {
        Seq::empty()
    } else {
        let before = chain_registrations(links, count - 1);
        match links[count - 1].result {
            Some(name) => before.push((name@, (count - 1) as usize)),
            None => before,
        }
    }
}

/// The previous primitive's position for the primitive at `position`.
pub open spec fn previous_position(position: int) -> Option<usize> {
    if position <= 0 {
        None
    } else {
        Some((position - 1) as usize)
    }
}

/// What each primitive of a chain reads, in chain order: its `in` and
/// `in2`, resolved (see [`input_source`]) against the previous primitive
/// and the `result` names that the primitives before it registered, a
/// later registration of a name winning.
pub fn wire_chain(links: &[PrimitiveLinks]) -> (r: Vec<(InputSource, InputSource)>)
    ensures
        r@.len() == links@.len(),
        forall|i: int|
            0 <= i < links@.len() ==> #[trigger] r@[i] == (
                input_source(links@[i].input@, previous_position(i), chain_registrations(links@, i)),
                input_source(links@[i].input2@, previous_position(i), chain_registrations(links@, i)),
            ),
{
    let mut named: Vec<(String, usize)> = Vec::new();
    let mut wired: Vec<(InputSource, InputSource)> = Vec::new();
    let mut prev_index: Option<usize> = None;
    let mut i: usize = 0;
    assert(registrations_view(named@) =~= chain_registrations(links@, 0));
    while i < links.len()
        invariant
            i <= links@.len(),
            wired@.len() == i,
            prev_index == previous_position(i as int),
            registrations_view(named@) == chain_registrations(links@, i as int),
            forall|k: int|
                0 <= k < i ==> #[trigger] wired@[k] == (
                    input_source(links@[k].input@, previous_position(k), chain_registrations(links@, k)),
                    input_source(links@[k].input2@, previous_position(k), chain_registrations(links@, k)),
                ),
        decreases links@.len() - i,
    {
        let link = &links[i];
        let first = resolve_input(&link.input, prev_index, named.as_slice());
        let second = resolve_input(&link.input2, prev_index, named.as_slice());
        wired.push((first, second));
        match &link.result {
            Some(name) => {
                let ghost before = named@;
                named.push((name.clone(), i));
                assert(registrations_view(named@) =~= registrations_view(before).push((name@, i)));
            },
            None => {},
        }
        prev_index = Some(i);
        i = i + 1;
    }
    wired
}

/// Whether a filter child becomes a primitive: one of the supported
/// primitive kinds, `<feImage>` only with an `href` or `xlink:href`.
pub open spec fn is_supported_primitive(element: Element) -> bool {
    match element.kind {
        ElementKind::FeImage => element.attributes@.contains_key("href"@)
            || element.attributes@.contains_key("xlink:href"@),
        ElementKind::FeGaussianBlur | ElementKind::FeColorMatrix | ElementKind::FeTurbulence
        | ElementKind::FeSpecularLighting | ElementKind::FeDiffuseLighting
        | ElementKind::FeMorphology | ElementKind::FeFlood | ElementKind::FeDropShadow
        | ElementKind::FeDisplacementMap | ElementKind::FeConvolveMatrix
        | ElementKind::FeComponentTransfer | ElementKind::FeOffset | ElementKind::FeMerge
        | ElementKind::FeBlend | ElementKind::FeComposite | ElementKind::FeTile => true,
        _ => false,
    }
}

/// Executable [`is_supported_primitive`].
pub fn is_supported_primitive_exec(element: &Element) -> (r: bool)
    ensures
        r == is_supported_primitive(*element),
{
    match element.kind {
        ElementKind::FeImage => element.attributes.contains_key("href")
            || element.attributes.contains_key("xlink:href"),
        ElementKind::FeGaussianBlur | ElementKind::FeColorMatrix | ElementKind::FeTurbulence
        | ElementKind::FeSpecularLighting | ElementKind::FeDiffuseLighting
        | ElementKind::FeMorphology | ElementKind::FeFlood | ElementKind::FeDropShadow
        | ElementKind::FeDisplacementMap | ElementKind::FeConvolveMatrix
        | ElementKind::FeComponentTransfer | ElementKind::FeOffset | ElementKind::FeMerge
        | ElementKind::FeBlend | ElementKind::FeComposite | ElementKind::FeTile => true,
        _ => false,
    }
}

/// The image an `<feImage>` shows: its `href`, else its legacy
/// `xlink:href`.
pub fn fe_image_href(element: &Element) -> (r: Option<&String>)
    ensures
        r matches Some(h) ==> (if element.attributes@.contains_key("href"@) {
            h@ == element.attributes@["href"@]
        } else {
            element.attributes@.contains_key("xlink:href"@) && h@ == element.attributes@["xlink:href"@]
        }),
        r is None ==> !element.attributes@.contains_key("href"@) && !element.attributes@.contains_key(
            "xlink:href"@,
        ),
{
    match element.attributes.get("href") {
        Some(h) => Some(h),
        None => element.attributes.get("xlink:href"),
    }
}

/// Whether some child of node `id` is a supported primitive.
pub open spec fn has_primitives(nodes: Seq<Node>, id: int) -> bool {
    exists|j: int|
        0 <= j < nodes[id].children@.len() && 0 <= #[trigger] nodes[id].children@[j].idx() < nodes.len()
            && is_supported_primitive(nodes[nodes[id].children@[j].idx()].element)
}

/// Whether the `<filter>` node `id` has a supported primitive child.
pub fn filter_has_primitives(document: &Document, id: NodeId) -> (r: bool)
    requires
        document.wf(),
        document.contains(id),
    ensures
        r == has_primitives(document.nodes_view(), id.idx()),
{
    let children = &document.node(id).children;
    let mut j: usize = 0;
    while j < children.len()
        invariant
            document.wf(),
            document.contains(id),
            *children == document.node_at(id).children,
            j <= children@.len(),
            forall|k: int|
                0 <= k < j ==> !is_supported_primitive(
                    document.nodes_view()[#[trigger] children@[k].idx()].element,
                ),
        decreases children@.len() - j,
    {
        let child = children[j];
        assert(document.contains(child));
        if is_supported_primitive_exec(document.element(child)) {
            return true;
        }
        j = j + 1;
    }
    false
}

/// The inputs of the `<feMergeNode>` children among `children`, in order.
pub open spec fn merge_spec(nodes: Seq<Node>, children: Seq<NodeId>) -> Seq<FilterInputView>
    decreases children.len(),
{
    if children.len() == 0 {
        Seq::empty()
    } else {
        let before = merge_spec(nodes, children.drop_last());
        let e = nodes[children.last().idx()].element;
        if e.kind is FeMergeNode {
            before.push(filter_input_spec(attr_view(e.attributes@, "in"@)))
        } else {
            before
        }
    }
}

/// The inputs of an `<feMerge>`: one per `<feMergeNode>` child, in order.
pub fn parse_merge(document: &Document, id: NodeId) -> (r: Vec<FilterInput>)
    requires
        document.wf(),
        document.contains(id),
    ensures
        r@.map_values(|i: FilterInput| i@) == merge_spec(
            document.nodes_view(),
            document.node_at(id).children@,
        ),
{
    let children = &document.node(id).children;
    let mut inputs: Vec<FilterInput> = Vec::new();
    let mut j: usize = 0;
    while j < children.len()
        invariant
            document.wf(),
            document.contains(id),
            *children == document.node_at(id).children,
            j <= children@.len(),
            inputs@.map_values(|i: FilterInput| i@) == merge_spec(
                document.nodes_view(),
                children@.take(j as int),
            ),
        decreases children@.len() - j,
    {
        let child = children[j];
        assert(document.contains(child));
        let element = document.element(child);
        assert(children@.take(j + 1).drop_last() =~= children@.take(j as int));
        if let ElementKind::FeMergeNode = element.kind {
            let input = match element.attributes.get("in") {
                Some(v) => FilterInput::parse(Some(v.as_str())),
                None => FilterInput::parse(None),
            };
            inputs.push(input);
            assert(inputs@.map_values(|i: FilterInput| i@) =~= merge_spec(
                document.nodes_view(),
                children@.take(j as int),
            ).push(input@));
        }
        j = j + 1;
    }
    assert(children@.take(children@.len() as int) =~= children@);
    inputs
}

/// SVG `preserveAspectRatio` alignment positions.
#[derive(Debug, Clone, Copy, PartialEq, Eq, Structural)]
pub enum AspectAlign {
    XMinYMin,
    XMidYMin,
    XMaxYMin,
    XMinYMid,
    XMidYMid,
    XMaxYMid,
    XMinYMax,
    XMidYMax,
    XMaxYMax,
}

/// A parsed `preserveAspectRatio`.
#[derive(Debug, Clone, Copy, PartialEq, Eq, Structural)]
pub enum PreserveAspect {
    /// `none`: stretch to fill.
    Stretch,
    /// Keep the aspect ratio, aligned; `slice` covers instead of fitting.
    Aligned { align: AspectAlign, slice: bool },
}

impl PreserveAspect {
    /// The SVG default, `xMidYMid meet`.
    pub open spec fn default_spec() -> Self {
        PreserveAspect::Aligned { align: AspectAlign::XMidYMid, slice: false }
    }

    /// The SVG default, `xMidYMid meet`.
    pub fn default_aspect() -> (r: Self)
        ensures
            r == Self::default_spec(),
    {
        PreserveAspect::Aligned { align: AspectAlign::XMidYMid, slice: false }
    }
}

/// The alignment named by a keyword; unrecognised keywords mean the
/// default `xMidYMid`.
pub open spec fn align_of(word: Seq<char>) -> AspectAlign {
    if word == "xMinYMin"@ {
        AspectAlign::XMinYMin
    } else if word == "xMidYMin"@ {
        AspectAlign::XMidYMin
    } else if word == "xMaxYMin"@ {
        AspectAlign::XMaxYMin
    } else if word == "xMinYMid"@ {
        AspectAlign::XMinYMid
    } else if word == "xMidYMid"@ {
        AspectAlign::XMidYMid
    } else if word == "xMaxYMid"@ {
        AspectAlign::XMaxYMid
    } else if word == "xMinYMax"@ {
        AspectAlign::XMinYMax
    } else if word == "xMidYMax"@ {
        AspectAlign::XMidYMax
    } else if word == "xMaxYMax"@ {
        AspectAlign::XMaxYMax
    } else {
        AspectAlign::XMidYMid
    }
}

/// `preserveAspectRatio` read from its whitespace-separated words: no word
/// is the default; a first word `none` (any case) stretches; otherwise the
/// first word aligns and a second word `slice` (any case) slices.
pub open spec fn preserve_aspect_spec(value: Seq<char>) -> PreserveAspect {
    match first_word(value) {
        None => PreserveAspect::default_spec(),
        Some((word, rest)) => if eq_ignore_case(word, "none"@) {
            PreserveAspect::Stretch
        } else {
            PreserveAspect::Aligned {
                align: align_of(word),
                slice: match first_word(rest) {
                    Some((second, _)) => ascii_lower(second) == "slice"@,
                    None => false,
                },
            }
        },
    }
}

/// Parse a `preserveAspectRatio` value (see [`preserve_aspect_spec`]).
pub fn parse_preserve_aspect_ratio(value: &str) -> (r: PreserveAspect)
    ensures
        r == preserve_aspect_spec(value@),
{
    let v = chars_of(value);
    let n = v.len();
    assert(v@.subrange(0, n as int) =~= value@);
    let (a, b) = match first_word_range(&v, 0, n) {
        Some(range) => range,
        None => return PreserveAspect::default_aspect(),
    };
    if range_eq_ignore_case(&v, a, b, "none") {
        return PreserveAspect::Stretch;
    }
    let align = if range_eq(&v, a, b, "xMinYMin") {
        AspectAlign::XMinYMin
    } else if range_eq(&v, a, b, "xMidYMin") {
        AspectAlign::XMidYMin
    } else if range_eq(&v, a, b, "xMaxYMin") {
        AspectAlign::XMaxYMin
    } else if range_eq(&v, a, b, "xMinYMid") {
        AspectAlign::XMinYMid
    } else if range_eq(&v, a, b, "xMidYMid") {
        AspectAlign::XMidYMid
    } else if range_eq(&v, a, b, "xMaxYMid") {
        AspectAlign::XMaxYMid
    } else if range_eq(&v, a, b, "xMinYMax") {
        AspectAlign::XMinYMax
    } else if range_eq(&v, a, b, "xMidYMax") {
        AspectAlign::XMidYMax
    } else if range_eq(&v, a, b, "xMaxYMax") {
        AspectAlign::XMaxYMax
    } else {
        AspectAlign::XMidYMid
    };
    let slice = match first_word_range(&v, b, n) {
        Some((c, d)) => range_lower_eq(&v, c, d, "slice"),
        None => false,
    };
    PreserveAspect::Aligned { align, slice }
}

/// Channel selectors of `<feDisplacementMap>`.
pub const CH_R: u32 = 0;

pub const CH_G: u32 = 1;

pub const CH_B: u32 = 2;

pub const CH_A: u32 = 3;

/// The channel named by a `xChannelSelector` / `yChannelSelector` value:
/// `R`, `G`, `B` in either case after trimming, anything else (and an
/// absent value) alpha.
pub open spec fn channel_spec(value: Option<Seq<char>>) -> u32 {
    match value {
        None => CH_A,
        Some(v) => {
            let u = ascii_upper(trim(v));
            if u == "R"@ {
                CH_R
            } else if u == "G"@ {
                CH_G
            } else if u == "B"@ {
                CH_B
            } else {
                CH_A
            }
        },
    }
}

/// Parse a channel selector (see [`channel_spec`]).
pub fn parse_channel(value: Option<&String>) -> (r: u32)
    ensures
        r == channel_spec(match value {
            Some(s) => Some(s@),
            None => None,
        }),
{
    let value = match value {
        Some(value) => value,
        None => return CH_A,
    };
    let v = chars_of(value.as_str());
    assert(v@.subrange(0, v@.len() as int) =~= value@);
    let (a, b) = trim_range(&v, 0, v.len());
    if range_upper_eq(&v, a, b, "R") {
        CH_R
    } else if range_upper_eq(&v, a, b, "G") {
        CH_G
    } else if range_upper_eq(&v, a, b, "B") {
        CH_B
    } else {
        CH_A
    }
}

/// `<feConvolveMatrix>` edge modes.
pub const EDGE_MODE_DUPLICATE: u32 = 0;

pub const EDGE_MODE_WRAP: u32 = 1;

pub const EDGE_MODE_NONE: u32 = 2;

/// The edge mode of an already lower-cased keyword; unrecognised values
/// mean `duplicate`.
pub open spec fn edge_mode_spec(value: Seq<char>) -> u32 {
    if value == "wrap"@ {
        EDGE_MODE_WRAP
    } else if value == "none"@ {
        EDGE_MODE_NONE
    } else {
        EDGE_MODE_DUPLICATE
    }
}

/// Map a lower-cased `edgeMode` keyword to its code.
pub fn parse_edge_mode(value: &str) -> (r: u32)
    ensures
        r == edge_mode_spec(value@),
{
    if str_eq(value, "wrap") {
        EDGE_MODE_WRAP
    } else if str_eq(value, "none") {
        EDGE_MODE_NONE
    } else {
        EDGE_MODE_DUPLICATE
    }
}

/// The edge mode of an element: its `edgeMode` trimmed and lower-cased,
/// `duplicate` when absent.
pub fn edge_mode_of(element: &Element) -> (r: u32)
    ensures
        r == match attr_view(element.attributes@, "edgeMode"@) {
            Some(v) => edge_mode_spec(ascii_lower(trim(v))),
            None => EDGE_MODE_DUPLICATE,
        },
{
    match element.attributes.get("edgeMode") {
        Some(value) => {
            let v = chars_of(value.as_str());
            assert(v@.subrange(0, v@.len() as int) =~= value@);
            let (a, b) = trim_range(&v, 0, v.len());
            if range_lower_eq(&v, a, b, "wrap") {
                EDGE_MODE_WRAP
            } else if range_lower_eq(&v, a, b, "none") {
                EDGE_MODE_NONE
            } else {
                EDGE_MODE_DUPLICATE
            }
        },
        None => EDGE_MODE_DUPLICATE,
    }
}

/// `<feBlend>` modes.
pub const BLEND_MODE_NORMAL: u32 = 0;

pub const BLEND_MODE_MULTIPLY: u32 = 1;

pub const BLEND_MODE_SCREEN: u32 = 2;

pub const BLEND_MODE_DARKEN: u32 = 3;

pub const BLEND_MODE_LIGHTEN: u32 = 4;

/// The blend mode of an already lower-cased keyword; unrecognised values
/// mean `normal`.
pub open spec fn blend_mode_spec(value: Seq<char>) -> u32 {
    if value == "multiply"@ {
        BLEND_MODE_MULTIPLY
    } else if value == "screen"@ {
        BLEND_MODE_SCREEN
    } else if value == "darken"@ {
        BLEND_MODE_DARKEN
    } else if value == "lighten"@ {
        BLEND_MODE_LIGHTEN
    } else {
        BLEND_MODE_NORMAL
    }
}

/// Map a lower-cased `mode` keyword to its blend code.
pub fn parse_blend_mode(value: &str) -> (r: u32)
    ensures
        r == blend_mode_spec(value@),
{
    if str_eq(value, "multiply") {
        BLEND_MODE_MULTIPLY
    } else if str_eq(value, "screen") {
        BLEND_MODE_SCREEN
    } else if str_eq(value, "darken") {
        BLEND_MODE_DARKEN
    } else if str_eq(value, "lighten") {
        BLEND_MODE_LIGHTEN
    } else {
        BLEND_MODE_NORMAL
    }
}

/// The blend mode of an `<feBlend>`: its `mode` trimmed and lower-cased,
/// `normal` when absent.
pub fn parse_blend(element: &Element) -> (r: u32)
    ensures
        r == match attr_view(element.attributes@, "mode"@) {
            Some(v) => blend_mode_spec(ascii_lower(trim(v))),
            None => BLEND_MODE_NORMAL,
        },
{
    match element.attributes.get("mode") {
        Some(value) => {
            let v = chars_of(value.as_str());
            assert(v@.subrange(0, v@.len() as int) =~= value@);
            let (a, b) = trim_range(&v, 0, v.len());
            if range_lower_eq(&v, a, b, "multiply") {
                BLEND_MODE_MULTIPLY
            } else if range_lower_eq(&v, a, b, "screen") {
                BLEND_MODE_SCREEN
            } else if range_lower_eq(&v, a, b, "darken") {
                BLEND_MODE_DARKEN
            } else if range_lower_eq(&v, a, b, "lighten") {
                BLEND_MODE_LIGHTEN
            } else {
                BLEND_MODE_NORMAL
            }
        },
        None => BLEND_MODE_NORMAL,
    }
}

/// `<feComposite>` operators.
pub const COMPOSITE_OP_OVER: u32 = 0;

pub const COMPOSITE_OP_IN: u32 = 1;

pub const COMPOSITE_OP_OUT: u32 = 2;

pub const COMPOSITE_OP_ATOP: u32 = 3;

pub const COMPOSITE_OP_XOR: u32 = 4;

pub const COMPOSITE_OP_ARITHMETIC: u32 = 5;

/// The operator of an already lower-cased keyword; unrecognised values
/// mean `over`.
pub open spec fn composite_op_spec(value: Seq<char>) -> u32 {
    if value == "in"@ {
        COMPOSITE_OP_IN
    } else if value == "out"@ {
        COMPOSITE_OP_OUT
    } else if value == "atop"@ {
        COMPOSITE_OP_ATOP
    } else if value == "xor"@ {
        COMPOSITE_OP_XOR
    } else if value == "arithmetic"@ {
        COMPOSITE_OP_ARITHMETIC
    } else {
        COMPOSITE_OP_OVER
    }
}

/// Map a lower-cased `operator` keyword to its code.
pub fn parse_composite_op(value: &str) -> (r: u32)
    ensures
        r == composite_op_spec(value@),
{
    if str_eq(value, "in") {
        COMPOSITE_OP_IN
    } else if str_eq(value, "out") {
        COMPOSITE_OP_OUT
    } else if str_eq(value, "atop") {
        COMPOSITE_OP_ATOP
    } else if str_eq(value, "xor") {
        COMPOSITE_OP_XOR
    } else if str_eq(value, "arithmetic") {
        COMPOSITE_OP_ARITHMETIC
    } else {
        COMPOSITE_OP_OVER
    }
}

/// The operator of an `<feComposite>`: its `operator` trimmed and
/// lower-cased, `over` when absent.
pub fn composite_op_of(element: &Element) -> (r: u32)
    ensures
        r == match attr_view(element.attributes@, "operator"@) {
            Some(v) => composite_op_spec(ascii_lower(trim(v))),
            None => COMPOSITE_OP_OVER,
        },
{
    match element.attributes.get("operator") {
        Some(value) => {
            let v = chars_of(value.as_str());
            assert(v@.subrange(0, v@.len() as int) =~= value@);
            let (a, b) = trim_range(&v, 0, v.len());
            if range_lower_eq(&v, a, b, "in") {
                COMPOSITE_OP_IN
            } else if range_lower_eq(&v, a, b, "out") {
                COMPOSITE_OP_OUT
            } else if range_lower_eq(&v, a, b, "atop") {
                COMPOSITE_OP_ATOP
            } else if range_lower_eq(&v, a, b, "xor") {
                COMPOSITE_OP_XOR
            } else if range_lower_eq(&v, a, b, "arithmetic") {
                COMPOSITE_OP_ARITHMETIC
            } else {
                COMPOSITE_OP_OVER
            }
        },
        None => COMPOSITE_OP_OVER,
    }
}

/// Whether `value` is the `currentColor` keyword, in any case, trimmed.
pub fn is_current_color(value: &str) -> (r: bool)
    ensures
        r == eq_ignore_case(trim(value@), "currentColor"@),
{
    eq_ignore_ascii_case(trim_str(value), "currentColor")
}

/// The definition `element` references through attribute `name`: the
/// first definition whose id is the `url(#id)` in that attribute.
pub open spec fn referenced_definition(
    entries: Seq<(Seq<char>, int)>,
    attributes: Map<Seq<char>, Seq<char>>,
    name: Seq<char>,
) -> Option<int> {
    if attributes.contains_key(name) {
        match reference_id(attributes[name]) {
            Some(id) => first_node(entries, id),
            None => None,
        }
    } else {
        None
    }
}

/// `<clipPath>` definitions keyed by id.
pub struct ClipPathDefinitions {
    clips: DefinitionIndex,
}

impl ClipPathDefinitions {
    /// The collected `(id, node)` entries in document order.
    pub closed spec fn entries_view(&self) -> Seq<(Seq<char>, int)> {
        self.clips.entries_view()
    }

    /// Collect every `<clipPath>` of `document`.
    pub fn collect(document: &Document) -> (r: Self)
        requires
            document.wf(),
        ensures
            r.entries_view() == definitions_of(*document, DefinitionSet::ClipPaths),
    {
        ClipPathDefinitions { clips: DefinitionIndex::collect(document, DefinitionSet::ClipPaths) }
    }

    /// The clip path `element` references with `clip-path="url(#id)"`.
    pub fn resolve(&self, element: &Element) -> (r: Option<NodeId>)
        ensures
            r matches Some(n) ==> referenced_definition(self.entries_view(), element.attributes@, "clip-path"@)
                == Some(n.idx()),
            r is None ==> referenced_definition(self.entries_view(), element.attributes@, "clip-path"@) is None,
    {
        let raw = match element.attributes.get("clip-path") {
            Some(raw) => raw,
            None => return None,
        };
        let id = match url_reference_id(raw.as_str()) {
            Some(id) => id,
            None => return None,
        };
        self.clips.get(id)
    }
}

/// How a rendered mask becomes coverage.
#[derive(Debug, Clone, Copy, PartialEq, Eq, Structural)]
pub enum MaskMode {
    /// The mask's alpha.
    Alpha,
    /// The mask's luminance times its alpha.
    Luminance,
}

/// `mask-type`: `alpha` (any case, trimmed) selects alpha; anything else,
/// or no attribute, luminance.
pub open spec fn mask_mode_spec(attributes: Map<Seq<char>, Seq<char>>) -> MaskMode {
    if attributes.contains_key("mask-type"@) && eq_ignore_case(trim(attributes["mask-type"@]), "alpha"@) {
        MaskMode::Alpha
    } else {
        MaskMode::Luminance
    }
}

/// The mask mode of a `<mask>` element (see [`mask_mode_spec`]).
pub fn mask_mode(element: &Element) -> (r: MaskMode)
    ensures
        r == mask_mode_spec(element.attributes@),
{
    match element.attributes.get("mask-type") {
        Some(value) => if eq_ignore_ascii_case(trim_str(value.as_str()), "alpha") {
            MaskMode::Alpha
        } else {
            MaskMode::Luminance
        },
        None => MaskMode::Luminance,
    }
}

/// One referenced mask: its node and its mode.
#[derive(Debug, Clone, Copy, PartialEq, Eq, Structural)]
pub struct MaskDefinition {
    /// The `<mask>` node.
    pub node: NodeId,
    /// How its rendering becomes coverage.
    pub mode: MaskMode,
}

/// `<mask>` definitions keyed by id.
pub struct MaskDefinitions {
    masks: DefinitionIndex,
    modes: Vec<MaskMode>,
}

impl MaskDefinitions {
    /// The collected `(id, node)` entries in document order.
    pub closed spec fn entries_view(&self) -> Seq<(Seq<char>, int)> {
        self.masks.entries_view()
    }

    /// The mode of each entry.
    pub closed spec fn modes_view(&self) -> Seq<MaskMode> {
        self.modes@
    }

    /// Collect every `<mask>` of `document` with its mode.
    pub fn collect(document: &Document) -> (r: Self)
        requires
            document.wf(),
        ensures
            r.entries_view() == definitions_of(*document, DefinitionSet::Masks),
            r.modes_view().len() == r.entries_view().len(),
            forall|i: int|
                0 <= i < r.entries_view().len() ==> #[trigger] r.modes_view()[i] == mask_mode_spec(
                    document.nodes_view()[r.entries_view()[i].1].element.attributes@,
                ),
    {
        let masks = DefinitionIndex::collect(document, DefinitionSet::Masks);
        let mut modes: Vec<MaskMode> = Vec::new();
        let mut i: usize = 0;
        proof {
            crate::definitions::lemma_definitions_in_range(*document, DefinitionSet::Masks);
        }
        while i < masks.len()
            invariant
                document.wf(),
                masks.entries_view() == definitions_of(*document, DefinitionSet::Masks),
                forall|k: int|
                    0 <= k < masks.entries_view().len() ==> 0 <= #[trigger] masks.entries_view()[k].1
                        < document.nodes_view().len(),
                i <= masks.entries_view().len(),
                modes@.len() == i,
                forall|k: int|
                    0 <= k < i ==> #[trigger] modes@[k] == mask_mode_spec(
                        document.nodes_view()[masks.entries_view()[k].1].element.attributes@,
                    ),
            decreases masks.entries_view().len() - i,
        {
            let (_, node) = masks.entry(i);
            assert(masks.entries_view()[i as int].1 == node.idx());
            assert(document.contains(node));
            modes.push(mask_mode(document.element(node)));
            i = i + 1;
        }
        MaskDefinitions { masks, modes }
    }

    /// The mask `element` references with `mask="url(#id)"`.
    pub fn resolve(&self, element: &Element) -> (r: Option<MaskDefinition>)
        requires
            self.modes_view().len() == self.entries_view().len(),
        ensures
            r matches Some(d) ==> referenced_definition(self.entries_view(), element.attributes@, "mask"@)
                == Some(d.node.idx()) && d.mode == self.modes_view()[first_position(
                self.entries_view(),
                reference_id(element.attributes@["mask"@])->0,
            )->0],
            r is None ==> referenced_definition(self.entries_view(), element.attributes@, "mask"@) is None,
    {
        let raw = match element.attributes.get("mask") {
            Some(raw) => raw,
            None => return None,
        };
        let id = match url_reference_id(raw.as_str()) {
            Some(id) => id,
            None => return None,
        };
        match self.masks.position(id) {
            Some(i) => {
                proof {
                    lemma_first_position_from(self.entries_view(), id@, 0);
                }
                let (_, node) = self.masks.entry(i);
                Some(MaskDefinition { node, mode: self.modes[i] })
            },
            None => None,
        }
    }
}

/// How many `href` hops a filter definition may follow.
pub const MAX_HREF_DEPTH: usize = 8;

/// The filter definition whose primitives a filter with id `current`
/// uses: itself if it has primitives, else the one its `href` leads to,
/// following at most `steps` definitions and failing on a cycle, a
/// missing definition, or a definition with neither primitives nor href.
pub open spec fn chain_source(
    entries: Seq<(Seq<char>, int)>,
    has_prims: Seq<bool>,
    hrefs: Seq<Option<Seq<char>>>,
    current: Seq<char>,
    visited: Seq<Seq<char>>,
    steps: nat,
) -> Option<int>
    decreases steps,
{
    if steps == 0 || visited.contains(current) {
        None
    } else {
        match first_position(entries, current) {
            None => None,
            Some(i) => if has_prims[i] {
                Some(entries[i].1)
            } else {
                match hrefs[i] {
                    Some(next) => chain_source(
                        entries,
                        has_prims,
                        hrefs,
                        next,
                        visited.push(current),
                        (steps - 1) as nat,
                    ),
                    None => None,
                }
            },
        }
    }
}

/// A filter reference resolves to the first definition with the id when
/// that definition has primitives of its own, whatever its `href` says:
/// `href` inheritance only applies to a filter without primitives.
pub proof fn lemma_own_primitives_win(
    entries: Seq<(Seq<char>, int)>,
    has_prims: Seq<bool>,
    hrefs: Seq<Option<Seq<char>>>,
    id: Seq<char>,
    visited: Seq<Seq<char>>,
    steps: nat,
)
    requires
        steps > 0,
        !visited.contains(id),
        first_position(entries, id) is Some,
        has_prims[first_position(entries, id)->0],
    ensures
        chain_source(entries, has_prims, hrefs, id, visited, steps) == Some(
            entries[first_position(entries, id)->0].1,
        ),
{
}

/// For the definitions of a document: a reference to an id whose first
/// `<filter>` has supported primitive children resolves to that filter's
/// node, whatever its `href` says.
pub proof fn lemma_filter_with_primitives_resolves_to_itself(
    filters: FilterDefinitions,
    document: Document,
    id: Seq<char>,
)
    requires
        filters.wf(),
        forall|i: int|
            0 <= i < filters.entries_view().len() ==> #[trigger] filters.prims_view()[i] == has_primitives(
                document.nodes_view(),
                filters.entries_view()[i].1,
            ),
        first_position(filters.entries_view(), id) is Some,
        has_primitives(document.nodes_view(), filters.entries_view()[first_position(filters.entries_view(), id)->0].1),
    ensures
        chain_source(
            filters.entries_view(),
            filters.prims_view(),
            filters.hrefs_view(),
            id,
            Seq::empty(),
            MAX_HREF_DEPTH as nat,
        ) == Some(filters.entries_view()[first_position(filters.entries_view(), id)->0].1),
{
    let i = first_position(filters.entries_view(), id)->0;
    lemma_first_position_from(filters.entries_view(), id, 0);
    assert(filters.prims_view()[i]);
    lemma_own_primitives_win(
        filters.entries_view(),
        filters.prims_view(),
        filters.hrefs_view(),
        id,
        Seq::empty(),
        MAX_HREF_DEPTH as nat,
    );
}

/// What an element's `filter` attribute resolves to.
#[derive(Debug, Clone, Copy, PartialEq, Eq, Structural)]
pub enum FilterTarget {
    /// Apply the primitives of the children of this `<filter>` node.
    Chain(NodeId),
    /// A reference to a missing, empty or unusable filter: the element
    /// renders as transparent black.
    EmptyTransparent,
}

/// `<filter>` definitions keyed by id, with their `href` inheritance.
pub struct FilterDefinitions {
    filters: DefinitionIndex,
    has_prims: Vec<bool>,
    hrefs: Vec<Option<String>>,
}

impl FilterDefinitions {
    /// The collected `(id, node)` entries in document order.
    pub closed spec fn entries_view(&self) -> Seq<(Seq<char>, int)> {
        self.filters.entries_view()
    }

    /// Whether each entry has primitives of its own.
    pub closed spec fn prims_view(&self) -> Seq<bool> {
        self.has_prims@
    }

    /// Each entry's `href` target.
    pub closed spec fn hrefs_view(&self) -> Seq<Option<Seq<char>>> {
        self.hrefs@.map_values(|h: Option<String>| match h {
            Some(s) => Some(s@),
            None => None,
        })
    }

    /// The collector's invariant.
    pub open spec fn wf(&self) -> bool {
        &&& self.prims_view().len() == self.entries_view().len()
        &&& self.hrefs_view().len() == self.entries_view().len()
    }

    /// Collect every `<filter>` of `document`, with whether it has
    /// primitives and where its `href` points.
    pub fn collect(document: &Document) -> (r: Self)
        requires
            document.wf(),
        ensures
            r.wf(),
            r.entries_view() == definitions_of(*document, DefinitionSet::Filters),
            forall|i: int|
                0 <= i < r.entries_view().len() ==> #[trigger] r.prims_view()[i] == has_primitives(
                    document.nodes_view(),
                    r.entries_view()[i].1,
                ),
            forall|i: int|
                0 <= i < r.entries_view().len() ==> #[trigger] r.hrefs_view()[i] == href_target(
                    document.nodes_view()[r.entries_view()[i].1].element.attributes@,
                ),
    {
        let filters = DefinitionIndex::collect(document, DefinitionSet::Filters);
        let mut has_prims: Vec<bool> = Vec::new();
        let mut hrefs: Vec<Option<String>> = Vec::new();
        let mut i: usize = 0;
        proof {
            crate::definitions::lemma_definitions_in_range(*document, DefinitionSet::Filters);
        }
        while i < filters.len()
            invariant
                document.wf(),
                filters.entries_view() == definitions_of(*document, DefinitionSet::Filters),
                forall|k: int|
                    0 <= k < filters.entries_view().len() ==> 0 <= #[trigger] filters.entries_view()[k].1
                        < document.nodes_view().len(),
                i <= filters.entries_view().len(),
                has_prims@.len() == i,
                hrefs@.len() == i,
                forall|k: int|
                    0 <= k < i ==> #[trigger] has_prims@[k] == has_primitives(
                        document.nodes_view(),
                        filters.entries_view()[k].1,
                    ),
                forall|k: int|
                    0 <= k < i ==> (match #[trigger] hrefs@[k] {
                        Some(s) => Some(s@),
                        None => None,
                    }) == href_target(
                        document.nodes_view()[filters.entries_view()[k].1].element.attributes@,
                    ),
            decreases filters.entries_view().len() - i,
        {
            let (_, node) = filters.entry(i);
            assert(filters.entries_view()[i as int].1 == node.idx());
            assert(document.contains(node));
            has_prims.push(filter_has_primitives(document, node));
            hrefs.push(filter_href_target(document.element(node)));
            i = i + 1;
        }
        let r = FilterDefinitions { filters, has_prims, hrefs };
        assert(r.hrefs_view().len() == r.entries_view().len());
        r
    }

    /// The filter node whose primitives the filter with id `id` applies
    /// (see [`chain_source`], from an empty visited list and
    /// [`MAX_HREF_DEPTH`] steps).
    pub fn resolve_href_chain(&self, id: &str) -> (r: Option<NodeId>)
        requires
            self.wf(),
        ensures
            r matches Some(n) ==> chain_source(
                self.entries_view(),
                self.prims_view(),
                self.hrefs_view(),
                id@,
                Seq::empty(),
                MAX_HREF_DEPTH as nat,
            ) == Some(n.idx()),
            r is None ==> chain_source(
                self.entries_view(),
                self.prims_view(),
                self.hrefs_view(),
                id@,
                Seq::empty(),
                MAX_HREF_DEPTH as nat,
            ) is None,
    {
        let ghost goal = chain_source(
            self.entries_view(),
            self.prims_view(),
            self.hrefs_view(),
            id@,
            Seq::empty(),
            MAX_HREF_DEPTH as nat,
        );
        let mut current: String = id.to_owned();
        let mut visited: Vec<String> = Vec::new();
        let mut step: usize = 0;
        assert(visited@.map_values(|s: String| s@) =~= Seq::<Seq<char>>::empty());
        while step < MAX_HREF_DEPTH
            invariant
                self.wf(),
                goal == chain_source(
                    self.entries_view(),
                    self.prims_view(),
                    self.hrefs_view(),
                    id@,
                    Seq::empty(),
                    MAX_HREF_DEPTH as nat,
                ),
                step <= MAX_HREF_DEPTH,
                visited@.len() == step,
                goal == chain_source(
                    self.entries_view(),
                    self.prims_view(),
                    self.hrefs_view(),
                    current@,
                    visited@.map_values(|s: String| s@),
                    (MAX_HREF_DEPTH - step) as nat,
                ),
            decreases MAX_HREF_DEPTH - step,
        {
            let ghost vis = visited@.map_values(|s: String| s@);
            let mut k: usize = 0;
            while k < visited.len()
                invariant
                    self.wf(),
                    goal == chain_source(
                        self.entries_view(),
                        self.prims_view(),
                        self.hrefs_view(),
                        id@,
                        Seq::empty(),
                        MAX_HREF_DEPTH as nat,
                    ),
                    step < MAX_HREF_DEPTH,
                    visited@.len() == step,
                    goal == chain_source(
                        self.entries_view(),
                        self.prims_view(),
                        self.hrefs_view(),
                        current@,
                        vis,
                        (MAX_HREF_DEPTH - step) as nat,
                    ),
                    k <= visited@.len(),
                    vis == visited@.map_values(|s: String| s@),
                    forall|j: int| 0 <= j < k ==> vis[j] != current@,
                decreases visited@.len() - k,
            {
                if visited[k] == current {
                    assert(vis[k as int] == current@);
                    assert(vis.contains(current@));
                    return None;
                }
                k = k + 1;
            }
            assert(!vis.contains(current@));
            let i = match self.filters.position(current.as_str()) {
                Some(i) => i,
                None => return None,
            };
            proof {
                lemma_first_position_from(self.entries_view(), current@, 0);
            }
            if self.has_prims[i] {
                let (_, node) = self.filters.entry(i);
                return Some(node);
            }
            let next = match &self.hrefs[i] {
                Some(next) => next.clone(),
                None => {
                    assert(self.hrefs_view()[i as int] is None);
                    return None;
                },
            };
            assert(self.hrefs_view()[i as int] == Some(next@));
            let previous = current;
            current = next;
            visited.push(previous);
            assert(visited@.map_values(|s: String| s@) =~= vis.push(previous@));
            step = step + 1;
        }
        None
    }

    /// What `element`'s `filter` attribute resolves to: `None` without a
    /// `url(#id)` reference; otherwise the chain source of that id, or
    /// [`FilterTarget::EmptyTransparent`] when there is none.
    pub fn resolve(&self, element: &Element) -> (r: Option<FilterTarget>)
        requires
            self.wf(),
        ensures
            !element.attributes@.contains_key("filter"@) ==> r is None,
            element.attributes@.contains_key("filter"@) ==> match reference_id(
                element.attributes@["filter"@],
            ) {
                None => r is None,
                Some(id) => match chain_source(
                    self.entries_view(),
                    self.prims_view(),
                    self.hrefs_view(),
                    id,
                    Seq::empty(),
                    MAX_HREF_DEPTH as nat,
                ) {
                    Some(n) => r matches Some(FilterTarget::Chain(node)) && node.idx() == n,
                    None => r == Some(FilterTarget::EmptyTransparent),
                },
            },
    {
        let raw = match element.attributes.get("filter") {
            Some(raw) => raw,
            None => return None,
        };
        let id = match url_reference_id(raw.as_str()) {
            Some(id) => id,
            None => return None,
        };
        match self.resolve_href_chain(id) {
            Some(node) => Some(FilterTarget::Chain(node)),
            None => Some(FilterTarget::EmptyTransparent),
        }
    }
}

} // verus!
