//! Paint-server and marker definitions, and the keyword attributes that
//! select how paint servers and markers are laid out.
use vstd::prelude::*;

use crate::color::{color_spec, parse_color_srgb8, Srgb8};
use crate::definitions::{definitions_of, first_node, DefinitionIndex, DefinitionSet};
use crate::dom::{Document, Element, ElementKind, NodeId};
use crate::filters::referenced_definition;
use crate::references::{paint_reference, reference_id, url_reference_id, PaintReference};
use crate::text::{eq_ignore_ascii_case, eq_ignore_case, str_eq, trim, trim_str};

verus! {

/// Paint server kinds carried in a paint server's `meta[0]`.
pub const PAINT_LINEAR_GRADIENT: u32 = 1;

pub const PAINT_RADIAL_GRADIENT: u32 = 2;

pub const PAINT_PATTERN: u32 = 3;

pub const PAINT_SVG_TEXTURE: u32 = 4;

/// Texture mapping kinds carried in an SVG texture paint server's `meta[2]`.
pub const TEXTURE_MAP_IDENTITY: u32 = 0;

pub const TEXTURE_MAP_CUBE_CROSS: u32 = 1;

/// Most gradient stops and pattern items a paint server holds.
pub const MAX_GRADIENT_STOPS: usize = 8;

pub const MAX_PATTERN_ITEMS: usize = 8;

/// How an SVG texture paints its surface.
#[derive(Debug, Clone, Copy, PartialEq, Eq, Structural)]
pub enum TextureMapping {
    /// Sample the vertex UV as it is.
    Identity,
    /// Remap each cube face into its slot of a 4x3 horizontal-cross atlas.
    CubeCross,
}

impl TextureMapping {
    /// The mapping kind code.
    pub fn kind(self) -> (r: u32)
        ensures
            r == match self {
                TextureMapping::Identity => TEXTURE_MAP_IDENTITY,
                TextureMapping::CubeCross => TEXTURE_MAP_CUBE_CROSS,
            },
    {
        match self {
            TextureMapping::Identity => TEXTURE_MAP_IDENTITY,
            TextureMapping::CubeCross => TEXTURE_MAP_CUBE_CROSS,
        }
    }
}

/// Texture layout of a `<cube>`.
#[derive(Debug, Clone, Copy, PartialEq, Eq, Structural)]
pub enum CubeMap {
    /// Every face shows the whole texture.
    Same,
    /// 4x3 horizontal-cross atlas, six faces in distinct slots.
    Cross,
}

impl CubeMap {
    /// The layout when `cube-map` is absent.
    pub fn default() -> (r: Self)
        ensures
            r == CubeMap::Same,
    {
        CubeMap::Same
    }
}

/// `cube-map`: `cross` (any case, trimmed) selects the atlas; anything
/// else, or no attribute, the same texture on every face.
pub open spec fn cube_map_spec(attributes: Map<Seq<char>, Seq<char>>) -> CubeMap {
    if attributes.contains_key("cube-map"@) && eq_ignore_case(trim(attributes["cube-map"@]), "cross"@) {
        CubeMap::Cross
    } else {
        CubeMap::Same
    }
}

/// The `cube-map` layout of a `<cube>` (see [`cube_map_spec`]).
pub fn resolve_cube_map(element: &Element) -> (r: CubeMap)
    ensures
        r == cube_map_spec(element.attributes@),
{
    match element.attributes.get("cube-map") {
        Some(value) => if eq_ignore_ascii_case(trim_str(value.as_str()), "cross") {
            CubeMap::Cross
        } else {
            CubeMap::default()
        },
        None => CubeMap::default(),
    }
}

/// Cube faces, in tessellation order.
pub const CUBE_FACE_COUNT: usize = 6;

pub const CUBE_FACE_PLUS_Z: usize = 0;

pub const CUBE_FACE_MINUS_Z: usize = 1;

pub const CUBE_FACE_MINUS_Y: usize = 2;

pub const CUBE_FACE_PLUS_Y: usize = 3;

pub const CUBE_FACE_MINUS_X: usize = 4;

pub const CUBE_FACE_PLUS_X: usize = 5;

/// Vertices per tessellated cube face.
pub const CUBE_VERTS_PER_FACE: u32 = 4;

/// The `(column, row)` atlas slot of each cube face in the 4x3 cross:
/// `+Y` above and `-Y` below the `-X +Z +X -Z` row.
pub open spec fn cube_cross_slot_spec(face: usize) -> (u32, u32) {
    if face == CUBE_FACE_PLUS_Z {
        (1, 1)
    } else if face == CUBE_FACE_MINUS_Z {
        (3, 1)
    } else if face == CUBE_FACE_MINUS_Y {
        (1, 0)
    } else if face == CUBE_FACE_PLUS_Y {
        (1, 2)
    } else if face == CUBE_FACE_MINUS_X {
        (0, 1)
    } else {
        (2, 1)
    }
}

/// The atlas slot of cube face `face`.
pub fn cube_cross_slot(face: usize) -> (r: (u32, u32))
    requires
        face < CUBE_FACE_COUNT,
    ensures
        r == cube_cross_slot_spec(face),
        r.0 < 4 && r.1 < 3,
{
    if face == CUBE_FACE_PLUS_Z {
        (1, 1)
    } else if face == CUBE_FACE_MINUS_Z {
        (3, 1)
    } else if face == CUBE_FACE_MINUS_Y {
        (1, 0)
    } else if face == CUBE_FACE_PLUS_Y {
        (1, 2)
    } else if face == CUBE_FACE_MINUS_X {
        (0, 1)
    } else {
        (2, 1)
    }
}

/// The six faces occupy six distinct atlas slots.
pub proof fn lemma_cube_cross_slots_distinct(a: usize, b: usize)
    requires
        a < CUBE_FACE_COUNT,
        b < CUBE_FACE_COUNT,
        a != b,
    ensures
        cube_cross_slot_spec(a) != cube_cross_slot_spec(b),
{
}

/// An `<svg>` definition used as a texture by a 3D element.
#[derive(Debug, Clone, Copy, PartialEq, Eq, Structural)]
pub struct SvgTexture {
    /// The `<svg>` definition node.
    pub node_id: NodeId,
    /// How the consumer maps the texture.
    pub mapping: TextureMapping,
}

/// The texture mapping a consumer element uses for an `<svg>` texture:
/// cubes by their `cube-map`, the other 3D elements the identity; other
/// elements cannot use an `<svg>` texture.
pub open spec fn svg_texture_mapping(consumer: Element) -> Option<TextureMapping> {
    match consumer.kind {
        ElementKind::Cube => match cube_map_spec(consumer.attributes@) {
            CubeMap::Same => Some(TextureMapping::Identity),
            CubeMap::Cross => Some(TextureMapping::CubeCross),
        },
        ElementKind::Ellipsoid | ElementKind::Cylinder | ElementKind::Surface => Some(
            TextureMapping::Identity,
        ),
        _ => None,
    }
}

/// The texture paint of `<svg>` definition `node_id` for `consumer`.
pub fn resolve_svg_texture(node_id: NodeId, consumer: &Element) -> (r: Option<SvgTexture>)
    ensures
        r matches Some(t) ==> t.node_id == node_id && svg_texture_mapping(*consumer) == Some(t.mapping),
        r is None ==> svg_texture_mapping(*consumer) is None,
{
    let mapping = match consumer.kind {
        ElementKind::Cube => match resolve_cube_map(consumer) {
            CubeMap::Same => TextureMapping::Identity,
            CubeMap::Cross => TextureMapping::CubeCross,
        },
        ElementKind::Ellipsoid | ElementKind::Cylinder | ElementKind::Surface => {
            TextureMapping::Identity
        },
        _ => return None,
    };
    Some(SvgTexture { node_id, mapping })
}

/// Whether units attribute `name` selects user space: its value, trimmed,
/// is exactly `userSpaceOnUse`.
pub open spec fn user_space_units(attributes: Map<Seq<char>, Seq<char>>, name: Seq<char>) -> bool {
    attributes.contains_key(name) && trim(attributes[name]) == "userSpaceOnUse"@
}

/// Read a units attribute (see [`user_space_units`]).
fn is_user_space(element: &Element, name: &str) -> (r: bool)
    ensures
        r == user_space_units(element.attributes@, name@),
{
    match element.attributes.get(name) {
        Some(value) => str_eq(trim_str(value.as_str()), "userSpaceOnUse"),
        None => false,
    }
}

/// The coordinate system of a gradient's geometry attributes.
#[derive(Debug, Clone, Copy, PartialEq, Eq, Structural)]
pub enum GradientUnits {
    /// Fractions of the painted element's bounding box (the default).
    ObjectBoundingBox,
    /// User space.
    UserSpaceOnUse,
}

impl GradientUnits {
    /// The `gradientUnits` of a gradient.
    pub fn resolve(element: &Element) -> (r: Self)
        ensures
            r == (if user_space_units(element.attributes@, "gradientUnits"@) {
                GradientUnits::UserSpaceOnUse
            } else {
                GradientUnits::ObjectBoundingBox
            }),
    {
        if is_user_space(element, "gradientUnits") {
            GradientUnits::UserSpaceOnUse
        } else {
            GradientUnits::ObjectBoundingBox
        }
    }
}

/// The coordinate system of a pattern tile's geometry attributes.
#[derive(Debug, Clone, Copy, PartialEq, Eq, Structural)]
pub enum PatternUnits {
    /// Fractions of the painted element's bounding box (the default).
    ObjectBoundingBox,
    /// User space.
    UserSpaceOnUse,
}

impl PatternUnits {
    /// The `patternUnits` of a pattern.
    pub fn resolve(element: &Element) -> (r: Self)
        ensures
            r == (if user_space_units(element.attributes@, "patternUnits"@) {
                PatternUnits::UserSpaceOnUse
            } else {
                PatternUnits::ObjectBoundingBox
            }),
    {
        if is_user_space(element, "patternUnits") {
            PatternUnits::UserSpaceOnUse
        } else {
            PatternUnits::ObjectBoundingBox
        }
    }
}

/// The coordinate system of a marker's content.
#[derive(Debug, Clone, Copy, PartialEq, Eq, Structural)]
pub enum MarkerUnits {
    /// Multiples of the stroke width (the default).
    StrokeWidth,
    /// User space.
    UserSpaceOnUse,
}

impl MarkerUnits {
    /// The `markerUnits` of a marker.
    pub fn resolve(element: &Element) -> (r: Self)
        ensures
            r == (if user_space_units(element.attributes@, "markerUnits"@) {
                MarkerUnits::UserSpaceOnUse
            } else {
                MarkerUnits::StrokeWidth
            }),
    {
        if is_user_space(element, "markerUnits") {
            MarkerUnits::UserSpaceOnUse
        } else {
            MarkerUnits::StrokeWidth
        }
    }
}

/// Paint servers keyed by id: gradients, patterns and nested `<svg>`
/// texture sources.
pub struct PaintDefinitions {
    paints: DefinitionIndex,
}

impl PaintDefinitions {
    /// The collected `(id, node)` entries in document order.
    pub closed spec fn entries_view(&self) -> Seq<(Seq<char>, int)> {
        self.paints.entries_view()
    }

    /// Collect every paint server of `document`.
    pub fn collect(document: &Document) -> (r: Self)
        requires
            document.wf(),
        ensures
            r.entries_view() == definitions_of(*document, DefinitionSet::Paints),
    {
        PaintDefinitions { paints: DefinitionIndex::collect(document, DefinitionSet::Paints) }
    }

    /// The first paint server with id `id`.
    pub fn get(&self, id: &str) -> (r: Option<NodeId>)
        ensures
            r matches Some(n) ==> first_node(self.entries_view(), id@) == Some(n.idx()),
            r is None ==> first_node(self.entries_view(), id@) is None,
    {
        self.paints.get(id)
    }
}

/// The marker definitions an element references for its start, middle
/// and end vertices.
#[derive(Debug, Clone, Copy, PartialEq, Eq, Structural)]
pub struct MarkerRefs {
    pub start: Option<NodeId>,
    pub mid: Option<NodeId>,
    pub end: Option<NodeId>,
}

/// Where along a path a marker is placed.
#[derive(Debug, Clone, Copy, PartialEq, Eq, Structural)]
pub enum MarkerKind {
    /// The first vertex.
    Start,
    /// Every vertex between the first and the last.
    Mid,
    /// The last vertex.
    End,
}

impl MarkerRefs {
    /// The marker for vertices of `kind`.
    pub fn get(&self, kind: MarkerKind) -> (r: Option<NodeId>)
        ensures
            r == match kind {
                MarkerKind::Start => self.start,
                MarkerKind::Mid => self.mid,
                MarkerKind::End => self.end,
            },
    {
        match kind {
            MarkerKind::Start => self.start,
            MarkerKind::Mid => self.mid,
            MarkerKind::End => self.end,
        }
    }

    /// Whether no vertex gets a marker.
    pub fn is_empty(&self) -> (r: bool)
        ensures
            r == (self.start is None && self.mid is None && self.end is None),
    {
        self.start.is_none() && self.mid.is_none() && self.end.is_none()
    }
}

/// The marker a position-specific property selects: when the property is
/// present, its own reference (possibly none); otherwise the `marker`
/// shorthand's.
pub open spec fn marker_ref_spec(
    entries: Seq<(Seq<char>, int)>,
    attributes: Map<Seq<char>, Seq<char>>,
    name: Seq<char>,
) -> Option<int> {
    if attributes.contains_key(name) {
        referenced_definition(entries, attributes, name)
    } else {
        referenced_definition(entries, attributes, "marker"@)
    }
}

/// `<marker>` definitions keyed by id.
pub struct MarkerDefinitions {
    markers: DefinitionIndex,
}

/// The character view of an optional node id.
pub open spec fn node_view(n: Option<NodeId>) -> Option<int> {
    match n {
        Some(n) => Some(n.idx()),
        None => None,
    }
}

impl MarkerDefinitions {
    /// The collected `(id, node)` entries in document order.
    pub closed spec fn entries_view(&self) -> Seq<(Seq<char>, int)> {
        self.markers.entries_view()
    }

    /// Collect every `<marker>` of `document`.
    pub fn collect(document: &Document) -> (r: Self)
        requires
            document.wf(),
        ensures
            r.entries_view() == definitions_of(*document, DefinitionSet::Markers),
    {
        MarkerDefinitions { markers: DefinitionIndex::collect(document, DefinitionSet::Markers) }
    }

    /// The marker a reference value names.
    pub fn resolve_reference(&self, value: &str) -> (r: Option<NodeId>)
        ensures
            node_view(r) == match reference_id(value@) {
                Some(id) => first_node(self.entries_view(), id),
                None => None,
            },
    {
        match url_reference_id(value) {
            Some(id) => self.markers.get(id),
            None => None,
        }
    }

    fn resolve_attribute(&self, element: &Element, name: &str) -> (r: Option<NodeId>)
        ensures
            node_view(r) == referenced_definition(self.entries_view(), element.attributes@, name@),
    {
        match element.attributes.get(name) {
            Some(value) => self.resolve_reference(value.as_str()),
            None => None,
        }
    }

    /// The start, middle and end markers of `element` (see
    /// [`marker_ref_spec`]).
    pub fn marker_refs(&self, element: &Element) -> (r: MarkerRefs)
        ensures
            node_view(r.start) == marker_ref_spec(self.entries_view(), element.attributes@, "marker-start"@),
            node_view(r.mid) == marker_ref_spec(self.entries_view(), element.attributes@, "marker-mid"@),
            node_view(r.end) == marker_ref_spec(self.entries_view(), element.attributes@, "marker-end"@),
    {
        let all = self.resolve_attribute(element, "marker");
        let start = if element.attributes.contains_key("marker-start") {
            self.resolve_attribute(element, "marker-start")
        } else {
            all
        };
        let mid = if element.attributes.contains_key("marker-mid") {
            self.resolve_attribute(element, "marker-mid")
        } else {
            all
        };
        let end = if element.attributes.contains_key("marker-end") {
            self.resolve_attribute(element, "marker-end")
        } else {
            all
        };
        MarkerRefs { start, mid, end }
    }
}

/// A `fill` or `stroke` value, read.
pub enum PaintValue<'a> {
    /// `none`.
    NoPaint,
    /// A paint server reference with its fallback.
    Reference(PaintReference<'a>),
    /// A colour.
    Color(Srgb8),
    /// Anything else.
    Invalid,
}

/// [`PaintValue`] over character sequences.
pub enum PaintValueView {
    NoPaint,
    Reference(Seq<char>, Option<Seq<char>>),
    Color(Srgb8),
    Invalid,
}

/// How a paint value reads after trimming: `none` in any ASCII case, a
/// `url(#id) [fallback]` reference, a colour, or none of these.
pub open spec fn paint_value_spec(value: Seq<char>) -> PaintValueView {
    let t = trim(value);
    if eq_ignore_case(t, "none"@) {
        PaintValueView::NoPaint
    } else {
        match paint_reference(t) {
            Some((id, fallback)) => PaintValueView::Reference(id, fallback),
            None => match color_spec(t) {
                Some(c) => PaintValueView::Color(c),
                None => PaintValueView::Invalid,
            },
        }
    }
}

/// The character view of a paint value.
pub open spec fn paint_value_view(v: PaintValue) -> PaintValueView {
    match v {
        PaintValue::NoPaint => PaintValueView::NoPaint,
        PaintValue::Reference(r) => PaintValueView::Reference(
            r.id@,
            match r.fallback {
                Some(f) => Some(f@),
                None => None,
            },
        ),
        PaintValue::Color(c) => PaintValueView::Color(c),
        PaintValue::Invalid => PaintValueView::Invalid,
    }
}

/// Read a `fill` or `stroke` value (see [`paint_value_spec`]).
pub fn read_paint_value<'a>(value: &'a str) -> (r: PaintValue<'a>)
    ensures
        paint_value_view(r) == paint_value_spec(value@),
{
    let t = crate::text::trim_str(value);
    if eq_ignore_ascii_case(t, "none") {
        return PaintValue::NoPaint;
    }
    if let Some(reference) = PaintReference::parse(t) {
        return PaintValue::Reference(reference);
    }
    match parse_color_srgb8(t) {
        Some(c) => PaintValue::Color(c),
        None => PaintValue::Invalid,
    }
}

/// The solid paint, if any, that a paint value comes to when it is not a
/// usable reference.
#[derive(Debug, Clone, Copy, PartialEq, Eq)]
pub enum PaintChoice {
    /// Nothing is painted.
    NoPaint,
    /// This colour.
    Color(Srgb8),
    /// The property's default colour (black, for `fill`).
    DefaultColor,
}

/// What a reference falls back to when its paint server is missing or
/// unusable: a fallback of `none` (any ASCII case) paints nothing, a
/// fallback colour paints that colour, and otherwise the property's
/// default colour applies where it has one (`has_default`).
pub open spec fn fallback_spec(fallback: Option<Seq<char>>, has_default: bool) -> PaintChoice {
    let default = if has_default {
        PaintChoice::DefaultColor
    } else {
        PaintChoice::NoPaint
    };
    match fallback {
        Some(f) => if eq_ignore_case(f, "none"@) {
            PaintChoice::NoPaint
        } else {
            match color_spec(f) {
                Some(c) => PaintChoice::Color(c),
                None => default,
            }
        },
        None => default,
    }
}

/// The paint a reference falls back to (see [`fallback_spec`]).
pub fn reference_fallback(fallback: Option<&str>, has_default: bool) -> (r: PaintChoice)
    ensures
        r == fallback_spec(
            match fallback {
                Some(f) => Some(f@),
                None => None,
            },
            has_default,
        ),
{
    let default = if has_default {
        PaintChoice::DefaultColor
    } else {
        PaintChoice::NoPaint
    };
    match fallback {
        Some(f) => {
            if eq_ignore_ascii_case(f, "none") {
                PaintChoice::NoPaint
            } else {
                match parse_color_srgb8(f) {
                    Some(c) => PaintChoice::Color(c),
                    None => default,
                }
            }
        },
        None => default,
    }
}

} // verus!
