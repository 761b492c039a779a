//! [`ElementKind`]: the tags svg3 knows. Tags and kinds are related by
//! one table; a tag missing from it stays [`ElementKind::Unknown`].
use vstd::prelude::*;

use crate::text::str_eq;

verus! {

/// What an element is, as told by its tag name.
#[derive(Debug, Clone, PartialEq, Eq)]
pub enum ElementKind {
    // Structure.
    /// The document root, `<svg>`; nested, a texture source.
    Svg,
    /// `<g>`: groups children under shared attributes and transform.
    Group,
    /// `<defs>`: holds definitions that are only drawn by reference.
    Defs,
    /// `<marker>`: a symbol drawn at path vertices.
    Marker,
    // Two-dimensional shapes.
    /// `<path>`.
    Path,
    /// `<line>`.
    Line,
    /// `<polyline>`: an open chain of points.
    Polyline,
    /// `<polygon>`: a closed chain of points.
    Polygon,
    /// `<rect>`.
    Rect,
    /// `<circle>`.
    Circle,
    /// `<ellipse>`.
    Ellipse,
    // Three-dimensional primitives.
    /// `<cube>`: a box.
    Cube,
    /// `<ellipsoid>`.
    Ellipsoid,
    /// `<cylinder>`: an elliptical cylinder.
    Cylinder,
    /// `<surface>`: patches spanned over its `<path>` children.
    Surface,
    // Paint servers.
    /// `<linearGradient>`.
    LinearGradient,
    /// `<radialGradient>`.
    RadialGradient,
    /// `<stop>`: one colour stop of a gradient.
    Stop,
    /// `<pattern>`.
    Pattern,
    // Clipping, masking, foreign content.
    /// `<clipPath>`.
    ClipPath,
    /// `<mask>`.
    Mask,
    /// `<foreignObject>`: kept in the tree, never drawn.
    ForeignObject,
    // Filters.
    /// `<filter>`: a chain of primitives.
    Filter,
    /// Blends two inputs.
    FeBlend,
    /// Applies a colour matrix.
    FeColorMatrix,
    /// Remaps each channel.
    FeComponentTransfer,
    /// Composites two inputs.
    FeComposite,
    /// Convolves with a kernel.
    FeConvolveMatrix,
    /// Diffuse lighting.
    FeDiffuseLighting,
    /// Displaces one input by another.
    FeDisplacementMap,
    /// A light infinitely far away.
    FeDistantLight,
    /// A drop shadow.
    FeDropShadow,
    /// Fills the region with one colour.
    FeFlood,
    /// Alpha transfer function.
    FeFuncA,
    /// Blue transfer function.
    FeFuncB,
    /// Green transfer function.
    FeFuncG,
    /// Red transfer function.
    FeFuncR,
    /// Gaussian blur.
    FeGaussianBlur,
    /// An embedded image as input.
    FeImage,
    /// Stacks several inputs.
    FeMerge,
    /// One input of a merge.
    FeMergeNode,
    /// Dilates or erodes.
    FeMorphology,
    /// Shifts its input.
    FeOffset,
    /// A point light.
    FePointLight,
    /// Specular lighting.
    FeSpecularLighting,
    /// A spot light.
    FeSpotLight,
    /// Tiles its input.
    FeTile,
    /// Perlin turbulence or fractal noise.
    FeTurbulence,
    /// Any other tag, with its name.
    Unknown(String),
}

/// Number of entries of the tag table.
pub const KNOWN_TAG_COUNT: usize = 48;

/// The tag table: every kind with a tag name of its own, in table order.
pub open spec fn tag_table() -> Seq<ElementKind> {
    seq![
        ElementKind::Svg,
        ElementKind::Group,
        ElementKind::Defs,
        ElementKind::Marker,
        ElementKind::Path,
        ElementKind::Line,
        ElementKind::Polyline,
        ElementKind::Polygon,
        ElementKind::Rect,
        ElementKind::Circle,
        ElementKind::Ellipse,
        ElementKind::Cube,
        ElementKind::Ellipsoid,
        ElementKind::Cylinder,
        ElementKind::Surface,
        ElementKind::LinearGradient,
        ElementKind::RadialGradient,
        ElementKind::Stop,
        ElementKind::Pattern,
        ElementKind::ClipPath,
        ElementKind::Mask,
        ElementKind::ForeignObject,
        ElementKind::Filter,
        ElementKind::FeBlend,
        ElementKind::FeColorMatrix,
        ElementKind::FeComponentTransfer,
        ElementKind::FeComposite,
        ElementKind::FeConvolveMatrix,
        ElementKind::FeDiffuseLighting,
        ElementKind::FeDisplacementMap,
        ElementKind::FeDistantLight,
        ElementKind::FeDropShadow,
        ElementKind::FeFlood,
        ElementKind::FeFuncA,
        ElementKind::FeFuncB,
        ElementKind::FeFuncG,
        ElementKind::FeFuncR,
        ElementKind::FeGaussianBlur,
        ElementKind::FeImage,
        ElementKind::FeMerge,
        ElementKind::FeMergeNode,
        ElementKind::FeMorphology,
        ElementKind::FeOffset,
        ElementKind::FePointLight,
        ElementKind::FeSpecularLighting,
        ElementKind::FeSpotLight,
        ElementKind::FeTile,
        ElementKind::FeTurbulence,
    ]
}

/// The kind at position `i` of the tag table.
pub open spec fn table_kind(i: int) -> ElementKind {
    tag_table()[i]
}

/// The tag name of a kind; an unknown kind keeps its own name.
pub open spec fn tag_of(kind: ElementKind) -> Seq<char> {
    match kind {
        ElementKind::Svg => "svg"@,
        ElementKind::Group => "g"@,
        ElementKind::Defs => "defs"@,
        ElementKind::Marker => "marker"@,
        ElementKind::Path => "path"@,
        ElementKind::Line => "line"@,
        ElementKind::Polyline => "polyline"@,
        ElementKind::Polygon => "polygon"@,
        ElementKind::Rect => "rect"@,
        ElementKind::Circle => "circle"@,
        ElementKind::Ellipse => "ellipse"@,
        ElementKind::Cube => "cube"@,
        ElementKind::Ellipsoid => "ellipsoid"@,
        ElementKind::Cylinder => "cylinder"@,
        ElementKind::Surface => "surface"@,
        ElementKind::LinearGradient => "linearGradient"@,
        ElementKind::RadialGradient => "radialGradient"@,
        ElementKind::Stop => "stop"@,
        ElementKind::Pattern => "pattern"@,
        ElementKind::ClipPath => "clipPath"@,
        ElementKind::Mask => "mask"@,
        ElementKind::ForeignObject => "foreignObject"@,
        ElementKind::Filter => "filter"@,
        ElementKind::FeBlend => "feBlend"@,
        ElementKind::FeColorMatrix => "feColorMatrix"@,
        ElementKind::FeComponentTransfer => "feComponentTransfer"@,
        ElementKind::FeComposite => "feComposite"@,
        ElementKind::FeConvolveMatrix => "feConvolveMatrix"@,
        ElementKind::FeDiffuseLighting => "feDiffuseLighting"@,
        ElementKind::FeDisplacementMap => "feDisplacementMap"@,
        ElementKind::FeDistantLight => "feDistantLight"@,
        ElementKind::FeDropShadow => "feDropShadow"@,
        ElementKind::FeFlood => "feFlood"@,
        ElementKind::FeFuncA => "feFuncA"@,
        ElementKind::FeFuncB => "feFuncB"@,
        ElementKind::FeFuncG => "feFuncG"@,
        ElementKind::FeFuncR => "feFuncR"@,
        ElementKind::FeGaussianBlur => "feGaussianBlur"@,
        ElementKind::FeImage => "feImage"@,
        ElementKind::FeMerge => "feMerge"@,
        ElementKind::FeMergeNode => "feMergeNode"@,
        ElementKind::FeMorphology => "feMorphology"@,
        ElementKind::FeOffset => "feOffset"@,
        ElementKind::FePointLight => "fePointLight"@,
        ElementKind::FeSpecularLighting => "feSpecularLighting"@,
        ElementKind::FeSpotLight => "feSpotLight"@,
        ElementKind::FeTile => "feTile"@,
        ElementKind::FeTurbulence => "feTurbulence"@,
        ElementKind::Unknown(name) => name@,
    }
}

/// The first kind of the tag table, from position `i` on, named `tag`.
pub open spec fn known_kind_from(tag: Seq<char>, i: int) -> Option<ElementKind>
    decreases KNOWN_TAG_COUNT - i,
{
    if i < 0 || i >= KNOWN_TAG_COUNT {
        None
    } else if tag_of(table_kind(i)) == tag {
        Some(table_kind(i))
    } else {
        known_kind_from(tag, i + 1)
    }
}

/// The kind of the tag table named `tag`, if any.
pub open spec fn known_kind(tag: Seq<char>) -> Option<ElementKind> {
    known_kind_from(tag, 0)
}

/// The kind at position `i` of the tag table.
fn table_entry(i: usize) -> (r: ElementKind)
    requires
        i < KNOWN_TAG_COUNT,
    ensures
        r == table_kind(i as int),
        !(r is Unknown),
{
    match i {
        0 => ElementKind::Svg,
        1 => ElementKind::Group,
        2 => ElementKind::Defs,
        3 => ElementKind::Marker,
        4 => ElementKind::Path,
        5 => ElementKind::Line,
        6 => ElementKind::Polyline,
        7 => ElementKind::Polygon,
        8 => ElementKind::Rect,
        9 => ElementKind::Circle,
        10 => ElementKind::Ellipse,
        11 => ElementKind::Cube,
        12 => ElementKind::Ellipsoid,
        13 => ElementKind::Cylinder,
        14 => ElementKind::Surface,
        15 => ElementKind::LinearGradient,
        16 => ElementKind::RadialGradient,
        17 => ElementKind::Stop,
        18 => ElementKind::Pattern,
        19 => ElementKind::ClipPath,
        20 => ElementKind::Mask,
        21 => ElementKind::ForeignObject,
        22 => ElementKind::Filter,
        23 => ElementKind::FeBlend,
        24 => ElementKind::FeColorMatrix,
        25 => ElementKind::FeComponentTransfer,
        26 => ElementKind::FeComposite,
        27 => ElementKind::FeConvolveMatrix,
        28 => ElementKind::FeDiffuseLighting,
        29 => ElementKind::FeDisplacementMap,
        30 => ElementKind::FeDistantLight,
        31 => ElementKind::FeDropShadow,
        32 => ElementKind::FeFlood,
        33 => ElementKind::FeFuncA,
        34 => ElementKind::FeFuncB,
        35 => ElementKind::FeFuncG,
        36 => ElementKind::FeFuncR,
        37 => ElementKind::FeGaussianBlur,
        38 => ElementKind::FeImage,
        39 => ElementKind::FeMerge,
        40 => ElementKind::FeMergeNode,
        41 => ElementKind::FeMorphology,
        42 => ElementKind::FeOffset,
        43 => ElementKind::FePointLight,
        44 => ElementKind::FeSpecularLighting,
        45 => ElementKind::FeSpotLight,
        46 => ElementKind::FeTile,
        _ => ElementKind::FeTurbulence,
    }
}

impl ElementKind {
    /// The kind named by an XML tag. A tag missing from the table becomes
    /// [`ElementKind::Unknown`] with the name unchanged, so markup svg3
    /// does not implement still survives in the tree.
    pub fn from_tag(tag: &str) -> (r: Self)
        ensures
            match known_kind(tag@) {
                Some(k) => r == k,
                None => r matches ElementKind::Unknown(name) && name@ == tag@,
            },
            r matches ElementKind::Unknown(name) ==> known_kind(name@) is None,
    {
        let mut i: usize = 0;
        while i < KNOWN_TAG_COUNT
            invariant
                i <= KNOWN_TAG_COUNT,
                known_kind(tag@) == known_kind_from(tag@, i as int),
            decreases KNOWN_TAG_COUNT - i,
        {
            let kind = table_entry(i);
            if str_eq(kind.as_tag(), tag) {
                return kind;
            }
            i = i + 1;
        }
        ElementKind::Unknown(tag.to_owned())
    }

    /// The tag name of this kind.
    pub fn as_tag(&self) -> (r: &str)
        ensures
            r@ == tag_of(*self),
    {
        match self {
            ElementKind::Svg => "svg",
            ElementKind::Group => "g",
            ElementKind::Defs => "defs",
            ElementKind::Marker => "marker",
            ElementKind::Path => "path",
            ElementKind::Line => "line",
            ElementKind::Polyline => "polyline",
            ElementKind::Polygon => "polygon",
            ElementKind::Rect => "rect",
            ElementKind::Circle => "circle",
            ElementKind::Ellipse => "ellipse",
            ElementKind::Cube => "cube",
            ElementKind::Ellipsoid => "ellipsoid",
            ElementKind::Cylinder => "cylinder",
            ElementKind::Surface => "surface",
            ElementKind::LinearGradient => "linearGradient",
            ElementKind::RadialGradient => "radialGradient",
            ElementKind::Stop => "stop",
            ElementKind::Pattern => "pattern",
            ElementKind::ClipPath => "clipPath",
            ElementKind::Mask => "mask",
            ElementKind::ForeignObject => "foreignObject",
            ElementKind::Filter => "filter",
            ElementKind::FeBlend => "feBlend",
            ElementKind::FeColorMatrix => "feColorMatrix",
            ElementKind::FeComponentTransfer => "feComponentTransfer",
            ElementKind::FeComposite => "feComposite",
            ElementKind::FeConvolveMatrix => "feConvolveMatrix",
            ElementKind::FeDiffuseLighting => "feDiffuseLighting",
            ElementKind::FeDisplacementMap => "feDisplacementMap",
            ElementKind::FeDistantLight => "feDistantLight",
            ElementKind::FeDropShadow => "feDropShadow",
            ElementKind::FeFlood => "feFlood",
            ElementKind::FeFuncA => "feFuncA",
            ElementKind::FeFuncB => "feFuncB",
            ElementKind::FeFuncG => "feFuncG",
            ElementKind::FeFuncR => "feFuncR",
            ElementKind::FeGaussianBlur => "feGaussianBlur",
            ElementKind::FeImage => "feImage",
            ElementKind::FeMerge => "feMerge",
            ElementKind::FeMergeNode => "feMergeNode",
            ElementKind::FeMorphology => "feMorphology",
            ElementKind::FeOffset => "feOffset",
            ElementKind::FePointLight => "fePointLight",
            ElementKind::FeSpecularLighting => "feSpecularLighting",
            ElementKind::FeSpotLight => "feSpotLight",
            ElementKind::FeTile => "feTile",
            ElementKind::FeTurbulence => "feTurbulence",
            ElementKind::Unknown(name) => name.as_str(),
        }
    }

    /// A copy of this kind.
    pub fn duplicate(&self) -> (r: Self)
        ensures
            r == *self,
    {
        match self {
            ElementKind::Unknown(name) => ElementKind::Unknown(name.clone()),
            ElementKind::Svg => ElementKind::Svg,
            ElementKind::Group => ElementKind::Group,
            ElementKind::Defs => ElementKind::Defs,
            ElementKind::Marker => ElementKind::Marker,
            ElementKind::Path => ElementKind::Path,
            ElementKind::Line => ElementKind::Line,
            ElementKind::Polyline => ElementKind::Polyline,
            ElementKind::Polygon => ElementKind::Polygon,
            ElementKind::Rect => ElementKind::Rect,
            ElementKind::Circle => ElementKind::Circle,
            ElementKind::Ellipse => ElementKind::Ellipse,
            ElementKind::Cube => ElementKind::Cube,
            ElementKind::Ellipsoid => ElementKind::Ellipsoid,
            ElementKind::Cylinder => ElementKind::Cylinder,
            ElementKind::Surface => ElementKind::Surface,
            ElementKind::LinearGradient => ElementKind::LinearGradient,
            ElementKind::RadialGradient => ElementKind::RadialGradient,
            ElementKind::Stop => ElementKind::Stop,
            ElementKind::Pattern => ElementKind::Pattern,
            ElementKind::ClipPath => ElementKind::ClipPath,
            ElementKind::Mask => ElementKind::Mask,
            ElementKind::ForeignObject => ElementKind::ForeignObject,
            ElementKind::Filter => ElementKind::Filter,
            ElementKind::FeBlend => ElementKind::FeBlend,
            ElementKind::FeColorMatrix => ElementKind::FeColorMatrix,
            ElementKind::FeComponentTransfer => ElementKind::FeComponentTransfer,
            ElementKind::FeComposite => ElementKind::FeComposite,
            ElementKind::FeConvolveMatrix => ElementKind::FeConvolveMatrix,
            ElementKind::FeDiffuseLighting => ElementKind::FeDiffuseLighting,
            ElementKind::FeDisplacementMap => ElementKind::FeDisplacementMap,
            ElementKind::FeDistantLight => ElementKind::FeDistantLight,
            ElementKind::FeDropShadow => ElementKind::FeDropShadow,
            ElementKind::FeFlood => ElementKind::FeFlood,
            ElementKind::FeFuncA => ElementKind::FeFuncA,
            ElementKind::FeFuncB => ElementKind::FeFuncB,
            ElementKind::FeFuncG => ElementKind::FeFuncG,
            ElementKind::FeFuncR => ElementKind::FeFuncR,
            ElementKind::FeGaussianBlur => ElementKind::FeGaussianBlur,
            ElementKind::FeImage => ElementKind::FeImage,
            ElementKind::FeMerge => ElementKind::FeMerge,
            ElementKind::FeMergeNode => ElementKind::FeMergeNode,
            ElementKind::FeMorphology => ElementKind::FeMorphology,
            ElementKind::FeOffset => ElementKind::FeOffset,
            ElementKind::FePointLight => ElementKind::FePointLight,
            ElementKind::FeSpecularLighting => ElementKind::FeSpecularLighting,
            ElementKind::FeSpotLight => ElementKind::FeSpotLight,
            ElementKind::FeTile => ElementKind::FeTile,
            ElementKind::FeTurbulence => ElementKind::FeTurbulence,
        }
    }
}

/// The position of a known kind in the tag table.
pub open spec fn table_position(kind: ElementKind) -> int {
    match kind {
        ElementKind::Svg => 0,
        ElementKind::Group => 1,
        ElementKind::Defs => 2,
        ElementKind::Marker => 3,
        ElementKind::Path => 4,
        ElementKind::Line => 5,
        ElementKind::Polyline => 6,
        ElementKind::Polygon => 7,
        ElementKind::Rect => 8,
        ElementKind::Circle => 9,
        ElementKind::Ellipse => 10,
        ElementKind::Cube => 11,
        ElementKind::Ellipsoid => 12,
        ElementKind::Cylinder => 13,
        ElementKind::Surface => 14,
        ElementKind::LinearGradient => 15,
        ElementKind::RadialGradient => 16,
        ElementKind::Stop => 17,
        ElementKind::Pattern => 18,
        ElementKind::ClipPath => 19,
        ElementKind::Mask => 20,
        ElementKind::ForeignObject => 21,
        ElementKind::Filter => 22,
        ElementKind::FeBlend => 23,
        ElementKind::FeColorMatrix => 24,
        ElementKind::FeComponentTransfer => 25,
        ElementKind::FeComposite => 26,
        ElementKind::FeConvolveMatrix => 27,
        ElementKind::FeDiffuseLighting => 28,
        ElementKind::FeDisplacementMap => 29,
        ElementKind::FeDistantLight => 30,
        ElementKind::FeDropShadow => 31,
        ElementKind::FeFlood => 32,
        ElementKind::FeFuncA => 33,
        ElementKind::FeFuncB => 34,
        ElementKind::FeFuncG => 35,
        ElementKind::FeFuncR => 36,
        ElementKind::FeGaussianBlur => 37,
        ElementKind::FeImage => 38,
        ElementKind::FeMerge => 39,
        ElementKind::FeMergeNode => 40,
        ElementKind::FeMorphology => 41,
        ElementKind::FeOffset => 42,
        ElementKind::FePointLight => 43,
        ElementKind::FeSpecularLighting => 44,
        ElementKind::FeSpotLight => 45,
        ElementKind::FeTile => 46,
        ElementKind::FeTurbulence => 47,
        ElementKind::Unknown(_) => -1,
    }
}

/// No table entry before a known kind's own position carries its tag.
proof fn lemma_earlier_tags_differ(kind: ElementKind, j: int)
    requires
        !(kind is Unknown),
        0 <= j < table_position(kind),
    ensures
        tag_of(table_kind(j)) != tag_of(kind),
{
    reveal_strlit("svg");
    reveal_strlit("g");
    reveal_strlit("defs");
    reveal_strlit("marker");
    reveal_strlit("path");
    reveal_strlit("line");
    reveal_strlit("polyline");
    reveal_strlit("polygon");
    reveal_strlit("rect");
    reveal_strlit("circle");
    reveal_strlit("ellipse");
    reveal_strlit("cube");
    reveal_strlit("ellipsoid");
    reveal_strlit("cylinder");
    reveal_strlit("surface");
    reveal_strlit("linearGradient");
    reveal_strlit("radialGradient");
    reveal_strlit("stop");
    reveal_strlit("pattern");
    reveal_strlit("clipPath");
    reveal_strlit("mask");
    reveal_strlit("foreignObject");
    reveal_strlit("filter");
    reveal_strlit("feBlend");
    reveal_strlit("feColorMatrix");
    reveal_strlit("feComponentTransfer");
    reveal_strlit("feComposite");
    reveal_strlit("feConvolveMatrix");
    reveal_strlit("feDiffuseLighting");
    reveal_strlit("feDisplacementMap");
    reveal_strlit("feDistantLight");
    reveal_strlit("feDropShadow");
    reveal_strlit("feFlood");
    reveal_strlit("feFuncA");
    reveal_strlit("feFuncB");
    reveal_strlit("feFuncG");
    reveal_strlit("feFuncR");
    reveal_strlit("feGaussianBlur");
    reveal_strlit("feImage");
    reveal_strlit("feMerge");
    reveal_strlit("feMergeNode");
    reveal_strlit("feMorphology");
    reveal_strlit("feOffset");
    reveal_strlit("fePointLight");
    reveal_strlit("feSpecularLighting");
    reveal_strlit("feSpotLight");
    reveal_strlit("feTile");
    reveal_strlit("feTurbulence");
    assert("svg"@.len() == 3);
    assert("g"@.len() == 1);
    assert("defs"@.len() == 4);
    assert("marker"@.len() == 6);
    assert("path"@.len() == 4);
    assert("line"@.len() == 4);
    assert("polyline"@.len() == 8);
    assert("polygon"@.len() == 7);
    assert("rect"@.len() == 4);
    assert("circle"@.len() == 6);
    assert("ellipse"@.len() == 7);
    assert("cube"@.len() == 4);
    assert("ellipsoid"@.len() == 9);
    assert("cylinder"@.len() == 8);
    assert("surface"@.len() == 7);
    assert("linearGradient"@.len() == 14);
    assert("radialGradient"@.len() == 14);
    assert("stop"@.len() == 4);
    assert("pattern"@.len() == 7);
    assert("clipPath"@.len() == 8);
    assert("mask"@.len() == 4);
    assert("foreignObject"@.len() == 13);
    assert("filter"@.len() == 6);
    assert("feBlend"@.len() == 7);
    assert("feColorMatrix"@.len() == 13);
    assert("feComponentTransfer"@.len() == 19);
    assert("feComposite"@.len() == 11);
    assert("feConvolveMatrix"@.len() == 16);
    assert("feDiffuseLighting"@.len() == 17);
    assert("feDisplacementMap"@.len() == 17);
    assert("feDistantLight"@.len() == 14);
    assert("feDropShadow"@.len() == 12);
    assert("feFlood"@.len() == 7);
    assert("feFuncA"@.len() == 7);
    assert("feFuncB"@.len() == 7);
    assert("feFuncG"@.len() == 7);
    assert("feFuncR"@.len() == 7);
    assert("feGaussianBlur"@.len() == 14);
    assert("feImage"@.len() == 7);
    assert("feMerge"@.len() == 7);
    assert("feMergeNode"@.len() == 11);
    assert("feMorphology"@.len() == 12);
    assert("feOffset"@.len() == 8);
    assert("fePointLight"@.len() == 12);
    assert("feSpecularLighting"@.len() == 18);
    assert("feSpotLight"@.len() == 11);
    assert("feTile"@.len() == 6);
    assert("feTurbulence"@.len() == 12);
    match kind {
        ElementKind::Svg => assert(table_position(kind) == 0),
        ElementKind::Group => {},
        ElementKind::Defs => {},
        ElementKind::Marker => {},
        ElementKind::Path => {
            if j == 2 { assert("defs"@[0] != "path"@[0]); }
        },
        ElementKind::Line => {
            if j == 2 { assert("defs"@[0] != "line"@[0]); }
            if j == 4 { assert("path"@[0] != "line"@[0]); }
        },
        ElementKind::Polyline => {},
        ElementKind::Polygon => {},
        ElementKind::Rect => {
            if j == 2 { assert("defs"@[0] != "rect"@[0]); }
            if j == 4 { assert("path"@[0] != "rect"@[0]); }
            if j == 5 { assert("line"@[0] != "rect"@[0]); }
        },
        ElementKind::Circle => {
            if j == 3 { assert("marker"@[0] != "circle"@[0]); }
        },
        ElementKind::Ellipse => {
            if j == 7 { assert("polygon"@[0] != "ellipse"@[0]); }
        },
        ElementKind::Cube => {
            if j == 2 { assert("defs"@[0] != "cube"@[0]); }
            if j == 4 { assert("path"@[0] != "cube"@[0]); }
            if j == 5 { assert("line"@[0] != "cube"@[0]); }
            if j == 8 { assert("rect"@[0] != "cube"@[0]); }
        },
        ElementKind::Ellipsoid => {},
        ElementKind::Cylinder => {
            if j == 6 { assert("polyline"@[0] != "cylinder"@[0]); }
        },
        ElementKind::Surface => {
            if j == 7 { assert("polygon"@[0] != "surface"@[0]); }
            if j == 10 { assert("ellipse"@[0] != "surface"@[0]); }
        },
        ElementKind::LinearGradient => {},
        ElementKind::RadialGradient => {
            if j == 15 { assert("linearGradient"@[0] != "radialGradient"@[0]); }
        },
        ElementKind::Stop => {
            if j == 2 { assert("defs"@[0] != "stop"@[0]); }
            if j == 4 { assert("path"@[0] != "stop"@[0]); }
            if j == 5 { assert("line"@[0] != "stop"@[0]); }
            if j == 8 { assert("rect"@[0] != "stop"@[0]); }
            if j == 11 { assert("cube"@[0] != "stop"@[0]); }
        },
        ElementKind::Pattern => {
            if j == 7 { assert("polygon"@[1] != "pattern"@[1]); }
            if j == 10 { assert("ellipse"@[0] != "pattern"@[0]); }
            if j == 14 { assert("surface"@[0] != "pattern"@[0]); }
        },
        ElementKind::ClipPath => {
            if j == 6 { assert("polyline"@[0] != "clipPath"@[0]); }
            if j == 13 { assert("cylinder"@[1] != "clipPath"@[1]); }
        },
        ElementKind::Mask => {
            if j == 2 { assert("defs"@[0] != "mask"@[0]); }
            if j == 4 { assert("path"@[0] != "mask"@[0]); }
            if j == 5 { assert("line"@[0] != "mask"@[0]); }
            if j == 8 { assert("rect"@[0] != "mask"@[0]); }
            if j == 11 { assert("cube"@[0] != "mask"@[0]); }
            if j == 17 { assert("stop"@[0] != "mask"@[0]); }
        },
        ElementKind::ForeignObject => {},
        ElementKind::Filter => {
            if j == 3 { assert("marker"@[0] != "filter"@[0]); }
            if j == 9 { assert("circle"@[0] != "filter"@[0]); }
        },
        ElementKind::FeBlend => {
            if j == 7 { assert("polygon"@[0] != "feBlend"@[0]); }
            if j == 10 { assert("ellipse"@[0] != "feBlend"@[0]); }
            if j == 14 { assert("surface"@[0] != "feBlend"@[0]); }
            if j == 18 { assert("pattern"@[0] != "feBlend"@[0]); }
        },
        ElementKind::FeColorMatrix => {
            if j == 21 { assert("foreignObject"@[1] != "feColorMatrix"@[1]); }
        },
        ElementKind::FeComponentTransfer => {},
        ElementKind::FeComposite => {},
        ElementKind::FeConvolveMatrix => {},
        ElementKind::FeDiffuseLighting => {},
        ElementKind::FeDisplacementMap => {
            if j == 28 { assert("feDiffuseLighting"@[4] != "feDisplacementMap"@[4]); }
        },
        ElementKind::FeDistantLight => {
            if j == 15 { assert("linearGradient"@[0] != "feDistantLight"@[0]); }
            if j == 16 { assert("radialGradient"@[0] != "feDistantLight"@[0]); }
        },
        ElementKind::FeDropShadow => {},
        ElementKind::FeFlood => {
            if j == 7 { assert("polygon"@[0] != "feFlood"@[0]); }
            if j == 10 { assert("ellipse"@[0] != "feFlood"@[0]); }
            if j == 14 { assert("surface"@[0] != "feFlood"@[0]); }
            if j == 18 { assert("pattern"@[0] != "feFlood"@[0]); }
            if j == 23 { assert("feBlend"@[2] != "feFlood"@[2]); }
        },
        ElementKind::FeFuncA => {
            if j == 7 { assert("polygon"@[0] != "feFuncA"@[0]); }
            if j == 10 { assert("ellipse"@[0] != "feFuncA"@[0]); }
            if j == 14 { assert("surface"@[0] != "feFuncA"@[0]); }
            if j == 18 { assert("pattern"@[0] != "feFuncA"@[0]); }
            if j == 23 { assert("feBlend"@[2] != "feFuncA"@[2]); }
            if j == 32 { assert("feFlood"@[3] != "feFuncA"@[3]); }
        },
        ElementKind::FeFuncB => {
            if j == 7 { assert("polygon"@[0] != "feFuncB"@[0]); }
            if j == 10 { assert("ellipse"@[0] != "feFuncB"@[0]); }
            if j == 14 { assert("surface"@[0] != "feFuncB"@[0]); }
            if j == 18 { assert("pattern"@[0] != "feFuncB"@[0]); }
            if j == 23 { assert("feBlend"@[2] != "feFuncB"@[2]); }
            if j == 32 { assert("feFlood"@[3] != "feFuncB"@[3]); }
            if j == 33 { assert("feFuncA"@[6] != "feFuncB"@[6]); }
        },
        ElementKind::FeFuncG => {
            if j == 7 { assert("polygon"@[0] != "feFuncG"@[0]); }
            if j == 10 { assert("ellipse"@[0] != "feFuncG"@[0]); }
            if j == 14 { assert("surface"@[0] != "feFuncG"@[0]); }
            if j == 18 { assert("pattern"@[0] != "feFuncG"@[0]); }
            if j == 23 { assert("feBlend"@[2] != "feFuncG"@[2]); }
            if j == 32 { assert("feFlood"@[3] != "feFuncG"@[3]); }
            if j == 33 { assert("feFuncA"@[6] != "feFuncG"@[6]); }
            if j == 34 { assert("feFuncB"@[6] != "feFuncG"@[6]); }
        },
        ElementKind::FeFuncR => {
            if j == 7 { assert("polygon"@[0] != "feFuncR"@[0]); }
            if j == 10 { assert("ellipse"@[0] != "feFuncR"@[0]); }
            if j == 14 { assert("surface"@[0] != "feFuncR"@[0]); }
            if j == 18 { assert("pattern"@[0] != "feFuncR"@[0]); }
            if j == 23 { assert("feBlend"@[2] != "feFuncR"@[2]); }
            if j == 32 { assert("feFlood"@[3] != "feFuncR"@[3]); }
            if j == 33 { assert("feFuncA"@[6] != "feFuncR"@[6]); }
            if j == 34 { assert("feFuncB"@[6] != "feFuncR"@[6]); }
            if j == 35 { assert("feFuncG"@[6] != "feFuncR"@[6]); }
        },
        ElementKind::FeGaussianBlur => {
            if j == 15 { assert("linearGradient"@[0] != "feGaussianBlur"@[0]); }
            if j == 16 { assert("radialGradient"@[0] != "feGaussianBlur"@[0]); }
            if j == 30 { assert("feDistantLight"@[2] != "feGaussianBlur"@[2]); }
        },
        ElementKind::FeImage => {
            if j == 7 { assert("polygon"@[0] != "feImage"@[0]); }
            if j == 10 { assert("ellipse"@[0] != "feImage"@[0]); }
            if j == 14 { assert("surface"@[0] != "feImage"@[0]); }
            if j == 18 { assert("pattern"@[0] != "feImage"@[0]); }
            if j == 23 { assert("feBlend"@[2] != "feImage"@[2]); }
            if j == 32 { assert("feFlood"@[2] != "feImage"@[2]); }
            if j == 33 { assert("feFuncA"@[2] != "feImage"@[2]); }
            if j == 34 { assert("feFuncB"@[2] != "feImage"@[2]); }
            if j == 35 { assert("feFuncG"@[2] != "feImage"@[2]); }
            if j == 36 { assert("feFuncR"@[2] != "feImage"@[2]); }
        },
        ElementKind::FeMerge => {
            if j == 7 { assert("polygon"@[0] != "feMerge"@[0]); }
            if j == 10 { assert("ellipse"@[0] != "feMerge"@[0]); }
            if j == 14 { assert("surface"@[0] != "feMerge"@[0]); }
            if j == 18 { assert("pattern"@[0] != "feMerge"@[0]); }
            if j == 23 { assert("feBlend"@[2] != "feMerge"@[2]); }
            if j == 32 { assert("feFlood"@[2] != "feMerge"@[2]); }
            if j == 33 { assert("feFuncA"@[2] != "feMerge"@[2]); }
            if j == 34 { assert("feFuncB"@[2] != "feMerge"@[2]); }
            if j == 35 { assert("feFuncG"@[2] != "feMerge"@[2]); }
            if j == 36 { assert("feFuncR"@[2] != "feMerge"@[2]); }
            if j == 38 { assert("feImage"@[2] != "feMerge"@[2]); }
        },
        ElementKind::FeMergeNode => {
            if j == 26 { assert("feComposite"@[2] != "feMergeNode"@[2]); }
        },
        ElementKind::FeMorphology => {
            if j == 31 { assert("feDropShadow"@[2] != "feMorphology"@[2]); }
        },
        ElementKind::FeOffset => {
            if j == 6 { assert("polyline"@[0] != "feOffset"@[0]); }
            if j == 13 { assert("cylinder"@[0] != "feOffset"@[0]); }
            if j == 19 { assert("clipPath"@[0] != "feOffset"@[0]); }
        },
        ElementKind::FePointLight => {
            if j == 31 { assert("feDropShadow"@[2] != "fePointLight"@[2]); }
            if j == 41 { assert("feMorphology"@[2] != "fePointLight"@[2]); }
        },
        ElementKind::FeSpecularLighting => {},
        ElementKind::FeSpotLight => {
            if j == 26 { assert("feComposite"@[2] != "feSpotLight"@[2]); }
            if j == 40 { assert("feMergeNode"@[2] != "feSpotLight"@[2]); }
        },
        ElementKind::FeTile => {
            if j == 3 { assert("marker"@[0] != "feTile"@[0]); }
            if j == 9 { assert("circle"@[0] != "feTile"@[0]); }
            if j == 22 { assert("filter"@[1] != "feTile"@[1]); }
        },
        ElementKind::FeTurbulence => {
            if j == 31 { assert("feDropShadow"@[2] != "feTurbulence"@[2]); }
            if j == 41 { assert("feMorphology"@[2] != "feTurbulence"@[2]); }
            if j == 43 { assert("fePointLight"@[2] != "feTurbulence"@[2]); }
        },
        ElementKind::Unknown(_) => {},
    }
}

proof fn lemma_known_kind_from_position(kind: ElementKind, i: int)
    requires
        !(kind is Unknown),
        0 <= i <= table_position(kind),
    ensures
        known_kind_from(tag_of(kind), i) == Some(kind),
    decreases table_position(kind) - i,
{
    if i < table_position(kind) {
        lemma_earlier_tags_differ(kind, i);
        lemma_known_kind_from_position(kind, i + 1);
    } else {
        assert(table_kind(i) == kind);
    }
}

/// Reading a known kind's tag name gives the kind back.
pub proof fn lemma_tag_round_trip(kind: ElementKind)
    requires
        !(kind is Unknown),
    ensures
        known_kind(tag_of(kind)) == Some(kind),
{
    lemma_known_kind_from_position(kind, 0);
}

proof fn lemma_known_kind_from_tag(tag: Seq<char>, i: int)
    ensures
        known_kind_from(tag, i) matches Some(k) ==> tag_of(k) == tag && !(k is Unknown),
    decreases KNOWN_TAG_COUNT - i,
{
    if 0 <= i < KNOWN_TAG_COUNT && tag_of(table_kind(i)) != tag {
        lemma_known_kind_from_tag(tag, i + 1);
    }
}

/// Writing back the tag a kind was read from gives the same tag: a known
/// tag names a kind whose tag it is (an unknown tag is kept verbatim by
/// [`ElementKind::from_tag`]).
pub proof fn lemma_known_kind_tag(tag: Seq<char>)
    ensures
        known_kind(tag) matches Some(k) ==> tag_of(k) == tag && !(k is Unknown),
{
    lemma_known_kind_from_tag(tag, 0);
}

/// Distinct known kinds have distinct tag names.
pub proof fn lemma_tag_injective(a: ElementKind, b: ElementKind)
    requires
        !(a is Unknown),
        !(b is Unknown),
        tag_of(a) == tag_of(b),
    ensures
        a == b,
{
    lemma_tag_round_trip(a);
    lemma_tag_round_trip(b);
}

} // verus!
