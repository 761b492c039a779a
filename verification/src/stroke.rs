//! Stroke keyword attributes: `stroke-linecap` and `stroke-linejoin`.
use vstd::prelude::*;

use crate::dom::Element;
use crate::text::{ascii_lower, chars_of, range_lower_eq, trim, trim_bounds};

verus! {

/// How open stroke ends are drawn.
#[derive(Debug, Clone, Copy, PartialEq, Eq, Structural)]
pub enum LineCap {
    /// Flat, at the end point.
    Butt,
    /// A half disc.
    Round,
    /// A half square.
    Square,
}

/// How stroke corners are drawn.
#[derive(Debug, Clone, Copy, PartialEq, Eq, Structural)]
pub enum LineJoin {
    /// A sharp corner, bevelled past the miter limit.
    Miter,
    /// A sharp corner, clipped at the miter limit.
    MiterClip,
    /// A rounded corner.
    Round,
    /// A bevelled corner.
    Bevel,
}

/// The keyword of attribute `name`: its value trimmed and lower-cased in
/// ASCII, if the attribute is present.
pub open spec fn keyword(attributes: Map<Seq<char>, Seq<char>>, name: Seq<char>) -> Option<Seq<char>> {
    if attributes.contains_key(name) {
        Some(ascii_lower(trim(attributes[name])))
    } else {
        None
    }
}

/// The `stroke-linecap` of an element: `round` or `square`, else `butt`.
pub open spec fn linecap_of(attributes: Map<Seq<char>, Seq<char>>) -> LineCap {
    match keyword(attributes, "stroke-linecap"@) {
        Some(k) => if k == "round"@ {
            LineCap::Round
        } else if k == "square"@ {
            LineCap::Square
        } else {
            LineCap::Butt
        },
        None => LineCap::Butt,
    }
}

/// The `stroke-linejoin` of an element: `round`, `bevel` or `miter-clip`,
/// else `miter`.
pub open spec fn linejoin_of(attributes: Map<Seq<char>, Seq<char>>) -> LineJoin {
    match keyword(attributes, "stroke-linejoin"@) {
        Some(k) => if k == "round"@ {
            LineJoin::Round
        } else if k == "bevel"@ {
            LineJoin::Bevel
        } else if k == "miter-clip"@ {
            LineJoin::MiterClip
        } else {
            LineJoin::Miter
        },
        None => LineJoin::Miter,
    }
}

/// The character range of the trimmed value of attribute `name`.
fn trimmed_attribute(element: &Element, name: &str) -> (r: Option<(Vec<char>, usize, usize)>)
    ensures
        r is None ==> !element.attributes@.contains_key(name@),
        r matches Some((v, a, b)) ==> element.attributes@.contains_key(name@) && a <= b <= v@.len()
            && v@.subrange(a as int, b as int) == trim(element.attributes@[name@]),
{
    match element.attributes.get(name) {
        Some(value) => {
            let v = chars_of(value.as_str());
            let (a, b) = trim_bounds(&v);
            Some((v, a, b))
        },
        None => None,
    }
}

/// Read `stroke-linecap` (see [`linecap_of`]).
pub fn resolve_linecap(element: &Element) -> (r: LineCap)
    ensures
        r == linecap_of(element.attributes@),
{
    match trimmed_attribute(element, "stroke-linecap") {
        Some((v, a, b)) => {
            if range_lower_eq(&v, a, b, "round") {
                LineCap::Round
            } else if range_lower_eq(&v, a, b, "square") {
                LineCap::Square
            } else {
                LineCap::Butt
            }
        },
        None => LineCap::Butt,
    }
}

/// Read `stroke-linejoin` (see [`linejoin_of`]).
pub fn resolve_linejoin(element: &Element) -> (r: LineJoin)
    ensures
        r == linejoin_of(element.attributes@),
{
    match trimmed_attribute(element, "stroke-linejoin") {
        Some((v, a, b)) => {
            if range_lower_eq(&v, a, b, "round") {
                LineJoin::Round
            } else if range_lower_eq(&v, a, b, "bevel") {
                LineJoin::Bevel
            } else if range_lower_eq(&v, a, b, "miter-clip") {
                LineJoin::MiterClip
            } else {
                LineJoin::Miter
            }
        },
        None => LineJoin::Miter,
    }
}

} // verus!
