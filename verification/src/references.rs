//! Fragment references inside attribute values: `url(#id)` references,
//! paint references with a fallback, `href="#id"` targets, and properties
//! of the inline `style` attribute.
use vstd::prelude::*;

use crate::dom::Element;
use crate::text::{
    chars_of, eq_ignore_case, find_in_range, first_index_of, range_eq, range_eq_ignore_case, trim,
    trim_range,
};

verus! {

/// `s` with one pair of matching `q` quotes removed, if it is quoted.
pub open spec fn strip_quotes(s: Seq<char>, q: char) -> Option<Seq<char>> {
    if s.len() >= 2 && s[0] == q && s.last() == q {
        Some(s.subrange(1, s.len() - 1))
    } else {
        None
    }
}

/// `s` unquoted: double quotes first, then single quotes, else unchanged.
pub open spec fn unquote(s: Seq<char>) -> Seq<char> {
    match strip_quotes(s, '"') {
        Some(inner) => inner,
        None => match strip_quotes(s, '\'') {
            Some(inner) => inner,
            None => s,
        },
    }
}

/// The fragment id named by the inside of `url( ... )`: trimmed, unquoted,
/// trimmed again, then a `#` and a non-empty trimmed id.
pub open spec fn fragment_id(inner: Seq<char>) -> Option<Seq<char>> {
    let u = trim(unquote(trim(inner)));
    if u.len() > 0 && u[0] == '#' && trim(u.drop_first()).len() > 0 {
        Some(trim(u.drop_first()))
    } else {
        None
    }
}

/// The id referenced by a `url(#id)` attribute value such as `filter`,
/// `clip-path`, `mask` or `marker-start`; `None` for `none` and for
/// anything that is not such a reference.
pub open spec fn reference_id(value: Seq<char>) -> Option<Seq<char>> {
    let t = trim(value);
    if eq_ignore_case(t, "none"@) {
        None
    } else if t.len() >= 5 && t.take(4) == "url("@ && t.last() == ')' {
        fragment_id(t.subrange(4, t.len() - 1))
    } else {
        None
    }
}

/// Range form of `trim(unquote(s))`.
fn unquote_range(v: &Vec<char>, a: usize, b: usize) -> (r: (usize, usize))
    requires
        a <= b <= v@.len(),
    ensures
        a <= r.0 <= r.1 <= b,
        v@.subrange(r.0 as int, r.1 as int) == trim(unquote(v@.subrange(a as int, b as int))),
{
    let ghost s = v@.subrange(a as int, b as int);
    if b - a >= 2 && v[a] == '"' && v[b - 1] == '"' {
        assert(s[0] == v@[a as int] && s.last() == v@[b - 1]);
        assert(s.subrange(1, s.len() - 1) =~= v@.subrange(a + 1, b - 1));
        trim_range(v, a + 1, b - 1)
    } else if b - a >= 2 && v[a] == '\'' && v[b - 1] == '\'' {
        assert(s[0] == v@[a as int] && s.last() == v@[b - 1]);
        assert(s.subrange(1, s.len() - 1) =~= v@.subrange(a + 1, b - 1));
        trim_range(v, a + 1, b - 1)
    } else {
        proof {
            if s.len() >= 2 {
                assert(s[0] == v@[a as int] && s.last() == v@[b - 1]);
            }
        }
        trim_range(v, a, b)
    }
}

/// Range form of [`fragment_id`].
fn fragment_range(v: &Vec<char>, a: usize, b: usize) -> (r: Option<(usize, usize)>)
    requires
        a <= b <= v@.len(),
    ensures
        r matches Some((x, y)) ==> a <= x <= y <= b && fragment_id(v@.subrange(a as int, b as int))
            == Some(v@.subrange(x as int, y as int)),
        r is None ==> fragment_id(v@.subrange(a as int, b as int)) is None,
{
    let (ta, tb) = trim_range(v, a, b);
    let (ua, ub) = unquote_range(v, ta, tb);
    let ghost u = v@.subrange(ua as int, ub as int);
    if ua < ub && v[ua] == '#' {
        let (ia, ib) = trim_range(v, ua + 1, ub);
        assert(u.drop_first() =~= v@.subrange(ua + 1, ub as int));
        if ia < ib {
            Some((ia, ib))
        } else {
            None
        }
    } else {
        proof {
            if u.len() > 0 {
                assert(u[0] == v@[ua as int]);
            }
        }
        None
    }
}

/// The id referenced by a `url(#id)` value (see [`reference_id`]); shared
/// by the `filter`, `clip-path`, `mask` and marker properties.
pub fn url_reference_id(value: &str) -> (r: Option<&str>)
    ensures
        r matches Some(id) ==> reference_id(value@) == Some(id@),
        r is None ==> reference_id(value@) is None,
{
    let v = chars_of(value);
    let (a, b) = trim_range(&v, 0, v.len());
    assert(v@.subrange(0, v@.len() as int) =~= value@);
    let ghost t = value@.subrange(a as int, b as int);
    if range_eq_ignore_case(&v, a, b, "none") {
        return None;
    }
    if b - a >= 5 && range_eq(&v, a, a + 4, "url(") && v[b - 1] == ')' {
        assert(t.take(4) =~= v@.subrange(a as int, a + 4));
        assert(t.last() == v@[b - 1]);
        assert(t.subrange(4, t.len() - 1) =~= v@.subrange(a + 4, b - 1));
        match fragment_range(&v, a + 4, b - 1) {
            Some((x, y)) => Some(value.substring_char(x, y)),
            None => None,
        }
    } else {
        proof {
            if t.len() >= 5 {
                assert(t.take(4) =~= v@.subrange(a as int, a + 4));
                assert(t.last() == v@[b - 1]);
            }
        }
        None
    }
}

/// [`url_reference_id`] under the name the filter resolver uses.
pub fn filter_reference_id(value: &str) -> (r: Option<&str>)
    ensures
        r matches Some(id) ==> reference_id(value@) == Some(id@),
        r is None ==> reference_id(value@) is None,
{
    url_reference_id(value)
}

/// A paint value of the form `url(#id) [fallback]`.
pub struct PaintReference<'a> {
    /// The referenced paint server id.
    pub id: &'a str,
    /// The fallback paint after the closing parenthesis, trimmed, if any.
    pub fallback: Option<&'a str>,
}

/// `(id, fallback)` of a paint value `url(...) fallback`: the first `)`
/// ends the reference; the fallback is what follows, trimmed, if not empty.
pub open spec fn paint_reference(value: Seq<char>) -> Option<(Seq<char>, Option<Seq<char>>)> {
    let t = trim(value);
    if t.len() >= 4 && t.take(4) == "url("@ {
        let rest = t.skip(4);
        match first_index_of(rest, ')') {
            Some(close) => match fragment_id(rest.take(close)) {
                Some(id) => {
                    let fallback = trim(rest.skip(close + 1));
                    Some((id, if fallback.len() > 0 { Some(fallback) } else { None }))
                },
                None => None,
            },
            None => None,
        }
    } else {
        None
    }
}

impl<'a> PaintReference<'a> {
    /// Parse a `url(#id) [fallback]` paint value; `None` when `value` is
    /// not such a reference (see [`paint_reference`]).
    pub fn parse(value: &'a str) -> (r: Option<Self>)
        ensures
            r matches Some(p) ==> paint_reference(value@) == Some(
                (p.id@, if p.fallback is Some { Some(p.fallback->0@) } else { None }),
            ),
            r is None ==> paint_reference(value@) is None,
    {
        let v = chars_of(value);
        let (a, b) = trim_range(&v, 0, v.len());
        assert(v@.subrange(0, v@.len() as int) =~= value@);
        let ghost t = value@.subrange(a as int, b as int);
        if !(b - a >= 4 && range_eq(&v, a, a + 4, "url(")) {
            proof {
                if t.len() >= 4 {
                    assert(t.take(4) =~= v@.subrange(a as int, a + 4));
                }
            }
            return None;
        }
        assert(t.take(4) =~= v@.subrange(a as int, a + 4));
        let ghost rest = t.skip(4);
        assert(rest =~= v@.subrange(a + 4, b as int));
        let close = match find_in_range(&v, a + 4, b, ')') {
            Some(c) => c,
            None => return None,
        };
        assert(rest.take(close - (a + 4)) =~= v@.subrange(a + 4, close as int));
        let (x, y) = match fragment_range(&v, a + 4, close) {
            Some(range) => range,
            None => return None,
        };
        let (fa, fb) = trim_range(&v, close + 1, b);
        assert(rest.skip(close - (a + 4) + 1) =~= v@.subrange(close + 1, b as int));
        let id = value.substring_char(x, y);
        let fallback = if fa < fb {
            Some(value.substring_char(fa, fb))
        } else {
            None
        };
        Some(PaintReference { id, fallback })
    }
}

/// The value of property `name` in an inline style declaration list:
/// declarations are split at `;`, each at its first `:`; the first one
/// whose trimmed property is `name` gives its trimmed value.
pub open spec fn style_lookup(style: Seq<char>, name: Seq<char>) -> Option<Seq<char>>
    decreases style.len(),
{
    let (declaration, rest) = match first_index_of(style, ';') {
        Some(i) => (style.take(i), Some(style.skip(i + 1))),
        None => (style, None),
    };
    let hit = match first_index_of(declaration, ':') {
        Some(c) => if trim(declaration.take(c)) == name {
            Some(trim(declaration.skip(c + 1)))
        } else {
            None
        },
        None => None,
    };
    if hit is Some {
        hit
    } else {
        match rest {
            Some(r) => if r.len() < style.len() {
                style_lookup(r, name)
            } else {
                None
            },
            None => None,
        }
    }
}

/// The property `name` of the element's inline `style` attribute.
pub open spec fn style_property_spec(attributes: Map<Seq<char>, Seq<char>>, name: Seq<char>) -> Option<Seq<char>> {
    if attributes.contains_key("style"@) {
        style_lookup(attributes["style"@], name)
    } else {
        None
    }
}

/// [`style_lookup`] over `v[a..]`.
fn style_lookup_exec(v: &Vec<char>, a: usize, name: &str) -> (r: Option<(usize, usize)>)
    requires
        a <= v@.len(),
    ensures
        r matches Some((x, y)) ==> x <= y <= v@.len() && style_lookup(v@.skip(a as int), name@)
            == Some(v@.subrange(x as int, y as int)),
        r is None ==> style_lookup(v@.skip(a as int), name@) is None,
    decreases v@.len() - a,
{
    let n = v.len();
    let ghost s = v@.skip(a as int);
    assert(s =~= v@.subrange(a as int, n as int));
    let semi = find_in_range(v, a, n, ';');
    let end = match semi {
        Some(i) => i,
        None => n,
    };
    let ghost decl = v@.subrange(a as int, end as int);
    proof {
        if let Some(i) = semi {
            assert(s.take(i - a) =~= decl);
            assert(s.skip(i - a + 1) =~= v@.skip(i + 1));
        } else {
            assert(s =~= decl);
        }
    }
    if let Some(c) = find_in_range(v, a, end, ':') {
        let (pa, pb) = trim_range(v, a, c);
        assert(decl.take(c - a) =~= v@.subrange(a as int, c as int));
        assert(decl.skip(c - a + 1) =~= v@.subrange(c + 1, end as int));
        let matched = range_eq(v, pa, pb, name);
        if matched {
            let (va, vb) = trim_range(v, c + 1, end);
            return Some((va, vb));
        }
    }
    match semi {
        Some(i) => style_lookup_exec(v, i + 1, name),
        None => None,
    }
}

/// `element`'s inline `style` property `name`, if declared.
pub fn style_property<'a>(element: &'a Element, name: &str) -> (r: Option<&'a str>)
    ensures
        r matches Some(value) ==> style_property_spec(element.attributes@, name@) == Some(value@),
        r is None ==> style_property_spec(element.attributes@, name@) is None,
{
    match element.attributes.get("style") {
        Some(style) => {
            let text = style.as_str();
            let v = chars_of(text);
            assert(v@.skip(0) =~= v@);
            match style_lookup_exec(&v, 0, name) {
                Some((x, y)) => Some(text.substring_char(x, y)),
                None => None,
            }
        },
        None => None,
    }
}

/// The presentation attribute `name`, or else the same property of the
/// inline `style` attribute.
pub open spec fn presentation_or_style_spec(attributes: Map<Seq<char>, Seq<char>>, name: Seq<char>) -> Option<Seq<char>> {
    if attributes.contains_key(name) {
        Some(attributes[name])
    } else {
        style_property_spec(attributes, name)
    }
}

/// The presentation attribute `name` of `element`, falling back to the
/// same property in its inline `style`.
pub fn presentation_or_style<'a>(element: &'a Element, name: &str) -> (r: Option<&'a str>)
    ensures
        r matches Some(value) ==> presentation_or_style_spec(element.attributes@, name@) == Some(
            value@,
        ),
        r is None ==> presentation_or_style_spec(element.attributes@, name@) is None,
{
    match element.attributes.get(name) {
        Some(value) => Some(value.as_str()),
        None => style_property(element, name),
    }
}

/// The target of an `href="#id"` (or legacy `xlink:href`) attribute: the
/// value, trimmed, must start with `#`; the rest, trimmed, is the id.
pub open spec fn href_target(attributes: Map<Seq<char>, Seq<char>>) -> Option<Seq<char>> {
    let raw = if attributes.contains_key("href"@) {
        Some(attributes["href"@])
    } else if attributes.contains_key("xlink:href"@) {
        Some(attributes["xlink:href"@])
    } else {
        None
    };
    match raw {
        Some(r) => {
            let t = trim(r);
            if t.len() > 0 && t[0] == '#' {
                Some(trim(t.drop_first()))
            } else {
                None
            }
        },
        None => None,
    }
}

/// The `href` / `xlink:href` fragment target of `element` (see
/// [`href_target`]).
pub fn filter_href_target(element: &Element) -> (r: Option<String>)
    ensures
        r matches Some(id) ==> href_target(element.attributes@) == Some(id@),
        r is None ==> href_target(element.attributes@) is None,
{
    let raw = match element.attributes.get("href") {
        Some(raw) => raw,
        None => match element.attributes.get("xlink:href") {
            Some(raw) => raw,
            None => return None,
        },
    };
    let v = chars_of(raw.as_str());
    let (a, b) = trim_range(&v, 0, v.len());
    assert(v@.subrange(0, v@.len() as int) =~= raw@);
    let ghost t = v@.subrange(a as int, b as int);
    if a < b && v[a] == '#' {
        let (x, y) = trim_range(&v, a + 1, b);
        assert(t.drop_first() =~= v@.subrange(a + 1, b as int));
        Some(raw.as_str().substring_char(x, y).to_owned())
    } else {
        proof {
            if t.len() > 0 {
                assert(t[0] == v@[a as int]);
            }
        }
        None
    }
}

} // verus!
