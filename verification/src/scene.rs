//! Scene-walk decisions: which elements paint, which hide or own their
//! children, which presentation attributes flow from a container to its
//! descendants, and which painting features an element asks for.
use vstd::prelude::*;

use crate::dom::attributes::{keys_sorted, lemma_seq_lt_total, lemma_seq_lt_transitive, seq_lt};
use crate::dom::{AttributeMap, Element, ElementKind};
use crate::text::{chars_of, eq_ignore_ascii_case, eq_ignore_case, str_eq, trim, trim_str};

verus! {

/// Whether an element of `kind` is one of svg3's 3D graphics elements.
pub open spec fn is_3d_kind(kind: ElementKind) -> bool {
    kind is Cube || kind is Ellipsoid || kind is Cylinder || kind is Surface
}

/// Whether an element lies in the plane `z = 0` or is one of svg3's 3D
/// graphics elements, which keep their authored depth.
#[derive(Debug, Clone, Copy, PartialEq, Eq, Structural)]
pub enum ElementDimension {
    /// Lies in the plane `z = 0` (every SVG 1.1 graphics element).
    TwoD,
    /// A 3D graphics element.
    ThreeD,
}

impl ElementDimension {
    /// The dimension of elements of `kind`.
    pub fn of(kind: &ElementKind) -> (r: Self)
        ensures
            r == (if is_3d_kind(*kind) {
                ElementDimension::ThreeD
            } else {
                ElementDimension::TwoD
            }),
    {
        match kind {
            ElementKind::Cube | ElementKind::Ellipsoid | ElementKind::Cylinder | ElementKind::Surface => {
                ElementDimension::ThreeD
            },
            _ => ElementDimension::TwoD,
        }
    }
}

/// Containers whose subtree is never painted where it stands: definitions,
/// and `<foreignObject>`, whose HTML content svg3 does not host.
pub open spec fn is_definition_container_kind(kind: ElementKind) -> bool {
    kind is Defs || kind is Filter || kind is Marker || kind is ClipPath || kind is Mask
        || kind is LinearGradient || kind is RadialGradient || kind is Pattern || kind is ForeignObject
}

/// Executable [`is_definition_container_kind`].
pub fn is_definition_container(kind: &ElementKind) -> (r: bool)
    ensures
        r == is_definition_container_kind(*kind),
{
    matches!(
        kind,
        ElementKind::Defs | ElementKind::Filter | ElementKind::Marker | ElementKind::ClipPath
            | ElementKind::Mask | ElementKind::LinearGradient | ElementKind::RadialGradient
            | ElementKind::Pattern | ElementKind::ForeignObject
    )
}

/// Elements whose presentation attributes pass down to their children.
pub open spec fn inherits_to_children_kind(kind: ElementKind) -> bool {
    kind is Svg || kind is Group || kind is Marker
}

/// Executable [`inherits_to_children_kind`].
pub fn inherits_to_children(kind: &ElementKind) -> (r: bool)
    ensures
        r == inherits_to_children_kind(*kind),
{
    matches!(kind, ElementKind::Svg | ElementKind::Group | ElementKind::Marker)
}

/// Elements that produce geometry of their own.
pub open spec fn is_renderable_kind(kind: ElementKind) -> bool {
    kind is Rect || kind is Circle || kind is Ellipse || kind is Polygon || kind is Polyline
        || kind is Line || kind is Path || is_3d_kind(kind)
}

/// Executable [`is_renderable_kind`].
pub fn is_renderable_element(kind: &ElementKind) -> (r: bool)
    ensures
        r == is_renderable_kind(*kind),
{
    matches!(
        kind,
        ElementKind::Rect | ElementKind::Circle | ElementKind::Ellipse | ElementKind::Polygon
            | ElementKind::Polyline | ElementKind::Line | ElementKind::Path | ElementKind::Cube
            | ElementKind::Ellipsoid | ElementKind::Cylinder | ElementKind::Surface
    )
}

/// Executable [`is_3d_kind`].
pub fn is_svg3_3d_element(kind: &ElementKind) -> (r: bool)
    ensures
        r == is_3d_kind(*kind),
{
    matches!(
        kind,
        ElementKind::Cube | ElementKind::Ellipsoid | ElementKind::Cylinder | ElementKind::Surface
    )
}

/// Whether an element consumes its children as geometric input (a
/// `<surface>` reads its `<path>` children) instead of hosting them as
/// scene content.
pub fn owns_children(kind: &ElementKind) -> (r: bool)
    ensures
        r == (*kind is Surface),
{
    matches!(kind, ElementKind::Surface)
}

/// Number of presentation attributes that pass from a container to its
/// descendants.
pub const INHERITED_ATTRIBUTE_COUNT: usize = 16;

/// The presentation attributes that pass from a container to its
/// descendants, in the order in which they are applied.
pub open spec fn inherited_names() -> Seq<Seq<char>> {
    seq![
        "color"@,
        "fill"@,
        "fill-opacity"@,
        "fill-rule"@,
        "marker"@,
        "marker-end"@,
        "marker-mid"@,
        "marker-start"@,
        "stroke"@,
        "stroke-dasharray"@,
        "stroke-dashoffset"@,
        "stroke-linecap"@,
        "stroke-linejoin"@,
        "stroke-miterlimit"@,
        "stroke-opacity"@,
        "stroke-width"@,
    ]
}

/// The `k`-th inherited presentation attribute.
pub fn inherited_name(k: usize) -> (r: &'static str)
    requires
        k < INHERITED_ATTRIBUTE_COUNT,
    ensures
        r@ == inherited_names()[k as int],
{
    match k {
        0 => "color",
        1 => "fill",
        2 => "fill-opacity",
        3 => "fill-rule",
        4 => "marker",
        5 => "marker-end",
        6 => "marker-mid",
        7 => "marker-start",
        8 => "stroke",
        9 => "stroke-dasharray",
        10 => "stroke-dashoffset",
        11 => "stroke-linecap",
        12 => "stroke-linejoin",
        13 => "stroke-miterlimit",
        14 => "stroke-opacity",
        _ => "stroke-width",
    }
}

/// The value bound to `name` in `m`, if any.
pub open spec fn binding(m: Map<Seq<char>, Seq<char>>, name: Seq<char>) -> Option<Seq<char>> {
    if m.contains_key(name) {
        Some(m[name])
    } else {
        None
    }
}

/// The inherited attributes after copying, from the `k`-th inherited name
/// on, each one that `attrs` sets.
pub open spec fn enter_from(m: Map<Seq<char>, Seq<char>>, attrs: Map<Seq<char>, Seq<char>>, k: int) -> Map<Seq<char>, Seq<char>>
    decreases INHERITED_ATTRIBUTE_COUNT - k,
{
    if k < 0 || k >= INHERITED_ATTRIBUTE_COUNT {
        m
    } else {
        let name = inherited_names()[k];
        let next = if attrs.contains_key(name) {
            m.insert(name, attrs[name])
        } else {
            m
        };
        enter_from(next, attrs, k + 1)
    }
}

/// What [`enter_from`] overwrites, in order: each copied name with the
/// value it had before, if any.
pub open spec fn frame_from(m: Map<Seq<char>, Seq<char>>, attrs: Map<Seq<char>, Seq<char>>, k: int) -> Seq<(Seq<char>, Option<Seq<char>>)>
    decreases INHERITED_ATTRIBUTE_COUNT - k,
{
    if k < 0 || k >= INHERITED_ATTRIBUTE_COUNT {
        Seq::empty()
    } else {
        let name = inherited_names()[k];
        if attrs.contains_key(name) {
            seq![(name, binding(m, name))] + frame_from(m.insert(name, attrs[name]), attrs, k + 1)
        } else {
            frame_from(m, attrs, k + 1)
        }
    }
}

/// The inherited attributes below `element`, given those above it.
pub open spec fn entered(m: Map<Seq<char>, Seq<char>>, element: Element) -> Map<Seq<char>, Seq<char>> {
    if inherits_to_children_kind(element.kind) {
        enter_from(m, element.attributes@, 0)
    } else {
        m
    }
}

/// What entering `element` overwrites in `m`.
pub open spec fn entered_frame(m: Map<Seq<char>, Seq<char>>, element: Element) -> Seq<(Seq<char>, Option<Seq<char>>)> {
    if inherits_to_children_kind(element.kind) {
        frame_from(m, element.attributes@, 0)
    } else {
        Seq::empty()
    }
}

/// Put back one overwritten binding.
pub open spec fn restore(m: Map<Seq<char>, Seq<char>>, entry: (Seq<char>, Option<Seq<char>>)) -> Map<Seq<char>, Seq<char>> {
    match entry.1 {
        Some(v) => m.insert(entry.0, v),
        None => m.remove(entry.0),
    }
}

/// Put back every binding of `frame`, the last one first.
pub open spec fn exited(m: Map<Seq<char>, Seq<char>>, frame: Seq<(Seq<char>, Option<Seq<char>>)>) -> Map<Seq<char>, Seq<char>>
    decreases frame.len(),
{
    if frame.len() == 0 {
        m
    } else {
        restore(exited(m, frame.drop_first()), frame[0])
    }
}

proof fn lemma_exited_last(m: Map<Seq<char>, Seq<char>>, frame: Seq<(Seq<char>, Option<Seq<char>>)>)
    requires
        frame.len() > 0,
    ensures
        exited(m, frame) == exited(restore(m, frame.last()), frame.drop_last()),
    decreases frame.len(),
{
    let r = restore(m, frame.last());
    if frame.len() > 1 {
        let df = frame.drop_first();
        let dl = frame.drop_last();
        lemma_exited_last(m, df);
        assert(df.drop_last() =~= dl.drop_first());
        assert(df.last() == frame.last());
        assert(dl[0] == frame[0]);
        assert(exited(m, frame) == restore(exited(m, df), frame[0]));
        assert(exited(r, dl) == restore(exited(r, dl.drop_first()), dl[0]));
    } else {
        assert(frame.drop_first() =~= Seq::<(Seq<char>, Option<Seq<char>>)>::empty());
        assert(frame.drop_last() =~= Seq::<(Seq<char>, Option<Seq<char>>)>::empty());
        assert(exited(m, frame) == restore(exited(m, frame.drop_first()), frame[0]));
        assert(exited(r, frame.drop_last()) == r);
    }
}

proof fn lemma_exit_from_undoes_enter_from(m: Map<Seq<char>, Seq<char>>, attrs: Map<Seq<char>, Seq<char>>, k: int)
    requires
        0 <= k <= INHERITED_ATTRIBUTE_COUNT,
    ensures
        exited(enter_from(m, attrs, k), frame_from(m, attrs, k)) == m,
    decreases INHERITED_ATTRIBUTE_COUNT - k,
{
    if k < INHERITED_ATTRIBUTE_COUNT {
        let name = inherited_names()[k];
        if attrs.contains_key(name) {
            let next = m.insert(name, attrs[name]);
            lemma_exit_from_undoes_enter_from(next, attrs, k + 1);
            let rest = frame_from(next, attrs, k + 1);
            let frame = seq![(name, binding(m, name))] + rest;
            assert(frame.drop_first() =~= rest);
            assert(frame[0] == (name, binding(m, name)));
            if m.contains_key(name) {
                assert(next.insert(name, m[name]) =~= m);
            } else {
                assert(next.remove(name) =~= m);
            }
        } else {
            lemma_exit_from_undoes_enter_from(m, attrs, k + 1);
        }
    }
}

/// Leaving an element gives back exactly the inherited attributes that
/// Whether `name` is a presentation attribute that containers pass down to
/// their descendants: `color`, the fill properties, the marker properties
/// and the stroke properties.
pub open spec fn passes_down(name: Seq<char>) -> bool {
    name == "color"@
        || name == "fill"@
        || name == "fill-opacity"@
        || name == "fill-rule"@
        || name == "marker"@
        || name == "marker-end"@
        || name == "marker-mid"@
        || name == "marker-start"@
        || name == "stroke"@
        || name == "stroke-dasharray"@
        || name == "stroke-dashoffset"@
        || name == "stroke-linecap"@
        || name == "stroke-linejoin"@
        || name == "stroke-miterlimit"@
        || name == "stroke-opacity"@
        || name == "stroke-width"@
}

proof fn lemma_passes_down_listed(name: Seq<char>)
    ensures
        passes_down(name) <==> exists|j: int| 0 <= j < INHERITED_ATTRIBUTE_COUNT && #[trigger] inherited_names()[j] == name,
{
    if passes_down(name) {
        if name == "color"@ {
            assert(inherited_names()[0] == name);
        }
        if name == "fill"@ {
            assert(inherited_names()[1] == name);
        }
        if name == "fill-opacity"@ {
            assert(inherited_names()[2] == name);
        }
        if name == "fill-rule"@ {
            assert(inherited_names()[3] == name);
        }
        if name == "marker"@ {
            assert(inherited_names()[4] == name);
        }
        if name == "marker-end"@ {
            assert(inherited_names()[5] == name);
        }
        if name == "marker-mid"@ {
            assert(inherited_names()[6] == name);
        }
        if name == "marker-start"@ {
            assert(inherited_names()[7] == name);
        }
        if name == "stroke"@ {
            assert(inherited_names()[8] == name);
        }
        if name == "stroke-dasharray"@ {
            assert(inherited_names()[9] == name);
        }
        if name == "stroke-dashoffset"@ {
            assert(inherited_names()[10] == name);
        }
        if name == "stroke-linecap"@ {
            assert(inherited_names()[11] == name);
        }
        if name == "stroke-linejoin"@ {
            assert(inherited_names()[12] == name);
        }
        if name == "stroke-miterlimit"@ {
            assert(inherited_names()[13] == name);
        }
        if name == "stroke-opacity"@ {
            assert(inherited_names()[14] == name);
        }
        if name == "stroke-width"@ {
            assert(inherited_names()[15] == name);
        }
    }
    if exists|j: int| 0 <= j < INHERITED_ATTRIBUTE_COUNT && #[trigger] inherited_names()[j] == name {
        let j = choose|j: int| 0 <= j < INHERITED_ATTRIBUTE_COUNT && #[trigger] inherited_names()[j] == name;
        if j == 0 {
            assert(inherited_names()[0] == "color"@);
        }
        if j == 1 {
            assert(inherited_names()[1] == "fill"@);
        }
        if j == 2 {
            assert(inherited_names()[2] == "fill-opacity"@);
        }
        if j == 3 {
            assert(inherited_names()[3] == "fill-rule"@);
        }
        if j == 4 {
            assert(inherited_names()[4] == "marker"@);
        }
        if j == 5 {
            assert(inherited_names()[5] == "marker-end"@);
        }
        if j == 6 {
            assert(inherited_names()[6] == "marker-mid"@);
        }
        if j == 7 {
            assert(inherited_names()[7] == "marker-start"@);
        }
        if j == 8 {
            assert(inherited_names()[8] == "stroke"@);
        }
        if j == 9 {
            assert(inherited_names()[9] == "stroke-dasharray"@);
        }
        if j == 10 {
            assert(inherited_names()[10] == "stroke-dashoffset"@);
        }
        if j == 11 {
            assert(inherited_names()[11] == "stroke-linecap"@);
        }
        if j == 12 {
            assert(inherited_names()[12] == "stroke-linejoin"@);
        }
        if j == 13 {
            assert(inherited_names()[13] == "stroke-miterlimit"@);
        }
        if j == 14 {
            assert(inherited_names()[14] == "stroke-opacity"@);
        }
        if j == 15 {
            assert(inherited_names()[15] == "stroke-width"@);
        }
    }
}

proof fn lemma_enter_from_binding(m: Map<Seq<char>, Seq<char>>, attrs: Map<Seq<char>, Seq<char>>, k: int, name: Seq<char>)
    requires
        0 <= k <= INHERITED_ATTRIBUTE_COUNT,
    ensures
        binding(enter_from(m, attrs, k), name) == if attrs.contains_key(name) && exists|j: int|
            k <= j < INHERITED_ATTRIBUTE_COUNT && #[trigger] inherited_names()[j] == name {
            Some(attrs[name])
        } else {
            binding(m, name)
        },
    decreases INHERITED_ATTRIBUTE_COUNT - k,
{
    if k < INHERITED_ATTRIBUTE_COUNT {
        let n = inherited_names()[k];
        let next = if attrs.contains_key(n) {
            m.insert(n, attrs[n])
        } else {
            m
        };
        lemma_enter_from_binding(next, attrs, k + 1, name);
        if attrs.contains_key(name) && exists|j: int| k <= j < INHERITED_ATTRIBUTE_COUNT && #[trigger] inherited_names()[j] == name {
            let j = choose|j: int| k <= j < INHERITED_ATTRIBUTE_COUNT && #[trigger] inherited_names()[j] == name;
            if j != k {
                assert(k + 1 <= j);
            }
        }
    }
}

/// Entering an element sets, for each presentation attribute that passes
/// down (see [`passes_down`]) and that the element sets, the element's
/// value, when the element is a container that passes attributes down
/// (`<svg>`, `<g>`, `<marker>`); every other binding stays as it was.
pub proof fn lemma_entered_passes_down(m: Map<Seq<char>, Seq<char>>, element: Element, name: Seq<char>)
    ensures
        binding(entered(m, element), name) == if inherits_to_children_kind(element.kind) && passes_down(name)
            && element.attributes@.contains_key(name) {
            Some(element.attributes@[name])
        } else {
            binding(m, name)
        },
{
    lemma_passes_down_listed(name);
    if inherits_to_children_kind(element.kind) {
        lemma_enter_from_binding(m, element.attributes@, 0, name);
    }
}

/// Below a container that sets a presentation attribute that passes down,
/// a descendant that does not set it itself sees the container's value.
pub proof fn lemma_descendant_inherits(
    m: Map<Seq<char>, Seq<char>>,
    container: Element,
    child: Map<Seq<char>, Seq<char>>,
    name: Seq<char>,
)
    requires
        inherits_to_children_kind(container.kind),
        passes_down(name),
        container.attributes@.contains_key(name),
        !child.contains_key(name),
    ensures
        entered(m, container).union_prefer_right(child).contains_key(name),
        entered(m, container).union_prefer_right(child)[name] == container.attributes@[name],
{
    lemma_entered_passes_down(m, container, name);
}

/// were in force before entering it.
pub proof fn lemma_exit_undoes_enter(m: Map<Seq<char>, Seq<char>>, element: Element)
    ensures
        exited(entered(m, element), entered_frame(m, element)) == m,
{
    if inherits_to_children_kind(element.kind) {
        lemma_exit_from_undoes_enter_from(m, element.attributes@, 0);
    }
}

/// The presentation attributes in force while walking down the tree.
#[derive(Debug)]
pub struct TraversalState {
    inherited_attrs: AttributeMap,
}

/// What entering an element overwrote, so that leaving it can put it back.
#[derive(Debug)]
pub struct TraversalFrame {
    restored_attrs: Vec<(String, Option<String>)>,
}

/// The character view of an optional string.
pub open spec fn opt_string_view(o: Option<String>) -> Option<Seq<char>> {
    match o {
        Some(s) => Some(s@),
        None => None,
    }
}

/// The character view of a frame's entries.
pub open spec fn frame_view(entries: Seq<(String, Option<String>)>) -> Seq<(Seq<char>, Option<Seq<char>>)> {
    entries.map_values(|e: (String, Option<String>)| (e.0@, opt_string_view(e.1)))
}

impl View for TraversalState {
    type V = Map<Seq<char>, Seq<char>>;

    closed spec fn view(&self) -> Map<Seq<char>, Seq<char>> {
        self.inherited_attrs@
    }
}

impl View for TraversalFrame {
    type V = Seq<(Seq<char>, Option<Seq<char>>)>;

    closed spec fn view(&self) -> Seq<(Seq<char>, Option<Seq<char>>)> {
        frame_view(self.restored_attrs@)
    }
}

impl TraversalState {
    /// A state with nothing inherited (the state above the root).
    pub fn new() -> (r: Self)
        ensures
            r@ == Map::<Seq<char>, Seq<char>>::empty(),
    {
        TraversalState { inherited_attrs: AttributeMap::new() }
    }

    /// Enter `element`: if it passes presentation attributes down, copy
    /// each inherited one it sets over the current value. The frame
    /// records what was overwritten.
    pub fn enter_element(&mut self, element: &Element) -> (frame: TraversalFrame)
        ensures
            final(self)@ == entered(old(self)@, *element),
            frame@ == entered_frame(old(self)@, *element),
    {
        let mut restored: Vec<(String, Option<String>)> = Vec::new();
        if inherits_to_children(&element.kind) {
            let ghost start = self@;
            let ghost attrs = element.attributes@;
            let mut k: usize = 0;
            while k < INHERITED_ATTRIBUTE_COUNT
                invariant
                    k <= INHERITED_ATTRIBUTE_COUNT,
                    attrs == element.attributes@,
                    enter_from(start, attrs, 0) == enter_from(self@, attrs, k as int),
                    frame_from(start, attrs, 0) == frame_view(restored@) + frame_from(
                        self@,
                        attrs,
                        k as int,
                    ),
                decreases INHERITED_ATTRIBUTE_COUNT - k,
            {
                let name = inherited_name(k);
                let ghost before = self@;
                let ghost restored_before = restored@;
                match element.attributes.get(name) {
                    Some(value) => {
                        let previous = self.inherited_attrs.insert(name.to_owned(), value.clone());
                        restored.push((name.to_owned(), previous));
                        proof {
                            assert(binding(before, name@) == opt_string_view(previous));
                            assert(frame_view(restored@) =~= frame_view(restored_before).push(
                                (name@, binding(before, name@)),
                            ));
                            let tail = frame_from(self@, attrs, k + 1);
                            assert(frame_from(before, attrs, k as int) == seq![
                                (name@, binding(before, name@)),
                            ] + tail);
                            assert(frame_view(restored_before) + (seq![
                                (name@, binding(before, name@)),
                            ] + tail) =~= frame_view(restored@) + tail);
                        }
                    },
                    None => {},
                }
                k = k + 1;
            }
            proof {
                assert(frame_view(restored@) + Seq::<(Seq<char>, Option<Seq<char>>)>::empty()
                    =~= frame_view(restored@));
            }
        } else {
            proof {
                assert(frame_view(restored@) =~= Seq::<(Seq<char>, Option<Seq<char>>)>::empty());
            }
        }
        TraversalFrame { restored_attrs: restored }
    }

    /// Leave an element: put back, last first, every binding that
    /// entering it overwrote.
    pub fn exit_element(&mut self, frame: TraversalFrame)
        ensures
            final(self)@ == exited(old(self)@, frame@),
    {
        let entries = frame.restored_attrs;
        let ghost start = self@;
        let ghost all = frame_view(entries@);
        let mut i: usize = entries.len();
        proof {
            assert(all.take(all.len() as int) =~= all);
        }
        while i > 0
            invariant
                i <= entries@.len(),
                all == frame_view(entries@),
                exited(start, all) == exited(self@, all.take(i as int)),
            decreases i,
        {
            i = i - 1;
            let ghost before = self@;
            let name = entries[i].0.clone();
            match &entries[i].1 {
                Some(value) => {
                    let _ = self.inherited_attrs.insert(name, value.clone());
                },
                None => {
                    let _ = self.inherited_attrs.remove(name.as_str());
                },
            }
            proof {
                let t = all.take(i + 1);
                lemma_exited_last(before, t);
                assert(t.last() == all[i as int]);
                assert(t.drop_last() =~= all.take(i as int));
                assert(self@ =~= restore(before, all[i as int]));
            }
        }
        proof {
            assert(all.take(0) =~= Seq::<(Seq<char>, Option<Seq<char>>)>::empty());
        }
    }

    /// `element` with the inherited attributes filled in where it sets
    /// none of its own.
    pub fn effective_element(&self, element: &Element) -> (r: Element)
        ensures
            r.kind == element.kind,
            r.attributes@ == self@.union_prefer_right(element.attributes@),
    {
        if self.inherited_attrs.is_empty() {
            proof {
                assert(self@.union_prefer_right(element.attributes@) =~= element.attributes@);
            }
            return Element { kind: element.kind.duplicate(), attributes: element.attributes.clone() };
        }
        let mut attributes = self.inherited_attrs.clone();
        attributes.extend_from(&element.attributes);
        Element { kind: element.kind.duplicate(), attributes }
    }
}

impl Default for TraversalState {
    fn default() -> (r: Self)
        ensures
            r@ == Map::<Seq<char>, Seq<char>>::empty(),
    {
        TraversalState::new()
    }
}

/// Painting features that an element's own attributes ask for.
#[derive(Debug, Clone, Copy, PartialEq, Eq, Structural)]
pub struct ElementFeatures {
    /// A `stroke` other than `none`.
    pub has_strokes: bool,
    /// A marker reference other than `none` (only looked for on request).
    pub has_markers: bool,
    /// Any of `opacity`, `fill-opacity`, `stroke-opacity`.
    pub has_opacity_attrs: bool,
    /// A `stroke-linecap` other than `butt`, or a `stroke-dasharray` other
    /// than `none`.
    pub has_general_line_strokes: bool,
}

/// Whether `m` sets `name` to something other than `off`, compared after
/// trimming and ignoring ASCII case.
pub open spec fn sets_other_than(m: Map<Seq<char>, Seq<char>>, name: Seq<char>, off: Seq<char>) -> bool {
    m.contains_key(name) && !eq_ignore_case(trim(m[name]), off)
}

/// The features asked for by an element with attributes `m`; markers
/// count only when `check_markers` holds.
pub open spec fn features_of(m: Map<Seq<char>, Seq<char>>, check_markers: bool) -> ElementFeatures {
    ElementFeatures {
        has_strokes: sets_other_than(m, "stroke"@, "none"@),
        has_markers: check_markers && (sets_other_than(m, "marker"@, "none"@) || sets_other_than(
            m,
            "marker-start"@,
            "none"@,
        ) || sets_other_than(m, "marker-mid"@, "none"@) || sets_other_than(m, "marker-end"@, "none"@)),
        has_opacity_attrs: m.contains_key("opacity"@) || m.contains_key("fill-opacity"@)
            || m.contains_key("stroke-opacity"@),
        has_general_line_strokes: sets_other_than(m, "stroke-linecap"@, "butt"@) || sets_other_than(
            m,
            "stroke-dasharray"@,
            "none"@,
        ),
    }
}

/// Among the first `n` pairs, one names `name` with a value other than
/// `off`.
spec fn pairs_set(p: Seq<(Seq<char>, Seq<char>)>, n: int, name: Seq<char>, off: Seq<char>) -> bool {
    exists|j: int| 0 <= j < n && #[trigger] p[j].0 == name && !eq_ignore_case(trim(p[j].1), off)
}

/// Among the first `n` pairs, one names `name`.
spec fn pairs_name(p: Seq<(Seq<char>, Seq<char>)>, n: int, name: Seq<char>) -> bool {
    exists|j: int| 0 <= j < n && #[trigger] p[j].0 == name
}

proof fn lemma_pairs_step(p: Seq<(Seq<char>, Seq<char>)>, i: int, name: Seq<char>, off: Seq<char>)
    requires
        0 <= i < p.len(),
    ensures
        pairs_set(p, i + 1, name, off) == (pairs_set(p, i, name, off) || (p[i].0 == name
            && !eq_ignore_case(trim(p[i].1), off))),
        pairs_name(p, i + 1, name) == (pairs_name(p, i, name) || p[i].0 == name),
{
    if pairs_set(p, i + 1, name, off) && !(p[i].0 == name && !eq_ignore_case(trim(p[i].1), off)) {
        let j = choose|j: int| 0 <= j < i + 1 && #[trigger] p[j].0 == name && !eq_ignore_case(trim(p[j].1), off);
        assert(j < i);
    }
    if pairs_name(p, i + 1, name) && p[i].0 != name {
        let j = choose|j: int| 0 <= j < i + 1 && #[trigger] p[j].0 == name;
        assert(j < i);
    }
}

/// Two character sequences that agree on their first `k` characters and
/// then differ upward at `k` (or where `a` ends) are in increasing order.
proof fn lemma_seq_lt_at(a: Seq<char>, b: Seq<char>, k: int)
    requires
        0 <= k <= a.len(),
        k < b.len(),
        a.take(k) == b.take(k),
        k == a.len() || (a[k] as int) < (b[k] as int),
    ensures
        seq_lt(a, b),
    decreases k,
{
    if k > 0 {
        assert(a[0] == a.take(k)[0] && b[0] == b.take(k)[0]);
        assert(a.drop_first().take(k - 1) =~= a.take(k).drop_first());
        assert(b.drop_first().take(k - 1) =~= b.take(k).drop_first());
        lemma_seq_lt_at(a.drop_first(), b.drop_first(), k - 1);
    }
}

/// Every watched feature attribute sorts before `stroke-width`.
proof fn lemma_watched_before_stroke_width()
    ensures
        seq_lt("stroke"@, "stroke-width"@),
        seq_lt("stroke-linecap"@, "stroke-width"@),
        seq_lt("stroke-dasharray"@, "stroke-width"@),
        seq_lt("stroke-opacity"@, "stroke-width"@),
        seq_lt("marker"@, "stroke-width"@),
        seq_lt("marker-start"@, "stroke-width"@),
        seq_lt("marker-mid"@, "stroke-width"@),
        seq_lt("marker-end"@, "stroke-width"@),
        seq_lt("opacity"@, "stroke-width"@),
        seq_lt("fill-opacity"@, "stroke-width"@),
{
    let w = "stroke-width"@;
    reveal_strlit("stroke-width");
    reveal_strlit("stroke");
    reveal_strlit("stroke-linecap");
    reveal_strlit("stroke-dasharray");
    reveal_strlit("stroke-opacity");
    reveal_strlit("marker");
    reveal_strlit("marker-start");
    reveal_strlit("marker-mid");
    reveal_strlit("marker-end");
    reveal_strlit("opacity");
    reveal_strlit("fill-opacity");
    assert("stroke"@.take(6) =~= w.take(6));
    lemma_seq_lt_at("stroke"@, w, 6);
    assert("stroke-linecap"@.take(7) =~= w.take(7));
    lemma_seq_lt_at("stroke-linecap"@, w, 7);
    assert("stroke-dasharray"@.take(7) =~= w.take(7));
    lemma_seq_lt_at("stroke-dasharray"@, w, 7);
    assert("stroke-opacity"@.take(7) =~= w.take(7));
    lemma_seq_lt_at("stroke-opacity"@, w, 7);
    assert("marker"@.take(0) =~= w.take(0));
    lemma_seq_lt_at("marker"@, w, 0);
    assert("marker-start"@.take(0) =~= w.take(0));
    lemma_seq_lt_at("marker-start"@, w, 0);
    assert("marker-mid"@.take(0) =~= w.take(0));
    lemma_seq_lt_at("marker-mid"@, w, 0);
    assert("marker-end"@.take(0) =~= w.take(0));
    lemma_seq_lt_at("marker-end"@, w, 0);
    assert("opacity"@.take(0) =~= w.take(0));
    lemma_seq_lt_at("opacity"@, w, 0);
    assert("fill-opacity"@.take(0) =~= w.take(0));
    lemma_seq_lt_at("fill-opacity"@, w, 0);
}

/// In sorted pairs, once a name at or past `stroke-width` is reached, no
/// later pair carries a name that sorts before it.
proof fn lemma_rest_after_cutoff(p: Seq<(Seq<char>, Seq<char>)>, i: int, name: Seq<char>)
    requires
        keys_sorted(p),
        0 <= i < p.len(),
        !seq_lt(p[i].0, "stroke-width"@),
        seq_lt(name, "stroke-width"@),
    ensures
        forall|j: int| i <= j < p.len() ==> #[trigger] p[j].0 != name,
{
    let w = "stroke-width"@;
    lemma_seq_lt_total(p[i].0, w);
    assert forall|j: int| i <= j < p.len() implies #[trigger] p[j].0 != name by {
        if p[j].0 == name {
            if j > i {
                assert(seq_lt(p[i].0, p[j].0));
                if p[i].0 != w {
                    lemma_seq_lt_transitive(w, p[i].0, p[j].0);
                }
            }
            lemma_seq_lt_total(name, w);
        }
    }
}

/// The painting features asked for by `element`'s own attributes; marker
/// references are looked for only when `check_markers` holds. Attributes
/// are visited in name order and the visit stops at the first name at or
/// past `stroke-width`, after every watched name.
pub fn element_features(element: &Element, check_markers: bool) -> (r: ElementFeatures)
    ensures
        r == features_of(element.attributes@, check_markers),
{
    let entries = element.attributes.as_slice();
    let ghost p = element.attributes.pairs();
    proof {
        element.attributes.lemma_pairs_describe_map();
        lemma_watched_before_stroke_width();
    }
    let cutoff = chars_of("stroke-width");
    let mut has_strokes = false;
    let mut has_markers = false;
    let mut has_opacity_attrs = false;
    let mut has_general_line_strokes = false;
    let mut i: usize = 0;
    while i < entries.len()
        invariant_except_break
            i <= entries@.len(),
        invariant
            p == entries@.map_values(|e: (String, String)| (e.0@, e.1@)),
            keys_sorted(p),
            cutoff@ == "stroke-width"@,
            has_strokes == pairs_set(p, i as int, "stroke"@, "none"@),
            has_general_line_strokes == (pairs_set(p, i as int, "stroke-linecap"@, "butt"@) || pairs_set(
                p,
                i as int,
                "stroke-dasharray"@,
                "none"@,
            )),
            has_markers == (check_markers && (pairs_set(p, i as int, "marker"@, "none"@) || pairs_set(
                p,
                i as int,
                "marker-start"@,
                "none"@,
            ) || pairs_set(p, i as int, "marker-mid"@, "none"@) || pairs_set(p, i as int, "marker-end"@, "none"@))),
            has_opacity_attrs == (pairs_name(p, i as int, "opacity"@) || pairs_name(p, i as int, "fill-opacity"@)
                || pairs_name(p, i as int, "stroke-opacity"@)),
        ensures
            i <= entries@.len(),
            i == entries@.len() || !seq_lt(p[i as int].0, "stroke-width"@),
            has_strokes == pairs_set(p, i as int, "stroke"@, "none"@),
            has_general_line_strokes == (pairs_set(p, i as int, "stroke-linecap"@, "butt"@) || pairs_set(
                p,
                i as int,
                "stroke-dasharray"@,
                "none"@,
            )),
            has_markers == (check_markers && (pairs_set(p, i as int, "marker"@, "none"@) || pairs_set(
                p,
                i as int,
                "marker-start"@,
                "none"@,
            ) || pairs_set(p, i as int, "marker-mid"@, "none"@) || pairs_set(p, i as int, "marker-end"@, "none"@))),
            has_opacity_attrs == (pairs_name(p, i as int, "opacity"@) || pairs_name(p, i as int, "fill-opacity"@)
                || pairs_name(p, i as int, "stroke-opacity"@)),
        decreases entries@.len() - i,
    {
        let name = entries[i].0.as_str();
        let value = entries[i].1.as_str();
        assert(p[i as int] == (name@, value@));
        let name_chars = chars_of(name);
        match crate::dom::attributes::compare_keys(&name_chars, &cutoff) {
            crate::dom::attributes::KeyOrder::Less => {},
            _ => {
                break;
            },
        }
        proof {
            lemma_pairs_step(p, i as int, "stroke"@, "none"@);
            lemma_pairs_step(p, i as int, "stroke-linecap"@, "butt"@);
            lemma_pairs_step(p, i as int, "stroke-dasharray"@, "none"@);
            lemma_pairs_step(p, i as int, "marker"@, "none"@);
            lemma_pairs_step(p, i as int, "marker-start"@, "none"@);
            lemma_pairs_step(p, i as int, "marker-mid"@, "none"@);
            lemma_pairs_step(p, i as int, "marker-end"@, "none"@);
            lemma_pairs_step(p, i as int, "opacity"@, "none"@);
            lemma_pairs_step(p, i as int, "fill-opacity"@, "none"@);
            lemma_pairs_step(p, i as int, "stroke-opacity"@, "none"@);
        }
        if str_eq(name, "stroke") {
            has_strokes = has_strokes || !eq_ignore_ascii_case(trim_str(value), "none");
        }
        if str_eq(name, "stroke-linecap") {
            has_general_line_strokes = has_general_line_strokes || !eq_ignore_ascii_case(
                trim_str(value),
                "butt",
            );
        }
        if str_eq(name, "stroke-dasharray") {
            has_general_line_strokes = has_general_line_strokes || !eq_ignore_ascii_case(
                trim_str(value),
                "none",
            );
        }
        if check_markers && (str_eq(name, "marker") || str_eq(name, "marker-start") || str_eq(
            name,
            "marker-mid",
        ) || str_eq(name, "marker-end")) {
            has_markers = has_markers || !eq_ignore_ascii_case(trim_str(value), "none");
        }
        if str_eq(name, "opacity") || str_eq(name, "fill-opacity") || str_eq(name, "stroke-opacity") {
            has_opacity_attrs = true;
        }
        i = i + 1;
    }
    proof {
        let m = element.attributes@;
        if i < p.len() {
            lemma_rest_after_cutoff(p, i as int, "stroke"@);
            lemma_rest_after_cutoff(p, i as int, "stroke-linecap"@);
            lemma_rest_after_cutoff(p, i as int, "stroke-dasharray"@);
            lemma_rest_after_cutoff(p, i as int, "stroke-opacity"@);
            lemma_rest_after_cutoff(p, i as int, "marker"@);
            lemma_rest_after_cutoff(p, i as int, "marker-start"@);
            lemma_rest_after_cutoff(p, i as int, "marker-mid"@);
            lemma_rest_after_cutoff(p, i as int, "marker-end"@);
            lemma_rest_after_cutoff(p, i as int, "opacity"@);
            lemma_rest_after_cutoff(p, i as int, "fill-opacity"@);
        }
        lemma_features_from_pairs(element.attributes, i as int, "stroke"@, "none"@);
        lemma_features_from_pairs(element.attributes, i as int, "stroke-linecap"@, "butt"@);
        lemma_features_from_pairs(element.attributes, i as int, "stroke-dasharray"@, "none"@);
        lemma_features_from_pairs(element.attributes, i as int, "marker"@, "none"@);
        lemma_features_from_pairs(element.attributes, i as int, "marker-start"@, "none"@);
        lemma_features_from_pairs(element.attributes, i as int, "marker-mid"@, "none"@);
        lemma_features_from_pairs(element.attributes, i as int, "marker-end"@, "none"@);
        lemma_features_from_pairs(element.attributes, i as int, "opacity"@, "none"@);
        lemma_features_from_pairs(element.attributes, i as int, "fill-opacity"@, "none"@);
        lemma_features_from_pairs(element.attributes, i as int, "stroke-opacity"@, "none"@);
    }
    ElementFeatures { has_strokes, has_markers, has_opacity_attrs, has_general_line_strokes }
}

/// When no pair from the `n`-th on names `name`, the first `n` pairs say
/// all the map says of it.
proof fn lemma_features_from_pairs(attrs: AttributeMap, n: int, name: Seq<char>, off: Seq<char>)
    requires
        keys_sorted(attrs.pairs()),
        0 <= n <= attrs.pairs().len(),
        forall|j: int| n <= j < attrs.pairs().len() ==> #[trigger] attrs.pairs()[j].0 != name,
    ensures
        pairs_set(attrs.pairs(), n, name, off) == sets_other_than(attrs@, name, off),
        pairs_name(attrs.pairs(), n, name) == attrs@.contains_key(name),
{
    let p = attrs.pairs();
    attrs.lemma_pairs_describe_map();
    if attrs@.contains_key(name) {
        let i = choose|i: int| 0 <= i < p.len() && p[i].0 == name;
        assert(p[i].0 == name);
        assert(i < n);
        assert(attrs@[name] == p[i].1);
        if pairs_set(p, n, name, off) {
            let j = choose|j: int| 0 <= j < n && #[trigger] p[j].0 == name && !eq_ignore_case(trim(p[j].1), off);
            assert(attrs@[p[j].0] == p[j].1);
        }
    } else {
        if pairs_name(p, n, name) {
            let j = choose|j: int| 0 <= j < n && #[trigger] p[j].0 == name;
            assert(attrs@.contains_key(p[j].0));
        }
    }
}

} // verus!
