use svg3::dom::{parse, Element, ElementKind};
use svg3::scene::{
    element_features, inherits_to_children, is_definition_container, is_renderable_element,
    is_svg3_3d_element, owns_children, ElementDimension, ElementFeatures, TraversalState,
};
use svg3::stroke::{resolve_linecap, resolve_linejoin, LineCap, LineJoin};

fn element(kind: ElementKind, attrs: &[(&str, &str)]) -> Element {
    let mut element = Element::new(kind);
    for (key, value) in attrs {
        element.attributes.insert((*key).to_owned(), (*value).to_owned());
    }
    element
}

#[test]
fn element_dimension_separates_3d_primitives() {
    assert_eq!(ElementDimension::of(&ElementKind::Cube), ElementDimension::ThreeD);
    assert_eq!(ElementDimension::of(&ElementKind::Surface), ElementDimension::ThreeD);
    assert_eq!(ElementDimension::of(&ElementKind::Rect), ElementDimension::TwoD);
    assert_eq!(ElementDimension::of(&ElementKind::Unknown("cube3".to_owned())), ElementDimension::TwoD);
}

#[test]
fn kind_predicates_match_the_scene_rules() {
    assert!(is_definition_container(&ElementKind::Defs));
    assert!(is_definition_container(&ElementKind::ForeignObject));
    assert!(!is_definition_container(&ElementKind::Group));
    assert!(inherits_to_children(&ElementKind::Marker));
    assert!(!inherits_to_children(&ElementKind::Rect));
    assert!(is_renderable_element(&ElementKind::Path));
    assert!(is_renderable_element(&ElementKind::Cylinder));
    assert!(!is_renderable_element(&ElementKind::Group));
    assert!(is_svg3_3d_element(&ElementKind::Ellipsoid));
    assert!(!is_svg3_3d_element(&ElementKind::Ellipse));
    assert!(owns_children(&ElementKind::Surface));
    assert!(!owns_children(&ElementKind::Cube));
}

#[test]
fn element_features_reads_watched_attributes() {
    let plain = element_features(&element(ElementKind::Rect, &[("fill", "red")]), true);
    assert_eq!(
        plain,
        ElementFeatures { has_strokes: false, has_markers: false, has_opacity_attrs: false, has_general_line_strokes: false }
    );
    let stroked = element_features(
        &element(
            ElementKind::Line,
            &[("stroke", " Blue "), ("stroke-linecap", "round"), ("marker-end", "url(#a)"), ("fill-opacity", "1"), ("stroke-width", "4")],
        ),
        true,
    );
    assert!(stroked.has_strokes);
    assert!(stroked.has_general_line_strokes);
    assert!(stroked.has_markers);
    assert!(stroked.has_opacity_attrs);
    let unchecked = element_features(&element(ElementKind::Line, &[("marker", "url(#a)")]), false);
    assert!(!unchecked.has_markers);
}

#[test]
fn element_features_treats_none_and_butt_as_off() {
    let off = element_features(
        &element(
            ElementKind::Path,
            &[("stroke", "NONE"), ("stroke-linecap", " butt "), ("stroke-dasharray", "none"), ("marker", "none")],
        ),
        true,
    );
    assert!(!off.has_strokes);
    assert!(!off.has_general_line_strokes);
    assert!(!off.has_markers);
    let dashed = element_features(&element(ElementKind::Path, &[("stroke-dasharray", "4 2")]), true);
    assert!(dashed.has_general_line_strokes);
    let opacity = element_features(&element(ElementKind::Path, &[("opacity", "0.5")]), false);
    assert!(opacity.has_opacity_attrs);
}

#[test]
fn traversal_inherits_presentation_attributes_from_groups() {
    let document = parse(
        r##"<svg fill="red" stroke-width="2"><g fill="blue" transform="scale(2)" opacity="0.5"><rect/><rect fill="green"/></g><rect/></svg>"##,
    )
    .unwrap();
    let root = document.root();
    let group = document.node(root).children[0];
    let inner = document.node(group).children.clone();
    let outer = document.node(root).children[1];

    let mut state = TraversalState::new();
    let root_frame = state.enter_element(document.element(root));
    let group_frame = state.enter_element(document.element(group));
    let first = state.effective_element(document.element(inner[0]));
    assert_eq!(first.kind, ElementKind::Rect);
    assert_eq!(first.attributes.get("fill").map(String::as_str), Some("blue"));
    assert_eq!(first.attributes.get("stroke-width").map(String::as_str), Some("2"));
    assert_eq!(first.attributes.get("transform"), None);
    assert_eq!(first.attributes.get("opacity"), None);
    let second = state.effective_element(document.element(inner[1]));
    assert_eq!(second.attributes.get("fill").map(String::as_str), Some("green"));
    state.exit_element(group_frame);
    let after = state.effective_element(document.element(outer));
    assert_eq!(after.attributes.get("fill").map(String::as_str), Some("red"));
    state.exit_element(root_frame);
    let bare = state.effective_element(document.element(outer));
    assert!(bare.attributes.is_empty());
}

#[test]
fn marker_children_inherit_marker_presentation_attributes() {
    let document = parse(
        r##"<svg><defs><marker id="arrow" markerUnits="userSpaceOnUse" markerWidth="10" markerHeight="8" refX="0" refY="0" fill="red"><path d="M0 0 L10 4 L0 8 Z"/></marker></defs><line x1="20" y1="20" x2="40" y2="20" stroke="none" marker-end="url(#arrow)"/></svg>"##,
    )
    .unwrap();
    let defs = document.node(document.root()).children[0];
    let marker = document.node(defs).children[0];
    let path = document.node(marker).children[0];
    let mut state = TraversalState::new();
    let frame = state.enter_element(document.element(marker));
    let effective = state.effective_element(document.element(path));
    assert_eq!(effective.attributes.get("fill").map(String::as_str), Some("red"));
    state.exit_element(frame);
    assert!(state.effective_element(document.element(path)).attributes.get("fill").is_none());
}

#[test]
fn non_inheriting_elements_pass_nothing_down() {
    let rect = element(ElementKind::Rect, &[("fill", "red")]);
    let child = element(ElementKind::Circle, &[]);
    let mut state = TraversalState::default();
    let frame = state.enter_element(&rect);
    assert!(state.effective_element(&child).attributes.is_empty());
    state.exit_element(frame);
}

#[test]
fn resolve_stroke_style_reads_line_cap_join_and_miter() {
    let style = element(
        ElementKind::Path,
        &[("stroke-width", "6"), ("stroke-linecap", "round"), ("stroke-linejoin", "bevel"), ("stroke-miterlimit", "2")],
    );
    assert_eq!(resolve_linecap(&style), LineCap::Round);
    assert_eq!(resolve_linejoin(&style), LineJoin::Bevel);
}

#[test]
fn stroke_keywords_default_and_ignore_case() {
    assert_eq!(resolve_linecap(&element(ElementKind::Path, &[])), LineCap::Butt);
    assert_eq!(resolve_linecap(&element(ElementKind::Path, &[("stroke-linecap", " SQUARE ")])), LineCap::Square);
    assert_eq!(resolve_linecap(&element(ElementKind::Path, &[("stroke-linecap", "bogus")])), LineCap::Butt);
    assert_eq!(resolve_linejoin(&element(ElementKind::Path, &[])), LineJoin::Miter);
    assert_eq!(resolve_linejoin(&element(ElementKind::Path, &[("stroke-linejoin", "Miter-Clip")])), LineJoin::MiterClip);
    assert_eq!(resolve_linejoin(&element(ElementKind::Path, &[("stroke-linejoin", "round")])), LineJoin::Round);
}
