use svg3::color::{byte, nibble, parse_color_srgb8};
use svg3::dom::{parse, Element, ElementKind, NodeId};
use svg3::paint::{
    cube_cross_slot, resolve_cube_map, resolve_svg_texture, CubeMap, GradientUnits, MarkerDefinitions,
    MarkerKind, MarkerUnits, PaintDefinitions, PatternUnits, TextureMapping,
    CUBE_FACE_COUNT, TEXTURE_MAP_CUBE_CROSS, TEXTURE_MAP_IDENTITY,
};
use svg3::paint::{read_paint_value, reference_fallback, PaintChoice, PaintValue};
use svg3::references::{presentation_or_style, style_property, url_reference_id, PaintReference};

fn element(kind: ElementKind, attrs: &[(&str, &str)]) -> Element {
    let mut element = Element::new(kind);
    for (key, value) in attrs {
        element.attributes.insert((*key).to_owned(), (*value).to_owned());
    }
    element
}

fn cube(attrs: &[(&str, &str)]) -> Element {
    element(ElementKind::Cube, attrs)
}

#[test]
fn paint_reference_parses_url_and_fallback() {
    let reference = PaintReference::parse("url('#grad') red").unwrap();
    assert_eq!(reference.id, "grad");
    assert_eq!(reference.fallback, Some("red"));
}

#[test]
fn paint_reference_without_fallback_or_fragment() {
    let reference = PaintReference::parse("  url(#g)  ").unwrap();
    assert_eq!(reference.id, "g");
    assert_eq!(reference.fallback, None);
    assert!(PaintReference::parse("red").is_none());
    assert!(PaintReference::parse("url(g) red").is_none());
    assert!(PaintReference::parse("url(#g").is_none());
}

#[test]
fn url_reference_id_unquotes_and_trims() {
    assert_eq!(url_reference_id("url(#a)"), Some("a"));
    assert_eq!(url_reference_id(" url( ' #b ' ) "), Some("b"));
    assert_eq!(url_reference_id("None"), None);
    assert_eq!(url_reference_id("url(#)"), None);
}

#[test]
fn resolve_cube_map_defaults_to_same_and_recognises_cross() {
    assert_eq!(resolve_cube_map(&cube(&[])), CubeMap::Same);
    assert_eq!(resolve_cube_map(&cube(&[("cube-map", "same")])), CubeMap::Same);
    assert_eq!(resolve_cube_map(&cube(&[("cube-map", "cross")])), CubeMap::Cross);
    assert_eq!(resolve_cube_map(&cube(&[("cube-map", "unknown")])), CubeMap::Same);
}

#[test]
fn cube_map_is_trimmed_and_case_insensitive() {
    assert_eq!(resolve_cube_map(&cube(&[("cube-map", " CROSS ")])), CubeMap::Cross);
    assert_eq!(CubeMap::default(), CubeMap::Same);
}

#[test]
fn svg_texture_mapping_depends_on_consumer() {
    let node = NodeId::from_index(3);
    let cross = resolve_svg_texture(node, &cube(&[("cube-map", "cross")])).unwrap();
    assert_eq!(cross.node_id, node);
    assert_eq!(cross.mapping, TextureMapping::CubeCross);
    assert_eq!(cross.mapping.kind(), TEXTURE_MAP_CUBE_CROSS);
    let same = resolve_svg_texture(node, &cube(&[])).unwrap();
    assert_eq!(same.mapping.kind(), TEXTURE_MAP_IDENTITY);
    let sphere = resolve_svg_texture(node, &element(ElementKind::Ellipsoid, &[])).unwrap();
    assert_eq!(sphere.mapping, TextureMapping::Identity);
    assert!(resolve_svg_texture(node, &element(ElementKind::Rect, &[])).is_none());
}

#[test]
fn cube_cross_slots_are_distinct() {
    let mut slots = Vec::new();
    for face in 0..CUBE_FACE_COUNT {
        let slot = cube_cross_slot(face);
        assert!(slot.0 < 4 && slot.1 < 3);
        assert!(!slots.contains(&slot));
        slots.push(slot);
    }
    assert_eq!(cube_cross_slot(0), (1, 1));
}

#[test]
fn units_attributes_are_exact_after_trimming() {
    let g = element(ElementKind::LinearGradient, &[("gradientUnits", " userSpaceOnUse ")]);
    assert_eq!(GradientUnits::resolve(&g), GradientUnits::UserSpaceOnUse);
    let p = element(ElementKind::Pattern, &[("patternUnits", "userspaceonuse")]);
    assert_eq!(PatternUnits::resolve(&p), PatternUnits::ObjectBoundingBox);
    let m = element(ElementKind::Marker, &[]);
    assert_eq!(MarkerUnits::resolve(&m), MarkerUnits::StrokeWidth);
    let user = element(ElementKind::Marker, &[("markerUnits", "userSpaceOnUse")]);
    assert_eq!(MarkerUnits::resolve(&user), MarkerUnits::UserSpaceOnUse);
}

#[test]
fn paint_definitions_collect_gradients_patterns_and_nested_svgs() {
    let document = parse(
        r##"<svg id="root"><defs><linearGradient id="g"/><svg id="t"><linearGradient id="hidden"/></svg><pattern id="p"/><linearGradient id="g"/></defs><filter id="f"/></svg>"##,
    )
    .unwrap();
    let defs = document.node(document.root()).children[0];
    let children = document.node(defs).children.clone();
    let paints = PaintDefinitions::collect(&document);
    assert_eq!(paints.get("g"), Some(children[0]));
    assert_eq!(paints.get("t"), Some(children[1]));
    assert_eq!(paints.get("p"), Some(children[2]));
    assert_eq!(paints.get("hidden"), None);
    assert_eq!(paints.get("root"), None);
    assert_eq!(paints.get("f"), None);
}

#[test]
fn marker_refs_fall_back_to_the_shorthand() {
    let document = parse(
        r##"<svg><defs><marker id="a"/><marker id="b"/></defs><line marker="url(#a)" marker-end="url(#b)" marker-start="none"/></svg>"##,
    )
    .unwrap();
    let defs = document.node(document.root()).children[0];
    let a = document.node(defs).children[0];
    let b = document.node(defs).children[1];
    let line = document.node(document.root()).children[1];
    let markers = MarkerDefinitions::collect(&document);
    let refs = markers.marker_refs(document.element(line));
    assert_eq!(refs.start, None);
    assert_eq!(refs.mid, Some(a));
    assert_eq!(refs.end, Some(b));
    assert_eq!(refs.get(MarkerKind::Mid), Some(a));
    assert_eq!(refs.get(MarkerKind::Start), None);
    assert!(!refs.is_empty());
    let plain = markers.marker_refs(document.element(defs));
    assert!(plain.is_empty());
    assert_eq!(markers.resolve_reference("url(#b)"), Some(b));
    assert_eq!(markers.resolve_reference("url(#c)"), None);
}

#[test]
fn style_declarations_back_presentation_attributes() {
    let e = element(
        ElementKind::Stop,
        &[("stop-color", "red"), ("style", " stop-opacity : 50% ; stop-color: blue ; bogus")],
    );
    assert_eq!(style_property(&e, "stop-opacity"), Some("50%"));
    assert_eq!(style_property(&e, "stop-color"), Some("blue"));
    assert_eq!(style_property(&e, "offset"), None);
    assert_eq!(presentation_or_style(&e, "stop-color"), Some("red"));
    assert_eq!(presentation_or_style(&e, "stop-opacity"), Some("50%"));
}

#[test]
fn colors_parse_hex_and_names() {
    assert_eq!(parse_color_srgb8("#f00"), Some((255, 0, 0)));
    assert_eq!(parse_color_srgb8(" #00Ff80 "), Some((0, 255, 128)));
    assert_eq!(parse_color_srgb8("Green"), Some((0, 128, 0)));
    assert_eq!(parse_color_srgb8("grey"), Some((128, 128, 128)));
    assert_eq!(parse_color_srgb8("#12"), None);
    assert_eq!(parse_color_srgb8("#ggg"), None);
    assert_eq!(parse_color_srgb8("chartreuse"), None);
}

#[test]
fn hex_digits_decode() {
    assert_eq!(nibble(b'0'), Some(0));
    assert_eq!(nibble(b'a'), Some(10));
    assert_eq!(nibble(b'F'), Some(15));
    assert_eq!(nibble(b'g'), None);
    assert_eq!(byte(b'8', b'0'), Some(128));
    assert_eq!(byte(b'f', b'f'), Some(255));
    assert_eq!(byte(b'x', b'0'), None);
}

#[test]
fn paint_values_read_none_references_colours_and_junk() {
    assert!(matches!(read_paint_value(" NONE "), PaintValue::NoPaint));
    match read_paint_value("url(#g) none") {
        PaintValue::Reference(r) => {
            assert_eq!(r.id, "g");
            assert_eq!(r.fallback, Some("none"));
        }
        _ => panic!("expected a reference"),
    }
    assert!(matches!(read_paint_value("#00f"), PaintValue::Color((0, 0, 255))));
    assert!(matches!(read_paint_value("currentColor"), PaintValue::Invalid));
}

#[test]
fn reference_fallbacks_choose_none_colour_or_default() {
    assert_eq!(reference_fallback(Some("None"), true), PaintChoice::NoPaint);
    assert_eq!(reference_fallback(Some("red"), false), PaintChoice::Color((255, 0, 0)));
    assert_eq!(reference_fallback(Some("bogus"), true), PaintChoice::DefaultColor);
    assert_eq!(reference_fallback(None, true), PaintChoice::DefaultColor);
    assert_eq!(reference_fallback(None, false), PaintChoice::NoPaint);
}
