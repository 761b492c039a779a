use svg3::dom::{parse, AttributeMap, Document, Element, ElementKind, ParseError};

#[test]
fn tag_mapping_recognises_svg3_elements() {
    assert_eq!(ElementKind::from_tag("svg"), ElementKind::Svg);
    assert_eq!(ElementKind::from_tag("g"), ElementKind::Group);
    assert_eq!(ElementKind::from_tag("rect"), ElementKind::Rect);
    assert_eq!(ElementKind::from_tag("circle"), ElementKind::Circle);
    assert_eq!(ElementKind::from_tag("ellipse"), ElementKind::Ellipse);
    assert_eq!(ElementKind::from_tag("polygon"), ElementKind::Polygon);
    assert_eq!(ElementKind::from_tag("polyline"), ElementKind::Polyline);
    assert_eq!(ElementKind::from_tag("line"), ElementKind::Line);
    assert_eq!(ElementKind::from_tag("path"), ElementKind::Path);
    assert_eq!(ElementKind::from_tag("filter"), ElementKind::Filter);
    assert_eq!(ElementKind::from_tag("feGaussianBlur"), ElementKind::FeGaussianBlur);
    assert_eq!(ElementKind::from_tag("feImage"), ElementKind::FeImage);
    assert_eq!(ElementKind::from_tag("feColorMatrix"), ElementKind::FeColorMatrix);
    assert_eq!(ElementKind::from_tag("feTurbulence"), ElementKind::FeTurbulence);
    assert_eq!(ElementKind::from_tag("feSpecularLighting"), ElementKind::FeSpecularLighting);
    assert_eq!(ElementKind::from_tag("feDiffuseLighting"), ElementKind::FeDiffuseLighting);
    assert_eq!(ElementKind::from_tag("feMorphology"), ElementKind::FeMorphology);
    assert_eq!(ElementKind::from_tag("feFlood"), ElementKind::FeFlood);
    assert_eq!(ElementKind::from_tag("feDropShadow"), ElementKind::FeDropShadow);
    assert_eq!(ElementKind::from_tag("feDisplacementMap"), ElementKind::FeDisplacementMap);
    assert_eq!(ElementKind::from_tag("feConvolveMatrix"), ElementKind::FeConvolveMatrix);
    assert_eq!(ElementKind::from_tag("feComponentTransfer"), ElementKind::FeComponentTransfer);
    assert_eq!(ElementKind::from_tag("feOffset"), ElementKind::FeOffset);
    assert_eq!(ElementKind::from_tag("feMerge"), ElementKind::FeMerge);
    assert_eq!(ElementKind::from_tag("feMergeNode"), ElementKind::FeMergeNode);
    assert_eq!(ElementKind::from_tag("feBlend"), ElementKind::FeBlend);
    assert_eq!(ElementKind::from_tag("feComposite"), ElementKind::FeComposite);
    assert_eq!(ElementKind::from_tag("feTile"), ElementKind::FeTile);
    assert_eq!(ElementKind::from_tag("feFuncR"), ElementKind::FeFuncR);
    assert_eq!(ElementKind::from_tag("feFuncA"), ElementKind::FeFuncA);
    assert_eq!(ElementKind::from_tag("feDistantLight"), ElementKind::FeDistantLight);
    assert_eq!(ElementKind::from_tag("fePointLight"), ElementKind::FePointLight);
    assert_eq!(ElementKind::from_tag("feSpotLight"), ElementKind::FeSpotLight);
    assert_eq!(ElementKind::from_tag("cube"), ElementKind::Cube);
    assert_eq!(ElementKind::from_tag("ellipsoid"), ElementKind::Ellipsoid);
    assert_eq!(ElementKind::from_tag("cylinder"), ElementKind::Cylinder);
    assert_eq!(ElementKind::from_tag("surface"), ElementKind::Surface);
    assert_eq!(ElementKind::Cylinder.as_tag(), "cylinder");
    assert_eq!(ElementKind::Surface.as_tag(), "surface");
    assert_eq!(ElementKind::Rect.as_tag(), "rect");
    assert_eq!(ElementKind::Ellipse.as_tag(), "ellipse");
    assert_eq!(ElementKind::Polygon.as_tag(), "polygon");
    assert_eq!(ElementKind::Polyline.as_tag(), "polyline");
    assert_eq!(ElementKind::Line.as_tag(), "line");
    assert_eq!(ElementKind::Path.as_tag(), "path");
    assert_eq!(ElementKind::Filter.as_tag(), "filter");
    assert_eq!(ElementKind::FeGaussianBlur.as_tag(), "feGaussianBlur");
    assert_eq!(ElementKind::FeImage.as_tag(), "feImage");
    assert_eq!(ElementKind::FeColorMatrix.as_tag(), "feColorMatrix");
    assert_eq!(ElementKind::FeFlood.as_tag(), "feFlood");
    assert_eq!(ElementKind::FeDropShadow.as_tag(), "feDropShadow");
    assert_eq!(ElementKind::FeComponentTransfer.as_tag(), "feComponentTransfer");
    assert_eq!(ElementKind::FeFuncR.as_tag(), "feFuncR");
    assert_eq!(ElementKind::FeDistantLight.as_tag(), "feDistantLight");
    assert_eq!(ElementKind::from_tag("group"), ElementKind::Unknown("group".to_owned()));
    assert_eq!(ElementKind::from_tag("scene"), ElementKind::Unknown("scene".to_owned()));
    assert_eq!(ElementKind::from_tag("widget"), ElementKind::Unknown("widget".to_owned()));
}

#[test]
fn tag_round_trips_through_kind() {
    for tag in ["svg", "g", "defs", "marker", "mask", "clipPath", "feSpotLight", "surface", "widget", ""] {
        assert_eq!(ElementKind::from_tag(tag).as_tag(), tag);
    }
}

#[test]
fn document_can_be_built_programmatically() {
    let mut doc = Document::new();
    let cube_id = doc.append_child(doc.root(), ElementKind::Cube);

    assert_eq!(doc.element(doc.root()).kind, ElementKind::Svg);
    assert_eq!(doc.node(doc.root()).children, vec![cube_id]);
    assert_eq!(doc.element(cube_id).kind, ElementKind::Cube);
    assert_eq!(doc.len(), 2);
}

#[test]
fn svg3_extension_requires_root_pupiltong_attribute() {
    let plain = parse(r#"<svg><cube/></svg>"#).unwrap();
    assert!(!plain.svg3_extension_enabled());

    let enabled = parse(r#"<svg extension="pupiltong"><cube/></svg>"#).unwrap();
    assert!(enabled.svg3_extension_enabled());

    let other = parse(r#"<svg extension="other"><cube/></svg>"#).unwrap();
    assert!(!other.svg3_extension_enabled());
}

#[test]
fn new_document_is_a_lone_svg_root() {
    let doc = Document::new();
    assert_eq!(doc.len(), 1);
    assert!(!doc.is_empty());
    assert_eq!(doc.root().index(), 0);
    assert_eq!(doc.element(doc.root()).kind, ElementKind::Svg);
    assert!(doc.element(doc.root()).attributes.is_empty());
    assert!(doc.is_well_formed());
}

#[test]
fn node_mut_edits_attributes_in_place() {
    let mut doc = Document::new();
    let rect = doc.append_child(doc.root(), ElementKind::Rect);
    doc.node_mut(rect).element.attributes.insert("fill".into(), "red".into());
    assert_eq!(doc.element(rect).attributes.get("fill").map(String::as_str), Some("red"));
    assert_eq!(doc.element(rect).attributes.len(), 1);
}

#[test]
fn element_new_has_no_attributes() {
    let element = Element::new(ElementKind::Circle);
    assert_eq!(element.kind, ElementKind::Circle);
    assert!(element.attributes.is_empty());
}

#[test]
fn attribute_map_insert_replaces_and_remove_forgets() {
    let mut element = Element::new(ElementKind::Rect);
    assert_eq!(element.attributes.insert("b".into(), "1".into()), None);
    assert_eq!(element.attributes.insert("a".into(), "2".into()), None);
    assert_eq!(element.attributes.insert("b".into(), "3".into()), Some("1".to_owned()));
    assert_eq!(element.attributes.len(), 2);
    let names: Vec<&str> = element.attributes.as_slice().iter().map(|(k, _)| k.as_str()).collect();
    assert_eq!(names, vec!["a", "b"]);
    assert_eq!(element.attributes.remove("a"), Some("2".to_owned()));
    assert_eq!(element.attributes.remove("a"), None);
    assert!(!element.attributes.contains_key("a"));
    assert!(element.attributes.contains_key("b"));
}

#[test]
fn attribute_map_extend_prefers_the_argument() {
    let mut base = AttributeMap::new();
    base.insert("fill".into(), "red".into());
    base.insert("stroke".into(), "blue".into());
    let mut other = AttributeMap::new();
    other.insert("fill".into(), "green".into());
    other.insert("opacity".into(), "0.5".into());
    base.extend_from(&other);
    assert_eq!(base.len(), 3);
    assert_eq!(base.get("fill").map(String::as_str), Some("green"));
    assert_eq!(base.get("stroke").map(String::as_str), Some("blue"));
    assert_eq!(base.get("opacity").map(String::as_str), Some("0.5"));
}

#[test]
fn parse_empty_svg() {
    let doc = parse("<svg/>").unwrap();
    let root = doc.element(doc.root());
    assert_eq!(root.kind, ElementKind::Svg);
    assert!(root.attributes.is_empty());
    assert!(doc.node(doc.root()).children.is_empty());
    assert_eq!(doc.len(), 1);
}

#[test]
fn parse_svg_with_explicit_close() {
    let doc = parse("<svg></svg>").unwrap();
    assert_eq!(doc.element(doc.root()).kind, ElementKind::Svg);
    assert!(doc.node(doc.root()).children.is_empty());
}

#[test]
fn parse_single_cube() {
    let doc = parse("<svg><cube/></svg>").unwrap();
    assert_eq!(doc.element(doc.root()).kind, ElementKind::Svg);
    let children = &doc.node(doc.root()).children;
    assert_eq!(children.len(), 1);
    assert_eq!(doc.element(children[0]).kind, ElementKind::Cube);
    assert_eq!(doc.len(), 2);
}

#[test]
fn parse_rect_preserves_geometry_attributes() {
    let xml = r#"<svg><rect x="10" y="20" width="50" height="40" rx="8" fill="blue"/></svg>"#;
    let doc = parse(xml).unwrap();
    let rect_id = doc.node(doc.root()).children[0];
    let rect = doc.element(rect_id);
    assert_eq!(rect.kind, ElementKind::Rect);
    assert_eq!(rect.attributes.get("x").map(String::as_str), Some("10"));
    assert_eq!(rect.attributes.get("y").map(String::as_str), Some("20"));
    assert_eq!(rect.attributes.get("width").map(String::as_str), Some("50"));
    assert_eq!(rect.attributes.get("height").map(String::as_str), Some("40"));
    assert_eq!(rect.attributes.get("rx").map(String::as_str), Some("8"));
    assert_eq!(rect.attributes.get("fill").map(String::as_str), Some("blue"));
}

#[test]
fn parse_circle_preserves_geometry_attributes() {
    let xml = r#"<svg><circle cx="30" cy="40" r="25" fill="red"/></svg>"#;
    let doc = parse(xml).unwrap();
    let circle_id = doc.node(doc.root()).children[0];
    let circle = doc.element(circle_id);
    assert_eq!(circle.kind, ElementKind::Circle);
    assert_eq!(circle.attributes.get("cx").map(String::as_str), Some("30"));
    assert_eq!(circle.attributes.get("cy").map(String::as_str), Some("40"));
    assert_eq!(circle.attributes.get("r").map(String::as_str), Some("25"));
    assert_eq!(circle.attributes.get("fill").map(String::as_str), Some("red"));
}

#[test]
fn parse_ellipse_preserves_geometry_attributes() {
    let xml = r#"<svg><ellipse cx="60" cy="40" rx="50" ry="30" fill="green"/></svg>"#;
    let doc = parse(xml).unwrap();
    let ellipse_id = doc.node(doc.root()).children[0];
    let ellipse = doc.element(ellipse_id);
    assert_eq!(ellipse.kind, ElementKind::Ellipse);
    assert_eq!(ellipse.attributes.get("cx").map(String::as_str), Some("60"));
    assert_eq!(ellipse.attributes.get("cy").map(String::as_str), Some("40"));
    assert_eq!(ellipse.attributes.get("rx").map(String::as_str), Some("50"));
    assert_eq!(ellipse.attributes.get("ry").map(String::as_str), Some("30"));
    assert_eq!(ellipse.attributes.get("fill").map(String::as_str), Some("green"));
}

#[test]
fn parse_polygon_preserves_points_attribute() {
    let xml = r#"<svg><polygon points="0,0 20,0 10,16" fill="green"/></svg>"#;
    let doc = parse(xml).unwrap();
    let polygon_id = doc.node(doc.root()).children[0];
    let polygon = doc.element(polygon_id);
    assert_eq!(polygon.kind, ElementKind::Polygon);
    assert_eq!(polygon.attributes.get("points").map(String::as_str), Some("0,0 20,0 10,16"));
    assert_eq!(polygon.attributes.get("fill").map(String::as_str), Some("green"));
}

#[test]
fn parse_polyline_preserves_geometry_attributes() {
    let xml = r#"<svg><polyline points="10,20 30,40 50,20" fill="green"/></svg>"#;
    let doc = parse(xml).unwrap();
    let polyline_id = doc.node(doc.root()).children[0];
    let polyline = doc.element(polyline_id);
    assert_eq!(polyline.kind, ElementKind::Polyline);
    assert_eq!(polyline.attributes.get("points").map(String::as_str), Some("10,20 30,40 50,20"));
    assert_eq!(polyline.attributes.get("fill").map(String::as_str), Some("green"));
}

#[test]
fn parse_line_preserves_geometry_attributes() {
    let xml = r#"<svg><line x1="10" y1="20" x2="50" y2="40" stroke="blue" stroke-width="3"/></svg>"#;
    let doc = parse(xml).unwrap();
    let line_id = doc.node(doc.root()).children[0];
    let line = doc.element(line_id);
    assert_eq!(line.kind, ElementKind::Line);
    assert_eq!(line.attributes.get("x1").map(String::as_str), Some("10"));
    assert_eq!(line.attributes.get("y1").map(String::as_str), Some("20"));
    assert_eq!(line.attributes.get("x2").map(String::as_str), Some("50"));
    assert_eq!(line.attributes.get("y2").map(String::as_str), Some("40"));
    assert_eq!(line.attributes.get("stroke").map(String::as_str), Some("blue"));
    assert_eq!(line.attributes.get("stroke-width").map(String::as_str), Some("3"));
}

#[test]
fn parse_path_preserves_geometry_attributes() {
    let xml = r#"<svg><path d="M10 20 L50 20 Z" fill="blue" stroke="red" stroke-width="3"/></svg>"#;
    let doc = parse(xml).unwrap();
    let path_id = doc.node(doc.root()).children[0];
    let path = doc.element(path_id);
    assert_eq!(path.kind, ElementKind::Path);
    assert_eq!(path.attributes.get("d").map(String::as_str), Some("M10 20 L50 20 Z"));
    assert_eq!(path.attributes.get("fill").map(String::as_str), Some("blue"));
    assert_eq!(path.attributes.get("stroke").map(String::as_str), Some("red"));
    assert_eq!(path.attributes.get("stroke-width").map(String::as_str), Some("3"));
}

#[test]
fn parse_filter_preserves_gaussian_blur_attributes() {
    let xml = r#"<svg><filter id="soft"><feGaussianBlur stdDeviation="4 2"/></filter></svg>"#;
    let doc = parse(xml).unwrap();
    let filter_id = doc.node(doc.root()).children[0];
    let filter = doc.node(filter_id);
    assert_eq!(filter.element.kind, ElementKind::Filter);
    assert_eq!(filter.element.attributes.get("id").map(String::as_str), Some("soft"));
    assert_eq!(filter.children.len(), 1);

    let blur = doc.element(filter.children[0]);
    assert_eq!(blur.kind, ElementKind::FeGaussianBlur);
    assert_eq!(blur.attributes.get("stdDeviation").map(String::as_str), Some("4 2"));
}

#[test]
fn parse_filter_preserves_fe_image_attributes() {
    let xml = r#"<svg><filter id="tex"><feImage href="data:image/png;base64,abc" x="4" y="6" width="12" height="14"/></filter></svg>"#;
    let doc = parse(xml).unwrap();
    let filter_id = doc.node(doc.root()).children[0];
    let filter = doc.node(filter_id);
    assert_eq!(filter.element.kind, ElementKind::Filter);
    assert_eq!(filter.children.len(), 1);

    let image = doc.element(filter.children[0]);
    assert_eq!(image.kind, ElementKind::FeImage);
    assert_eq!(image.attributes.get("href").map(String::as_str), Some("data:image/png;base64,abc"));
    assert_eq!(image.attributes.get("x").map(String::as_str), Some("4"));
    assert_eq!(image.attributes.get("y").map(String::as_str), Some("6"));
    assert_eq!(image.attributes.get("width").map(String::as_str), Some("12"));
    assert_eq!(image.attributes.get("height").map(String::as_str), Some("14"));
}

#[test]
fn parse_defs_and_marker_elements() {
    let xml = r#"<svg><defs><marker id="arrow" markerWidth="10" markerHeight="8" refX="10" refY="4" orient="auto"><path d="M0 0 L10 4 L0 8 Z"/></marker></defs></svg>"#;
    let doc = parse(xml).unwrap();
    let defs_id = doc.node(doc.root()).children[0];
    let defs = doc.node(defs_id);
    assert_eq!(defs.element.kind, ElementKind::Defs);
    assert_eq!(defs.children.len(), 1);

    let marker = doc.node(defs.children[0]);
    assert_eq!(marker.element.kind, ElementKind::Marker);
    assert_eq!(marker.element.attributes.get("id").map(String::as_str), Some("arrow"));
    assert_eq!(marker.children.len(), 1);
    assert_eq!(doc.element(marker.children[0]).kind, ElementKind::Path);
}

#[test]
fn parse_nested_groups() {
    let xml = "<svg><g><cube/><ellipsoid/><cylinder/></g></svg>";
    let doc = parse(xml).unwrap();
    let group_id = doc.node(doc.root()).children[0];
    let group = doc.node(group_id);
    assert_eq!(group.element.kind, ElementKind::Group);
    assert_eq!(group.children.len(), 3);
    assert_eq!(doc.element(group.children[0]).kind, ElementKind::Cube);
    assert_eq!(doc.element(group.children[1]).kind, ElementKind::Ellipsoid);
    assert_eq!(doc.element(group.children[2]).kind, ElementKind::Cylinder);
}

#[test]
fn parse_preserves_attributes_and_unescapes_values() {
    let xml = r#"<svg><cube id="a" class="b" size="2" label="a&amp;b"/></svg>"#;
    let doc = parse(xml).unwrap();
    let cube_id = doc.node(doc.root()).children[0];
    let cube = doc.element(cube_id);
    assert_eq!(cube.kind, ElementKind::Cube);
    assert_eq!(cube.attributes.get("id").map(String::as_str), Some("a"));
    assert_eq!(cube.attributes.get("class").map(String::as_str), Some("b"));
    assert_eq!(cube.attributes.get("size").map(String::as_str), Some("2"));
    assert_eq!(cube.attributes.get("label").map(String::as_str), Some("a&b"));
}

#[test]
fn parse_unknown_elements_kept_verbatim() {
    let doc = parse("<svg><widget/></svg>").unwrap();
    let widget_id = doc.node(doc.root()).children[0];
    assert_eq!(doc.element(widget_id).kind, ElementKind::Unknown("widget".to_owned()));
}

#[test]
fn parse_empty_input_errors() {
    assert!(matches!(parse(""), Err(ParseError::EmptyDocument)));
}

#[test]
fn parse_wrong_root_errors() {
    let err = parse("<cube/>").unwrap_err();
    match err {
        ParseError::UnexpectedRoot { found } => assert_eq!(found, "cube"),
        other => panic!("expected UnexpectedRoot, got {other:?}"),
    }
}

#[test]
fn parse_scene_rooted_document_errors() {
    let err = parse("<scene/>").unwrap_err();
    match err {
        ParseError::UnexpectedRoot { found } => assert_eq!(found, "scene"),
        other => panic!("expected UnexpectedRoot, got {other:?}"),
    }
}

#[test]
fn parse_unclosed_element_errors() {
    let err = parse("<svg>").unwrap_err();
    match err {
        ParseError::UnclosedElement { tag } => assert_eq!(tag, "svg"),
        other => panic!("expected UnclosedElement, got {other:?}"),
    }
}

#[test]
fn parse_rejects_mismatched_end_tag_as_xml_error() {
    assert!(matches!(parse("<svg><g></svg>"), Err(ParseError::Xml(_))));
}

#[test]
fn parse_ignores_text_comments_and_declarations() {
    let doc = parse("<?xml version=\"1.0\"?><!-- hi --><svg>text<g/></svg>").unwrap();
    assert_eq!(doc.len(), 2);
    let g = doc.node(doc.root()).children[0];
    assert_eq!(doc.element(g).kind, ElementKind::Group);
}

#[test]
fn parsed_documents_are_well_formed() {
    let doc = parse("<svg><g><rect/><g><circle/></g></g><path/></svg>").unwrap();
    assert!(doc.is_well_formed());
    assert_eq!(doc.len(), 6);
}

#[test]
fn element_from_parts_lets_later_duplicates_win() {
    let element = svg3::dom::parser::element_from_parts(
        "rect",
        vec![("x".to_owned(), "1".to_owned()), ("y".to_owned(), "2".to_owned()), ("x".to_owned(), "3".to_owned())],
    );
    assert_eq!(element.kind, ElementKind::Rect);
    assert_eq!(element.attributes.len(), 2);
    assert_eq!(element.attributes.get("x").map(String::as_str), Some("3"));
    let unknown = svg3::dom::parser::element_from_parts("blob", Vec::new());
    assert_eq!(unknown.kind, ElementKind::Unknown("blob".to_owned()));
}

#[test]
fn attribute_maps_with_equal_bindings_store_equal_pairs() {
    let mut a = AttributeMap::new();
    a.insert("stroke".into(), "red".into());
    a.insert("fill".into(), "blue".into());
    a.insert("x".into(), "1".into());
    let mut b = AttributeMap::new();
    b.insert("x".into(), "0".into());
    b.insert("fill".into(), "blue".into());
    b.insert("stroke".into(), "red".into());
    b.insert("x".into(), "1".into());
    assert_eq!(a.as_slice(), b.as_slice());
    assert_eq!(a, b);
}

#[test]
fn parse_second_top_level_element_errors() {
    assert!(matches!(parse("<cube/><svg/>"), Err(ParseError::MultipleRoots)));
    assert!(matches!(parse("<svg></svg><svg/>"), Err(ParseError::MultipleRoots)));
}

#[test]
fn parse_numbers_nodes_in_document_order() {
    let doc = parse(r#"<svg><g><cube/><!-- note --><sphere/></g>text<rect/></svg>"#).unwrap();
    assert_eq!(doc.len(), 5);
    assert_eq!(doc.root().index(), 0);
    let kinds: Vec<ElementKind> = (0..5)
        .map(|i| doc.element(svg3::dom::NodeId::from_index(i)).kind.clone())
        .collect();
    assert_eq!(kinds[0], ElementKind::Svg);
    assert_eq!(kinds[1], ElementKind::Group);
    assert_eq!(kinds[2], ElementKind::Cube);
    assert_eq!(kinds[4], ElementKind::Rect);
    let root_children: Vec<usize> =
        doc.node(doc.root()).children.iter().map(|c| c.index()).collect();
    assert_eq!(root_children, vec![1, 4]);
    let group_children: Vec<usize> = doc
        .node(svg3::dom::NodeId::from_index(1))
        .children
        .iter()
        .map(|c| c.index())
        .collect();
    assert_eq!(group_children, vec![2, 3]);
}
