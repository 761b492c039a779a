use svg3::filters::{wire_chain, PrimitiveLinks};
use svg3::definitions::{DefinitionIndex, DefinitionSet};
use svg3::dom::{parse, Element, ElementKind};
use svg3::filters::{
    composite_op_of, edge_mode_of, fe_image_href, is_current_color, mask_mode, parse_merge, parse_blend, parse_blend_mode, parse_channel, parse_composite_op,
    parse_edge_mode, parse_preserve_aspect_ratio, primitive_links, resolve_input, AspectAlign,
    ClipPathDefinitions, FilterDefinitions, FilterInput, FilterTarget, InputSource, MaskDefinitions,
    MaskMode, PreserveAspect, BLEND_MODE_DARKEN, BLEND_MODE_MULTIPLY, BLEND_MODE_NORMAL, CH_A,
    CH_B, CH_R, COMPOSITE_OP_ARITHMETIC, COMPOSITE_OP_OVER, EDGE_MODE_DUPLICATE, EDGE_MODE_NONE,
    EDGE_MODE_WRAP,
};
use svg3::references::filter_reference_id;

fn element(kind: ElementKind, attrs: &[(&str, &str)]) -> Element {
    let mut element = Element::new(kind);
    for (key, value) in attrs {
        element.attributes.insert((*key).to_owned(), (*value).to_owned());
    }
    element
}

#[test]
fn filter_reference_accepts_quoted_fragment_urls() {
    assert_eq!(filter_reference_id("url(\"#soft\")"), Some("soft"));
    assert_eq!(filter_reference_id("url('#soft')"), Some("soft"));
    assert_eq!(filter_reference_id("none"), None);
}

#[test]
fn filter_reference_rejects_non_fragment_values() {
    assert_eq!(filter_reference_id("  url( #soft )  "), Some("soft"));
    assert_eq!(filter_reference_id("NONE"), None);
    assert_eq!(filter_reference_id("url(soft)"), None);
    assert_eq!(filter_reference_id("url(#)"), None);
    assert_eq!(filter_reference_id("blur(2px)"), None);
}

#[test]
fn filter_input_parses_known_pseudo_inputs() {
    assert_eq!(FilterInput::parse(None), FilterInput::Default);
    assert_eq!(FilterInput::parse(Some("")), FilterInput::Default);
    assert_eq!(FilterInput::parse(Some("SourceGraphic")), FilterInput::SourceGraphic);
    assert_eq!(FilterInput::parse(Some("SourceAlpha")), FilterInput::SourceAlpha);
    assert_eq!(FilterInput::parse(Some("BackgroundImage")), FilterInput::BackgroundImage);
    assert_eq!(FilterInput::parse(Some("BackgroundAlpha")), FilterInput::BackgroundAlpha);
    assert_eq!(FilterInput::parse(Some("FillPaint")), FilterInput::FillPaint);
    assert_eq!(FilterInput::parse(Some("StrokePaint")), FilterInput::StrokePaint);
    assert_eq!(FilterInput::parse(Some("blurred")), FilterInput::Named("blurred".to_owned()));
}

#[test]
fn filter_input_trims_and_is_case_sensitive() {
    assert_eq!(FilterInput::parse(Some("  ")), FilterInput::Default);
    assert_eq!(FilterInput::parse(Some(" SourceAlpha ")), FilterInput::SourceAlpha);
    assert_eq!(FilterInput::parse(Some("sourcealpha")), FilterInput::Named("sourcealpha".to_owned()));
}

#[test]
fn collect_resolves_url_referenced_gaussian_blur() {
    let document = parse(
        r##"<svg><filter id="soft"><feGaussianBlur stdDeviation="4 2"/></filter><rect filter="url(#soft)"/></svg>"##,
    )
    .unwrap();
    let definitions = FilterDefinitions::collect(&document);
    let filter_id = document.node(document.root()).children[0];
    let rect_id = document.node(document.root()).children[1];
    let target = definitions.resolve(document.element(rect_id)).unwrap();
    assert_eq!(target, FilterTarget::Chain(filter_id));
    let chain = &document.node(filter_id).children;
    assert_eq!(chain.len(), 1);
    let blur = document.element(chain[0]);
    assert_eq!(blur.kind, ElementKind::FeGaussianBlur);
    let links = primitive_links(blur);
    assert_eq!(links.input, FilterInput::Default);
    assert_eq!(links.input2, FilterInput::Default);
    assert!(links.result.is_none());
}

#[test]
fn duplicate_filter_ids_keep_the_first_definition() {
    let document = parse(
        r##"<svg><filter id="soft"><feGaussianBlur stdDeviation="2"/></filter><filter id="soft"><feGaussianBlur stdDeviation="8"/></filter><rect filter="url(#soft)"/></svg>"##,
    )
    .unwrap();
    let definitions = FilterDefinitions::collect(&document);
    let first = document.node(document.root()).children[0];
    let rect_id = document.node(document.root()).children[2];
    let target = definitions.resolve(document.element(rect_id)).unwrap();
    assert_eq!(target, FilterTarget::Chain(first));
    let blur = document.element(document.node(first).children[0]);
    assert_eq!(blur.attributes.get("stdDeviation").map(String::as_str), Some("2"));
}

#[test]
fn primitive_wires_in_in2_and_result_attributes() {
    let document = parse(
        r##"<svg><filter id="warp"><feTurbulence baseFrequency="0.05" numOctaves="2" result="turbulence"/><feDisplacementMap in="SourceGraphic" in2="turbulence" scale="50"/></filter><circle filter="url(#warp)"/></svg>"##,
    )
    .unwrap();
    let definitions = FilterDefinitions::collect(&document);
    let filter_id = document.node(document.root()).children[0];
    let circle_id = document.node(document.root()).children[1];
    assert_eq!(definitions.resolve(document.element(circle_id)), Some(FilterTarget::Chain(filter_id)));
    let chain = &document.node(filter_id).children;
    assert_eq!(chain.len(), 2);
    assert_eq!(document.element(chain[0]).kind, ElementKind::FeTurbulence);
    let first = primitive_links(document.element(chain[0]));
    assert_eq!(first.result.as_deref(), Some("turbulence"));
    assert_eq!(document.element(chain[1]).kind, ElementKind::FeDisplacementMap);
    let second = primitive_links(document.element(chain[1]));
    assert_eq!(second.input, FilterInput::SourceGraphic);
    assert_eq!(second.input2, FilterInput::Named("turbulence".to_owned()));
}

#[test]
fn filter_href_chain_inherits_primitives() {
    let document = parse(
        r##"<svg><filter id="base"><feFlood/></filter><filter id="derived" href="#base"/><rect filter="url(#derived)"/></svg>"##,
    )
    .unwrap();
    let definitions = FilterDefinitions::collect(&document);
    let base = document.node(document.root()).children[0];
    let rect = document.node(document.root()).children[2];
    assert_eq!(definitions.resolve(document.element(rect)), Some(FilterTarget::Chain(base)));
    assert_eq!(definitions.resolve_href_chain("derived"), Some(base));
}

#[test]
fn filter_href_cycle_renders_transparent() {
    let document = parse(
        r##"<svg><filter id="a" href="#b"/><filter id="b" href="#a"/><rect filter="url(#a)"/></svg>"##,
    )
    .unwrap();
    let definitions = FilterDefinitions::collect(&document);
    let rect = document.node(document.root()).children[2];
    assert_eq!(definitions.resolve(document.element(rect)), Some(FilterTarget::EmptyTransparent));
    assert_eq!(definitions.resolve_href_chain("a"), None);
}

#[test]
fn missing_filter_reference_renders_transparent_and_none_is_ignored() {
    let document = parse(r##"<svg><rect filter="url(#nope)"/><rect filter="none"/><rect/></svg>"##).unwrap();
    let definitions = FilterDefinitions::collect(&document);
    let children = document.node(document.root()).children.clone();
    assert_eq!(definitions.resolve(document.element(children[0])), Some(FilterTarget::EmptyTransparent));
    assert_eq!(definitions.resolve(document.element(children[1])), None);
    assert_eq!(definitions.resolve(document.element(children[2])), None);
}

#[test]
fn merge_collects_merge_node_inputs_in_order() {
    let document = parse(
        r##"<svg><filter id="m"><feMerge><feMergeNode in="a"/><feFlood/><feMergeNode/><feMergeNode in="SourceAlpha"/></feMerge></filter></svg>"##,
    )
    .unwrap();
    let filter = document.node(document.root()).children[0];
    let merge = document.node(filter).children[0];
    let inputs = parse_merge(&document, merge);
    assert_eq!(
        inputs,
        vec![FilterInput::Named("a".to_owned()), FilterInput::Default, FilterInput::SourceAlpha]
    );
}

#[test]
fn resolve_input_follows_previous_and_latest_named_result() {
    let named = vec![("a".to_owned(), 0), ("b".to_owned(), 1), ("a".to_owned(), 2)];
    assert_eq!(resolve_input(&FilterInput::Default, None, &named), InputSource::SourceGraphic);
    assert_eq!(resolve_input(&FilterInput::Default, Some(1), &named), InputSource::Output(1));
    assert_eq!(resolve_input(&FilterInput::Named("a".to_owned()), Some(2), &named), InputSource::Output(2));
    assert_eq!(resolve_input(&FilterInput::Named("b".to_owned()), None, &named), InputSource::Output(1));
    assert_eq!(resolve_input(&FilterInput::Named("c".to_owned()), Some(2), &named), InputSource::SourceGraphic);
    assert_eq!(resolve_input(&FilterInput::SourceAlpha, Some(2), &named), InputSource::SourceAlpha);
    assert_eq!(resolve_input(&FilterInput::BackgroundAlpha, None, &named), InputSource::SourceAlpha);
    assert_eq!(resolve_input(&FilterInput::BackgroundImage, Some(0), &named), InputSource::SourceGraphic);
    assert_eq!(resolve_input(&FilterInput::FillPaint, Some(0), &named), InputSource::SourceGraphic);
    assert_eq!(resolve_input(&FilterInput::StrokePaint, Some(0), &named), InputSource::SourceGraphic);
}

#[test]
fn preserve_aspect_ratio_parses_align_and_slice() {
    assert_eq!(
        parse_preserve_aspect_ratio(""),
        PreserveAspect::Aligned { align: AspectAlign::XMidYMid, slice: false }
    );
    assert_eq!(parse_preserve_aspect_ratio(" NONE "), PreserveAspect::Stretch);
    assert_eq!(
        parse_preserve_aspect_ratio("xMinYMax slice"),
        PreserveAspect::Aligned { align: AspectAlign::XMinYMax, slice: true }
    );
    assert_eq!(
        parse_preserve_aspect_ratio("xMaxYMin Meet"),
        PreserveAspect::Aligned { align: AspectAlign::XMaxYMin, slice: false }
    );
    assert_eq!(
        parse_preserve_aspect_ratio("bogus SLICE"),
        PreserveAspect::Aligned { align: AspectAlign::XMidYMid, slice: true }
    );
    assert_eq!(PreserveAspect::default_aspect(), parse_preserve_aspect_ratio("   "));
}

#[test]
fn keyword_attributes_map_to_codes() {
    let r = "r".to_owned();
    let b = " b ".to_owned();
    let bogus = "x".to_owned();
    assert_eq!(parse_channel(Some(&r)), CH_R);
    assert_eq!(parse_channel(Some(&b)), CH_B);
    assert_eq!(parse_channel(Some(&bogus)), CH_A);
    assert_eq!(parse_channel(None), CH_A);
    assert_eq!(parse_edge_mode("wrap"), EDGE_MODE_WRAP);
    assert_eq!(parse_edge_mode("none"), EDGE_MODE_NONE);
    assert_eq!(parse_edge_mode("duplicate"), EDGE_MODE_DUPLICATE);
    assert_eq!(parse_blend_mode("multiply"), BLEND_MODE_MULTIPLY);
    assert_eq!(parse_blend_mode("darken"), BLEND_MODE_DARKEN);
    assert_eq!(parse_blend_mode("overlay"), BLEND_MODE_NORMAL);
    assert_eq!(parse_blend(&element(ElementKind::FeBlend, &[("mode", " Multiply ")])), BLEND_MODE_MULTIPLY);
    assert_eq!(parse_blend(&element(ElementKind::FeBlend, &[])), BLEND_MODE_NORMAL);
    assert_eq!(parse_composite_op("arithmetic"), COMPOSITE_OP_ARITHMETIC);
    assert_eq!(parse_composite_op("bogus"), COMPOSITE_OP_OVER);
}

#[test]
fn clip_paths_and_masks_resolve_by_reference() {
    let document = parse(
        r##"<svg><defs><clipPath id="c"><rect/></clipPath><mask id="m" mask-type="alpha"><rect/></mask></defs><rect clip-path="url(#c)" mask="url(#m)"/><rect clip-path="url(#x)"/></svg>"##,
    )
    .unwrap();
    let defs = document.node(document.root()).children[0];
    let clip = document.node(defs).children[0];
    let mask = document.node(defs).children[1];
    let rect = document.node(document.root()).children[1];
    let other = document.node(document.root()).children[2];
    let clips = ClipPathDefinitions::collect(&document);
    assert_eq!(clips.resolve(document.element(rect)), Some(clip));
    assert_eq!(clips.resolve(document.element(other)), None);
    let masks = MaskDefinitions::collect(&document);
    let resolved = masks.resolve(document.element(rect)).unwrap();
    assert_eq!(resolved.node, mask);
    assert_eq!(resolved.mode, MaskMode::Alpha);
    assert_eq!(mask_mode(document.element(mask)), MaskMode::Alpha);
    assert_eq!(mask_mode(&element(ElementKind::Mask, &[])), MaskMode::Luminance);
}

#[test]
fn definition_index_keeps_first_id_and_skips_definition_subtrees() {
    let document = parse(
        r##"<svg><filter id="f"><filter id="inner"/></filter><g><filter id="f"/><filter id="g"/></g></svg>"##,
    )
    .unwrap();
    let index = DefinitionIndex::collect(&document, DefinitionSet::Filters);
    let first = document.node(document.root()).children[0];
    assert_eq!(index.get("f"), Some(first));
    assert_eq!(index.get("inner"), None);
    assert!(index.get("g").is_some());
    assert_eq!(index.len(), 3);
}

#[test]
fn fe_image_accepts_legacy_xlink_href() {
    let document = parse(
        r##"<svg><filter id="tex"><feImage xlink:href="data:image/png;base64,abc"/></filter><rect filter="url(#tex)"/></svg>"##,
    )
    .unwrap();
    let definitions = FilterDefinitions::collect(&document);
    let filter_id = document.node(document.root()).children[0];
    let rect_id = document.node(document.root()).children[1];
    assert_eq!(definitions.resolve(document.element(rect_id)), Some(FilterTarget::Chain(filter_id)));
    let chain = &document.node(filter_id).children;
    assert_eq!(chain.len(), 1);
    let image = document.element(chain[0]);
    assert_eq!(image.kind, ElementKind::FeImage);
    assert_eq!(fe_image_href(image).map(String::as_str), Some("data:image/png;base64,abc"));
}

#[test]
fn fe_image_prefers_href_and_needs_one() {
    let both = element(ElementKind::FeImage, &[("href", "a"), ("xlink:href", "b")]);
    assert_eq!(fe_image_href(&both).map(String::as_str), Some("a"));
    let none = element(ElementKind::FeImage, &[]);
    assert_eq!(fe_image_href(&none), None);
}

#[test]
fn element_keywords_read_edge_mode_operator_and_current_color() {
    assert_eq!(edge_mode_of(&element(ElementKind::FeConvolveMatrix, &[("edgeMode", " WRAP ")])), EDGE_MODE_WRAP);
    assert_eq!(edge_mode_of(&element(ElementKind::FeConvolveMatrix, &[])), EDGE_MODE_DUPLICATE);
    assert_eq!(composite_op_of(&element(ElementKind::FeComposite, &[("operator", "Arithmetic")])), COMPOSITE_OP_ARITHMETIC);
    assert_eq!(composite_op_of(&element(ElementKind::FeComposite, &[])), COMPOSITE_OP_OVER);
    assert!(is_current_color(" currentcolor "));
    assert!(!is_current_color("red"));
}

#[test]
fn wire_chain_follows_previous_outputs_and_latest_result_names() {
    let link = |input: FilterInput, input2: FilterInput, result: Option<&str>| PrimitiveLinks {
        input,
        input2,
        result: result.map(|s| s.to_string()),
    };
    let links = vec![
        link(FilterInput::Default, FilterInput::Default, Some("a")),
        link(FilterInput::SourceAlpha, FilterInput::Default, Some("b")),
        link(FilterInput::Named("a".to_string()), FilterInput::Named("b".to_string()), Some("a")),
        link(FilterInput::Named("a".to_string()), FilterInput::Named("zzz".to_string()), None),
    ];
    let wired = wire_chain(&links);
    assert_eq!(
        wired,
        vec![
            (InputSource::SourceGraphic, InputSource::SourceGraphic),
            (InputSource::SourceAlpha, InputSource::Output(0)),
            (InputSource::Output(0), InputSource::Output(1)),
            (InputSource::Output(2), InputSource::SourceGraphic),
        ]
    );
}
