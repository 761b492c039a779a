use svg3::dom::{parse, NodeId};
use svg3::dom::ElementKind;
use svg3::plan::{build_render_plan, filter_pass, FilterPass, PlanStep};

fn id(i: usize) -> NodeId {
    NodeId::from_index(i)
}

#[test]
fn plan_draws_in_document_order_and_skips_definitions() {
    // 0 svg, 1 defs, 2 linearGradient, 3 g, 4 rect, 5 circle
    let doc = parse(r#"<svg><defs><linearGradient id="a"/></defs><g><rect/></g><circle/></svg>"#)
        .unwrap();
    let plan = build_render_plan(&doc);
    assert_eq!(plan, vec![PlanStep::Draw(id(3)), PlanStep::Draw(id(4)), PlanStep::Draw(id(5))]);
}

#[test]
fn plan_skips_3d_elements_without_the_extension() {
    let plain = parse(r#"<svg><cube/><rect/></svg>"#).unwrap();
    assert_eq!(build_render_plan(&plain), vec![PlanStep::Draw(id(2))]);
    let enabled = parse(r#"<svg extension="pupiltong"><cube/><rect/></svg>"#).unwrap();
    assert_eq!(
        build_render_plan(&enabled),
        vec![PlanStep::Draw(id(1)), PlanStep::Draw(id(2))]
    );
}

#[test]
fn plan_routes_filtered_subtrees_and_drops_broken_filters() {
    // 0 svg, 1 filter, 2 feGaussianBlur, 3 clipPath, 4 rect(clip),
    // 5 g (filtered), 6 circle, 7 rect (missing filter), 8 ellipse
    let doc = parse(r##"<svg><filter id="f"><feGaussianBlur stdDeviation="2"/></filter><clipPath id="c"><rect/></clipPath><g filter="url(#f)" clip-path="url(#c)"><circle/></g><rect filter="url(#missing)"/><ellipse/></svg>"##)
    .unwrap();
    assert_eq!(
        build_render_plan(&doc),
        vec![
            PlanStep::Filtered {
                node: id(5),
                filter: id(1),
                clip: Some(id(3)),
                generator: false,
                rewired: false,
            },
            PlanStep::Dropped(id(7)),
            PlanStep::Draw(id(8)),
        ]
    );
}

#[test]
fn plan_stops_below_surface() {
    let doc = parse(r#"<svg extension="pupiltong"><surface><path d="M0 0"/></surface></svg>"#)
        .unwrap();
    assert_eq!(build_render_plan(&doc), vec![PlanStep::Draw(id(1))]);
}

#[test]
fn duplicate_filter_ids_keep_the_first_definition_in_the_plan() {
    let doc = parse(r##"<svg><filter id="soft"><feGaussianBlur stdDeviation="2"/></filter><filter id="soft"><feGaussianBlur stdDeviation="8"/></filter><rect filter="url(#soft)"/></svg>"##)
    .unwrap();
    assert_eq!(
        build_render_plan(&doc),
        vec![PlanStep::Filtered {
            node: id(5),
            filter: id(1),
            clip: None,
            generator: false,
            rewired: false,
        }]
    );
}

#[test]
fn render_plan_isolates_filtered_subtree_in_painter_order() {
    // 0 svg, 1 rect, 2 filter, 3 feGaussianBlur, 4 g, 5 rect, 6 rect
    let document = parse(
        r##"<svg><rect width="10" height="10" fill="blue"/><filter id="soft"><feGaussianBlur stdDeviation="3"/></filter><g filter="url(#soft)"><rect x="20" width="10" height="10" fill="red"/></g><rect x="40" width="10" height="10" fill="green"/></svg>"##,
    )
    .unwrap();
    let plan = build_render_plan(&document);

    assert_eq!(plan.len(), 3);
    assert!(matches!(plan[0], PlanStep::Draw(_)));
    assert_eq!(
        plan[1],
        PlanStep::Filtered { node: id(4), filter: id(2), clip: None, generator: false, rewired: false }
    );
    assert!(matches!(plan[2], PlanStep::Draw(_)));
    // The subtree draws a rect and the blur's deviation is non-zero.
    assert_eq!(filter_pass(false, false, false, true), FilterPass::Isolate);
}

#[test]
fn render_plan_skips_disabled_svg3_3d_element_before_filter_resolution() {
    let document = parse(
        r##"<svg><filter id="paint"><feFlood flood-color="red"/></filter><cube cx="50" cy="50" size="20" filter="url(#paint)"/></svg>"##,
    )
    .unwrap();

    assert!(build_render_plan(&document).is_empty());
}

#[test]
fn render_plan_isolates_fe_image_filter_in_painter_order() {
    // 0 svg, 1 rect, 2 filter, 3 feImage, 4 rect (filtered), 5 rect
    let document = parse(
        r##"<svg><rect width="10" height="10" fill="blue"/><filter id="tex"><feImage href="data:image/png;base64,abc" x="20" y="0" width="10" height="10"/></filter><rect width="10" height="10" fill="red" filter="url(#tex)"/><rect x="40" width="10" height="10" fill="green"/></svg>"##,
    )
    .unwrap();
    let plan = build_render_plan(&document);

    assert_eq!(plan.len(), 3);
    assert!(matches!(plan[0], PlanStep::Draw(_)));
    let PlanStep::Filtered { filter, generator, rewired, .. } = plan[1] else {
        panic!("expected feImage filter step");
    };
    let primitives = &document.node(filter).children;
    assert_eq!(primitives.len(), 1);
    assert_eq!(document.element(primitives[0]).kind, ElementKind::FeImage);
    assert!(generator);
    assert!(!rewired);
    // The image has a subregion, so the chain runs in its own pass.
    assert_eq!(filter_pass(generator, rewired, false, true), FilterPass::Isolate);
    assert!(matches!(plan[2], PlanStep::Draw(_)));
}

#[test]
fn filter_pass_skips_empty_inlines_unchanged_and_isolates_rewired() {
    assert_eq!(filter_pass(false, false, true, true), FilterPass::Skip);
    assert_eq!(filter_pass(true, false, true, false), FilterPass::Inline);
    assert_eq!(filter_pass(false, false, false, false), FilterPass::Inline);
    assert_eq!(filter_pass(false, true, false, false), FilterPass::Isolate);
    assert_eq!(filter_pass(true, false, true, true), FilterPass::Isolate);
}

#[test]
fn plan_marks_rewired_chains() {
    // 0 svg, 1 filter, 2 feOffset(result), 3 feBlend(in2), 4 rect
    let document = parse(
        r##"<svg><filter id="f"><feOffset dx="0" result="moved"/><feBlend in2="moved"/></filter><rect filter="url(#f)"/></svg>"##,
    )
    .unwrap();
    assert_eq!(
        build_render_plan(&document),
        vec![PlanStep::Filtered { node: id(4), filter: id(1), clip: None, generator: false, rewired: true }]
    );
}
