use svg3::dom::parse;
use svg3::paint::{PaintDefinitions, PAINT_LINEAR_GRADIENT, PAINT_SVG_TEXTURE, TEXTURE_MAP_IDENTITY};
use svg3::dom::NodeId;
use svg3::texture::{
    collect_texture_node_ids, next_power_of_two, texture_side, TextureLayers, MAX_TEXTURE_SIDE,
    MIN_TEXTURE_SIDE,
};

fn texture_meta(index: usize) -> [u32; 4] {
    [PAINT_SVG_TEXTURE, index as u32, TEXTURE_MAP_IDENTITY, 0]
}

#[test]
fn collect_dedupes_one_svg_referenced_by_multiple_3d_shapes() {
    let document = parse(
        r##"<svg extension="pupiltong" width="100" height="100"><defs><svg id="t" viewBox="0 0 100 100"><rect width="100" height="100" fill="red"/></svg></defs><cube cx="32" cy="50" cz="0" size="20" fill="url(#t)"/><ellipsoid cx="72" cy="50" cz="0" r="10" fill="url(#t)"/></svg>"##,
    )
    .unwrap();
    let t = PaintDefinitions::collect(&document).get("t").unwrap();
    // The cube's and the ellipsoid's paint servers both point at `t`.
    let metas = vec![texture_meta(t.index()), texture_meta(t.index())];
    let ids = collect_texture_node_ids(&metas);
    assert_eq!(ids.len(), 1, "the same <defs><svg> should be collected exactly once, got {ids:?}");
    assert_eq!(ids[0], t);
}

#[test]
fn collect_returns_distinct_ids_in_first_seen_order() {
    let document = parse(
        r##"<svg extension="pupiltong" width="100" height="100"><defs><svg id="a" viewBox="0 0 100 100"><rect width="100" height="100" fill="red"/></svg><svg id="b" viewBox="0 0 100 100"><rect width="100" height="100" fill="blue"/></svg></defs><cube cx="32" cy="50" cz="0" size="20" fill="url(#a)"/><ellipsoid cx="72" cy="50" cz="0" r="10" fill="url(#b)"/></svg>"##,
    )
    .unwrap();
    let paints = PaintDefinitions::collect(&document);
    let a = paints.get("a").unwrap();
    let b = paints.get("b").unwrap();
    let metas = vec![texture_meta(a.index()), texture_meta(b.index())];
    let ids = collect_texture_node_ids(&metas);
    assert_eq!(ids.len(), 2);
    assert_eq!(ids, vec![a, b]);
}

#[test]
fn collect_returns_empty_for_unreferenced_defs_svg() {
    // A solid-colour cube carries no paint server at all.
    let metas: Vec<[u32; 4]> = Vec::new();
    assert!(collect_texture_node_ids(&metas).is_empty());
    let gradient_only = vec![[PAINT_LINEAR_GRADIENT, 2, 0, 0]];
    assert!(collect_texture_node_ids(&gradient_only).is_empty());
}

#[test]
fn collect_keeps_first_seen_order_across_repeats() {
    let metas = vec![texture_meta(5), [PAINT_LINEAR_GRADIENT, 9, 0, 0], texture_meta(2), texture_meta(5), texture_meta(9)];
    let ids: Vec<usize> = collect_texture_node_ids(&metas).iter().map(|id| id.index()).collect();
    assert_eq!(ids, vec![5, 2, 9]);
}

#[test]
fn next_power_of_two_rounds_up_with_floor_of_one() {
    assert_eq!(next_power_of_two(0), 1);
    assert_eq!(next_power_of_two(1), 1);
    assert_eq!(next_power_of_two(2), 2);
    assert_eq!(next_power_of_two(3), 4);
    assert_eq!(next_power_of_two(64), 64);
    assert_eq!(next_power_of_two(65), 128);
    assert_eq!(next_power_of_two(0x8000_0000), 0x8000_0000);
}

#[test]
fn texture_side_clamps_the_largest_power_of_two() {
    assert_eq!(texture_side(&[]), MIN_TEXTURE_SIDE);
    assert_eq!(texture_side(&[10]), 256);
    assert_eq!(texture_side(&[300, 100]), 512);
    assert_eq!(texture_side(&[1024, 513]), 1024);
    assert_eq!(texture_side(&[5000]), MAX_TEXTURE_SIDE);
}

#[test]
fn texture_layers_follow_first_use_of_drawable_sources() {
    let a = NodeId::from_index(4);
    let b = NodeId::from_index(7);
    let c = NodeId::from_index(9);
    let layers = TextureLayers::assign(&[(a, true), (c, false), (b, true), (a, true)]);
    assert_eq!(layers.layer_count(), 2);
    assert_eq!(layers.layer_for(a), 0);
    assert_eq!(layers.layer_for(b), 1);
    assert_eq!(layers.layer_for(c), 0);
}
