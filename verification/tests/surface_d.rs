use svg3::surface_d::{parse_surface_d, CoonsPatch, SurfacePatch};

#[test]
fn parse_d_rejects_unsupported_command() {
    assert!(parse_surface_d("M 0 A 1 2 3 4 5 6 7").is_none());
    assert!(parse_surface_d("M 0 S 1 2").is_none());
}

#[test]
fn parse_d_rejects_bare_move() {
    assert!(parse_surface_d("M 0").is_none());
}

#[test]
fn parse_d_rejects_command_before_move() {
    assert!(parse_surface_d("L 0").is_none());
    assert!(parse_surface_d("Z").is_none());
}

#[test]
fn parse_d_accepts_chained_cubics() {
    let parsed = parse_surface_d("M 0 C 1 2 3 C 4 5 6").unwrap();
    let (start, patches) = parsed.sweep.unwrap();
    assert_eq!(start, 0);
    assert!(parsed.coons.is_empty());
    assert_eq!(
        patches,
        vec![
            SurfacePatch::Cubic { ctrl1: 1, ctrl2: 2, end: 3 },
            SurfacePatch::Cubic { ctrl1: 4, ctrl2: 5, end: 6 },
        ]
    );
}

#[test]
fn parse_d_accepts_close_only_at_end() {
    let (_, patches) = parse_surface_d("M 0 L 1 L 2 Z").unwrap().sweep.unwrap();
    assert_eq!(patches.last(), Some(&SurfacePatch::Close));
    assert!(parse_surface_d("M 0 L 1 Z L 2").is_none());
}

#[test]
fn parse_d_accepts_coons_patch() {
    let parsed = parse_surface_d("P 0 1 2 3").unwrap();
    assert!(parsed.sweep.is_none());
    assert_eq!(parsed.coons, vec![CoonsPatch { top: 0, right: 1, bottom: 2, left: 3 }]);
}

#[test]
fn parse_d_accepts_multiple_coons_patches() {
    let parsed = parse_surface_d("P 0 1 2 3 P 1 4 5 6").unwrap();
    assert_eq!(parsed.coons.len(), 2);
}

#[test]
fn parse_d_rejects_coons_missing_args() {
    assert!(parse_surface_d("P 0 1 2").is_none());
}

#[test]
fn parse_d_reads_quadratic_and_linear_segments_with_commas() {
    let parsed = parse_surface_d("M7,L 8 Q9,10").unwrap();
    let (start, patches) = parsed.sweep.unwrap();
    assert_eq!(start, 7);
    assert_eq!(patches, vec![SurfacePatch::Linear { end: 8 }, SurfacePatch::Quadratic { ctrl: 9, end: 10 }]);
}

#[test]
fn parse_d_rejects_empty_and_non_index_arguments() {
    assert!(parse_surface_d("").is_none());
    assert!(parse_surface_d("M 0 L x").is_none());
    assert!(parse_surface_d("M -1 L 2").is_none());
}

#[test]
fn surface_rows_are_the_path_children_in_order() {
    let document = svg3::dom::parse(
        r##"<svg extension="pupiltong"><surface d="M 0 L 1"><path d="M0 0 L1 0"/><g/><path d="M0 1 L1 1"/></surface></svg>"##,
    )
    .unwrap();
    let surface = document.node(document.root()).children[0];
    let children = document.node(surface).children.clone();
    let rows = svg3::surface::surface_path_children(&document, surface);
    assert_eq!(rows, vec![children[0], children[2]]);
}

#[test]
fn sweep_references_are_sorted_distinct_and_checked() {
    let patches = vec![
        SurfacePatch::Cubic { ctrl1: 3, ctrl2: 1, end: 2 },
        SurfacePatch::Linear { end: 3 },
        SurfacePatch::Close,
    ];
    assert_eq!(svg3::surface::sweep_references(2, &patches, 4), Some(vec![1, 2, 3]));
    assert_eq!(svg3::surface::sweep_references(2, &patches, 3), None);
    assert_eq!(svg3::surface::sweep_references(0, &[], 1), Some(vec![0]));
}

#[test]
fn coons_rows_must_exist() {
    let patch = CoonsPatch { top: 0, right: 1, bottom: 2, left: 3 };
    assert!(svg3::surface::coons_rows_in_range(patch, 4));
    assert!(!svg3::surface::coons_rows_in_range(patch, 3));
}
