use iron_render_cad::svg::{
    block_space, drawn_point_count, stroke_width_pieces, BodyPiece, BoundaryShape, EdgeShape,
    PointShape, space_of_upper_name, ARC_SEGMENTS, ELLIPSE_SEGMENTS,
};
use iron_render_cad::Space;

fn text(s: &str) -> BodyPiece {
    BodyPiece::Text(s.to_string())
}

fn width(s: &str) -> BodyPiece {
    BodyPiece::StrokeWidth(s.to_string())
}

#[test]
fn a_body_is_read_into_text_and_the_scales_its_widths_divide_by() {
    let pieces = stroke_width_pieces("prefix @@SW@@2@@ middle @@SW@@0.5@@ suffix");
    assert_eq!(
        pieces,
        vec![text("prefix "), width("2"), text(" middle "), width("0.5"), text(" suffix")]
    );
}

#[test]
fn a_malformed_placeholder_is_text_as_written() {
    let pieces = stroke_width_pieces("before @@SW@@2 no closing marker");
    assert_eq!(pieces, vec![text("before @@SW@@2 no closing marker")]);
}

#[test]
fn the_pieces_write_the_body_back() {
    let body = "<line stroke-width=\"@@SW@@1@@\"/>@@SW@@3@@@@SW@@";
    let mut written = String::new();
    for p in stroke_width_pieces(body) {
        match p {
            BodyPiece::Text(t) => written.push_str(&t),
            BodyPiece::StrokeWidth(w) => {
                written.push_str("@@SW@@");
                written.push_str(&w);
                written.push_str("@@");
            }
        }
    }
    assert_eq!(written, body);
}

#[test]
fn a_block_records_name_says_its_space_in_any_case() {
    assert_eq!(block_space("*Model_Space"), Some(Space::Model));
    assert_eq!(block_space("*MODEL_SPACE"), Some(Space::Model));
    assert_eq!(block_space("*Paper_Space"), Some(Space::Paper));
    assert_eq!(block_space("*PAPER_SPACE12"), Some(Space::Paper));
    assert_eq!(block_space("*MODEL_SPACE2"), None);
    assert_eq!(block_space("DOOR"), None);
    assert_eq!(block_space(""), None);
}

#[test]
fn points_are_counted_as_the_cap_reads_them() {
    assert_eq!(drawn_point_count(&PointShape::Fixed), 0);
    assert_eq!(drawn_point_count(&PointShape::Vertices { count: 7 }), 7);
    assert_eq!(
        drawn_point_count(&PointShape::Spline { fit_points: 4, control_points: 6 }),
        10
    );
    assert_eq!(
        drawn_point_count(&PointShape::Spline { fit_points: usize::MAX, control_points: 6 }),
        usize::MAX
    );
    assert_eq!(drawn_point_count(&PointShape::MultiLeader { lines: vec![2, 3, 4] }), 9);
    assert_eq!(
        drawn_point_count(&PointShape::MLine { vertices: 5, style_offsets: Some(3) }),
        15
    );
    assert_eq!(
        drawn_point_count(&PointShape::MLine { vertices: 5, style_offsets: Some(0) }),
        5
    );
    assert_eq!(drawn_point_count(&PointShape::MLine { vertices: 5, style_offsets: None }), 5);
    assert_eq!(
        drawn_point_count(&PointShape::MLine { vertices: usize::MAX, style_offsets: Some(2) }),
        usize::MAX
    );
    assert_eq!(drawn_point_count(&PointShape::Wireframe { edges: 12 }), 12);
}

#[test]
fn a_hatch_boundary_is_counted_once_per_path_drawn_through_it() {
    let boundaries = vec![
        BoundaryShape::Polyline { bulged: vec![false, true, false] },
        BoundaryShape::Edges {
            edges: vec![
                EdgeShape::Line,
                EdgeShape::Arc,
                EdgeShape::Ellipse,
                EdgeShape::Spline { control_points: 9 },
            ],
        },
    ];
    let per_path = 2 + ARC_SEGMENTS + 1 + ARC_SEGMENTS + ELLIPSE_SEGMENTS + 9;
    assert_eq!(per_path, 52);
    let filled = PointShape::Hatch { boundaries: boundaries.clone(), filled: true, pattern_lines: 40 };
    assert_eq!(drawn_point_count(&filled), per_path);
    let patterned = PointShape::Hatch { boundaries, filled: false, pattern_lines: 3 };
    assert_eq!(drawn_point_count(&patterned), per_path * 4);
}

#[test]
fn an_upper_case_block_name_says_its_space() {
    assert_eq!(space_of_upper_name("*MODEL_SPACE"), Some(Space::Model));
    assert_eq!(space_of_upper_name("*PAPER_SPACE"), Some(Space::Paper));
    assert_eq!(space_of_upper_name("*PAPER_SPACE7"), Some(Space::Paper));
    assert_eq!(space_of_upper_name("*Model_Space"), None);
    assert_eq!(space_of_upper_name("*PAPER_SPAC"), None);
}
