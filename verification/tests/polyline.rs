use iron_render_cad::svg::polyline::segment_ends;

#[test]
fn an_open_polyline_joins_each_vertex_to_the_next() {
    assert_eq!(segment_ends(3, false, false), vec![(0, 1), (1, 2)]);
    assert_eq!(segment_ends(1, false, false), vec![]);
    assert_eq!(segment_ends(0, true, false), vec![]);
}

#[test]
fn a_closed_polyline_goes_back_to_its_first_vertex() {
    assert_eq!(segment_ends(3, true, false), vec![(0, 1), (1, 2), (2, 0)]);
    assert_eq!(segment_ends(2, true, true), vec![(0, 1), (1, 0)]);
}

#[test]
fn a_closed_polyline_that_repeats_its_first_vertex_keeps_its_closing_segment() {
    // Four vertices, the last the first again: three drawn, the closing
    // segment leaving the third.
    assert_eq!(segment_ends(4, true, true), vec![(0, 1), (1, 2), (2, 0)]);
    // An open polyline keeps every vertex.
    assert_eq!(segment_ends(4, false, true), vec![(0, 1), (1, 2), (2, 3)]);
}
