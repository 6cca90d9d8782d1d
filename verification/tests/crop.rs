use iron_render_cad::svg::crop::{mark_outside_view, mark_set_aside, view_left_out, CropPart};
use iron_render_cad::LeftOutReason;

#[test]
fn a_part_that_misses_the_view_is_outside_it() {
    assert_eq!(view_left_out(None, false, false), Some(LeftOutReason::OutsideView));
    assert_eq!(view_left_out(None, false, true), None);
}

#[test]
fn a_construction_line_reaches_every_view() {
    assert_eq!(view_left_out(None, true, false), None);
}

#[test]
fn what_the_crop_set_aside_stays_set_aside() {
    assert_eq!(
        view_left_out(Some(LeftOutReason::FarOutlier), false, false),
        Some(LeftOutReason::FarOutlier)
    );
    assert_eq!(
        view_left_out(Some(LeftOutReason::ScaleOutlier), false, true),
        Some(LeftOutReason::ScaleOutlier)
    );
}

fn measured(unbounded: bool, meets_view: bool) -> CropPart {
    CropPart { measured: true, unbounded, meets_view, left_out: None }
}

#[test]
fn the_crops_choices_name_measured_parts_by_their_place_among_them() {
    let unmeasured = CropPart { measured: false, unbounded: false, meets_view: false, left_out: None };
    let mut parts = vec![measured(false, true), unmeasured, measured(true, true), measured(false, true)];
    // Positions among the measured parts: 0 -> part 0, 1 -> part 2 (a
    // construction line), 2 -> part 3.
    mark_set_aside(
        &mut parts,
        &[(0, LeftOutReason::ScaleOutlier), (1, LeftOutReason::FarOutlier), (2, LeftOutReason::FarOutlier), (0, LeftOutReason::FarOutlier)],
    );
    assert_eq!(parts[0].left_out, Some(LeftOutReason::FarOutlier));
    assert_eq!(parts[1].left_out, None);
    assert_eq!(parts[2].left_out, None);
    assert_eq!(parts[3].left_out, Some(LeftOutReason::FarOutlier));
}

#[test]
fn the_report_lists_every_measured_part_left_out_in_drawing_order() {
    let unmeasured = CropPart { measured: false, unbounded: false, meets_view: false, left_out: None };
    let mut parts = vec![
        measured(false, false),
        unmeasured,
        measured(true, false),
        CropPart { left_out: Some(LeftOutReason::ScaleOutlier), ..measured(false, true) },
        measured(false, true),
    ];
    let listed = mark_outside_view(&mut parts);
    assert_eq!(listed, vec![0, 3]);
    assert_eq!(parts[0].left_out, Some(LeftOutReason::OutsideView));
    assert_eq!(parts[1].left_out, None);
    assert_eq!(parts[2].left_out, None);
    assert_eq!(parts[3].left_out, Some(LeftOutReason::ScaleOutlier));
    assert_eq!(parts[4].left_out, None);
}
