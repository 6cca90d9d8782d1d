use iron_render_cad::svg::sheet::sheet_check;
use iron_render_cad::LayoutError;

#[test]
fn a_layout_is_a_sheet_when_its_block_is_paper_space() {
    assert_eq!(sheet_check(true, Some("*Paper_Space")), Ok(()));
    assert_eq!(sheet_check(true, Some("*PAPER_SPACE3")), Ok(()));
}

#[test]
fn each_refusal_in_its_order() {
    assert_eq!(sheet_check(false, Some("*Model_Space")), Err(LayoutError::NotFound));
    assert_eq!(sheet_check(false, None), Err(LayoutError::NotFound));
    assert_eq!(sheet_check(true, None), Err(LayoutError::BlockNotHeld));
    assert_eq!(sheet_check(true, Some("*model_space")), Err(LayoutError::ModelLayout));
}

#[test]
fn each_error_says_what_went_wrong() {
    assert_eq!(LayoutError::NotFound.message(), "the drawing has no layout of that name");
    assert_eq!(LayoutError::ModelLayout.message(), "the layout is the model tab, not a sheet");
    assert_eq!(
        LayoutError::BlockNotHeld.message(),
        "the layout's paper space block is not in the model"
    );
}
