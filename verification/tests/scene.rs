use iron_render_cad::svg::scene::{in_document, layer_body, text_id};
use iron_render_cad::LeftOutReason;

#[test]
fn a_texts_id_is_its_path() {
    let path = [12u64, 40, 7];
    assert_eq!(text_id(&path), "t12.40.7");
    assert_eq!(text_id(&path[..1]), "t12");
}

#[test]
fn a_text_at_the_top_of_the_number_range_is_named_in_full() {
    assert_eq!(text_id(&[0, u64::MAX]), "t0.18446744073709551615");
    assert_eq!(text_id(&[]), "t");
}

#[test]
fn texts_with_different_paths_get_different_ids() {
    assert_ne!(text_id(&[1, 23]), text_id(&[12, 3]));
    assert_ne!(text_id(&[1, 2, 3]), text_id(&[1, 23]));
}

#[test]
fn only_the_outliers_are_left_out_of_a_plain_document() {
    assert!(in_document(None));
    assert!(!in_document(Some(LeftOutReason::ScaleOutlier)));
    assert!(!in_document(Some(LeftOutReason::FarOutlier)));
}

#[test]
fn a_layer_holds_the_kept_parts_that_drew_something_one_per_line() {
    let body = ["<a/>".to_string(), String::new(), "<b/>".to_string(), "<c/>".to_string()];
    assert_eq!(layer_body(&body, &[true, true, false, true]), "<a/>\n  <c/>");
    assert_eq!(layer_body(&body, &[false, true, false, false]), "");
    assert_eq!(layer_body(&[], &[]), "");
}
