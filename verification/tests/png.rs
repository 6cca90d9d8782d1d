use iron_render_cad::png::{check_size, PngError};
use iron_render_cad::{Fonts, DEFAULT_MAX_EDGE};
use std::sync::Arc;

#[test]
fn fonts_are_described_by_their_sizes_not_their_bytes() {
    assert_eq!(Fonts::System.describe(), "System");
    assert_eq!(Fonts::default().describe(), "System");
    let a: Arc<[u8]> = Arc::from(vec![0u8; 1024]);
    let b: Arc<[u8]> = Arc::from(vec![1u8; 2048]);
    assert_eq!(Fonts::Custom(vec![a, b]).describe(), "Custom([1024, 2048])");
    assert_eq!(Fonts::Custom(Vec::new()).describe(), "Custom([])");
}

#[test]
fn the_default_bound_allows_a_quarter_gibibyte_of_pixels() {
    assert_eq!(DEFAULT_MAX_EDGE as u64 * DEFAULT_MAX_EDGE as u64 * 4, 256 * 1024 * 1024);
}

#[test]
fn a_size_past_the_bound_is_refused_with_the_size_and_the_bound() {
    match check_size(9000, 10, DEFAULT_MAX_EDGE) {
        Err(PngError::TooLarge { width, height, max_edge }) => {
            assert_eq!((width, height, max_edge), (9000, 10, 8192));
        }
        other => panic!("{other:?}"),
    }
    assert!(matches!(check_size(10, 8193, 8192), Err(PngError::TooLarge { .. })));
    assert!(check_size(8192, 8192, 8192).is_ok());
    assert!(check_size(0, 0, 8192).is_ok());
}

#[test]
fn each_png_error_says_what_went_wrong() {
    assert_eq!(PngError::EmptyCanvas.message(), "render size is zero (check the scale)");
    assert_eq!(
        PngError::TooLarge { width: 9000, height: 10, max_edge: 8192 }.message(),
        "render size 9000x10 px exceeds the 8192 px limit (use a smaller scale, or raise max_edge)"
    );
    assert_eq!(PngError::Encode("no space".to_string()).message(), "PNG encoding failed: no space");
    assert_eq!(
        PngError::RenderPanic("overflow".to_string()).message(),
        "the rasterizer panicked: overflow"
    );
    assert_eq!(
        PngError::InvalidSvg(resvg::usvg::Error::InvalidSize).message(),
        "SVG parsing failed: SVG has an invalid size"
    );
}
