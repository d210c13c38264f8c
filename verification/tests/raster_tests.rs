use icon_export::geometry::FitTransform;
use icon_export::raster::{count_visible_pixels, parse_document, rasterize, ConvertError};

/// Converts the exact rational fit transform into the renderer's
/// floating-point transform, as the application shell does.
fn skia_transform(tf: &FitTransform) -> resvg::tiny_skia::Transform {
    let sx = tf.scale_num as f32 / tf.scale_den as f32;
    let tx = tf.off_x_num as f32 / tf.off_x_den as f32;
    let ty = tf.off_y_num as f32 / tf.off_y_den as f32;
    resvg::tiny_skia::Transform::from_row(sx, 0.0, 0.0, sx, tx, ty)
}

fn convert(svg: &str, size: u32) -> Result<Vec<u8>, ConvertError> {
    let doc = parse_document(&svg.as_bytes().to_vec())?;
    let tf = doc.fit(size);
    rasterize(&doc, skia_transform(&tf), size)
}

const SQUARE_ICON: &str = r##"<svg xmlns="http://www.w3.org/2000/svg" width="24" height="24" viewBox="0 0 24 24"><rect x="4" y="4" width="16" height="16" fill="#000000"/></svg>"##;

#[test]
fn converts_square_icon_to_png_of_requested_size() {
    let bytes = convert(SQUARE_ICON, 48).unwrap();
    let pixmap = resvg::tiny_skia::Pixmap::decode_png(&bytes).unwrap();
    assert_eq!(pixmap.width(), 48);
    assert_eq!(pixmap.height(), 48);
    assert!(pixmap.data().chunks(4).any(|px| px[3] > 0));
}

#[test]
fn scaled_content_is_centered_and_aspect_preserved() {
    // A 12-by-24 document fully covered by one rect, on a 48 target:
    // content should land in columns 12..36 (two 12-pixel margins) and
    // fill all rows.
    let svg = r##"<svg xmlns="http://www.w3.org/2000/svg" width="12" height="24"><rect x="0" y="0" width="12" height="24" fill="#FF0000"/></svg>"##;
    let bytes = convert(svg, 48).unwrap();
    let pixmap = resvg::tiny_skia::Pixmap::decode_png(&bytes).unwrap();
    let visible = |x: u32, y: u32| pixmap.pixel(x, y).map(|p| p.alpha() > 0).unwrap_or(false);
    // interior of the content
    assert!(visible(13, 1));
    assert!(visible(34, 46));
    assert!(visible(24, 24));
    // margins on both sides, clear of the one-pixel rounding tolerance
    assert!(!visible(10, 24));
    assert!(!visible(37, 24));
}

#[test]
fn zero_width_document_is_invalid_geometry() {
    let svg = r##"<svg xmlns="http://www.w3.org/2000/svg" width="0" height="10"><rect width="1" height="1" fill="#000"/></svg>"##;
    for size in [1u32, 48, 512] {
        let doc = parse_document(&svg.as_bytes().to_vec());
        assert!(matches!(doc, Err(ConvertError::InvalidGeometry)), "size {}", size);
    }
}

#[test]
fn zero_height_document_is_invalid_geometry() {
    let svg = r##"<svg xmlns="http://www.w3.org/2000/svg" width="10" height="0"></svg>"##;
    assert!(matches!(
        parse_document(&svg.as_bytes().to_vec()),
        Err(ConvertError::InvalidGeometry)
    ));
}

#[test]
fn malformed_document_is_parse_error() {
    match parse_document(&b"not an svg at all".to_vec()) {
        Err(err) => assert!(matches!(err, ConvertError::Parse(_))),
        Ok(_) => panic!("malformed input parsed"),
    }
}

#[test]
fn invisible_render_is_empty_render_error() {
    // Well-formed scene graph whose only shape is fully transparent.
    let svg = r##"<svg xmlns="http://www.w3.org/2000/svg" width="24" height="24"><rect x="4" y="4" width="16" height="16" fill="#000000" fill-opacity="0"/></svg>"##;
    let err = convert(svg, 48).unwrap_err();
    assert_eq!(err, ConvertError::EmptyRender);
}

#[test]
fn empty_scene_is_empty_render_error() {
    let svg = r##"<svg xmlns="http://www.w3.org/2000/svg" width="24" height="24"></svg>"##;
    let err = convert(svg, 48).unwrap_err();
    assert_eq!(err, ConvertError::EmptyRender);
}

#[test]
fn recolored_icon_still_converts() {
    let svg = r##"<svg xmlns="http://www.w3.org/2000/svg" width="24" height="24"><rect x="4" y="4" width="16" height="16" fill="currentColor"/></svg>"##;
    let recolored = icon_export::color::change_svg_color(svg, "#336699");
    let bytes = convert(&recolored, 32).unwrap();
    let pixmap = resvg::tiny_skia::Pixmap::decode_png(&bytes).unwrap();
    assert_eq!(pixmap.width(), 32);
    assert!(pixmap.data().chunks(4).any(|px| px[3] > 0));
}

#[test]
fn counts_pixels_with_nonzero_alpha() {
    let data = vec![
        0, 0, 0, 0, // transparent
        1, 2, 3, 255, // opaque
        9, 9, 9, 1, // barely visible still counts
        5, 5, 5, 0, // transparent
    ];
    assert_eq!(count_visible_pixels(&data), 2);
    assert_eq!(count_visible_pixels(&vec![]), 0);
}

#[test]
fn fractional_intrinsic_size_converts() {
    let svg = r##"<svg xmlns="http://www.w3.org/2000/svg" width="23.5" height="24"><circle cx="12" cy="12" r="10" fill="#000"/></svg>"##;
    let bytes = convert(svg, 48).unwrap();
    let pixmap = resvg::tiny_skia::Pixmap::decode_png(&bytes).unwrap();
    assert_eq!(pixmap.width(), 48);
    assert_eq!(pixmap.height(), 48);
}

#[test]
fn errors_describe_themselves() {
    assert_eq!(
        ConvertError::EmptyRender.describe(),
        "rendered image has no visible pixels"
    );
    assert_eq!(
        ConvertError::InvalidGeometry.describe(),
        "document has a zero-sized intrinsic dimension"
    );
    assert_eq!(ConvertError::Parse("bad token".to_string()).describe(), "bad token");
    assert_eq!(ConvertError::Encode("io fault".to_string()).describe(), "io fault");
}
