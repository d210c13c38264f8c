use icon_export::geometry::{fit_transform, milli_from_bits, MAX_MILLI};

#[test]
fn decodes_integer_dimensions() {
    assert_eq!(milli_from_bits(24.0f32.to_bits()), 24_000);
    assert_eq!(milli_from_bits(1.0f32.to_bits()), 1_000);
    assert_eq!(milli_from_bits(16384.0f32.to_bits()), 16_384_000);
}

#[test]
fn decodes_fractional_dimensions_rounding_down() {
    assert_eq!(milli_from_bits(0.5f32.to_bits()), 500);
    assert_eq!(milli_from_bits(23.5f32.to_bits()), 23_500);
    // 0.1 is not exactly representable; the nearest f32 is slightly above
    // 0.1, so the floor in milli-units is still 100.
    assert_eq!(milli_from_bits(0.1f32.to_bits()), 100);
}

#[test]
fn decodes_degenerate_values_as_zero() {
    assert_eq!(milli_from_bits(0.0f32.to_bits()), 0);
    assert_eq!(milli_from_bits((-1.0f32).to_bits()), 0);
    assert_eq!(milli_from_bits(f32::NAN.to_bits()), 0);
    assert_eq!(milli_from_bits(f32::INFINITY.to_bits()), 0);
}

#[test]
fn sub_milli_positive_values_decode_to_one() {
    // Strictly positive values below one milli-unit round up to one, so
    // only an exactly-zero dimension decodes to zero.
    assert_eq!(milli_from_bits(0.0001f32.to_bits()), 1);
    assert_eq!(milli_from_bits(f32::MIN_POSITIVE.to_bits()), 1);
}

#[test]
fn decodes_huge_values_saturating() {
    assert_eq!(milli_from_bits(1.0e30f32.to_bits()), MAX_MILLI);
    assert_eq!(milli_from_bits(f32::MAX.to_bits()), MAX_MILLI);
    // saturation just above the cap (2^40 milli-units is about 1.0995e9
    // pixel units)
    assert_eq!(milli_from_bits(1.2e9f32.to_bits()), MAX_MILLI);
    // and exact decoding just below it
    assert_eq!(milli_from_bits(33_554_432.0f32.to_bits()), 33_554_432_000);
}

#[test]
fn square_document_fills_target_with_no_offset() {
    let tf = fit_transform(24_000, 24_000, 48);
    assert_eq!(tf.scale_num, 48_000);
    assert_eq!(tf.scale_den, 24_000);
    assert_eq!(tf.off_x_num, 0);
    assert_eq!(tf.off_y_num, 0);
    // scale = 2.0 target pixels per source pixel
    assert_eq!(tf.scale_num / tf.scale_den, 2);
}

#[test]
fn tall_document_is_centered_horizontally() {
    // 10 by 20 source on a 40-pixel target: scale 2, content 20 wide,
    // margin 10 on each side.
    let tf = fit_transform(10_000, 20_000, 40);
    assert_eq!(tf.scale_num, 40_000);
    assert_eq!(tf.scale_den, 20_000);
    assert_eq!(tf.off_x_num, 40 * 10_000);
    assert_eq!(tf.off_x_den, 2 * 20_000);
    assert_eq!(tf.off_x_num / tf.off_x_den, 10);
    assert_eq!(tf.off_y_num, 0);
}

#[test]
fn wide_document_is_centered_vertically() {
    let tf = fit_transform(30_000, 10_000, 60);
    assert_eq!(tf.scale_num, 60_000);
    assert_eq!(tf.scale_den, 30_000);
    assert_eq!(tf.off_x_num, 0);
    assert_eq!(tf.off_y_num, 60 * 20_000);
    assert_eq!(tf.off_y_den, 2 * 30_000);
    // margin of 20 above and below a 20-pixel-tall content
    assert_eq!(tf.off_y_num / tf.off_y_den, 20);
}

#[test]
fn fractional_dimensions_keep_exact_rationals() {
    // 23.5 by 24 on a 48 target: scale = 48 / 24 = 2; the horizontal
    // margin is 48 * 500 / 48000 = 0.5 pixels on each side, exactly.
    let tf = fit_transform(23_500, 24_000, 48);
    assert_eq!(tf.scale_num, 48_000);
    assert_eq!(tf.scale_den, 24_000);
    assert_eq!(tf.off_x_num, 48 * 500);
    assert_eq!(tf.off_x_den, 48_000);
    assert_eq!(tf.off_x_num * 2, tf.off_x_den);
}
