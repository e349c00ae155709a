use cpixel_art::bitmap_image::BitmapImage;
use cpixel_art::converter::Converter;
use cpixel_art::cpixel::Cpixel;
use cpixel_art::dimensions::Dimensions;

#[test]
fn test_can_instance_converter() {
    let input_image_dimensions = Dimensions { height: 1, width: 1 };
    let output_constraints = Dimensions { height: 1, width: 1 };
    let cpixel_dimensions = Dimensions { height: 1, width: 1 };
    Converter::<u8>::new(
        &output_constraints,
        &input_image_dimensions,
        &cpixel_dimensions,
        false,
    );
}

#[test]
fn test_singleton_pixel_min() {
    let input_image_dimensions = Dimensions { height: 1, width: 1 };
    let output_constraints = Dimensions { height: 1, width: 1 };
    let cpixel_dimensions = Dimensions { height: 1, width: 1 };
    let mut converter = Converter::<u8>::new(
        &output_constraints,
        &input_image_dimensions,
        &cpixel_dimensions,
        false,
    );
    let image = BitmapImage::new(input_image_dimensions, vec![0_u8]);
    let cpixel_image = converter.convert_one(&image);
    assert_eq!(cpixel_image.buffer, vec![Cpixel(' ')]);
}

#[test]
fn test_singleton_pixel_max() {
    let input_image_dimensions = Dimensions { height: 1, width: 1 };
    let output_constraints = Dimensions { height: 1, width: 1 };
    let cpixel_dimensions = Dimensions { height: 1, width: 1 };
    let mut converter: Converter<u8> = Converter::new(
        &output_constraints,
        &input_image_dimensions,
        &cpixel_dimensions,
        false,
    );
    let image = BitmapImage::new(input_image_dimensions, vec![255_u8]);
    let cpixel_image = converter.convert_one(&image);
    assert_eq!(cpixel_image.buffer, vec![Cpixel('N')]);
}

#[test]
fn singleton_derives_unit_output() {
    let one = Dimensions { height: 1, width: 1 };
    let mut converter = Converter::<u8>::new(&one, &one, &one, false);
    assert_eq!(*converter.output_dimensions(), one);
    let image = BitmapImage::new(one, vec![0_u8]);
    let cpixel_image = converter.convert_one(&image);
    assert_eq!(cpixel_image.dimensions, one);
    assert_eq!(cpixel_image.buffer.len(), 1);
}

#[test]
fn accessors_return_configuration() {
    let constraints = Dimensions { height: 2, width: 3 };
    let input = Dimensions { height: 4, width: 4 };
    let cell = Dimensions { height: 4, width: 2 };
    let converter = Converter::<u8>::new(&constraints, &input, &cell, true);
    assert_eq!(*converter.constraints(), constraints);
    assert_eq!(*converter.image_settings(), input);
    assert_eq!(*converter.cpixel_dimensions_settings(), cell);
    assert!(converter.maximizing_contrast_on());
}

#[test]
fn screen_of_two_by_three_cells_of_four_by_two() {
    let constraints = Dimensions { height: 2, width: 3 };
    let cell = Dimensions { height: 4, width: 2 };
    // The screen is 8 by 6 pixels; a square image is limited by the width.
    let square = Dimensions { height: 4, width: 4 };
    let converter = Converter::<u8>::new(&constraints, &square, &cell, false);
    assert_eq!(*converter.output_dimensions(), Dimensions { height: 6, width: 6 });
    let screen = Dimensions { height: 8, width: 6 };
    assert_eq!(
        *converter.output_dimensions(),
        Dimensions::fit_with_locked_ratio(&square, &screen)
    );
    // A tall image is limited by the height.
    let tall = Dimensions { height: 100, width: 50 };
    let converter = Converter::<u8>::new(&constraints, &tall, &cell, false);
    assert_eq!(*converter.output_dimensions(), Dimensions { height: 8, width: 4 });
}

#[test]
fn convert_crops_partial_cells() {
    let constraints = Dimensions { height: 2, width: 3 };
    let cell = Dimensions { height: 4, width: 2 };
    let input = Dimensions { height: 4, width: 4 };
    let mut converter = Converter::<u8>::new(&constraints, &input, &cell, false);
    let image = BitmapImage::new(input, vec![255_u8; 16]);
    let out = converter.convert_one(&image);
    // Output 6 by 6 pixels: one whole row of cells, three whole columns.
    assert_eq!(out.dimensions, Dimensions { height: 1, width: 3 });
    assert_eq!(out.buffer, vec![Cpixel('N'); 3]);
}

#[test]
fn construction_is_deterministic() {
    let constraints = Dimensions { height: 7, width: 5 };
    let input = Dimensions { height: 30, width: 90 };
    let cell = Dimensions { height: 3, width: 2 };
    let a = Converter::<u8>::new(&constraints, &input, &cell, false);
    let b = Converter::<u8>::new(&constraints, &input, &cell, false);
    assert_eq!(*a.output_dimensions(), *b.output_dimensions());
    assert_eq!(*a.output_dimensions(), Dimensions { height: 3, width: 10 });
}

#[test]
fn with_settings_derives_afresh() {
    let constraints = Dimensions { height: 1, width: 1 };
    let input = Dimensions { height: 1, width: 1 };
    let cell = Dimensions { height: 1, width: 1 };
    let kept = Converter::<u8>::new(&constraints, &input, &cell, true);
    let moved = Converter::<u8>::new(&constraints, &input, &cell, true);
    let new_constraints = Dimensions { height: 2, width: 3 };
    let new_input = Dimensions { height: 4, width: 4 };
    let new_cell = Dimensions { height: 4, width: 2 };
    let changed = moved.with_settings(&new_constraints, &new_input, &new_cell);
    assert_eq!(*changed.output_dimensions(), Dimensions { height: 6, width: 6 });
    assert_eq!(*changed.constraints(), new_constraints);
    assert_eq!(*changed.image_settings(), new_input);
    assert_eq!(*changed.cpixel_dimensions_settings(), new_cell);
    assert!(changed.maximizing_contrast_on());
    assert_eq!(*kept.output_dimensions(), Dimensions { height: 1, width: 1 });
    assert_eq!(*kept.constraints(), constraints);
}

#[test]
fn zero_configuration_gives_empty_output() {
    let constraints = Dimensions { height: 0, width: 3 };
    let input = Dimensions { height: 2, width: 2 };
    let cell = Dimensions { height: 1, width: 1 };
    let mut converter = Converter::<u8>::new(&constraints, &input, &cell, false);
    assert_eq!(*converter.output_dimensions(), Dimensions { height: 0, width: 0 });
    let image = BitmapImage::new(input, vec![1_u8, 2, 3, 4]);
    let out = converter.convert_one(&image);
    assert_eq!(out.dimensions, Dimensions { height: 0, width: 0 });
    assert!(out.buffer.is_empty());
}

#[test]
fn contrast_stretch_spans_the_ramp() {
    let constraints = Dimensions { height: 1, width: 2 };
    let input = Dimensions { height: 1, width: 2 };
    let cell = Dimensions { height: 1, width: 1 };
    let image = BitmapImage::new(input, vec![100_u8, 200]);
    let mut plain = Converter::<u8>::new(&constraints, &input, &cell, false);
    assert_eq!(plain.convert_one(&image).buffer, vec![Cpixel('-'), Cpixel('#')]);
    let mut stretched = Converter::<u8>::new(&constraints, &input, &cell, true);
    assert_eq!(stretched.convert_one(&image).buffer, vec![Cpixel(' '), Cpixel('N')]);
}

#[test]
fn sixteen_bit_pixels() {
    let one = Dimensions { height: 1, width: 1 };
    let mut converter = Converter::<u16>::new(&one, &one, &one, false);
    let bright = BitmapImage::new(one, vec![65535_u16]);
    assert_eq!(converter.convert_one(&bright).buffer, vec![Cpixel('N')]);
    let dark = BitmapImage::new(one, vec![0_u16]);
    assert_eq!(converter.convert_one(&dark).buffer, vec![Cpixel(' ')]);
}
