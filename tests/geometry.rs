use cpixel_art::bitmap_image::BitmapImage;
use cpixel_art::brightness::Brightness;
use cpixel_art::cpixel::{glyph, Cpixel, CpixelConverter};
use cpixel_art::dimensions::Dimensions;

fn dims(height: usize, width: usize) -> Dimensions {
    Dimensions { height, width }
}

#[test]
fn fit_limited_by_width() {
    assert_eq!(Dimensions::fit_with_locked_ratio(&dims(4, 4), &dims(8, 6)), dims(6, 6));
}

#[test]
fn fit_limited_by_height() {
    assert_eq!(Dimensions::fit_with_locked_ratio(&dims(100, 50), &dims(8, 6)), dims(8, 4));
}

#[test]
fn fit_rounds_down() {
    // Scale 7 / 3 on a 3 by 5 source: the width 35 / 3 rounds down to 11.
    assert_eq!(Dimensions::fit_with_locked_ratio(&dims(3, 5), &dims(7, 20)), dims(7, 11));
}

#[test]
fn fit_of_zero_sizes_is_empty() {
    assert_eq!(Dimensions::fit_with_locked_ratio(&dims(0, 5), &dims(8, 6)), dims(0, 0));
    assert_eq!(Dimensions::fit_with_locked_ratio(&dims(5, 0), &dims(8, 6)), dims(0, 0));
    assert_eq!(Dimensions::fit_with_locked_ratio(&dims(4, 4), &dims(0, 6)), dims(0, 0));
    assert_eq!(Dimensions::fit_with_locked_ratio(&dims(4, 4), &dims(8, 0)), dims(0, 0));
}

#[test]
fn fit_of_largest_sizes() {
    let big = dims(usize::MAX, usize::MAX);
    assert_eq!(Dimensions::fit_with_locked_ratio(&dims(1, 1), &big), big);
    assert_eq!(
        Dimensions::fit_with_locked_ratio(&dims(1, 2), &big),
        dims(usize::MAX / 2, usize::MAX)
    );
}

#[test]
fn average_of_extremes_stays_in_range() {
    let lo = <u8 as Brightness>::min();
    let hi = <u8 as Brightness>::max();
    assert_eq!(lo, 0);
    assert_eq!(hi, 255);
    let mid = lo.average(&hi);
    assert!(lo <= mid && mid <= hi);
    assert_eq!(mid, 127);
}

#[test]
fn average_is_the_midpoint() {
    assert_eq!(10_u8.average(&20), 15);
    assert_eq!(20_u8.average(&10), 15);
    assert_eq!(255_u8.average(&255), 255);
    assert_eq!(65535_u16.average(&65533), 65534);
}

#[test]
fn levels_and_tops() {
    assert_eq!(200_u8.level_of(), 200);
    assert_eq!(<u8 as Brightness>::top_level(), 255);
    assert_eq!(<u16 as Brightness>::top_level(), 65535);
    assert_eq!(<u16 as Brightness>::max(), 65535);
}

#[test]
fn resize_by_nearest_neighbour() {
    let image = BitmapImage::new(dims(2, 2), vec![1_u8, 2, 3, 4]);
    let big = image.resize(&dims(4, 4));
    assert_eq!(big.dimensions, dims(4, 4));
    assert_eq!(big.buffer, vec![1, 1, 2, 2, 1, 1, 2, 2, 3, 3, 4, 4, 3, 3, 4, 4]);
    let small = image.resize(&dims(1, 2));
    assert_eq!(small.buffer, vec![1, 2]);
}

#[test]
fn resize_to_zero_is_empty() {
    let image = BitmapImage::new(dims(2, 2), vec![1_u8, 2, 3, 4]);
    let empty = image.resize(&dims(0, 3));
    assert_eq!(empty.dimensions, dims(0, 3));
    assert!(empty.buffer.is_empty());
}

#[test]
fn cells_average_their_block() {
    let converter = CpixelConverter::<u8>::new();
    // Two 2 by 2 blocks side by side: means 0 and 255; a last partial column is cropped.
    let image = BitmapImage::new(dims(2, 5), vec![0_u8, 0, 255, 255, 9, 0, 0, 255, 255, 9]);
    let out = converter.convert_one(&image, &dims(2, 2), false);
    assert_eq!(out.dimensions, dims(1, 2));
    assert_eq!(out.buffer, vec![Cpixel(' '), Cpixel('N')]);
    // Mean (0 + 255 + 0 + 255) / 4 = 127 sits in the middle of the ramp.
    let mixed = BitmapImage::new(dims(2, 2), vec![0_u8, 255, 0, 255]);
    let out = converter.convert_one(&mixed, &dims(2, 2), false);
    assert_eq!(out.buffer, vec![Cpixel('=')]);
}

#[test]
fn zero_cell_gives_empty_grid() {
    let converter = CpixelConverter::<u8>::new();
    let image = BitmapImage::new(dims(2, 2), vec![1_u8, 2, 3, 4]);
    let out = converter.convert_one(&image, &dims(0, 1), true);
    assert_eq!(out.dimensions, dims(0, 2));
    assert!(out.buffer.is_empty());
}

#[test]
fn flat_frame_is_not_stretched() {
    let converter = CpixelConverter::<u8>::new();
    let image = BitmapImage::new(dims(1, 2), vec![200_u8, 200]);
    let out = converter.convert_one(&image, &dims(1, 1), true);
    assert_eq!(out.buffer, vec![Cpixel('#'), Cpixel('#')]);
}

#[test]
fn ramp_ends() {
    assert_eq!(glyph(0), ' ');
    assert_eq!(glyph(4), '=');
    assert_eq!(glyph(9), 'N');
}
