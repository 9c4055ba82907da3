use image::{DynamicImage, GenericImageView, Luma, GrayImage, Rgba, RgbaImage};
use video_bard::fixed::{div_toward_zero, isqrt, ONE};
use video_bard::raster::{get_protected, pixel_or_white, put_protected};
use video_bard::types::{Image, InvalidInput, RGB};

#[test]
fn types_it_works() {
    let rgb = Image::<RGB>::new(1920, 1080);
    assert_eq!(rgb.width(), 1920);
    assert_eq!(rgb.height(), 1080);
    assert_eq!(rgb.len(), 0);
}

#[test]
fn lib_it_works() {
    let result: i32 = 2 + 2;
    assert_eq!(result, 4);
}

#[test]
fn image_is_filled_in_row_major_order() {
    let mut img = Image::<RGB>::new(3, 2);
    for i in 0..6 {
        img.push(RGB { r: i, g: 10 * i, b: 100 * i });
    }
    assert_eq!(img.len(), 6);
    assert_eq!(img.get_pixel(0, 0), RGB { r: 0, g: 0, b: 0 });
    assert_eq!(img.get_pixel(2, 0), RGB { r: 2, g: 20, b: 200 });
    assert_eq!(img.get_pixel(0, 1), RGB { r: 3, g: 30, b: 300 });
    assert_eq!(img.get_pixel(2, 1), RGB { r: 5, g: 50, b: 500 });
}

#[test]
fn image_of_impossible_size_can_be_described() {
    let img = Image::<RGB>::new(usize::MAX, 3);
    assert_eq!(img.width(), usize::MAX);
    assert_eq!(img.height(), 3);
    assert_eq!(img.len(), 0);
    let none = Image::<RGB>::new(0, 0);
    assert_eq!(none.len(), 0);
}

#[test]
fn colour_of_a_pixel_drops_alpha() {
    assert_eq!(RGB::from_pixel((0, 0, 0, 0)), RGB { r: 0, g: 0, b: 0 });
    assert_eq!(RGB::from_pixel((1, 2, 3, 4)), RGB { r: 16384, g: 32768, b: 49152 });
    assert_eq!(
        RGB::from_pixel((255, 255, 255, 9)),
        RGB { r: 4177920, g: 4177920, b: 4177920 }
    );
}

#[test]
fn invalid_input_compares_equal_to_itself() {
    assert_eq!(InvalidInput, InvalidInput);
    let r: Result<u8, InvalidInput> = Err(InvalidInput);
    assert!(r.is_err());
}

#[test]
fn division_rounds_toward_zero() {
    assert_eq!(ONE, 16384);
    assert_eq!(div_toward_zero(7, 2), 3);
    assert_eq!(div_toward_zero(-7, 2), -3);
    assert_eq!(div_toward_zero(-1, 16384), 0);
    assert_eq!(div_toward_zero(-16384, 16384), -1);
    assert_eq!(div_toward_zero(-16385, 16384), -1);
    assert_eq!(div_toward_zero(0, 5), 0);
    assert_eq!(div_toward_zero(i64::MIN, 1), i64::MIN);
    assert_eq!(div_toward_zero(i64::MAX, i64::MAX), 1);
}

#[test]
fn integer_square_root_rounds_down() {
    let expected: [(u64, u64); 12] = [
        (0, 0),
        (1, 1),
        (2, 1),
        (3, 1),
        (4, 2),
        (15, 3),
        (16, 4),
        (17, 4),
        (134217728, 11585),
        (268435456, 16384),
        (18446744065119617025, 4294967295),
        (u64::MAX, 4294967295),
    ];
    for (n, root) in expected {
        assert_eq!(isqrt(n), root);
    }
    assert_eq!(isqrt(18446744065119617024), 4294967294);
}

fn numbered(width: u32, height: u32) -> DynamicImage {
    DynamicImage::ImageRgba8(RgbaImage::from_fn(width, height, |x, y| {
        Rgba([x as u8, y as u8, (x + 10 * y) as u8, 200])
    }))
}

#[test]
fn protected_read_gives_the_pixel_inside() {
    let img = numbered(4, 3);
    assert_eq!(get_protected(&img, 0, 0), (0, 0, 0, 200));
    assert_eq!(get_protected(&img, 3, 0), (3, 0, 3, 200));
    assert_eq!(get_protected(&img, 0, 2), (0, 2, 20, 200));
    assert_eq!(get_protected(&img, 3, 2), (3, 2, 23, 200));
    assert_eq!(get_protected(&img, 1, 2), (1, 2, 21, 200));
    assert_eq!(pixel_or_white(&img, 2, 1), (2, 1, 12, 200));
}

#[test]
fn protected_read_gives_white_outside() {
    let img = numbered(4, 3);
    let white = (255, 255, 255, 255);
    for (x, y) in [(-1, 0), (0, -1), (4, 0), (0, 3), (4, 3), (-1, -1), (i32::MAX, 1), (1, i32::MIN)] {
        assert_eq!(get_protected(&img, x, y), white);
    }
    assert_eq!(pixel_or_white(&img, i64::MAX, 0), white);
    assert_eq!(pixel_or_white(&img, 0, i64::MIN), white);
    assert_eq!(pixel_or_white(&img, 4294967296, 0), white);
    let empty = DynamicImage::new_rgba8(0, 0);
    assert_eq!(get_protected(&empty, 0, 0), white);
}

#[test]
fn protected_read_converts_other_pixel_types() {
    let grey = DynamicImage::ImageLuma8(GrayImage::from_pixel(2, 2, Luma([77])));
    assert_eq!(get_protected(&grey, 1, 1), (77, 77, 77, 255));
    assert_eq!(get_protected(&grey, 2, 1), (255, 255, 255, 255));
}

#[test]
fn protected_write_changes_one_pixel() {
    let mut img = numbered(4, 3);
    let before = img.clone();
    put_protected(&mut img, 2, 1, (9, 8, 7, 6));
    assert_eq!(img.dimensions(), (4, 3));
    for x in 0..4 {
        for y in 0..3 {
            if (x, y) == (2, 1) {
                assert_eq!(get_protected(&img, x, y), (9, 8, 7, 6));
            } else {
                assert_eq!(get_protected(&img, x, y), get_protected(&before, x, y));
            }
        }
    }
}

#[test]
fn protected_write_outside_changes_nothing() {
    let mut img = numbered(4, 3);
    let before = img.clone();
    for (x, y) in [(-1, 0), (0, -1), (4, 0), (0, 3), (i32::MAX, i32::MAX), (i32::MIN, 0)] {
        put_protected(&mut img, x, y, (9, 8, 7, 6));
        assert_eq!(img, before);
    }
}

#[test]
fn protected_write_stores_the_pixel_in_the_images_own_type() {
    let mut grey = DynamicImage::ImageLuma8(GrayImage::from_pixel(2, 2, Luma([77])));
    put_protected(&mut grey, 0, 1, (200, 200, 200, 13));
    assert_eq!(get_protected(&grey, 0, 1), (200, 200, 200, 255));
    assert_eq!(get_protected(&grey, 1, 1), (77, 77, 77, 255));
}
