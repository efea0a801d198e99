use crustgraver::protocol::image_info;
use crustgraver::raster::{
    dark_luma, encode_image, estimate_burn_percent, image_dimensions, threshold_image,
    ImageTooLarge, Picture,
};
use crustgraver::job::plan_burn;
use image::{DynamicImage, GenericImageView, GrayImage, Pixel, Rgba, RgbaImage};

const DARK: Rgba<u8> = Rgba([0, 0, 0, 255]);
const WHITE: Rgba<u8> = Rgba([255, 255, 255, 255]);

/// The picture that the library reads from a loaded image.
fn picture_of(img: &DynamicImage) -> Picture {
    let (w, h) = img.dimensions();
    let mut pixels = Vec::new();
    for y in 0..h {
        for x in 0..w {
            let p = img.get_pixel(x, y).to_rgba();
            pixels.push((p[0], p[1], p[2], p[3]));
        }
    }
    Picture::new(w, h, pixels, img.to_luma8().into_raw()).unwrap()
}

fn rgba_image(w: u32, h: u32, pixels: &[Rgba<u8>]) -> Picture {
    let mut img = RgbaImage::new(w, h);
    for (i, p) in pixels.iter().enumerate() {
        img.put_pixel(i as u32 % w, i as u32 / w, *p);
    }
    picture_of(&DynamicImage::ImageRgba8(img))
}

fn gray_image(w: u32, h: u32, levels: Vec<u8>) -> Picture {
    picture_of(&DynamicImage::ImageLuma8(GrayImage::from_raw(w, h, levels).unwrap()))
}

fn blank(w: u32, h: u32) -> Picture {
    picture_of(&DynamicImage::new_luma8(w, h))
}

#[test]
fn luma_rule_matches_single_precision_formula() {
    for r in 0..=255u8 {
        for g in 0..=255u8 {
            for b in 0..=255u8 {
                let luma = (0.299 * r as f32 + 0.587 * g as f32 + 0.114 * b as f32) as u8;
                assert_eq!(dark_luma(r, g, b), luma < 128, "({r}, {g}, {b})");
            }
        }
    }
}

#[test]
fn luma_boundary_values() {
    assert!(dark_luma(0, 0, 0));
    assert!(!dark_luma(255, 255, 255));
    assert!(!dark_luma(128, 128, 128));
    assert!(dark_luma(127, 128, 128));
    assert!(dark_luma(75, 175, 25));
}

#[test]
fn encode_single_dark_pixel() {
    assert_eq!(encode_image(&rgba_image(1, 1, &[DARK])), Ok(vec![0x80, 0x55]));
    assert_eq!(encode_image(&rgba_image(1, 1, &[WHITE])), Ok(vec![0x00, 0x55]));
}

#[test]
fn encode_mirrors_odd_rows() {
    // both rows have their leftmost pixel dark; the odd row is scanned right to left
    let img = rgba_image(3, 2, &[DARK, WHITE, WHITE, DARK, WHITE, WHITE]);
    assert_eq!(encode_image(&img), Ok(vec![0x80, 0x20, 0x55]));
}

#[test]
fn encode_pads_rows_to_whole_bytes() {
    let img = rgba_image(9, 1, &[DARK; 9]);
    assert_eq!(encode_image(&img), Ok(vec![0xFF, 0x80, 0x55]));
    let img = rgba_image(9, 2, &[DARK; 18]);
    // odd row: columns 0..9 read pixels 8..0, columns 9..16 are padding
    assert_eq!(encode_image(&img), Ok(vec![0xFF, 0x80, 0xFF, 0x80, 0x55]));
}

#[test]
fn encode_escapes_footer_byte() {
    let img = rgba_image(8, 1, &[WHITE, DARK, WHITE, DARK, WHITE, DARK, WHITE, DARK]);
    assert_eq!(encode_image(&img), Ok(vec![0x55, 0x00, 0x55]));
}

#[test]
fn transparent_pixels_are_not_burned() {
    assert_eq!(encode_image(&rgba_image(1, 1, &[Rgba([0, 0, 0, 127])])), Ok(vec![0x00, 0x55]));
    assert_eq!(encode_image(&rgba_image(1, 1, &[Rgba([0, 0, 0, 128])])), Ok(vec![0x80, 0x55]));
}

#[test]
fn encode_refuses_pictures_larger_than_the_work_area() {
    let wide = picture_of(&DynamicImage::new_rgba8(491, 1));
    assert_eq!(encode_image(&wide), Err(ImageTooLarge { width: 491, height: 1 }));
    let tall = picture_of(&DynamicImage::new_rgba8(1, 491));
    assert_eq!(encode_image(&tall), Err(ImageTooLarge { width: 1, height: 491 }));
}

#[test]
fn encode_full_work_area_length_matches_header() {
    let img = rgba_image(490, 490, &vec![WHITE; 490 * 490]);
    let out = encode_image(&img).unwrap();
    let (wr, h, le) = image_dimensions(&img);
    assert_eq!((wr, h, le), (496, 490, 30380));
    assert_eq!(out.len(), le as usize + 1);
    let header = image_info(0, 0, 490, 490);
    let announced = ((header[16] as u32) << 16) | ((header[17] as u32) << 8) | header[18] as u32;
    assert_eq!(announced, le);
}

#[test]
fn threshold_splits_at_the_threshold() {
    let img = gray_image(3, 1, vec![10, 200, 128]);
    let out = threshold_image(&img, 128, false);
    assert_eq!((out.width(), out.height()), (3, 1));
    assert_eq!(out.luma(), &[0, 255, 255]);
    assert_eq!(out.pixels(), &[(0, 0, 0, 255), (255, 255, 255, 255), (255, 255, 255, 255)]);
    let inv = threshold_image(&img, 128, true);
    assert_eq!(inv.luma(), &[255, 0, 0]);
    assert_eq!(inv.pixels()[0], (255, 255, 255, 255));
    assert_eq!(inv.pixels()[1], (0, 0, 0, 255));
}

#[test]
fn threshold_levels_at_several_thresholds() {
    let img = gray_image(3, 1, vec![0, 127, 200]);
    let v = |t: u8, inv: bool| threshold_image(&img, t, inv).luma().to_vec();
    assert_eq!(v(128, false), vec![0, 0, 255]);
    assert_eq!(v(200, false), vec![0, 0, 255]);
    assert_eq!(v(201, false), vec![0, 0, 0]);
    assert_eq!(v(0, false), vec![255, 255, 255]);
    assert_eq!(v(128, true), vec![255, 255, 0]);
}

#[test]
fn threshold_twice_changes_nothing() {
    let img = gray_image(4, 1, vec![0, 90, 160, 255]);
    for t in [0u8, 1, 90, 91, 255] {
        let once = threshold_image(&img, t, false);
        let twice = threshold_image(&once, t, false);
        assert_eq!(twice.luma(), once.luma());
        assert_eq!(twice.pixels(), once.pixels());
    }
}

#[test]
fn threshold_reads_colour_luma() {
    let img = rgba_image(2, 1, &[DARK, WHITE]);
    assert_eq!(threshold_image(&img, 255, false).luma(), &[0, 255]);
    assert_eq!(threshold_image(&img, 0, false).luma(), &[255, 255]);
}

#[test]
fn threshold_then_encode_burns_the_passing_pixels() {
    let img = gray_image(4, 2, vec![0, 100, 200, 250, 0, 100, 200, 250]);
    let burned = threshold_image(&img, 150, false);
    // row 0: 1100 -> 0xC0; row 1 mirrored: 0011 -> 0x30
    assert_eq!(encode_image(&burned), Ok(vec![0xC0, 0x30, 0x55]));
    let inverted = threshold_image(&img, 150, true);
    assert_eq!(encode_image(&inverted), Ok(vec![0x30, 0xC0, 0x55]));
}

#[test]
fn dimensions_of_small_and_wrapped_widths() {
    assert_eq!(image_dimensions(&blank(100, 50)), (104, 50, 650));
    assert_eq!(image_dimensions(&blank(8, 1)), (8, 1, 1));
    assert_eq!(image_dimensions(&blank(0, 0)), (0, 0, 0));
    // widths are taken modulo 2^16
    assert_eq!(image_dimensions(&blank(65536 + 10, 3)), (16, 3, 6));
}

#[test]
fn picture_planes_must_fit_the_size() {
    assert!(Picture::new(2, 1, vec![(0, 0, 0, 255); 2], vec![0; 2]).is_some());
    assert!(Picture::new(2, 1, vec![(0, 0, 0, 255); 1], vec![0; 2]).is_none());
    assert!(Picture::new(2, 1, vec![(0, 0, 0, 255); 2], vec![0; 3]).is_none());
    let p = Picture::new(0, 7, vec![], vec![]).unwrap();
    assert_eq!((p.width(), p.height()), (0, 7));
}

#[test]
fn burn_estimate_samples_every_fourth_pixel() {
    let img = gray_image(8, 1, vec![0, 0, 0, 0, 255, 0, 0, 0]);
    assert_eq!(estimate_burn_percent(&img, 128), Some(50));
    let img = gray_image(3, 1, vec![0, 255, 255]);
    assert_eq!(estimate_burn_percent(&img, 128), Some(100));
    let img = gray_image(4, 1, vec![200, 0, 0, 0]);
    assert_eq!(estimate_burn_percent(&img, 128), Some(0));
    assert_eq!(estimate_burn_percent(&blank(0, 5), 128), None);
    assert_eq!(estimate_burn_percent(&gray_image(8, 1, vec![0; 8]), 128), Some(100));
}

#[test]
fn plan_burn_prepares_header_and_payload() {
    let img = gray_image(4, 2, vec![0, 100, 200, 250, 0, 100, 200, 250]);
    let plan = plan_burn(&img, 7, 9, 150, false).unwrap();
    assert_eq!((plan.width, plan.height), (4, 2));
    assert_eq!(plan.header, image_info(7, 9, 4, 2));
    assert_eq!(plan.payload, Ok(vec![0xC0, 0x30, 0x55]));
    assert_eq!(plan.image.luma(), &[0, 0, 255, 255, 0, 0, 255, 255]);

    let wide = blank(491, 1);
    let plan = plan_burn(&wide, 0, 0, 128, false).unwrap();
    assert_eq!(plan.header, image_info(0, 0, 491, 1));
    assert_eq!(plan.payload, Err(ImageTooLarge { width: 491, height: 1 }));

    assert!(plan_burn(&blank(65530, 0), 0, 0, 128, false).is_none());
}

#[test]
fn payload_less_escapes_is_the_header_length() {
    let img = rgba_image(8, 2, &[WHITE, DARK, WHITE, DARK, WHITE, DARK, WHITE, DARK,
        DARK, WHITE, DARK, WHITE, DARK, WHITE, DARK, WHITE]);
    let out = encode_image(&img).unwrap();
    assert_eq!(out, vec![0x55, 0x00, 0x55, 0x00, 0x55]);
    let body = &out[..out.len() - 1];
    let escapes = body.iter().filter(|b| **b == 0x55).count();
    assert_eq!((body.len() - escapes) as u32, image_dimensions(&img).2);
}
