use pathtracer::image::{Image, Rgb8};

/// Magic number of the plain-text pixmap format.
fn magic() -> String {
    format!("P{}", 3)
}

fn px(r: u8, g: u8, b: u8) -> Rgb8 {
    Rgb8 { r, g, b }
}

#[test]
fn new_image_is_black() {
    let img = Image::new(3, 2);
    assert_eq!(img.width(), 3);
    assert_eq!(img.height(), 2);
    for j in 0..2 {
        for i in 0..3 {
            assert_eq!(img.get(i, j), px(0, 0, 0));
        }
    }
}

#[test]
fn set_then_get() {
    let mut img = Image::new(2, 3);
    img.set(1, 2, px(9, 8, 7));
    img.set(0, 0, px(1, 2, 3));
    assert_eq!(img.get(1, 2), px(9, 8, 7));
    assert_eq!(img.get(0, 0), px(1, 2, 3));
    assert_eq!(img.get(1, 0), px(0, 0, 0));
}

#[test]
fn ppm_text_rows_top_down() {
    let mut img = Image::new(2, 2);
    // Bottom row (j = 0) and top row (j = 1).
    img.set(0, 0, px(1, 2, 3));
    img.set(1, 0, px(4, 5, 6));
    img.set(0, 1, px(255, 128, 0));
    img.set(1, 1, px(10, 99, 100));
    let text = String::from_utf8(img.to_ppm()).unwrap();
    assert_eq!(text, magic() + "\n2 2\n255\n255 128 0\n10 99 100\n1 2 3\n4 5 6\n");
}

#[test]
fn ppm_header_multi_digit_size() {
    let img = Image::new(80, 1);
    let text = String::from_utf8(img.to_ppm()).unwrap();
    let mut lines = text.lines();
    assert_eq!(lines.next(), Some(magic().as_str()));
    assert_eq!(lines.next(), Some("80 1"));
    assert_eq!(lines.next(), Some("255"));
    assert_eq!(lines.clone().count(), 80);
    assert!(lines.all(|l| l == "0 0 0"));
}

#[test]
fn ppm_of_empty_image() {
    let img = Image::new(0, 0);
    assert_eq!(img.to_ppm(), (magic() + "\n0 0\n255\n").into_bytes());
}

#[test]
fn gradient_pattern_values() {
    let img = Image::gradient(4, 2);
    assert_eq!(img.get(0, 0), px(0, 0, 128));
    assert_eq!(img.get(1, 0), px(64, 0, 128));
    assert_eq!(img.get(3, 1), px(192, 128, 128));
    let text = String::from_utf8(img.to_ppm()).unwrap();
    let mut lines = text.lines().skip(3);
    // Top row first.
    assert_eq!(lines.next(), Some("0 128 128"));
    assert_eq!(text.lines().last(), Some("192 0 128"));
}

#[test]
fn set_leaves_other_pixels() {
    let mut img = Image::gradient(3, 3);
    img.set(1, 1, px(7, 7, 7));
    assert_eq!(img.get(1, 1), px(7, 7, 7));
    assert_eq!(img.get(0, 1), px(0, 85, 128));
    assert_eq!(img.get(1, 0), px(85, 0, 128));
    assert_eq!(img.get(2, 2), px(170, 170, 128));
}
