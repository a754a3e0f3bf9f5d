use std::cell::RefCell;
use webp_tray::convert::{
    candidate, choose_format, has_transparent_pixels, notify_toast, pick_output_path,
    pixel_count, temp_file_name, thresh_or, AlphaSamples, OutputFormat,
};

#[test]
fn output_format_names() {
    assert_eq!(OutputFormat::Png.ext(), "png");
    assert_eq!(OutputFormat::Jpeg.ext(), "jpg");
    assert_eq!(OutputFormat::Png.label(), "PNG");
    assert_eq!(OutputFormat::Jpeg.label(), "JPEG");
}

#[test]
fn threshold_zero_becomes_one() {
    assert_eq!(thresh_or(0), 1);
    assert_eq!(thresh_or(1), 1);
    assert_eq!(thresh_or(250), 250);
}

#[test]
fn format_rule() {
    // transparency forces PNG even for big images
    assert_eq!(choose_format(true, 4000, 3000, 480_000), OutputFormat::Png);
    // small opaque images stay PNG, boundary included
    assert_eq!(choose_format(false, 800, 600, 480_000), OutputFormat::Png);
    assert_eq!(choose_format(false, 801, 600, 480_000), OutputFormat::Jpeg);
    assert_eq!(pixel_count(u32::MAX, u32::MAX), (u32::MAX as u64) * (u32::MAX as u64));
    assert_eq!(choose_format(false, u32::MAX, u32::MAX, u32::MAX), OutputFormat::Jpeg);
}

#[test]
fn transparency_counts() {
    let bytes = AlphaSamples::Bytes(vec![255, 255, 10, 255, 0]);
    assert!(has_transparent_pixels(&bytes, 1, 250));
    assert!(has_transparent_pixels(&bytes, 2, 250));
    assert!(!has_transparent_pixels(&bytes, 3, 250));
    // threshold 0 behaves like 1: only alpha 0 counts
    assert!(has_transparent_pixels(&bytes, 1, 0));
    assert!(!has_transparent_pixels(&bytes, 2, 0));
    // 16-bit samples are compared by their high byte
    let words = AlphaSamples::Words(vec![0xffff, 0xf9ff, 0xfa00]);
    assert!(has_transparent_pixels(&words, 1, 250));
    assert!(!has_transparent_pixels(&words, 2, 250));
    assert!(!has_transparent_pixels(&AlphaSamples::Bytes(vec![]), 1, 250));
}

#[test]
fn output_name_first_free() {
    let r = pick_output_path("photo", "png", |_n: &String| false);
    assert_eq!(r.as_deref(), Some("photo.png"));
    let taken = ["photo.png", "photo (1).png", "photo (2).png"];
    let r = pick_output_path("photo", "png", |n: &String| taken.contains(&n.as_str()));
    assert_eq!(r.as_deref(), Some("photo (3).png"));
}

#[test]
fn output_name_sanitizes_stem() {
    let r = pick_output_path("a:b?", "jpg", |_n: &String| false);
    assert_eq!(r.as_deref(), Some("ab.jpg"));
    let r = pick_output_path("CON", "png", |_n: &String| false);
    assert_eq!(r.as_deref(), Some("_CON.png"));
}

#[test]
fn output_name_gives_up_after_999() {
    let asked = RefCell::new(Vec::new());
    let r = pick_output_path("x", "png", |n: &String| {
        asked.borrow_mut().push(n.clone());
        true
    });
    assert_eq!(r, None);
    let asked = asked.into_inner();
    assert_eq!(asked.len(), 1000);
    assert_eq!(asked[0], "x.png");
    assert_eq!(asked[1], "x (1).png");
    assert_eq!(asked[999], "x (999).png");
}

#[test]
fn candidate_names() {
    assert_eq!(candidate("猫", "jpg", 0), "猫.jpg");
    assert_eq!(candidate("a b", "png", 10), "a b (10).png");
    assert_eq!(candidate("s", "png", 4_000_000_000), "s (4000000000).png");
}

#[test]
fn temp_name() {
    assert_eq!(temp_file_name("cat.png"), ".cat.png.webp-tray.tmp");
}

#[test]
fn conversion_toast_text() {
    let t = notify_toast("a.webp", "a.png", OutputFormat::Png);
    assert_eq!(t.title, "Converted to PNG");
    assert_eq!(t.body, "a.webp  →  a.png");
    assert!(!t.long_duration);
    let t = notify_toast("b.webp", "b.jpg", OutputFormat::Jpeg);
    assert_eq!(t.title, "Converted to JPEG");
}
