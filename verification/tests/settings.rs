use webp_tray::autostart::{autostart_value, refresh_path_if_enabled};
use webp_tray::config::{
    clamp_debounce_ms, clamp_jpeg_quality, downloads_override_dir, trim_whitespace,
};
use webp_tray::notify::{error_toast, info_toast};
use webp_tray::sanitize::AUMID;

#[test]
fn autostart_value_is_quoted() {
    assert_eq!(autostart_value(r"C:\Program Files\webp-tray\webp-tray.exe"),
        "\"C:\\Program Files\\webp-tray\\webp-tray.exe\"");
}

#[test]
fn refresh_rewrites_only_stale_enabled_values() {
    let exe = r"C:\apps\webp-tray.exe";
    let quoted = autostart_value(exe);
    assert_eq!(refresh_path_if_enabled(false, Some("\"old\""), exe), None);
    assert_eq!(refresh_path_if_enabled(true, Some(quoted.as_str()), exe), None);
    assert_eq!(refresh_path_if_enabled(true, Some("\"D:\\old.exe\""), exe), Some(quoted.clone()));
    // the unquoted path is not what we write, so it is rewritten
    assert_eq!(refresh_path_if_enabled(true, Some(exe), exe), Some(quoted.clone()));
    assert_eq!(refresh_path_if_enabled(true, None, exe), Some(quoted));
}

#[test]
fn refresh_settles_after_one_write() {
    let exe = r"E:\new place\webp-tray.exe";
    let written = refresh_path_if_enabled(true, Some("\"C:\\old\\webp-tray.exe\""), exe).unwrap();
    assert_eq!(refresh_path_if_enabled(true, Some(written.as_str()), exe), None);
}

#[test]
fn config_clamps() {
    assert_eq!(clamp_jpeg_quality(0), 1);
    assert_eq!(clamp_jpeg_quality(1), 1);
    assert_eq!(clamp_jpeg_quality(90), 90);
    assert_eq!(clamp_jpeg_quality(100), 100);
    assert_eq!(clamp_jpeg_quality(255), 100);
    assert_eq!(clamp_debounce_ms(0), 50);
    assert_eq!(clamp_debounce_ms(49), 50);
    assert_eq!(clamp_debounce_ms(50), 50);
    assert_eq!(clamp_debounce_ms(750), 750);
}

#[test]
fn downloads_override_trimmed() {
    assert_eq!(downloads_override_dir(""), None);
    assert_eq!(downloads_override_dir(" \t\n "), None);
    assert_eq!(downloads_override_dir("  D:/Downloads \n").as_deref(), Some("D:/Downloads"));
    assert_eq!(trim_whitespace("\u{3000}x y\u{00A0}"), "x y");
}

#[test]
fn toast_kinds() {
    let t = info_toast("t", "b");
    assert_eq!((t.title.as_str(), t.body.as_str(), t.long_duration), ("t", "b", false));
    let t = error_toast("t", "b");
    assert!(t.long_duration);
    assert_eq!(AUMID, "vivlim.WebpTray");
}
