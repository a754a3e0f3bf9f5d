//! The tray icon's text and images: tooltip, fallback icon and the toasts
//! the menu's "Start at login" toggle shows.
use crate::notify::{error_toast, info_toast, ToastRequest};
use crate::sanitize::{ellipsize_left, ellipsized_left};
use vstd::prelude::*;

verus! {

/// Grapheme clusters of the Downloads path shown in the tooltip.
pub const TOOLTIP_PATH_GRAPHEMES: usize = 60;

/// The tray tooltip: the app name and the watched folder, shortened from the
/// left so its most specific part stays visible.
pub fn tray_tooltip(downloads: &str) -> (res: String)
    ensures
        res@ == "webp-tray\nWatching: "@ + ellipsized_left(downloads@, TOOLTIP_PATH_GRAPHEMES as nat),
{
    let mut res = String::from_str("webp-tray\nWatching: ");
    let shown = ellipsize_left(downloads, TOOLTIP_PATH_GRAPHEMES);
    res.append(shown.as_str());
    res
}

/// Side of the fallback tray icon, in pixels.
pub const ICON_SIZE: usize = 16;

/// Byte `i` of the fallback icon's RGBA pixels (row-major, 4 bytes a pixel):
/// opaque, dark blue on the one-pixel border, light blue inside.
pub open spec fn fallback_icon_byte(i: int) -> u8 {
    let p = i / 4;
    let channel = i % 4;
    let x = p % 16;
    let y = p / 16;
    let edge = x == 0 || y == 0 || x == 15 || y == 15;
    if channel == 3 {
        0xff
    } else if edge {
        if channel == 0 {
            0x22
        } else if channel == 1 {
            0x44
        } else {
            0x77
        }
    } else {
        if channel == 0 {
            0x55
        } else if channel == 1 {
            0x99
        } else {
            0xff
        }
    }
}

/// The RGBA pixels of the icon drawn when the executable's icon resource
/// cannot be loaded.
pub fn fallback_icon_rgba() -> (res: Vec<u8>)
    ensures
        res@.len() == 16 * 16 * 4,
        forall|i: int| 0 <= i < res@.len() ==> #[trigger] res@[i] == fallback_icon_byte(i),
{
    let mut rgba: Vec<u8> = Vec::new();
    let mut y: usize = 0;
    while y < ICON_SIZE
        invariant
            y <= 16,
            rgba@.len() == y * 64,
            forall|i: int| 0 <= i < rgba@.len() ==> #[trigger] rgba@[i] == fallback_icon_byte(i),
        decreases 16 - y,
    {
        let mut x: usize = 0;
        while x < ICON_SIZE
            invariant
                y < 16,
                x <= 16,
                rgba@.len() == y * 64 + x * 4,
                forall|i: int| 0 <= i < rgba@.len() ==> #[trigger] rgba@[i] == fallback_icon_byte(i),
            decreases 16 - x,
        {
            let edge = x == 0 || y == 0 || x == ICON_SIZE - 1 || y == ICON_SIZE - 1;
            let (r, g, b): (u8, u8, u8) = if edge {
                (0x22, 0x44, 0x77)
            } else {
                (0x55, 0x99, 0xff)
            };
            let ghost base = rgba@.len() as int;
            proof {
                assert(base == (y * 16 + x) * 4);
                assert((base + 0) / 4 == y * 16 + x && (base + 0) % 4 == 0);
                assert((base + 1) / 4 == y * 16 + x && (base + 1) % 4 == 1);
                assert((base + 2) / 4 == y * 16 + x && (base + 2) % 4 == 2);
                assert((base + 3) / 4 == y * 16 + x && (base + 3) % 4 == 3);
                assert((y * 16 + x) % 16 == x && (y * 16 + x) / 16 == y);
            }
            rgba.push(r);
            rgba.push(g);
            rgba.push(b);
            rgba.push(0xff);
            x += 1;
        }
        y += 1;
    }
    rgba
}

/// The toast confirming the new "Start at login" state.
pub fn autostart_toggled_toast(enabled: bool) -> (res: ToastRequest)
    ensures
        enabled ==> res.title@ == "Start at login: ON"@ && res.body@
            == "webp-tray will start automatically when you sign in."@,
        !enabled ==> res.title@ == "Start at login: OFF"@ && res.body@
            == "webp-tray will no longer start at login."@,
        !res.long_duration,
{
    if enabled {
        info_toast("Start at login: ON", "webp-tray will start automatically when you sign in.")
    } else {
        info_toast("Start at login: OFF", "webp-tray will no longer start at login.")
    }
}

/// The toast for a failure to find the running executable.
pub fn exe_unknown_toast(error: &str) -> (res: ToastRequest)
    ensures
        res.title@ == "Couldn't change autostart"@,
        res.body@ == "could not locate the running exe: "@ + error@,
        res.long_duration,
{
    let mut body = String::from_str("could not locate the running exe: ");
    body.append(error);
    error_toast("Couldn't change autostart", body.as_str())
}

/// The toast for a failed registry write.
pub fn registry_write_failed_toast(error: &str) -> (res: ToastRequest)
    ensures
        res.title@ == "Couldn't change autostart"@,
        res.body@ == "registry write failed: "@ + error@
            + ". The menu check may be out of sync until the app is restarted."@,
        res.long_duration,
{
    let mut body = String::from_str("registry write failed: ");
    body.append(error);
    body.append(". The menu check may be out of sync until the app is restarted.");
    error_toast("Couldn't change autostart", body.as_str())
}

} // verus!
