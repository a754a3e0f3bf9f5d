use webp_tray::logging::{current_log_file, LogChoice, LogEntry};
use webp_tray::pool::{
    clamp_workers, convert_failed_toast, overloaded_toast, requested_workers,
    short_error, unstable_file_toast, ProbeAction, StabilityProbe,
};
use webp_tray::tray::{autostart_toggled_toast, fallback_icon_rgba, tray_tooltip};
use webp_tray::watcher::{config_error_toast, event_action, is_webp, WatchAction};

#[test]
fn worker_counts() {
    assert_eq!(clamp_workers(0), 1);
    assert_eq!(clamp_workers(4), 4);
    assert_eq!(clamp_workers(5), 4);
    assert_eq!(clamp_workers(20), 4);
    assert_eq!(requested_workers(Some(1)), 1);
    assert_eq!(requested_workers(Some(16)), 8);
    assert_eq!(requested_workers(Some(7)), 3);
    assert_eq!(requested_workers(None), 2);
}

fn run_probe(lens: &[Option<u64>], open_ok: bool) -> (bool, usize) {
    let mut probe = StabilityProbe::new();
    let mut polls = 0;
    while probe.should_poll() {
        let len = lens.get(polls).copied().unwrap_or(*lens.last().unwrap());
        polls += 1;
        let mut action = probe.observe_len(len);
        if action == ProbeAction::TryOpen {
            action = probe.observe_open(open_ok);
        }
        match action {
            ProbeAction::Done(b) => return (b, polls),
            ProbeAction::Sleep => {}
            ProbeAction::TryOpen => unreachable!(),
        }
    }
    (false, polls)
}

#[test]
fn stable_after_three_equal_lengths() {
    assert_eq!(run_probe(&[Some(5), Some(5), Some(5)], true), (true, 3));
    assert_eq!(run_probe(&[Some(1), Some(5), Some(5), Some(5)], true), (true, 4));
}

#[test]
fn vanished_file_is_not_stable() {
    assert_eq!(run_probe(&[Some(5), None], true), (false, 2));
}

#[test]
fn growing_or_locked_file_times_out() {
    let growing: Vec<Option<u64>> = (1..=50).map(Some).collect();
    assert_eq!(run_probe(&growing, true), (false, 40));
    assert_eq!(run_probe(&[Some(5)], false), (false, 40));
    assert_eq!(run_probe(&[Some(0)], true), (false, 40));
}

#[test]
fn empty_poll_resets_the_length() {
    // 5, 5, 0, 5, 5, 5: the empty poll breaks the run
    assert_eq!(run_probe(&[Some(5), Some(5), Some(0), Some(5), Some(5), Some(5)], true), (true, 6));
}

#[test]
fn short_error_first_line() {
    assert_eq!(short_error("decode x: bad\ncaused by"), "decode x: bad");
    assert_eq!(short_error("a\r\nb"), "a");
    assert_eq!(short_error("a\r"), "a\r");
    assert_eq!(short_error(""), "");
    assert_eq!(short_error("\nb"), "");
    let long = "x".repeat(300);
    assert_eq!(short_error(&long), format!("{}…", "x".repeat(200)));
    let exact = "y".repeat(200);
    assert_eq!(short_error(&exact), exact);
    // multi-byte characters with byte 200 on a boundary
    let cjk = format!("{}{}", "ab", "猫".repeat(100));
    assert_eq!(short_error(&cjk), format!("ab{}…", "猫".repeat(66)));
    // byte 200 inside a character: cut before it
    let cjk = format!("{}{}", "a", "猫".repeat(100));
    assert_eq!(short_error(&cjk), format!("a{}…", "猫".repeat(66)));
    let out = short_error(&format!("{}\nsecond", "é".repeat(150)));
    assert_eq!(out, format!("{}…", "é".repeat(100)));
    assert!(!out.contains('\n'));
}

#[test]
fn worker_toasts() {
    let t = unstable_file_toast("a.webp");
    assert_eq!(t.title, "Couldn't convert webp");
    assert_eq!(t.body, "a.webp never finished writing. Open the log for details.");
    assert!(t.long_duration);
    let t = convert_failed_toast("a.webp", "decode failed");
    assert_eq!(t.body, "a.webp: decode failed");
    let t = overloaded_toast();
    assert_eq!(t.title, "webp-tray is overloaded");
    assert_eq!(t.body, "too many files arriving at once; some webps were skipped. Re-trigger by saving them again, or restart the app.");
}

#[test]
fn webp_extension_rule() {
    assert!(is_webp("cat.webp"));
    assert!(is_webp("cat.WebP"));
    assert!(is_webp("a.b.webp"));
    assert!(!is_webp(".webp"));
    assert!(is_webp("..webp"));
    assert!(!is_webp("cat.webp.crdownload"));
    assert!(!is_webp("webp"));
    assert!(!is_webp("cat.webpx"));
    assert!(!is_webp(""));
    assert!(!is_webp(".."));
}

#[test]
fn watcher_rule() {
    assert_eq!(event_action(true, false, "config.toml"), WatchAction::ReloadConfig);
    assert_eq!(event_action(false, true, "x.webp"), WatchAction::Convert);
    assert_eq!(event_action(false, false, "x.webp"), WatchAction::Ignore);
    assert_eq!(event_action(false, true, "x.png"), WatchAction::Ignore);
    let t = config_error_toast("bad key");
    assert_eq!(t.body, "Reverted to last known-good values. bad key");
}

fn entry(name: Option<&str>, t: Option<i128>) -> LogEntry {
    LogEntry { name: name.map(|s| s.to_string()), modified: t }
}

#[test]
fn newest_log_file() {
    let es = vec![
        entry(Some("other.log"), Some(100)),
        entry(Some("webp-tray_r00001.log"), Some(5)),
        entry(Some("webp-tray_rCURRENT.log"), Some(9)),
        entry(Some("webp-tray_r00002.log"), Some(9)),
        entry(None, None),
    ];
    assert_eq!(current_log_file(&es, "webp-tray"), LogChoice::File(2));
    assert_eq!(current_log_file(&vec![], "webp-tray"), LogChoice::Folder);
    let es = vec![entry(Some("x"), None), entry(Some("webp-tray.log"), None)];
    assert_eq!(current_log_file(&es, "webp-tray"), LogChoice::Unknown);
}

#[test]
fn tray_texts() {
    assert_eq!(tray_tooltip(r"C:\Users\me\Downloads"), "webp-tray\nWatching: C:\\Users\\me\\Downloads");
    let long = format!("D:\\{}", "x".repeat(100));
    let tip = tray_tooltip(&long);
    assert_eq!(tip, format!("webp-tray\nWatching: …{}", "x".repeat(59)));
    let t = autostart_toggled_toast(true);
    assert_eq!(t.title, "Start at login: ON");
    let t = autostart_toggled_toast(false);
    assert_eq!(t.body, "webp-tray will no longer start at login.");
}

#[test]
fn fallback_icon_pixels() {
    let px = fallback_icon_rgba();
    assert_eq!(px.len(), 1024);
    assert_eq!(&px[0..4], &[0x22, 0x44, 0x77, 0xff]);
    let inner = (16 + 1) * 4;
    assert_eq!(&px[inner..inner + 4], &[0x55, 0x99, 0xff, 0xff]);
    let last = 1020;
    assert_eq!(&px[last..], &[0x22, 0x44, 0x77, 0xff]);
}
