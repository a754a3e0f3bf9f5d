//! The integer settings of the configuration file: their defaults and the
//! ranges out-of-range values are coerced into, and the Downloads override.
use crate::text::chars_of;
use crate::text::{lemma_trim_by_range, string_from_range, trim_by};
use crate::unicode::{is_white_space, unicode_white_space};
use vstd::prelude::*;

verus! {

/// Images at or below this many pixels become PNG even when opaque (~800x600).
pub const DEFAULT_SMALL_IMAGE_MAX_PIXELS: u32 = 480_000;

/// Default JPEG quality.
pub const DEFAULT_JPEG_QUALITY: u8 = 90;

/// Default debounce delay for file-system events, in milliseconds.
pub const DEFAULT_DEBOUNCE_MS: u64 = 750;

/// Pixels with alpha below this count as transparent by default.
pub const DEFAULT_ALPHA_THRESHOLD: u8 = 250;

/// Smallest debounce delay accepted, in milliseconds.
pub const MIN_DEBOUNCE_MS: u64 = 50;

/// JPEG quality coerced into 1..=100.
pub fn clamp_jpeg_quality(q: u8) -> (res: u8)
    ensures
        res == if q < 1 {
            1
        } else if q > 100 {
            100
        } else {
            q
        },
        1 <= res <= 100,
{
    if q < 1 {
        1
    } else if q > 100 {
        100
    } else {
        q
    }
}

/// Debounce delay raised to at least `MIN_DEBOUNCE_MS`.
pub fn clamp_debounce_ms(ms: u64) -> (res: u64)
    ensures
        res == if ms < MIN_DEBOUNCE_MS {
            MIN_DEBOUNCE_MS
        } else {
            ms
        },
        res >= MIN_DEBOUNCE_MS,
{
    if ms < MIN_DEBOUNCE_MS {
        MIN_DEBOUNCE_MS
    } else {
        ms
    }
}

/// The White_Space property as a predicate.
pub open spec fn white_pred() -> spec_fn(char) -> bool {
    |c: char| unicode_white_space(c)
}

/// `s` without leading and trailing whitespace.
pub open spec fn trim_white(s: Seq<char>) -> Seq<char> {
    trim_by(s, white_pred())
}

/// `s` without leading and trailing whitespace.
pub fn trim_whitespace(s: &str) -> (res: String)
    ensures
        res@ == trim_white(s@),
        // a contiguous part of `s`, with only whitespace cut on either side,
        // and no whitespace left at its ends
        exists|a: int|
            #![trigger s@.subrange(a, a + res@.len())]
            0 <= a && a + res@.len() <= s@.len() && res@ == s@.subrange(a, a + res@.len()) && (
            forall|k: int| 0 <= k < a ==> unicode_white_space(#[trigger] s@[k])) && (forall|k: int|
                a + res@.len() <= k < s@.len() ==> unicode_white_space(#[trigger] s@[k])),
        res@.len() > 0 ==> !unicode_white_space(res@[0]) && !unicode_white_space(res@.last()),
{
    let cs = chars_of(s);
    let n = cs.len();
    let mut a: usize = 0;
    while a < n && is_white_space(cs[a])
        invariant
            a <= n == cs@.len(),
            forall|k: int| 0 <= k < a ==> unicode_white_space(#[trigger] cs@[k]),
        decreases n - a,
    {
        a += 1;
    }
    let mut b: usize = n;
    while b > a && is_white_space(cs[b - 1])
        invariant
            a <= b <= n == cs@.len(),
            forall|k: int| b <= k < n ==> unicode_white_space(#[trigger] cs@[k]),
        decreases b,
    {
        b -= 1;
    }
    proof {
        lemma_trim_by_range(cs@, white_pred(), a as int, b as int);
    }
    let res = string_from_range(&cs, a, b);
    assert(res@ == s@.subrange(a as int, a + res@.len()));
    res
}

/// The Downloads folder the `downloads_override` setting asks for: the
/// setting without surrounding whitespace, or `None` (use the folder the OS
/// reports) when nothing else is left.
pub fn downloads_override_dir(setting: &str) -> (res: Option<String>)
    ensures
        match res {
            Some(dir) => dir@ == trim_white(setting@) && dir@.len() > 0,
            None => trim_white(setting@).len() == 0,
        },
{
    let t = trim_whitespace(setting);
    if t.as_str().unicode_len() == 0 {
        None
    } else {
        Some(t)
    }
}

} // verus!
