//! Decisions of the conversion of one downloaded `.webp`: which format to
//! write, whether the image holds real transparency, and which free name
//! next to the original the output gets.
use crate::notify::{info_toast, ToastRequest};
use crate::sanitize::{sanitize_stem, sanitized_stem};
use vstd::prelude::*;

verus! {

/// The format a `.webp` is converted to.
#[derive(Debug, Clone, Copy, PartialEq, Eq, Structural)]
pub enum OutputFormat {
    Png,
    Jpeg,
}

/// How many numbered names (`stem (1).ext` ... `stem (999).ext`) are tried
/// after the plain `stem.ext` before giving up.
pub const MAX_NUMBERED_CANDIDATES: u32 = 999;

impl OutputFormat {
    /// The file extension written for this format.
    pub open spec fn ext_spec(self) -> Seq<char> {
        match self {
            OutputFormat::Png => seq!['p', 'n', 'g'],
            OutputFormat::Jpeg => seq!['j', 'p', 'g'],
        }
    }

    /// The name shown to the user for this format.
    pub open spec fn label_spec(self) -> Seq<char> {
        match self {
            OutputFormat::Png => seq!['P', 'N', 'G'],
            OutputFormat::Jpeg => seq!['J', 'P', 'E', 'G'],
        }
    }

    pub fn ext(self) -> (res: &'static str)
        ensures
            res@ == self.ext_spec(),
    {
        match self {
            OutputFormat::Png => {
                let r = "png";
                proof {
                    reveal_strlit("png");
                }
                r
            },
            OutputFormat::Jpeg => {
                let r = "jpg";
                proof {
                    reveal_strlit("jpg");
                }
                r
            },
        }
    }

    pub fn label(self) -> (res: &'static str)
        ensures
            res@ == self.label_spec(),
    {
        match self {
            OutputFormat::Png => {
                let r = "PNG";
                proof {
                    reveal_strlit("PNG");
                }
                r
            },
            OutputFormat::Jpeg => {
                let r = "JPEG";
                proof {
                    reveal_strlit("JPEG");
                }
                r
            },
        }
    }
}

/// The alpha threshold actually used: a threshold of 0 would make no pixel
/// count as transparent, so it is raised to 1.
pub fn thresh_or(t: u8) -> (res: u8)
    ensures
        res == thresh_or_spec(t),
        t >= 1 ==> res == t,
        t == 0 ==> res == 1,
{
    if t == 0 {
        1
    } else {
        t
    }
}

/// Number of pixels of a `width` x `height` image.
pub fn pixel_count(width: u32, height: u32) -> (res: u64)
    ensures
        res == width * height,
{
    assert(width * height <= u32::MAX * u32::MAX) by (nonlinear_arith)
        requires
            width <= u32::MAX,
            height <= u32::MAX,
    ;
    (width as u64) * (height as u64)
}

/// The format rule: images with real transparency, and small images (at most
/// `small_image_max_pixels` pixels), become PNG; the rest JPEG.
pub open spec fn chosen_format(has_real_alpha: bool, pixels: int, small_image_max_pixels: int) -> OutputFormat {
    if has_real_alpha || pixels <= small_image_max_pixels {
        OutputFormat::Png
    } else {
        OutputFormat::Jpeg
    }
}

/// Picks the output format of a `width` x `height` image.
pub fn choose_format(has_real_alpha: bool, width: u32, height: u32, small_image_max_pixels: u32) -> (res: OutputFormat)
    ensures
        res == chosen_format(has_real_alpha, width * height, small_image_max_pixels as int),
        has_real_alpha ==> res == OutputFormat::Png,
        width * height <= small_image_max_pixels ==> res == OutputFormat::Png,
        !has_real_alpha && width * height > small_image_max_pixels ==> res == OutputFormat::Jpeg,
{
    let pixels = pixel_count(width, height);
    if has_real_alpha || pixels <= small_image_max_pixels as u64 {
        OutputFormat::Png
    } else {
        OutputFormat::Jpeg
    }
}

/// The alpha samples of an image, one per pixel, as stored by its format.
pub enum AlphaSamples {
    /// 8-bit alpha.
    Bytes(Vec<u8>),
    /// 16-bit alpha; compared by its high byte.
    Words(Vec<u16>),
}

/// The 8-bit value a 16-bit alpha sample is compared as: its high byte.
pub open spec fn high_byte(a: u16) -> u8 {
    (a / 256) as u8
}

/// The alpha samples as 8-bit values.
pub open spec fn alpha_bytes(samples: AlphaSamples) -> Seq<u8> {
    match samples {
        AlphaSamples::Bytes(v) => v@,
        AlphaSamples::Words(v) => v@.map_values(|a: u16| high_byte(a)),
    }
}

/// How many of `alphas` are below `thresh`.
pub open spec fn count_below(alphas: Seq<u8>, thresh: u8) -> nat
    decreases alphas.len(),
{
    if alphas.len() == 0 {
        0
    } else {
        count_below(alphas.drop_last(), thresh) + if alphas.last() < thresh {
            1nat
        } else {
            0nat
        }
    }
}

/// The high byte of a 16-bit alpha sample.
pub fn alpha_high_byte(a: u16) -> (res: u8)
    ensures
        res == high_byte(a),
        res == a / 256,
{
    assert((a >> 8u16) == a / 256 && a / 256 < 256) by (bit_vector);
    (a >> 8) as u8
}

/// Whether at least `needed` (and at least one) of the alpha samples are
/// below `thresh_or(alpha_thresh)`; the scan stops as soon as that many are
/// seen. `needed` is the caller's share of the pixel count.
pub fn has_transparent_pixels(samples: &AlphaSamples, needed: usize, alpha_thresh: u8) -> (res: bool)
    ensures
        res == (count_below(alpha_bytes(*samples), thresh_or_spec(alpha_thresh)) >= needed
            && count_below(alpha_bytes(*samples), thresh_or_spec(alpha_thresh)) >= 1),
        // with a configured threshold of 1 or more, a sample is transparent
        // exactly when its alpha is below that threshold
        alpha_thresh >= 1 ==> res == (alpha_bytes(*samples).filter(|a: u8| a < alpha_thresh).len()
            >= needed && alpha_bytes(*samples).filter(|a: u8| a < alpha_thresh).len() >= 1),
        alpha_thresh == 0 ==> res == (alpha_bytes(*samples).filter(|a: u8| a < 1u8).len() >= needed
            && alpha_bytes(*samples).filter(|a: u8| a < 1u8).len() >= 1),
{
    let t = thresh_or(alpha_thresh);
    let res = count_reaches(samples, needed, t);
    proof {
        lemma_count_below_is_filter_len(alpha_bytes(*samples), t);
    }
    res
}

/// Whether at least `needed` (and at least one) of the samples are below `t`.
fn count_reaches(samples: &AlphaSamples, needed: usize, t: u8) -> (res: bool)
    ensures
        res == (count_below(alpha_bytes(*samples), t) >= needed && count_below(
            alpha_bytes(*samples),
            t,
        ) >= 1),
{
    let ghost alphas = alpha_bytes(*samples);
    let n = match samples {
        AlphaSamples::Bytes(v) => v.len(),
        AlphaSamples::Words(v) => v.len(),
    };
    let mut count: usize = 0;
    let mut i: usize = 0;
    while i < n
        invariant
            alphas == alpha_bytes(*samples),
            n == alphas.len(),
            i <= n,
            count == count_below(alphas.take(i as int), t),
            count < needed || count == 0,
        decreases n - i,
    {
        let a = match samples {
            AlphaSamples::Bytes(v) => v[i],
            AlphaSamples::Words(v) => alpha_high_byte(v[i]),
        };
        proof {
            assert(alphas.take(i + 1).drop_last() == alphas.take(i as int));
            assert(alphas[i as int] == a);
            assert(alphas.take(i + 1).last() == a);
            assert(count_below(alphas.take(i + 1), t) == count_below(alphas.take(i as int), t) + if a
                < t {
                1nat
            } else {
                0nat
            });
            lemma_count_below_bounded(alphas.take(i as int), t);
        }
        i += 1;
        if a < t {
            count += 1;
            if count >= needed {
                proof {
                    lemma_count_below_monotone(alphas, i as int, t);
                }
                return true;
            }
        }
    }
    assert(alphas.take(n as int) == alphas);
    false
}

/// The threshold `thresh_or` computes.
pub open spec fn thresh_or_spec(t: u8) -> u8 {
    if t == 0 {
        1
    } else {
        t
    }
}

/// 16-bit samples are compared by their high byte, 8-bit ones as they are.
pub proof fn lemma_alpha_bytes(samples: AlphaSamples, i: int)
    ensures
        (samples matches AlphaSamples::Bytes(v) && 0 <= i < v@.len()) ==> alpha_bytes(samples)[i]
            == samples->Bytes_0@[i],
        (samples matches AlphaSamples::Words(v) && 0 <= i < v@.len()) ==> alpha_bytes(samples)[i]
            == samples->Words_0@[i] / 256,
        alpha_bytes(samples).len() == match samples {
            AlphaSamples::Bytes(v) => v@.len(),
            AlphaSamples::Words(v) => v@.len(),
        },
{
}

/// `count_below(alphas, t)` is the number of samples below `t`.
pub proof fn lemma_count_below_is_filter_len(alphas: Seq<u8>, t: u8)
    ensures
        count_below(alphas, t) == alphas.filter(|a: u8| a < t).len(),
    decreases alphas.len(),
{
    reveal(Seq::filter);
    if alphas.len() > 0 {
        lemma_count_below_is_filter_len(alphas.drop_last(), t);
    }
}

/// The format rule over all inputs: transparency or a small size gives PNG,
/// and only a large opaque image gives JPEG.
pub proof fn lemma_format_rule(has_real_alpha: bool, pixels: int, small_image_max_pixels: int)
    ensures
        has_real_alpha ==> chosen_format(has_real_alpha, pixels, small_image_max_pixels)
            == OutputFormat::Png,
        pixels <= small_image_max_pixels ==> chosen_format(
            has_real_alpha,
            pixels,
            small_image_max_pixels,
        ) == OutputFormat::Png,
        !has_real_alpha && pixels > small_image_max_pixels ==> chosen_format(
            has_real_alpha,
            pixels,
            small_image_max_pixels,
        ) == OutputFormat::Jpeg,
{
}

/// The threshold used is the configured one, except that 0 becomes 1.
pub proof fn lemma_threshold_kept(t: u8)
    ensures
        t >= 1 ==> thresh_or_spec(t) == t,
        thresh_or_spec(t) >= 1,
{
}

proof fn lemma_count_below_bounded(alphas: Seq<u8>, t: u8)
    ensures
        count_below(alphas, t) <= alphas.len(),
    decreases alphas.len(),
{
    if alphas.len() > 0 {
        lemma_count_below_bounded(alphas.drop_last(), t);
    }
}

proof fn lemma_count_below_monotone(alphas: Seq<u8>, i: int, t: u8)
    requires
        0 <= i <= alphas.len(),
    ensures
        count_below(alphas.take(i), t) <= count_below(alphas, t),
    decreases alphas.len() - i,
{
    if i < alphas.len() {
        lemma_count_below_monotone(alphas, i + 1, t);
        assert(alphas.take(i + 1).drop_last() == alphas.take(i));
    } else {
        assert(alphas.take(i) == alphas);
    }
}

/// The character of decimal digit `d`.
pub open spec fn digit_char(d: nat) -> char {
    ((48 + d) as u8) as char
}

/// The decimal numeral of `n`, without leading zeros.
pub open spec fn decimal(n: nat) -> Seq<char>
    decreases n,
{
    if n < 10 {
        seq![digit_char(n)]
    } else {
        decimal(n / 10).push(digit_char(n % 10))
    }
}

/// The number a string of decimal digits spells.
pub open spec fn numeral_value(d: Seq<char>) -> int
    decreases d.len(),
{
    if d.len() == 0 {
        0
    } else {
        numeral_value(d.drop_last()) * 10 + ((d.last() as u32) - ('0' as u32))
    }
}

/// `d` is the usual base-10 numeral of `n`: ASCII digits only, no leading
/// zero, spelling `n`.
pub open spec fn is_numeral_of(d: Seq<char>, n: nat) -> bool {
    &&& d.len() > 0
    &&& forall|i: int| 0 <= i < d.len() ==> '0' <= #[trigger] d[i] <= '9'
    &&& numeral_value(d) == n
    &&& d.len() > 1 ==> d[0] != '0'
}

/// The digit character of `d` is an ASCII digit whose code is `'0' + d`.
proof fn lemma_digit_char(d: nat)
    requires
        d < 10,
    ensures
        digit_char(d) as u32 == '0' as u32 + d,
        '0' <= digit_char(d) <= '9',
{
    let b = (48 + d) as u8;
    assert(b as u32 == 48 + d);
    assert((b as char) as u32 == b as u32);
}

/// `decimal(n)` is the base-10 numeral of `n`.
pub proof fn lemma_decimal_is_numeral(n: nat)
    ensures
        is_numeral_of(decimal(n), n),
    decreases n,
{
    lemma_digit_char(n % 10);
    if n < 10 {
        assert(decimal(n).drop_last() =~= Seq::<char>::empty());
        assert(numeral_value(decimal(n)) == numeral_value(Seq::<char>::empty()) * 10 + (
        digit_char(n) as u32 - '0' as u32));
    } else {
        lemma_decimal_is_numeral(n / 10);
        let p = decimal(n / 10);
        let d = decimal(n);
        assert(d.drop_last() == p);
        assert(d[0] == p[0]);
        assert(d.last() == digit_char(n % 10));
        assert(numeral_value(d) == numeral_value(p) * 10 + (digit_char(n % 10) as u32 - '0' as u32));
        assert((n / 10) * 10 + n % 10 == n);
        if n / 10 < 10 {
            lemma_digit_char(n / 10);
            assert(p[0] == digit_char(n / 10));
            assert(p[0] != '0');
        } else {
            lemma_decimal_is_numeral(n / 10 / 10);
            assert(p.len() == decimal(n / 10 / 10).len() + 1);
        }
        assert forall|i: int| 0 <= i < d.len() implies '0' <= #[trigger] d[i] <= '9' by {
            if i < p.len() {
                assert(d[i] == p[i]);
            }
        }
    }
}

/// Appends the decimal numeral of `n` to `s`.
pub fn push_decimal(s: &mut String, n: u32)
    ensures
        final(s)@ == old(s)@ + decimal(n as nat),
        final(s)@.len() > old(s)@.len(),
        final(s)@.take(old(s)@.len() as int) == old(s)@,
        is_numeral_of(final(s)@.skip(old(s)@.len() as int), n as nat),
    decreases n,
{
    proof {
        lemma_decimal_is_numeral(n as nat);
    }
    if n >= 10 {
        push_decimal(s, n / 10);
    }
    let d = (n % 10) as u8;
    s.push((48u8 + d) as char);
    proof {
        assert(final(s)@.take(old(s)@.len() as int) =~= old(s)@);
        assert(final(s)@.skip(old(s)@.len() as int) =~= decimal(n as nat));
    }
}

/// The `n`-th name tried for the output: `stem.ext` first, then
/// `stem (n).ext`.
pub open spec fn candidate_name(stem: Seq<char>, ext: Seq<char>, n: nat) -> Seq<char> {
    if n == 0 {
        stem + seq!['.'] + ext
    } else {
        stem + seq![' ', '('] + decimal(n) + seq![')', '.'] + ext
    }
}

/// The names tried: `stem.ext` first, then `stem (n).ext` with `n` written
/// as its base-10 numeral.
pub proof fn lemma_candidate_name(stem: Seq<char>, ext: Seq<char>, n: nat)
    ensures
        n == 0 ==> candidate_name(stem, ext, n) == stem + seq!['.'] + ext,
        n >= 1 ==> exists|d: Seq<char>|
            is_numeral_of(d, n) && candidate_name(stem, ext, n) == stem + seq![' ', '('] + d
                + seq![')', '.'] + ext,
{
    lemma_decimal_is_numeral(n);
    if n >= 1 {
        assert(is_numeral_of(decimal(n), n));
    }
}

/// The `n`-th name tried for the output.
pub fn candidate(stem: &str, ext: &str, n: u32) -> (res: String)
    ensures
        res@ == candidate_name(stem@, ext@, n as nat),
        n == 0 ==> res@ == stem@ + seq!['.'] + ext@,
        n >= 1 ==> exists|d: Seq<char>|
            is_numeral_of(d, n as nat) && res@ == stem@ + seq![' ', '('] + d + seq![')', '.']
                + ext@,
{
    proof {
        lemma_candidate_name(stem@, ext@, n as nat);
    }
    let mut res = String::from_str(stem);
    if n == 0 {
        res.push('.');
        res.append(ext);
        proof {
            assert(res@ =~= stem@ + seq!['.'] + ext@);
        }
    } else {
        res.push(' ');
        res.push('(');
        push_decimal(&mut res, n);
        res.push(')');
        res.push('.');
        res.append(ext);
        proof {
            assert(res@ =~= stem@ + seq![' ', '('] + decimal(n as nat) + seq![')', '.'] + ext@);
        }
    }
    res
}

/// `is_taken` answered `true` for some string that spells `name`.
pub open spec fn answered_taken<F: Fn(&String) -> bool>(is_taken: F, name: Seq<char>) -> bool {
    exists|s: String| s@ == name && #[trigger] is_taken.ensures((&s,), true)
}

/// Picks the file name of the output of converting a file whose stem is
/// `raw_stem`: the sanitized stem with extension `ext`, else the first of
/// `stem (1).ext` ... `stem (999).ext` that `is_taken` does not report as
/// taken (an existing file, or the source itself). `None` when all are.
pub fn pick_output_path<F: Fn(&String) -> bool>(raw_stem: &str, ext: &str, is_taken: F) -> (res: Option<String>)
    requires
        forall|s: &String| #[trigger] is_taken.requires((s,)),
    ensures
        match res {
            Some(name) => exists|k: nat|
                #![trigger candidate_name(sanitized_stem(raw_stem@), ext@, k)]
                {
                    &&& k <= MAX_NUMBERED_CANDIDATES
                    &&& name@ == candidate_name(sanitized_stem(raw_stem@), ext@, k)
                    &&& is_taken.ensures((&name,), false)
                    &&& forall|j: nat|
                        j < k ==> answered_taken(
                            is_taken,
                            #[trigger] candidate_name(sanitized_stem(raw_stem@), ext@, j),
                        )
                },
            None => forall|j: nat|
                j <= MAX_NUMBERED_CANDIDATES ==> answered_taken(
                    is_taken,
                    #[trigger] candidate_name(sanitized_stem(raw_stem@), ext@, j),
                ),
        },
{
    let stem = sanitize_stem(raw_stem);
    let mut n: u32 = 0;
    while n <= MAX_NUMBERED_CANDIDATES
        invariant
            stem@ == sanitized_stem(raw_stem@),
            forall|s: &String| #[trigger] is_taken.requires((s,)),
            n <= MAX_NUMBERED_CANDIDATES + 1,
            forall|j: nat| j < n ==> answered_taken(is_taken, #[trigger] candidate_name(stem@, ext@, j)),
        decreases MAX_NUMBERED_CANDIDATES + 1 - n,
    {
        let name = candidate(stem.as_str(), ext, n);
        let taken = is_taken(&name);
        if !taken {
            return Some(name);
        }
        proof {
            assert(answered_taken(is_taken, candidate_name(stem@, ext@, n as nat)));
        }
        n += 1;
    }
    None
}

/// The sibling temporary file an output named `file_name` is first written
/// to, then renamed from: `.{file_name}.webp-tray.tmp`.
pub fn temp_file_name(file_name: &str) -> (res: String)
    ensures
        res@ == seq!['.'] + file_name@ + ".webp-tray.tmp"@,
{
    let mut res = String::new();
    res.push('.');
    res.append(file_name);
    res.append(".webp-tray.tmp");
    proof {
        assert(res@ =~= seq!['.'] + file_name@ + ".webp-tray.tmp"@);
    }
    res
}

/// The toast announcing a conversion: title `Converted to PNG|JPEG`, body
/// `original  →  new` (two spaces around the arrow).
pub fn notify_toast(orig_name: &str, new_name: &str, fmt: OutputFormat) -> (res: ToastRequest)
    ensures
        res.title@ == "Converted to "@ + fmt.label_spec(),
        res.body@ == orig_name@ + "  \u{2192}  "@ + new_name@,
        !res.long_duration,
{
    let mut title = String::from_str("Converted to ");
    title.append(fmt.label());
    let mut body = String::from_str(orig_name);
    body.append("  \u{2192}  ");
    body.append(new_name);
    info_toast(title.as_str(), body.as_str())
}

} // verus!
