//! Unicode facts the library needs: general categories and extended
//! grapheme clusters (read from outside crates), and the White_Space property.
use unicode_general_category::get_general_category;
use unicode_segmentation::UnicodeSegmentation;
use vstd::prelude::*;

verus! {

/// The two-letter abbreviation (`"Lu"`, `"Cc"`, ...) of the Unicode general
/// category of `c`, as tabulated by `unicode-general-category`.
pub uninterp spec fn general_category_abbreviation(c: char) -> Seq<char>;

/// The extended grapheme clusters of `s`, in order, as segmented by
/// `unicode-segmentation`.
pub uninterp spec fn extended_grapheme_clusters(s: Seq<char>) -> Seq<Seq<char>>;

/// Whether `c` has the Unicode White_Space property: U+0009..U+000D,
/// U+0020, U+0085, U+00A0, U+1680, U+2000..U+200A, U+2028, U+2029, U+202F,
/// U+205F and U+3000.
pub open spec fn unicode_white_space(c: char) -> bool {
    ||| '\u{0009}' <= c <= '\u{000D}'
    ||| c == ' '
    ||| c == '\u{0085}'
    ||| c == '\u{00A0}'
    ||| c == '\u{1680}'
    ||| '\u{2000}' <= c <= '\u{200A}'
    ||| c == '\u{2028}'
    ||| c == '\u{2029}'
    ||| c == '\u{202F}'
    ||| c == '\u{205F}'
    ||| c == '\u{3000}'
}

/// Calls `unicode_general_category::get_general_category(c).abbreviation()`.
/// Claimed: the result is the abbreviation named above, it has two letters,
/// and printable ASCII (U+0020..=U+007E) is never in a category of the
/// `C` group (the crate's table puts only U+0000..=U+001F and
/// U+007F..=U+009F of the ASCII/Latin-1 range in `Control`).
#[verifier::external_body]
pub fn category_abbreviation(c: char) -> (res: &'static str)
    ensures
        res@ == general_category_abbreviation(c),
        res@.len() == 2,
        ' ' <= c <= '~' ==> res@[0] != 'C',
{
    get_general_category(c).abbreviation()
}

/// Calls `UnicodeSegmentation::graphemes(s, true)` and collects the clusters.
/// Claimed: the clusters are the ones named above; each is non-empty and,
/// concatenated in order, they give back `s` (the iterator hands out
/// consecutive slices `s[start..next]` with `start < next`, from 0 to the end).
#[verifier::external_body]
pub fn graphemes<'a>(s: &'a str) -> (res: Vec<&'a str>)
    ensures
        res@.map_values(|g: &str| g@) == extended_grapheme_clusters(s@),
        res@.map_values(|g: &str| g@).flatten() == s@,
        forall|i: int| 0 <= i < res@.len() ==> (#[trigger] res@[i])@.len() > 0,
{
    s.graphemes(true).collect()
}

/// Whether `c` has the White_Space property (what `char::is_whitespace`
/// tests).
pub fn is_white_space(c: char) -> (res: bool)
    ensures
        res == unicode_white_space(c),
{
    ('\u{0009}' <= c && c <= '\u{000D}') || c == ' ' || c == '\u{0085}' || c == '\u{00A0}'
        || c == '\u{1680}' || ('\u{2000}' <= c && c <= '\u{200A}') || c == '\u{2028}' || c
        == '\u{2029}' || c == '\u{202F}' || c == '\u{205F}' || c == '\u{3000}'
}

/// `String::push` appends one character.
pub assume_specification[ String::push ](s: &mut String, ch: char)
    ensures
        final(s)@ == old(s)@.push(ch),
;

} // verus!
