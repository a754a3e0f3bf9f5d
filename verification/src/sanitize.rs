//! Turning arbitrary download names into safe Windows file stems, and
//! shortening text for display, both measured in grapheme clusters.
use crate::text::{chars_of, concat_range, lemma_trim_by_range, string_from_range, trim_by};
use crate::unicode::{
    category_abbreviation, extended_grapheme_clusters, general_category_abbreviation, graphemes,
    is_white_space, unicode_white_space,
};
use vstd::prelude::*;

verus! {

/// Application User Model ID. It must match the AUMID on the installed
/// Start menu shortcut for toasts to be attributed to "webp-tray".
pub const AUMID: &'static str = "vivlim.WebpTray";

/// Most grapheme clusters a sanitized stem keeps, so that a stem plus its
/// folder and a disambiguation suffix stays under the Windows path limit.
pub const MAX_STEM_GRAPHEMES: usize = 100;

/// Characters Windows refuses in file names.
pub open spec fn is_windows_reserved_char(c: char) -> bool {
    c == '<' || c == '>' || c == ':' || c == '"' || c == '/' || c == '\\' || c == '|' || c == '?'
        || c == '*'
}

/// Whether a general-category abbreviation names Control (Cc), Format (Cf),
/// Surrogate (Cs), Private Use (Co) or Unassigned (Cn).
pub open spec fn is_tofu_category(abbr: Seq<char>) -> bool {
    &&& abbr.len() == 2
    &&& abbr[0] == 'C'
    &&& abbr[1] == 'c' || abbr[1] == 'f' || abbr[1] == 's' || abbr[1] == 'o' || abbr[1] == 'n'
}

/// Characters that almost never have a glyph ("tofu"): those of the five
/// categories above, except ZERO WIDTH JOINER (needed by emoji sequences)
/// and ZERO WIDTH NON-JOINER (needed by Persian, Arabic and Indic text).
pub open spec fn is_unrenderable_char(c: char) -> bool {
    &&& c != '\u{200D}'
    &&& c != '\u{200C}'
    &&& is_tofu_category(general_category_abbreviation(c))
}

/// Characters dropped from a stem.
pub open spec fn is_stripped_char(c: char) -> bool {
    is_windows_reserved_char(c) || is_unrenderable_char(c)
}

/// `s` with stripped characters removed, leading whitespace removed and
/// every run of whitespace replaced by a single ASCII space.
pub open spec fn cleaned(s: Seq<char>) -> Seq<char>
    decreases s.len(),
{
    if s.len() == 0 {
        Seq::empty()
    } else {
        let prev = cleaned(s.drop_last());
        let c = s.last();
        if is_stripped_char(c) {
            prev
        } else if unicode_white_space(c) {
            if prev.len() == 0 || prev.last() == ' ' {
                prev
            } else {
                prev.push(' ')
            }
        } else {
            prev.push(c)
        }
    }
}

/// Characters trimmed from both ends of a stem: Windows silently drops
/// trailing dots and spaces.
pub open spec fn is_edge_char(c: char) -> bool {
    c == ' ' || c == '.'
}

/// The edge characters as a predicate.
pub open spec fn edge_pred() -> spec_fn(char) -> bool {
    |c: char| is_edge_char(c)
}

/// `s` without its leading and trailing spaces and dots.
pub open spec fn trim_edges(s: Seq<char>) -> Seq<char> {
    trim_by(s, edge_pred())
}

/// The first `max` grapheme clusters of `s` (all of `s` if it has no more).
pub open spec fn capped(s: Seq<char>, max: nat) -> Seq<char> {
    let g = extended_grapheme_clusters(s);
    if g.len() <= max {
        s
    } else {
        g.take(max as int).flatten()
    }
}

/// `c` equals the ASCII letter whose two cases are `upper` and `lower`.
pub open spec fn ci(c: char, upper: char, lower: char) -> bool {
    c == upper || c == lower
}

/// `s` is, ignoring ASCII case, one of the DOS device names CON, PRN, AUX,
/// NUL, COM1..COM9 or LPT1..LPT9.
pub open spec fn is_dos_reserved_name(s: Seq<char>) -> bool {
    ||| s.len() == 3 && ci(s[0], 'C', 'c') && ci(s[1], 'O', 'o') && ci(s[2], 'N', 'n')
    ||| s.len() == 3 && ci(s[0], 'P', 'p') && ci(s[1], 'R', 'r') && ci(s[2], 'N', 'n')
    ||| s.len() == 3 && ci(s[0], 'A', 'a') && ci(s[1], 'U', 'u') && ci(s[2], 'X', 'x')
    ||| s.len() == 3 && ci(s[0], 'N', 'n') && ci(s[1], 'U', 'u') && ci(s[2], 'L', 'l')
    ||| s.len() == 4 && ci(s[0], 'C', 'c') && ci(s[1], 'O', 'o') && ci(s[2], 'M', 'm') && '1'
        <= s[3] <= '9'
    ||| s.len() == 4 && ci(s[0], 'L', 'l') && ci(s[1], 'P', 'p') && ci(s[2], 'T', 't') && '1'
        <= s[3] <= '9'
}

/// The stem that `sanitize_stem` makes of `s`: capping can end the stem
/// inside a run of spaces or dots, so it is trimmed again after capping.
pub open spec fn sanitized_stem(s: Seq<char>) -> Seq<char> {
    let c = trim_edges(capped(trim_edges(cleaned(s)), MAX_STEM_GRAPHEMES as nat));
    if c.len() == 0 {
        fallback_stem()
    } else if is_dos_reserved_name(c) {
        seq!['_'] + c
    } else {
        c
    }
}

/// What `ellipsize_left` makes of `s`: `s` itself if it has at most `max`
/// grapheme clusters; else an ellipsis followed by its last `max - 1`
/// clusters; nothing at all when `max` is 0.
pub open spec fn ellipsized_left(s: Seq<char>, max: nat) -> Seq<char> {
    let g = extended_grapheme_clusters(s);
    if g.len() <= max {
        s
    } else if max == 0 {
        Seq::empty()
    } else {
        seq!['\u{2026}'] + g.skip(g.len() - (max - 1)).flatten()
    }
}

/// The letters of the fallback stem `image`.
pub open spec fn fallback_stem() -> Seq<char> {
    seq!['i', 'm', 'a', 'g', 'e']
}

/// A character a sanitized stem may hold: never one Windows reserves; of the
/// White_Space characters only the plain space; and otherwise `_`, a letter
/// of the fallback stem, or a character of the `input` that renders.
pub open spec fn stem_char_ok(c: char, input: Seq<char>) -> bool {
    &&& !is_windows_reserved_char(c)
    &&& unicode_white_space(c) ==> c == ' '
    &&& c == ' ' || c == '_' || fallback_stem().contains(c) || (input.contains(c)
        && !is_unrenderable_char(c))
}

/// No two neighbouring characters of `s` are both spaces.
pub open spec fn no_double_space(s: Seq<char>) -> bool {
    forall|i: int| 0 <= i < s.len() - 1 ==> !(s[i] == ' ' && #[trigger] s[i + 1] == ' ')
}

/// Whether `c` is one of `< > : " / \ | ? *`.
pub fn is_windows_reserved(c: char) -> (res: bool)
    ensures
        res == is_windows_reserved_char(c),
{
    c == '<' || c == '>' || c == ':' || c == '"' || c == '/' || c == '\\' || c == '|' || c == '?'
        || c == '*'
}

/// Whether `c` would render as "tofu" and is dropped from stems.
pub fn is_unrenderable(c: char) -> (res: bool)
    ensures
        res == is_unrenderable_char(c),
{
    if c == '\u{200D}' || c == '\u{200C}' {
        return false;
    }
    let abbr = category_abbreviation(c);
    let major = abbr.get_char(0);
    let minor = abbr.get_char(1);
    major == 'C' && (minor == 'c' || minor == 'f' || minor == 's' || minor == 'o' || minor == 'n')
}


/// The characters of `s` that survive stripping, with whitespace collapsed.
fn clean_chars(s: &str) -> (res: Vec<char>)
    ensures
        res@ == cleaned(s@),
        forall|i: int| 0 <= i < res@.len() ==> stem_char_ok(#[trigger] res@[i], s@),
        res@.len() > 0 ==> res@[0] != ' ',
        no_double_space(res@),
{
    let cs = chars_of(s);
    let mut out: Vec<char> = Vec::new();
    let mut last_was_space = false;
    let mut i: usize = 0;
    while i < cs.len()
        invariant
            i <= cs@.len(),
            cs@ == s@,
            out@ == cleaned(cs@.take(i as int)),
            last_was_space == (out@.len() > 0 && out@.last() == ' '),
            forall|k: int| 0 <= k < out@.len() ==> stem_char_ok(#[trigger] out@[k], s@),
            out@.len() > 0 ==> out@[0] != ' ',
            no_double_space(out@),
        decreases cs@.len() - i,
    {
        let ch = cs[i];
        proof {
            assert(cs@.take(i + 1).drop_last() == cs@.take(i as int));
            assert(cs@.take(i + 1).last() == ch);
            assert(s@[i as int] == ch);
        }
        i += 1;
        if is_windows_reserved(ch) {
            continue;
        }
        if is_unrenderable(ch) {
            continue;
        }
        if is_white_space(ch) {
            if !last_was_space && out.len() > 0 {
                out.push(' ');
                last_was_space = true;
            }
            continue;
        }
        last_was_space = false;
        out.push(ch);
    }
    assert(cs@.take(cs@.len() as int) == cs@);
    out
}

/// `cs` without its leading and trailing spaces and dots.
fn trim_edge_chars(cs: &Vec<char>) -> (res: (String, Ghost<int>))
    ensures
        res.0@ == trim_edges(cs@),
        0 <= res.1@ && res.1@ + res.0@.len() <= cs@.len(),
        res.0@ == cs@.subrange(res.1@, res.1@ + res.0@.len()),
        res.0@.len() > 0 ==> !is_edge_char(res.0@[0]) && !is_edge_char(res.0@.last()),
        res.0@.len() == 0 ==> forall|k: int| 0 <= k < cs@.len() ==> is_edge_char(#[trigger] cs@[k]),
{
    let n = cs.len();
    let mut a: usize = 0;
    while a < n && (cs[a] == ' ' || cs[a] == '.')
        invariant
            a <= n == cs@.len(),
            forall|k: int| 0 <= k < a ==> is_edge_char(#[trigger] cs@[k]),
        decreases n - a,
    {
        a += 1;
    }
    let mut b: usize = n;
    while b > a && (cs[b - 1] == ' ' || cs[b - 1] == '.')
        invariant
            a <= b <= n == cs@.len(),
            forall|k: int| b <= k < n ==> is_edge_char(#[trigger] cs@[k]),
        decreases b,
    {
        b -= 1;
    }
    proof {
        lemma_trim_by_range(cs@, edge_pred(), a as int, b as int);
    }
    (string_from_range(cs, a, b), Ghost(a as int))
}

/// `g.take(k)` flattens to a prefix of what `g` flattens to.
proof fn lemma_flatten_take_is_prefix(g: Seq<Seq<char>>, k: int)
    requires
        0 <= k <= g.len(),
    ensures
        g.take(k).flatten().len() <= g.flatten().len(),
        g.take(k).flatten() == g.flatten().take(g.take(k).flatten().len() as int),
        g.skip(k).flatten() == g.flatten().skip(g.take(k).flatten().len() as int),
{
    assert(g == g.take(k) + g.skip(k));
    vstd::seq_lib::lemma_flatten_concat(g.take(k), g.skip(k));
    let x = g.take(k).flatten();
    let y = g.skip(k).flatten();
    assert((x + y).take(x.len() as int) =~= x);
    assert((x + y).skip(x.len() as int) =~= y);
}

/// A flattened sequence of non-empty clusters is empty only if there are none.
proof fn lemma_flatten_nonempty(g: Seq<Seq<char>>)
    requires
        g.len() > 0,
        g[0].len() > 0,
    ensures
        g.flatten().len() > 0,
{
    assert(g.flatten() == g.first() + g.drop_first().flatten());
}

/// The first `max` grapheme clusters of `s`; all of `s` if it has no more.
pub fn cap_graphemes(s: &str, max: usize) -> (res: String)
    ensures
        res@ == capped(s@, max as nat),
        res@.len() <= s@.len(),
        res@ == s@.take(res@.len() as int),
        max > 0 && s@.len() > 0 ==> res@.len() > 0,
        // the result is the first `max` whole clusters of `s`, or all of them
        res@ == extended_grapheme_clusters(s@).subrange(
            0,
            if extended_grapheme_clusters(s@).len() <= max {
                extended_grapheme_clusters(s@).len() as int
            } else {
                max as int
            },
        ).flatten(),
{
    let g = graphemes(s);
    let ghost views = g@.map_values(|x: &str| x@);
    if g.len() <= max {
        assert(views.subrange(0, views.len() as int) == views);
        return String::from_str(s);
    }
    let res = concat_range(&g, 0, max);
    proof {
        assert(views.subrange(0, max as int) == views.take(max as int));
        lemma_flatten_take_is_prefix(views, max as int);
        if max > 0 {
            assert(views.take(max as int)[0] == views[0]);
            assert(g@[0]@.len() > 0);
            lemma_flatten_nonempty(views.take(max as int));
        }
    }
    res
}

/// Whether `s` is a DOS device name (CON, PRN, AUX, NUL, COM1..9, LPT1..9),
/// ignoring ASCII case: such names cannot exist as files whatever their
/// extension.
pub fn is_dos_reserved(s: &str) -> (res: bool)
    ensures
        res == is_dos_reserved_name(s@),
{
    let cs = chars_of(s);
    if cs.len() == 3 {
        let (a, b, c) = (cs[0], cs[1], cs[2]);
        (a == 'C' || a == 'c') && (b == 'O' || b == 'o') && (c == 'N' || c == 'n')
            || (a == 'P' || a == 'p') && (b == 'R' || b == 'r') && (c == 'N' || c == 'n')
            || (a == 'A' || a == 'a') && (b == 'U' || b == 'u') && (c == 'X' || c == 'x')
            || (a == 'N' || a == 'n') && (b == 'U' || b == 'u') && (c == 'L' || c == 'l')
    } else if cs.len() == 4 {
        let (a, b, c, d) = (cs[0], cs[1], cs[2], cs[3]);
        let digit = '1' <= d && d <= '9';
        (a == 'C' || a == 'c') && (b == 'O' || b == 'o') && (c == 'M' || c == 'm') && digit
            || (a == 'L' || a == 'l') && (b == 'P' || b == 'p') && (c == 'T' || c == 't') && digit
    } else {
        false
    }
}

/// A character kept as it is: neither dropped nor whitespace.
pub open spec fn is_kept_char(c: char) -> bool {
    !is_stripped_char(c) && !unicode_white_space(c)
}

/// Cleaning keeps every character that is neither dropped nor whitespace,
/// in order; the only other characters it writes are single spaces.
pub proof fn lemma_cleaned_keeps_order(s: Seq<char>)
    ensures
        cleaned(s).filter(|c: char| c != ' ') == s.filter(|c: char| is_kept_char(c)),
    decreases s.len(),
{
    reveal(Seq::filter);
    if s.len() > 0 {
        let t = s.drop_last();
        lemma_cleaned_keeps_order(t);
        let prev = cleaned(t);
        let c = s.last();
        if !is_stripped_char(c) && unicode_white_space(c) && !(prev.len() == 0 || prev.last()
            == ' ') {
            assert(cleaned(s) == prev.push(' '));
            assert(prev.push(' ').drop_last() == prev);
        } else if !is_stripped_char(c) && !unicode_white_space(c) {
            assert(cleaned(s) == prev.push(c));
            assert(prev.push(c).drop_last() == prev);
            assert(c != ' ');
        }
    }
}

/// A stem with nothing to drop or collapse is left as it is by cleaning.
pub proof fn lemma_cleaned_identity(s: Seq<char>)
    requires
        forall|i: int| 0 <= i < s.len() ==> is_kept_char(#[trigger] s[i]),
    ensures
        cleaned(s) == s,
    decreases s.len(),
{
    if s.len() > 0 {
        let t = s.drop_last();
        assert forall|i: int| 0 <= i < t.len() implies is_kept_char(#[trigger] t[i]) by {
            assert(t[i] == s[i]);
        }
        lemma_cleaned_identity(t);
        assert(is_kept_char(s[s.len() - 1]));
        assert(t.push(s.last()) == s);
    }
}

/// Kept characters after a cleaned prefix are appended unchanged.
proof fn lemma_cleaned_append_kept(x: Seq<char>, b: Seq<char>)
    requires
        forall|i: int| 0 <= i < b.len() ==> is_kept_char(#[trigger] b[i]),
    ensures
        cleaned(x + b) == cleaned(x) + b,
    decreases b.len(),
{
    if b.len() == 0 {
        assert(x + b == x);
        assert(cleaned(x) + b == cleaned(x));
    } else {
        let c = b.drop_last();
        assert forall|i: int| 0 <= i < c.len() implies is_kept_char(#[trigger] c[i]) by {
            assert(c[i] == b[i]);
        }
        lemma_cleaned_append_kept(x, c);
        assert((x + b).drop_last() == x + c);
        assert((x + b).last() == b.last());
        assert(is_kept_char(b[b.len() - 1]));
        assert(cleaned(x) + b == (cleaned(x) + c).push(b.last()));
    }
}

/// After a cleaned prefix, a run of whitespace that is not dropped adds at
/// most one space: none at the start or after a space, else exactly one.
proof fn lemma_cleaned_append_space_run(x: Seq<char>, w: Seq<char>)
    requires
        w.len() > 0,
        forall|i: int|
            0 <= i < w.len() ==> unicode_white_space(#[trigger] w[i]) && !is_stripped_char(w[i]),
    ensures
        cleaned(x + w) == if cleaned(x).len() == 0 || cleaned(x).last() == ' ' {
            cleaned(x)
        } else {
            cleaned(x).push(' ')
        },
    decreases w.len(),
{
    let v = w.drop_last();
    assert((x + w).drop_last() == x + v);
    assert((x + w).last() == w.last());
    assert(unicode_white_space(w[w.len() - 1]) && !is_stripped_char(w[w.len() - 1]));
    if v.len() == 0 {
        assert(x + v == x);
    } else {
        assert forall|i: int| 0 <= i < v.len() implies unicode_white_space(#[trigger] v[i])
            && !is_stripped_char(v[i]) by {
            assert(v[i] == w[i]);
        }
        lemma_cleaned_append_space_run(x, v);
    }
}

/// Words separated by a run of (renderable) whitespace come out separated
/// by exactly one space, and whitespace before the first word is dropped.
pub proof fn lemma_cleaned_collapses_whitespace(a: Seq<char>, w: Seq<char>, b: Seq<char>)
    requires
        w.len() > 0,
        forall|i: int| 0 <= i < a.len() ==> is_kept_char(#[trigger] a[i]),
        forall|i: int|
            0 <= i < w.len() ==> unicode_white_space(#[trigger] w[i]) && !is_stripped_char(w[i]),
        forall|i: int| 0 <= i < b.len() ==> is_kept_char(#[trigger] b[i]),
    ensures
        a.len() > 0 ==> cleaned(a + w + b) == a + seq![' '] + b,
        a.len() == 0 ==> cleaned(a + w + b) == b,
{
    lemma_cleaned_identity(a);
    lemma_cleaned_append_space_run(a, w);
    lemma_cleaned_append_kept(a + w, b);
    if a.len() > 0 {
        assert(a.last() == a[a.len() - 1]);
        assert(is_kept_char(a[a.len() - 1]));
        assert(a.push(' ') + b == a + seq![' '] + b);
    } else {
        assert(cleaned(a) == Seq::<char>::empty());
        assert(Seq::<char>::empty() + b == b);
    }
}

/// A stem that needs no change is kept exactly: every character kept as it
/// is, no space or dot at either end, at most `MAX_STEM_GRAPHEMES` grapheme
/// clusters and not a DOS device name. A DOS device name that is otherwise
/// clean only gets the `_` prefix.
pub proof fn lemma_clean_stem_unchanged(s: Seq<char>)
    requires
        s.len() > 0,
        forall|i: int| 0 <= i < s.len() ==> is_kept_char(#[trigger] s[i]),
        !is_edge_char(s[0]),
        !is_edge_char(s.last()),
        extended_grapheme_clusters(s).len() <= MAX_STEM_GRAPHEMES,
    ensures
        !is_dos_reserved_name(s) ==> sanitized_stem(s) == s,
        is_dos_reserved_name(s) ==> sanitized_stem(s) == seq!['_'] + s,
{
    lemma_cleaned_identity(s);
    lemma_trim_by_range(s, edge_pred(), 0, s.len() as int);
    assert(s.subrange(0, s.len() as int) == s);
}

/// Sanitizes a file-name stem (no extension): drops the characters Windows
/// reserves and those that render as "tofu", collapses whitespace runs to
/// one space, keeps at most `MAX_STEM_GRAPHEMES` grapheme clusters, trims
/// spaces and dots from both ends, falls back to `"image"` when nothing is
/// left, and prefixes `_` to a DOS device name.
pub fn sanitize_stem(input: &str) -> (res: String)
    ensures
        res@ == sanitized_stem(input@),
        res@.len() > 0,
        !is_dos_reserved_name(res@),
        !is_edge_char(res@[0]),
        !is_edge_char(res@.last()),
        no_double_space(res@),
        forall|i: int| 0 <= i < res@.len() ==> stem_char_ok(#[trigger] res@[i], input@),
        // a stem that needs no change is returned unchanged
        ({
            &&& input@.len() > 0
            &&& forall|i: int| 0 <= i < input@.len() ==> is_kept_char(#[trigger] input@[i])
            &&& !is_edge_char(input@[0])
            &&& !is_edge_char(input@.last())
            &&& extended_grapheme_clusters(input@).len() <= MAX_STEM_GRAPHEMES
        }) ==> res@ == if is_dos_reserved_name(input@) {
            seq!['_'] + input@
        } else {
            input@
        },
{
    proof {
        if input@.len() > 0 && (forall|i: int| 0 <= i < input@.len() ==> is_kept_char(#[trigger] input@[i]))
            && !is_edge_char(input@[0]) && !is_edge_char(input@.last())
            && extended_grapheme_clusters(input@).len() <= MAX_STEM_GRAPHEMES {
            lemma_clean_stem_unchanged(input@);
        }
    }
    let out = clean_chars(input);
    let (trimmed, Ghost(offset)) = trim_edge_chars(&out);
    proof {
        let t = trimmed@;
        assert forall|i: int| 0 <= i < t.len() implies #[trigger] t[i] == out@[offset + i] by {}
        assert forall|i: int| 0 <= i < t.len() - 1 implies !(t[i] == ' ' && #[trigger] t[i + 1] == ' ') by {
            assert(t[i] == out@[offset + i] && t[i + 1] == out@[offset + i + 1]);
        }
        assert forall|i: int| 0 <= i < t.len() implies stem_char_ok(#[trigger] t[i], input@) by {
            assert(t[i] == out@[offset + i]);
        }
    }
    let capped_stem = cap_graphemes(trimmed.as_str(), MAX_STEM_GRAPHEMES);
    let capped_chars = chars_of(capped_stem.as_str());
    proof {
        let c = capped_chars@;
        let t = trimmed@;
        assert forall|i: int| 0 <= i < c.len() implies #[trigger] c[i] == t[i] by {
            assert(c[i] == t.take(c.len() as int)[i]);
        }
    }
    let (stem, Ghost(start)) = trim_edge_chars(&capped_chars);
    proof {
        let c = capped_chars@;
        let t = trimmed@;
        let r = stem@;
        assert forall|i: int| 0 <= i < r.len() implies #[trigger] r[i] == t[start + i] by {
            assert(r[i] == c[start + i]);
        }
        assert forall|i: int| 0 <= i < r.len() - 1 implies !(r[i] == ' ' && #[trigger] r[i + 1] == ' ') by {
            assert(r[i] == t[start + i] && r[i + 1] == t[start + i + 1]);
        }
        assert forall|i: int| 0 <= i < r.len() implies stem_char_ok(#[trigger] r[i], input@) by {
            assert(r[i] == t[start + i]);
        }
        if r.len() == 0 && c.len() > 0 {
            assert(c[0] == t[0]);
            assert(is_edge_char(c[0]));
        }
    }
    if stem.as_str().unicode_len() == 0 {
        let res = String::from_str("image");
        proof {
            reveal_strlit("image");
            assert(res@ =~= fallback_stem());
            assert forall|i: int| 0 <= i < res@.len() implies stem_char_ok(#[trigger] res@[i], input@) by {
                assert(fallback_stem()[i] == res@[i]);
            }
        }
        return res;
    }
    if is_dos_reserved(stem.as_str()) {
        let mut res = String::new();
        res.push('_');
        res.append(stem.as_str());
        proof {
            let c = stem@;
            assert(res@ =~= seq!['_'] + c);
            assert(res@.last() == c.last());
            assert forall|i: int| 0 <= i < res@.len() - 1 implies !(res@[i] == ' ' && #[trigger] res@[i
                + 1] == ' ') by {
                if i > 0 {
                    assert(res@[i] == c[i - 1] && res@[i + 1] == c[i]);
                }
            }
            assert forall|i: int| 0 <= i < res@.len() implies stem_char_ok(#[trigger] res@[i], input@) by {
                if i > 0 {
                    assert(res@[i] == c[i - 1]);
                }
            }
        }
        return res;
    }
    stem
}

/// Shortens `s` to at most `max_chars` grapheme clusters for display: when
/// it is longer, keeps its last `max_chars - 1` clusters behind an ellipsis
/// (with no room at all, nothing).
/// Counting clusters means no multi-code-point glyph is ever cut in half.
pub fn ellipsize_left(s: &str, max_chars: usize) -> (res: String)
    ensures
        res@ == ellipsized_left(s@, max_chars as nat),
        max_chars == 0 ==> res@.len() == 0,
        res@ == s@ || max_chars == 0 || {
            &&& res@.len() > 0
            &&& res@[0] == '\u{2026}'
            &&& res@.len() - 1 < s@.len()
            &&& res@.drop_first() == s@.skip(s@.len() - (res@.len() - 1))
        },
        // at most `max_chars` clusters: unchanged; more: an ellipsis and the
        // last `max_chars - 1` whole clusters
        extended_grapheme_clusters(s@).len() <= max_chars ==> res@ == s@,
        extended_grapheme_clusters(s@).len() > max_chars > 0 ==> res@ == seq!['\u{2026}']
            + extended_grapheme_clusters(s@).subrange(
            extended_grapheme_clusters(s@).len() - (max_chars - 1),
            extended_grapheme_clusters(s@).len() as int,
        ).flatten(),
{
    let g = graphemes(s);
    let ghost views = g@.map_values(|x: &str| x@);
    if g.len() <= max_chars {
        return String::from_str(s);
    }
    if max_chars == 0 {
        return String::new();
    }
    let kept = max_chars - 1;
    let start = g.len() - kept;
    let suffix = concat_range(&g, start, g.len());
    let mut res = String::new();
    res.push('\u{2026}');
    res.append(suffix.as_str());
    proof {
        assert(views.subrange(start as int, views.len() as int) == views.skip(start as int));
        lemma_flatten_take_is_prefix(views, start as int);
        assert(views.take(start as int)[0] == views[0]);
        assert(g@[0]@.len() > 0);
        lemma_flatten_nonempty(views.take(start as int));
        assert(res@.drop_first() =~= suffix@);
    }
    res
}

} // verus!
