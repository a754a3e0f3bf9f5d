//! What the Downloads watcher does with each file-system event.
use crate::notify::{error_toast, ToastRequest};
use crate::text::chars_of;
use vstd::prelude::*;

verus! {

/// Index of the last `'.'` in `s`, or -1 when it has none.
pub open spec fn last_dot_index(s: Seq<char>) -> int
    decreases s.len(),
{
    if s.len() == 0 {
        -1
    } else if s.last() == '.' {
        s.len() - 1
    } else {
        last_dot_index(s.drop_last())
    }
}

/// The extension of a file name as `Path::extension` finds it: what follows
/// the last `'.'`, unless that dot is the first character (a hidden file
/// such as `.webp` has none) or the name is `..`.
pub open spec fn extension(name: Seq<char>) -> Option<Seq<char>> {
    let d = last_dot_index(name);
    if name == seq!['.', '.'] || d <= 0 {
        None
    } else {
        Some(name.skip(d + 1))
    }
}

/// `e` is `webp` in any mix of ASCII case.
pub open spec fn is_webp_ext(e: Seq<char>) -> bool {
    &&& e.len() == 4
    &&& e[0] == 'w' || e[0] == 'W'
    &&& e[1] == 'e' || e[1] == 'E'
    &&& e[2] == 'b' || e[2] == 'B'
    &&& e[3] == 'p' || e[3] == 'P'
}

/// The ASCII lowercase of `c` (other characters are left alone).
pub open spec fn ascii_lower(c: char) -> char {
    if 'A' <= c <= 'Z' {
        ((c as u32) + 32) as char
    } else {
        c
    }
}

/// `a` and `b` are equal ignoring ASCII case, character by character.
pub open spec fn eq_ignore_ascii_case(a: Seq<char>, b: Seq<char>) -> bool {
    a.len() == b.len() && forall|i: int| 0 <= i < a.len() ==> ascii_lower(#[trigger] a[i])
        == ascii_lower(b[i])
}

/// `is_webp_ext` accepts exactly the spellings of `webp` in any ASCII case.
pub proof fn lemma_webp_ext_ignores_case(e: Seq<char>)
    ensures
        is_webp_ext(e) <==> eq_ignore_ascii_case(e, seq!['w', 'e', 'b', 'p']),
{
    let w = seq!['w', 'e', 'b', 'p'];
    if e.len() == 4 {
        assert(ascii_lower(w[0]) == 'w');
        assert(ascii_lower(w[1]) == 'e');
        assert(ascii_lower(w[2]) == 'b');
        assert(ascii_lower(w[3]) == 'p');
        lemma_lower_is(e[0], 'w', 'W');
        lemma_lower_is(e[1], 'e', 'E');
        lemma_lower_is(e[2], 'b', 'B');
        lemma_lower_is(e[3], 'p', 'P');
        if eq_ignore_ascii_case(e, w) {
            assert(ascii_lower(e[0]) == ascii_lower(w[0]));
            assert(ascii_lower(e[1]) == ascii_lower(w[1]));
            assert(ascii_lower(e[2]) == ascii_lower(w[2]));
            assert(ascii_lower(e[3]) == ascii_lower(w[3]));
        }
        if is_webp_ext(e) {
            assert forall|i: int| 0 <= i < e.len() implies ascii_lower(#[trigger] e[i])
                == ascii_lower(w[i]) by {
                if i == 0 {
                } else if i == 1 {
                } else if i == 2 {
                } else {
                }
            }
        }
    }
}

/// A character lowers to the lowercase letter `lower` exactly when it is
/// `lower` or its capital `upper`.
proof fn lemma_lower_is(c: char, lower: char, upper: char)
    requires
        'a' <= lower <= 'z',
        upper as u32 + 32 == lower as u32,
    ensures
        ascii_lower(c) == lower <==> (c == lower || c == upper),
{
    if 'A' <= c <= 'Z' {
        let l = ((c as u32) + 32) as char;
        assert(l as u32 == (c as u32) + 32);
        if l == lower {
            assert(c as u32 == upper as u32);
        }
    }
}

/// A name made of a non-empty stem, a dot and an extension without dots has
/// that extension; a name whose only dot is its first character (a hidden
/// file such as `.webp`) has none, nor has a name without dots.
pub proof fn lemma_extension_of(stem: Seq<char>, ext: Seq<char>)
    requires
        !ext.contains('.'),
    ensures
        stem.len() > 0 && stem + seq!['.'] + ext != seq!['.', '.'] ==> extension(
            stem + seq!['.'] + ext,
        ) == Some(ext),
        extension(seq!['.'] + ext) is None,
        extension(ext) is None,
{
    lemma_last_dot(Seq::<char>::empty(), ext);
    assert(Seq::<char>::empty() + seq!['.'] + ext == seq!['.'] + ext);
    lemma_no_dot(ext);
    let name = stem + seq!['.'] + ext;
    lemma_last_dot(stem, ext);
    assert(name.skip(stem.len() + 1int) =~= ext);
}

proof fn lemma_no_dot(s: Seq<char>)
    requires
        !s.contains('.'),
    ensures
        last_dot_index(s) == -1,
    decreases s.len(),
{
    if s.len() > 0 {
        let t = s.drop_last();
        assert(s[s.len() - 1] != '.');
        assert(!t.contains('.')) by {
            if t.contains('.') {
                let j = choose|j: int| 0 <= j < t.len() && t[j] == '.';
                assert(s[j] == '.');
            }
        }
        lemma_no_dot(t);
    }
}

proof fn lemma_last_dot(stem: Seq<char>, ext: Seq<char>)
    requires
        !ext.contains('.'),
    ensures
        last_dot_index(stem + seq!['.'] + ext) == stem.len(),
    decreases ext.len(),
{
    let name = stem + seq!['.'] + ext;
    if ext.len() == 0 {
        assert(name.last() == '.');
    } else {
        let shorter = ext.drop_last();
        assert(!shorter.contains('.')) by {
            if shorter.contains('.') {
                let j = choose|j: int| 0 <= j < shorter.len() && shorter[j] == '.';
                assert(ext[j] == '.');
            }
        }
        lemma_last_dot(stem, shorter);
        assert(name.drop_last() =~= stem + seq!['.'] + shorter);
        assert(name.last() == ext.last());
        assert(ext[ext.len() - 1] != '.');
    }
}

/// Whether a file named `file_name` is a WebP image by its extension,
/// compared ignoring ASCII case.
pub fn is_webp(file_name: &str) -> (res: bool)
    ensures
        res == (extension(file_name@) matches Some(e) && is_webp_ext(e)),
        res == (extension(file_name@) matches Some(e) && eq_ignore_ascii_case(
            e,
            seq!['w', 'e', 'b', 'p'],
        )),
{
    proof {
        if let Some(e) = extension(file_name@) {
            lemma_webp_ext_ignores_case(e);
        }
    }
    let cs = chars_of(file_name);
    let n = cs.len();
    // find the last dot
    let mut i: usize = n;
    assert(cs@.take(n as int) == cs@);
    while i > 0 && cs[i - 1] != '.'
        invariant
            i <= n == cs@.len(),
            last_dot_index(cs@) == last_dot_index(cs@.take(i as int)),
        decreases i,
    {
        proof {
            assert(cs@.take(i as int).drop_last() == cs@.take(i - 1));
        }
        i -= 1;
    }
    proof {
        if i > 0 {
            assert(cs@.take(i as int).last() == '.');
        } else {
            assert(cs@.take(0) == Seq::<char>::empty());
        }
    }
    // here last_dot_index == i - 1
    if i <= 1 || (n == 2 && cs[0] == '.' && cs[1] == '.') {
        proof {
            if n == 2 && cs@[0] == '.' && cs@[1] == '.' {
                assert(cs@ =~= seq!['.', '.']);
            }
        }
        return false;
    }
    proof {
        if cs@ =~= seq!['.', '.'] {
            assert(cs@[0] == '.' && cs@[1] == '.');
        }
    }
    if n - i != 4 {
        return false;
    }
    let (a, b, c, d) = (cs[i], cs[i + 1], cs[i + 2], cs[i + 3]);
    (a == 'w' || a == 'W') && (b == 'e' || b == 'E') && (c == 'b' || c == 'B') && (d == 'p' || d
        == 'P')
}

/// What the watcher does with one path of an event.
#[derive(Debug, Clone, Copy, PartialEq, Eq, Structural)]
pub enum WatchAction {
    /// The path is the configuration file: reload it.
    ReloadConfig,
    /// A `.webp` was created or modified: queue its conversion.
    Convert,
    /// Anything else.
    Ignore,
}

/// The watcher's rule for one path of an event: changes to the configuration
/// file reload it (whatever the event kind); created or modified `.webp`
/// files are converted; everything else is ignored.
pub fn event_action(is_config_file: bool, is_create_or_modify: bool, file_name: &str) -> (res: WatchAction)
    ensures
        res == if is_config_file {
            WatchAction::ReloadConfig
        } else if is_create_or_modify && (extension(file_name@) matches Some(e) && is_webp_ext(e)) {
            WatchAction::Convert
        } else {
            WatchAction::Ignore
        },
        res == WatchAction::Convert <==> !is_config_file && is_create_or_modify && (extension(
            file_name@,
        ) matches Some(e) && eq_ignore_ascii_case(e, seq!['w', 'e', 'b', 'p'])),
{
    if is_config_file {
        return WatchAction::ReloadConfig;
    }
    if !is_create_or_modify {
        return WatchAction::Ignore;
    }
    if !is_webp(file_name) {
        return WatchAction::Ignore;
    }
    WatchAction::Convert
}

/// The toast for a configuration file that failed to load; the previous
/// values stay in force.
pub fn config_error_toast(error: &str) -> (res: ToastRequest)
    ensures
        res.title@ == "Config has an error"@,
        res.body@ == "Reverted to last known-good values. "@ + error@,
        res.long_duration,
{
    let mut body = String::from_str("Reverted to last known-good values. ");
    body.append(error);
    error_toast("Config has an error", body.as_str())
}

} // verus!
