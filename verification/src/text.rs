//! Small conversions between `&str`, `String` and `Vec<char>`.
use vstd::prelude::*;

verus! {

/// The characters of `s`, in order.
pub fn chars_of(s: &str) -> (res: Vec<char>)
    ensures
        res@ == s@,
{
    let mut res: Vec<char> = Vec::new();
    for c in it: s.chars()
        invariant
            it.seq() == s@,
            res@ == it.seq().take(it.index() as int),
    {
        res.push(c);
    }
    res
}

/// The string made of `cs[from..to]`.
pub fn string_from_range(cs: &Vec<char>, from: usize, to: usize) -> (res: String)
    requires
        from <= to <= cs@.len(),
    ensures
        res@ == cs@.subrange(from as int, to as int),
{
    let mut res = String::new();
    let mut i = from;
    while i < to
        invariant
            from <= i <= to <= cs@.len(),
            res@ == cs@.subrange(from as int, i as int),
        decreases to - i,
    {
        res.push(cs[i]);
        assert(cs@.subrange(from as int, i + 1) == cs@.subrange(from as int, i as int).push(cs@[i as int]));
        i += 1;
    }
    res
}

/// The concatenation of `parts[from..to]`.
pub fn concat_range(parts: &Vec<&str>, from: usize, to: usize) -> (res: String)
    requires
        from <= to <= parts@.len(),
    ensures
        res@ == parts@.map_values(|g: &str| g@).subrange(from as int, to as int).flatten(),
{
    let ghost views = parts@.map_values(|g: &str| g@);
    let mut res = String::new();
    let mut i = from;
    while i < to
        invariant
            from <= i <= to <= parts@.len(),
            views == parts@.map_values(|g: &str| g@),
            res@ == views.subrange(from as int, i as int).flatten(),
        decreases to - i,
    {
        res.append(parts[i]);
        proof {
            assert(views.subrange(from as int, i + 1) == views.subrange(from as int, i as int).push(
                views[i as int],
            ));
            views.subrange(from as int, i as int).lemma_flatten_push(views[i as int]);
        }
        i += 1;
    }
    res
}

/// Whether `a` and `b` hold the same characters.
pub fn str_equal(a: &str, b: &str) -> (res: bool)
    ensures
        res == (a@ == b@),
{
    let n = a.unicode_len();
    if n != b.unicode_len() {
        return false;
    }
    let ac = chars_of(a);
    let bc = chars_of(b);
    let mut i: usize = 0;
    while i < n
        invariant
            n == ac@.len() == bc@.len(),
            ac@ == a@,
            bc@ == b@,
            i <= n,
            forall|k: int| 0 <= k < i ==> ac@[k] == bc@[k],
        decreases n - i,
    {
        if ac[i] != bc[i] {
            return false;
        }
        i += 1;
    }
    assert(a@ =~= b@);
    true
}

/// `s` without the characters satisfying `p` at either end.
pub open spec fn trim_by(s: Seq<char>, p: spec_fn(char) -> bool) -> Seq<char>
    decreases s.len(),
{
    if s.len() == 0 {
        s
    } else if p(s[0]) {
        trim_by(s.drop_first(), p)
    } else if p(s.last()) {
        trim_by(s.drop_last(), p)
    } else {
        s
    }
}

/// `trim_by(s, p)` is `s[a..b]` when `a` and `b` bound the characters of `s`
/// that do not satisfy `p`.
pub proof fn lemma_trim_by_range(s: Seq<char>, p: spec_fn(char) -> bool, a: int, b: int)
    requires
        0 <= a <= b <= s.len(),
        forall|k: int| 0 <= k < a ==> p(#[trigger] s[k]),
        forall|k: int| b <= k < s.len() ==> p(#[trigger] s[k]),
        a < b ==> !p(s[a]) && !p(s[b - 1]),
    ensures
        trim_by(s, p) == s.subrange(a, b),
    decreases s.len(),
{
    if s.len() == 0 {
        assert(s.subrange(a, b) =~= s);
    } else if p(s[0]) {
        let t = s.drop_first();
        if a == 0 {
            assert(a == b);
            lemma_trim_by_range(t, p, 0, 0);
            assert(s.subrange(a, b) =~= t.subrange(0, 0));
        } else {
            assert forall|k: int| 0 <= k < a - 1 implies p(#[trigger] t[k]) by {
                assert(t[k] == s[k + 1]);
            }
            assert forall|k: int| b - 1 <= k < t.len() implies p(#[trigger] t[k]) by {
                assert(t[k] == s[k + 1]);
            }
            lemma_trim_by_range(t, p, a - 1, b - 1);
            assert(s.subrange(a, b) =~= t.subrange(a - 1, b - 1));
        }
    } else if p(s.last()) {
        let t = s.drop_last();
        assert(b < s.len());
        lemma_trim_by_range(t, p, a, b);
        assert(s.subrange(a, b) =~= t.subrange(a, b));
    } else {
        assert(a == 0) by {
            if a > 0 {
                assert(p(s[0]));
            }
        }
        assert(b == s.len()) by {
            if b < s.len() {
                assert(p(s[s.len() - 1]));
            }
        }
        assert(s.subrange(a, b) =~= s);
    }
}

} // verus!
