//! The bounded conversion pool: how many workers it runs, when a file being
//! written has settled, and the one-line error text shown in toasts.
use crate::notify::{error_toast, ToastRequest};
use crate::text::{chars_of, string_from_range};
use vstd::utf8::encode_utf8;
use vstd::prelude::*;

verus! {

/// Jobs the queue holds; beyond that new files are dropped (and reported)
/// rather than letting a flood of decodes exhaust memory.
pub const QUEUE_CAPACITY: usize = 256;

/// Fewest and most workers the pool runs: decoding is CPU-bound, more
/// parallelism rarely helps a background tool, and it should not
/// monopolise the machine.
pub const MIN_WORKERS: usize = 1;

pub const MAX_WORKERS: usize = 4;

/// Worker count the pool runs when asked for `workers`: clamped to 1..=4.
pub fn clamp_workers(workers: usize) -> (res: usize)
    ensures
        res == if workers < MIN_WORKERS {
            MIN_WORKERS
        } else if workers > MAX_WORKERS {
            MAX_WORKERS
        } else {
            workers
        },
        MIN_WORKERS <= res <= MAX_WORKERS,
{
    if workers < MIN_WORKERS {
        MIN_WORKERS
    } else if workers > MAX_WORKERS {
        MAX_WORKERS
    } else {
        workers
    }
}

/// Workers requested from the machine's available parallelism: half of it
/// (at least one), or two when it is unknown.
pub fn requested_workers(available_parallelism: Option<usize>) -> (res: usize)
    ensures
        res == match available_parallelism {
            Some(n) => if n / 2 < 1 {
                1
            } else {
                n / 2
            },
            None => 2,
        },
{
    match available_parallelism {
        Some(n) => {
            let half = n / 2;
            if half < 1 {
                1
            } else {
                half
            }
        },
        None => 2,
    }
}

// ---------------------------------------------------------------------------
// Waiting for a file to settle
// ---------------------------------------------------------------------------

/// Length polls made before giving up on a file (6 s at 150 ms a poll).
pub const STABLE_MAX_POLLS: u32 = 40;

/// Unchanged non-zero lengths seen after the first before the file counts
/// as settled (if it can then be opened).
pub const STABLE_HITS_NEEDED: u32 = 2;

/// What the caller does next while waiting for a file to settle.
#[derive(Debug, Clone, Copy, PartialEq, Eq, Structural)]
pub enum ProbeAction {
    /// Sleep one poll interval (150 ms), then poll again if `should_poll`.
    Sleep,
    /// Try to open the file for reading and report with `observe_open`.
    TryOpen,
    /// Stop: `true` when the file settled, `false` when it vanished.
    Done(bool),
}

/// State of the wait for a file whose size must stop changing before it is
/// decoded: the last length seen, how many polls saw it again since it last
/// changed, and how many polls were made.
pub struct StabilityProbe {
    last: Option<u64>,
    stable_hits: u32,
    polls: u32,
    awaiting_open: bool,
    settled: bool,
}

impl StabilityProbe {
    /// The last length seen (`Some(0)` after an empty file).
    pub closed spec fn last_len(self) -> Option<u64> {
        self.last
    }

    /// How many polls saw the last non-zero length again since it last
    /// changed (polls of an empty file leave this count alone).
    pub closed spec fn hits(self) -> nat {
        self.stable_hits as nat
    }

    /// Polls completed so far.
    pub closed spec fn polls_done(self) -> nat {
        self.polls as nat
    }

    /// Whether an open attempt was asked for and not yet reported.
    pub closed spec fn awaiting_open(self) -> bool {
        self.awaiting_open
    }

    /// Whether the file was found settled.
    pub closed spec fn settled(self) -> bool {
        self.settled
    }

    /// The invariant kept by every step: at most 40 polls, and an open is
    /// only asked for after the same non-zero length was seen again twice.
    pub closed spec fn wf(self) -> bool {
        &&& self.polls <= STABLE_MAX_POLLS
        &&& self.stable_hits <= self.polls + 1 + if self.awaiting_open || self.settled {
            1u32
        } else {
            0u32
        }
        &&& !(self.awaiting_open && self.settled)
        &&& self.awaiting_open ==> self.stable_hits >= STABLE_HITS_NEEDED && self.polls
            < STABLE_MAX_POLLS && (self.last matches Some(l) && l > 0)
    }

    /// A probe that has seen nothing yet.
    pub fn new() -> (res: Self)
        ensures
            res.wf(),
            res.last_len() is None,
            res.hits() == 0,
            res.polls_done() == 0,
            !res.awaiting_open(),
    {
        StabilityProbe { last: None, stable_hits: 0, polls: 0, awaiting_open: false, settled: false }
    }

    /// Whether another poll is due; after 40 polls the file counts as never
    /// having settled.
    pub fn should_poll(&self) -> (res: bool)
        requires
            self.wf(),
        ensures
            res == (self.polls_done() < STABLE_MAX_POLLS && !self.awaiting_open() && !self.settled()),
    {
        self.polls < STABLE_MAX_POLLS && !self.awaiting_open && !self.settled
    }

    /// Records one poll of the file's length (`None` when its metadata could
    /// not be read: the file is gone).
    pub fn observe_len(&mut self, len: Option<u64>) -> (res: ProbeAction)
        requires
            old(self).wf(),
            old(self).polls_done() < STABLE_MAX_POLLS,
            !old(self).awaiting_open(),
            !old(self).settled(),
        ensures
            final(self).wf(),
            !final(self).settled(),
            match len {
                None => res == ProbeAction::Done(false) && *final(self) == *old(self),
                Some(l) => if l == 0 {
                    &&& res == ProbeAction::Sleep
                    &&& final(self).last_len() == Some(0u64)
                    &&& final(self).hits() == old(self).hits()
                    &&& final(self).polls_done() == old(self).polls_done() + 1
                    &&& !final(self).awaiting_open()
                } else if old(self).last_len() == Some(l) {
                    &&& final(self).last_len() == Some(l)
                    &&& final(self).hits() == old(self).hits() + 1
                    &&& if final(self).hits() >= STABLE_HITS_NEEDED {
                        &&& res == ProbeAction::TryOpen
                        &&& final(self).polls_done() == old(self).polls_done()
                        &&& final(self).awaiting_open()
                    } else {
                        &&& res == ProbeAction::Sleep
                        &&& final(self).polls_done() == old(self).polls_done() + 1
                        &&& !final(self).awaiting_open()
                    }
                } else {
                    &&& res == ProbeAction::Sleep
                    &&& final(self).last_len() == Some(l)
                    &&& final(self).hits() == 0
                    &&& final(self).polls_done() == old(self).polls_done() + 1
                    &&& !final(self).awaiting_open()
                },
            },
    {
        match len {
            None => ProbeAction::Done(false),
            Some(l) => {
                if l == 0 {
                    self.last = Some(0);
                    self.polls = self.polls + 1;
                    ProbeAction::Sleep
                } else if self.last == Some(l) {
                    self.stable_hits = self.stable_hits + 1;
                    if self.stable_hits >= STABLE_HITS_NEEDED {
                        self.awaiting_open = true;
                            ProbeAction::TryOpen
                    } else {
                        self.polls = self.polls + 1;
                            ProbeAction::Sleep
                    }
                } else {
                    self.stable_hits = 0;
                    self.last = Some(l);
                    self.polls = self.polls + 1;
                    ProbeAction::Sleep
                }
            },
        }
    }

    /// Records whether the settled-looking file could be opened for reading.
    pub fn observe_open(&mut self, opened: bool) -> (res: ProbeAction)
        requires
            old(self).wf(),
            old(self).awaiting_open(),
        ensures
            final(self).wf(),
            !final(self).awaiting_open(),
            final(self).last_len() == old(self).last_len(),
            final(self).hits() == old(self).hits(),
            final(self).settled() == opened,
            // a file is reported settled only after its non-zero length was
            // seen again at least twice, and within the poll budget
            opened ==> old(self).hits() >= STABLE_HITS_NEEDED && (old(self).last_len() matches Some(
                l,
            ) && l > 0) && old(self).polls_done() < STABLE_MAX_POLLS,
            opened ==> res == ProbeAction::Done(true) && final(self).polls_done()
                == old(self).polls_done(),
            !opened ==> res == ProbeAction::Sleep && final(self).polls_done()
                == old(self).polls_done() + 1,
    {
        self.awaiting_open = false;
        if opened {
            self.settled = true;
            ProbeAction::Done(true)
        } else {
            self.polls = self.polls + 1;
            ProbeAction::Sleep
        }
    }
}

/// A probe never polls a file more than 40 times.
pub proof fn lemma_poll_budget(p: StabilityProbe)
    requires
        p.wf(),
    ensures
        p.polls_done() <= STABLE_MAX_POLLS,
{
}

// ---------------------------------------------------------------------------
// One-line error text
// ---------------------------------------------------------------------------

/// Most bytes of an error line shown in a toast before it is cut.
pub const SHORT_ERROR_MAX_BYTES: usize = 200;

/// Index of the first `'\n'` in `s`, or its length when there is none.
pub open spec fn newline_index(s: Seq<char>) -> nat
    decreases s.len(),
{
    if s.len() == 0 || s[0] == '\n' {
        0
    } else {
        1 + newline_index(s.drop_first())
    }
}

/// The first line of `s` as `str::lines` yields it: up to the first `'\n'`,
/// without a `'\r'` just before it; empty for an empty `s`.
pub open spec fn first_line(s: Seq<char>) -> Seq<char> {
    let e = newline_index(s);
    if e < s.len() && e > 0 && s[e - 1] == '\r' {
        s.take(e - 1)
    } else {
        s.take(e as int)
    }
}

/// Bytes of the UTF-8 encoding of `c`.
pub open spec fn utf8_width(c: char) -> nat {
    if (c as u32) < 0x80 {
        1
    } else if (c as u32) < 0x800 {
        2
    } else if (c as u32) < 0x10000 {
        3
    } else {
        4
    }
}

/// Bytes of the UTF-8 encoding of `s`.
pub open spec fn utf8_len(s: Seq<char>) -> nat
    decreases s.len(),
{
    if s.len() == 0 {
        0
    } else {
        utf8_len(s.drop_last()) + utf8_width(s.last())
    }
}

/// `k` is the length of the longest prefix of `s` that fits in `n` bytes.
pub open spec fn is_fitting_prefix(s: Seq<char>, n: nat, k: int) -> bool {
    &&& 0 <= k < s.len()
    &&& utf8_len(s.take(k)) <= n
    &&& utf8_len(s.take(k + 1)) > n
}

/// The text `short_error` makes of an error message: its first line, or,
/// when that is over 200 bytes, its longest prefix of at most 200 bytes
/// followed by an ellipsis.
pub open spec fn shortened_error(s: Seq<char>) -> Seq<char> {
    let line = first_line(s);
    if utf8_len(line) > SHORT_ERROR_MAX_BYTES {
        let k = choose|k: int| #[trigger] is_fitting_prefix(line, SHORT_ERROR_MAX_BYTES as nat, k);
        line.take(k) + seq!['\u{2026}']
    } else {
        line
    }
}

/// A line over 200 bytes has a longest prefix of whole characters that fits.
proof fn lemma_fitting_prefix_exists(line: Seq<char>, i: int)
    requires
        0 <= i < line.len(),
        utf8_len(line.take(i)) <= SHORT_ERROR_MAX_BYTES,
        utf8_len(line) > SHORT_ERROR_MAX_BYTES,
    ensures
        exists|k: int| #[trigger] is_fitting_prefix(line, SHORT_ERROR_MAX_BYTES as nat, k),
    decreases line.len() - i,
{
    if utf8_len(line.take(i + 1)) > SHORT_ERROR_MAX_BYTES {
        assert(is_fitting_prefix(line, SHORT_ERROR_MAX_BYTES as nat, i));
    } else {
        if i + 1 == line.len() {
            assert(line.take(i + 1) == line);
        }
        lemma_fitting_prefix_exists(line, i + 1);
    }
}

/// `utf8_len` is the length of the standard UTF-8 encoding.
pub proof fn lemma_utf8_len_is_encoding_len(s: Seq<char>)
    ensures
        utf8_len(s) == encode_utf8(s).len(),
    decreases s.len(),
{
    if s.len() > 0 {
        lemma_utf8_len_is_encoding_len(s.drop_last());
        lemma_encoding_len_last(s);
    }
}

/// Bytes of the encoding of one character.
proof fn lemma_scalar_width(c: char)
    ensures
        vstd::utf8::encode_scalar(c as u32).len() == utf8_width(c),
{
    broadcast use vstd::utf8::char_is_scalar;

    assert(vstd::utf8::is_scalar(c as u32));
}

/// The encoding's length grows by the last character's width.
proof fn lemma_encoding_len_last(s: Seq<char>)
    requires
        s.len() > 0,
    ensures
        encode_utf8(s).len() == encode_utf8(s.drop_last()).len() + utf8_width(s.last()),
    decreases s.len(),
{
    lemma_scalar_width(s[0]);
    let t = s.drop_first();
    assert(encode_utf8(s) == vstd::utf8::encode_scalar(s[0] as u32) + encode_utf8(t));
    if s.len() == 1 {
        assert(t.len() == 0);
        assert(encode_utf8(t).len() == 0);
        assert(s.drop_last().len() == 0);
        assert(encode_utf8(s.drop_last()).len() == 0);
        assert(s.last() == s[0]);
    } else {
        lemma_encoding_len_last(t);
        let u = s.drop_last();
        assert(u.drop_first() == t.drop_last());
        assert(u[0] == s[0]);
        assert(encode_utf8(u) == vstd::utf8::encode_scalar(u[0] as u32) + encode_utf8(u.drop_first()));
        assert(t.last() == s.last());
    }
}

/// `first_line(s)` begins `s`, holds no newline, is all of `s` when `s` has
/// none, and otherwise is what comes before the first newline, without a
/// carriage return just before it.
pub proof fn lemma_first_line(s: Seq<char>, a: Seq<char>, b: Seq<char>)
    ensures
        first_line(s) == s.take(first_line(s).len() as int),
        !first_line(s).contains('\n'),
        !s.contains('\n') ==> first_line(s) == s,
        s == a + seq!['\n'] + b && !a.contains('\n') ==> first_line(s) == if a.len() > 0
            && a.last() == '\r' {
            a.drop_last()
        } else {
            a
        },
{
    lemma_newline_bounds(s);
    let e = newline_index(s) as int;
    assert forall|j: int| 0 <= j < first_line(s).len() implies first_line(s)[j] != '\n' by {
        assert(first_line(s)[j] == s[j]);
    }
    if !s.contains('\n') {
        if e < s.len() {
            assert(s[e] == '\n');
        }
        assert(s.take(s.len() as int) == s);
    }
    if s == a + seq!['\n'] + b && !a.contains('\n') {
        assert(s[a.len() as int] == '\n');
        if e < a.len() {
            assert(a[e] == s[e]);
        }
        assert(s.take(a.len() as int) == a);
        if a.len() > 0 {
            assert(s[a.len() - 1] == a.last());
            assert(s.take(a.len() - 1) == a.drop_last());
        }
    }
}

/// `newline_index(s)` is the index of the first newline, or the length.
proof fn lemma_newline_bounds(s: Seq<char>)
    ensures
        newline_index(s) <= s.len(),
        forall|k: int| 0 <= k < newline_index(s) ==> s[k] != '\n',
        newline_index(s) < s.len() ==> s[newline_index(s) as int] == '\n',
    decreases s.len(),
{
    if s.len() > 0 && s[0] != '\n' {
        let t = s.drop_first();
        lemma_newline_bounds(t);
        assert forall|k: int| 0 <= k < newline_index(s) implies s[k] != '\n' by {
            if k > 0 {
                assert(s[k] == t[k - 1]);
            }
        }
    }
}

/// The prefix byte lengths grow strictly with the prefix.
proof fn lemma_utf8_len_prefix_strict(s: Seq<char>, i: int, j: int)
    requires
        0 <= i < j <= s.len(),
    ensures
        utf8_len(s.take(i)) < utf8_len(s.take(j)),
    decreases j - i,
{
    assert(s.take(j).drop_last() == s.take(j - 1));
    if i < j - 1 {
        lemma_utf8_len_prefix_strict(s, i, j - 1);
    }
}

/// Index of the first `'\n'` in `cs`, or its length.
fn find_newline(cs: &Vec<char>) -> (res: usize)
    ensures
        res == newline_index(cs@),
        res <= cs@.len(),
{
    let mut i: usize = 0;
    while i < cs.len() && cs[i] != '\n'
        invariant
            i <= cs@.len(),
            forall|k: int| 0 <= k < i ==> cs@[k] != '\n',
        decreases cs@.len() - i,
    {
        i += 1;
    }
    proof {
        lemma_newline_index(cs@, i as int);
    }
    i
}

proof fn lemma_newline_index(s: Seq<char>, i: int)
    requires
        0 <= i <= s.len(),
        forall|k: int| 0 <= k < i ==> s[k] != '\n',
        i < s.len() ==> s[i] == '\n',
    ensures
        newline_index(s) == i,
    decreases s.len(),
{
    if s.len() > 0 && s[0] != '\n' {
        let t = s.drop_first();
        assert forall|k: int| 0 <= k < i - 1 implies t[k] != '\n' by {
            assert(t[k] == s[k + 1]);
        }
        if i - 1 < t.len() {
            assert(t[i - 1] == s[i]);
        }
        lemma_newline_index(t, i - 1);
    }
}

/// Bytes of the UTF-8 encoding of `c`.
fn char_utf8_width(c: char) -> (res: usize)
    ensures
        res == utf8_width(c),
{
    let u = c as u32;
    if u < 0x80 {
        1
    } else if u < 0x800 {
        2
    } else if u < 0x10000 {
        3
    } else {
        4
    }
}

/// Shortens an error message to one line for a toast: its first line, and
/// when that is over 200 bytes, as many whole characters as fit in 200
/// bytes followed by an ellipsis.
pub fn short_error(s: &str) -> (res: String)
    ensures
        res@ == shortened_error(s@),
        !res@.contains('\n'),
        // a line that fits in 200 UTF-8 bytes is kept whole
        encode_utf8(first_line(s@)).len() <= SHORT_ERROR_MAX_BYTES ==> res@ == first_line(s@),
        !s@.contains('\n') && encode_utf8(s@).len() <= SHORT_ERROR_MAX_BYTES ==> res@ == s@,
        // a longer one is cut after the most whole characters that fit in
        // 200 bytes, and an ellipsis is added
        encode_utf8(first_line(s@)).len() > SHORT_ERROR_MAX_BYTES ==> exists|k: int|
            #![trigger first_line(s@).take(k)]
            {
                &&& 0 <= k < first_line(s@).len()
                &&& res@ == first_line(s@).take(k) + seq!['\u{2026}']
                &&& encode_utf8(first_line(s@).take(k)).len() <= SHORT_ERROR_MAX_BYTES
                &&& encode_utf8(first_line(s@).take(k + 1)).len() > SHORT_ERROR_MAX_BYTES
            },
{
    proof {
        lemma_first_line(s@, s@, s@);
        lemma_utf8_len_is_encoding_len(first_line(s@));
        lemma_utf8_len_is_encoding_len(s@);
        if utf8_len(first_line(s@)) > SHORT_ERROR_MAX_BYTES {
            let line = first_line(s@);
            lemma_fitting_prefix_exists(line, 0);
            let k = choose|k: int| #[trigger] is_fitting_prefix(line, SHORT_ERROR_MAX_BYTES as nat, k);
            lemma_utf8_len_is_encoding_len(line.take(k));
            lemma_utf8_len_is_encoding_len(line.take(k + 1));
            assert(line.take(k) + seq!['\u{2026}'] == shortened_error(s@));
            assert(line.take(k).len() < line.len());
        }
    }
    let cs = chars_of(s);
    let e = find_newline(&cs);
    let line_end = if e < cs.len() && e > 0 && cs[e - 1] == '\r' {
        e - 1
    } else {
        e
    };
    let ghost line = first_line(s@);
    assert(line == cs@.take(line_end as int));
    proof {
        lemma_newline_free(cs@, line_end as int);
    }
    // take whole characters while they fit in 200 bytes
    let mut bytes: usize = 0;
    let mut i: usize = 0;
    while i < line_end && bytes + char_utf8_width(cs[i]) <= SHORT_ERROR_MAX_BYTES
        invariant
            line_end <= cs@.len(),
            line == cs@.take(line_end as int),
            i <= line_end,
            bytes == utf8_len(line.take(i as int)),
            bytes <= SHORT_ERROR_MAX_BYTES,
        decreases line_end - i,
    {
        proof {
            assert(line.take(i + 1).drop_last() == line.take(i as int));
            assert(line.take(i + 1).last() == cs@[i as int]);
        }
        bytes = bytes + char_utf8_width(cs[i]);
        i += 1;
    }
    if i == line_end {
        // the whole line fits
        proof {
            assert(line.take(line_end as int) == line);
        }
        return string_from_range(&cs, 0, line_end);
    }
    proof {
        assert(line.take(i + 1).drop_last() == line.take(i as int));
        assert(line.take(i + 1).last() == cs@[i as int]);
        assert(is_fitting_prefix(line, SHORT_ERROR_MAX_BYTES as nat, i as int));
        if i + 1 < line.len() {
            lemma_utf8_len_prefix_strict(line, i + 1, line.len() as int);
        }
        assert(line.take(line.len() as int) == line);
        let k = choose|k: int| #[trigger] is_fitting_prefix(line, SHORT_ERROR_MAX_BYTES as nat, k);
        if k < i {
            lemma_utf8_len_prefix_strict(line, k + 1, i + 1);
            if k + 1 < i {
                lemma_utf8_len_prefix_strict(line, k + 1, i as int);
            }
            assert(false);
        } else if k > i {
            if i + 1 < k {
                lemma_utf8_len_prefix_strict(line, i + 1, k);
            }
            assert(false);
        }
    }
    let mut res = string_from_range(&cs, 0, i);
    res.push('\u{2026}');
    proof {
        assert(cs@.subrange(0, i as int) == line.take(i as int));
        assert(res@ =~= line.take(i as int) + seq!['\u{2026}']);
        assert forall|j: int| 0 <= j < res@.len() implies res@[j] != '\n' by {
            if j < i {
                assert(res@[j] == cs@[j]);
            }
        }
    }
    res
}

/// No character before `end` is a newline when `end` is at most the first
/// newline's index.
proof fn lemma_newline_free(s: Seq<char>, end: int)
    requires
        0 <= end <= newline_index(s),
        newline_index(s) <= s.len(),
    ensures
        !s.take(end).contains('\n'),
    decreases s.len(),
{
    if end > 0 {
        let t = s.drop_first();
        lemma_newline_index_bound(s);
        lemma_newline_free(t, end - 1);
        assert forall|j: int| 0 <= j < end implies s.take(end)[j] != '\n' by {
            if j > 0 {
                assert(s.take(end)[j] == t.take(end - 1)[j - 1]);
            }
        }
    }
}

proof fn lemma_newline_index_bound(s: Seq<char>)
    ensures
        newline_index(s) <= s.len(),
    decreases s.len(),
{
    if s.len() > 0 && s[0] != '\n' {
        lemma_newline_index_bound(s.drop_first());
    }
}

/// The toast for a file that never stopped growing.
pub fn unstable_file_toast(file_name: &str) -> (res: ToastRequest)
    ensures
        res.title@ == "Couldn't convert webp"@,
        res.body@ == file_name@ + " never finished writing. Open the log for details."@,
        res.long_duration,
{
    let mut body = String::from_str(file_name);
    body.append(" never finished writing. Open the log for details.");
    error_toast("Couldn't convert webp", body.as_str())
}

/// The toast for a conversion that failed with `short_error` text.
pub fn convert_failed_toast(file_name: &str, short_error: &str) -> (res: ToastRequest)
    ensures
        res.title@ == "Couldn't convert webp"@,
        res.body@ == file_name@ + ": "@ + short_error@,
        res.long_duration,
{
    let mut body = String::from_str(file_name);
    body.append(": ");
    body.append(short_error);
    error_toast("Couldn't convert webp", body.as_str())
}

/// The toast for files dropped because the queue was full.
pub fn overloaded_toast() -> (res: ToastRequest)
    ensures
        res.title@ == "webp-tray is overloaded"@,
        res.body@ == "too many files arriving at once; some webps were skipped. Re-trigger by saving them again, or restart the app."@,
        res.long_duration,
{
    error_toast(
        "webp-tray is overloaded",
        "too many files arriving at once; some webps were skipped. Re-trigger by saving them again, or restart the app.",
    )
}

} // verus!
