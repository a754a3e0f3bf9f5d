//! Which file of the log folder is the one being written: the most recently
//! modified file whose name starts with the log basename.
use crate::text::chars_of;
use vstd::prelude::*;

verus! {

/// One entry of the log folder: its name (`None` when not valid Unicode)
/// and its modification time in nanoseconds from the Unix epoch (`None` when
/// it could not be read).
pub struct LogEntry {
    pub name: Option<String>,
    pub modified: Option<i128>,
}

/// Which log to open.
#[derive(Debug, Clone, Copy, PartialEq, Eq, Structural)]
pub enum LogChoice {
    /// The entry at this index.
    File(usize),
    /// No log file yet: open the folder itself.
    Folder,
    /// A log file's modification time could not be read.
    Unknown,
}

/// `prefix` begins `s`.
pub open spec fn starts_with(s: Seq<char>, prefix: Seq<char>) -> bool {
    prefix.len() <= s.len() && s.take(prefix.len() as int) == prefix
}

/// Entry `e` is one of our log files.
pub open spec fn is_log_entry(e: LogEntry, basename: Seq<char>) -> bool {
    e.name matches Some(n) && starts_with(n@, basename)
}

/// The choice `current_log_file` makes among `entries`: `Unknown` when a log
/// file's time is unreadable; else the first of the most recently modified
/// log files; else the folder.
pub open spec fn log_choice_ok(entries: Seq<LogEntry>, basename: Seq<char>, c: LogChoice) -> bool {
    if exists|i: int|
        0 <= i < entries.len() && is_log_entry(#[trigger] entries[i], basename)
            && entries[i].modified is None {
        c == LogChoice::Unknown
    } else if forall|i: int| 0 <= i < entries.len() ==> !is_log_entry(#[trigger] entries[i], basename) {
        c == LogChoice::Folder
    } else {
        c matches LogChoice::File(k) && {
            &&& 0 <= k < entries.len()
            &&& is_log_entry(entries[k as int], basename)
            &&& forall|i: int|
                0 <= i < entries.len() && is_log_entry(#[trigger] entries[i], basename) ==> {
                    &&& entries[i].modified->0 <= entries[k as int].modified->0
                    &&& i < k ==> entries[i].modified->0 < entries[k as int].modified->0
                }
        }
    }
}

/// Whether `prefix` begins `s`.
pub fn str_starts_with(s: &str, prefix: &str) -> (res: bool)
    ensures
        res == starts_with(s@, prefix@),
{
    let sc = chars_of(s);
    let pc = chars_of(prefix);
    if pc.len() > sc.len() {
        return false;
    }
    let mut i: usize = 0;
    while i < pc.len()
        invariant
            pc@ == prefix@,
            sc@ == s@,
            pc@.len() <= sc@.len(),
            i <= pc@.len(),
            forall|k: int| 0 <= k < i ==> sc@[k] == pc@[k],
        decreases pc@.len() - i,
    {
        if sc[i] != pc[i] {
            assert(s@.take(prefix@.len() as int)[i as int] != prefix@[i as int]);
            return false;
        }
        i += 1;
    }
    assert(s@.take(prefix@.len() as int) =~= prefix@);
    true
}

/// Picks the log file to open among the entries of the log folder.
pub fn current_log_file(entries: &Vec<LogEntry>, basename: &str) -> (res: LogChoice)
    ensures
        log_choice_ok(entries@, basename@, res),
{
    let mut best: Option<usize> = None;
    let mut i: usize = 0;
    while i < entries.len()
        invariant
            i <= entries@.len(),
            forall|j: int| 0 <= j < i && is_log_entry(#[trigger] entries@[j], basename@) ==> entries@[j].modified is Some,
            match best {
                None => forall|j: int| 0 <= j < i ==> !is_log_entry(#[trigger] entries@[j], basename@),
                Some(k) => {
                    &&& k < i
                    &&& is_log_entry(entries@[k as int], basename@)
                    &&& forall|j: int|
                        0 <= j < i && is_log_entry(#[trigger] entries@[j], basename@) ==> {
                            &&& entries@[j].modified->0 <= entries@[k as int].modified->0
                            &&& j < k ==> entries@[j].modified->0 < entries@[k as int].modified->0
                        }
                },
            },
        decreases entries@.len() - i,
    {
        let e = &entries[i];
        let is_ours = match &e.name {
            Some(n) => str_starts_with(n.as_str(), basename),
            None => false,
        };
        if is_ours {
            match e.modified {
                None => {
                    return LogChoice::Unknown;
                },
                Some(t) => {
                    let newer = match best {
                        None => true,
                        Some(k) => match entries[k].modified {
                            Some(bt) => t > bt,
                            None => true,
                        },
                    };
                    if newer {
                        best = Some(i);
                    }
                },
            }
        }
        i += 1;
    }
    match best {
        Some(k) => LogChoice::File(k),
        None => LogChoice::Folder,
    }
}

} // verus!
