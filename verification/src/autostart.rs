//! "Start at login" through the per-user `Run` registry value: what the
//! value holds, and when a stale one is rewritten.
use crate::text::str_equal;
use vstd::prelude::*;

verus! {

/// The `Run` value registered for the executable at `exe_path`: the path in
/// double quotes, so that spaces in it survive the shell at login.
pub open spec fn quoted(exe_path: Seq<char>) -> Seq<char> {
    seq!['"'] + exe_path + seq!['"']
}

/// The `Run` value a refresh writes: the quoted current executable when
/// autostart is enabled and the registered value differs from it.
pub open spec fn refreshed_value(enabled: bool, registered: Option<Seq<char>>, current_exe: Seq<char>) -> Option<
    Seq<char>,
> {
    if enabled && registered != Some(quoted(current_exe)) {
        Some(quoted(current_exe))
    } else {
        None
    }
}

/// The characters of an optional string.
pub open spec fn opt_view(o: Option<&str>) -> Option<Seq<char>> {
    match o {
        Some(s) => Some(s@),
        None => None,
    }
}

/// Once the value a refresh asks for is written, the next refresh changes
/// nothing: the registered path settles on the current executable.
pub proof fn lemma_refresh_settles(registered: Option<Seq<char>>, current_exe: Seq<char>)
    ensures
        refreshed_value(true, registered, current_exe) matches Some(v) ==> refreshed_value(
            true,
            Some(v),
            current_exe,
        ) is None,
{
}

/// The value `set_enabled(true, ..)` writes for the executable at `exe_path`.
pub fn autostart_value(exe_path: &str) -> (res: String)
    ensures
        res@ == quoted(exe_path@),
        res@ == seq!['"'] + exe_path@ + seq!['"'],
{
    let mut res = String::new();
    res.push('"');
    res.append(exe_path);
    res.push('"');
    proof {
        assert(res@ =~= quoted(exe_path@));
    }
    res
}

/// On startup: when autostart is `enabled` but the `registered` value does
/// not point at the running executable (reinstalled elsewhere, or moved),
/// the value to write so that it does. `None` when autostart is disabled
/// or already correct.
pub fn refresh_path_if_enabled(enabled: bool, registered: Option<&str>, current_exe: &str) -> (res: Option<String>)
    ensures
        match refreshed_value(enabled, opt_view(registered), current_exe@) {
            Some(v) => res matches Some(w) && w@ == v,
            None => res is None,
        },
        // disabled: nothing is written; already pointing at the quoted
        // current executable: nothing is written; otherwise that value is
        !enabled ==> res is None,
        registered matches Some(r) && r@ == seq!['"'] + current_exe@ + seq!['"'] ==> res is None,
        enabled && !(registered matches Some(r) && r@ == seq!['"'] + current_exe@ + seq!['"'])
            ==> (res matches Some(w) && w@ == seq!['"'] + current_exe@ + seq!['"']),
{
    if !enabled {
        return None;
    }
    let want = autostart_value(current_exe);
    match registered {
        Some(r) => {
            if str_equal(r, want.as_str()) {
                return None;
            }
        },
        None => {},
    }
    Some(want)
}

} // verus!
