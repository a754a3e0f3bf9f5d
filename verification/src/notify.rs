//! Toast notifications share one format: a title, one line of body text and,
//! for errors, a long display duration so there is time to read them.
use vstd::prelude::*;

verus! {

/// A toast to show under the application's AUMID.
pub struct ToastRequest {
    pub title: String,
    pub body: String,
    /// Errors stay on screen longer than the default duration.
    pub long_duration: bool,
}

/// A success / information toast.
pub fn info_toast(title: &str, body: &str) -> (res: ToastRequest)
    ensures
        res.title@ == title@,
        res.body@ == body@,
        !res.long_duration,
{
    ToastRequest { title: String::from_str(title), body: String::from_str(body), long_duration: false }
}

/// An error toast, kept on screen for the long duration.
pub fn error_toast(title: &str, body: &str) -> (res: ToastRequest)
    ensures
        res.title@ == title@,
        res.body@ == body@,
        res.long_duration,
{
    ToastRequest { title: String::from_str(title), body: String::from_str(body), long_duration: true }
}

} // verus!
