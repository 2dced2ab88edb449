//! The app's log.
use crate::backup::{below, nanos_of_days, Moment};
use crate::text::{copy_opt, copy_text};
use vstd::prelude::*;

verus! {

use crate::backup::{days, path_below};
use crate::text::opt_view;

/// Where the log is kept, below the folder of the app's data.
pub open spec fn log_file(data_dir: Seq<char>, sep: char) -> Seq<char> {
    path_below(path_below(data_dir, sep, "logs"@), sep, "snipdesk.log"@)
}

/// The folder of the log, and the log itself, below the folder of the app's data.
pub fn log_places(data_dir: &str, sep: char) -> (r: (String, String))
    ensures
        r.0@ == path_below(data_dir@, sep, "logs"@),
        r.1@ == log_file(data_dir@, sep),
{
    let dir = below(data_dir, sep, "logs");
    let file = below(dir.as_str(), sep, "snipdesk.log");
    (dir, file)
}

/// Whether a log is begun anew: it was last written more than so many days ago. One
/// that was written after now counts as fresh.
pub fn wipes(modified: Moment, now: Moment, retention_days: u32) -> (r: bool)
    ensures
        r == (now.total() - modified.total() > days(retention_days)),
{
    now.since(modified) > nanos_of_days(retention_days)
}

/// A log, once it has been opened.
#[derive(Debug)]
pub struct Log {
    path: Option<String>,
}

impl Log {
    /// Where the log was opened.
    pub closed spec fn place(self) -> Option<Seq<char>> {
        opt_view(self.path)
    }

    /// A log that has not been opened.
    pub fn closed() -> (r: Log)
        ensures
            r.place() is None,
    {
        Log { path: None }
    }

    /// Opens the log at a place. Once it is open it stays where it is.
    pub fn open(&mut self, path: &str)
        ensures
            final(self).place() == (match old(self).place() {
                Some(p) => Some(p),
                None => Some(path@),
            }),
    {
        if self.path.is_none() {
            self.path = Some(copy_text(path));
        }
    }

    /// Where the log is; none before it was opened.
    pub fn log_path(&self) -> (r: Option<String>)
        ensures
            opt_view(r) == self.place(),
    {
        copy_opt(&self.path)
    }
}

/// The time where the machine is, as `YYYY-MM-DDTHH:MM:SS`, from `chrono::Local::now`.
/// Nothing is claimed of it: it rests on the clock and the time zone.
#[verifier::external_body]
fn now_iso8601() -> String {
    chrono::Local::now().format("%Y-%m-%dT%H:%M:%S").to_string()
}

/// The line that a session begins with.
pub open spec fn session_line(at: Seq<char>) -> Seq<char> {
    "=== SnipDesk session started at "@
        + at
        + " ==="@
}

/// The line that a session begins with.
pub fn session_line_at(at: &str) -> (r: String)
    ensures
        r@ == session_line(at@),
{
    let mut out: String = "=== SnipDesk session started at ".to_owned();
    out.push_str(at);
    out.push_str(" ===");
    out
}

/// A line that tells of an error.
pub open spec fn error_line(at: Seq<char>, msg: Seq<char>) -> Seq<char> {
    at
        + " ERROR "@
        + msg
}

/// A line that tells of an error.
pub fn error_line_at(at: &str, msg: &str) -> (r: String)
    ensures
        r@ == error_line(at@, msg@),
{
    let mut out: String = copy_text(at);
    out.push_str(" ERROR ");
    out.push_str(msg);
    out
}

/// A line that tells of an event.
pub open spec fn info_line(at: Seq<char>, msg: Seq<char>) -> Seq<char> {
    at
        + " INFO  "@
        + msg
}

/// A line that tells of an event.
pub fn info_line_at(at: &str, msg: &str) -> (r: String)
    ensures
        r@ == info_line(at@, msg@),
{
    let mut out: String = copy_text(at);
    out.push_str(" INFO  ");
    out.push_str(msg);
    out
}

/// A line that tells of a panic.
pub open spec fn panic_line(place: Seq<char>, what: Seq<char>) -> Seq<char> {
    "PANIC @ "@
        + place
        + ": "@
        + what
}

/// A line that tells of a panic.
pub fn panic_line_text(place: &str, what: &str) -> (r: String)
    ensures
        r@ == panic_line(place@, what@),
{
    let mut out: String = "PANIC @ ".to_owned();
    out.push_str(place);
    out.push_str(": ");
    out.push_str(what);
    out
}

/// The line that a session begins with, now.
pub fn session_header() -> (r: String)
    ensures
        exists|at: Seq<char>| r@ == #[trigger] session_line(at),
{
    let at = now_iso8601();
    session_line_at(at.as_str())
}

/// The line that tells of an error, now.
pub fn log_error(msg: &str) -> (r: String)
    ensures
        exists|at: Seq<char>| r@ == #[trigger] error_line(at, msg@),
{
    let at = now_iso8601();
    error_line_at(at.as_str(), msg)
}

/// The line that tells of an event, now.
pub fn log_info(msg: &str) -> (r: String)
    ensures
        exists|at: Seq<char>| r@ == #[trigger] info_line(at, msg@),
{
    let at = now_iso8601();
    info_line_at(at.as_str(), msg)
}

/// A line of the log begins with its time and ends with its message, and errors are told from
/// news.
pub proof fn law_lines_tell_time_and_message(at: Seq<char>, msg: Seq<char>)
    ensures
        at.is_prefix_of(error_line(at, msg)),
        msg.is_suffix_of(error_line(at, msg)),
        at.is_prefix_of(info_line(at, msg)),
        msg.is_suffix_of(info_line(at, msg)),
        error_line(at, msg) != info_line(at, msg),
        msg.is_suffix_of(panic_line(at, msg)),
{
    reveal_strlit(" ERROR ");
    reveal_strlit(" INFO  ");
    let e = error_line(at, msg);
    let i = info_line(at, msg);
    let p = panic_line(at, msg);
    assert(e.subrange(0, at.len() as int) =~= at);
    assert(i.subrange(0, at.len() as int) =~= at);
    assert(e.subrange(e.len() - msg.len(), e.len() as int) =~= msg);
    assert(i.subrange(i.len() - msg.len(), i.len() as int) =~= msg);
    assert(p.subrange(p.len() - msg.len(), p.len() as int) =~= msg);
    let n = at.len() as int;
    assert(e[n + 1] == 'E');
    assert(i[n + 1] == 'I');
}

} // verus!
