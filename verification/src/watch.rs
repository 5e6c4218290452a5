//! Watching a folder: how a change is reported.

use vstd::prelude::*;

verus! {

/// The kinds of change that a watcher reports.
#[derive(Clone, Copy, Debug, PartialEq, Eq, Structural)]
pub enum ChangeKind {
    Access,
    Create,
    Modify,
    Remove,
    /// A change of a kind that the watcher does not tell apart.
    Other,
    /// Anything else: the report is shown as it is.
    Any,
}

/// The words that a report of a change starts with.
pub open spec fn change_heading(kind: ChangeKind) -> Seq<char> {
    match kind {
        ChangeKind::Access => "File accessed: "@,
        ChangeKind::Create => "File created: "@,
        ChangeKind::Modify => "File modified: "@,
        ChangeKind::Remove => "File removed: "@,
        ChangeKind::Other => "File event: "@,
        ChangeKind::Any => "Other event: "@,
    }
}

/// Executable form of [`change_heading`].
pub fn heading(kind: ChangeKind) -> (words: &'static str)
    ensures
        words@ == change_heading(kind),
{
    match kind {
        ChangeKind::Access => "File accessed: ",
        ChangeKind::Create => "File created: ",
        ChangeKind::Modify => "File modified: ",
        ChangeKind::Remove => "File removed: ",
        ChangeKind::Other => "File event: ",
        ChangeKind::Any => "Other event: ",
    }
}

/// The line that reports a change: the heading of its kind and `subject`,
/// the paths that changed or the whole report as text.
pub fn change_line(kind: ChangeKind, subject: &str) -> (line: String)
    ensures
        line@ == change_heading(kind) + subject@,
{
    let mut line = String::from_str(heading(kind));
    line.append(subject);
    line
}

} // verus!
