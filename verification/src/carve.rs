//! The carve command: from a command line to a run, and the order in which
//! a run scans the source and copies the live files of the image.

use crate::session::{carve_request, parse_carve_args, CarveRequest, RecoverySession, SessionView};
use vstd::prelude::*;

verus! {

/// Length of a session identifier: 32 hexadecimal digits in five groups,
/// with a hyphen between two groups.
pub const SESSION_ID_LEN: usize = 36;

/// Calls `uuid::Uuid::new_v4` and writes the identifier with `to_string`,
/// which gives its hyphenated form. Trusted: the text is
/// [`SESSION_ID_LEN`] characters long. Nothing else is claimed of it: it is
/// drawn at random.
#[verifier::external_body]
pub(crate) fn fresh_session_id() -> (id: String)
    ensures
        id@.len() == SESSION_ID_LEN,
{
    uuid::Uuid::new_v4().to_string()
}

/// A run that is about to start: the device or image to read, and the
/// session that receives what is found.
pub struct CarveRun {
    pub target: String,
    pub session: RecoverySession,
}

/// Starts the run that `request` asks for, under the identifier `id`.
pub fn start_run(request: CarveRequest, id: String) -> (run: CarveRun)
    ensures
        run.target@ == request@.target,
        run.session@ == SessionView::fresh(id@, request@.all, request@.only_deleted),
        run.session.wf(),
{
    let session = RecoverySession::new(id, request.all, request.only_deleted);
    CarveRun { target: request.target, session }
}

/// Reads the command line of the carve command and starts a run under a
/// fresh identifier. `None` stands for a command line that names no target
/// and does not set `--all`: the caller prints the usage and carves nothing.
pub fn carve_entry(args: &[String]) -> (run: Option<CarveRun>)
    ensures
        match carve_request(args@) {
            None => run is None,
            Some(request) => {
                &&& run is Some
                &&& run->0.target@ == request.target
                &&& run->0.session@ == SessionView::fresh(
                    run->0.session@.id,
                    request.all,
                    request.only_deleted,
                )
                &&& run->0.session@.id.len() == SESSION_ID_LEN
                &&& run->0.session.wf()
            },
        },
{
    match parse_carve_args(args) {
        None => None,
        Some(request) => Some(start_run(request, fresh_session_id())),
    }
}

/// The stages of a run, in the order they are gone through.
#[derive(Clone, Copy, PartialEq, Eq, Structural)]
pub enum RunStage {
    /// The scanner reads the source and carves.
    Scanning,
    /// The image is being mounted read-only.
    Mounting,
    /// The files visible on the mounted image are being copied.
    Copying,
    /// The image is being unmounted.
    Unmounting,
    /// The run is over; what was carved and copied is on disk.
    Finished,
    /// The run was given up because the source could not be read.
    Aborted,
}

/// What the caller reports back after the work of a stage.
#[derive(Clone, Copy, PartialEq, Eq, Structural)]
pub enum RunEvent {
    /// The scanner has reached the end of its scan.
    ScanCompleted,
    /// The source could not be opened, positioned or read.
    SourceFailed,
    /// The image is mounted.
    Mounted,
    /// The image could not be mounted.
    MountFailed,
    /// The copy of the live files is over. Files that could not be copied
    /// were skipped.
    CopyFinished,
    /// The attempt to unmount the image is over, whatever came of it.
    UnmountFinished,
}

/// Whether the live-filesystem bridge is at work in `stage`.
pub open spec fn uses_bridge(stage: RunStage) -> bool {
    stage is Mounting || stage is Copying || stage is Unmounting
}

/// The stage that follows `stage` once `event` is reported. The bridge
/// starts only when the scan has completed, and not at all when only
/// deleted content is wanted. A failure of the source gives the run up. A
/// failure to mount skips the copy and ends the run. An event that does not
/// belong to the stage changes nothing.
pub open spec fn stage_after(stage: RunStage, event: RunEvent, only_deleted: bool) -> RunStage {
    match (stage, event) {
        (RunStage::Scanning, RunEvent::ScanCompleted) => if only_deleted {
            RunStage::Finished
        } else {
            RunStage::Mounting
        },
        (RunStage::Scanning, RunEvent::SourceFailed) => RunStage::Aborted,
        (RunStage::Mounting, RunEvent::Mounted) => RunStage::Copying,
        (RunStage::Mounting, RunEvent::MountFailed) => RunStage::Finished,
        (RunStage::Copying, RunEvent::CopyFinished) => RunStage::Unmounting,
        (RunStage::Unmounting, RunEvent::UnmountFinished) => RunStage::Finished,
        _ => stage,
    }
}

/// The stage reached from `stage` after the events `events`, in order.
pub open spec fn stage_after_all(stage: RunStage, events: Seq<RunEvent>, only_deleted: bool) -> RunStage
    decreases events.len(),
{
    if events.len() == 0 {
        stage
    } else {
        stage_after(
            stage_after_all(stage, events.drop_last(), only_deleted),
            events.last(),
            only_deleted,
        )
    }
}

/// Executable form of [`stage_after`].
pub fn next_stage(stage: RunStage, event: RunEvent, only_deleted: bool) -> (next: RunStage)
    ensures
        next == stage_after(stage, event, only_deleted),
{
    match (stage, event) {
        (RunStage::Scanning, RunEvent::ScanCompleted) => if only_deleted {
            RunStage::Finished
        } else {
            RunStage::Mounting
        },
        (RunStage::Scanning, RunEvent::SourceFailed) => RunStage::Aborted,
        (RunStage::Mounting, RunEvent::Mounted) => RunStage::Copying,
        (RunStage::Mounting, RunEvent::MountFailed) => RunStage::Finished,
        (RunStage::Copying, RunEvent::CopyFinished) => RunStage::Unmounting,
        (RunStage::Unmounting, RunEvent::UnmountFinished) => RunStage::Finished,
        _ => stage,
    }
}

/// Whether the bridge is at work in `stage`.
pub fn bridge_at_work(stage: RunStage) -> (at_work: bool)
    ensures
        at_work == uses_bridge(stage),
{
    match stage {
        RunStage::Mounting | RunStage::Copying | RunStage::Unmounting => true,
        _ => false,
    }
}

/// When only deleted content is wanted, the bridge is never at work:
/// whatever is reported, a run that starts with the scan never reaches one
/// of the bridge's stages.
pub proof fn lemma_only_deleted_never_uses_bridge(events: Seq<RunEvent>)
    ensures
        !uses_bridge(stage_after_all(RunStage::Scanning, events, true)),
    decreases events.len(),
{
    if events.len() > 0 {
        lemma_only_deleted_never_uses_bridge(events.drop_last());
    }
}

/// The bridge never works while the scanner does: as long as the end of
/// the scan has not been reported, the run is still scanning or was given
/// up.
pub proof fn lemma_bridge_follows_scan(events: Seq<RunEvent>, only_deleted: bool)
    requires
        forall|i: int| 0 <= i < events.len() ==> !(#[trigger] events[i] is ScanCompleted),
    ensures
        stage_after_all(RunStage::Scanning, events, only_deleted) is Scanning || stage_after_all(
            RunStage::Scanning,
            events,
            only_deleted,
        ) is Aborted,
    decreases events.len(),
{
    if events.len() > 0 {
        lemma_bridge_follows_scan(events.drop_last(), only_deleted);
    }
}

/// A failure to mount ends the run without giving it up: what was carved
/// stays, and nothing is copied.
pub proof fn lemma_mount_failure_is_not_fatal(only_deleted: bool)
    ensures
        stage_after(RunStage::Mounting, RunEvent::MountFailed, only_deleted) is Finished,
{
}

/// The place inside the session directory `output_dir` to which the live
/// file at `relative`, a path relative to the mount point, is copied.
pub open spec fn live_copy_path(output_dir: Seq<char>, relative: Seq<char>) -> Seq<char> {
    output_dir + "/"@ + relative
}

/// Executable form of [`live_copy_path`].
pub fn live_copy_destination(output_dir: &str, relative: &str) -> (path: String)
    ensures
        path@ == live_copy_path(output_dir@, relative@),
{
    let mut path = String::from_str(output_dir);
    path.append("/");
    path.append(relative);
    path
}

} // verus!
