//! Save durability and external-change detection.

use crate::text::push_decimal;
use vstd::prelude::*;
use vstd::string::*;

verus! {

/// A point in time: whole seconds after the Unix epoch, negative before it, and the
/// nanoseconds after that second.
#[derive(Debug, Clone, Copy, PartialEq, Eq, Structural)]
pub struct FileTime {
    pub secs: i64,
    pub nanos: u32,
}

/// Snapshot of a file's identity used to detect external modification.
///
/// `mtime` + `size` is a cheap fingerprint with no false positives. The inode is
/// intentionally excluded: an atomic rename by another program changes the inode without
/// changing content, which would otherwise read as a conflict.
#[derive(Debug, Clone, Copy, PartialEq, Eq, Structural)]
pub struct FileFingerprint {
    pub mtime: FileTime,
    pub size: u64,
}

impl FileFingerprint {
    /// True when the on-disk file has diverged from this snapshot.
    pub fn conflicts_with(&self, other: &FileFingerprint) -> (conflict: bool)
        ensures
            conflict == (*self != *other),
    {
        self.mtime != other.mtime || self.size != other.size
    }
}

/// Why a file could not be read or written.
#[derive(Debug, Clone, Copy, PartialEq, Eq, Structural)]
pub enum IoFailure {
    NotFound,
    PermissionDenied,
    StorageFull,
    QuotaExceeded,
    ReadOnlyFilesystem,
    Other,
}

/// Result of an autosave that first checks for an external change.
#[derive(Debug, Clone, Copy, PartialEq, Eq, Structural)]
pub enum AutosaveOutcome {
    Saved,
    /// The disk file changed since it was last known; the document was not written.
    ConflictDetected,
    /// The backing file is gone.
    FileDeleted,
    Failed(IoFailure),
}

/// What an autosave does once it has looked at the file.
#[derive(Debug, Clone, Copy, PartialEq, Eq, Structural)]
pub enum AutosaveStep {
    /// The file is as it was last known: write the document.
    Write,
    /// Nothing is written.
    Stop(AutosaveOutcome),
}

/// Saves only if the backing file still matches `last_known`, so a background autosave can
/// never silently clobber an external edit. `current` is the file's fingerprint now, or why
/// it could not be read.
pub fn autosave_with_conflict_check(
    current: Result<FileFingerprint, IoFailure>,
    last_known: &FileFingerprint,
) -> (step: AutosaveStep)
    ensures
        step == autosave_step(current, *last_known),
{
    match current {
        Ok(current) => {
            if current.conflicts_with(last_known) {
                AutosaveStep::Stop(AutosaveOutcome::ConflictDetected)
            } else {
                AutosaveStep::Write
            }
        },
        Err(IoFailure::NotFound) => AutosaveStep::Stop(AutosaveOutcome::FileDeleted),
        Err(failure) => AutosaveStep::Stop(AutosaveOutcome::Failed(failure)),
    }
}

/// What an autosave does, given the file's fingerprint now and the one last known.
pub open spec fn autosave_step(
    current: Result<FileFingerprint, IoFailure>,
    last_known: FileFingerprint,
) -> AutosaveStep {
    match current {
        Ok(current) => if current == last_known {
            AutosaveStep::Write
        } else {
            AutosaveStep::Stop(AutosaveOutcome::ConflictDetected)
        },
        Err(failure) => AutosaveStep::Stop(
            if failure is NotFound {
                AutosaveOutcome::FileDeleted
            } else {
                AutosaveOutcome::Failed(failure)
            },
        ),
    }
}

/// How an autosave that wrote the document ended.
pub fn autosave_written(written: Result<(), IoFailure>) -> (outcome: AutosaveOutcome)
    ensures
        outcome == (match written {
            Ok(()) => AutosaveOutcome::Saved,
            Err(failure) => AutosaveOutcome::Failed(failure),
        }),
{
    match written {
        Ok(()) => AutosaveOutcome::Saved,
        Err(failure) => AutosaveOutcome::Failed(failure),
    }
}

/// An autosave writes only over the very file it last knew: one that another program
/// changed, or that is gone, is never overwritten.
pub proof fn autosave_never_clobbers(
    current: Result<FileFingerprint, IoFailure>,
    last_known: FileFingerprint,
)
    ensures
        autosave_step(current, last_known) is Write <==> current == Ok::<
            FileFingerprint,
            IoFailure,
        >(last_known),
{
}

/// The name of the temporary file a document is written to before it takes the place of the
/// file called `file_name`.
pub fn temporary_name(file_name: &str, pid: u32, nanos: u128) -> (name: String)
    ensures
        name@ == temporary_name_of(file_name@, pid, nanos),
{
    let mut name = String::from_str(".");
    name.append(file_name);
    name.append(".blink-tmp-");
    push_decimal(&mut name, pid as u128);
    name.append("-");
    push_decimal(&mut name, nanos);
    name
}

/// The name of the temporary file of a save.
pub open spec fn temporary_name_of(file_name: Seq<char>, pid: u32, nanos: u128) -> Seq<char> {
    "."@ + file_name + ".blink-tmp-"@ + crate::text::decimal(pid as nat) + "-"@
        + crate::text::decimal(nanos as nat)
}

/// Where an atomic save is: what it does next, or how it ended.
#[derive(Debug, Clone, Copy, PartialEq, Eq, Structural)]
pub enum SaveStep {
    /// Write the temporary file and flush it to the disk.
    WriteTemporary,
    /// Read the permissions of the file to be replaced.
    ReadPermissions,
    /// Give the temporary file those permissions.
    CopyPermissions,
    /// Put the temporary file in the place of the file.
    Rename,
    /// Flush the folder, so that the rename survives a crash.
    SyncFolder,
    /// Remove the temporary file; the save has failed.
    RemoveTemporary,
    /// The file holds the new text.
    Saved,
    /// The file holds what it held before.
    Failed,
}

/// The step after one that ended well or not.
///
/// A file that is not there yet has no permissions to copy. The folder's flush is best
/// effort: the rename has taken effect already.
pub fn save_step(step: SaveStep, ok: bool) -> (next: SaveStep)
    ensures
        next == save_step_of(step, ok),
{
    match step {
        SaveStep::WriteTemporary => if ok {
            SaveStep::ReadPermissions
        } else {
            SaveStep::RemoveTemporary
        },
        SaveStep::ReadPermissions => if ok {
            SaveStep::CopyPermissions
        } else {
            SaveStep::Rename
        },
        SaveStep::CopyPermissions => if ok {
            SaveStep::Rename
        } else {
            SaveStep::RemoveTemporary
        },
        SaveStep::Rename => if ok {
            SaveStep::SyncFolder
        } else {
            SaveStep::RemoveTemporary
        },
        SaveStep::SyncFolder => SaveStep::Saved,
        SaveStep::RemoveTemporary => SaveStep::Failed,
        SaveStep::Saved => SaveStep::Saved,
        SaveStep::Failed => SaveStep::Failed,
    }
}

/// The step after one that ended well or not.
pub open spec fn save_step_of(step: SaveStep, ok: bool) -> SaveStep {
    match (step, ok) {
        (SaveStep::WriteTemporary, true) => SaveStep::ReadPermissions,
        (SaveStep::ReadPermissions, true) => SaveStep::CopyPermissions,
        (SaveStep::ReadPermissions, false) => SaveStep::Rename,
        (SaveStep::CopyPermissions, true) => SaveStep::Rename,
        (SaveStep::Rename, true) => SaveStep::SyncFolder,
        (SaveStep::SyncFolder, _) => SaveStep::Saved,
        (SaveStep::Saved, _) => SaveStep::Saved,
        (SaveStep::WriteTemporary, false) => SaveStep::RemoveTemporary,
        (SaveStep::CopyPermissions, false) => SaveStep::RemoveTemporary,
        (SaveStep::Rename, false) => SaveStep::RemoveTemporary,
        (SaveStep::RemoveTemporary, _) => SaveStep::Failed,
        (SaveStep::Failed, _) => SaveStep::Failed,
    }
}

/// Where a save is after the given outcomes of its steps.
pub open spec fn save_run(outcomes: Seq<bool>) -> SaveStep
    decreases outcomes.len(),
{
    if outcomes.len() == 0 {
        SaveStep::WriteTemporary
    } else {
        save_step_of(save_run(outcomes.drop_last()), outcomes.last())
    }
}

/// Whether a rename was among the steps and ended well.
pub open spec fn has_renamed(outcomes: Seq<bool>) -> bool {
    exists|i: int|
        0 <= i < outcomes.len() && save_run(#[trigger] outcomes.take(i)) is Rename && outcomes[i]
}

/// A save ends within five steps; it ends well exactly if the rename did, and only a save
/// that did not rename removes the temporary file.
pub proof fn save_replaces_the_file_or_leaves_it(outcomes: Seq<bool>)
    ensures
        outcomes.len() >= 5 ==> save_run(outcomes) is Saved || save_run(outcomes) is Failed,
        save_run(outcomes) is SyncFolder || save_run(outcomes) is Saved <==> has_renamed(outcomes),
        save_run(outcomes) is RemoveTemporary || save_run(outcomes) is Failed ==> !has_renamed(
            outcomes,
        ),
    decreases outcomes.len(),
{
    if outcomes.len() > 0 {
        let before = outcomes.drop_last();
        save_replaces_the_file_or_leaves_it(before);
        let last = outcomes.len() - 1;
        assert(outcomes.take(last) =~= before);
        assert forall|i: int| 0 <= i < last implies outcomes.take(i) == #[trigger] before.take(
            i,
        ) by {
            assert(outcomes.take(i) =~= before.take(i));
        }
        if has_renamed(before) {
            let i = choose|i: int|
                0 <= i < before.len() && save_run(#[trigger] before.take(i)) is Rename && before[i];
            assert(outcomes.take(i) == before.take(i));
            assert(outcomes[i]);
        }
        if has_renamed(outcomes) {
            let i = choose|i: int|
                0 <= i < outcomes.len() && save_run(#[trigger] outcomes.take(i)) is Rename
                    && outcomes[i];
            if i < last {
                assert(outcomes.take(i) == before.take(i));
                assert(before[i]);
            }
        }
        save_steps_in_order(outcomes);
    }
}

/// Each step of a save comes at a fixed place or one after it.
proof fn save_steps_in_order(outcomes: Seq<bool>)
    ensures
        save_run(outcomes) is WriteTemporary ==> outcomes.len() <= 0,
        save_run(outcomes) is ReadPermissions ==> outcomes.len() <= 1,
        save_run(outcomes) is CopyPermissions ==> outcomes.len() <= 2,
        save_run(outcomes) is Rename ==> outcomes.len() <= 3,
        save_run(outcomes) is SyncFolder ==> outcomes.len() <= 4,
        save_run(outcomes) is RemoveTemporary ==> outcomes.len() <= 4,
    decreases outcomes.len(),
{
    if outcomes.len() > 0 {
        save_steps_in_order(outcomes.drop_last());
    }
}

}
