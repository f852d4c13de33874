//! What holds of every document, whatever it is told.

use crate::conflict::FileFingerprint;
use crate::document::{
    changed_on_disk, Action, Autosaved, ConflictAnswer, DiscardAnswer, Document, Failure, File,
    Input, Notice, Phase, Then, ViewMode,
};
use vstd::prelude::*;

verus! {

/// Whether something a document is told is a command rather than an answer.
pub open spec fn is_command(input: Input) -> bool {
    match input {
        Input::New | Input::Open | Input::OpenFile(_) | Input::Save | Input::SaveAs | Input::Export(
            _,
        ) | Input::Close | Input::Autosave | Input::Backup | Input::DiskChanged
        | Input::AskWaitingConflict | Input::DiskDeleted | Input::Restore => true,
        _ => false,
    }
}

/// A command never lands in the middle of another one: it changes nothing until its turn.
pub proof fn commands_wait_their_turn(document: Document, input: Input)
    requires
        document.phase != Phase::Idle,
        is_command(input),
    ensures
        document.next(input) == (document, Action::Wait),
{
}

/// How many answers a command may still wait for.
pub open spec fn answers_left(phase: Phase) -> int {
    match phase {
        Phase::Idle => 0,
        Phase::OpenFailed { .. } => 1,
        Phase::AskingClose => 1,
        Phase::Autosaving => 1,
        Phase::Restoring => 1,
        Phase::Reading { .. } => 2,
        Phase::ChoosingOpen => 3,
        Phase::Going(_) => 4,
        Phase::Writing(_, _) => 5,
        Phase::FindingElsewhere(_, _) => 6,
        Phase::ChoosingSave(_) => 7,
        Phase::AskingDiscard(_) => 10,
        Phase::AskingConflict(_) => 8,
        Phase::CheckingChange => 9,
        Phase::CheckingSave(_) => 9,
        Phase::CheckingDeleted => 10,
    }
}

/// Every command ends: each answer that a document takes leaves fewer to wait for.
pub proof fn every_command_ends(document: Document, input: Input)
    requires
        document.phase != Phase::Idle,
        document.next(input).1 != Action::Wait,
    ensures
        answers_left(document.next(input).0.phase) < answers_left(document.phase),
{
}

/// While a change on disk waits for a decision, autosave does nothing.
pub proof fn autosave_holds_off_during_a_conflict(document: Document)
    requires
        document.phase == Phase::Idle,
        document.in_conflict,
    ensures
        document.next(Input::Autosave) == (document, Action::Finish),
{
}

/// A document closes only if it has no unsaved changes or the user said to close without saving.
pub proof fn closing_asks_about_unsaved_changes(document: Document, input: Input)
    ensures
        document.next(input).1 == Action::Close ==> {
            ||| document.phase == Phase::Idle && input == Input::Close && !document.modified
            ||| document.phase == Phase::AskingClose && input == Input::CloseAnswer(true)
        },
{
}

/// The document's text is written to a file only if the file is as it was last known or cannot
/// be looked at, or the user said so: to overwrite it, or to save there while no other document
/// holds it.
pub proof fn saving_never_overwrites_silently(document: Document, input: Input)
    ensures
        match document.next(input).1 {
            Action::WriteFile(file) => match (document.phase, input) {
                (Phase::CheckingSave(_), Input::Fingerprint { current, .. }) => document.file
                    == Some(file) && !changed_on_disk(document.fingerprint, current),
                (Phase::AskingConflict(_), Input::Conflict(answer)) => document.file == Some(
                    file,
                ) && answer == ConflictAnswer::Overwrite,
                (Phase::FindingElsewhere(chosen, _), Input::Elsewhere(elsewhere)) => chosen
                    == file && !elsewhere,
                _ => false,
            },
            Action::Autosave { file, known } => document.file == Some(file) && known
                == document.fingerprint && !document.in_conflict && document.modified && input
                == Input::Autosave,
            _ => true,
        },
{
}

/// Unsaved changes go only when what was written is still the text, when the file was read, or
/// when the user said to discard them or to reload.
pub proof fn unsaved_changes_do_not_vanish(document: Document, input: Input)
    requires
        document.modified,
        !document.next(input).0.modified,
    ensures
        match input {
            Input::Written { unchanged, .. } => unchanged && document.phase is Writing,
            Input::Autosaved { outcome, unchanged, .. } => outcome == Autosaved::Saved
                && unchanged,
            Input::Read { elsewhere, .. } => !elsewhere && document.phase is Reading,
            Input::Discard(answer) => answer == DiscardAnswer::Discard && document.phase
                == Phase::AskingDiscard(Then::StartAnew),
            Input::Conflict(answer) => answer == ConflictAnswer::Reload,
            Input::Done => document.phase == Phase::Going(Then::StartAnew),
            _ => false,
        },
{
}

/// A file that was deleted leaves its text behind, in an untitled document with unsaved changes.
pub proof fn deleted_files_leave_their_text(document: Document)
    requires
        document.phase == Phase::CheckingDeleted,
    ensures
        ({
            let (next, action) = document.next(Input::Exists(false));
            &&& next.modified
            &&& next.file is None
            &&& next.empty == document.empty
            &&& !next.in_conflict
            &&& next.phase == Phase::Idle
            &&& action == Action::BecomeUntitled
        }),
{
}

/// A conflict lasts until the file is read or written, or is gone, or the document starts anew,
/// or it is about to be asked about again; dismissing the question does not end it.
pub proof fn conflicts_last_until_settled(document: Document, input: Input)
    requires
        document.in_conflict,
        !document.next(input).0.in_conflict,
    ensures
        match input {
            Input::Read { .. } => document.next(input).1 == Action::Load,
            Input::Written { .. } => document.next(input).1 == Action::Adopt,
            Input::Exists(exists) => !exists,
            Input::AskWaitingConflict => true,
            Input::New | Input::Discard(_) | Input::Done => document.next(input).1
                == Action::StartAnew,
            _ => false,
        },
{
}

/// A file that fails to open leaves the document as it was, free for another, and takes a
/// document that was made for it along.
pub proof fn failed_files_leave_no_trace(document: Document)
    requires
        document.phase == (Phase::OpenFailed { reload: false }),
    ensures
        ({
            let (next, action) = document.next(Input::Done);
            &&& next == (Document {
                reserved: false,
                claimed: None,
                made_for_file: false,
                phase: Phase::Idle,
                ..document
            })
            &&& action == (if document.made_for_file && next.blank() {
                Action::DiscardBlank
            } else {
                Action::Finish
            })
        }),
{
}

/// What a document becomes and asks for last when it is told one thing after another.
pub open spec fn told(document: Document, inputs: Seq<Input>) -> (Document, Action)
    decreases inputs.len(),
{
    if inputs.len() == 0 {
        (document, Action::Finish)
    } else {
        told(document, inputs.drop_last()).0.next(inputs.last())
    }
}

/// Two things told one after the other.
proof fn told_two(document: Document, first: Input, second: Input)
    ensures
        told(document, seq![first]) == document.next(first),
        told(document, seq![first, second]) == document.next(first).0.next(second),
{
    reveal_with_fuel(told, 3);
    assert(seq![first].drop_last() =~= Seq::<Input>::empty());
    assert(seq![first, second].drop_last() =~= seq![first]);
}

/// Three things told one after the other.
proof fn told_three(document: Document, first: Input, second: Input, third: Input)
    ensures
        told(document, seq![first, second, third]) == document.next(first).0.next(second).0.next(
            third,
        ),
{
    told_two(document, first, second);
    assert(seq![first, second, third].drop_last() =~= seq![first, second]);
}

/// A file whose time or size is not the one last known is not written over, and is not passed
/// over in silence: the user is asked, or the tab is marked while it is not selected.
pub proof fn changes_on_disk_are_asked_about(
    document: Document,
    known: FileFingerprint,
    now: FileFingerprint,
    selected: bool,
)
    requires
        document.fingerprint == Some(known),
        now.mtime.secs != known.mtime.secs || now.mtime.nanos != known.mtime.nanos || now.size
            != known.size,
    ensures
        ({
            let (next, action) = document.next(
                Input::Fingerprint { current: Some(now), selected },
            );
            &&& document.phase matches Phase::CheckingSave(then) ==> {
                &&& action == Action::AskConflict
                &&& next == Document {
                    in_conflict: true,
                    phase: Phase::AskingConflict(then),
                    ..document
                }
            }
            &&& document.phase == Phase::CheckingChange && selected ==> {
                &&& action == Action::AskConflict
                &&& next == Document {
                    in_conflict: true,
                    phase: Phase::AskingConflict(Then::Nothing),
                    ..document
                }
            }
            &&& document.phase == Phase::CheckingChange && !selected ==> {
                &&& action == Action::MarkTab
                &&& next == Document {
                    in_conflict: true,
                    conflict_waiting: true,
                    phase: Phase::Idle,
                    ..document
                }
            }
        }),
{
}

/// A file whose time and size are the ones last known, or that cannot be looked at, or of which
/// nothing is known, is saved without a question, and a report of its change is passed over.
pub proof fn unchanged_files_are_not_asked_about(
    document: Document,
    current: Option<FileFingerprint>,
    selected: bool,
)
    requires
        match (document.fingerprint, current) {
            (Some(known), Some(now)) => now.mtime.secs == known.mtime.secs && now.mtime.nanos
                == known.mtime.nanos && now.size == known.size,
            _ => true,
        },
    ensures
        ({
            let (next, action) = document.next(Input::Fingerprint { current, selected });
            &&& document.phase matches Phase::CheckingSave(then) ==> document.file matches Some(
                file,
            ) ==> file.local ==> {
                &&& action == Action::WriteFile(file)
                &&& next == Document { phase: Phase::Writing(file, then), ..document }
            }
            &&& document.phase == Phase::CheckingChange ==> {
                &&& action == Action::Finish
                &&& next == Document { phase: Phase::Idle, ..document }
            }
        }),
{
}

/// The text goes to the document's file only if the file's time and size are the ones last
/// known, where both are known, or the user said to overwrite it.
pub proof fn changed_files_are_only_overwritten_when_told(document: Document, input: Input)
    requires
        document.phase is CheckingSave || document.phase is AskingConflict,
        document.next(input).1 is WriteFile,
    ensures
        document.next(input).1 == Action::WriteFile(document.file->0),
        match input {
            Input::Fingerprint { current, .. } => match (document.fingerprint, current) {
                (Some(known), Some(now)) => now.mtime.secs == known.mtime.secs && now.mtime.nanos
                    == known.mtime.nanos && now.size == known.size,
                _ => true,
            },
            Input::Conflict(answer) => answer == ConflictAnswer::Overwrite,
            _ => false,
        },
{
}

/// Saving looks at the file, writes it if it is as it was last known, and remembers it as it was
/// written: the document has no unsaved changes then unless it was typed in meanwhile.
pub proof fn saving_writes_the_file(
    document: Document,
    file: File,
    fingerprint: Option<FileFingerprint>,
    canonical: Option<u64>,
    selected: bool,
    unchanged: bool,
)
    requires
        document.phase == Phase::Idle,
        document.file == Some(file),
        file.local,
    ensures
        ({
            let look = Input::Fingerprint { current: document.fingerprint, selected };
            let write = Input::Written { fingerprint, canonical, unchanged };
            let (saved, action) = told(document, seq![Input::Save, look, write]);
            &&& told(document, seq![Input::Save]).1 == Action::ReadFingerprint
            &&& told(document, seq![Input::Save, look]).1 == Action::WriteFile(file)
            &&& action == Action::Adopt
            &&& saved.phase == Phase::Idle
            &&& saved.file == Some(file)
            &&& saved.fingerprint == fingerprint
            &&& saved.canonical == canonical
            &&& saved.modified == (document.modified && !unchanged)
            &&& saved.empty == document.empty
            &&& !saved.in_conflict
            &&& !saved.conflict_waiting
        }),
{
    let look = Input::Fingerprint { current: document.fingerprint, selected };
    let write = Input::Written { fingerprint, canonical, unchanged };
    told_two(document, Input::Save, look);
    told_three(document, Input::Save, look, write);
}

/// A file that was just written is no conflict: saving again with the file as it was left writes
/// it without a question, and a report of its change is passed over.
pub proof fn own_changes_are_no_conflict(
    document: Document,
    file: File,
    then: Then,
    written: FileFingerprint,
    canonical: Option<u64>,
    unchanged: bool,
    selected: bool,
)
    requires
        document.phase == Phase::Writing(file, then),
        file.local,
        then == Then::Nothing,
    ensures
        ({
            let saved = document.next(
                Input::Written { fingerprint: Some(written), canonical, unchanged },
            ).0;
            let look = Input::Fingerprint { current: Some(written), selected };
            &&& told(saved, seq![Input::Save, look]).1 == Action::WriteFile(file)
            &&& told(saved, seq![Input::DiskChanged]).1 == Action::ReadFingerprint
            &&& told(saved, seq![Input::DiskChanged, look]) == (saved, Action::Finish)
        }),
{
    let saved = document.next(
        Input::Written { fingerprint: Some(written), canonical, unchanged },
    ).0;
    let look = Input::Fingerprint { current: Some(written), selected };
    told_two(saved, Input::Save, look);
    told_two(saved, Input::DiskChanged, look);
}

/// Saving a document without a file, or elsewhere, asks where to, and writes there unless
/// another document holds that file or it has no local path.
pub proof fn saving_elsewhere_asks_where(document: Document, command: Input, file: File)
    requires
        document.phase == Phase::Idle,
        command == Input::SaveAs || (command == Input::Save && document.file is None),
    ensures
        ({
            let chosen = Input::Chosen(Some(file));
            &&& told(document, seq![command]).1 == Action::ChooseToSave
            &&& told(document, seq![command, Input::Chosen(None)]) == (document, Action::Finish)
            &&& told(document, seq![command, chosen]).1 == Action::FindElsewhere(file)
            &&& told(document, seq![command, chosen, Input::Elsewhere(true)]) == (
                document,
                Action::PresentError(Failure::OpenElsewhere),
            )
            &&& told(document, seq![command, chosen, Input::Elsewhere(false)]) == (
            if file.local {
                (
                    Document { phase: Phase::Writing(file, Then::Nothing), ..document },
                    Action::WriteFile(file),
                )
            } else {
                (document, Action::PresentError(Failure::SaveOnlyLocal))
            })
        }),
{
    let chosen = Input::Chosen(Some(file));
    told_two(document, command, Input::Chosen(None));
    told_two(document, command, chosen);
    told_three(document, command, chosen, Input::Elsewhere(true));
    told_three(document, command, chosen, Input::Elsewhere(false));
}

/// A save that fails leaves the document as it was, unsaved changes and all.
pub proof fn failed_saves_change_nothing(document: Document, file: File)
    requires
        document.phase == Phase::Writing(file, Then::Nothing),
    ensures
        document.next(Input::WriteFailed) == (
            Document { phase: Phase::Idle, ..document },
            Action::PresentError(Failure::Save),
        ),
{
}

/// The user's answer to a change on disk is done: dismissing changes nothing, reloading reads the
/// document's file, overwriting writes it, and saving elsewhere asks where to.
pub proof fn conflict_answers_are_done(document: Document, file: File)
    requires
        document.phase == Phase::AskingConflict(Then::Nothing),
        document.file == Some(file),
        file.local,
    ensures
        document.next(Input::Conflict(ConflictAnswer::Dismiss)) == (
            Document { phase: Phase::Idle, ..document },
            Action::Finish,
        ),
        document.next(Input::Conflict(ConflictAnswer::Reload)) == (
            Document {
                modified: false,
                phase: Phase::Reading { file, reload: true },
                ..document
            },
            Action::ReadFile(file),
        ),
        document.next(Input::Conflict(ConflictAnswer::Overwrite)) == (
            Document { phase: Phase::Writing(file, Then::Nothing), ..document },
            Action::WriteFile(file),
        ),
        document.next(Input::Conflict(ConflictAnswer::SaveAs)) == (
            Document { phase: Phase::ChoosingSave(Then::Nothing), ..document },
            Action::ChooseToSave,
        ),
{
}

/// A conflict that is dismissed, or that waits for its tab, is asked about again as if it were
/// new: the file is looked at afresh.
pub proof fn waiting_conflicts_are_asked_about(
    document: Document,
    file: File,
    known: FileFingerprint,
    now: FileFingerprint,
)
    requires
        document.phase == Phase::Idle,
        document.in_conflict,
        document.file == Some(file),
        file.local,
        document.fingerprint == Some(known),
    ensures
        ({
            let look = Input::Fingerprint { current: Some(now), selected: true };
            let again = told(document, seq![Input::AskWaitingConflict, look]);
            &&& told(document, seq![Input::DiskChanged]) == (document, Action::Finish)
            &&& told(document, seq![Input::AskWaitingConflict]).1 == Action::ReadFingerprint
            &&& now.mtime == known.mtime && now.size == known.size ==> again == (
                Document { in_conflict: false, ..document },
                Action::Finish,
            )
            &&& now.mtime != known.mtime || now.size != known.size ==> again == (
                Document { phase: Phase::AskingConflict(Then::Nothing), ..document },
                Action::AskConflict,
            )
        }),
{
    let look = Input::Fingerprint { current: Some(now), selected: true };
    told_two(document, Input::AskWaitingConflict, look);
    told_two(document, Input::DiskChanged, look);
}

/// Opening a file reads it, and the document is then what was read: it has that file, no unsaved
/// changes and no conflict, and shows its preview. A file that another document holds changes
/// nothing.
pub proof fn opening_reads_the_file(
    document: Document,
    file: File,
    fingerprint: Option<FileFingerprint>,
    canonical: Option<u64>,
    empty: bool,
)
    requires
        document.phase == Phase::Idle,
        !document.modified,
        file.local,
    ensures
        ({
            let open = Input::OpenFile(file);
            let read = Input::Read { fingerprint, canonical, empty, elsewhere: false };
            let held = Input::Read { fingerprint, canonical, empty, elsewhere: true };
            let (next, action) = told(document, seq![open, read]);
            &&& told(document, seq![open]).1 == Action::ReadFile(file)
            &&& action == Action::Load
            &&& next.file == Some(file)
            &&& next.fingerprint == fingerprint
            &&& next.canonical == canonical
            &&& next.empty == empty
            &&& !next.modified
            &&& !next.in_conflict
            &&& !next.conflict_waiting
            &&& !next.reserved
            &&& next.claimed is None
            &&& !next.made_for_file
            &&& next.views.mode == ViewMode::Preview
            &&& next.phase == Phase::Idle
            &&& told(document, seq![open, held]) == (
                Document { phase: Phase::OpenFailed { reload: false }, ..document },
                Action::PresentOther,
            )
            &&& told(document, seq![open, Input::ReadFailed]) == (
                Document { phase: Phase::OpenFailed { reload: false }, ..document },
                Action::ShowError(Failure::Open),
            )
        }),
{
    let open = Input::OpenFile(file);
    let read = Input::Read { fingerprint, canonical, empty, elsewhere: false };
    let held = Input::Read { fingerprint, canonical, empty, elsewhere: true };
    told_two(document, open, read);
    told_two(document, open, held);
    told_two(document, open, Input::ReadFailed);
}

/// Reading the document's file again keeps the view the user is in.
pub proof fn reloading_keeps_the_view(
    document: Document,
    file: File,
    fingerprint: Option<FileFingerprint>,
    canonical: Option<u64>,
    empty: bool,
)
    requires
        document.phase == (Phase::Reading { file, reload: true }),
    ensures
        document.next(Input::Read { fingerprint, canonical, empty, elsewhere: false }) == (
            Document {
                file: Some(file),
                fingerprint,
                canonical,
                empty,
                modified: false,
                in_conflict: false,
                conflict_waiting: false,
                phase: Phase::Idle,
                ..document
            },
            Action::Load,
        ),
{
}

/// Unsaved changes are asked about before anything replaces them: until then nothing changes,
/// cancelling leaves the document as it was, discarding goes on as if there were none, and
/// saving saves first.
pub proof fn unsaved_changes_are_asked_about(document: Document, command: Input)
    requires
        document.phase == Phase::Idle,
        document.modified,
        command == Input::New || command == Input::Open || command is OpenFile,
    ensures
        ({
            let (asking, action) = told(document, seq![command]);
            let discarded = told(
                document,
                seq![command, Input::Discard(DiscardAnswer::Discard)],
            );
            let unmodified = (Document { modified: false, ..document }).next(command);
            let (cancelled, nothing) = told(
                document,
                seq![command, Input::Discard(DiscardAnswer::Cancel)],
            );
            let (saving, first) = told(
                document,
                seq![command, Input::Discard(DiscardAnswer::Save)],
            );
            &&& action == Action::AskDiscard
            &&& asking == Document { phase: asking.phase, ..document }
            &&& discarded.1 == unmodified.1
            &&& discarded.0 == Document { modified: discarded.0.modified, ..unmodified.0 }
            &&& nothing == Action::Finish
            &&& command is OpenFile || cancelled == document
            &&& command is OpenFile ==> cancelled == (Document {
                reserved: false,
                claimed: None,
                made_for_file: false,
                ..document
            })
            &&& saving == Document { phase: saving.phase, ..document } || first
                == Action::PresentError(Failure::SaveOnlyLocal)
            &&& document.file is None ==> first == Action::ChooseToSave
            &&& document.file is Some && document.file->0.local ==> first
                == Action::ReadFingerprint
        }),
{
    told_two(document, command, Input::Discard(DiscardAnswer::Discard));
    told_two(document, command, Input::Discard(DiscardAnswer::Cancel));
    told_two(document, command, Input::Discard(DiscardAnswer::Save));
}

/// A document that starts anew is untitled and empty, with nothing to save.
pub proof fn new_documents_are_empty(document: Document)
    requires
        document.phase == Phase::Idle,
        !document.modified,
    ensures
        ({
            let (next, action) = document.next(Input::New);
            &&& action == Action::StartAnew
            &&& next.file is None
            &&& next.fingerprint is None
            &&& next.canonical is None
            &&& next.empty
            &&& !next.modified
            &&& !next.in_conflict
            &&& !next.conflict_waiting
            &&& next.views.mode == ViewMode::Edit
            &&& next.phase == Phase::Idle
        }),
{
}

/// What a command was held up for by unsaved changes follows once they are saved.
pub proof fn commands_go_on_after_saving(
    document: Document,
    file: File,
    then: Then,
    fingerprint: Option<FileFingerprint>,
    canonical: Option<u64>,
    unchanged: bool,
)
    requires
        document.phase == Phase::Writing(file, then),
    ensures
        ({
            let written = Input::Written { fingerprint, canonical, unchanged };
            let (next, action) = told(document, seq![written, Input::Done]);
            match then {
                Then::Nothing => true,
                Then::StartAnew => action == Action::StartAnew && next.file is None,
                Then::ChooseAndOpen => action == Action::ChooseToOpen && next.file == Some(file),
                Then::Open(other) => action == if other.local {
                    Action::ReadFile(other)
                } else {
                    Action::ShowError(Failure::OpenOnlyLocal)
                },
            }
        }),
{
    told_two(document, Input::Written { fingerprint, canonical, unchanged }, Input::Done);
}

/// Autosave writes unsaved changes to the document's file, if that is as it was last known, and
/// there is a file and no conflict; there is nothing to do otherwise. Only a text that was
/// written counts as saved, and only while it is still the text.
pub proof fn autosave_saves_unsaved_changes(
    document: Document,
    outcome: Autosaved,
    fingerprint: Option<FileFingerprint>,
    unchanged: bool,
)
    requires
        document.phase == Phase::Idle,
    ensures
        ({
            let due = document.modified && !document.in_conflict && document.file is Some
                && document.file->0.local;
            let (next, action) = told(
                document,
                seq![Input::Autosave, Input::Autosaved { outcome, fingerprint, unchanged }],
            );
            &&& !due ==> told(document, seq![Input::Autosave]) == (document, Action::Finish)
            &&& due ==> {
                &&& told(document, seq![Input::Autosave]).1 == (Action::Autosave {
                    file: document.file->0,
                    known: document.fingerprint,
                })
                &&& outcome == Autosaved::Saved ==> action == Action::ClearBackup && next == (
                Document { fingerprint, modified: !unchanged, ..document })
                &&& outcome != Autosaved::Saved ==> next == document && action == Action::Notify(
                    match outcome {
                        Autosaved::ConflictDetected => Notice::AutosavePaused,
                        Autosaved::FileDeleted => Notice::FileGone,
                        _ => Notice::AutosaveFailed,
                    },
                )
            }
        }),
{
    told_two(document, Input::Autosave, Input::Autosaved { outcome, fingerprint, unchanged });
}

/// A file that was reported deleted and is there after all is looked at as one that changed.
pub proof fn files_put_back_are_looked_at(document: Document)
    requires
        document.phase == Phase::Idle,
    ensures
        told(document, seq![Input::DiskDeleted]).1 == Action::CheckExists,
        told(document, seq![Input::DiskDeleted, Input::Exists(true)]) == document.next(
            Input::DiskChanged,
        ),
{
    told_two(document, Input::DiskDeleted, Input::Exists(true));
}

/// Unsaved changes keep a document open until the user says to close without saving.
pub proof fn closing_waits_for_the_user(document: Document)
    requires
        document.phase == Phase::Idle,
    ensures
        !document.modified ==> document.next(Input::Close) == (document, Action::Close),
        document.modified ==> {
            &&& document.next(Input::Close).1 == Action::AskClose
            &&& told(document, seq![Input::Close, Input::CloseAnswer(false)]) == (
                document,
                Action::KeepOpen,
            )
            &&& told(document, seq![Input::Close, Input::CloseAnswer(true)]) == (
                document,
                Action::Close,
            )
        },
{
    told_two(document, Input::Close, Input::CloseAnswer(false));
    told_two(document, Input::Close, Input::CloseAnswer(true));
}

/// Recovered work is unsaved, belongs to the file it was of if that is still there, and is shown
/// in the editor.
pub proof fn recovered_work_is_unsaved(
    document: Document,
    original: Option<File>,
    fingerprint: Option<FileFingerprint>,
    canonical: Option<u64>,
    empty: bool,
)
    requires
        document.phase == Phase::Idle,
    ensures
        ({
            let (next, action) = told(
                document,
                seq![
                    Input::Restore,
                    Input::BackupRead { original, fingerprint, canonical, empty },
                ],
            );
            &&& told(document, seq![Input::Restore]).1 == Action::ReadBackup
            &&& action == Action::Recover
            &&& next.modified
            &&& next.empty == empty
            &&& next.file == original
            &&& original is Some ==> next.fingerprint == fingerprint && next.canonical == canonical
            &&& original is None ==> next.fingerprint is None && next.canonical is None
            &&& !next.reserved
            &&& next.claimed is None
            &&& next.views.mode == ViewMode::Edit
            &&& next.phase == Phase::Idle
            &&& told(document, seq![Input::Restore, Input::BackupFailed]) == (
                Document { reserved: false, claimed: None, ..document },
                Action::PresentError(Failure::Recovery),
            )
        }),
{
    told_two(
        document,
        Input::Restore,
        Input::BackupRead { original, fingerprint, canonical, empty },
    );
    told_two(document, Input::Restore, Input::BackupFailed);
}

}
