//! A document: the file it is of, its view, and the operations on it, which run one at a time.
//!
//! Everything that can wait on a dialog or the disk is an [`Action`] the document asks for, and
//! is answered by an [`Input`]. A command that arrives while another one waits for an answer
//! waits its turn, and sees the state the one before it left.

use crate::conflict::FileFingerprint;
use crate::text::same;
use vstd::prelude::*;
use vstd::string::*;

verus! {

/// Which of the editor and the preview is shown.
#[derive(Debug, Clone, Copy, PartialEq, Eq, Structural)]
pub enum ViewMode {
    Edit,
    Preview,
    Split,
}

impl Default for ViewMode {
    fn default() -> (mode: Self)
        ensures
            mode == ViewMode::Edit,
    {
        ViewMode::Edit
    }
}

impl ViewMode {
    /// The name of the view's toggle in the header bar.
    pub open spec fn name_of(self) -> Seq<char> {
        match self {
            ViewMode::Edit => "edit"@,
            ViewMode::Preview => "preview"@,
            ViewMode::Split => "split"@,
        }
    }

    /// The name of the view's toggle in the header bar.
    pub fn name(self) -> (name: &'static str)
        ensures
            name@ == self.name_of(),
    {
        match self {
            ViewMode::Edit => "edit",
            ViewMode::Preview => "preview",
            ViewMode::Split => "split",
        }
    }

    /// The view of a name.
    pub open spec fn named(name: Seq<char>) -> Option<ViewMode> {
        if name == "edit"@ {
            Some(ViewMode::Edit)
        } else if name == "preview"@ {
            Some(ViewMode::Preview)
        } else if name == "split"@ {
            Some(ViewMode::Split)
        } else {
            None
        }
    }

    /// The view of a name.
    pub fn from_name(name: &str) -> (mode: Option<Self>)
        ensures
            mode == ViewMode::named(name@),
    {
        if same(name, "edit") {
            Some(ViewMode::Edit)
        } else if same(name, "preview") {
            Some(ViewMode::Preview)
        } else if same(name, "split") {
            Some(ViewMode::Split)
        } else {
            None
        }
    }
}

/// A view is found by its name, and no other name finds it.
pub proof fn views_are_found_by_their_names(mode: ViewMode, name: Seq<char>)
    ensures
        ViewMode::named(name) == Some(mode) <==> name == mode.name_of(),
{
    reveal_strlit("edit");
    reveal_strlit("preview");
    reveal_strlit("split");
    assert("edit"@.len() == 4);
    assert("preview"@.len() == 7);
    assert("split"@.len() == 5);
}

/// The view a document is in, and the single-pane view the split view was entered from, which it
/// falls back to.
#[derive(Debug, Clone, Copy, PartialEq, Eq, Structural)]
pub struct Views {
    pub mode: ViewMode,
    pub last_single: ViewMode,
}

impl Views {
    /// The views once `mode` is shown.
    pub open spec fn showing(self, mode: ViewMode) -> Views {
        Views {
            mode,
            last_single: if self.mode != mode && mode != ViewMode::Split {
                mode
            } else {
                self.last_single
            },
        }
    }

    /// Show `mode`, and say whether the view changes, which closes an open search.
    pub fn set_view_mode(&mut self, mode: ViewMode) -> (changed: bool)
        ensures
            *final(self) == old(self).showing(mode),
            changed == (old(self).mode != mode),
    {
        let changed = self.mode != mode;
        if changed && mode != ViewMode::Split {
            self.last_single = mode;
        }
        self.mode = mode;
        changed
    }

    /// Go back to the view the split view was entered from, if it is shown: the window became
    /// too narrow for it.
    pub fn leave_split(&mut self) -> (changed: bool)
        ensures
            *final(self) == (if old(self).mode == ViewMode::Split {
                old(self).showing(old(self).last_single)
            } else {
                *old(self)
            }),
            changed == (old(self).mode == ViewMode::Split && old(self).last_single
                != ViewMode::Split),
    {
        if self.mode == ViewMode::Split {
            let mode = self.last_single;
            self.set_view_mode(mode)
        } else {
            false
        }
    }

    /// Whether the preview is in sight.
    pub fn preview_visible(&self) -> (visible: bool)
        ensures
            visible == (self.mode != ViewMode::Edit),
    {
        self.mode != ViewMode::Edit
    }

    /// Whether the single-pane view is one.
    pub open spec fn wf(self) -> bool {
        self.last_single != ViewMode::Split && (self.mode == ViewMode::Split || self.mode
            == self.last_single)
    }
}

/// The split view falls back to the single-pane view that was shown before it, whatever was
/// shown since then in the same way.
pub proof fn split_falls_back(views: Views, mode: ViewMode)
    requires
        views.wf(),
    ensures
        views.showing(mode).wf(),
        views.mode != ViewMode::Split ==> views.showing(ViewMode::Split).last_single
            == views.mode,
        views.mode == ViewMode::Split ==> views.showing(views.last_single).mode
            == views.last_single,
{
}

/// A file, by a number that tells it from other files, and whether it has a local path.
#[derive(Debug, Clone, Copy, PartialEq, Eq, Structural)]
pub struct File {
    pub id: u64,
    pub local: bool,
}

/// What is done once unsaved changes are out of the way.
#[derive(Debug, Clone, Copy, PartialEq, Eq, Structural)]
pub enum Then {
    Nothing,
    StartAnew,
    ChooseAndOpen,
    Open(File),
}

/// What a document waits for.
#[derive(Debug, Clone, Copy, PartialEq, Eq, Structural)]
pub enum Phase {
    /// The next command.
    Idle,
    /// What to do with unsaved changes.
    AskingDiscard(Then),
    /// Which file to open.
    ChoosingOpen,
    /// The text of a file, which replaces that of the same file if it is read again.
    Reading { file: File, reload: bool },
    /// That an error about a file is dismissed.
    OpenFailed { reload: bool },
    /// Whether the file changed on disk before it is saved.
    CheckingSave(Then),
    /// Where to save to.
    ChoosingSave(Then),
    /// Whether the file is open in another document.
    FindingElsewhere(File, Then),
    /// That the text is written.
    Writing(File, Then),
    /// That what was saved is taken note of.
    Going(Then),
    /// Whether to close without saving.
    AskingClose,
    /// How an autosave went.
    Autosaving,
    /// Whether the file changed on disk.
    CheckingChange,
    /// Whether a file that was reported deleted is there.
    CheckingDeleted,
    /// What to do about a change on disk.
    AskingConflict(Then),
    /// The text of a backup.
    Restoring,
}

/// What to do with unsaved changes before they would be replaced.
#[derive(Debug, Clone, Copy, PartialEq, Eq, Structural)]
pub enum DiscardAnswer {
    Cancel,
    Discard,
    Save,
}

/// What to do about a change on disk.
#[derive(Debug, Clone, Copy, PartialEq, Eq, Structural)]
pub enum ConflictAnswer {
    Dismiss,
    Reload,
    Overwrite,
    SaveAs,
}

/// How an autosave went.
#[derive(Debug, Clone, Copy, PartialEq, Eq, Structural)]
pub enum Autosaved {
    Saved,
    ConflictDetected,
    FileDeleted,
    Failed,
}

/// What a document is exported as.
#[derive(Debug, Clone, Copy, PartialEq, Eq, Structural)]
pub enum Format {
    Html,
    Pdf,
}

/// What a document is told: a command, or the answer to an action.
#[derive(Debug, Clone, Copy, PartialEq, Eq, Structural)]
pub enum Input {
    New,
    Open,
    OpenFile(File),
    Save,
    SaveAs,
    Export(Format),
    Close,
    Autosave,
    Backup,
    DiskChanged,
    /// A change on disk that was found while the tab was not selected is asked about.
    AskWaitingConflict,
    DiskDeleted,
    Restore,
    /// What to do with unsaved changes.
    Discard(DiscardAnswer),
    /// The file that was picked, if one was.
    Chosen(Option<File>),
    /// The file was read, and found to be open in another document or not.
    Read {
        fingerprint: Option<FileFingerprint>,
        canonical: Option<u64>,
        empty: bool,
        elsewhere: bool,
    },
    ReadFailed,
    /// The file on disk as it is now, if it could be looked at, and whether the document is the
    /// selected tab of its window.
    Fingerprint { current: Option<FileFingerprint>, selected: bool },
    /// Whether the file is open in another document.
    Elsewhere(bool),
    /// The text was written, and is still what the document holds or not.
    Written { fingerprint: Option<FileFingerprint>, canonical: Option<u64>, unchanged: bool },
    WriteFailed,
    /// How an autosave went; the text written is still what the document holds or not.
    Autosaved { outcome: Autosaved, fingerprint: Option<FileFingerprint>, unchanged: bool },
    /// Whether to close without saving.
    CloseAnswer(bool),
    Conflict(ConflictAnswer),
    /// Whether the file is there.
    Exists(bool),
    /// The backup was read, and the file it was of is still there or not.
    BackupRead {
        original: Option<File>,
        fingerprint: Option<FileFingerprint>,
        canonical: Option<u64>,
        empty: bool,
    },
    BackupFailed,
    /// What was asked for is done.
    Done,
}

/// What went wrong.
#[derive(Debug, Clone, Copy, PartialEq, Eq, Structural)]
pub enum Failure {
    OpenOnlyLocal,
    Open,
    SaveOnlyLocal,
    Save,
    OpenElsewhere,
    Recovery,
}

/// What is told without a question.
#[derive(Debug, Clone, Copy, PartialEq, Eq, Structural)]
pub enum Notice {
    AutosavePaused,
    FileGone,
    AutosaveFailed,
}

/// What a document asks for.
#[derive(Debug, Clone, Copy, PartialEq, Eq, Structural)]
pub enum Action {
    /// Nothing: the command is done.
    Finish,
    /// Nothing yet: the command waits its turn.
    Wait,
    AskDiscard,
    ChooseToOpen,
    ReadFile(File),
    /// Show an error until it is dismissed.
    ShowError(Failure),
    /// Show an error.
    PresentError(Failure),
    /// The text that was read is the document's, and its file is the one that was read.
    Load,
    /// Bring the document that holds the file to the front.
    PresentOther,
    /// Close the document, which was made for a file that failed to open.
    DiscardBlank,
    /// An empty text is the document's.
    StartAnew,
    ReadFingerprint,
    AskConflict,
    WriteFile(File),
    /// The file that was written is the document's.
    Adopt,
    ChooseToSave,
    FindElsewhere(File),
    Export(Format),
    AskClose,
    /// Remove the backup, and let the document close.
    Close,
    /// Keep the document open.
    KeepOpen,
    /// Write the text to the file, unless it is not as it was last known.
    Autosave { file: File, known: Option<FileFingerprint> },
    ClearBackup,
    Notify(Notice),
    WriteBackup,
    /// Mark the document's tab.
    MarkTab,
    CheckExists,
    /// The document has no file any more, and is backed up.
    BecomeUntitled,
    ReadBackup,
    /// The text of the backup is the document's.
    Recover,
}

/// A document.
#[derive(Debug, Clone, Copy, PartialEq, Eq, Structural)]
pub struct Document {
    /// The file the document was opened from or saved to; none while untitled.
    pub file: Option<File>,
    /// The file as it was when last read or written, to tell other programs' changes.
    pub fingerprint: Option<FileFingerprint>,
    /// The file's path with symbolic links resolved, by a number that tells it from others.
    pub canonical: Option<u64>,
    /// A change on disk is waiting for the user's decision; autosave holds off until then.
    pub in_conflict: bool,
    /// The change on disk was found while the document's tab was not selected, and the question
    /// about it waits until the tab is.
    pub conflict_waiting: bool,
    /// The text has changes that are not saved.
    pub modified: bool,
    /// There is no text.
    pub empty: bool,
    /// A file or a backup is on its way into this document, which is no longer blank.
    pub reserved: bool,
    /// The file on its way in, which is not to be opened anywhere else meanwhile.
    pub claimed: Option<File>,
    /// The document was made for the file on its way in, and goes if the file cannot be opened.
    pub made_for_file: bool,
    pub views: Views,
    pub phase: Phase,
}

/// Whether another program changed the file since it was last read or written.
pub open spec fn changed_on_disk(
    known: Option<FileFingerprint>,
    current: Option<FileFingerprint>,
) -> bool {
    known is Some && current is Some && known != current
}

/// Whether another program changed the file since it was last read or written.
fn has_changed(known: Option<FileFingerprint>, current: Option<FileFingerprint>) -> (changed: bool)
    ensures
        changed == changed_on_disk(known, current),
{
    match (known, current) {
        (Some(known), Some(current)) => current.conflicts_with(&known),
        _ => false,
    }
}

impl Document {
    /// A new, untitled document.
    pub open spec fn fresh() -> Document {
        Document {
            file: None,
            fingerprint: None,
            canonical: None,
            in_conflict: false,
            conflict_waiting: false,
            modified: false,
            empty: true,
            reserved: false,
            claimed: None,
            made_for_file: false,
            views: Views { mode: ViewMode::Edit, last_single: ViewMode::Edit },
            phase: Phase::Idle,
        }
    }

    /// Whether the document is an untitled one that was never typed in.
    pub open spec fn blank(self) -> bool {
        !self.reserved && self.file is None && !self.modified && self.empty
    }

    /// Whether `file` is open in the document, or on its way into it.
    pub open spec fn has(self, file: File) -> bool {
        self.claimed == Some(file) || self.file == Some(file)
    }

    /// The document in another phase, and what it asks for.
    pub open spec fn at(self, phase: Phase, action: Action) -> (Document, Action) {
        (Document { phase, ..self }, action)
    }

    /// The document with nothing on its way in.
    pub open spec fn released(self) -> Document {
        Document { reserved: false, claimed: None, ..self }
    }

    /// A file is read.
    pub open spec fn read(self, file: File, reload: bool) -> (Document, Action) {
        if file.local {
            self.at(Phase::Reading { file, reload }, Action::ReadFile(file))
        } else {
            self.at(Phase::OpenFailed { reload }, Action::ShowError(Failure::OpenOnlyLocal))
        }
    }

    /// A file could not be opened, and that was said. A document made for the file alone is of
    /// no use without it.
    pub open spec fn give_up(self) -> (Document, Action) {
        let next = Document { made_for_file: false, ..self.released() };
        next.at(
            Phase::Idle,
            if self.made_for_file && next.blank() {
                Action::DiscardBlank
            } else {
                Action::Finish
            },
        )
    }

    /// The text of a file was read.
    pub open spec fn loaded(
        self,
        file: File,
        reload: bool,
        fingerprint: Option<FileFingerprint>,
        canonical: Option<u64>,
        empty: bool,
    ) -> (Document, Action) {
        let next = Document {
            file: Some(file),
            fingerprint,
            canonical,
            in_conflict: false,
            conflict_waiting: false,
            modified: false,
            empty,
            ..self
        };
        (if reload {
            next
        } else {
            Document {
                made_for_file: false,
                views: self.views.showing(ViewMode::Preview),
                ..next.released()
            }
        }).at(Phase::Idle, Action::Load)
    }

    /// The document once what follows does not: a file on its way in does not come.
    pub open spec fn ended(self, then: Then) -> Document {
        match then {
            Then::Open(_) => Document { made_for_file: false, ..self.released() },
            _ => self,
        }
    }

    /// The command ends before what follows.
    pub open spec fn stop(self, then: Then, action: Action) -> (Document, Action) {
        self.ended(then).at(Phase::Idle, action)
    }

    /// What follows once unsaved changes are out of the way.
    pub open spec fn go(self, then: Then) -> (Document, Action) {
        match then {
            Then::Nothing => self.at(Phase::Idle, Action::Finish),
            Then::StartAnew => (Document {
                reserved: self.reserved,
                claimed: self.claimed,
                made_for_file: self.made_for_file,
                ..Document::fresh()
            }).at(Phase::Idle, Action::StartAnew),
            Then::ChooseAndOpen => self.at(Phase::ChoosingOpen, Action::ChooseToOpen),
            Then::Open(file) => self.read(file, false),
        }
    }

    /// What follows once unsaved changes, if there are any, are asked about.
    pub open spec fn guard(self, then: Then) -> (Document, Action) {
        if self.modified {
            self.at(Phase::AskingDiscard(then), Action::AskDiscard)
        } else {
            self.go(then)
        }
    }

    /// The text is saved to `file`.
    pub open spec fn save_to(self, file: File, then: Then) -> (Document, Action) {
        if file.local {
            self.at(Phase::Writing(file, then), Action::WriteFile(file))
        } else {
            self.stop(then, Action::PresentError(Failure::SaveOnlyLocal))
        }
    }

    /// The text is saved: to the document's file, or where the user says if it has none.
    pub open spec fn save_for(self, then: Then) -> (Document, Action) {
        match self.file {
            Some(file) => self.save_to(file, then),
            None => self.at(Phase::ChoosingSave(then), Action::ChooseToSave),
        }
    }

    /// The user is asked about a change on disk.
    pub open spec fn ask_conflict(self, then: Then) -> (Document, Action) {
        (Document { in_conflict: true, ..self }).at(
            Phase::AskingConflict(then),
            Action::AskConflict,
        )
    }

    /// The text is to be saved: to the document's file if that is not changed on disk, or where
    /// the user says if it has none.
    pub open spec fn save(self, then: Then) -> (Document, Action) {
        if self.file is Some && self.file->0.local {
            self.at(Phase::CheckingSave(then), Action::ReadFingerprint)
        } else {
            self.save_for(then)
        }
    }

    /// The file may have changed on disk.
    pub open spec fn look_for_change(self) -> (Document, Action) {
        if self.in_conflict || self.file is None || !self.file->0.local {
            self.at(Phase::Idle, Action::Finish)
        } else {
            self.at(Phase::CheckingChange, Action::ReadFingerprint)
        }
    }

    /// A command is run.
    pub open spec fn command(self, input: Input) -> (Document, Action) {
        match input {
            Input::New => self.guard(Then::StartAnew),
            Input::Open => self.guard(Then::ChooseAndOpen),
            Input::OpenFile(file) => self.guard(Then::Open(file)),
            Input::Save => self.save(Then::Nothing),
            Input::SaveAs => self.at(Phase::ChoosingSave(Then::Nothing), Action::ChooseToSave),
            Input::Export(format) => self.at(Phase::Idle, Action::Export(format)),
            Input::Close => if self.modified {
                self.at(Phase::AskingClose, Action::AskClose)
            } else {
                self.at(Phase::Idle, Action::Close)
            },
            Input::Autosave => if self.in_conflict || !self.modified || self.file is None
                || !self.file->0.local {
                self.at(Phase::Idle, Action::Finish)
            } else {
                self.at(
                    Phase::Autosaving,
                    Action::Autosave { file: self.file->0, known: self.fingerprint },
                )
            },
            Input::Backup => self.at(Phase::Idle, Action::WriteBackup),
            Input::DiskChanged => self.look_for_change(),
            // Asked afresh: the file may have been put back meanwhile.
            Input::AskWaitingConflict => (Document {
                in_conflict: false,
                ..self
            }).look_for_change(),
            Input::DiskDeleted => self.at(Phase::CheckingDeleted, Action::CheckExists),
            Input::Restore => self.at(Phase::Restoring, Action::ReadBackup),
            _ => (self, Action::Finish),
        }
    }

    /// The file on disk was looked at before it is saved.
    pub open spec fn looked_to_save(self, then: Then, current: Option<FileFingerprint>) -> (
        Document,
        Action,
    ) {
        if changed_on_disk(self.fingerprint, current) {
            self.ask_conflict(then)
        } else {
            self.save_for(then)
        }
    }

    /// The file on disk was looked at.
    pub open spec fn looked(self, current: Option<FileFingerprint>, selected: bool) -> (
        Document,
        Action,
    ) {
        if !changed_on_disk(self.fingerprint, current) {
            self.at(Phase::Idle, Action::Finish)
        } else if selected {
            self.ask_conflict(Then::Nothing)
        } else {
            // Asking now would switch tabs while the user works in another.
            (Document { in_conflict: true, conflict_waiting: true, ..self }).at(
                Phase::Idle,
                Action::MarkTab,
            )
        }
    }

    /// An autosave went one way or another.
    pub open spec fn autosaved(
        self,
        outcome: Autosaved,
        fingerprint: Option<FileFingerprint>,
        unchanged: bool,
    ) -> (Document, Action) {
        match outcome {
            Autosaved::Saved => (Document {
                fingerprint,
                modified: self.modified && !unchanged,
                ..self
            }).at(Phase::Idle, Action::ClearBackup),
            Autosaved::ConflictDetected => self.at(
                Phase::Idle,
                Action::Notify(Notice::AutosavePaused),
            ),
            Autosaved::FileDeleted => self.at(Phase::Idle, Action::Notify(Notice::FileGone)),
            Autosaved::Failed => self.at(Phase::Idle, Action::Notify(Notice::AutosaveFailed)),
        }
    }

    /// The user said what to do about a change on disk.
    pub open spec fn settle(self, answer: ConflictAnswer, then: Then) -> (Document, Action) {
        match answer {
            ConflictAnswer::Dismiss => self.stop(then, Action::Finish),
            ConflictAnswer::Reload => match self.file {
                // Reloading discards the changes but keeps the view the user is in.
                Some(file) => (Document { modified: false, ..self.ended(then) }).read(file, true),
                None => self.stop(then, Action::Finish),
            },
            ConflictAnswer::Overwrite => match self.file {
                Some(file) => self.save_to(file, then),
                None => self.stop(then, Action::Finish),
            },
            ConflictAnswer::SaveAs => self.at(Phase::ChoosingSave(then), Action::ChooseToSave),
        }
    }

    /// The file is gone: the document becomes untitled, so nothing is lost and the next save
    /// asks where to.
    pub open spec fn orphaned(self) -> (Document, Action) {
        (Document {
            file: None,
            fingerprint: None,
            canonical: None,
            in_conflict: false,
            conflict_waiting: false,
            modified: true,
            ..self
        }).at(Phase::Idle, Action::BecomeUntitled)
    }

    /// An answer comes in.
    pub open spec fn answer(self, input: Input) -> (Document, Action) {
        match (self.phase, input) {
            (Phase::AskingDiscard(then), Input::Discard(answer)) => match answer {
                DiscardAnswer::Cancel => self.stop(then, Action::Finish),
                DiscardAnswer::Discard => self.go(then),
                DiscardAnswer::Save => self.save(then),
            },
            (Phase::ChoosingOpen, Input::Chosen(chosen)) => match chosen {
                Some(file) => self.read(file, false),
                None => self.at(Phase::Idle, Action::Finish),
            },
            (
                Phase::Reading { file, reload },
                Input::Read { fingerprint, canonical, empty, elsewhere },
            ) => if elsewhere {
                self.at(Phase::OpenFailed { reload }, Action::PresentOther)
            } else {
                self.loaded(file, reload, fingerprint, canonical, empty)
            },
            (Phase::Reading { file: _, reload }, Input::ReadFailed) => self.at(
                Phase::OpenFailed { reload },
                Action::ShowError(Failure::Open),
            ),
            (Phase::OpenFailed { reload }, Input::Done) => if reload {
                self.at(Phase::Idle, Action::Finish)
            } else {
                self.give_up()
            },
            (Phase::CheckingSave(then), Input::Fingerprint { current, .. }) => self.looked_to_save(
                then,
                current,
            ),
            (Phase::CheckingChange, Input::Fingerprint { current, selected }) => self.looked(
                current,
                selected,
            ),
            (Phase::ChoosingSave(then), Input::Chosen(chosen)) => match chosen {
                Some(file) => self.at(
                    Phase::FindingElsewhere(file, then),
                    Action::FindElsewhere(file),
                ),
                None => self.stop(then, Action::Finish),
            },
            (Phase::FindingElsewhere(file, then), Input::Elsewhere(elsewhere)) => if elsewhere {
                self.stop(then, Action::PresentError(Failure::OpenElsewhere))
            } else {
                self.save_to(file, then)
            },
            (Phase::Writing(file, then), Input::Written { fingerprint, canonical, unchanged }) =>
            (Document {
                file: Some(file),
                fingerprint,
                canonical,
                in_conflict: false,
                conflict_waiting: false,
                modified: self.modified && !unchanged,
                ..self
            }).at(
                if then == Then::Nothing {
                    Phase::Idle
                } else {
                    Phase::Going(then)
                },
                Action::Adopt,
            ),
            (Phase::Writing(_, then), Input::WriteFailed) => self.stop(
                then,
                Action::PresentError(Failure::Save),
            ),
            (Phase::Going(then), Input::Done) => self.go(then),
            (Phase::AskingClose, Input::CloseAnswer(close)) => self.at(
                Phase::Idle,
                if close {
                    Action::Close
                } else {
                    Action::KeepOpen
                },
            ),
            (Phase::Autosaving, Input::Autosaved { outcome, fingerprint, unchanged }) =>
            self.autosaved(outcome, fingerprint, unchanged),
            (Phase::AskingConflict(then), Input::Conflict(answer)) => self.settle(answer, then),
            (Phase::CheckingDeleted, Input::Exists(exists)) => if exists {
                self.look_for_change()
            } else {
                self.orphaned()
            },
            (
                Phase::Restoring,
                Input::BackupRead { original, fingerprint, canonical, empty },
            ) => (Document {
                file: original,
                fingerprint: if original is Some {
                    fingerprint
                } else {
                    None
                },
                canonical: if original is Some {
                    canonical
                } else {
                    None
                },
                modified: true,
                empty,
                // Recovered work is unsaved: it is shown in the editor.
                views: Views { mode: ViewMode::Edit, last_single: ViewMode::Edit },
                ..self.released()
            }).at(Phase::Idle, Action::Recover),
            (Phase::Restoring, Input::BackupFailed) => self.released().at(
                Phase::Idle,
                Action::PresentError(Failure::Recovery),
            ),
            _ => (self, Action::Wait),
        }
    }

    /// What a document becomes and asks for when it is told something. A command that arrives
    /// while another one waits for an answer waits its turn.
    pub open spec fn next(self, input: Input) -> (Document, Action) {
        if self.phase == Phase::Idle {
            self.command(input)
        } else {
            self.answer(input)
        }
    }
}

impl Document {
    /// A new, untitled document.
    pub fn new() -> (document: Self)
        ensures
            document == Document::fresh(),
    {
        Document {
            file: None,
            fingerprint: None,
            canonical: None,
            in_conflict: false,
            conflict_waiting: false,
            modified: false,
            empty: true,
            reserved: false,
            claimed: None,
            made_for_file: false,
            views: Views { mode: ViewMode::Edit, last_single: ViewMode::Edit },
            phase: Phase::Idle,
        }
    }

    /// Whether the document is an untitled one that was never typed in, which a file that is
    /// opened can go into instead of a tab or window of its own.
    pub fn is_blank(&self) -> (blank: bool)
        ensures
            blank == self.blank(),
    {
        !self.reserved && self.file.is_none() && !self.modified && self.empty
    }

    /// Whether `file` is open in the document, or on its way into it.
    pub fn holds(&self, file: File) -> (held: bool)
        ensures
            held == self.has(file),
    {
        let claimed = match self.claimed {
            Some(held) => held == file,
            None => false,
        };
        let open = match self.file {
            Some(held) => held == file,
            None => false,
        };
        claimed || open
    }

    /// Whether the document holds `file`, or the file at the resolved path `canonical`.
    pub fn holds_either(&self, file: Option<File>, canonical: Option<u64>) -> (held: bool)
        ensures
            held == ((file is Some && self.has(file->0)) || (canonical is Some && self.canonical
                == canonical)),
    {
        let named = match file {
            Some(file) => self.holds(file),
            None => false,
        };
        let resolved = match (canonical, self.canonical) {
            (Some(path), Some(held)) => path == held,
            _ => false,
        };
        named || resolved
    }

    /// Keep the document, which should be blank, for `file`. `made_for_file` when the document
    /// was made to open the file in. The file is to be opened next.
    pub fn load(&mut self, file: File, made_for_file: bool)
        ensures
            *final(self) == (Document {
                made_for_file,
                reserved: true,
                claimed: Some(file),
                ..*old(self)
            }),
    {
        self.made_for_file = made_for_file;
        self.reserved = true;
        self.claimed = Some(file);
    }

    /// Keep the document, which should be blank or hold the file, for a backup of `file`, which
    /// is to be restored next.
    pub fn restore(&mut self, file: Option<File>)
        ensures
            *final(self) == (Document { reserved: true, claimed: file, ..*old(self) }),
    {
        self.reserved = true;
        self.claimed = file;
    }

    /// Take note that the text changed.
    pub fn edited(&mut self, modified: bool, empty: bool)
        ensures
            *final(self) == (Document { modified, empty, ..*old(self) }),
    {
        self.modified = modified;
        self.empty = empty;
    }

    /// Whether a change on disk waited for the tab to be selected and is to be asked about now.
    pub fn ask_waiting_conflict(&mut self) -> (ask: bool)
        ensures
            ask == old(self).conflict_waiting,
            *final(self) == (Document { conflict_waiting: false, ..*old(self) }),
    {
        let waiting = self.conflict_waiting;
        self.conflict_waiting = false;
        waiting
    }

    /// Whether the document has a file with a local path.
    fn is_local(&self) -> (local: bool)
        ensures
            local == (self.file is Some && self.file->0.local),
    {
        match self.file {
            Some(file) => file.local,
            None => false,
        }
    }

    /// The document in another phase, and what it asks for.
    fn enter(self, phase: Phase, action: Action) -> (result: (Document, Action))
        ensures
            result == self.at(phase, action),
    {
        (Document { phase, ..self }, action)
    }

    /// The document with nothing on its way in.
    fn release(self) -> (result: Document)
        ensures
            result == self.released(),
    {
        Document { reserved: false, claimed: None, ..self }
    }

    /// A file is read.
    fn read_file(self, file: File, reload: bool) -> (result: (Document, Action))
        ensures
            result == self.read(file, reload),
    {
        if file.local {
            self.enter(Phase::Reading { file, reload }, Action::ReadFile(file))
        } else {
            self.enter(Phase::OpenFailed { reload }, Action::ShowError(Failure::OpenOnlyLocal))
        }
    }

    /// A file could not be opened, and that was said. A document made for the file alone is of
    /// no use without it.
    fn abandon(self) -> (result: (Document, Action))
        ensures
            result == self.give_up(),
    {
        let next = Document { made_for_file: false, ..self.release() };
        next.enter(
            Phase::Idle,
            if self.made_for_file && next.is_blank() {
                Action::DiscardBlank
            } else {
                Action::Finish
            },
        )
    }

    /// The text of a file was read.
    fn take_text(
        self,
        file: File,
        reload: bool,
        fingerprint: Option<FileFingerprint>,
        canonical: Option<u64>,
        empty: bool,
    ) -> (result: (Document, Action))
        ensures
            result == self.loaded(file, reload, fingerprint, canonical, empty),
    {
        let mut shown = self.views;
        let _ = shown.set_view_mode(ViewMode::Preview);
        let next = Document {
            file: Some(file),
            fingerprint,
            canonical,
            in_conflict: false,
            conflict_waiting: false,
            modified: false,
            empty,
            ..self
        };
        (if reload {
            next
        } else {
            Document {
                made_for_file: false,
                views: shown,
                ..next.release()
            }
        }).enter(Phase::Idle, Action::Load)
    }

    /// The document once what follows does not: a file on its way in does not come.
    fn end_claim(self, then: Then) -> (result: Document)
        ensures
            result == self.ended(then),
    {
        match then {
            Then::Open(_) => Document { made_for_file: false, ..self.release() },
            _ => self,
        }
    }

    /// The command ends before what follows.
    fn end(self, then: Then, action: Action) -> (result: (Document, Action))
        ensures
            result == self.stop(then, action),
    {
        self.end_claim(then).enter(Phase::Idle, action)
    }

    /// What follows once unsaved changes are out of the way.
    fn go_on(self, then: Then) -> (result: (Document, Action))
        ensures
            result == self.go(then),
    {
        match then {
            Then::Nothing => self.enter(Phase::Idle, Action::Finish),
            Then::StartAnew => (Document {
                reserved: self.reserved,
                claimed: self.claimed,
                made_for_file: self.made_for_file,
                ..Document::new()
            }).enter(Phase::Idle, Action::StartAnew),
            Then::ChooseAndOpen => self.enter(Phase::ChoosingOpen, Action::ChooseToOpen),
            Then::Open(file) => self.read_file(file, false),
        }
    }

    /// What follows once unsaved changes, if there are any, are asked about.
    fn ask_first(self, then: Then) -> (result: (Document, Action))
        ensures
            result == self.guard(then),
    {
        if self.modified {
            self.enter(Phase::AskingDiscard(then), Action::AskDiscard)
        } else {
            self.go_on(then)
        }
    }

    /// The text is saved to `file`.
    fn write_to(self, file: File, then: Then) -> (result: (Document, Action))
        ensures
            result == self.save_to(file, then),
    {
        if file.local {
            self.enter(Phase::Writing(file, then), Action::WriteFile(file))
        } else {
            self.end(then, Action::PresentError(Failure::SaveOnlyLocal))
        }
    }

    /// The text is saved: to the document's file, or where the user says if it has none.
    fn write_or_choose(self, then: Then) -> (result: (Document, Action))
        ensures
            result == self.save_for(then),
    {
        match self.file {
            Some(file) => self.write_to(file, then),
            None => self.enter(Phase::ChoosingSave(then), Action::ChooseToSave),
        }
    }

    /// The user is asked about a change on disk.
    fn raise_conflict(self, then: Then) -> (result: (Document, Action))
        ensures
            result == self.ask_conflict(then),
    {
        (Document { in_conflict: true, ..self }).enter(
            Phase::AskingConflict(then),
            Action::AskConflict,
        )
    }

    /// The text is to be saved.
    fn save_first(self, then: Then) -> (result: (Document, Action))
        ensures
            result == self.save(then),
    {
        if self.is_local() {
            self.enter(Phase::CheckingSave(then), Action::ReadFingerprint)
        } else {
            self.write_or_choose(then)
        }
    }

    /// The file may have changed on disk.
    fn look(self) -> (result: (Document, Action))
        ensures
            result == self.look_for_change(),
    {
        if self.in_conflict || !self.is_local() {
            self.enter(Phase::Idle, Action::Finish)
        } else {
            self.enter(Phase::CheckingChange, Action::ReadFingerprint)
        }
    }

    /// A command is run.
    fn run_command(self, input: Input) -> (result: (Document, Action))
        ensures
            result == self.command(input),
    {
        match input {
            Input::New => self.ask_first(Then::StartAnew),
            Input::Open => self.ask_first(Then::ChooseAndOpen),
            Input::OpenFile(file) => self.ask_first(Then::Open(file)),
            Input::Save => self.save_first(Then::Nothing),
            Input::SaveAs => self.enter(Phase::ChoosingSave(Then::Nothing), Action::ChooseToSave),
            Input::Export(format) => self.enter(Phase::Idle, Action::Export(format)),
            Input::Close => if self.modified {
                self.enter(Phase::AskingClose, Action::AskClose)
            } else {
                self.enter(Phase::Idle, Action::Close)
            },
            Input::Autosave => match self.file {
                Some(file) => if self.in_conflict || !self.modified || !file.local {
                    self.enter(Phase::Idle, Action::Finish)
                } else {
                    let known = self.fingerprint;
                    self.enter(Phase::Autosaving, Action::Autosave { file, known })
                },
                None => self.enter(Phase::Idle, Action::Finish),
            },
            Input::Backup => self.enter(Phase::Idle, Action::WriteBackup),
            Input::DiskChanged => self.look(),
            // Asked afresh: the file may have been put back meanwhile.
            Input::AskWaitingConflict => (Document {
                in_conflict: false,
                ..self
            }).look(),
            Input::DiskDeleted => self.enter(Phase::CheckingDeleted, Action::CheckExists),
            Input::Restore => self.enter(Phase::Restoring, Action::ReadBackup),
            _ => (self, Action::Finish),
        }
    }

    /// The file on disk was looked at before it is saved.
    fn judge_to_save(self, then: Then, current: Option<FileFingerprint>) -> (result: (
        Document,
        Action,
    ))
        ensures
            result == self.looked_to_save(then, current),
    {
        if has_changed(self.fingerprint, current) {
            self.raise_conflict(then)
        } else {
            self.write_or_choose(then)
        }
    }

    /// The file on disk was looked at.
    fn judge(self, current: Option<FileFingerprint>, selected: bool) -> (result: (Document, Action))
        ensures
            result == self.looked(current, selected),
    {
        if !has_changed(self.fingerprint, current) {
            self.enter(Phase::Idle, Action::Finish)
        } else if selected {
            self.raise_conflict(Then::Nothing)
        } else {
            // Asking now would switch tabs while the user works in another.
            (Document { in_conflict: true, conflict_waiting: true, ..self }).enter(
                Phase::Idle,
                Action::MarkTab,
            )
        }
    }

    /// An autosave went one way or another.
    fn note_autosave(
        self,
        outcome: Autosaved,
        fingerprint: Option<FileFingerprint>,
        unchanged: bool,
    ) -> (result: (Document, Action))
        ensures
            result == self.autosaved(outcome, fingerprint, unchanged),
    {
        match outcome {
            Autosaved::Saved => (Document {
                fingerprint,
                modified: self.modified && !unchanged,
                ..self
            }).enter(Phase::Idle, Action::ClearBackup),
            Autosaved::ConflictDetected => self.enter(
                Phase::Idle,
                Action::Notify(Notice::AutosavePaused),
            ),
            Autosaved::FileDeleted => self.enter(Phase::Idle, Action::Notify(Notice::FileGone)),
            Autosaved::Failed => self.enter(Phase::Idle, Action::Notify(Notice::AutosaveFailed)),
        }
    }

    /// The user said what to do about a change on disk.
    fn apply_answer(self, answer: ConflictAnswer, then: Then) -> (result: (Document, Action))
        ensures
            result == self.settle(answer, then),
    {
        match answer {
            ConflictAnswer::Dismiss => self.end(then, Action::Finish),
            ConflictAnswer::Reload => match self.file {
                // Reloading discards the changes but keeps the view the user is in.
                Some(file) => (Document { modified: false, ..self.end_claim(then) }).read_file(file, true),
                None => self.end(then, Action::Finish),
            },
            ConflictAnswer::Overwrite => match self.file {
                Some(file) => self.write_to(file, then),
                None => self.end(then, Action::Finish),
            },
            ConflictAnswer::SaveAs => self.enter(Phase::ChoosingSave(then), Action::ChooseToSave),
        }
    }

    /// The file is gone: the document becomes untitled, so nothing is lost and the next save
    /// asks where to.
    fn orphan(self) -> (result: (Document, Action))
        ensures
            result == self.orphaned(),
    {
        (Document {
            file: None,
            fingerprint: None,
            canonical: None,
            in_conflict: false,
            conflict_waiting: false,
            modified: true,
            ..self
        }).enter(Phase::Idle, Action::BecomeUntitled)
    }

    /// An answer comes in.
    fn take_answer(self, input: Input) -> (result: (Document, Action))
        ensures
            result == self.answer(input),
    {
        match (self.phase, input) {
            (Phase::AskingDiscard(then), Input::Discard(answer)) => match answer {
                DiscardAnswer::Cancel => self.end(then, Action::Finish),
                DiscardAnswer::Discard => self.go_on(then),
                DiscardAnswer::Save => self.save_first(then),
            },
            (Phase::ChoosingOpen, Input::Chosen(chosen)) => match chosen {
                Some(file) => self.read_file(file, false),
                None => self.enter(Phase::Idle, Action::Finish),
            },
            (
                Phase::Reading { file, reload },
                Input::Read { fingerprint, canonical, empty, elsewhere },
            ) => if elsewhere {
                self.enter(Phase::OpenFailed { reload }, Action::PresentOther)
            } else {
                self.take_text(file, reload, fingerprint, canonical, empty)
            },
            (Phase::Reading { file: _, reload }, Input::ReadFailed) => self.enter(
                Phase::OpenFailed { reload },
                Action::ShowError(Failure::Open),
            ),
            (Phase::OpenFailed { reload }, Input::Done) => if reload {
                self.enter(Phase::Idle, Action::Finish)
            } else {
                self.abandon()
            },
            (Phase::CheckingSave(then), Input::Fingerprint { current, .. }) => self.judge_to_save(
                then,
                current,
            ),
            (Phase::CheckingChange, Input::Fingerprint { current, selected }) => self.judge(
                current,
                selected,
            ),
            (Phase::ChoosingSave(then), Input::Chosen(chosen)) => match chosen {
                Some(file) => self.enter(
                    Phase::FindingElsewhere(file, then),
                    Action::FindElsewhere(file),
                ),
                None => self.end(then, Action::Finish),
            },
            (Phase::FindingElsewhere(file, then), Input::Elsewhere(elsewhere)) => if elsewhere {
                self.end(then, Action::PresentError(Failure::OpenElsewhere))
            } else {
                self.write_to(file, then)
            },
            (Phase::Writing(file, then), Input::Written { fingerprint, canonical, unchanged }) =>
            (Document {
                file: Some(file),
                fingerprint,
                canonical,
                in_conflict: false,
                conflict_waiting: false,
                modified: self.modified && !unchanged,
                ..self
            }).enter(
                if then == Then::Nothing {
                    Phase::Idle
                } else {
                    Phase::Going(then)
                },
                Action::Adopt,
            ),
            (Phase::Writing(_, then), Input::WriteFailed) => self.end(
                then,
                Action::PresentError(Failure::Save),
            ),
            (Phase::Going(then), Input::Done) => self.go_on(then),
            (Phase::AskingClose, Input::CloseAnswer(close)) => self.enter(
                Phase::Idle,
                if close {
                    Action::Close
                } else {
                    Action::KeepOpen
                },
            ),
            (Phase::Autosaving, Input::Autosaved { outcome, fingerprint, unchanged }) =>
            self.note_autosave(outcome, fingerprint, unchanged),
            (Phase::AskingConflict(then), Input::Conflict(answer)) => self.apply_answer(answer, then),
            (Phase::CheckingDeleted, Input::Exists(exists)) => if exists {
                self.look()
            } else {
                self.orphan()
            },
            (
                Phase::Restoring,
                Input::BackupRead { original, fingerprint, canonical, empty },
            ) => (Document {
                file: original,
                fingerprint: if original.is_some() {
                    fingerprint
                } else {
                    None
                },
                canonical: if original.is_some() {
                    canonical
                } else {
                    None
                },
                modified: true,
                empty,
                // Recovered work is unsaved: it is shown in the editor.
                views: Views { mode: ViewMode::Edit, last_single: ViewMode::Edit },
                ..self.release()
            }).enter(Phase::Idle, Action::Recover),
            (Phase::Restoring, Input::BackupFailed) => self.release().enter(
                Phase::Idle,
                Action::PresentError(Failure::Recovery),
            ),
            _ => (self, Action::Wait),
        }
    }

    /// Take a command or an answer, and say what is to be done.
    pub fn step(&mut self, input: Input) -> (action: Action)
        ensures
            (*final(self), action) == old(self).next(input),
    {
        let (next, action) = if self.phase == Phase::Idle {
            self.run_command(input)
        } else {
            self.take_answer(input)
        };
        *self = next;
        action
    }
}

}
