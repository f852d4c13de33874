use blink::application::{
    document_elsewhere, folder_target, open_target, opens_in_tab, restore_target, FolderTarget,
    Target,
};
use blink::backup::BackupRecord;
use blink::conflict::{FileFingerprint, FileTime};
use blink::document::{
    Action, Autosaved, ConflictAnswer, DiscardAnswer, Document, Failure, File, Format, Input,
    Notice, Phase, ViewMode, Views,
};
use blink::recovery::{orphans, Recovery};
use blink::refresh::Refresh;

const FILE: File = File { id: 1, local: true };
const OTHER: File = File { id: 2, local: true };
const REMOTE: File = File { id: 3, local: false };

fn fingerprint(size: u64) -> FileFingerprint {
    FileFingerprint {
        mtime: FileTime { secs: 100, nanos: 0 },
        size,
    }
}

fn read(size: u64) -> Input {
    Input::Read {
        fingerprint: Some(fingerprint(size)),
        canonical: Some(7),
        empty: false,
        elsewhere: false,
    }
}

fn written(size: u64, unchanged: bool) -> Input {
    Input::Written {
        fingerprint: Some(fingerprint(size)),
        canonical: Some(7),
        unchanged,
    }
}

fn on_disk(size: u64, selected: bool) -> Input {
    Input::Fingerprint {
        current: Some(fingerprint(size)),
        selected,
    }
}

/// A document with `FILE` open.
fn opened() -> Document {
    let mut document = Document::new();
    document.load(FILE, true);
    assert_eq!(document.step(Input::OpenFile(FILE)), Action::ReadFile(FILE));
    assert_eq!(document.step(read(5)), Action::Load);
    document
}

#[test]
fn views_have_names() {
    for mode in [ViewMode::Edit, ViewMode::Preview, ViewMode::Split] {
        assert_eq!(ViewMode::from_name(mode.name()), Some(mode));
    }
    assert_eq!(ViewMode::from_name("source"), None);
    assert_eq!(ViewMode::default(), ViewMode::Edit);
}

#[test]
fn the_split_view_falls_back_to_the_view_before_it() {
    let mut views = Views {
        mode: ViewMode::Edit,
        last_single: ViewMode::Edit,
    };
    assert!(!views.preview_visible());
    assert!(views.set_view_mode(ViewMode::Preview));
    assert!(views.set_view_mode(ViewMode::Split));
    assert!(!views.set_view_mode(ViewMode::Split));
    assert!(views.preview_visible());
    assert!(views.leave_split());
    assert_eq!(views.mode, ViewMode::Preview);
    assert!(!views.leave_split());
}

#[test]
fn a_file_opens_in_the_preview() {
    let document = opened();
    assert_eq!(document.file, Some(FILE));
    assert_eq!(document.views.mode, ViewMode::Preview);
    assert!(!document.modified && !document.reserved && !document.made_for_file);
    assert!(document.holds(FILE) && !document.holds(OTHER));
    assert!(document.holds_either(None, Some(7)));
    assert!(!document.holds_either(Some(OTHER), Some(8)));
}

#[test]
fn a_file_that_fails_to_open_takes_its_tab_along() {
    let mut document = Document::new();
    document.load(FILE, true);
    assert!(!document.is_blank() && document.holds(FILE));
    assert_eq!(document.step(Input::OpenFile(FILE)), Action::ReadFile(FILE));
    assert_eq!(
        document.step(Input::ReadFailed),
        Action::ShowError(Failure::Open)
    );
    assert_eq!(document.step(Input::Done), Action::DiscardBlank);
    assert!(document.is_blank() && !document.holds(FILE));

    document.load(REMOTE, false);
    assert_eq!(
        document.step(Input::OpenFile(REMOTE)),
        Action::ShowError(Failure::OpenOnlyLocal)
    );
    assert_eq!(document.step(Input::Done), Action::Finish);

    document.load(FILE, false);
    document.step(Input::OpenFile(FILE));
    assert_eq!(
        document.step(Input::Read {
            fingerprint: None,
            canonical: Some(7),
            empty: false,
            elsewhere: true,
        }),
        Action::PresentOther
    );
    assert_eq!(document.step(Input::Done), Action::Finish);
    assert_eq!(document.file, None);
}

#[test]
fn saving_asks_before_it_overwrites_another_change() {
    let mut document = opened();
    document.edited(true, false);
    assert_eq!(document.step(Input::Save), Action::ReadFingerprint);
    assert_eq!(document.step(on_disk(5, true)), Action::WriteFile(FILE));
    assert_eq!(document.step(written(6, true)), Action::Adopt);
    assert!(!document.modified);

    document.edited(true, false);
    document.step(Input::Save);
    assert_eq!(document.step(on_disk(9, true)), Action::AskConflict);
    assert!(document.in_conflict);
    assert_eq!(
        document.step(Input::Conflict(ConflictAnswer::Dismiss)),
        Action::Finish
    );
    assert!(document.in_conflict && document.modified);
    assert_eq!(document.step(Input::Autosave), Action::Finish);

    document.step(Input::Save);
    document.step(on_disk(9, true));
    assert_eq!(
        document.step(Input::Conflict(ConflictAnswer::Overwrite)),
        Action::WriteFile(FILE)
    );
    // Typing went on while the text was written.
    assert_eq!(document.step(written(10, false)), Action::Adopt);
    assert!(document.modified && !document.in_conflict);
    document.step(Input::Save);
    document.step(Input::Fingerprint { current: None, selected: true });
    assert_eq!(
        document.step(Input::WriteFailed),
        Action::PresentError(Failure::Save)
    );
    assert!(document.modified);
}

#[test]
fn reloading_keeps_the_view() {
    let mut document = opened();
    document.views.set_view_mode(ViewMode::Split);
    document.edited(true, false);
    document.step(Input::DiskChanged);
    assert_eq!(document.step(on_disk(9, true)), Action::AskConflict);
    assert_eq!(
        document.step(Input::Conflict(ConflictAnswer::Reload)),
        Action::ReadFile(FILE)
    );
    assert_eq!(document.step(read(9)), Action::Load);
    assert_eq!(document.views.mode, ViewMode::Split);
    assert!(!document.modified && !document.in_conflict);
    assert_eq!(document.fingerprint, Some(fingerprint(9)));
}

#[test]
fn save_as_refuses_a_file_that_is_open_elsewhere() {
    let mut document = Document::new();
    document.edited(true, false);
    assert_eq!(document.step(Input::Save), Action::ChooseToSave);
    assert_eq!(
        document.step(Input::Chosen(Some(OTHER))),
        Action::FindElsewhere(OTHER)
    );
    assert_eq!(
        document.step(Input::Elsewhere(true)),
        Action::PresentError(Failure::OpenElsewhere)
    );
    document.step(Input::SaveAs);
    document.step(Input::Chosen(Some(REMOTE)));
    assert_eq!(
        document.step(Input::Elsewhere(false)),
        Action::PresentError(Failure::SaveOnlyLocal)
    );
    document.step(Input::SaveAs);
    assert_eq!(document.step(Input::Chosen(None)), Action::Finish);
    document.step(Input::SaveAs);
    document.step(Input::Chosen(Some(OTHER)));
    assert_eq!(
        document.step(Input::Elsewhere(false)),
        Action::WriteFile(OTHER)
    );
    document.step(written(3, true));
    assert_eq!(document.file, Some(OTHER));
}

#[test]
fn closing_asks_about_unsaved_changes() {
    let mut document = opened();
    assert_eq!(document.step(Input::Close), Action::Close);
    document.edited(true, false);
    assert_eq!(document.step(Input::Close), Action::AskClose);
    assert_eq!(document.step(Input::CloseAnswer(false)), Action::KeepOpen);
    document.step(Input::Close);
    assert_eq!(document.step(Input::CloseAnswer(true)), Action::Close);
}

#[test]
fn autosave_writes_only_what_it_may() {
    let mut document = opened();
    assert_eq!(document.step(Input::Autosave), Action::Finish);
    document.edited(true, false);
    let autosaved = |outcome| Input::Autosaved {
        outcome,
        fingerprint: Some(fingerprint(6)),
        unchanged: true,
    };
    for (outcome, action) in [
        (
            Autosaved::ConflictDetected,
            Action::Notify(Notice::AutosavePaused),
        ),
        (Autosaved::FileDeleted, Action::Notify(Notice::FileGone)),
        (Autosaved::Failed, Action::Notify(Notice::AutosaveFailed)),
        (Autosaved::Saved, Action::ClearBackup),
    ] {
        assert_eq!(
            document.step(Input::Autosave),
            Action::Autosave {
                file: FILE,
                known: Some(fingerprint(5)),
            }
        );
        assert!(document.modified);
        assert_eq!(document.step(autosaved(outcome)), action);
    }
    assert!(!document.modified);
    assert_eq!(document.fingerprint, Some(fingerprint(6)));
}

#[test]
fn a_change_in_a_tab_out_of_sight_waits() {
    let mut document = opened();
    document.step(Input::DiskChanged);
    assert_eq!(document.step(on_disk(9, false)), Action::MarkTab);
    assert!(document.in_conflict && document.conflict_waiting);
    assert_eq!(document.step(Input::DiskChanged), Action::Finish);
    assert!(document.ask_waiting_conflict());
    assert!(!document.ask_waiting_conflict());
    assert_eq!(
        document.step(Input::AskWaitingConflict),
        Action::ReadFingerprint
    );
    // The file was put back meanwhile.
    assert_eq!(document.step(on_disk(5, true)), Action::Finish);
    assert!(!document.in_conflict);
}

#[test]
fn a_deleted_file_leaves_its_text() {
    let mut document = opened();
    assert_eq!(document.step(Input::DiskDeleted), Action::CheckExists);
    assert_eq!(document.step(Input::Exists(true)), Action::ReadFingerprint);
    assert_eq!(document.step(on_disk(5, true)), Action::Finish);
    document.step(Input::DiskDeleted);
    assert_eq!(document.step(Input::Exists(false)), Action::BecomeUntitled);
    assert_eq!(document.file, None);
    assert!(document.modified);
    assert_eq!(document.step(Input::Save), Action::ChooseToSave);
}

#[test]
fn unsaved_changes_are_asked_about_before_they_are_replaced() {
    let mut document = opened();
    document.edited(true, false);
    assert_eq!(document.step(Input::New), Action::AskDiscard);
    assert_eq!(
        document.step(Input::Discard(DiscardAnswer::Cancel)),
        Action::Finish
    );
    document.step(Input::New);
    assert_eq!(
        document.step(Input::Discard(DiscardAnswer::Save)),
        Action::ReadFingerprint
    );
    assert_eq!(document.step(on_disk(5, true)), Action::WriteFile(FILE));
    assert_eq!(document.step(written(6, true)), Action::Adopt);
    assert_eq!(document.phase, Phase::Going(blink::document::Then::StartAnew));
    assert_eq!(document.step(Input::Done), Action::StartAnew);
    assert_eq!(document, Document::new());
    document.edited(true, false);
    document.step(Input::Open);
    assert_eq!(
        document.step(Input::Discard(DiscardAnswer::Discard)),
        Action::ChooseToOpen
    );
    assert_eq!(
        document.step(Input::Chosen(Some(OTHER))),
        Action::ReadFile(OTHER)
    );
    assert_eq!(document.step(Input::Save), Action::Wait);
}

#[test]
fn exports_and_backups_need_no_answer() {
    let mut document = opened();
    assert_eq!(
        document.step(Input::Export(Format::Pdf)),
        Action::Export(Format::Pdf)
    );
    assert_eq!(document.step(Input::Backup), Action::WriteBackup);
    assert_eq!(document.phase, Phase::Idle);
}

#[test]
fn a_backup_is_restored_into_the_editor() {
    let mut document = Document::new();
    document.restore(Some(FILE));
    assert!(document.holds(FILE));
    assert_eq!(document.step(Input::Restore), Action::ReadBackup);
    assert_eq!(
        document.step(Input::BackupRead {
            original: Some(FILE),
            fingerprint: Some(fingerprint(4)),
            canonical: Some(7),
            empty: false,
        }),
        Action::Recover
    );
    assert!(document.modified && !document.reserved);
    assert_eq!(document.file, Some(FILE));
    assert_eq!(document.views.mode, ViewMode::Edit);

    let mut document = Document::new();
    document.restore(None);
    document.step(Input::Restore);
    assert_eq!(
        document.step(Input::BackupFailed),
        Action::PresentError(Failure::Recovery)
    );
    assert!(document.is_blank());
}

#[test]
fn files_go_where_they_are_open() {
    let documents = vec![Document::new(), opened()];
    assert_eq!(open_target(&documents, FILE, Some(0)), Target::Open(1));
    assert_eq!(open_target(&documents, OTHER, Some(0)), Target::Blank(0));
    assert_eq!(open_target(&documents, OTHER, Some(1)), Target::New);
    assert_eq!(open_target(&documents, OTHER, None), Target::New);
    assert_eq!(
        restore_target(&documents, Some(OTHER), Some(7), None),
        Target::Open(1)
    );
    assert!(document_elsewhere(&documents, 0, Some(FILE), None));
    assert!(!document_elsewhere(&documents, 1, Some(FILE), Some(7)));
    assert!(opens_in_tab(true, true) && !opens_in_tab(false, true) && !opens_in_tab(true, false));
}

#[test]
fn folders_go_where_they_are_shown() {
    let folders = vec![None, Some(5)];
    assert_eq!(folder_target(&folders, 5, Some(0)), FolderTarget::Shown(1));
    assert_eq!(folder_target(&folders, 6, Some(0)), FolderTarget::Window(0));
    assert_eq!(folder_target(&folders, 6, Some(1)), FolderTarget::New);
    assert_eq!(folder_target(&folders, 6, None), FolderTarget::New);
}

#[test]
fn an_unchanged_text_is_backed_up_once() {
    let mut recovery = Recovery::new(9, 255);
    assert_eq!(recovery.backup_id, "untitled-00000000000000ff");
    let hash = recovery.backup_due(true, "text").expect("a hash");
    assert_eq!(recovery.backup_due(false, "text"), None);
    recovery.wrote(hash);
    assert_eq!(recovery.backup_due(true, "text"), None);
    assert!(recovery.backup_due(true, "other text").is_some());
    assert_eq!(recovery.due(true, hash), None);
    assert!(recovery.replaces("another") && !recovery.replaces("untitled-00000000000000ff"));
    recovery.clear_backup();
    assert_eq!(recovery.due(true, hash), Some(hash));
    assert!(!recovery.replaces("another"));
    recovery.use_backup_for(String::from("id"));
    let record = recovery.record(None, Some(fingerprint(5)), 77, String::from("a.md"));
    assert_eq!(
        record,
        BackupRecord {
            version: BackupRecord::CURRENT_VERSION,
            backup_id: String::from("id"),
            original_path: None,
            original_mtime_secs: Some(100),
            original_size: Some(5),
            backup_timestamp_secs: 77,
            owner_pid: 9,
            display_name: String::from("a.md"),
        }
    );
    recovery.use_untitled_backup();
    assert_eq!(recovery.backup_id, "untitled-00000000000000ff");
}

#[test]
fn backups_of_sessions_that_are_gone_are_offered() {
    let owners = vec![1, 2, 3, 4];
    let locks = vec![true, true, false, true];
    let alive = vec![true, false, true, true];
    assert_eq!(orphans(&owners, 1, &locks, &alive), [1, 2]);
}

#[test]
fn the_preview_catches_up_when_it_is_in_sight() {
    let mut refresh = Refresh { dirty: false };
    assert!(refresh.render_tick(true, true));
    assert!(!refresh.render_tick(false, true));
    assert!(refresh.dirty);
    assert!(!refresh.apply_view_mode(ViewMode::Edit, true));
    assert!(refresh.apply_view_mode(ViewMode::Split, true));
    assert!(!refresh.apply_view_mode(ViewMode::Split, true));
    assert!(!refresh.render_tick(true, false));
    assert!(refresh.render_missed(true, true));
    assert!(!refresh.render_missed(true, true));
}
