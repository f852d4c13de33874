use blink::conflict::{
    autosave_with_conflict_check, autosave_written, save_step, temporary_name, AutosaveOutcome,
    AutosaveStep, FileFingerprint, FileTime, IoFailure, SaveStep,
};

const EPOCH: FileTime = FileTime { secs: 0, nanos: 0 };

#[test]
fn fingerprint_detects_mtime_change() {
    let before = FileFingerprint {
        mtime: EPOCH,
        size: 100,
    };
    let after = FileFingerprint {
        mtime: FileTime { secs: 1, nanos: 0 },
        size: 100,
    };
    assert!(after.conflicts_with(&before));
}

#[test]
fn fingerprint_detects_size_change() {
    let before = FileFingerprint {
        mtime: EPOCH,
        size: 100,
    };
    let after = FileFingerprint {
        mtime: EPOCH,
        size: 101,
    };
    assert!(after.conflicts_with(&before));
}

#[test]
fn fingerprint_identical_is_not_conflict() {
    let fp = FileFingerprint {
        mtime: EPOCH,
        size: 100,
    };
    assert!(!fp.conflicts_with(&fp));
}

#[test]
fn autosave_writes_only_over_the_file_it_knows() {
    let known = FileFingerprint {
        mtime: EPOCH,
        size: 8,
    };
    let changed = FileFingerprint {
        mtime: EPOCH,
        size: 25,
    };
    assert_eq!(
        autosave_with_conflict_check(Ok(changed), &known),
        AutosaveStep::Stop(AutosaveOutcome::ConflictDetected)
    );
    assert_eq!(
        autosave_with_conflict_check(Ok(known), &known),
        AutosaveStep::Write
    );
    assert_eq!(
        autosave_with_conflict_check(Err(IoFailure::NotFound), &known),
        AutosaveStep::Stop(AutosaveOutcome::FileDeleted)
    );
    assert_eq!(
        autosave_with_conflict_check(Err(IoFailure::PermissionDenied), &known),
        AutosaveStep::Stop(AutosaveOutcome::Failed(IoFailure::PermissionDenied))
    );
    assert_eq!(autosave_written(Ok(())), AutosaveOutcome::Saved);
    assert_eq!(
        autosave_written(Err(IoFailure::StorageFull)),
        AutosaveOutcome::Failed(IoFailure::StorageFull)
    );
}

#[test]
fn temporary_files_are_hidden_and_named_after_the_save() {
    assert_eq!(
        temporary_name("doc.md", 42, 1_700_000_000_000_000_000),
        ".doc.md.blink-tmp-42-1700000000000000000"
    );
}

fn run(outcomes: &[bool]) -> SaveStep {
    let mut step = SaveStep::WriteTemporary;
    for ok in outcomes {
        step = save_step(step, *ok);
    }
    step
}

#[test]
fn a_save_replaces_the_file_or_leaves_it() {
    assert_eq!(run(&[true, true, true, true, true]), SaveStep::Saved);
    // A new file has no permissions to copy, and the flush of the folder may fail.
    assert_eq!(run(&[true, false, true, false]), SaveStep::Saved);
    assert_eq!(run(&[false]), SaveStep::RemoveTemporary);
    assert_eq!(run(&[true, true, false]), SaveStep::RemoveTemporary);
    assert_eq!(run(&[true, true, true, false]), SaveStep::RemoveTemporary);
    assert_eq!(run(&[false, true, true]), SaveStep::Failed);
}
