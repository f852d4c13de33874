use blink::backup::{
    backup_id_for_path, backup_id_of_hash, backups_dir, classify, content_hash, content_path,
    lock_is_stale, lock_path, lock_pid, lock_present, locks_dir, new_instance_id, process_dir,
    process_identity, record_path, state_dir, system_time_to_secs, untitled_backup_id, OrphanClass,
};
use blink::conflict::FileTime;
use std::path::PathBuf;

#[test]
fn backup_id_is_stable_and_path_specific() {
    let a1 = backup_id_for_path(&PathBuf::from("/tmp/blink-nonexistent-a.md"));
    let a2 = backup_id_for_path(&PathBuf::from("/tmp/blink-nonexistent-a.md"));
    let b = backup_id_for_path(&PathBuf::from("/tmp/blink-nonexistent-b.md"));
    assert_eq!(a1, a2);
    assert_ne!(a1, b);
    assert_eq!(a1.len(), 16);
}

#[test]
fn backup_id_is_the_hash_in_sixteen_digits() {
    assert_eq!(backup_id_of_hash(0xab), "00000000000000ab");
    assert_eq!(backup_id_of_hash(u64::MAX), "ffffffffffffffff");
}

#[test]
fn content_hash_is_deterministic() {
    assert_eq!(content_hash("hello world"), content_hash("hello world"));
    assert_ne!(content_hash("a"), content_hash("b"));
}

#[test]
fn classify_dead_owner_is_orphan() {
    assert_eq!(classify(111, 222, true, false), OrphanClass::Orphan);
}

#[test]
fn classify_missing_lock_is_orphan() {
    assert_eq!(classify(111, 222, false, true), OrphanClass::Orphan);
}

#[test]
fn classify_live_other_is_skipped() {
    assert_eq!(classify(111, 222, true, true), OrphanClass::LiveOther);
}

#[test]
fn classify_self_owned() {
    assert_eq!(classify(222, 222, false, false), OrphanClass::SelfOwned);
}

#[test]
fn untitled_backup_id_is_stable_and_prefixed() {
    let id = untitled_backup_id(0x99);
    assert!(id.starts_with("untitled-"));
    assert_eq!(id, untitled_backup_id(0x99));
    assert_ne!(id, untitled_backup_id(0x9A));
    assert_eq!(id, "untitled-0000000000000099");
}

#[test]
fn state_folder_follows_the_environment() {
    assert_eq!(
        state_dir(Some(String::from("/state")), Some(String::from("/home/me"))),
        PathBuf::from("/state/blink")
    );
    assert_eq!(
        state_dir(Some(String::new()), Some(String::from("/home/me"))),
        PathBuf::from("/home/me/.local/state/blink")
    );
    assert_eq!(state_dir(None, None), PathBuf::from("./.local/state/blink"));
    let state = PathBuf::from("/state/blink");
    assert_eq!(backups_dir(&state), PathBuf::from("/state/blink/backups"));
    assert_eq!(locks_dir(&state), PathBuf::from("/state/blink/locks"));
}

#[test]
fn files_of_a_backup_and_a_lock() {
    let dir = PathBuf::from("/state/blink/backups");
    assert_eq!(content_path(&dir, "abc"), dir.join("abc.content"));
    assert_eq!(record_path(&dir, "abc"), dir.join("abc.toml"));
    assert_eq!(record_path(&dir, "/etc/x"), PathBuf::from("/etc/x.toml"));
    assert_eq!(lock_path(&dir, 4242), dir.join("4242.lock"));
    assert_eq!(process_dir(7), "/proc/7");
}

#[test]
fn times_before_the_epoch_count_as_none() {
    assert_eq!(system_time_to_secs(FileTime { secs: 10, nanos: 5 }), 10);
    assert_eq!(system_time_to_secs(FileTime { secs: -1, nanos: 5 }), 0);
}

#[test]
fn instance_ids_mix_process_and_time() {
    assert_eq!(new_instance_id(0, 17), 17);
    assert_eq!(new_instance_id(1, 0), 0x9E37_79B9_7F4A_7C15);
    assert_eq!(
        new_instance_id(3, u64::MAX),
        3u64.wrapping_mul(0x9E37_79B9_7F4A_7C15).wrapping_add(u64::MAX)
    );
}

#[test]
fn process_identity_is_the_boot_and_the_start_time() {
    let fields: Vec<String> = (3..40).map(|n| n.to_string()).collect();
    let stat = format!("7 (a) b (c) {}", fields.join(" "));
    assert_eq!(process_identity("boot\n", &stat), Some(String::from("boot 22")));
    assert_eq!(process_identity("boot\n", "7 (a) 1 2 3"), None);
    assert_eq!(process_identity("boot\n", "nothing"), None);
}

#[test]
fn a_lock_holds_for_the_process_it_names() {
    let text = |text: &str| Some(String::from(text));
    assert!(lock_present(text("boot 22"), text("boot 22")));
    assert!(!lock_present(text("boot 22"), text("boot 23")));
    assert!(!lock_present(text("boot 22"), None));
    assert!(lock_present(text(""), None));
    assert!(!lock_present(None, text("boot 22")));
}

#[test]
fn locks_are_named_after_their_process() {
    assert_eq!(lock_pid("4242.lock"), Some(4242));
    assert_eq!(lock_pid("+7.lock"), Some(7));
    assert_eq!(lock_pid("4294967296.lock"), None);
    assert_eq!(lock_pid(".lock"), None);
    assert_eq!(lock_pid("x.lock"), None);
    assert_eq!(lock_pid("7.toml"), None);
    assert!(lock_is_stale(false, true));
    assert!(lock_is_stale(true, false));
    assert!(!lock_is_stale(true, true));
}

#[test]
fn implausible_pid_is_not_alive() {
    assert!(!std::path::Path::new(&process_dir(u32::MAX)).exists());
}
