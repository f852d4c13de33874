//! Crash / unsaved-change recovery.
//!
//! Each open document with unsaved changes is mirrored to a backup pair under
//! `$XDG_STATE_HOME/blink/backups/`: `{id}.toml` (metadata) and `{id}.content` (raw text). A
//! per-process lockfile under `locks/`, which names the process that wrote it, distinguishes
//! a crashed session's orphaned backup from one owned by another running instance.

use crate::conflict::FileTime;
use crate::path::{join, path_from};
use crate::text::{
    chars_of, has_at, parse_u32, push_decimal, push_hex_padded, split_after_last, text_of, trimmed,
    words,
};
use std::collections::hash_map::DefaultHasher;
use std::hash::{Hash, Hasher};
use std::path::PathBuf;
use vstd::prelude::*;
use vstd::std_specs::hash::DefaultHasherAdditionalSpecFns;
use vstd::string::*;

verus! {

/// Metadata describing one backed-up document.
#[derive(Debug, PartialEq, Eq)]
pub struct BackupRecord {
    /// Schema version for forward-compatible migration.
    pub version: u8,
    /// Stable, filesystem-safe id; also the backup filename stem.
    pub backup_id: String,
    /// Absolute path of the original file, absent for untitled documents.
    pub original_path: Option<PathBuf>,
    /// mtime (seconds since epoch) of the original at last load/save.
    pub original_mtime_secs: Option<u64>,
    /// Size of the original at last load/save.
    pub original_size: Option<u64>,
    /// When this record was written (seconds since epoch).
    pub backup_timestamp_secs: u64,
    /// PID of the process that wrote this backup.
    pub owner_pid: u32,
    /// Human-readable name shown in the recovery dialog.
    pub display_name: String,
}

impl BackupRecord {
    pub const CURRENT_VERSION: u8 = 1;
}

/// Classification of a discovered backup record relative to this process.
#[derive(Debug, Clone, Copy, PartialEq, Eq, Structural)]
pub enum OrphanClass {
    /// Owner is gone; safe to offer for recovery.
    Orphan,
    /// Owner is another live instance; leave it alone.
    LiveOther,
    /// Record belongs to the current process.
    SelfOwned,
}

/// Decide whether a record is recoverable.
///
/// Biased toward recovery (no data loss) when the signal is ambiguous: a missing lockfile is
/// treated as orphaned even if some process happens to be alive at that PID, because the
/// lockfile is the authoritative owner marker and an unrelated process may have reused the
/// PID. [`lock_present`] also reports a lock left by a crashed process whose PID was reused
/// as missing.
pub fn classify(record_pid: u32, current_pid: u32, lock_present: bool, pid_alive: bool) -> (class:
    OrphanClass)
    ensures
        class is SelfOwned <==> record_pid == current_pid,
        class is LiveOther <==> record_pid != current_pid && lock_present && pid_alive,
        class is Orphan <==> record_pid != current_pid && !(lock_present && pid_alive),
{
    if record_pid == current_pid {
        return OrphanClass::SelfOwned;
    }
    if !lock_present {
        return OrphanClass::Orphan;
    }
    if pid_alive {
        OrphanClass::LiveOther
    } else {
        OrphanClass::Orphan
    }
}

/// The bytes of the folder Blink keeps its state in, from the two environment variables that
/// decide it.
pub open spec fn state_dir_bytes(
    xdg_state_home: Option<Seq<char>>,
    home: Option<Seq<char>>,
) -> Seq<u8> {
    match xdg_state_home {
        Some(dir) if dir.len() > 0 => crate::path::joined(
            vstd::utf8::encode_utf8(dir),
            vstd::utf8::encode_utf8("blink"@),
        ),
        _ => crate::path::joined(
            vstd::utf8::encode_utf8(
                match home {
                    Some(home) => home,
                    None => "."@,
                },
            ),
            vstd::utf8::encode_utf8(".local/state/blink"@),
        ),
    }
}

/// The folder Blink keeps its state in, from `$XDG_STATE_HOME` and `$HOME` where they are set.
pub fn state_dir(xdg_state_home: Option<String>, home: Option<String>) -> (dir: PathBuf)
    ensures
        crate::path::path_bytes(dir) == state_dir_bytes(
            crate::event::opt_view(xdg_state_home),
            crate::event::opt_view(home),
        ),
{
    if let Some(dir) = &xdg_state_home {
        if !dir.as_str().is_empty() {
            return join(&path_from(dir.as_str()), "blink");
        }
    }
    match &home {
        Some(home) => join(&path_from(home.as_str()), ".local/state/blink"),
        None => join(&path_from("."), ".local/state/blink"),
    }
}

/// The folder of the backups, in the state folder.
pub fn backups_dir(state_dir: &PathBuf) -> (dir: PathBuf)
    ensures
        crate::path::path_bytes(dir) == crate::path::joined(
            crate::path::path_bytes(*state_dir),
            vstd::utf8::encode_utf8("backups"@),
        ),
{
    join(state_dir, "backups")
}

/// The folder of the locks, in the state folder.
pub fn locks_dir(state_dir: &PathBuf) -> (dir: PathBuf)
    ensures
        crate::path::path_bytes(dir) == crate::path::joined(
            crate::path::path_bytes(*state_dir),
            vstd::utf8::encode_utf8("locks"@),
        ),
{
    join(state_dir, "locks")
}

/// What a hasher has been given once a path's `Hash` has added the path to it.
pub uninterp spec fn path_hashed(before: Seq<Seq<u8>>, path: Seq<u8>) -> Seq<Seq<u8>>;

/// What a hasher has been given once a text's `Hash` has added the text to it.
pub uninterp spec fn text_hashed(before: Seq<Seq<u8>>, text: Seq<char>) -> Seq<Seq<u8>>;

/// `Hash` of a path gives the hasher a function of what it had and of the path's bytes,
/// named [`path_hashed`].
#[verifier::external_body]
fn hash_path(path: &PathBuf, hasher: &mut DefaultHasher)
    ensures
        final(hasher)@ == path_hashed(old(hasher)@, crate::path::path_bytes(*path)),
{
    path.hash(hasher);
}

/// `Hash` of a text gives the hasher a function of what it had and of the text, named
/// [`text_hashed`].
#[verifier::external_body]
fn hash_text(text: &str, hasher: &mut DefaultHasher)
    ensures
        final(hasher)@ == text_hashed(old(hasher)@, text@),
{
    text.hash(hasher);
}

/// The id of a backup whose path has the given hash.
pub open spec fn path_backup_id(hash: u64) -> Seq<char> {
    crate::text::hex_padded(hash as nat, 16)
}

/// Stable id derived from a file's canonical path. Not cryptographic: only a short,
/// collision-resistant, filesystem-safe name.
pub fn backup_id_for_path(canonical: &PathBuf) -> (id: String)
    ensures
        id@ == path_backup_id(
            DefaultHasher::spec_finish(
                path_hashed(Seq::empty(), crate::path::path_bytes(*canonical)),
            ),
        ),
{
    let mut hasher = DefaultHasher::new();
    hash_path(canonical, &mut hasher);
    backup_id_of_hash(hasher.finish())
}

/// The id of a backup whose path has the given hash: the hash in sixteen hexadecimal digits.
pub fn backup_id_of_hash(hash: u64) -> (id: String)
    ensures
        id@ == path_backup_id(hash),
{
    let mut id = String::new();
    push_hex_padded(&mut id, hash, 16);
    proof {
        assert(Seq::<char>::empty() + crate::text::hex_padded(hash as nat, 16)
            =~= crate::text::hex_padded(hash as nat, 16));
    }
    id
}

/// The backup id of an untitled document.
pub open spec fn untitled_id(instance_id: u64) -> Seq<char> {
    "untitled-"@ + crate::text::hex_padded(instance_id as nat, 16)
}

/// The backup id of an untitled document.
pub fn untitled_backup_id(instance_id: u64) -> (id: String)
    ensures
        id@ == untitled_id(instance_id),
{
    let mut id = String::from_str("untitled-");
    push_hex_padded(&mut id, instance_id, 16);
    id
}

/// The hash that tells whether a document's text changed.
pub fn content_hash(text: &str) -> (hash: u64)
    ensures
        hash == DefaultHasher::spec_finish(text_hashed(Seq::empty(), text@)),
{
    let mut hasher = DefaultHasher::new();
    hash_text(text, &mut hasher);
    hasher.finish()
}

/// Whole seconds from the Unix epoch to `time`; 0 for a time before it.
pub fn system_time_to_secs(time: FileTime) -> (secs: u64)
    ensures
        secs == (if time.secs < 0 {
            0
        } else {
            time.secs as int
        }),
{
    if time.secs < 0 {
        0
    } else {
        time.secs as u64
    }
}

/// Id unique to this process run, used for untitled-document backups, from the process id
/// and the nanoseconds since the Unix epoch.
pub fn new_instance_id(pid: u32, nanos: u64) -> (id: u64)
    ensures
        id == (pid * 0x9E37_79B9_7F4A_7C15 + nanos) % 0x1_0000_0000_0000_0000,
{
    (pid as u64).wrapping_mul(0x9E37_79B9_7F4A_7C15).wrapping_add(nanos)
}

/// The folder under `/proc` that is there while a process runs.
pub fn process_dir(pid: u32) -> (dir: String)
    ensures
        dir@ == "/proc/"@ + crate::text::decimal(pid as nat),
{
    let mut dir = String::from_str("/proc/");
    push_decimal(&mut dir, pid as u128);
    dir
}

/// The file name of a process's lock.
pub open spec fn lock_name(pid: u32) -> Seq<char> {
    crate::text::decimal(pid as nat) + ".lock"@
}

/// The path of a process's lock.
pub fn lock_path(locks: &PathBuf, pid: u32) -> (path: PathBuf)
    ensures
        crate::path::path_bytes(path) == crate::path::joined(
            crate::path::path_bytes(*locks),
            vstd::utf8::encode_utf8(lock_name(pid)),
        ),
{
    let mut name = String::new();
    push_decimal(&mut name, pid as u128);
    proof {
        assert(name@ =~= crate::text::decimal(pid as nat));
    }
    name.append(".lock");
    join(locks, name.as_str())
}

/// The path of a backup's text.
pub fn content_path(backups: &PathBuf, id: &str) -> (path: PathBuf)
    ensures
        crate::path::path_bytes(path) == crate::path::joined(
            crate::path::path_bytes(*backups),
            vstd::utf8::encode_utf8(id@ + ".content"@),
        ),
{
    let mut name = String::from_str(id);
    name.append(".content");
    join(backups, name.as_str())
}

/// The path of a backup's metadata.
pub fn record_path(backups: &PathBuf, id: &str) -> (path: PathBuf)
    ensures
        crate::path::path_bytes(path) == crate::path::joined(
            crate::path::path_bytes(*backups),
            vstd::utf8::encode_utf8(id@ + ".toml"@),
        ),
{
    let mut name = String::from_str(id);
    name.append(".toml");
    join(backups, name.as_str())
}

/// What tells a process apart from a later one given the same process id: the boot it runs
/// in and when it started, from the contents of `boot_id` and of the process's `stat`.
pub open spec fn identity_of(boot: Seq<char>, stat: Seq<char>) -> Option<Seq<char>> {
    match crate::text::after_last(stat, ')') {
        Some(fields) => {
            let words = crate::text::words_of(fields);
            if words.len() > 19 {
                Some(crate::text::trim(boot) + " "@ + words[19])
            } else {
                None
            }
        },
        None => None,
    }
}

/// What tells a process apart from a later one given the same process id: the boot it runs
/// in and when it started, in clock ticks after boot. `boot` and `stat` are the contents of
/// `/proc/sys/kernel/random/boot_id` and of the `stat` file under the process's folder.
///
/// The command name, in parentheses, can hold spaces and parentheses; the fields after it,
/// from the third on, cannot. The start time is the 22nd.
pub fn process_identity(boot: &str, stat: &str) -> (identity: Option<String>)
    ensures
        crate::event::opt_view(identity) == identity_of(boot@, stat@),
{
    let fields = match split_after_last(&chars_of(stat), ')') {
        Some(fields) => fields,
        None => {
            return None;
        },
    };
    let found = words(&fields);
    proof {
        assert(crate::text::texts(found@).len() == found@.len());
    }
    if found.len() <= 19 {
        return None;
    }
    let boot = trimmed(&chars_of(boot));
    let mut identity = text_of(&boot, 0, boot.len());
    proof {
        assert(boot@.subrange(0, boot@.len() as int) =~= boot@);
        assert(crate::text::texts(found@)[19] == found@[19]@);
    }
    identity.append(" ");
    identity.append(found[19].as_str());
    Some(identity)
}

/// Whether a process holds its lock: the lock is there, and was written by the process that
/// runs under its id now rather than by one that crashed before the id was reused. `lock` is
/// what the lock holds and `identity` the running process. A lock that names no process,
/// from an older version or a system without `/proc`, holds.
pub fn lock_present(lock: Option<String>, identity: Option<String>) -> (present: bool)
    ensures
        present == (match lock {
            Some(named) => named@.len() == 0 || crate::event::opt_view(identity) == Some(named@),
            None => false,
        }),
{
    match lock {
        Some(named) => {
            if named.as_str().is_empty() {
                return true;
            }
            match identity {
                Some(identity) => identity == named,
                None => false,
            }
        },
        None => false,
    }
}

/// The process whose lock has the given file name; `None` for another file.
pub fn lock_pid(name: &str) -> (pid: Option<u32>)
    ensures
        pid == lock_pid_of(name@),
{
    let name = chars_of(name);
    let suffix = chars_of(".lock");
    if name.len() < suffix.len() {
        return None;
    }
    let end = name.len() - suffix.len();
    if !has_at(&name, end, &suffix) {
        return None;
    }
    parse_u32(&name, end)
}

/// The process whose lock has the given file name.
pub open spec fn lock_pid_of(name: Seq<char>) -> Option<u32> {
    let end = name.len() - ".lock"@.len();
    if end >= 0 && crate::text::stands_at(name, end, ".lock"@) {
        crate::text::u32_of(name.take(end))
    } else {
        None
    }
}

/// Whether a lock can be removed: its process is gone, or another process took its id.
pub fn lock_is_stale(pid_alive: bool, lock_present: bool) -> (stale: bool)
    ensures
        stale == !(pid_alive && lock_present),
{
    !pid_alive || !lock_present
}

/// A lock's file name tells its process.
pub proof fn lock_name_tells_the_process(pid: u32)
    ensures
        lock_pid_of(lock_name(pid)) == Some(pid),
{
    let digits = crate::text::decimal(pid as nat);
    let name = lock_name(pid);
    assert(name.subrange(digits.len() as int, name.len() as int) =~= ".lock"@);
    assert(name.take(digits.len() as int) =~= digits);
    crate::text::decimal_reads_back(pid);
}

/// Two untitled documents of different instances have different backups, and neither is the
/// backup of a file.
pub proof fn backup_ids_differ(a: u64, b: u64, hash: u64)
    ensures
        untitled_id(a) == untitled_id(b) <==> a == b,
        path_backup_id(a) == path_backup_id(b) <==> a == b,
        untitled_id(a) != path_backup_id(hash),
{
    reveal_strlit("untitled-");
    crate::text::hex_padded_len(a as nat, 16);
    crate::text::hex_padded_len(b as nat, 16);
    crate::text::hex_padded_len(hash as nat, 16);
    let prefix = "untitled-"@;
    assert(untitled_id(a).skip(9) =~= crate::text::hex_padded(a as nat, 16));
    assert(untitled_id(b).skip(9) =~= crate::text::hex_padded(b as nat, 16));
    if crate::text::hex_padded(a as nat, 16) == crate::text::hex_padded(b as nat, 16) {
        assert(pow16(16) == 0x1_0000_0000_0000_0000) by {
            reveal_with_fuel(pow16, 17);
        }
        hex_padded_tells_the_number(a as nat, b as nat, 16);
    }
}

/// Sixteen to the power of `n`.
spec fn pow16(n: nat) -> nat
    decreases n,
{
    if n == 0 {
        1
    } else {
        16 * pow16((n - 1) as nat)
    }
}

/// Numbers that fit their width are the same if their padded text is.
proof fn hex_padded_tells_the_number(a: nat, b: nat, width: nat)
    requires
        a < pow16(width),
        b < pow16(width),
        crate::text::hex_padded(a, width) == crate::text::hex_padded(b, width),
    ensures
        a == b,
    decreases width,
{
    if width > 0 {
        let w = (width - 1) as nat;
        let pa = crate::text::hex_padded(a / 16, w);
        let pb = crate::text::hex_padded(b / 16, w);
        let da = crate::text::hex_digit(a % 16);
        let db = crate::text::hex_digit(b % 16);
        assert(pa.push(da).drop_last() =~= pa);
        assert(pb.push(db).drop_last() =~= pb);
        assert(pa.push(da).last() == da);
        assert(pb.push(db).last() == db);
        assert(a / 16 < pow16(w));
        assert(b / 16 < pow16(w));
        hex_padded_tells_the_number(a / 16, b / 16, w);
    }
}

}
