//! Crash recovery: when a document with unsaved changes is backed up, and which backups of a
//! session that is gone are offered back.

use crate::backup::{
    classify, content_hash, system_time_to_secs, untitled_backup_id, BackupRecord, OrphanClass,
};
use crate::conflict::FileFingerprint;
use crate::text::same;
use std::collections::hash_map::DefaultHasher;
use std::path::PathBuf;
use vstd::prelude::*;
use vstd::std_specs::hash::DefaultHasherAdditionalSpecFns;
use vstd::string::*;

verus! {

/// The hash that tells whether a document's text changed.
pub open spec fn hash_of(text: Seq<char>) -> u64 {
    DefaultHasher::spec_finish(crate::backup::text_hashed(Seq::empty(), text))
}

/// The backup of a document.
#[derive(Debug, PartialEq, Eq)]
pub struct Recovery {
    pub pid: u32,
    /// Names the backup of an untitled document, unique to this run.
    pub instance_id: u64,
    /// The document's backup.
    pub backup_id: String,
    /// Hash of what the backup holds, so an unchanged text is not written again.
    pub last_hash: Option<u64>,
}

impl Recovery {
    /// A new document's backup.
    pub fn new(pid: u32, instance_id: u64) -> (recovery: Self)
        ensures
            recovery.pid == pid,
            recovery.instance_id == instance_id,
            recovery.backup_id@ == crate::backup::untitled_id(instance_id),
            recovery.last_hash is None,
    {
        Recovery { pid, instance_id, backup_id: untitled_backup_id(instance_id), last_hash: None }
    }

    /// Whether a text that hashes to `hash` is backed up: it has unsaved changes and is not what
    /// the backup holds.
    pub open spec fn needs(self, modified: bool, hash: u64) -> bool {
        modified && self.last_hash != Some(hash)
    }

    /// The hash of `text` if it is to be backed up now.
    pub fn backup_due(&self, modified: bool, text: &str) -> (due: Option<u64>)
        ensures
            due == (if self.needs(modified, hash_of(text@)) {
                Some(hash_of(text@))
            } else {
                None
            }),
    {
        let hash = content_hash(text);
        self.due(modified, hash)
    }

    /// `hash` if a text that hashes to it is to be backed up now.
    pub fn due(&self, modified: bool, hash: u64) -> (due: Option<u64>)
        ensures
            due == (if self.needs(modified, hash) {
                Some(hash)
            } else {
                None
            }),
    {
        if !modified {
            return None;
        }
        match self.last_hash {
            Some(last) if last == hash => None,
            _ => Some(hash),
        }
    }

    /// The record of a backup of the document as it is now.
    pub fn record(
        &self,
        original_path: Option<PathBuf>,
        fingerprint: Option<FileFingerprint>,
        now_secs: u64,
        display_name: String,
    ) -> (record: BackupRecord)
        ensures
            record.version == BackupRecord::CURRENT_VERSION,
            record.backup_id@ == self.backup_id@,
            record.original_path == original_path,
            record.original_mtime_secs == (match fingerprint {
                Some(fingerprint) => Some(
                    if fingerprint.mtime.secs < 0 {
                        0u64
                    } else {
                        fingerprint.mtime.secs as u64
                    },
                ),
                None => None,
            }),
            record.original_size == (match fingerprint {
                Some(fingerprint) => Some(fingerprint.size),
                None => None,
            }),
            record.backup_timestamp_secs == now_secs,
            record.owner_pid == self.pid,
            record.display_name == display_name,
    {
        let (original_mtime_secs, original_size) = match fingerprint {
            Some(fingerprint) => (
                Some(system_time_to_secs(fingerprint.mtime)),
                Some(fingerprint.size),
            ),
            None => (None, None),
        };
        BackupRecord {
            version: BackupRecord::CURRENT_VERSION,
            backup_id: self.backup_id.clone(),
            original_path,
            original_mtime_secs,
            original_size,
            backup_timestamp_secs: now_secs,
            owner_pid: self.pid,
            display_name,
        }
    }

    /// Take note that a text that hashes to `hash` was backed up.
    pub fn wrote(&mut self, hash: u64)
        ensures
            *final(self) == (Recovery { last_hash: Some(hash), ..*old(self) }),
    {
        self.last_hash = Some(hash);
    }

    /// Forget what the backup holds: it is removed.
    pub fn clear_backup(&mut self)
        ensures
            *final(self) == (Recovery { last_hash: None, ..*old(self) }),
    {
        self.last_hash = None;
    }

    /// Switch to the backup of an untitled document.
    pub fn use_untitled_backup(&mut self)
        ensures
            final(self).pid == old(self).pid,
            final(self).instance_id == old(self).instance_id,
            final(self).backup_id@ == crate::backup::untitled_id(old(self).instance_id),
            final(self).last_hash is None,
    {
        self.backup_id = untitled_backup_id(self.instance_id);
        self.last_hash = None;
    }

    /// Switch to the backup of a file that was opened, saved or recovered.
    pub fn use_backup_for(&mut self, backup_id: String)
        ensures
            *final(self) == (Recovery { backup_id, last_hash: None, ..*old(self) }),
    {
        self.backup_id = backup_id;
        self.last_hash = None;
    }

    /// Whether the backup that a text was recovered from can go: the text is in the document's
    /// own backup, which is another one.
    pub fn replaces(&self, recovered_id: &str) -> (replaced: bool)
        ensures
            replaced == (self.last_hash is Some && self.backup_id@ != recovered_id@),
    {
        self.last_hash.is_some() && !same(self.backup_id.as_str(), recovered_id)
    }
}

/// A text is backed up once, until its backup is removed.
pub proof fn texts_are_backed_up_once(recovery: Recovery, hash: u64)
    ensures
        !(Recovery { last_hash: Some(hash), ..recovery }).needs(true, hash),
        (Recovery { last_hash: None, ..recovery }).needs(true, hash),
        !recovery.needs(false, hash),
{
}

/// Whether a backup is offered back: the session it is of is gone.
pub open spec fn is_orphan(record_pid: u32, pid: u32, lock_present: bool, alive: bool) -> bool {
    record_pid != pid && !(lock_present && alive)
}

/// Which of the first `n` backups are offered back.
pub open spec fn offered(
    owners: Seq<u32>,
    pid: u32,
    locks: Seq<bool>,
    alive: Seq<bool>,
    n: int,
) -> Seq<usize>
    decreases n,
{
    if n <= 0 {
        Seq::empty()
    } else {
        let before = offered(owners, pid, locks, alive, n - 1);
        if is_orphan(owners[n - 1], pid, locks[n - 1], alive[n - 1]) {
            before.push((n - 1) as usize)
        } else {
            before
        }
    }
}

/// Which backups are offered back. `locks` and `alive` tell of the process that each belongs to
/// whether its lock is there and whether it runs.
pub fn orphans(owners: &Vec<u32>, pid: u32, locks: &Vec<bool>, alive: &Vec<bool>) -> (offer: Vec<
    usize,
>)
    requires
        locks@.len() == owners@.len(),
        alive@.len() == owners@.len(),
    ensures
        offer@ == offered(owners@, pid, locks@, alive@, owners@.len() as int),
{
    let mut offer: Vec<usize> = Vec::new();
    for i in 0..owners.len()
        invariant
            locks@.len() == owners@.len(),
            alive@.len() == owners@.len(),
            offer@ == offered(owners@, pid, locks@, alive@, i as int),
    {
        if classify(owners[i], pid, locks[i], alive[i]) == OrphanClass::Orphan {
            offer.push(i);
        }
    }
    offer
}

/// The backups of this run and of others that still run are never offered back, and all the
/// rest are.
pub proof fn only_orphans_are_offered(
    owners: Seq<u32>,
    pid: u32,
    locks: Seq<bool>,
    alive: Seq<bool>,
    n: int,
)
    requires
        0 <= n <= owners.len() <= usize::MAX,
    ensures
        forall|i: int|
            0 <= i < n ==> (offered(owners, pid, locks, alive, n).contains(i as usize)
                <==> is_orphan(#[trigger] owners[i], pid, locks[i], alive[i])),
        forall|k: int|
            0 <= k < offered(owners, pid, locks, alive, n).len() ==> #[trigger] offered(
                owners,
                pid,
                locks,
                alive,
                n,
            )[k] < n,
    decreases n,
{
    if n > 0 {
        only_orphans_are_offered(owners, pid, locks, alive, n - 1);
        let before = offered(owners, pid, locks, alive, n - 1);
        let after = offered(owners, pid, locks, alive, n);
        assert forall|i: int| 0 <= i < n implies (after.contains(i as usize) <==> is_orphan(
            #[trigger] owners[i],
            pid,
            locks[i],
            alive[i],
        )) by {
            if after.len() > before.len() {
                assert(after[before.len() as int] == (n - 1) as usize);
                if i < n - 1 && after.contains(i as usize) {
                    let k = choose|k: int| 0 <= k < after.len() && after[k] == i as usize;
                    assert(before[k] == i as usize);
                }
                if i < n - 1 && before.contains(i as usize) {
                    let k = choose|k: int| 0 <= k < before.len() && before[k] == i as usize;
                    assert(after[k] == i as usize);
                }
            } else if i == n - 1 && before.contains(i as usize) {
                let k = choose|k: int| 0 <= k < before.len() && before[k] == i as usize;
                assert(before[k] < n - 1);
            }
        }
    }
}

/// A backup is offered back exactly if another process made it that holds no lock or does not run
/// any more.
pub proof fn backups_of_lost_sessions_are_offered(
    owners: Seq<u32>,
    pid: u32,
    locks: Seq<bool>,
    alive: Seq<bool>,
    i: int,
)
    requires
        0 <= i < owners.len() <= usize::MAX,
    ensures
        offered(owners, pid, locks, alive, owners.len() as int).contains(i as usize) <==> owners[i]
            != pid && (!locks[i] || !alive[i]),
{
    only_orphans_are_offered(owners, pid, locks, alive, owners.len() as int);
}

}
