//! Throttled backups and the periodic retention sweep over them.

use vstd::prelude::*;

use crate::rate_limiter::wait_hint;
use crate::reading::VolumeError;

verus! {

/// Seconds in a day, the unit retention windows are configured in.
pub const SECONDS_PER_DAY: u64 = 86400;

/// A snapshot of store state taken at a point in time.
pub struct BackupRecord {
    pub created_at: u64,
    pub payload: Vec<u8>,
}

/// A record young enough to survive a sweep at `now` with the given
/// retention window.
pub open spec fn fresh_record(b: BackupRecord, now: u64, retention_days: u64) -> bool {
    now - b.created_at < retention_days * SECONDS_PER_DAY
}

/// The records of `s` that survive the age cutoff, in order.
pub open spec fn retained(s: Seq<BackupRecord>, now: u64, retention_days: u64) -> Seq<BackupRecord>
    decreases s.len(),
{
    if s.len() == 0 {
        Seq::empty()
    } else {
        let rest = retained(s.drop_last(), now, retention_days);
        if fresh_record(s.last(), now, retention_days) {
            rest.push(s.last())
        } else {
            rest
        }
    }
}

/// One sweep: the age cutoff first, then the oldest surviving records are
/// dropped until the count bound holds.
pub open spec fn sweep_spec(
    s: Seq<BackupRecord>,
    now: u64,
    retention_days: u64,
    max_backups: usize,
) -> Seq<BackupRecord> {
    let kept = retained(s, now, retention_days);
    if kept.len() <= max_backups {
        kept
    } else {
        kept.skip(kept.len() - max_backups)
    }
}

/// Whether a backup at `now` is allowed: always for a first backup, and
/// otherwise only once the minimum interval has passed.
pub open spec fn can_backup(last: Option<u64>, now: u64, interval: u64) -> bool {
    match last {
        None => true,
        Some(t) => now - t >= interval,
    }
}

/// Keeper of the backup list: throttles creation and enforces retention.
pub struct StorageManager {
    backups: Vec<BackupRecord>,
    last_backup: Option<u64>,
    backup_interval: u64,
    max_backups: usize,
    retention_days: u64,
}

impl View for StorageManager {
    type V = Seq<BackupRecord>;

    closed spec fn view(&self) -> Seq<BackupRecord> {
        self.backups@
    }
}

impl StorageManager {
    /// Minimum gap between two successful backups, in seconds.
    pub closed spec fn interval(self) -> u64 {
        self.backup_interval
    }

    /// Largest number of records kept after a sweep.
    pub closed spec fn max_backups(self) -> usize {
        self.max_backups
    }

    /// Age bound for records, in days.
    pub closed spec fn retention_days(self) -> u64 {
        self.retention_days
    }

    /// When the last successful backup was taken, if any.
    pub closed spec fn last_backup(self) -> Option<u64> {
        self.last_backup
    }

    /// The manager's invariant: positive, bounded configuration.
    pub open spec fn wf(self) -> bool {
        &&& 0 < self.interval()
        &&& 0 < self.max_backups() <= 1_000_000
        &&& 0 < self.retention_days() <= 1_000_000
    }

    /// A manager with no backups taken yet.
    pub fn new(backup_interval: u64, max_backups: usize, retention_days: u64) -> (m: StorageManager)
        requires
            0 < backup_interval,
            0 < max_backups <= 1_000_000,
            0 < retention_days <= 1_000_000,
        ensures
            m.wf(),
            m@ == Seq::<BackupRecord>::empty(),
            m.last_backup() is None,
            m.interval() == backup_interval,
            m.max_backups() == max_backups,
            m.retention_days() == retention_days,
    {
        StorageManager {
            backups: Vec::new(),
            last_backup: None,
            backup_interval,
            max_backups,
            retention_days,
        }
    }

    /// Number of backup records held.
    pub fn backup_count(&self) -> (n: usize)
        ensures
            n == self@.len(),
    {
        self.backups.len()
    }

    /// The creation times of the held backups, oldest first.
    pub fn list_backups(&self) -> (r: Vec<u64>)
        ensures
            r@.len() == self@.len(),
            forall|i: int| 0 <= i < self@.len() ==> #[trigger] r@[i] == self@[i].created_at,
    {
        let n = self.backups.len();
        let mut out: Vec<u64> = Vec::new();
        let mut i: usize = 0;
        while i < n
            invariant
                i <= n,
                out@.len() == i,
                forall|j: int| 0 <= j < i ==> #[trigger] out@[j] == self@[j].created_at,
            decreases n - i,
        {
            out.push(self.backups[i].created_at);
            i = i + 1;
        }
        out
    }

    /// Takes a snapshot of the given serialized state, unless the last
    /// successful backup is younger than the minimum interval; a refusal
    /// carries the seconds left to wait and changes nothing.
    pub fn create_backup(&mut self, now: u64, payload: Vec<u8>) -> (r: Result<String, VolumeError>)
        requires
            old(self).wf(),
        ensures
            final(self).wf(),
            final(self).interval() == old(self).interval(),
            final(self).max_backups() == old(self).max_backups(),
            final(self).retention_days() == old(self).retention_days(),
            can_backup(old(self).last_backup(), now, old(self).interval()) ==> (r matches Ok(m)
                && m@ == "Backup created successfully"@) && final(self)@ == old(self)@.push(
                BackupRecord { created_at: now, payload },
            ) && final(self).last_backup() == Some(now),
            !can_backup(old(self).last_backup(), now, old(self).interval()) ==> (r matches Err(e)
                && e matches VolumeError::TooFrequent(w) && old(self).last_backup() matches Some(t)
                && w == wait_hint(t, old(self).interval(), now)) && final(self)@ == old(self)@
                && final(self).last_backup() == old(self).last_backup(),
    {
        match self.last_backup {
            Some(t) => {
                if (now as u128) < (t as u128) + (self.backup_interval as u128) {
                    let wait128 = (t as u128) + (self.backup_interval as u128) - (now as u128);
                    let wait: u64 = if wait128 > 0xFFFF_FFFF_FFFF_FFFF {
                        0xFFFF_FFFF_FFFF_FFFF
                    } else {
                        wait128 as u64
                    };
                    return Err(VolumeError::TooFrequent(wait));
                }
            },
            None => {},
        }
        self.backups.push(BackupRecord { created_at: now, payload });
        self.last_backup = Some(now);
        Ok("Backup created successfully".to_string())
    }

    /// One retention sweep at `now`: drops records older than the retention
    /// window, then the oldest survivors beyond the count bound.
    pub fn enforce_retention(&mut self, now: u64) -> (r: Result<(), VolumeError>)
        requires
            old(self).wf(),
        ensures
            final(self).wf(),
            final(self).interval() == old(self).interval(),
            final(self).max_backups() == old(self).max_backups(),
            final(self).retention_days() == old(self).retention_days(),
            final(self).last_backup() == old(self).last_backup(),
            r is Ok,
            final(self)@ == sweep_spec(
                old(self)@,
                now,
                old(self).retention_days(),
                old(self).max_backups(),
            ),
    {
        let ghost orig = self.backups@;
        let mut i: usize = 0;
        let ghost mut processed: int = 0;
        proof {
            assert(orig.take(0) =~= Seq::<BackupRecord>::empty());
            assert(orig.skip(0) =~= orig);
            assert(self.backups@ =~= retained(orig.take(0), now, self.retention_days) + orig.skip(
                0,
            ));
        }
        while i < self.backups.len()
            invariant
                self.backup_interval == old(self).backup_interval,
                self.max_backups == old(self).max_backups,
                self.retention_days == old(self).retention_days,
                self.last_backup == old(self).last_backup,
                0 <= processed <= orig.len(),
                i == retained(orig.take(processed), now, self.retention_days).len(),
                self.backups@ == retained(orig.take(processed), now, self.retention_days)
                    + orig.skip(processed),
                self.backups@.len() == i + orig.len() - processed,
            decreases orig.len() - processed,
        {
            let ghost kept_pre = retained(orig.take(processed), now, self.retention_days);
            proof {
                assert(self.backups@[i as int] == orig.skip(processed)[0]);
                assert(orig.skip(processed)[0] == orig[processed]);
                assert(orig.take(processed + 1).drop_last() =~= orig.take(processed));
                assert(orig.take(processed + 1).last() == orig[processed]);
            }
            let ts = self.backups[i].created_at;
            let keep = (now as u128) < (ts as u128) + (self.retention_days as u128) * (
            SECONDS_PER_DAY as u128);
            if keep {
                i = i + 1;
                proof {
                    processed = processed + 1;
                    assert(self.backups@ =~= retained(
                        orig.take(processed),
                        now,
                        self.retention_days,
                    ) + orig.skip(processed));
                }
            } else {
                self.backups.remove(i);
                proof {
                    processed = processed + 1;
                    assert(self.backups@ =~= retained(
                        orig.take(processed),
                        now,
                        self.retention_days,
                    ) + orig.skip(processed));
                }
            }
        }
        proof {
            assert(processed == orig.len());
            assert(orig.take(processed) =~= orig);
            assert(orig.skip(processed) =~= Seq::<BackupRecord>::empty());
            assert(self.backups@ =~= retained(orig, now, self.retention_days));
        }
        let ghost kept = retained(orig, now, self.retention_days);
        let ghost mut dropped: int = 0;
        proof {
            assert(kept.skip(0) =~= kept);
        }
        while self.backups.len() > self.max_backups
            invariant
                self.backup_interval == old(self).backup_interval,
                self.max_backups == old(self).max_backups,
                self.retention_days == old(self).retention_days,
                self.last_backup == old(self).last_backup,
                0 <= dropped,
                dropped == kept.len() - self.backups@.len(),
                dropped == 0 || self.backups@.len() + 1 > self.max_backups,
                self.backups@ == kept.skip(dropped),
            decreases self.backups@.len(),
        {
            self.backups.remove(0);
            proof {
                dropped = dropped + 1;
                assert(self.backups@ =~= kept.skip(dropped));
            }
        }
        proof {
            if dropped == 0 {
                assert(self.backups@ =~= kept);
            } else {
                assert(self.backups@.len() == self.max_backups as int);
                assert(self.backups@ =~= kept.skip(kept.len() - self.max_backups));
            }
        }
        Ok(())
    }
}

/// Every record a sweep keeps is fresh at the sweep's time.
proof fn lemma_retained_fresh(s: Seq<BackupRecord>, now: u64, retention_days: u64)
    ensures
        forall|i: int|
            0 <= i < retained(s, now, retention_days).len() ==> fresh_record(
                #[trigger] retained(s, now, retention_days)[i],
                now,
                retention_days,
            ),
    decreases s.len(),
{
    if s.len() > 0 {
        lemma_retained_fresh(s.drop_last(), now, retention_days);
        let rest = retained(s.drop_last(), now, retention_days);
        let whole = retained(s, now, retention_days);
        assert forall|i: int| 0 <= i < whole.len() implies fresh_record(
            #[trigger] whole[i],
            now,
            retention_days,
        ) by {
            if fresh_record(s.last(), now, retention_days) && i == rest.len() {
                assert(whole[i] == s.last());
            } else {
                assert(whole[i] == rest[i]);
            }
        }
    }
}

/// The age cutoff keeps a sequence of fresh records as it is.
proof fn lemma_retained_all_fresh(s: Seq<BackupRecord>, now: u64, retention_days: u64)
    requires
        forall|i: int| 0 <= i < s.len() ==> fresh_record(#[trigger] s[i], now, retention_days),
    ensures
        retained(s, now, retention_days) == s,
    decreases s.len(),
{
    if s.len() > 0 {
        assert(forall|i: int|
            0 <= i < s.drop_last().len() ==> fresh_record(
                #[trigger] s.drop_last()[i],
                now,
                retention_days,
            ));
        lemma_retained_all_fresh(s.drop_last(), now, retention_days);
        assert(fresh_record(s.last(), now, retention_days));
        assert(retained(s, now, retention_days) =~= s);
    }
}

/// Retention sweeps are idempotent: a second sweep at the same time, with no
/// records created in between, changes nothing.
pub proof fn lemma_sweep_idempotent(
    s: Seq<BackupRecord>,
    now: u64,
    retention_days: u64,
    max_backups: usize,
)
    ensures
        sweep_spec(sweep_spec(s, now, retention_days, max_backups), now, retention_days, max_backups)
            == sweep_spec(s, now, retention_days, max_backups),
{
    let once = sweep_spec(s, now, retention_days, max_backups);
    let kept = retained(s, now, retention_days);
    lemma_retained_fresh(s, now, retention_days);
    assert forall|i: int| 0 <= i < once.len() implies fresh_record(
        #[trigger] once[i],
        now,
        retention_days,
    ) by {
        if kept.len() > max_backups {
            assert(once[i] == kept[i + (kept.len() - max_backups)]);
        } else {
            assert(once[i] == kept[i]);
        }
    }
    lemma_retained_all_fresh(once, now, retention_days);
    assert(once.len() <= max_backups);
}

/// A backup attempt within the minimum interval of the previous one is
/// refused, and one at or past the interval is allowed.
pub proof fn lemma_backup_throttling(t1: u64, t2: u64, interval: u64)
    ensures
        t2 - t1 < interval ==> !can_backup(Some(t1), t2, interval),
        t2 - t1 >= interval ==> can_backup(Some(t1), t2, interval),
{
}

} // verus!
