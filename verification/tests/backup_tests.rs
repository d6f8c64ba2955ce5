use icutil::backup::StorageManager;
use icutil::reading::VolumeError;

const DAY: u64 = 86400;

#[test]
fn backup_throttling() {
    // Two backups closer together than the interval: the second is
    // refused; with enough distance both succeed.
    let mut m = StorageManager::new(DAY, 30, 30);
    assert!(m.create_backup(1000, vec![1, 2, 3]).is_ok());
    let r = m.create_backup(1000 + DAY - 1, vec![4]);
    assert!(matches!(r, Err(VolumeError::TooFrequent(_))));
    assert_eq!(m.backup_count(), 1);
    assert!(m.create_backup(1000 + DAY, vec![4]).is_ok());
    assert_eq!(m.backup_count(), 2);
}

#[test]
fn too_frequent_carries_wait_hint() {
    let mut m = StorageManager::new(DAY, 30, 30);
    assert!(m.create_backup(0, Vec::new()).is_ok());
    match m.create_backup(DAY - 600, Vec::new()) {
        Err(VolumeError::TooFrequent(wait)) => assert_eq!(wait, 600),
        other => panic!("expected a throttled backup, got {:?}", other),
    }
}

#[test]
fn first_backup_is_always_allowed() {
    let mut m = StorageManager::new(DAY, 30, 30);
    assert!(m.create_backup(5, Vec::new()).is_ok());
}

#[test]
fn retention_drops_old_then_excess() {
    // Interval of 1 so several backups can be taken; retention of 30 days,
    // at most 2 records kept.
    let mut m = StorageManager::new(1, 2, 30);
    let base = 100 * DAY;
    assert!(m.create_backup(base - 40 * DAY, vec![0]).is_ok());
    assert!(m.create_backup(base - 10 * DAY, vec![1]).is_ok());
    assert!(m.create_backup(base - 5 * DAY, vec![2]).is_ok());
    assert!(m.create_backup(base - DAY, vec![3]).is_ok());
    assert_eq!(m.backup_count(), 4);

    m.enforce_retention(base).expect("sweep failed");
    // The 40-day-old record fell to the age cutoff; of the three fresh
    // ones, the oldest fell to the count bound.
    assert_eq!(m.list_backups(), vec![base - 5 * DAY, base - DAY]);
}

#[test]
fn retention_idempotence() {
    let mut m = StorageManager::new(1, 2, 30);
    let base = 100 * DAY;
    assert!(m.create_backup(base - 40 * DAY, vec![0]).is_ok());
    assert!(m.create_backup(base - 10 * DAY, vec![1]).is_ok());
    assert!(m.create_backup(base - 5 * DAY, vec![2]).is_ok());

    m.enforce_retention(base).expect("sweep failed");
    let after_first = m.list_backups();
    m.enforce_retention(base).expect("sweep failed");
    let after_second = m.list_backups();
    assert_eq!(after_first, after_second);
    assert_eq!(after_first, vec![base - 10 * DAY, base - 5 * DAY]);
}
