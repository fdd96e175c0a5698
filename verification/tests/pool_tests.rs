use plctag::pool::{scan_next, Initialize, PoolOptions, PoolState, ScanNext};
use plctag::status::PLCTAG_ERR_TIMEOUT;
use plctag::Status;
use std::cell::Cell;

struct FakeTag {
    count: Cell<u8>,
    path: String,
}

impl Initialize for FakeTag {
    fn create(path: String) -> Result<Self, Status> {
        if path.starts_with("err") {
            Err(Status::Error(PLCTAG_ERR_TIMEOUT))
        } else {
            Ok(FakeTag { count: Cell::new(0), path })
        }
    }

    fn status(&self) -> Status {
        let count = self.count.get();
        if count < 10 {
            self.count.set(count + 1);
            Status::Pending
        } else if self.path.contains("timeout") {
            Status::Error(PLCTAG_ERR_TIMEOUT)
        } else {
            Status::Success
        }
    }
}

/// scans the pool until the creation of entry `id` ends, as the scan task does
fn scan(pool: &mut PoolState<FakeTag>, id: u64, now: u64) -> Status {
    loop {
        pool.scan_pending(now);
        if let Some(status) = pool.entry_by_id(id).unwrap().err_status() {
            return status;
        }
    }
}

/// what `Entry::get` answers once the creation has ended
fn connect(pool: &PoolState<FakeTag>, id: u64) -> Result<(), Status> {
    pool.entry_by_id(id).unwrap().err_status().unwrap().into_result()
}

#[test]
fn pool_error_at_first() {
    let mut pool: PoolState<FakeTag> = PoolState::new(PoolOptions::new());
    let res = pool.entry("err");
    assert!(res.is_err());
    assert_eq!(pool.len(), 0);
}

#[test]
fn pool_error_at_last() {
    let mut pool: PoolState<FakeTag> = PoolState::new(PoolOptions::new());
    let (id, created) = pool.entry("timeout").unwrap();
    assert!(created);
    assert_eq!(pool.len(), 1);
    scan(&mut pool, id, 0);
    let res = connect(&pool, id);
    assert!(res.is_err());
    // the last user of the entry drops it: a failed entry keeps its own expiration
    assert!(!pool.will_expire(id, false, None, 0));
    assert_eq!(pool.len(), 1);
    pool.shutdown();
}

#[test]
fn pool_only_one_instance() {
    let mut pool: PoolState<FakeTag> = PoolState::new(PoolOptions::new());
    let first = pool.entry("one_tag");
    assert!(first.is_ok());
    let second = pool.entry("one_tag");
    assert!(second.is_ok());
    assert_eq!(first.unwrap().0, second.unwrap().0);
    assert_eq!(pool.len(), 1);
}

#[test]
fn pool_more_instances() {
    let mut pool: PoolState<FakeTag> = PoolState::new(PoolOptions::new());
    assert!(pool.entry("one_tag").is_ok());
    assert!(pool.entry("one_tag").is_ok());
    assert!(pool.entry("another").is_ok());
    assert_eq!(pool.len(), 2);
    assert!(pool.contains("another"));
    assert!(!pool.contains("third"));
}

#[test]
fn pool_test_remove() {
    let mut pool: PoolState<FakeTag> = PoolState::new(PoolOptions::new());
    let res = pool.entry("one_tag");
    assert!(res.is_ok());
    assert_eq!(pool.len(), 1);
    let removed = pool.remove_entry("one_tag");
    assert_eq!(removed.unwrap().path(), "one_tag");
    assert_eq!(pool.len(), 0);
    assert!(pool.remove_entry("one_tag").is_none());
}

#[test]
fn test_expire_for_normal() {
    let mut pool: PoolState<FakeTag> = PoolState::new(PoolOptions::default().expire_after(100));
    let (id, _) = pool.entry("one_tag").unwrap();
    assert_eq!(pool.len(), 1);
    assert_eq!(scan(&mut pool, id, 0), Status::Success);
    // the entry is dropped by its last user at time 0
    assert!(pool.will_expire(id, false, None, 0));
    assert_eq!(pool.purge_expirations(50), Some(100));
    assert_eq!(pool.len(), 1);
    assert_eq!(pool.purge_expirations(150), None);
    assert_eq!(pool.len(), 0);
}

#[test]
fn test_expire_for_error() {
    let mut pool: PoolState<FakeTag> = PoolState::new(PoolOptions::default().fault_last(100));
    let (id, _) = pool.entry("timeout").unwrap();
    assert_eq!(pool.len(), 1);
    assert!(scan(&mut pool, id, 0).is_err());
    assert!(connect(&pool, id).is_err());
    assert_eq!(pool.entry_by_id(id).unwrap().will_expire(), Some(100));
    assert_eq!(pool.purge_expirations(150), None);
    assert_eq!(pool.len(), 0);
}

#[test]
fn pool_reuse_makes_entry_alive() {
    let mut pool: PoolState<FakeTag> = PoolState::new(PoolOptions::default().expire_after(10));
    let (id, _) = pool.entry("one_tag").unwrap();
    scan(&mut pool, id, 0);
    assert!(pool.will_expire(id, false, None, 0));
    // used again before it expires: it no longer expires
    assert_eq!(pool.entry("one_tag").unwrap(), (id, false));
    assert_eq!(pool.entry_by_id(id).unwrap().will_expire(), None);
    assert_eq!(pool.purge_expirations(1000), None);
    assert_eq!(pool.len(), 1);
}

#[test]
fn pool_failed_entry_stays_expiring() {
    let mut pool: PoolState<FakeTag> = PoolState::new(PoolOptions::default().fault_last(5));
    let (id, _) = pool.entry("timeout").unwrap();
    scan(&mut pool, id, 10);
    assert_eq!(pool.will_alive("timeout"), Some(id));
    assert_eq!(pool.entry_by_id(id).unwrap().will_expire(), Some(15));
    assert!(pool.entry_by_id(id).unwrap().is_err());
}

#[test]
fn pool_purge_keeps_later_entries() {
    let mut pool: PoolState<FakeTag> = PoolState::new(PoolOptions::default().expire_after(100));
    let (a, _) = pool.entry("a").unwrap();
    let (b, _) = pool.entry("b").unwrap();
    let (c, _) = pool.entry("c").unwrap();
    assert!(pool.will_expire(a, false, None, 0));
    assert!(pool.will_expire(b, false, Some(500), 0));
    assert!(pool.will_expire(c, false, Some(300), 0));
    assert_eq!(pool.purge_expirations(100), Some(300));
    assert_eq!(pool.ids(), vec![b, c]);
    pool.shutdown();
    assert_eq!(pool.purge_expirations(1000), None);
    assert_eq!(pool.len(), 2);
    assert!(!pool.will_expire(b, false, None, 0));
}

#[test]
fn pool_options_defaults() {
    let o = PoolOptions::new();
    assert_eq!(o.expire_after_ms(), 60_000);
    assert_eq!(o.fault_last_ms(), 1_000);
    let o = o.expire_after(5).fault_last(7);
    assert_eq!((o.expire_after_ms(), o.fault_last_ms()), (5, 7));
}

#[test]
fn scan_pending_settles_every_entry() {
    let mut pool: PoolState<FakeTag> = PoolState::new(PoolOptions::new());
    let (ok_id, _) = pool.entry("ok").unwrap();
    let (bad_id, _) = pool.entry("timeout").unwrap();
    for _ in 0..10 {
        assert_eq!(
            pool.scan_pending(5),
            (true, false, vec![(ok_id, Status::Pending), (bad_id, Status::Pending)])
        );
    }
    assert_eq!(
        pool.scan_pending(5),
        (false, true, vec![(ok_id, Status::Success), (bad_id, Status::Error(PLCTAG_ERR_TIMEOUT))])
    );
    let ok = pool.entry_by_id(ok_id).unwrap();
    assert_eq!(ok.err_status(), Some(Status::Success));
    assert_eq!(ok.will_expire(), None);
    let bad = pool.entry_by_id(bad_id).unwrap();
    assert_eq!(bad.err_status(), Some(Status::Error(PLCTAG_ERR_TIMEOUT)));
    assert_eq!(bad.will_expire(), Some(1005));
    // nothing is left to poll
    assert_eq!(pool.scan_pending(6), (false, false, vec![]));
    assert_eq!(pool.entry_by_id(bad_id).unwrap().will_expire(), Some(1005));
}

#[test]
fn pool_next_id_counts_created_entries() {
    let mut pool: PoolState<FakeTag> = PoolState::new(PoolOptions::new());
    assert_eq!(pool.next_id(), 0);
    pool.entry("a").unwrap();
    assert!(pool.entry("err").is_err());
    pool.entry("a").unwrap();
    pool.entry("b").unwrap();
    assert_eq!(pool.next_id(), 2);
}

#[test]
fn scan_task_next_step() {
    assert_eq!(scan_next(true, false), ScanNext::Again);
    assert_eq!(scan_next(true, true), ScanNext::Again);
    assert_eq!(scan_next(false, false), ScanNext::Wait);
    assert_eq!(scan_next(false, true), ScanNext::Stop);
}
