use plctag::co::{CoState, Error};
use plctag::pool::Initialize;
use plctag::status::PLCTAG_ERR_TIMEOUT;
use plctag::Status;
use std::cell::Cell;

struct FakeTag {
    count: Cell<u8>,
    path: String,
}

impl Initialize for FakeTag {
    fn create(path: String) -> Result<Self, Status> {
        if path.starts_with("err") {
            Err(Status::Error(PLCTAG_ERR_TIMEOUT))
        } else {
            Ok(FakeTag { count: Cell::new(0), path })
        }
    }

    fn status(&self) -> Status {
        let count = self.count.get();
        if count < 10 {
            self.count.set(count + 1);
            Status::Pending
        } else if self.path.contains("timeout") {
            Status::Error(PLCTAG_ERR_TIMEOUT)
        } else {
            Status::Success
        }
    }
}

/// get or create the entry of a path, as `Pool::entry` does, then scan until
/// its creation ends; returns the entry's id and the creation's outcome
fn entry(pool: &mut CoState<FakeTag>, path: &str, now: &mut u64) -> Result<u64, Error> {
    let (id, created) = pool.entry(path);
    if created {
        let res = FakeTag::create(path.to_string()).map_err(Error::TagError);
        pool.create_tag_task(id, res, *now);
    }
    loop {
        match pool.get_tag_by_id(id) {
            None => return Err(Error::TagError(Status::Error(PLCTAG_ERR_TIMEOUT))),
            Some(e) => {
                if let Some(res) = e.connect() {
                    return res.map(|_| id);
                }
            }
        }
        *now += 5;
        pool.scan_once(*now);
    }
}

#[test]
fn co_error_at_first() {
    let mut pool: CoState<FakeTag> = CoState::new();
    let mut now = 0;
    let res = entry(&mut pool, "err", &mut now);
    assert!(res.is_err());
    assert_eq!(pool.len(), 0);
}

#[test]
fn co_error_at_last() {
    let mut pool: CoState<FakeTag> = CoState::new();
    let mut now = 0;
    let res = entry(&mut pool, "timeout", &mut now);
    assert_eq!(res, Err(Error::TagError(Status::Error(PLCTAG_ERR_TIMEOUT))));
    assert_eq!(pool.len(), 1);
}

#[test]
fn co_only_one_instance() {
    let mut pool: CoState<FakeTag> = CoState::new();
    let mut now = 0;
    let a = entry(&mut pool, "one_tag", &mut now).unwrap();
    let b = entry(&mut pool, "one_tag", &mut now).unwrap();
    assert_eq!(a, b);
    assert_eq!(pool.len(), 1);
    let c = entry(&mut pool, "another", &mut now).unwrap();
    assert_ne!(a, c);
    assert_eq!(pool.len(), 2);
}

#[test]
fn co_remove() {
    let mut pool: CoState<FakeTag> = CoState::new();
    let mut now = 0;
    let res = entry(&mut pool, "one_tag", &mut now);
    assert!(res.is_ok());
    assert_eq!(pool.len(), 1);
    let removed = pool.remove("one_tag").unwrap();
    assert_eq!(removed.path(), "one_tag");
    assert_eq!(pool.len(), 0);
    assert!(pool.remove("one_tag").is_none());
}

#[test]
fn co_scan_once_polls_due_creations() {
    let mut pool: CoState<FakeTag> = CoState::new();
    let (id, created) = pool.entry("one_tag");
    assert!(created);
    let res = FakeTag::create(String::from("one_tag")).map_err(Error::TagError);
    assert!(pool.create_tag_task(id, res, 100));
    // not due yet
    let (next, observed) = pool.scan_once(104);
    assert_eq!(next, Some(105));
    assert!(observed.is_empty());
    let (next, observed) = pool.scan_once(105);
    assert_eq!(observed, vec![(id, Status::Pending)]);
    assert_eq!(next, Some(110));
    let e = pool.get_tag_by_id(id).unwrap();
    assert!(e.has_instance() && !e.is_done());
    assert_eq!(e.connect(), None);
    pool.shutdown();
    assert_eq!(pool.scan_once(1000), (None, vec![]));
}

#[test]
fn co_may_queue_only_unqueued_ids() {
    let mut pool: CoState<FakeTag> = CoState::new();
    let (id, created) = pool.entry("ok");
    assert!(created);
    assert_eq!(pool.next_id(), 1);
    assert!(pool.may_queue(id));
    assert!(!pool.may_queue(1));
    let res = FakeTag::create("ok".to_string()).map_err(Error::TagError);
    assert!(pool.create_tag_task(id, res, 0));
    assert!(!pool.may_queue(id));
    assert_eq!(pool.ids(), vec![id]);
}

#[test]
fn co_more_instances() {
    let mut pool: CoState<FakeTag> = CoState::new();
    let mut now = 0;
    assert!(entry(&mut pool, "one_tag", &mut now).is_ok());
    assert!(entry(&mut pool, "one_tag", &mut now).is_ok());
    assert!(entry(&mut pool, "another", &mut now).is_ok());
    // every creation has been polled to its end: nothing is queued
    assert_eq!(pool.scan_once(now + 100), (None, vec![]));
    assert_eq!(pool.len(), 2);
}
