use plctag::cell::{CreationStatus, Notify, OnceCell, SetAttempt, SyncCellState, set_attempt, set_done};
use plctag::entry::{EntrySignal, Error, InflightGuard, TAG_CREATED, TAG_DESTROYED, TAG_FIRST_READ};
use plctag::event::{
    Event, PLCTAG_EVENT_CREATED, PLCTAG_EVENT_DESTROYED, PLCTAG_EVENT_READ_COMPLETED,
    PLCTAG_EVENT_WRITE_COMPLETED,
};
use plctag::op::{CheckStep, CreationRetry, Operation, creation_step, wait_step};
use plctag::park::{Interest, ParkRegistry};
use plctag::status::{PLCTAG_ERR_NOT_FOUND, PLCTAG_ERR_TIMEOUT};
use plctag::Status;

#[test]
fn entry_swallows_first_read() {
    let mut sig = EntrySignal::new();
    assert_eq!(sig.ready(), None);
    assert!(sig.set_event(PLCTAG_EVENT_CREATED, 0));
    assert_eq!(sig.state, TAG_CREATED);
    assert_eq!(sig.ready(), Some(Ok(())));
    // the read completed event sent on creation is swallowed
    assert!(!sig.set_event(PLCTAG_EVENT_READ_COMPLETED, 0));
    assert_eq!(sig.state, TAG_FIRST_READ);
    // the created event still waits, and is taken
    assert!(sig.set);
    assert_eq!(sig.recv_event(PLCTAG_EVENT_READ_COMPLETED), None);
    assert!(sig.set_event(PLCTAG_EVENT_READ_COMPLETED, -32));
    assert_eq!(sig.recv_event(PLCTAG_EVENT_READ_COMPLETED), Some(Status::Error(-32)));
    assert!(!sig.set);
    assert!(sig.set_event(PLCTAG_EVENT_WRITE_COMPLETED, 0));
    // an event that is not awaited is taken and lost
    assert_eq!(sig.recv_event(PLCTAG_EVENT_READ_COMPLETED), None);
    assert_eq!(sig.take_event(), (0, 0));
}

#[test]
fn entry_destroyed() {
    let mut sig = EntrySignal::new();
    assert!(sig.set_event(PLCTAG_EVENT_DESTROYED, 0));
    assert_eq!(sig.state, TAG_DESTROYED);
    let not_found = Status::Error(PLCTAG_ERR_NOT_FOUND);
    assert_eq!(sig.ready(), Some(Err(not_found)));
    assert_eq!(sig.recv_event(PLCTAG_EVENT_READ_COMPLETED), Some(not_found));
    assert_eq!(sig.status(Status::Success), not_found);
    assert_eq!(EntrySignal::new().status(Status::Pending), Status::Pending);
}

#[test]
fn inflight_guard() {
    let mut g = InflightGuard::new();
    assert_eq!(g.read(Status::Pending), Ok(()));
    assert!(g.should_abort());
    assert_eq!(g.finish(Status::Success), Ok(()));
    assert!(g.should_abort());
    let mut g = InflightGuard::new();
    assert_eq!(g.write(Status::Error(-3)), Err(Status::Error(-3)));
    assert!(!g.should_abort());
    let mut g = InflightGuard::new();
    assert_eq!(g.finish(Status::Error(-8)), Err(Status::Error(-8)));
    assert!(!g.should_abort());
}

#[test]
fn async_error_text() {
    assert_eq!(Error::from(Status::Error(-32)).to_string(), "TagError - PLCTAG_ERR_TIMEOUT");
    assert_eq!(Error::Other(String::from("boom")).to_string(), "boom");
}

#[test]
fn cell_test_cell() {
    let mut cell = OnceCell::new();
    let _ = cell.set(1);
    let _ = cell.set(2);
    let v: &i32 = cell.get().unwrap();
    assert_eq!(v, &1);
}

#[test]
fn once_cell_notifies() {
    let mut cell: OnceCell<i32> = OnceCell::new_notify_all();
    assert!(!cell.is_set());
    assert_eq!(cell.get(), None);
    assert_eq!(cell.set(7), Ok(Notify::All));
    assert_eq!(cell.set(8), Err(8));
    assert!(cell.is_set());
    let mut one: OnceCell<i32> = OnceCell::new();
    assert_eq!(one.set(1), Ok(Notify::One));
    assert_eq!(set_attempt(0), SetAttempt::Lock(2));
    assert_eq!(set_attempt(1), SetAttempt::Lock(3));
    assert_eq!(set_attempt(2), SetAttempt::Busy);
    assert_eq!(set_attempt(5), SetAttempt::Full);
    assert_eq!(set_done(1), (5, true));
    assert_eq!(set_done(0), (4, false));
}

#[test]
fn sync_cell_state() {
    let mut c: SyncCellState<u8, &str> = SyncCellState::new();
    assert!(c.set_waker("w1"));
    assert!(c.set_waker("w2"));
    assert_eq!(c.take(), None);
    let (set, woken) = c.set(9);
    assert!(set);
    assert_eq!(woken, vec!["w1", "w2"]);
    assert_eq!(c.get(), Some(&9));
    assert!(!c.set_waker("w3"));
    assert_eq!(c.set(10), (false, vec![]));
    assert_eq!(c.take(), Some(9));
    assert!(!c.is_set());
}

#[test]
fn creation_status_bits() {
    let s = CreationStatus::load(0);
    assert!(s.is_empty() && !s.has_instance() && !s.is_done());
    let s = CreationStatus::load(3);
    assert!(!s.is_empty() && s.has_instance() && s.is_done());
    let s = CreationStatus::load(2);
    assert!(!s.has_instance() && s.is_done());
}

#[test]
fn park_registry() {
    let mut reg: ParkRegistry<&str> = ParkRegistry::new();
    assert!(reg.park(4, "first", Interest::Read));
    assert!(!reg.park(4, "second", Interest::Write));
    // the earlier waiter was replaced; a read completion is not awaited
    assert_eq!(reg.dispatch(4, PLCTAG_EVENT_READ_COMPLETED), None);
    assert_eq!(reg.dispatch(4, PLCTAG_EVENT_WRITE_COMPLETED), Some("second"));
    assert_eq!(reg.dispatch(4, PLCTAG_EVENT_WRITE_COMPLETED), None);
    assert!(reg.park(5, "third", Interest::Read));
    assert_eq!(reg.dispatch(5, PLCTAG_EVENT_CREATED), None);
    assert_eq!(reg.dispatch(5, PLCTAG_EVENT_DESTROYED), None);
    assert_eq!(reg.dispatch(5, PLCTAG_EVENT_READ_COMPLETED), None);
    assert!(reg.park(5, "fourth", Interest::Read));
    assert_eq!(Interest::Write.value(), 2);
}

#[test]
fn operations() {
    let mut op = Operation::new(Interest::Read);
    assert!(op.accepts(Event::ReadCompleted));
    assert!(!op.accepts(Event::WriteCompleted));
    assert!(op.accepts(Event::Aborted));
    assert!(!op.accepts(Event::ReadStarted));
    assert_eq!(op.start(Status::Pending), None);
    assert!(op.should_abort());
    assert_eq!(op.complete(Status::Error(-1)), Err(Status::Error(-1)));
    assert!(!op.should_abort());
    let mut op = Operation::new(Interest::Write);
    assert_eq!(op.start(Status::Success), Some(Ok(())));
    assert!(!op.should_abort());
    assert_eq!(creation_step(Status::Pending), None);
    assert_eq!(creation_step(Status::Error(-2)), Some(Err(Status::Error(-2))));
    assert_eq!(wait_step(true, Status::Pending), Some(Status::Error(PLCTAG_ERR_TIMEOUT)));
    assert_eq!(wait_step(false, Status::Pending), None);
    assert_eq!(wait_step(false, Status::Success), Some(Status::Success));
}

#[test]
fn creation_retry() {
    let mut r = CreationRetry::new(5000);
    assert_eq!(r.step(5000), CheckStep::Create);
    assert!(!r.after_status(Status::Pending, 5000));
    assert_eq!(r.step(5001), CheckStep::Poll);
    assert!(!r.after_status(Status::Error(-3), 5002));
    assert_eq!(r.retry_times, 1);
    assert_eq!(r.step(6002), CheckStep::Wait);
    assert_eq!(r.step(6003), CheckStep::Create);
    assert!(r.after_status(Status::Success, 6003));
}

#[test]
fn park_then_complete_reaches_waiter() {
    let mut reg: ParkRegistry<&str> = ParkRegistry::new();
    reg.park(2, "reader", Interest::Read);
    assert_eq!(reg.dispatch(2, plctag::event::PLCTAG_EVENT_READ_COMPLETED), Some("reader"));
    reg.park(2, "writer", Interest::Write);
    assert_eq!(reg.dispatch(2, plctag::event::PLCTAG_EVENT_READ_COMPLETED), None);
    assert_eq!(reg.dispatch(2, plctag::event::PLCTAG_EVENT_WRITE_COMPLETED), Some("writer"));
    // the notifier is handed out once
    assert_eq!(reg.dispatch(2, plctag::event::PLCTAG_EVENT_WRITE_COMPLETED), None);
}
