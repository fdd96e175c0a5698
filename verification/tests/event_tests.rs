use plctag::event::{
    Event, EventRegistry, PLCTAG_EVENT_ABORTED, PLCTAG_EVENT_CREATED, PLCTAG_EVENT_DESTROYED,
    PLCTAG_EVENT_READ_COMPLETED, PLCTAG_EVENT_READ_STARTED, PLCTAG_EVENT_WRITE_COMPLETED,
    PLCTAG_EVENT_WRITE_STARTED,
};

#[test]
fn event_codes() {
    assert_eq!(Event::from(PLCTAG_EVENT_READ_STARTED), Event::ReadStarted);
    assert_eq!(Event::from(PLCTAG_EVENT_READ_COMPLETED), Event::ReadCompleted);
    assert_eq!(Event::from(PLCTAG_EVENT_WRITE_STARTED), Event::WriteStarted);
    assert_eq!(Event::from(PLCTAG_EVENT_WRITE_COMPLETED), Event::WriteCompleted);
    assert_eq!(Event::from(PLCTAG_EVENT_ABORTED), Event::Aborted);
    assert_eq!(Event::from(PLCTAG_EVENT_DESTROYED), Event::Destroyed);
    assert_eq!(Event::from(PLCTAG_EVENT_CREATED), Event::Other(7));
    assert_eq!(Event::new(42), Event::Other(42));
    let code: i32 = Event::WriteStarted.into();
    assert_eq!(code, 3);
    assert_eq!(Event::Other(-9).code(), -9);
}

#[test]
fn registry_registers_callback_once_per_tag() {
    let mut reg = EventRegistry::new();
    let (h1, first) = reg.add_handler(5);
    assert!(first);
    let (h2, first) = reg.add_handler(5);
    assert!(!first);
    let (h3, first) = reg.add_handler(6);
    assert!(first);
    assert_eq!((h1.tag_id(), h1.handler_id()), (5, 0));
    assert_eq!((h2.tag_id(), h2.handler_id()), (5, 1));
    assert_eq!((h3.tag_id(), h3.handler_id()), (6, 2));
    assert!(reg.check_handler(&h2));
    // removing one of two listeners keeps the tag's callback
    assert!(!reg.remove_handler(&h1));
    assert!(!reg.check_handler(&h1));
    // removing it again changes nothing
    assert!(!reg.remove_handler(&h1));
    // the last listener of the tag: unregister the callback
    assert!(reg.remove_handler(&h2));
    assert!(!reg.has_listeners(5));
    assert!(reg.has_listeners(6));
}

#[test]
fn registry_dispatch() {
    let mut reg = EventRegistry::new();
    let (a, _) = reg.add_handler(1);
    let (b, _) = reg.add_handler(2);
    let (c, _) = reg.add_handler(1);
    assert_eq!(reg.dispatch(3, PLCTAG_EVENT_READ_COMPLETED), None);
    assert_eq!(
        reg.dispatch(1, PLCTAG_EVENT_READ_COMPLETED),
        Some(vec![a.handler_id(), c.handler_id()])
    );
    assert!(reg.check_handler(&a));
    // a destroyed tag loses its listeners
    assert_eq!(
        reg.dispatch(1, PLCTAG_EVENT_DESTROYED),
        Some(vec![a.handler_id(), c.handler_id()])
    );
    assert!(!reg.check_handler(&a));
    assert!(!reg.has_listeners(1));
    assert_eq!(reg.dispatch(1, PLCTAG_EVENT_DESTROYED), None);
    assert_eq!(reg.dispatch(2, PLCTAG_EVENT_ABORTED), Some(vec![b.handler_id()]));
}

#[test]
fn registry_add_then_remove_restores() {
    let mut reg = EventRegistry::new();
    let (old, _) = reg.add_handler(8);
    let (h, first) = reg.add_handler(9);
    assert!(first);
    // dropping the handler just added unregisters the callback it registered
    assert!(reg.remove_handler(&h));
    assert!(!reg.has_listeners(9));
    assert!(reg.check_handler(&old));
    assert_eq!(reg.dispatch(8, PLCTAG_EVENT_READ_COMPLETED), Some(vec![old.handler_id()]));
}

#[test]
fn event_names() {
    assert_eq!(Event::ReadStarted.to_string(), "ReadStarted");
    assert_eq!(Event::WriteCompleted.to_string(), "WriteCompleted");
    assert_eq!(Event::Destroyed.to_string(), "Destroyed");
    assert_eq!(Event::Other(7).to_string(), "Other(7)");
    assert_eq!(Event::Other(-9).to_string(), "Other(-9)");
    assert_eq!(Event::Other(i32::MIN).to_string(), "Other(-2147483648)");
}

#[test]
fn registry_never_reuses_listener_ids() {
    let mut reg = EventRegistry::new();
    let (a, _) = reg.add_handler(1);
    assert!(reg.remove_handler(&a));
    let (b, _) = reg.add_handler(1);
    assert_ne!(a.handler_id(), b.handler_id());
    assert_eq!(b.handler_id(), a.handler_id() + 1);
}
