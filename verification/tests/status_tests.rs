use plctag::status::{PLCTAG_ERR_TIMEOUT, decode_code};
use plctag::Status;

#[test]
fn test_status_ok() {
    let status = Status::Success;
    let msg = status.decode();
    assert_eq!(msg, "PLCTAG_STATUS_OK");
}

#[test]
fn test_status_pending() {
    let status = Status::Pending;
    let msg = status.decode();
    assert_eq!(msg, "PLCTAG_STATUS_PENDING");
}

#[test]
fn status_from_return_codes() {
    assert_eq!(Status::new(0), Status::Success);
    assert_eq!(Status::new(1), Status::Pending);
    assert_eq!(Status::new(-32), Status::Error(-32));
    assert_eq!(Status::from(-7), Status::Error(-7));
    let rc: i32 = Status::Error(-27).into();
    assert_eq!(rc, -27);
    let rc: i32 = Status::Pending.into();
    assert_eq!(rc, 1);
}

#[test]
fn status_predicates() {
    assert!(Status::Success.is_ok());
    assert!(!Status::Success.is_err());
    assert!(Status::Pending.is_pending());
    assert!(Status::Error(-1).is_err());
    assert!(Status::Error(PLCTAG_ERR_TIMEOUT).is_timeout());
    assert!(!Status::Error(-33).is_timeout());
    assert!(!Status::Pending.is_timeout());
}

#[test]
fn status_into_result() {
    assert_eq!(Status::Success.into_result(), Ok(()));
    assert_eq!(Status::Pending.into_result(), Err(Status::Pending));
    assert_eq!(Status::Error(-5).into_result(), Err(Status::Error(-5)));
}

#[test]
fn status_error_texts() {
    assert_eq!(Status::Error(-32).decode(), "PLCTAG_ERR_TIMEOUT");
    assert_eq!(Status::Error(-1).decode(), "PLCTAG_ERR_ABORT");
    assert_eq!(Status::Error(-39).decode(), "PLCTAG_ERR_BUSY");
    assert_eq!(Status::Error(-19).to_string(), "PLCTAG_ERR_NOT_FOUND");
    assert_eq!(Status::Error(-100).decode(), "Unknown error.");
    assert_eq!(Status::Error(7).decode(), "Unknown error.");
    assert_eq!(decode_code(-27), "PLCTAG_ERR_OUT_OF_BOUNDS");
}
