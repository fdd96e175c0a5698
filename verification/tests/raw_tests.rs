use plctag::raw::{INT_ERROR_MARK, RawTag};
use plctag::status::PLCTAG_ERR_OUT_OF_BOUNDS;
use plctag::Status;

#[test]
fn raw_tag_creation() {
    assert_eq!(RawTag::new(-7).unwrap_err(), Status::Error(-7));
    let tag = RawTag::new(12).unwrap();
    assert_eq!(tag.id().value(), 12);
    assert_eq!(tag.tag_id(), 12);
}

#[test]
fn raw_tag_reads() {
    let tag = RawTag::new(1).unwrap();
    assert_eq!(tag.elem_size(16, Status::Success), Ok(16));
    assert_eq!(tag.elem_count(INT_ERROR_MARK, Status::Error(-3)), Err(Status::Error(-3)));
    assert_eq!(tag.size(30), Ok(30));
    assert_eq!(tag.size(-27), Err(Status::Error(-27)));
    assert_eq!(tag.set_size(4), Ok(4));
    assert_eq!(tag.get_bit(1, Status::Success), Ok(true));
    assert_eq!(tag.get_bit(0, Status::Success), Ok(false));
    assert_eq!(tag.get_bit(INT_ERROR_MARK, Status::Pending), Err(Status::Pending));
    assert_eq!(tag.get_bool(Ok(3)), Ok(true));
    assert_eq!(tag.get_bool(Ok(0)), Ok(false));
    assert_eq!(tag.get_bool(Err(Status::Error(-1))), Err(Status::Error(-1)));
    assert_eq!(tag.set_bool(true), 1);
    assert_eq!(RawTag::bit_value(false), 0);
    assert_eq!(tag.set_attr(0), Ok(()));
    assert_eq!(tag.set_attr(-4), Err(Status::Error(-4)));
    assert_eq!(tag.get_string_length(-2), Err(Status::Error(-2)));
    assert_eq!(tag.get_string_length(82), Ok(82));
}

#[test]
fn raw_tag_marked_values() {
    // the error mark is an error only when the tag's status says so
    assert_eq!(RawTag::checked_value(u8::MAX, true, Status::Success), Ok(255));
    assert_eq!(
        RawTag::checked_value(i16::MIN, true, Status::Error(PLCTAG_ERR_OUT_OF_BOUNDS)),
        Err(Status::Error(PLCTAG_ERR_OUT_OF_BOUNDS))
    );
    assert_eq!(RawTag::checked_value(7u32, false, Status::Error(-1)), Ok(7));
}

#[test]
fn raw_tag_transfers() {
    let tag = RawTag::new(1).unwrap();
    // 30 byte tag, as the library's debug tag
    assert_eq!(tag.get_bytes(0, 30, Ok(30)), Ok(30));
    assert_eq!(tag.set_bytes(0, 2, Ok(30)), Ok(2));
    assert_eq!(tag.get_bytes(0, 3, Ok(30)), Ok(3));
    assert_eq!(tag.get_bytes(28, 10, Ok(30)), Ok(2));
    assert_eq!(tag.get_bytes(30, 10, Ok(30)), Ok(0));
    assert_eq!(tag.get_bytes(0, 0, Err(Status::Error(-1))), Ok(0));
    assert_eq!(tag.get_bytes(0, 4, Err(Status::Error(-1))), Err(Status::Error(-1)));
    assert_eq!(tag.bytes_moved(0, 5), Ok(5));
    assert_eq!(tag.bytes_moved(-27, 5), Err(Status::Error(-27)));
}
