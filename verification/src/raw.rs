//! A tag of `libplctag`, and what each of its operations makes of the codes
//! and values that the library answers.

use vstd::prelude::*;
use crate::status::{Status, status_of};

verus! {

/// Tag Identifier
#[derive(Debug, Clone, Copy, PartialEq, Eq, PartialOrd, Ord, Hash, Structural)]
pub struct TagId(pub i32);

impl TagId {
    /// the id that `libplctag` gave the tag
    pub fn value(&self) -> (v: i32)
        ensures
            v == self.0,
    {
        self.0
    }
}

/// get ref of [`RawTag`]
pub trait AsRaw {
    /// get ref of [`RawTag`]
    fn as_raw(&self) -> &RawTag;
}

/// The mark an integer attribute or bit read gives on error.
pub const INT_ERROR_MARK: i32 = i32::MIN;

/// wrapper of tag model based on `libplctag`
#[derive(Debug)]
pub struct RawTag {
    tag_id: i32,
}

/// What a read of an integer attribute or of a bit gives: the value, or on the
/// error mark the tag's status.
pub open spec fn attr_outcome(value: i32, status: Status) -> Result<i32, Status> {
    if value == INT_ERROR_MARK {
        Err(status)
    } else {
        Ok(value)
    }
}

/// What a code that counts bytes gives: the count, or on a negative code its
/// status.
pub open spec fn count_outcome(rc: i32) -> Result<u32, Status> {
    if rc < 0 {
        Err(status_of(rc))
    } else {
        Ok(rc as u32)
    }
}

/// What a return code gives: nothing on success, else its status.
pub open spec fn rc_outcome(rc: i32) -> Result<(), Status> {
    if status_of(rc) is Success {
        Ok(())
    } else {
        Err(status_of(rc))
    }
}

/// How many bytes of a buffer of `buf_len` bytes a transfer at `byte_offset`
/// moves, in a tag of the given size: none for an empty buffer or an offset at
/// or past the end, else as many as both the buffer and the rest of the tag hold.
pub open spec fn transfer_len(byte_offset: u32, buf_len: usize, size: Result<u32, Status>) -> Result<
    usize,
    Status,
> {
    if buf_len == 0 {
        Ok(0)
    } else {
        match size {
            Err(s) => Err(s),
            Ok(n) => {
                if byte_offset >= n {
                    Ok(0)
                } else if n - byte_offset <= buf_len {
                    Ok((n - byte_offset) as usize)
                } else {
                    Ok(buf_len)
                }
            },
        }
    }
}

impl RawTag {
    /// The id `libplctag` gave the tag.
    pub closed spec fn spec_tag_id(&self) -> i32 {
        self.tag_id
    }

    /// create new RawTag from the code `plc_tag_create` answered: a negative
    /// code is the error, any other is the id of the new tag
    pub fn new(rc: i32) -> (r: Result<RawTag, Status>)
        ensures
            rc < 0 ==> r == Err::<RawTag, Status>(status_of(rc)),
            rc >= 0 ==> (r matches Ok(t) && t.spec_tag_id() == rc),
    {
        if rc < 0 {
            return Err(Status::new(rc));
        }
        Ok(RawTag { tag_id: rc })
    }

    /// tag id
    pub fn id(&self) -> (id: TagId)
        ensures
            id.0 == self.spec_tag_id(),
    {
        TagId(self.tag_id)
    }

    /// the id `libplctag` gave the tag, for calls into the library
    pub fn tag_id(&self) -> (id: i32)
        ensures
            id == self.spec_tag_id(),
    {
        self.tag_id
    }

    /// get tag attribute: the value the library read, or on the error mark the
    /// tag's status
    pub fn get_attr(&self, value: i32, status: Status) -> (r: Result<i32, Status>)
        ensures
            r == attr_outcome(value, status),
    {
        if value == INT_ERROR_MARK {
            return Err(status);
        }
        Ok(value)
    }

    /// element size, from the `elem_size` attribute read
    pub fn elem_size(&self, value: i32, status: Status) -> (r: Result<i32, Status>)
        ensures
            r == attr_outcome(value, status),
    {
        self.get_attr(value, status)
    }

    /// element count, from the `elem_count` attribute read
    pub fn elem_count(&self, value: i32, status: Status) -> (r: Result<i32, Status>)
        ensures
            r == attr_outcome(value, status),
    {
        self.get_attr(value, status)
    }

    /// set tag attribute, and every other setter: the code the library answered
    pub fn set_attr(&self, rc: i32) -> (r: Result<(), Status>)
        ensures
            r == rc_outcome(rc),
    {
        Status::new(rc).into_result()
    }

    /// tag size in bytes, from the code `plc_tag_get_size` answered
    pub fn size(&self, rc: i32) -> (r: Result<u32, Status>)
        ensures
            r == count_outcome(rc),
    {
        if rc < 0 {
            return Err(Status::new(rc));
        }
        Ok(rc as u32)
    }

    /// set tag size in bytes, returns old size, from the code
    /// `plc_tag_set_size` answered
    pub fn set_size(&self, rc: i32) -> (r: Result<u32, Status>)
        ensures
            r == count_outcome(rc),
    {
        self.size(rc)
    }

    /// string length, capacity or total length, from the code the library
    /// answered
    pub fn get_string_length(&self, rc: i32) -> (r: Result<u32, Status>)
        ensures
            r == count_outcome(rc),
    {
        if rc >= 0 {
            Ok(rc as u32)
        } else {
            Err(Status::new(rc))
        }
    }

    /// get bit value: set when the library read 1; on the error mark the tag's
    /// status
    pub fn get_bit(&self, value: i32, status: Status) -> (r: Result<bool, Status>)
        ensures
            value == INT_ERROR_MARK ==> r == Err::<bool, Status>(status),
            value != INT_ERROR_MARK ==> r == Ok::<bool, Status>(value == 1),
    {
        if value == INT_ERROR_MARK {
            return Err(status);
        }
        Ok(value == 1)
    }

    /// the value `plc_tag_set_bit` is given for a bit
    pub fn bit_value(value: bool) -> (v: i32)
        ensures
            v == (if value { 1i32 } else { 0i32 }),
    {
        if value {
            1
        } else {
            0
        }
    }

    /// get bool value: a byte read is true when not zero
    pub fn get_bool(&self, byte: Result<u8, Status>) -> (r: Result<bool, Status>)
        ensures
            byte matches Ok(v) ==> r == Ok::<bool, Status>(v > 0),
            byte matches Err(s) ==> r == Err::<bool, Status>(s),
    {
        match byte {
            Ok(v) => Ok(v > 0),
            Err(s) => Err(s),
        }
    }

    /// set bool value: the byte written for a bool
    pub fn set_bool(&self, value: bool) -> (b: u8)
        ensures
            b == (if value { 1u8 } else { 0u8 }),
    {
        if value {
            1
        } else {
            0
        }
    }

    /// a value read at an offset: the library marks an error with a particular
    /// value (the least signed or the greatest unsigned one); a marked value is
    /// an error only when the tag's status is not OK
    pub fn checked_value<V>(value: V, marked: bool, status: Status) -> (r: Result<V, Status>)
        ensures
            marked && !(status is Success) ==> r == Err::<V, Status>(status),
            !(marked && !(status is Success)) ==> r == Ok::<V, Status>(value),
    {
        if marked {
            match status.into_result() {
                Err(s) => return Err(s),
                Ok(()) => {},
            }
        }
        Ok(value)
    }

    /// how many bytes `get_bytes` moves into a buffer of `buf_len` bytes at
    /// `byte_offset`, given the tag's size
    pub fn get_bytes(&self, byte_offset: u32, buf_len: usize, size: Result<u32, Status>) -> (r:
        Result<usize, Status>)
        ensures
            r == transfer_len(byte_offset, buf_len, size),
            r matches Ok(n) ==> n <= buf_len,
    {
        Self::transfer(byte_offset, buf_len, size)
    }

    /// how many bytes `set_bytes` moves from a buffer of `buf_len` bytes to
    /// `byte_offset`, given the tag's size
    pub fn set_bytes(&self, byte_offset: u32, buf_len: usize, size: Result<u32, Status>) -> (r:
        Result<usize, Status>)
        ensures
            r == transfer_len(byte_offset, buf_len, size),
            r matches Ok(n) ==> n <= buf_len,
    {
        Self::transfer(byte_offset, buf_len, size)
    }

    fn transfer(byte_offset: u32, buf_len: usize, size: Result<u32, Status>) -> (r: Result<
        usize,
        Status,
    >)
        ensures
            r == transfer_len(byte_offset, buf_len, size),
            r matches Ok(n) ==> n <= buf_len,
    {
        if buf_len == 0 {
            return Ok(0);
        }
        let size = match size {
            Ok(n) => n,
            Err(s) => return Err(s),
        };
        if byte_offset >= size {
            return Ok(0);
        }
        let slots = size - byte_offset;
        if (slots as usize) <= buf_len {
            Ok(slots as usize)
        } else {
            Ok(buf_len)
        }
    }

    /// the outcome of moving `len` raw bytes, from the code the library
    /// answered: the count, or the error
    pub fn bytes_moved(&self, rc: i32, len: usize) -> (r: Result<usize, Status>)
        ensures
            rc_outcome(rc) is Ok ==> r == Ok::<usize, Status>(len),
            rc_outcome(rc) matches Err(s) ==> r == Err::<usize, Status>(s),
    {
        match Status::new(rc).into_result() {
            Ok(()) => Ok(len),
            Err(s) => Err(s),
        }
    }
}

/// A transfer never moves more bytes than the buffer holds, nor past the end
/// of the tag.
pub proof fn lemma_transfer_in_bounds(byte_offset: u32, buf_len: usize, size: u32)
    ensures
        transfer_len(byte_offset, buf_len, Ok(size)) matches Ok(n) && n <= buf_len && (byte_offset
            + n <= size || n == 0),
{
}

} // verus!
