//! The life of an asynchronous tag entry: which callback events it keeps, when
//! it is ready, and how a read or write that it started ends.

use vstd::prelude::*;
use vstd::string::StringExecFns;
use crate::event::{PLCTAG_EVENT_CREATED, PLCTAG_EVENT_DESTROYED, PLCTAG_EVENT_READ_COMPLETED};
use crate::status::{PLCTAG_ERR_NOT_FOUND, Status, decode_text, code_of, status_of};

verus! {

/// the tag has been created
pub const TAG_CREATED: u8 = 1;
/// the first read completed event (sent by the library on creation) was swallowed
pub const TAG_FIRST_READ: u8 = 2;
/// the tag has been destroyed
pub const TAG_DESTROYED: u8 = 3;

/// errors of asynchronous tags
#[derive(Debug, Clone, PartialEq, Eq)]
pub enum Error {
    /// plc tag error
    TagError(Status),
    /// other error, by its message
    Other(String),
}

impl From<Status> for Error {
    fn from(s: Status) -> (e: Error) {
        Error::TagError(s)
    }
}

impl vstd::std_specs::convert::FromSpecImpl<Status> for Error {
    open spec fn obeys_from_spec() -> bool {
        true
    }

    open spec fn from_spec(s: Status) -> Error {
        Error::TagError(s)
    }
}

impl Error {
    /// the message of this error: `TagError - ` and the status text, or the
    /// other error's own message
    pub fn to_string(&self) -> (s: String)
        ensures
            *self matches Error::TagError(st) ==> s@ == "TagError - "@ + decode_text(code_of(st)),
            *self matches Error::Other(m) ==> s@ == m@,
    {
        match self {
            Error::TagError(st) => {
                let mut s = String::from_str("TagError - ");
                let text = st.decode();
                s.append(text.as_str());
                s
            },
            Error::Other(m) => m.clone(),
        }
    }
}

/// What an entry has received from the library's callback: its life state, and
/// the last event with its status, if not yet taken.
#[derive(Debug, Clone, Copy, PartialEq, Eq, Structural)]
pub struct EntrySignal {
    /// 0, [`TAG_CREATED`], [`TAG_FIRST_READ`] or [`TAG_DESTROYED`]
    pub state: u8,
    /// whether an event waits to be taken
    pub set: bool,
    /// the event waiting
    pub event: i32,
    /// the status of the event waiting
    pub status: i32,
}

impl EntrySignal {
    /// nothing received yet
    pub fn new() -> (s: EntrySignal)
        ensures
            s == (EntrySignal { state: 0, set: false, event: 0, status: 0 }),
    {
        EntrySignal { state: 0, set: false, event: 0, status: 0 }
    }

    /// take the waiting event and its status, leaving none
    pub fn take_event(&mut self) -> (r: (i32, i32))
        ensures
            r == (old(self).event, old(self).status),
            *final(self) == (EntrySignal { state: old(self).state, set: false, event: 0, status: 0 }),
    {
        let r = (self.event, self.status);
        self.event = 0;
        self.status = 0;
        self.set = false;
        r
    }

    /// an event from the library's callback; returns whether waiters are to be
    /// woken. A created event marks the entry created; the first read completed
    /// event after creation is swallowed; a destroyed event marks it destroyed.
    pub fn set_event(&mut self, event: i32, status: i32) -> (wake: bool)
        ensures
            ({
                let swallow = event == PLCTAG_EVENT_READ_COMPLETED && old(self).state == TAG_CREATED;
                let state = if event == PLCTAG_EVENT_CREATED {
                    TAG_CREATED
                } else if swallow {
                    TAG_FIRST_READ
                } else if event == PLCTAG_EVENT_DESTROYED {
                    TAG_DESTROYED
                } else {
                    old(self).state
                };
                &&& wake == !swallow
                &&& swallow ==> *final(self) == (EntrySignal { state, ..*old(self) })
                &&& !swallow ==> *final(self) == (EntrySignal { state, set: true, event, status })
            }),
    {
        if event == PLCTAG_EVENT_CREATED {
            self.state = TAG_CREATED;
        } else if event == PLCTAG_EVENT_READ_COMPLETED {
            if self.state == TAG_CREATED {
                self.state = TAG_FIRST_READ;
                return false;
            }
        } else if event == PLCTAG_EVENT_DESTROYED {
            self.state = TAG_DESTROYED;
        }
        self.event = event;
        self.status = status;
        self.set = true;
        true
    }

    /// one look for an awaited event: `Some` status when it is known, `None`
    /// to wait for the next notification. A destroyed tag gives not found; once
    /// the first read was swallowed, the waiting event is taken, and is the
    /// answer when it is the awaited one.
    pub fn recv_event(&mut self, event: i32) -> (r: Option<Status>)
        ensures
            old(self).state == TAG_DESTROYED ==> r == Some(Status::Error(PLCTAG_ERR_NOT_FOUND))
                && *final(self) == *old(self),
            old(self).state == TAG_FIRST_READ ==> *final(self) == (EntrySignal {
                state: old(self).state,
                set: false,
                event: 0,
                status: 0,
            }) && r == (if old(self).event == event {
                Some(status_of(old(self).status))
            } else {
                None
            }),
            old(self).state != TAG_DESTROYED && old(self).state != TAG_FIRST_READ ==> r is None
                && *final(self) == *old(self),
    {
        if self.state == TAG_DESTROYED {
            return Some(Status::Error(PLCTAG_ERR_NOT_FOUND));
        }
        if self.state == TAG_FIRST_READ {
            let (evt, status) = self.take_event();
            if evt == event {
                return Some(Status::new(status));
            }
        }
        None
    }

    /// whether the entry is ready: `Some(Ok)` once created, `Some(Err)` (not
    /// found) once destroyed, `None` to wait
    pub fn ready(&self) -> (r: Option<Result<(), Status>>)
        ensures
            self.state == TAG_DESTROYED ==> r == Some(
                Err::<(), Status>(Status::Error(PLCTAG_ERR_NOT_FOUND)),
            ),
            self.state == TAG_CREATED || self.state == TAG_FIRST_READ ==> r == Some(
                Ok::<(), Status>(()),
            ),
            self.state != TAG_DESTROYED && self.state != TAG_CREATED && self.state
                != TAG_FIRST_READ ==> r is None,
    {
        if self.state == TAG_DESTROYED {
            Some(Err(Status::Error(PLCTAG_ERR_NOT_FOUND)))
        } else if self.state == TAG_CREATED || self.state == TAG_FIRST_READ {
            Some(Ok(()))
        } else {
            None
        }
    }

    /// the status of the entry: not found once destroyed, else the tag's status
    pub fn status(&self, tag_status: Status) -> (s: Status)
        ensures
            self.state == TAG_DESTROYED ==> s == Status::Error(PLCTAG_ERR_NOT_FOUND),
            self.state != TAG_DESTROYED ==> s == tag_status,
    {
        if self.state == TAG_DESTROYED {
            Status::Error(PLCTAG_ERR_NOT_FOUND)
        } else {
            tag_status
        }
    }
}

/// A started read or write of a tag, aborted when dropped while pending.
#[derive(Debug, Clone, Copy, PartialEq, Eq, Structural)]
pub struct InflightGuard {
    /// whether the operation is to be aborted
    pub pending: bool,
}

impl InflightGuard {
    /// a guard for an operation about to start
    pub fn new() -> (g: InflightGuard)
        ensures
            g.pending,
    {
        InflightGuard { pending: true }
    }

    /// the library answered the start of a read (`plc_tag_read` with no wait):
    /// pending goes on, an error ends the operation
    pub fn read(&mut self, status: Status) -> (r: Result<(), Status>)
        requires
            !(status is Success),
        ensures
            status is Pending ==> r is Ok && final(self).pending,
            status is Error ==> r == Err::<(), Status>(status) && !final(self).pending,
    {
        self.start(status)
    }

    /// the library answered the start of a write (`plc_tag_write` with no wait):
    /// pending goes on, an error ends the operation
    pub fn write(&mut self, status: Status) -> (r: Result<(), Status>)
        requires
            !(status is Success),
        ensures
            status is Pending ==> r is Ok && final(self).pending,
            status is Error ==> r == Err::<(), Status>(status) && !final(self).pending,
    {
        self.start(status)
    }

    fn start(&mut self, status: Status) -> (r: Result<(), Status>)
        requires
            !(status is Success),
        ensures
            status is Pending ==> r is Ok && final(self).pending,
            status is Error ==> r == Err::<(), Status>(status) && !final(self).pending,
    {
        match status {
            Status::Pending => {
                self.pending = true;
                Ok(())
            },
            _ => {
                self.pending = false;
                Err(status)
            },
        }
    }

    /// the operation ended with `status` (never pending): an error clears the
    /// guard and is returned
    pub fn finish(&mut self, status: Status) -> (r: Result<(), Status>)
        ensures
            status is Error ==> r == Err::<(), Status>(status) && !final(self).pending,
            !(status is Error) ==> r is Ok && final(self).pending == old(self).pending,
    {
        if status.is_err() {
            self.pending = false;
            Err(status)
        } else {
            Ok(())
        }
    }

    /// whether dropping the guard aborts the operation
    pub fn should_abort(&self) -> (b: bool)
        ensures
            b == self.pending,
    {
        self.pending
    }
}

} // verus!
