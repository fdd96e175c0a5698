use vstd::prelude::*;
use vstd::string::StringExecFns;

verus! {

/// `PLCTAG_STATUS_OK`
pub const PLCTAG_STATUS_OK: i32 = 0;
/// `PLCTAG_STATUS_PENDING`
pub const PLCTAG_STATUS_PENDING: i32 = 1;
/// `PLCTAG_ERR_NOT_FOUND`
pub const PLCTAG_ERR_NOT_FOUND: i32 = -19;
/// `PLCTAG_ERR_OUT_OF_BOUNDS`
pub const PLCTAG_ERR_OUT_OF_BOUNDS: i32 = -27;
/// `PLCTAG_ERR_TIMEOUT`
pub const PLCTAG_ERR_TIMEOUT: i32 = -32;

/// plc tag error code representations
#[derive(Clone, Copy, Debug, PartialEq, Eq, Structural)]
pub enum Status {
    /// PLCTAG_STATUS_OK = 0
    Success,
    /// PLCTAG_STATUS_PENDING = 1
    Pending,
    /// other error codes
    Error(i32),
}

/// The status that a return code of `libplctag` stands for.
pub open spec fn status_of(rc: i32) -> Status {
    if rc == PLCTAG_STATUS_OK {
        Status::Success
    } else if rc == PLCTAG_STATUS_PENDING {
        Status::Pending
    } else {
        Status::Error(rc)
    }
}

/// The return code that a status stands for.
pub open spec fn code_of(s: Status) -> i32 {
    match s {
        Status::Success => PLCTAG_STATUS_OK,
        Status::Pending => PLCTAG_STATUS_PENDING,
        Status::Error(rc) => rc,
    }
}

impl Status {
    /// create [`Status`] from return code of `libplctag` functions
    pub fn new(rc: i32) -> (s: Status)
        ensures
            s == status_of(rc),
    {
        if rc == PLCTAG_STATUS_OK {
            Status::Success
        } else if rc == PLCTAG_STATUS_PENDING {
            Status::Pending
        } else {
            Status::Error(rc)
        }
    }

    /// the return code of `libplctag` that this status stands for
    pub fn code(&self) -> (rc: i32)
        ensures
            rc == code_of(*self),
    {
        match self {
            Status::Success => PLCTAG_STATUS_OK,
            Status::Pending => PLCTAG_STATUS_PENDING,
            Status::Error(rc) => *rc,
        }
    }

    /// success or not?
    pub fn is_ok(&self) -> (b: bool)
        ensures
            b == (*self is Success),
    {
        matches!(self, Status::Success)
    }

    /// has error?
    pub fn is_err(&self) -> (b: bool)
        ensures
            b == (*self is Error),
    {
        matches!(self, Status::Error(_))
    }

    /// has pending operations?
    pub fn is_pending(&self) -> (b: bool)
        ensures
            b == (*self is Pending),
    {
        matches!(self, Status::Pending)
    }

    /// is timeout error?
    pub fn is_timeout(&self) -> (b: bool)
        ensures
            b == (*self == Status::Error(PLCTAG_ERR_TIMEOUT)),
    {
        match self {
            Status::Error(rc) => *rc == PLCTAG_ERR_TIMEOUT,
            _ => false,
        }
    }

    /// The [`Result`] of a status: nothing on success, else the status.
    pub open spec fn into_result_spec(self) -> Result<(), Status> {
        if self is Success {
            Ok(())
        } else {
            Err(self)
        }
    }

    /// into [`Result`]
    pub fn into_result(self) -> (r: Result<(), Status>)
        ensures
            r == self.into_result_spec(),
            self is Success ==> r == Ok::<(), Status>(()),
            !(self is Success) ==> r == Err::<(), Status>(self),
    {
        if self.is_ok() {
            Ok(())
        } else {
            Err(self)
        }
    }
}

/// The text that `libplctag` gives for a return code (`plc_tag_decode_error`):
/// the name of the code, or `Unknown error.` for a code it does not define.
pub open spec fn decode_text(rc: i32) -> Seq<char> {
    match rc {
        1 => "PLCTAG_STATUS_PENDING"@,
        0 => "PLCTAG_STATUS_OK"@,
        -1 => "PLCTAG_ERR_ABORT"@,
        -2 => "PLCTAG_ERR_BAD_CONFIG"@,
        -3 => "PLCTAG_ERR_BAD_CONNECTION"@,
        -4 => "PLCTAG_ERR_BAD_DATA"@,
        -5 => "PLCTAG_ERR_BAD_DEVICE"@,
        -6 => "PLCTAG_ERR_BAD_GATEWAY"@,
        -7 => "PLCTAG_ERR_BAD_PARAM"@,
        -8 => "PLCTAG_ERR_BAD_REPLY"@,
        -9 => "PLCTAG_ERR_BAD_STATUS"@,
        -10 => "PLCTAG_ERR_CLOSE"@,
        -11 => "PLCTAG_ERR_CREATE"@,
        -12 => "PLCTAG_ERR_DUPLICATE"@,
        -13 => "PLCTAG_ERR_ENCODE"@,
        -14 => "PLCTAG_ERR_MUTEX_DESTROY"@,
        -15 => "PLCTAG_ERR_MUTEX_INIT"@,
        -16 => "PLCTAG_ERR_MUTEX_LOCK"@,
        -17 => "PLCTAG_ERR_MUTEX_UNLOCK"@,
        -18 => "PLCTAG_ERR_NOT_ALLOWED"@,
        -19 => "PLCTAG_ERR_NOT_FOUND"@,
        -20 => "PLCTAG_ERR_NOT_IMPLEMENTED"@,
        -21 => "PLCTAG_ERR_NO_DATA"@,
        -22 => "PLCTAG_ERR_NO_MATCH"@,
        -23 => "PLCTAG_ERR_NO_MEM"@,
        -24 => "PLCTAG_ERR_NO_RESOURCES"@,
        -25 => "PLCTAG_ERR_NULL_PTR"@,
        -26 => "PLCTAG_ERR_OPEN"@,
        -27 => "PLCTAG_ERR_OUT_OF_BOUNDS"@,
        -28 => "PLCTAG_ERR_READ"@,
        -29 => "PLCTAG_ERR_REMOTE_ERR"@,
        -30 => "PLCTAG_ERR_THREAD_CREATE"@,
        -31 => "PLCTAG_ERR_THREAD_JOIN"@,
        -32 => "PLCTAG_ERR_TIMEOUT"@,
        -33 => "PLCTAG_ERR_TOO_LARGE"@,
        -34 => "PLCTAG_ERR_TOO_SMALL"@,
        -35 => "PLCTAG_ERR_UNSUPPORTED"@,
        -36 => "PLCTAG_ERR_WINSOCK"@,
        -37 => "PLCTAG_ERR_WRITE"@,
        -38 => "PLCTAG_ERR_PARTIAL"@,
        -39 => "PLCTAG_ERR_BUSY"@,
        _ => "Unknown error."@,
    }
}

/// The text of a return code, as `libplctag` gives it.
pub fn decode_code(rc: i32) -> (s: &'static str)
    ensures
        s@ == decode_text(rc),
{
    match rc {
        1 => "PLCTAG_STATUS_PENDING",
        0 => "PLCTAG_STATUS_OK",
        -1 => "PLCTAG_ERR_ABORT",
        -2 => "PLCTAG_ERR_BAD_CONFIG",
        -3 => "PLCTAG_ERR_BAD_CONNECTION",
        -4 => "PLCTAG_ERR_BAD_DATA",
        -5 => "PLCTAG_ERR_BAD_DEVICE",
        -6 => "PLCTAG_ERR_BAD_GATEWAY",
        -7 => "PLCTAG_ERR_BAD_PARAM",
        -8 => "PLCTAG_ERR_BAD_REPLY",
        -9 => "PLCTAG_ERR_BAD_STATUS",
        -10 => "PLCTAG_ERR_CLOSE",
        -11 => "PLCTAG_ERR_CREATE",
        -12 => "PLCTAG_ERR_DUPLICATE",
        -13 => "PLCTAG_ERR_ENCODE",
        -14 => "PLCTAG_ERR_MUTEX_DESTROY",
        -15 => "PLCTAG_ERR_MUTEX_INIT",
        -16 => "PLCTAG_ERR_MUTEX_LOCK",
        -17 => "PLCTAG_ERR_MUTEX_UNLOCK",
        -18 => "PLCTAG_ERR_NOT_ALLOWED",
        -19 => "PLCTAG_ERR_NOT_FOUND",
        -20 => "PLCTAG_ERR_NOT_IMPLEMENTED",
        -21 => "PLCTAG_ERR_NO_DATA",
        -22 => "PLCTAG_ERR_NO_MATCH",
        -23 => "PLCTAG_ERR_NO_MEM",
        -24 => "PLCTAG_ERR_NO_RESOURCES",
        -25 => "PLCTAG_ERR_NULL_PTR",
        -26 => "PLCTAG_ERR_OPEN",
        -27 => "PLCTAG_ERR_OUT_OF_BOUNDS",
        -28 => "PLCTAG_ERR_READ",
        -29 => "PLCTAG_ERR_REMOTE_ERR",
        -30 => "PLCTAG_ERR_THREAD_CREATE",
        -31 => "PLCTAG_ERR_THREAD_JOIN",
        -32 => "PLCTAG_ERR_TIMEOUT",
        -33 => "PLCTAG_ERR_TOO_LARGE",
        -34 => "PLCTAG_ERR_TOO_SMALL",
        -35 => "PLCTAG_ERR_UNSUPPORTED",
        -36 => "PLCTAG_ERR_WINSOCK",
        -37 => "PLCTAG_ERR_WRITE",
        -38 => "PLCTAG_ERR_PARTIAL",
        -39 => "PLCTAG_ERR_BUSY",
        _ => "Unknown error.",
    }
}

impl Status {
    /// decode status from error code to String, as `libplctag` names it
    pub fn decode(&self) -> (s: String)
        ensures
            s@ == decode_text(code_of(*self)),
    {
        String::from_str(decode_code(self.code()))
    }

    /// the text of this status, as the status prints itself
    pub fn to_string(&self) -> (s: String)
        ensures
            s@ == decode_text(code_of(*self)),
    {
        self.decode()
    }
}

impl From<i32> for Status {
    fn from(rc: i32) -> (s: Status) {
        Status::new(rc)
    }
}

impl vstd::std_specs::convert::FromSpecImpl<i32> for Status {
    open spec fn obeys_from_spec() -> bool {
        true
    }

    open spec fn from_spec(rc: i32) -> Status {
        status_of(rc)
    }
}

impl From<Status> for i32 {
    fn from(s: Status) -> (rc: i32) {
        s.code()
    }
}

impl vstd::std_specs::convert::FromSpecImpl<Status> for i32 {
    open spec fn obeys_from_spec() -> bool {
        true
    }

    open spec fn from_spec(s: Status) -> i32 {
        code_of(s)
    }
}

/// A new status keeps the code it was made from.
pub proof fn lemma_code_round_trip(rc: i32)
    ensures
        code_of(status_of(rc)) == rc,
{
}

} // verus!
