//! The decisions of read, write and creation operations that wait on the
//! library: when an answer is final, which events end a wait, and when to
//! try a creation again.

use vstd::prelude::*;
use crate::event::Event;
use crate::park::Interest;
use crate::status::{PLCTAG_ERR_TIMEOUT, Status};

verus! {

/// A read or write started with no wait, aborted when dropped while pending.
#[derive(Debug, Clone, Copy, PartialEq, Eq, Structural)]
pub struct Operation {
    /// what the operation does
    pub interest: Interest,
    /// whether dropping the operation aborts it
    pub pending: bool,
}

impl Operation {
    /// an operation not started yet
    pub fn new(interest: Interest) -> (op: Operation)
        ensures
            op == (Operation { interest, pending: false }),
    {
        Operation { interest, pending: false }
    }

    /// whether an event of the tag ends the wait: the completion of this
    /// operation's kind, or an abort or destruction of the tag
    pub fn accepts(&self, event: Event) -> (b: bool)
        ensures
            b == match event {
                Event::ReadCompleted => self.interest == Interest::Read,
                Event::WriteCompleted => self.interest == Interest::Write,
                Event::Aborted | Event::Destroyed => true,
                _ => false,
            },
    {
        match event {
            Event::ReadCompleted => self.interest == Interest::Read,
            Event::WriteCompleted => self.interest == Interest::Write,
            Event::Aborted | Event::Destroyed => true,
            _ => false,
        }
    }

    /// the library answered the start: a pending answer means waiting
    /// (`None`); any other answer is final
    pub fn start(&mut self, status: Status) -> (r: Option<Result<(), Status>>)
        ensures
            status is Pending ==> r is None && final(self).pending,
            !(status is Pending) ==> r == Some(status.into_result_spec()) && !final(self).pending,
            final(self).interest == old(self).interest,
    {
        if status.is_pending() {
            self.pending = true;
            None
        } else {
            self.pending = false;
            Some(status.into_result())
        }
    }

    /// the awaited answer came: the operation ends with it
    pub fn complete(&mut self, status: Status) -> (r: Result<(), Status>)
        ensures
            r == status.into_result_spec(),
            !final(self).pending,
            final(self).interest == old(self).interest,
    {
        self.pending = false;
        status.into_result()
    }

    /// whether dropping the operation aborts it
    pub fn should_abort(&self) -> (b: bool)
        ensures
            b == self.pending,
    {
        self.pending
    }
}

/// One poll of a tag being created: `None` while pending; a final answer ends
/// the wait.
pub fn creation_step(status: Status) -> (r: Option<Result<(), Status>>)
    ensures
        status is Pending ==> r is None,
        !(status is Pending) ==> r == Some(status.into_result_spec()),
{
    if status.is_pending() {
        None
    } else {
        Some(status.into_result())
    }
}

/// One look of a blocking wait on a tag: a timeout ends it with the timeout
/// error; else a status that is no longer pending ends it.
pub fn wait_step(timed_out: bool, status: Status) -> (r: Option<Status>)
    ensures
        timed_out ==> r == Some(Status::Error(PLCTAG_ERR_TIMEOUT)),
        !timed_out && status is Pending ==> r is None,
        !timed_out && !(status is Pending) ==> r == Some(status),
{
    if timed_out {
        return Some(Status::Error(PLCTAG_ERR_TIMEOUT));
    }
    if !status.is_pending() {
        return Some(status);
    }
    None
}

/// how long a failed creation waits before it is tried again, in milliseconds
pub const RETRY_AFTER_MS: u64 = 1000;

/// What a creation that is retried does next.
#[derive(Debug, Clone, Copy, PartialEq, Eq, Structural)]
pub enum CheckStep {
    /// wait: the next try has not come
    Wait,
    /// poll the tag being created
    Poll,
    /// create the tag
    Create,
}

/// A creation tried again after each failure.
#[derive(Debug, Clone, Copy, PartialEq, Eq, Structural)]
pub struct CreationRetry {
    /// failures so far
    pub retry_times: usize,
    /// when the next try may come
    pub next_retry_time: u64,
    /// whether a tag is being created
    pub has_tag: bool,
}

impl CreationRetry {
    /// a creation that may be tried right away at `now`: its next try was
    /// due [`RETRY_AFTER_MS`] before
    pub fn new(now: u64) -> (r: CreationRetry)
        requires
            now >= RETRY_AFTER_MS,
        ensures
            r == (CreationRetry {
                retry_times: 0,
                next_retry_time: (now - RETRY_AFTER_MS) as u64,
                has_tag: false,
            }),
    {
        CreationRetry { retry_times: 0, next_retry_time: now - RETRY_AFTER_MS, has_tag: false }
    }

    /// what to do at `now`: poll the tag being created; else create one once
    /// the next try has come (after `next_retry_time`)
    pub fn step(&self, now: u64) -> (s: CheckStep)
        ensures
            self.has_tag ==> s == CheckStep::Poll,
            !self.has_tag && now <= self.next_retry_time ==> s == CheckStep::Wait,
            !self.has_tag && now > self.next_retry_time ==> s == CheckStep::Create,
    {
        if self.has_tag {
            CheckStep::Poll
        } else if now <= self.next_retry_time {
            CheckStep::Wait
        } else {
            CheckStep::Create
        }
    }

    /// the tag being created (or the one just made, or the failed creation)
    /// answered `status`: OK ends the creation (returns true); pending keeps the
    /// tag to poll; an error drops it and waits [`RETRY_AFTER_MS`] from `now`
    pub fn after_status(&mut self, status: Status, now: u64) -> (done: bool)
        requires
            now + RETRY_AFTER_MS <= u64::MAX,
            old(self).retry_times < usize::MAX,
        ensures
            status is Success ==> done && *final(self) == (CreationRetry { has_tag: false, ..*old(self) }),
            status is Pending ==> !done && *final(self) == (CreationRetry { has_tag: true, ..*old(self) }),
            status is Error ==> !done && *final(self) == (CreationRetry {
                retry_times: (old(self).retry_times + 1) as usize,
                next_retry_time: (now + RETRY_AFTER_MS) as u64,
                has_tag: false,
            }),
    {
        match status {
            Status::Success => {
                self.has_tag = false;
                true
            },
            Status::Pending => {
                self.has_tag = true;
                false
            },
            Status::Error(_) => {
                self.retry_times = self.retry_times + 1;
                self.next_retry_time = now + RETRY_AFTER_MS;
                self.has_tag = false;
                false
            },
        }
    }
}

} // verus!
