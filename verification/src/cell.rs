//! Cells set once: the status bits that say whether a value is there, who holds
//! the lock, and whom to wake.

use vstd::prelude::*;

verus! {

/// waiters are all notified when the value is set
pub const STATUS_NOTIFY_ALL: u8 = 1;
/// a setter holds the cell
pub const STATUS_LOCKED: u8 = 2;
/// the value is set
pub const STATUS_VALUE_SET: u8 = 4;

/// What one attempt to set a cell finds.
#[derive(Debug, Clone, Copy, PartialEq, Eq, Structural)]
pub enum SetAttempt {
    /// the cell was empty and is now locked with this status
    Lock(u8),
    /// the value has been set already
    Full,
    /// another setter holds the lock: try again
    Busy,
}

/// The outcome of an attempt on a cell with status `cur`.
pub open spec fn attempt_of(cur: u8) -> SetAttempt {
    if cur == 0 || cur == STATUS_NOTIFY_ALL {
        SetAttempt::Lock(cur | STATUS_LOCKED)
    } else if cur & STATUS_VALUE_SET == STATUS_VALUE_SET {
        SetAttempt::Full
    } else {
        SetAttempt::Busy
    }
}

/// one attempt to set a cell whose status is `cur`
pub fn set_attempt(cur: u8) -> (r: SetAttempt)
    requires
        cur < 8,
    ensures
        r == attempt_of(cur),
        r matches SetAttempt::Lock(s) ==> s & STATUS_LOCKED == STATUS_LOCKED && s & STATUS_VALUE_SET
            == 0,
{
    if cur == 0 || cur == STATUS_NOTIFY_ALL {
        let s = cur | STATUS_LOCKED;
        assert((cur == 0u8 || cur == 1u8) ==> ((cur | 2u8) & 2u8 == 2u8 && (cur | 2u8) & 4u8 == 0u8))
            by (bit_vector);
        SetAttempt::Lock(s)
    } else if cur & STATUS_VALUE_SET == STATUS_VALUE_SET {
        SetAttempt::Full
    } else {
        SetAttempt::Busy
    }
}

/// the status once the value is written into a cell that was `cur` before it
/// was locked, and whether all waiters are to be notified (else one)
pub fn set_done(cur: u8) -> (r: (u8, bool))
    requires
        cur == 0 || cur == STATUS_NOTIFY_ALL,
    ensures
        r.0 == cur | STATUS_VALUE_SET,
        r.0 & STATUS_VALUE_SET == STATUS_VALUE_SET,
        r.0 & STATUS_LOCKED == 0,
        r.1 == (cur & STATUS_NOTIFY_ALL == STATUS_NOTIFY_ALL),
        r.1 == (cur == STATUS_NOTIFY_ALL),
{
    let s = cur | STATUS_VALUE_SET;
    assert((cur == 0u8 || cur == 1u8) ==> ((cur | 4u8) & 4u8 == 4u8 && (cur | 4u8) & 2u8 == 0u8 && ((
    cur & 1u8 == 1u8) == (cur == 1u8)))) by (bit_vector);
    (s, cur & STATUS_NOTIFY_ALL == STATUS_NOTIFY_ALL)
}

/// whether a status says the value is set
pub fn is_value_set(status: u8) -> (b: bool)
    ensures
        b == (status & STATUS_VALUE_SET == STATUS_VALUE_SET),
{
    status & STATUS_VALUE_SET == STATUS_VALUE_SET
}

/// Whom to notify once a cell's value is set.
#[derive(Debug, Clone, Copy, PartialEq, Eq, Structural)]
pub enum Notify {
    /// one waiter
    One,
    /// every waiter
    All,
}

/// A cell whose value is set once; waiters are notified, one or all.
#[derive(Debug)]
pub struct OnceCell<T> {
    status: u8,
    value: Option<T>,
}

impl<T> OnceCell<T> {
    /// The value, once set.
    pub closed spec fn view(&self) -> Option<T> {
        self.value
    }

    /// Whether setting the value notifies every waiter.
    pub closed spec fn notifies_all(&self) -> bool {
        self.status & STATUS_NOTIFY_ALL == STATUS_NOTIFY_ALL
    }

    /// Whether the status bits agree with the value.
    pub closed spec fn wf(&self) -> bool {
        &&& (self.status == 0 || self.status == 1 || self.status == 4 || self.status == 5)
        &&& (self.value is Some <==> self.status >= 4)
    }

    fn new_internal(all: bool) -> (c: Self)
        ensures
            c.wf(),
            c@ is None,
            c.notifies_all() == all,
    {
        let c = OnceCell { status: if all { STATUS_NOTIFY_ALL } else { 0 }, value: None };
        assert((0u8 & 1u8) != 1u8 && (1u8 & 1u8) == 1u8) by (bit_vector);
        c
    }

    /// an empty cell that notifies one waiter when set
    pub fn new() -> (c: Self)
        ensures
            c.wf(),
            c@ is None,
            !c.notifies_all(),
    {
        Self::new_internal(false)
    }

    /// an empty cell that notifies every waiter when set
    pub fn new_notify_all() -> (c: Self)
        ensures
            c.wf(),
            c@ is None,
            c.notifies_all(),
    {
        Self::new_internal(true)
    }

    /// set value and returns whom to notify if empty, otherwise returns the value
    pub fn set(&mut self, val: T) -> (r: Result<Notify, T>)
        requires
            old(self).wf(),
        ensures
            final(self).wf(),
            final(self).notifies_all() == old(self).notifies_all(),
            old(self)@ is None ==> final(self)@ == Some(val) && r == Ok::<Notify, T>(
                if old(self).notifies_all() {
                    Notify::All
                } else {
                    Notify::One
                },
            ),
            old(self)@ is Some ==> final(self)@ == old(self)@ && r == Err::<Notify, T>(val),
    {
        let cur = self.status;
        assert((cur == 4u8 || cur == 5u8) ==> (cur & 4u8 == 4u8 && (cur & 1u8 == 1u8) == (cur
            == 5u8))) by (bit_vector);
        assert((cur == 0u8 || cur == 1u8) ==> ((cur & 1u8 == 1u8) == (cur == 1u8)))
            by (bit_vector);
        match set_attempt(cur) {
            SetAttempt::Lock(_) => {
                let (status, all) = set_done(cur);
                assert((cur == 0u8 || cur == 1u8) ==> ((cur | 4u8) == cur + 4 && ((cur | 4u8) & 1u8
                    == 1u8) == (cur == 1u8))) by (bit_vector);
                self.value = Some(val);
                self.status = status;
                Ok(
                    if all {
                        Notify::All
                    } else {
                        Notify::One
                    },
                )
            },
            _ => Err(val),
        }
    }

    /// whether the value is set
    pub fn is_set(&self) -> (b: bool)
        requires
            self.wf(),
        ensures
            b == (self@ is Some),
    {
        let st = self.status;
        assert((st == 0u8 || st == 1u8 || st == 4u8 || st == 5u8) ==> ((st & 4u8 == 4u8) == (st
            >= 4u8))) by (bit_vector);
        is_value_set(self.status)
    }

    /// the value, once set
    pub fn get(&self) -> (r: Option<&T>)
        requires
            self.wf(),
        ensures
            r matches Some(v) ==> self@ == Some(*v),
            r is None ==> self@ is None,
    {
        if self.is_set() {
            match &self.value {
                Some(v) => Some(v),
                None => None,
            }
        } else {
            None
        }
    }
}

/// the cell is locked by a setter
pub const STATE_LOCKED: usize = 1;
/// the value is set
pub const STATE_VALUE_SET: usize = 2;

/// A cell set once, that keeps the wakers of its waiters until it is set and
/// can be taken (emptied) again.
#[derive(Debug)]
pub struct SyncCellState<T, W> {
    state: usize,
    value: Option<T>,
    wakers: Option<Vec<W>>,
}

impl<T, W> SyncCellState<T, W> {
    /// The value, once set.
    pub closed spec fn view(&self) -> Option<T> {
        self.value
    }

    /// The wakers waiting.
    pub closed spec fn waiting(&self) -> Seq<W> {
        match self.wakers {
            Some(v) => v@,
            None => Seq::empty(),
        }
    }

    /// Whether the state agrees with the value.
    pub closed spec fn wf(&self) -> bool {
        &&& (self.state == 0 || self.state == STATE_VALUE_SET)
        &&& (self.value is Some <==> self.state == STATE_VALUE_SET)
        &&& (self.state == STATE_VALUE_SET ==> self.wakers is None)
    }

    /// an empty cell with no waiter
    pub fn new() -> (c: Self)
        ensures
            c.wf(),
            c@ is None,
            c.waiting().len() == 0,
    {
        SyncCellState { state: 0, value: None, wakers: None }
    }

    /// whether the value is set
    pub fn is_set(&self) -> (b: bool)
        requires
            self.wf(),
        ensures
            b == (self@ is Some),
    {
        let st = self.state;
        assert((st == 0usize || st == 2usize) ==> ((st & 2usize == 2usize) == (st == 2usize)))
            by (bit_vector);
        self.state & STATE_VALUE_SET == STATE_VALUE_SET
    }

    /// set the value if empty: returns whether it was set, and the wakers to
    /// wake (all those waiting)
    pub fn set(&mut self, val: T) -> (r: (bool, Vec<W>))
        requires
            old(self).wf(),
        ensures
            final(self).wf(),
            old(self)@ is None ==> r.0 && final(self)@ == Some(val) && r.1@ == old(self).waiting()
                && final(self).waiting().len() == 0,
            old(self)@ is Some ==> !r.0 && final(self)@ == old(self)@ && r.1@.len() == 0
                && final(self).waiting() == old(self).waiting(),
    {
        if self.is_set() {
            return (false, Vec::new());
        }
        self.value = Some(val);
        let woken = match self.wakers.take() {
            Some(v) => v,
            None => Vec::new(),
        };
        self.state = STATE_VALUE_SET;
        (true, woken)
    }

    /// keep a waker until the value is set: returns false (keeping nothing)
    /// when the value is set already
    pub fn set_waker(&mut self, waker: W) -> (r: bool)
        requires
            old(self).wf(),
        ensures
            final(self).wf(),
            final(self)@ == old(self)@,
            old(self)@ is Some ==> !r && final(self).waiting() == old(self).waiting(),
            old(self)@ is None ==> r && final(self).waiting() == old(self).waiting().push(waker),
    {
        if self.is_set() {
            return false;
        }
        match self.wakers.take() {
            Some(mut v) => {
                v.push(waker);
                self.wakers = Some(v);
            },
            None => {
                let mut v = Vec::new();
                v.push(waker);
                self.wakers = Some(v);
            },
        }
        true
    }

    /// the value, once set
    pub fn get(&self) -> (r: Option<&T>)
        requires
            self.wf(),
        ensures
            r matches Some(v) ==> self@ == Some(*v),
            r is None ==> self@ is None,
    {
        if self.is_set() {
            match &self.value {
                Some(v) => Some(v),
                None => None,
            }
        } else {
            None
        }
    }

    /// take value and reset state: the cell is empty again and forgets its
    /// waiters
    pub fn take(&mut self) -> (r: Option<T>)
        requires
            old(self).wf(),
        ensures
            final(self).wf(),
            r == old(self)@,
            final(self)@ is None,
            old(self)@ is Some ==> final(self).waiting().len() == 0,
            old(self)@ is None ==> final(self).waiting() == old(self).waiting(),
    {
        if self.state == 0 {
            return None;
        }
        self.wakers = None;
        let v = self.value.take();
        self.state = 0;
        v
    }
}

/// the tag of an entry has not been created yet
pub const CREATION_EMPTY: u8 = 0;
/// the tag of an entry exists
pub const CREATION_HAS_INSTANCE: u8 = 1;
/// the creation of an entry's tag has ended
pub const CREATION_DONE: u8 = 2;

/// The creation status bits of a pooled entry.
#[derive(Debug, Clone, Copy, PartialEq, Eq, Structural)]
pub struct CreationStatus(pub u8);

impl CreationStatus {
    /// the status of stored bits
    pub fn load(flag: u8) -> (s: CreationStatus)
        ensures
            s.0 == flag,
    {
        CreationStatus(flag)
    }

    /// nothing happened yet
    pub fn is_empty(&self) -> (b: bool)
        ensures
            b == (self.0 == CREATION_EMPTY),
    {
        self.0 == CREATION_EMPTY
    }

    /// the tag exists
    pub fn has_instance(&self) -> (b: bool)
        ensures
            b == (self.0 & CREATION_HAS_INSTANCE == CREATION_HAS_INSTANCE),
    {
        self.0 & CREATION_HAS_INSTANCE == CREATION_HAS_INSTANCE
    }

    /// the creation has ended
    pub fn is_done(&self) -> (b: bool)
        ensures
            b == (self.0 & CREATION_DONE == CREATION_DONE),
    {
        self.0 & CREATION_DONE == CREATION_DONE
    }
}

/// A cell whose value is set turns every later setter away, and a locked cell
/// makes setters try again.
pub proof fn lemma_attempt_states()
    ensures
        attempt_of(STATUS_VALUE_SET) == SetAttempt::Full,
        attempt_of(STATUS_VALUE_SET | STATUS_NOTIFY_ALL) == SetAttempt::Full,
        attempt_of(STATUS_LOCKED) == SetAttempt::Busy,
        attempt_of(STATUS_LOCKED | STATUS_NOTIFY_ALL) == SetAttempt::Busy,
{
    assert((4u8 & 4u8) == 4u8 && ((4u8 | 1u8) & 4u8) == 4u8 && (2u8 & 4u8) != 4u8 && ((2u8 | 1u8)
        & 4u8) != 4u8 && (4u8 | 1u8) == 5u8 && (2u8 | 1u8) == 3u8) by (bit_vector);
}

} // verus!
