//! Waiters parked on a tag until its read or write completes.

use vstd::prelude::*;
use crate::event::{PLCTAG_EVENT_DESTROYED, PLCTAG_EVENT_READ_COMPLETED, PLCTAG_EVENT_WRITE_COMPLETED};

verus! {

/// the operation a waiter waits for
#[derive(Debug, Clone, Copy, PartialEq, Eq, Structural)]
pub enum Interest {
    /// a read
    Read,
    /// a write
    Write,
}

/// The bit of an interest.
pub open spec fn interest_value(i: Interest) -> u8 {
    match i {
        Interest::Read => 1,
        Interest::Write => 2,
    }
}

impl Interest {
    /// the bit of this interest
    pub fn value(&self) -> (v: u8)
        ensures
            v == interest_value(*self),
    {
        match self {
            Interest::Read => 1,
            Interest::Write => 2,
        }
    }
}

/// The interest bits that an event of the library satisfies: a completed read,
/// a completed write, or none.
pub open spec fn event_interest(event: i32) -> u8 {
    if event == PLCTAG_EVENT_READ_COMPLETED {
        1
    } else if event == PLCTAG_EVENT_WRITE_COMPLETED {
        2
    } else {
        0
    }
}

/// Only a completed read or write wakes a waiter: a completed read carries
/// the read bit, a completed write the write bit, and every other event
/// (started, aborted, created, destroyed, ...) carries none.
pub proof fn lemma_only_completions_wake(event: i32)
    ensures
        event_interest(PLCTAG_EVENT_READ_COMPLETED) == interest_value(Interest::Read),
        event_interest(PLCTAG_EVENT_WRITE_COMPLETED) == interest_value(Interest::Write),
        event_interest(event) != 0 ==> event == PLCTAG_EVENT_READ_COMPLETED || event
            == PLCTAG_EVENT_WRITE_COMPLETED,
        event_interest(crate::event::PLCTAG_EVENT_READ_STARTED) == 0,
        event_interest(crate::event::PLCTAG_EVENT_WRITE_STARTED) == 0,
        event_interest(crate::event::PLCTAG_EVENT_ABORTED) == 0,
{
}

/// A waiter of a tag, with its notifier while it has not been notified.
#[derive(Debug)]
pub struct Parker<S> {
    /// notifier of the waiter, taken when it is notified
    pub tx: Option<S>,
    /// what the waiter waits for
    pub interest: Interest,
}

impl<S> Parker<S> {
    /// take the notifier if this waiter's interest holds all the `interest` bits
    pub fn take(&mut self, interest: u8) -> (r: Option<S>)
        ensures
            (interest_value(old(self).interest) & interest) == interest ==> r == old(self).tx
                && final(self).tx is None && final(self).interest == old(self).interest,
            (interest_value(old(self).interest) & interest) != interest ==> r is None && final(self).tx == old(self).tx && final(self).interest == old(self).interest,
    {
        if self.interest.value() & interest == interest {
            self.tx.take()
        } else {
            None
        }
    }
}

/// The waiters of tags, at most one per tag.
#[derive(Debug)]
pub struct ParkRegistry<S> {
    parkers: Vec<(i32, Parker<S>)>,
}

/// A waiter as the registry sees it: its tag, whether it still has its
/// notifier (and which), and its interest.
pub struct ParkedView<S> {
    pub tag_id: i32,
    pub tx: Option<S>,
    pub interest: Interest,
}

/// The position of a tag's waiter, or -1.
pub open spec fn parker_index<S>(s: Seq<ParkedView<S>>, tag_id: i32) -> int {
    if exists|i: int| 0 <= i < s.len() && s[i].tag_id == tag_id {
        choose|i: int| 0 <= i < s.len() && s[i].tag_id == tag_id
    } else {
        -1
    }
}

/// No tag has two waiters.
pub open spec fn parkers_wf<S>(s: Seq<ParkedView<S>>) -> bool {
    forall|i: int, j: int|
        0 <= i < s.len() && 0 <= j < s.len() && i != j ==> #[trigger] s[i].tag_id != #[trigger] s[j].tag_id
}

proof fn lemma_parker_index<S>(s: Seq<ParkedView<S>>, tag_id: i32, i: int)
    requires
        parkers_wf(s),
        0 <= i < s.len(),
        s[i].tag_id == tag_id,
    ensures
        parker_index(s, tag_id) == i,
{
    let j = parker_index(s, tag_id);
    assert(s[j].tag_id == tag_id);
}

/// The completion event of an operation.
pub open spec fn completion_of(i: Interest) -> i32 {
    match i {
        Interest::Read => PLCTAG_EVENT_READ_COMPLETED,
        Interest::Write => PLCTAG_EVENT_WRITE_COMPLETED,
    }
}

/// The waiters after a waiter is parked on a tag (see [`ParkRegistry::park`]).
pub open spec fn parked<S>(s: Seq<ParkedView<S>>, tag_id: i32, tx: S, interest: Interest) -> Seq<ParkedView<S>> {
    let p = ParkedView { tag_id, tx: Some(tx), interest };
    if parker_index(s, tag_id) == -1 {
        s.push(p)
    } else {
        s.update(parker_index(s, tag_id), p)
    }
}

/// A parked waiter is the one the completion of its operation on its tag
/// reaches: after parking, the tag's waiter is the new one, and the completion
/// event carries exactly its interest bits, so [`ParkRegistry::dispatch`] of
/// that event hands out its notifier.
pub proof fn lemma_park_then_complete<S>(s: Seq<ParkedView<S>>, tag_id: i32, tx: S, interest: Interest)
    requires
        parkers_wf(s),
    ensures
        parkers_wf(parked(s, tag_id, tx, interest)),
        parker_index(parked(s, tag_id, tx, interest), tag_id) >= 0,
        parked(s, tag_id, tx, interest)[parker_index(parked(s, tag_id, tx, interest), tag_id)]
            == (ParkedView { tag_id, tx: Some(tx), interest }),
        completion_of(interest) != PLCTAG_EVENT_DESTROYED,
        event_interest(completion_of(interest)) != 0,
        interest_value(interest) & event_interest(completion_of(interest)) == event_interest(
            completion_of(interest),
        ),
{
    let t = parked(s, tag_id, tx, interest);
    let k = parker_index(s, tag_id);
    let i = if k == -1 { s.len() as int } else { k };
    assert(t[i].tag_id == tag_id);
    assert forall|a: int, b: int|
        0 <= a < t.len() && 0 <= b < t.len() && a != b implies #[trigger] t[a].tag_id
        != #[trigger] t[b].tag_id by {
        if a != i && b != i {
            assert(t[a] == s[a] && t[b] == s[b]);
        } else if a == i {
            assert(t[b] == s[b]);
            if k == -1 {
                assert(s[b].tag_id != tag_id);
            } else {
                assert(s[k].tag_id == tag_id);
            }
        } else {
            assert(t[a] == s[a]);
            if k == -1 {
                assert(s[a].tag_id != tag_id);
            } else {
                assert(s[k].tag_id == tag_id);
            }
        }
    }
    lemma_parker_index(t, tag_id, i);
    assert(1u8 & 1u8 == 1u8) by (bit_vector);
    assert(2u8 & 2u8 == 2u8) by (bit_vector);
}

impl<S> ParkRegistry<S> {
    /// The waiters, in the registry's order.
    pub closed spec fn view(&self) -> Seq<ParkedView<S>> {
        self.parkers@.map_values(
            |p: (i32, Parker<S>)| ParkedView { tag_id: p.0, tx: p.1.tx, interest: p.1.interest },
        )
    }

    /// Whether no tag has two waiters.
    pub closed spec fn wf(&self) -> bool {
        parkers_wf(self.view())
    }

    /// no waiter
    pub fn new() -> (r: ParkRegistry<S>)
        ensures
            r.wf(),
            r@.len() == 0,
    {
        let r = ParkRegistry { parkers: Vec::new() };
        assert(r@ =~= Seq::<ParkedView<S>>::empty());
        r
    }

    fn find(&self, tag_id: i32) -> (r: Option<usize>)
        requires
            self.wf(),
        ensures
            r matches Some(i) ==> i == parker_index(self@, tag_id),
            r is None ==> parker_index(self@, tag_id) == -1,
    {
        let mut i: usize = 0;
        while i < self.parkers.len()
            invariant
                self.wf(),
                i <= self.parkers.len(),
                forall|k: int| 0 <= k < i ==> #[trigger] self@[k].tag_id != tag_id,
            decreases self.parkers.len() - i,
        {
            if self.parkers[i].0 == tag_id {
                proof { lemma_parker_index(self@, tag_id, i as int); }
                return Some(i);
            }
            i = i + 1;
        }
        None
    }

    /// park a waiter on a tag, in place of the tag's earlier waiter; returns
    /// whether the tag had no waiter (then its callback is to be registered)
    pub fn park(&mut self, tag_id: i32, tx: S, interest: Interest) -> (r: bool)
        requires
            old(self).wf(),
        ensures
            final(self).wf(),
            ({
                let k = parker_index(old(self)@, tag_id);
                let p = ParkedView { tag_id, tx: Some(tx), interest };
                &&& r == (k == -1)
                &&& k == -1 ==> final(self)@ == old(self)@.push(p)
                &&& k >= 0 ==> final(self)@ == old(self)@.update(k, p)
            }),
    {
        let parker = Parker { tx: Some(tx), interest };
        let ghost old_view = self@;
        let ghost p = ParkedView { tag_id, tx: Some(tx), interest };
        match self.find(tag_id) {
            Some(i) => {
                self.parkers.remove(i);
                self.parkers.insert(i, (tag_id, parker));
                assert(self@ =~= old_view.update(i as int, p));
                proof {
                    let s = self@;
                    assert forall|a: int, b: int|
                        0 <= a < s.len() && 0 <= b < s.len() && a != b implies #[trigger] s[a].tag_id
                        != #[trigger] s[b].tag_id by {
                        if a != i && b != i {
                            assert(s[a] == old_view[a] && s[b] == old_view[b]);
                        } else if a == i {
                            assert(s[b] == old_view[b]);
                            assert(old_view[i as int].tag_id == tag_id);
                        } else {
                            assert(s[a] == old_view[a]);
                            assert(old_view[i as int].tag_id == tag_id);
                        }
                    }
                }
                false
            },
            None => {
                self.parkers.push((tag_id, parker));
                assert(self@ =~= old_view.push(p));
                proof {
                    let s = self@;
                    assert forall|a: int, b: int|
                        0 <= a < s.len() && 0 <= b < s.len() && a != b implies #[trigger] s[a].tag_id
                        != #[trigger] s[b].tag_id by {
                        if a < old_view.len() && b < old_view.len() {
                            assert(s[a] == old_view[a] && s[b] == old_view[b]);
                        } else if a < old_view.len() {
                            assert(s[a] == old_view[a]);
                        } else {
                            assert(s[b] == old_view[b]);
                        }
                    }
                }
                true
            },
        }
    }

    /// an event of a tag from the library's callback: a completed read or write
    /// hands out the notifier of a waiter waiting for it; a destroyed tag loses
    /// its waiter; other events change nothing
    pub fn dispatch(&mut self, tag_id: i32, event: i32) -> (r: Option<S>)
        requires
            old(self).wf(),
        ensures
            final(self).wf(),
            ({
                let k = parker_index(old(self)@, tag_id);
                let bits = event_interest(event);
                &&& event == PLCTAG_EVENT_DESTROYED ==> r is None && (k == -1 ==> final(self)@ == old(self)@) && (k >= 0 ==> final(self)@ == old(self)@.remove(k))
                &&& event != PLCTAG_EVENT_DESTROYED && (bits == 0 || k == -1) ==> r is None
                    && final(self)@ == old(self)@
                &&& event != PLCTAG_EVENT_DESTROYED && bits != 0 && k >= 0 && (interest_value(
                    old(self)@[k].interest,
                ) & bits) == bits ==> r == old(self)@[k].tx && final(self)@ == old(self)@.update(
                    k,
                    ParkedView { tx: None, ..old(self)@[k] },
                )
                &&& event != PLCTAG_EVENT_DESTROYED && bits != 0 && k >= 0 && (interest_value(
                    old(self)@[k].interest,
                ) & bits) != bits ==> r is None && final(self)@ == old(self)@
            }),
    {
        let ghost old_view = self@;
        if event == PLCTAG_EVENT_DESTROYED {
            match self.find(tag_id) {
                Some(i) => {
                    self.parkers.remove(i);
                    assert(self@ =~= old_view.remove(i as int));
                },
                None => {},
            }
            return None;
        }
        let interest: u8 = if event == PLCTAG_EVENT_READ_COMPLETED {
            1
        } else if event == PLCTAG_EVENT_WRITE_COMPLETED {
            2
        } else {
            0
        };
        if interest == 0 {
            return None;
        }
        match self.find(tag_id) {
            Some(i) => {
                let (t, mut parker) = self.parkers.remove(i);
                let tx = parker.take(interest);
                self.parkers.insert(i, (t, parker));
                assert(self@ =~= old_view.update(
                    i as int,
                    ParkedView { tx: parker.tx, ..old_view[i as int] },
                ));
                proof {
                    let s = self@;
                    assert forall|a: int, b: int|
                        0 <= a < s.len() && 0 <= b < s.len() && a != b implies #[trigger] s[a].tag_id
                        != #[trigger] s[b].tag_id by {
                        assert(s[a].tag_id == old_view[a].tag_id);
                        assert(s[b].tag_id == old_view[b].tag_id);
                    }
                }
                if tx.is_none() {
                    assert(self@ =~= old_view);
                }
                tx
            },
            None => None,
        }
    }
}

} // verus!
