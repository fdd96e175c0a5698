//! The pool of tags for coroutines: entries by path, the creation outcome of
//! each entry, and the queue of creations still to poll.

use vstd::prelude::*;
use vstd::string::StringExecFns;
use crate::cell::{CREATION_DONE, CREATION_EMPTY, CREATION_HAS_INSTANCE, CreationStatus};
use crate::pool::Initialize;
use crate::status::Status;

verus! {

/// errors of the coroutine pool
#[derive(Debug, Clone, Copy, PartialEq, Eq, Structural)]
pub enum Error {
    /// tag error with status
    TagError(Status),
    /// coroutine park error
    ParkError,
    /// a lock was poisoned
    PoisonError,
    /// the operation timed out
    Timeout,
}

impl From<Status> for Error {
    fn from(s: Status) -> (e: Error) {
        Error::TagError(s)
    }
}

impl vstd::std_specs::convert::FromSpecImpl<Status> for Error {
    open spec fn obeys_from_spec() -> bool {
        true
    }

    open spec fn from_spec(s: Status) -> Error {
        Error::TagError(s)
    }
}

/// how long a pending creation waits before it is polled again, in milliseconds
pub const CREATION_POLL_MS: u64 = 5;

/// One pooled tag: its creation status bits, the tag once created, and the
/// outcome of the creation once done.
#[derive(Debug)]
pub struct CoEntry<T> {
    id: u64,
    path: String,
    tag: Option<T>,
    err: Result<(), Error>,
    status: u8,
}

/// An entry as the pool sees it.
pub struct CoEntryView<T> {
    pub id: u64,
    pub path: Seq<char>,
    pub tag: Option<T>,
    pub err: Result<(), Error>,
    pub status: u8,
}

/// Whether an entry's creation is done.
pub open spec fn is_done_bits(status: u8) -> bool {
    status & CREATION_DONE == CREATION_DONE
}

/// Whether an entry's tag exists.
pub open spec fn has_instance_bits(status: u8) -> bool {
    status & CREATION_HAS_INSTANCE == CREATION_HAS_INSTANCE
}

/// The entry once its creation ends with `res`, unless it had ended already.
pub open spec fn with_err<T>(e: CoEntryView<T>, res: Result<(), Error>) -> CoEntryView<T> {
    if is_done_bits(e.status) {
        e
    } else {
        CoEntryView { err: res, status: e.status | CREATION_DONE, ..e }
    }
}

/// The entry once a poll of its tag answers `s`: a pending tag is polled again
/// later; an OK or failed one ends the creation.
pub open spec fn settle<T>(e: CoEntryView<T>, s: Status) -> CoEntryView<T> {
    match s {
        Status::Pending => e,
        Status::Success => with_err(e, Ok(())),
        Status::Error(_) => with_err(e, Err(Error::TagError(s))),
    }
}

/// The status bits an entry can hold: empty, with tag, done, or both.
pub open spec fn status_wf(status: u8) -> bool {
    status == 0 || status == 1 || status == 2 || status == 3
}

proof fn lemma_bits(status: u8)
    requires
        status_wf(status),
    ensures
        is_done_bits(status) == (status >= 2),
        has_instance_bits(status) == (status == 1 || status == 3),
        status_wf(status | CREATION_DONE),
        (status | CREATION_DONE) == (if status >= 2 { status } else { (status + 2) as u8 }),
{
    assert((status == 0u8 || status == 1u8 || status == 2u8 || status == 3u8) ==> (((status & 2u8)
        == 2u8) == (status >= 2u8) && ((status & 1u8) == 1u8) == (status == 1u8 || status == 3u8)
        && (status | 2u8) == (if status >= 2u8 { status } else { (status + 2u8) as u8 })))
        by (bit_vector);
}

impl<T> CoEntry<T> {
    /// The entry as the pool sees it.
    pub closed spec fn view(&self) -> CoEntryView<T> {
        CoEntryView {
            id: self.id,
            path: self.path@,
            tag: self.tag,
            err: self.err,
            status: self.status,
        }
    }

    /// unique id of the entry
    pub fn id(&self) -> (id: u64)
        ensures
            id == self.view().id,
    {
        self.id
    }

    /// the path the entry was created for
    pub fn path(&self) -> (p: &str)
        ensures
            p@ == self.view().path,
    {
        self.path.as_str()
    }

    /// the tag, once created
    pub fn tag(&self) -> (t: Option<&T>)
        ensures
            t matches Some(x) ==> self.view().tag == Some(*x),
            t is None ==> self.view().tag is None,
    {
        match &self.tag {
            Some(t) => Some(t),
            None => None,
        }
    }

    /// whether the tag exists
    pub fn has_instance(&self) -> (b: bool)
        ensures
            b == has_instance_bits(self.view().status),
    {
        CreationStatus::load(self.status).has_instance()
    }

    /// whether the creation has ended
    pub fn is_done(&self) -> (b: bool)
        ensures
            b == is_done_bits(self.view().status),
    {
        CreationStatus::load(self.status).is_done()
    }

    /// the outcome of the creation once it has ended, `None` while it goes on
    pub fn connect(&self) -> (r: Option<Result<(), Error>>)
        ensures
            is_done_bits(self.view().status) ==> r == Some(self.view().err),
            !is_done_bits(self.view().status) ==> r is None,
    {
        if self.is_done() {
            Some(self.err)
        } else {
            None
        }
    }

    /// the creation ended with `res`, unless it had ended already; returns
    /// whether waiters are to be woken
    pub fn set_err(&mut self, res: Result<(), Error>) -> (fired: bool)
        requires
            status_wf(old(self).view().status),
            !is_done_bits(old(self).view().status) ==> res != Err::<(), Error>(
                Error::TagError(Status::Pending),
            ),
        ensures
            final(self).view() == with_err(old(self).view(), res),
            status_wf(final(self).view().status),
            fired == !is_done_bits(old(self).view().status),
    {
        proof { lemma_bits(self.status); }
        if CreationStatus::load(self.status).is_done() {
            return false;
        }
        self.err = res;
        self.status = self.status | CREATION_DONE;
        true
    }

    /// the creation of the tag answered `res`: a new tag is kept while nothing
    /// else happened to the entry; an error ends the creation. Returns whether
    /// waiters are to be woken.
    pub fn set_tag(&mut self, res: Result<T, Error>) -> (fired: bool)
        requires
            status_wf(old(self).view().status),
            old(self).view().status == CREATION_EMPTY ==> old(self).view().tag is None,
            !is_done_bits(old(self).view().status) ==> !(res matches Err(Error::TagError(s))
                && s is Pending),
        ensures
            status_wf(final(self).view().status),
            res matches Ok(t) ==> (old(self).view().status == CREATION_EMPTY ==> !fired && final(self).view() == (CoEntryView {
                tag: Some(t),
                status: CREATION_HAS_INSTANCE,
                ..old(self).view()
            })),
            res is Ok && old(self).view().status != CREATION_EMPTY ==> !fired && final(self).view()
                == old(self).view(),
            res matches Err(e) ==> final(self).view() == with_err(old(self).view(), Err(e))
                && fired == !is_done_bits(old(self).view().status),
    {
        match res {
            Ok(tag) => {
                if !CreationStatus::load(self.status).is_empty() {
                    return false;
                }
                if self.tag.is_none() {
                    self.tag = Some(tag);
                    self.status = CREATION_HAS_INSTANCE;
                }
                false
            },
            Err(e) => self.set_err(Err(e)),
        }
    }
}

impl<T: Initialize> CoEntry<T> {
    /// poll the tag's creation, once the tag exists
    pub fn check_status(&self) -> (r: Option<Status>)
        ensures
            r is Some <==> (has_instance_bits(self.view().status) && self.view().tag is Some),
            r matches Some(s) ==> (self.view().tag matches Some(t) && call_ensures(
                T::status,
                (&t,),
                s,
            )),
    {
        if !self.has_instance() {
            return None;
        }
        match &self.tag {
            Some(t) => Some(t.status()),
            None => None,
        }
    }
}

/// The entries of the pool, the creation queue and the next id.
pub struct CoStateView<T> {
    pub entries: Seq<CoEntryView<T>>,
    pub creation: Seq<(u64, u64)>,
    pub next_id: u64,
    pub shutdown: bool,
}

/// Ids increase along the entries and stay below the next id; no two entries
/// have one path; an entry's bits are consistent; the creation queue holds
/// each id at most once.
pub open spec fn co_wf<T>(v: CoStateView<T>) -> bool {
    let s = v.entries;
    let c = v.creation;
    &&& forall|i: int, j: int| 0 <= i < j < s.len() ==> #[trigger] s[i].id < #[trigger] s[j].id
    &&& forall|i: int| 0 <= i < s.len() ==> #[trigger] s[i].id < v.next_id
    &&& forall|i: int, j: int|
        0 <= i < s.len() && 0 <= j < s.len() && i != j ==> #[trigger] s[i].path != #[trigger] s[j].path
    &&& forall|i: int| 0 <= i < s.len() ==> status_wf(#[trigger] s[i].status)
    &&& forall|i: int| 0 <= i < s.len() ==> (#[trigger] s[i].status == CREATION_EMPTY ==> s[i].tag is None)
    &&& forall|i: int, j: int|
        0 <= i < c.len() && 0 <= j < c.len() && i != j ==> #[trigger] c[i].1 != #[trigger] c[j].1
    &&& forall|i: int| 0 <= i < c.len() ==> #[trigger] c[i].1 < v.next_id
}

/// The position of the entry with a path, or -1.
pub open spec fn co_path_index<T>(s: Seq<CoEntryView<T>>, path: Seq<char>) -> int {
    if exists|i: int| 0 <= i < s.len() && s[i].path == path {
        choose|i: int| 0 <= i < s.len() && s[i].path == path
    } else {
        -1
    }
}

/// The position of the entry with an id, or -1.
pub open spec fn co_id_index<T>(s: Seq<CoEntryView<T>>, id: u64) -> int {
    if exists|i: int| 0 <= i < s.len() && s[i].id == id {
        choose|i: int| 0 <= i < s.len() && s[i].id == id
    } else {
        -1
    }
}

/// The earliest time in a creation queue.
pub open spec fn earliest_time(c: Seq<(u64, u64)>) -> Option<u64>
    decreases c.len(),
{
    if c.len() == 0 {
        None
    } else {
        match earliest_time(c.drop_last()) {
            None => Some(c.last().0),
            Some(a) => Some(if a <= c.last().0 { a } else { c.last().0 }),
        }
    }
}

/// The queued creations whose time has not come at `now`, in their order.
pub open spec fn not_due(c: Seq<(u64, u64)>, now: u64) -> Seq<(u64, u64)>
    decreases c.len(),
{
    if c.len() == 0 {
        c
    } else if c.last().0 > now {
        not_due(c.drop_last(), now).push(c.last())
    } else {
        not_due(c.drop_last(), now)
    }
}

/// The ids of the queued creations whose time has come at `now`, in order.
pub open spec fn due_ids(c: Seq<(u64, u64)>, now: u64) -> Seq<u64>
    decreases c.len(),
{
    if c.len() == 0 {
        Seq::empty()
    } else if c.last().0 > now {
        due_ids(c.drop_last(), now)
    } else {
        due_ids(c.drop_last(), now).push(c.last().1)
    }
}

/// The entries once the entry of an id has been polled and answered `st`.
pub open spec fn apply_poll<T>(es: Seq<CoEntryView<T>>, id: u64, st: Status) -> Seq<CoEntryView<T>> {
    let k = co_id_index(es, id);
    if k >= 0 {
        es.update(k, settle(es[k], st))
    } else {
        es
    }
}

/// The entries once each poll answer is applied, in order.
pub open spec fn apply_polls<T>(es: Seq<CoEntryView<T>>, obs: Seq<(u64, Status)>) -> Seq<
    CoEntryView<T>,
>
    decreases obs.len(),
{
    if obs.len() == 0 {
        es
    } else {
        apply_poll(apply_polls(es, obs.drop_last()), obs.last().0, obs.last().1)
    }
}

/// The creations queued again: each poll that answered pending, polled again
/// [`CREATION_POLL_MS`] after `now`.
pub open spec fn requeued(obs: Seq<(u64, Status)>, now: u64) -> Seq<(u64, u64)>
    decreases obs.len(),
{
    if obs.len() == 0 {
        Seq::empty()
    } else if obs.last().1 is Pending {
        requeued(obs.drop_last(), now).push(((now + CREATION_POLL_MS) as u64, obs.last().0))
    } else {
        requeued(obs.drop_last(), now)
    }
}

/// Whether an entry can be polled: its tag exists.
pub open spec fn pollable<T>(e: CoEntryView<T>) -> bool {
    has_instance_bits(e.status) && e.tag is Some
}

/// Whether a status is what the entry's tag answered when polled.
pub open spec fn polled_from_tag<T: Initialize>(e: CoEntryView<T>, s: Status) -> bool {
    e.tag matches Some(t) && call_ensures(T::status, (&t,), s)
}

/// Ids in a creation queue are distinct.
pub open spec fn queue_ids_distinct(c: Seq<(u64, u64)>) -> bool {
    forall|i: int, j: int| 0 <= i < c.len() && 0 <= j < c.len() && i != j ==> #[trigger] c[i].1 != #[trigger] c[j].1
}

/// Ids in a sequence are distinct.
pub open spec fn ids_distinct(d: Seq<u64>) -> bool {
    forall|i: int, j: int| 0 <= i < d.len() && 0 <= j < d.len() && i != j ==> #[trigger] d[i] != #[trigger] d[j]
}

/// Splitting a queue at `now` keeps every item on exactly one side.
proof fn lemma_split(c: Seq<(u64, u64)>, now: u64)
    requires
        queue_ids_distinct(c),
    ensures
        forall|a: int| 0 <= a < not_due(c, now).len() ==> c.contains(#[trigger] not_due(c, now)[a]) && not_due(c, now)[a].0 > now,
        forall|i: int| 0 <= i < c.len() && #[trigger] c[i].0 > now ==> not_due(c, now).contains(c[i]),
        forall|a: int| 0 <= a < due_ids(c, now).len() ==> exists|i: int| 0 <= i < c.len() && c[i].1 == #[trigger] due_ids(c, now)[a] && c[i].0 <= now,
        forall|i: int| 0 <= i < c.len() && #[trigger] c[i].0 <= now ==> due_ids(c, now).contains(c[i].1),
        ids_distinct(due_ids(c, now)),
        queue_ids_distinct(not_due(c, now)),
        forall|a: int, b: int| 0 <= a < not_due(c, now).len() && 0 <= b < due_ids(c, now).len() ==> #[trigger] not_due(c, now)[a].1 != #[trigger] due_ids(c, now)[b],
    decreases c.len(),
{
    if c.len() > 0 {
        let t = c.drop_last();
        let x = c.last();
        assert(queue_ids_distinct(t)) by {
            assert forall|i: int, j: int| 0 <= i < t.len() && 0 <= j < t.len() && i != j implies #[trigger] t[i].1 != #[trigger] t[j].1 by {
                assert(t[i] == c[i] && t[j] == c[j]);
            }
        }
        lemma_split(t, now);
        let nt = not_due(t, now);
        let dt = due_ids(t, now);
        let n = not_due(c, now);
        let d = due_ids(c, now);
        assert(c[c.len() - 1] == x);
        // the last item's id differs from every earlier one
        assert forall|i: int| 0 <= i < t.len() implies #[trigger] t[i].1 != x.1 by {
            assert(t[i] == c[i]);
        }
        assert forall|a: int| 0 <= a < nt.len() implies #[trigger] nt[a].1 != x.1 by {
            assert(t.contains(nt[a]));
        }
        assert forall|a: int| 0 <= a < dt.len() implies #[trigger] dt[a] != x.1 by {
            let i = choose|i: int| 0 <= i < t.len() && t[i].1 == dt[a] && t[i].0 <= now;
        }
        assert forall|a: int| 0 <= a < n.len() implies c.contains(#[trigger] n[a]) && n[a].0 > now by {
            if a < nt.len() {
                assert(n[a] == nt[a]);
                assert(t.contains(nt[a]));
                let i = choose|i: int| 0 <= i < t.len() && t[i] == nt[a];
                assert(c[i] == t[i]);
            } else {
                assert(n[a] == x);
            }
        }
        assert forall|i: int| 0 <= i < c.len() && #[trigger] c[i].0 > now implies n.contains(c[i]) by {
            if i < t.len() {
                assert(c[i] == t[i]);
                assert(nt.contains(t[i]));
                let a = choose|a: int| 0 <= a < nt.len() && nt[a] == t[i];
                assert(n[a] == nt[a]);
            } else {
                assert(n[n.len() - 1] == x);
            }
        }
        assert forall|a: int| 0 <= a < d.len() implies exists|i: int| 0 <= i < c.len() && c[i].1 == #[trigger] d[a] && c[i].0 <= now by {
            if a < dt.len() {
                assert(d[a] == dt[a]);
                let i = choose|i: int| 0 <= i < t.len() && t[i].1 == dt[a] && t[i].0 <= now;
                assert(c[i] == t[i]);
            } else {
                assert(d[a] == x.1);
                assert(c[c.len() - 1] == x);
            }
        }
        assert forall|i: int| 0 <= i < c.len() && #[trigger] c[i].0 <= now implies d.contains(c[i].1) by {
            if i < t.len() {
                assert(c[i] == t[i]);
                assert(dt.contains(t[i].1));
                let a = choose|a: int| 0 <= a < dt.len() && dt[a] == t[i].1;
                assert(d[a] == dt[a]);
            } else {
                assert(d[d.len() - 1] == x.1);
            }
        }
        assert forall|a: int, b: int| 0 <= a < d.len() && 0 <= b < d.len() && a != b implies #[trigger] d[a] != #[trigger] d[b] by {
            if a < dt.len() && b < dt.len() {
                assert(d[a] == dt[a] && d[b] == dt[b]);
            } else if a < dt.len() {
                assert(d[a] == dt[a]);
            } else {
                assert(d[b] == dt[b]);
            }
        }
        assert forall|a: int, b: int| 0 <= a < n.len() && 0 <= b < n.len() && a != b implies #[trigger] n[a].1 != #[trigger] n[b].1 by {
            if a < nt.len() && b < nt.len() {
                assert(n[a] == nt[a] && n[b] == nt[b]);
            } else if a < nt.len() {
                assert(n[a] == nt[a]);
            } else {
                assert(n[b] == nt[b]);
            }
        }
        assert forall|a: int, b: int| 0 <= a < n.len() && 0 <= b < d.len() implies #[trigger] n[a].1 != #[trigger] d[b] by {
            if a < nt.len() && b < dt.len() {
                assert(n[a] == nt[a] && d[b] == dt[b]);
            } else if a < nt.len() {
                assert(n[a] == nt[a]);
            } else {
                assert(d[b] == dt[b]);
            }
        }
    }
}

/// No two entries have one id.
pub open spec fn entry_ids_distinct<T>(s: Seq<CoEntryView<T>>) -> bool {
    forall|i: int, j: int| 0 <= i < s.len() && 0 <= j < s.len() && i != j ==> #[trigger] s[i].id != #[trigger] s[j].id
}

/// The polled ids are distinct.
pub open spec fn polls_distinct(obs: Seq<(u64, Status)>) -> bool {
    forall|i: int, j: int| 0 <= i < obs.len() && 0 <= j < obs.len() && i != j ==> #[trigger] obs[i].0 != #[trigger] obs[j].0
}

proof fn lemma_co_id_index<T>(s: Seq<CoEntryView<T>>, id: u64, i: int)
    requires
        entry_ids_distinct(s),
        0 <= i < s.len(),
        s[i].id == id,
    ensures
        co_id_index(s, id) == i,
{
    let j = co_id_index(s, id);
    assert(s[j].id == id);
}

/// Applying distinct poll answers changes only the polled entries, each by its
/// own answer, and keeps every id and path in place.
proof fn lemma_apply_polls<T>(es: Seq<CoEntryView<T>>, obs: Seq<(u64, Status)>)
    requires
        entry_ids_distinct(es),
        polls_distinct(obs),
    ensures
        apply_polls(es, obs).len() == es.len(),
        forall|k: int| 0 <= k < es.len() ==> (#[trigger] apply_polls(es, obs)[k]).id == es[k].id
            && apply_polls(es, obs)[k].path == es[k].path,
        forall|k: int| 0 <= k < es.len() && (forall|a: int| 0 <= a < obs.len() ==> obs[a].0 != es[k].id)
            ==> #[trigger] apply_polls(es, obs)[k] == es[k],
        forall|k: int, a: int| 0 <= k < es.len() && 0 <= a < obs.len() && obs[a].0 == es[k].id
            ==> #[trigger] apply_polls(es, obs)[k] == settle(es[k], #[trigger] obs[a].1),
    decreases obs.len(),
{
    if obs.len() > 0 {
        let o = obs.drop_last();
        let last = obs.last();
        assert(polls_distinct(o)) by {
            assert forall|i: int, j: int| 0 <= i < o.len() && 0 <= j < o.len() && i != j implies #[trigger] o[i].0 != #[trigger] o[j].0 by {
                assert(o[i] == obs[i] && o[j] == obs[j]);
            }
        }
        lemma_apply_polls(es, o);
        let r = apply_polls(es, o);
        assert(entry_ids_distinct(r)) by {
            assert forall|i: int, j: int| 0 <= i < r.len() && 0 <= j < r.len() && i != j implies #[trigger] r[i].id != #[trigger] r[j].id by {
                assert(r[i].id == es[i].id && r[j].id == es[j].id);
            }
        }
        assert(obs[obs.len() - 1] == last);
        assert forall|a: int| 0 <= a < o.len() implies #[trigger] o[a].0 != last.0 by {
            assert(o[a] == obs[a]);
        }
        let k0 = co_id_index(r, last.0);
        let f = apply_polls(es, obs);
        if k0 >= 0 {
            assert(r[k0].id == last.0);
            assert(f == r.update(k0, settle(r[k0], last.1)));
            assert(r[k0] == es[k0]);
        } else {
            assert(f == r);
        }
        assert forall|k: int| 0 <= k < es.len() implies (#[trigger] f[k]).id == es[k].id && f[k].path == es[k].path by {
            assert(r[k].id == es[k].id);
        }
        assert forall|k: int| 0 <= k < es.len() && (forall|a: int| 0 <= a < obs.len() ==> obs[a].0 != es[k].id)
            implies #[trigger] f[k] == es[k] by {
            assert forall|a: int| 0 <= a < o.len() implies o[a].0 != es[k].id by {
                assert(o[a] == obs[a]);
            }
            if k0 >= 0 && k == k0 {
                assert(obs[obs.len() - 1].0 == es[k].id);
            }
        }
        assert forall|k: int, a: int| 0 <= k < es.len() && 0 <= a < obs.len() && obs[a].0 == es[k].id
            implies #[trigger] f[k] == settle(es[k], #[trigger] obs[a].1) by {
            if a < o.len() {
                assert(o[a] == obs[a]);
                if k0 >= 0 && k == k0 {
                    assert(r[k0].id == last.0);
                    assert(false);
                }
            } else {
                assert(obs[a] == last);
                lemma_co_id_index(r, last.0, k);
            }
        }
    }
}

proof fn lemma_requeued(obs: Seq<(u64, Status)>, now: u64)
    requires
        polls_distinct(obs),
        now + CREATION_POLL_MS <= u64::MAX,
    ensures
        forall|a: int| 0 <= a < requeued(obs, now).len() ==> (#[trigger] requeued(obs, now)[a]).0 == now
            + CREATION_POLL_MS && exists|b: int| 0 <= b < obs.len() && obs[b].0 == requeued(obs, now)[a].1,
        queue_ids_distinct(requeued(obs, now)),
    decreases obs.len(),
{
    if obs.len() > 0 {
        let o = obs.drop_last();
        assert(polls_distinct(o)) by {
            assert forall|i: int, j: int| 0 <= i < o.len() && 0 <= j < o.len() && i != j implies #[trigger] o[i].0 != #[trigger] o[j].0 by {
                assert(o[i] == obs[i] && o[j] == obs[j]);
            }
        }
        lemma_requeued(o, now);
        let ro = requeued(o, now);
        let r = requeued(obs, now);
        assert(obs[obs.len() - 1] == obs.last());
        assert forall|a: int| 0 <= a < r.len() implies (#[trigger] r[a]).0 == now + CREATION_POLL_MS
            && exists|b: int| 0 <= b < obs.len() && obs[b].0 == r[a].1 by {
            if a < ro.len() {
                assert(r[a] == ro[a]);
                let b = choose|b: int| 0 <= b < o.len() && o[b].0 == ro[a].1;
                assert(obs[b] == o[b]);
            } else {
                assert(obs[obs.len() - 1].0 == r[a].1);
            }
        }
        assert forall|a: int| 0 <= a < ro.len() implies #[trigger] ro[a].1 != obs.last().0 by {
            let b = choose|b: int| 0 <= b < o.len() && o[b].0 == ro[a].1;
            assert(obs[b] == o[b]);
        }
        assert forall|i: int, j: int| 0 <= i < r.len() && 0 <= j < r.len() && i != j implies #[trigger] r[i].1 != #[trigger] r[j].1 by {
            if i < ro.len() && j < ro.len() {
                assert(r[i] == ro[i] && r[j] == ro[j]);
            } else if i < ro.len() {
                assert(r[i] == ro[i]);
            } else {
                assert(r[j] == ro[j]);
            }
        }
    }
}

/// After a scan at `now`, every creation left in the queue is due after `now`.
pub proof fn lemma_scan_leaves_later(c: Seq<(u64, u64)>, obs: Seq<(u64, Status)>, now: u64)
    requires
        queue_ids_distinct(c),
        polls_distinct(obs),
        now + CREATION_POLL_MS <= u64::MAX,
    ensures
        forall|i: int| 0 <= i < (not_due(c, now) + requeued(obs, now)).len() ==> (#[trigger] (not_due(c, now)
            + requeued(obs, now))[i]).0 > now,
{
    lemma_split(c, now);
    lemma_requeued(obs, now);
    let n = not_due(c, now);
    let r = requeued(obs, now);
    assert forall|i: int| 0 <= i < (n + r).len() implies (#[trigger] (n + r)[i]).0 > now by {
        if i < n.len() {
            assert((n + r)[i] == n[i]);
        } else {
            assert((n + r)[i] == r[i - n.len()]);
        }
    }
}

/// The state of the coroutine pool.
#[derive(Debug)]
pub struct CoState<T> {
    tags: Vec<CoEntry<T>>,
    creation: Vec<(u64, u64)>,
    next_id: u64,
    shutdown: bool,
}

impl<T> CoState<T> {
    /// The pool as its users see it.
    pub closed spec fn view(&self) -> CoStateView<T> {
        CoStateView {
            entries: self.tags@.map_values(|e: CoEntry<T>| e.view()),
            creation: self.creation@,
            next_id: self.next_id,
            shutdown: self.shutdown,
        }
    }

    /// Whether the pool is consistent.
    pub closed spec fn wf(&self) -> bool {
        co_wf(self.view())
    }

    /// an empty pool
    pub fn new() -> (p: Self)
        ensures
            p.wf(),
            p@.entries.len() == 0,
            p@.creation.len() == 0,
            p@.next_id == 0,
            !p@.shutdown,
    {
        let p = CoState { tags: Vec::new(), creation: Vec::new(), next_id: 0, shutdown: false };
        assert(p@.entries =~= Seq::<CoEntryView<T>>::empty());
        p
    }

    /// number of entries
    pub fn len(&self) -> (n: usize)
        ensures
            n == self@.entries.len(),
    {
        self.tags.len()
    }

    /// whether the pool is shut down
    pub fn is_shutdown(&self) -> (b: bool)
        ensures
            b == self@.shutdown,
    {
        self.shutdown
    }

    /// shut the pool down: creations are no longer polled
    pub fn shutdown(&mut self)
        requires
            old(self).wf(),
        ensures
            final(self).wf(),
            final(self)@.entries == old(self)@.entries,
            final(self)@.creation == old(self)@.creation,
            final(self)@.next_id == old(self)@.next_id,
            final(self)@.shutdown,
    {
        let ghost before = self@;
        self.shutdown = true;
        assert(self@.entries == before.entries);
        assert(self@.creation == before.creation);
        assert(co_wf(before));
    }

    fn find_path(&self, path: &String) -> (r: Option<usize>)
        requires
            self.wf(),
        ensures
            r matches Some(i) ==> i == co_path_index(self@.entries, path@),
            r is None ==> co_path_index(self@.entries, path@) == -1,
    {
        let mut i: usize = 0;
        while i < self.tags.len()
            invariant
                self.wf(),
                i <= self.tags.len(),
                forall|k: int| 0 <= k < i ==> self@.entries[k].path != path@,
            decreases self.tags.len() - i,
        {
            if self.tags[i].path == *path {
                proof {
                    let s = self@.entries;
                    let j = co_path_index(s, path@);
                    assert(s[i as int].path == path@);
                }
                return Some(i);
            }
            i = i + 1;
        }
        None
    }

    fn find_id(&self, id: u64) -> (r: Option<usize>)
        requires
            self.wf(),
        ensures
            r matches Some(i) ==> i == co_id_index(self@.entries, id),
            r is None ==> co_id_index(self@.entries, id) == -1,
    {
        let mut i: usize = 0;
        while i < self.tags.len()
            invariant
                self.wf(),
                i <= self.tags.len(),
                forall|k: int| 0 <= k < i ==> self@.entries[k].id != id,
            decreases self.tags.len() - i,
        {
            if self.tags[i].id == id {
                proof {
                    let s = self@.entries;
                    let j = co_id_index(s, id);
                    assert(s[j].id == id);
                    if j < i {
                        assert(s[j].id < s[i as int].id);
                    } else if i < j {
                        assert(s[i as int].id < s[j].id);
                    }
                }
                return Some(i);
            }
            i = i + 1;
        }
        None
    }

    /// the id the next entry will get
    pub fn next_id(&self) -> (n: u64)
        ensures
            n == self@.next_id,
    {
        self.next_id
    }

    /// ids of all entries, in the pool's order
    pub fn ids(&self) -> (r: Vec<u64>)
        ensures
            r@.len() == self@.entries.len(),
            forall|i: int| 0 <= i < r@.len() ==> r@[i] == #[trigger] self@.entries[i].id,
    {
        let mut r: Vec<u64> = Vec::new();
        let mut i: usize = 0;
        while i < self.tags.len()
            invariant
                i <= self.tags.len(),
                r@.len() == i,
                forall|k: int| 0 <= k < i ==> r@[k] == #[trigger] self@.entries[k].id,
            decreases self.tags.len() - i,
        {
            r.push(self.tags[i].id);
            i = i + 1;
        }
        r
    }

    /// whether the outcome of the creation of entry `id` can be handed to
    /// [`CoState::create_tag_task`]: the id was given by the pool, and is not
    /// queued for polling yet
    pub fn may_queue(&self, id: u64) -> (b: bool)
        ensures
            b == (id < self@.next_id && forall|i: int|
                0 <= i < self@.creation.len() ==> #[trigger] self@.creation[i].1 != id),
    {
        if id >= self.next_id {
            return false;
        }
        let mut i: usize = 0;
        while i < self.creation.len()
            invariant
                i <= self.creation.len(),
                forall|k: int| 0 <= k < i ==> #[trigger] self@.creation[k].1 != id,
            decreases self.creation.len() - i,
        {
            if self.creation[i].1 == id {
                assert(self@.creation[i as int].1 == id);
                return false;
            }
            i = i + 1;
        }
        true
    }

    /// the entry of a path
    pub fn get_tag_by_path(&self, path: &str) -> (r: Option<&CoEntry<T>>)
        requires
            self.wf(),
        ensures
            co_path_index(self@.entries, path@) == -1 ==> r is None,
            co_path_index(self@.entries, path@) >= 0 ==> (r matches Some(e) && e.view()
                == self@.entries[co_path_index(self@.entries, path@)]),
    {
        match self.find_path(&String::from_str(path)) {
            Some(i) => Some(&self.tags[i]),
            None => None,
        }
    }

    /// the entry with an id
    pub fn get_tag_by_id(&self, id: u64) -> (r: Option<&CoEntry<T>>)
        requires
            self.wf(),
        ensures
            co_id_index(self@.entries, id) == -1 ==> r is None,
            co_id_index(self@.entries, id) >= 0 ==> (r matches Some(e) && e.view()
                == self@.entries[co_id_index(self@.entries, id)]),
    {
        match self.find_id(id) {
            Some(i) => Some(&self.tags[i]),
            None => None,
        }
    }

    /// add an empty entry for a path that has none; returns its id
    pub fn add_tag(&mut self, path: &str) -> (id: u64)
        requires
            old(self).wf(),
            old(self)@.next_id < u64::MAX,
            co_path_index(old(self)@.entries, path@) == -1,
        ensures
            final(self).wf(),
            id == old(self)@.next_id,
            final(self)@.next_id == old(self)@.next_id + 1,
            final(self)@.entries == old(self)@.entries.push(
                CoEntryView { id, path: path@, tag: None, err: Ok(()), status: CREATION_EMPTY },
            ),
            final(self)@.creation == old(self)@.creation,
            final(self)@.shutdown == old(self)@.shutdown,
    {
        let id = self.next_id;
        let ghost before = self@;
        let ghost e = CoEntryView { id, path: path@, tag: None, err: Ok(()), status: CREATION_EMPTY };
        self.tags.push(
            CoEntry { id, path: String::from_str(path), tag: None, err: Ok(()), status: CREATION_EMPTY },
        );
        self.next_id = self.next_id + 1;
        proof {
            assert(self@.entries =~= before.entries.push(e));
            lemma_wf_push(before, e);
            assert(self@ == CoStateView { entries: before.entries.push(e), next_id: (before.next_id + 1) as u64, ..before });
        }
        id
    }

    /// get or add the entry of a path: returns its id, and whether it was
    /// added now (then its tag is to be created, see
    /// [`CoState::create_tag_task`])
    pub fn entry(&mut self, path: &str) -> (r: (u64, bool))
        requires
            old(self).wf(),
            old(self)@.next_id < u64::MAX,
        ensures
            final(self).wf(),
            final(self)@.creation == old(self)@.creation,
            final(self)@.shutdown == old(self)@.shutdown,
            ({
                let k = co_path_index(old(self)@.entries, path@);
                &&& k >= 0 ==> r == (old(self)@.entries[k].id, false) && final(self)@ == old(self)@
                &&& k == -1 ==> r == (old(self)@.next_id, true) && final(self)@.next_id == old(self)@.next_id
                    + 1 && final(self)@.entries == old(self)@.entries.push(
                    CoEntryView {
                        id: old(self)@.next_id,
                        path: path@,
                        tag: None,
                        err: Ok(()),
                        status: CREATION_EMPTY,
                    },
                )
            }),
    {
        match self.find_path(&String::from_str(path)) {
            Some(i) => (self.tags[i].id, false),
            None => {
                let id = self.add_tag(path);
                (id, true)
            },
        }
    }

    /// remove the entry of a path from the pool
    pub fn remove(&mut self, path: &str) -> (r: Option<CoEntry<T>>)
        requires
            old(self).wf(),
        ensures
            final(self).wf(),
            final(self)@.next_id == old(self)@.next_id,
            final(self)@.creation == old(self)@.creation,
            final(self)@.shutdown == old(self)@.shutdown,
            co_path_index(old(self)@.entries, path@) == -1 ==> r is None && final(self)@.entries
                == old(self)@.entries,
            co_path_index(old(self)@.entries, path@) >= 0 ==> (r matches Some(e) && e.view()
                == old(self)@.entries[co_path_index(old(self)@.entries, path@)]
                && final(self)@.entries == old(self)@.entries.remove(
                co_path_index(old(self)@.entries, path@),
            )),
    {
        match self.find_path(&String::from_str(path)) {
            Some(i) => {
                let ghost before = self@;
                let e = self.tags.remove(i);
                assert(self@.entries =~= before.entries.remove(i as int));
                proof {
                    lemma_wf_remove(before, i as int);
                    assert(self@ == CoStateView { entries: before.entries.remove(i as int), ..before });
                }
                Some(e)
            },
            None => None,
        }
    }

    /// queue a creation to poll at `when`, unless it is queued at that time
    fn queue(&mut self, when: u64, id: u64)
        requires
            old(self).wf(),
            forall|i: int| 0 <= i < old(self)@.creation.len() ==> #[trigger] old(self)@.creation[i].1
                != id,
            id < old(self)@.next_id,
        ensures
            final(self).wf(),
            final(self)@.creation == old(self)@.creation.push((when, id)),
            final(self)@.entries == old(self)@.entries,
            final(self)@.next_id == old(self)@.next_id,
            final(self)@.shutdown == old(self)@.shutdown,
    {
        let ghost old_c = self@.creation;
        self.creation.push((when, id));
        proof {
            let c = self@.creation;
            assert forall|i: int, j: int|
                0 <= i < c.len() && 0 <= j < c.len() && i != j implies #[trigger] c[i].1
                != #[trigger] c[j].1 by {
                if i < old_c.len() && j < old_c.len() {
                    assert(c[i] == old_c[i] && c[j] == old_c[j]);
                } else if i < old_c.len() {
                    assert(c[i] == old_c[i]);
                } else {
                    assert(c[j] == old_c[j]);
                }
            }
            assert forall|i: int| 0 <= i < c.len() implies #[trigger] c[i].1 < self.next_id by {
                if i < old_c.len() {
                    assert(c[i] == old_c[i]);
                }
            }
        }
    }

    /// replace the entry at a position by one with the same id and path
    fn put_at(&mut self, i: usize, e: CoEntry<T>)
        requires
            old(self).wf(),
            i < old(self)@.entries.len(),
            e.view().id == old(self)@.entries[i as int].id,
            e.view().path == old(self)@.entries[i as int].path,
            status_wf(e.view().status),
            e.view().status == CREATION_EMPTY ==> e.view().tag is None,
        ensures
            final(self).wf(),
            final(self)@.entries == old(self)@.entries.update(i as int, e.view()),
            final(self)@.creation == old(self)@.creation,
            final(self)@.next_id == old(self)@.next_id,
            final(self)@.shutdown == old(self)@.shutdown,
    {
        let ghost before = self@;
        self.tags.remove(i);
        self.tags.insert(i, e);
        assert(self@.entries =~= before.entries.update(i as int, e.view()));
        proof {
            lemma_wf_update(before, i as int, e.view());
            assert(self@ == CoStateView { entries: before.entries.update(i as int, e.view()), ..before });
        }
    }
}

impl<T: Initialize> CoState<T> {
    /// the creation of the tag of entry `id` answered `res` (see
    /// [`CoEntry::set_tag`]); a failed entry leaves the pool, a created one is
    /// queued to be polled; returns whether the pool's scanner is to be woken
    pub fn create_tag_task(&mut self, id: u64, res: Result<T, Error>, now: u64) -> (fire: bool)
        requires
            old(self).wf(),
            now + CREATION_POLL_MS <= u64::MAX,
            !(res matches Err(Error::TagError(s)) && s is Pending),
            forall|i: int| 0 <= i < old(self)@.creation.len() ==> #[trigger] old(self)@.creation[i].1
                != id,
            id < old(self)@.next_id,
        ensures
            final(self).wf(),
            final(self)@.next_id == old(self)@.next_id,
            final(self)@.shutdown == old(self)@.shutdown,
            fire == res is Ok,
            ({
                let k = co_id_index(old(self)@.entries, id);
                &&& res is Err ==> final(self)@.creation == old(self)@.creation && (k == -1
                    ==> final(self)@.entries == old(self)@.entries) && (k >= 0 ==> final(self)@.entries
                    == old(self)@.entries.remove(k))
                &&& res is Ok ==> final(self)@.creation == old(self)@.creation.push(
                    ((now + CREATION_POLL_MS) as u64, id),
                )
                &&& res matches Ok(t) ==> (k >= 0 && old(self)@.entries[k].status == CREATION_EMPTY
                    ==> final(self)@.entries == old(self)@.entries.update(
                    k,
                    CoEntryView { tag: Some(t), status: CREATION_HAS_INSTANCE, ..old(self)@.entries[k] },
                ))
                &&& res is Ok && (k == -1 || old(self)@.entries[k].status != CREATION_EMPTY)
                    ==> final(self)@.entries == old(self)@.entries
            }),
    {
        let has_err = res.is_err();
        match self.find_id(id) {
            Some(i) => {
                if has_err {
                    let ghost before = self@;
                    self.tags.remove(i);
                    assert(self@.entries =~= before.entries.remove(i as int));
                    proof {
                        lemma_wf_remove(before, i as int);
                        assert(self@ == CoStateView { entries: before.entries.remove(i as int), ..before });
                    }
                    return false;
                }
                let ghost before = self@;
                proof {
                    lemma_entry_wf(before, i as int);
                }
                let mut e = self.tags.remove(i);
                assert(e.view() == before.entries[i as int]);
                e.set_tag(res);
                self.tags.insert(i, e);
                assert(self@.entries =~= before.entries.update(i as int, e.view()));
                proof {
                    lemma_wf_update(before, i as int, e.view());
                    assert(self@ == CoStateView { entries: before.entries.update(i as int, e.view()), ..before });
                }
                self.queue(now + CREATION_POLL_MS, id);
                true
            },
            None => {
                if has_err {
                    return false;
                }
                self.queue(now + CREATION_POLL_MS, id);
                true
            },
        }
    }

    /// poll every creation whose time has come at `now`: a pending tag is
    /// polled again later, an OK or failed one ends its entry's creation; returns
    /// the earliest time left in the queue, and the answer of each poll (by id)
    #[verifier::spinoff_prover]
    #[verifier::rlimit(40)]
    pub fn scan_once(&mut self, now: u64) -> (r: (Option<u64>, Vec<(u64, Status)>))
        requires
            old(self).wf(),
            now + CREATION_POLL_MS <= u64::MAX,
        ensures
            final(self).wf(),
            final(self)@.next_id == old(self)@.next_id,
            final(self)@.shutdown == old(self)@.shutdown,
            old(self)@.shutdown ==> r.0 is None && r.1@.len() == 0 && final(self)@.entries == old(self)@.entries
                && final(self)@.creation == old(self)@.creation,
            !old(self)@.shutdown ==> ({
                let obs = r.1@;
                let due = due_ids(old(self)@.creation, now);
                &&& final(self)@.entries == apply_polls(old(self)@.entries, obs)
                &&& final(self)@.creation == not_due(old(self)@.creation, now) + requeued(obs, now)
                &&& r.0 == earliest_time(final(self)@.creation)
                &&& polls_distinct(obs)
                &&& forall|a: int| 0 <= a < obs.len() ==> polled_from_tag(
                    old(self)@.entries[co_id_index(old(self)@.entries, #[trigger] obs[a].0)],
                    obs[a].1,
                )
                &&& forall|a: int| 0 <= a < obs.len() ==> due.contains(#[trigger] obs[a].0)
                    && co_id_index(old(self)@.entries, obs[a].0) >= 0 && pollable(
                    old(self)@.entries[co_id_index(old(self)@.entries, obs[a].0)],
                )
                &&& forall|b: int| 0 <= b < due.len() && co_id_index(old(self)@.entries, #[trigger] due[b]) >= 0
                    && pollable(old(self)@.entries[co_id_index(old(self)@.entries, due[b])])
                    ==> exists|a: int| 0 <= a < obs.len() && obs[a].0 == due[b]
            }),
    {
        if self.shutdown {
            return (None, Vec::new());
        }
        let ghost orig = self@;
        proof {
            lemma_split(orig.creation, now);
        }
        let mut later: Vec<(u64, u64)> = Vec::new();
        let mut due: Vec<u64> = Vec::new();
        let mut i: usize = 0;
        while i < self.creation.len()
            invariant
                i <= self.creation.len(),
                self@ == orig,
                later@ == not_due(orig.creation.take(i as int), now),
                due@ == due_ids(orig.creation.take(i as int), now),
            decreases self.creation.len() - i,
        {
            let (when, id) = self.creation[i];
            proof {
                assert(orig.creation.take(i + 1).drop_last() =~= orig.creation.take(i as int));
                assert(orig.creation.take(i + 1).last() == orig.creation[i as int]);
            }
            if when > now {
                later.push((when, id));
            } else {
                due.push(id);
            }
            i = i + 1;
        }
        proof {
            assert(orig.creation.take(i as int) =~= orig.creation);
            assert(entry_ids_distinct(orig.entries)) by {
                assert forall|a: int, b: int| 0 <= a < orig.entries.len() && 0 <= b < orig.entries.len() && a != b
                    implies #[trigger] orig.entries[a].id != #[trigger] orig.entries[b].id by {
                    if a < b {
                        assert(orig.entries[a].id < orig.entries[b].id);
                    } else {
                        assert(orig.entries[b].id < orig.entries[a].id);
                    }
                }
            }
        }
        let mut observed: Vec<(u64, Status)> = Vec::new();
        let mut again: Vec<(u64, u64)> = Vec::new();
        let mut j: usize = 0;
        while j < due.len()
            invariant
                j <= due.len(),
                now + CREATION_POLL_MS <= u64::MAX,
                self.wf(),
                self@.creation == orig.creation,
                self@.next_id == orig.next_id,
                self@.shutdown == orig.shutdown,
                due@ == due_ids(orig.creation, now),
                ids_distinct(due@),
                entry_ids_distinct(orig.entries),
                co_wf(orig),
                polls_distinct(observed@),
                self@.entries == apply_polls(orig.entries, observed@),
                again@ == requeued(observed@, now),
                forall|a: int| 0 <= a < observed@.len() ==> exists|b: int| 0 <= b < j && due@[b] == #[trigger] observed@[a].0,
                forall|a: int| 0 <= a < observed@.len() ==> co_id_index(orig.entries, #[trigger] observed@[a].0) >= 0
                    && pollable(orig.entries[co_id_index(orig.entries, observed@[a].0)]),
                forall|a: int| 0 <= a < observed@.len() ==> polled_from_tag(
                    orig.entries[co_id_index(orig.entries, #[trigger] observed@[a].0)],
                    observed@[a].1,
                ),
                forall|b: int| 0 <= b < j && co_id_index(orig.entries, #[trigger] due@[b]) >= 0
                    && pollable(orig.entries[co_id_index(orig.entries, due@[b])])
                    ==> exists|a: int| 0 <= a < observed@.len() && observed@[a].0 == due@[b],
            decreases due.len() - j,
        {
            let id = due[j];
            proof {
                lemma_apply_polls(orig.entries, observed@);
                assert forall|a: int| 0 <= a < observed@.len() implies #[trigger] observed@[a].0 != id by {
                    let b = choose|b: int| 0 <= b < j && due@[b] == observed@[a].0;
                }
            }
            match self.find_id(id) {
                Some(k) => {
                    proof {
                        let cur = self@.entries;
                        assert(cur[k as int].id == orig.entries[k as int].id);
                        lemma_co_id_index(orig.entries, id, k as int);
                        assert(cur[k as int] == orig.entries[k as int]);
                    }
                    match self.tags[k].check_status() {
                        Some(st) => {
                            let ghost before = self@;
                            proof {
                                assert(self.tags@[k as int].view() == before.entries[k as int]);
                                assert(before.entries[k as int] == orig.entries[k as int]);
                                assert(polled_from_tag(orig.entries[k as int], st));
                            }
                            proof {
                                lemma_entry_wf(before, k as int);
                            }
                            let mut e = self.tags.remove(k);
                            assert(e.view() == before.entries[k as int]);
                            match st {
                                Status::Pending => {},
                                Status::Success => {
                                    e.set_err(Ok(()));
                                },
                                Status::Error(_) => {
                                    e.set_err(Err(Error::TagError(st)));
                                },
                            }
                            assert(e.view() == settle(before.entries[k as int], st));
                            self.tags.insert(k, e);
                            proof {
                                assert(self@.entries =~= before.entries.update(k as int, e.view()));
                                lemma_bits(before.entries[k as int].status);
                                lemma_wf_update(before, k as int, e.view());
                                assert(self@ == CoStateView { entries: before.entries.update(k as int, e.view()), ..before });
                            }
                            let ghost obs_before = observed@;
                            observed.push((id, st));
                            if st.is_pending() {
                                again.push((now + CREATION_POLL_MS, id));
                            }
                            proof {
                                let obs = observed@;
                                assert(obs.drop_last() =~= obs_before);
                                assert(obs.last() == (id, st));
                                lemma_co_id_index(before.entries, id, k as int);
                                assert(self@.entries == apply_poll(before.entries, id, st));
                                assert forall|x: int, y: int| 0 <= x < obs.len() && 0 <= y < obs.len() && x != y implies #[trigger] obs[x].0 != #[trigger] obs[y].0 by {
                                    if x < obs_before.len() && y < obs_before.len() {
                                        assert(obs[x] == obs_before[x] && obs[y] == obs_before[y]);
                                    } else if x < obs_before.len() {
                                        assert(obs[x] == obs_before[x]);
                                    } else {
                                        assert(obs[y] == obs_before[y]);
                                    }
                                }
                                assert forall|a: int| 0 <= a < obs.len() implies exists|b: int| 0 <= b < j + 1 && due@[b] == #[trigger] obs[a].0 by {
                                    if a < obs_before.len() {
                                        assert(obs[a] == obs_before[a]);
                                        let b = choose|b: int| 0 <= b < j && due@[b] == obs_before[a].0;
                                    } else {
                                        assert(due@[j as int] == obs[a].0);
                                    }
                                }
                                assert forall|a: int| 0 <= a < obs.len() implies co_id_index(orig.entries, #[trigger] obs[a].0) >= 0
                                    && pollable(orig.entries[co_id_index(orig.entries, obs[a].0)]) by {
                                    if a < obs_before.len() {
                                        assert(obs[a] == obs_before[a]);
                                    }
                                }
                                assert forall|a: int| 0 <= a < obs.len() implies polled_from_tag(
                                    orig.entries[co_id_index(orig.entries, #[trigger] obs[a].0)],
                                    obs[a].1,
                                ) by {
                                    if a < obs_before.len() {
                                        assert(obs[a] == obs_before[a]);
                                    } else {
                                        lemma_co_id_index(orig.entries, id, k as int);
                                        assert(polled_from_tag(orig.entries[k as int], st));
                                    }
                                }
                                assert forall|b: int| 0 <= b < j + 1 && co_id_index(orig.entries, #[trigger] due@[b]) >= 0
                                    && pollable(orig.entries[co_id_index(orig.entries, due@[b])])
                                    implies exists|a: int| 0 <= a < obs.len() && obs[a].0 == due@[b] by {
                                    if b < j {
                                        let a = choose|a: int| 0 <= a < obs_before.len() && obs_before[a].0 == due@[b];
                                        assert(obs[a] == obs_before[a]);
                                    } else {
                                        assert(obs[obs.len() - 1].0 == due@[b]);
                                    }
                                }
                            }
                        },
                        None => {
                            proof {
                                lemma_co_id_index(orig.entries, id, k as int);
                                assert(!pollable(orig.entries[k as int]));
                            }
                        },
                    }
                },
                None => {
                    proof {
                        if co_id_index(orig.entries, id) >= 0 {
                            let k = co_id_index(orig.entries, id);
                            assert(self@.entries[k].id == id);
                        }
                    }
                },
            }
            j = j + 1;
        }
        proof {
            lemma_requeued(observed@, now);
            lemma_apply_polls(orig.entries, observed@);
        }
        let ghost before = self@;
        let mut queue = later;
        let mut rest = again;
        queue.append(&mut rest);
        self.creation = queue;
        proof {
            let c = self@.creation;
            let n = not_due(orig.creation, now);
            let rq = requeued(observed@, now);
            assert(c =~= n + rq);
            assert forall|x: int| 0 <= x < rq.len() implies #[trigger] rq[x].1 < orig.next_id && forall|y: int| 0 <= y < n.len() ==> n[y].1 != rq[x].1 by {
                let b0 = choose|b: int| 0 <= b < observed@.len() && observed@[b].0 == rq[x].1;
                let b1 = choose|b: int| 0 <= b < due@.len() && due@[b] == observed@[b0].0;
                assert forall|y: int| 0 <= y < n.len() implies n[y].1 != rq[x].1 by {
                    assert(n[y].1 != due@[b1]);
                }
                let k = co_id_index(orig.entries, rq[x].1);
                assert(orig.entries[k].id < orig.next_id);
            }
            assert forall|x: int, y: int| 0 <= x < c.len() && 0 <= y < c.len() && x != y implies #[trigger] c[x].1 != #[trigger] c[y].1 by {
                if x < n.len() && y < n.len() {
                    assert(c[x] == n[x] && c[y] == n[y]);
                } else if x < n.len() {
                    assert(c[x] == n[x] && c[y] == rq[y - n.len()]);
                } else if y < n.len() {
                    assert(c[y] == n[y] && c[x] == rq[x - n.len()]);
                } else {
                    assert(c[x] == rq[x - n.len()] && c[y] == rq[y - n.len()]);
                }
            }
            assert forall|x: int| 0 <= x < c.len() implies #[trigger] c[x].1 < orig.next_id by {
                if x < n.len() {
                    assert(c[x] == n[x]);
                    assert(orig.creation.contains(n[x]));
                } else {
                    assert(c[x] == rq[x - n.len()]);
                }
            }
            assert(co_wf(self@));
        }
        let next = self.earliest();
        (next, observed)
    }

    /// the earliest time in the creation queue
    fn earliest(&self) -> (r: Option<u64>)
        ensures
            r == earliest_time(self@.creation),
    {
        let mut r: Option<u64> = None;
        let mut i: usize = 0;
        while i < self.creation.len()
            invariant
                i <= self.creation.len(),
                r == earliest_time(self@.creation.take(i as int)),
            decreases self.creation.len() - i,
        {
            let (when, _) = self.creation[i];
            proof {
                assert(self@.creation.take(i + 1).drop_last() =~= self@.creation.take(i as int));
                assert(self@.creation.take(i + 1).last() == self@.creation[i as int]);
            }
            r = match r {
                None => Some(when),
                Some(a) => Some(
                    if a <= when {
                        a
                    } else {
                        when
                    },
                ),
            };
            i = i + 1;
        }
        proof {
            assert(self@.creation.take(i as int) =~= self@.creation);
        }
        r
    }
}

proof fn lemma_wf_remove<T>(v: CoStateView<T>, k: int)
    requires
        co_wf(v),
        0 <= k < v.entries.len(),
    ensures
        co_wf(CoStateView { entries: v.entries.remove(k), ..v }),
{
    let s = v.entries;
    let t = s.remove(k);
    assert forall|i: int| 0 <= i < t.len() implies #[trigger] t[i] == s[if i < k { i } else { i + 1 }] by {}
    assert forall|i: int, j: int| 0 <= i < j < t.len() implies #[trigger] t[i].id < #[trigger] t[j].id by {
        assert(t[i] == s[if i < k { i } else { i + 1 }]);
        assert(t[j] == s[if j < k { j } else { j + 1 }]);
    }
    assert forall|i: int, j: int|
        0 <= i < t.len() && 0 <= j < t.len() && i != j implies #[trigger] t[i].path != #[trigger] t[j].path by {
        assert(t[i] == s[if i < k { i } else { i + 1 }]);
        assert(t[j] == s[if j < k { j } else { j + 1 }]);
    }
    assert forall|i: int| 0 <= i < t.len() implies #[trigger] t[i].id < v.next_id && status_wf(t[i].status)
        && (t[i].status == CREATION_EMPTY ==> t[i].tag is None) by {
        assert(t[i] == s[if i < k { i } else { i + 1 }]);
    }
}

proof fn lemma_wf_update<T>(v: CoStateView<T>, k: int, e: CoEntryView<T>)
    requires
        co_wf(v),
        0 <= k < v.entries.len(),
        e.id == v.entries[k].id,
        e.path == v.entries[k].path,
        status_wf(e.status),
        e.status == CREATION_EMPTY ==> e.tag is None,
    ensures
        co_wf(CoStateView { entries: v.entries.update(k, e), ..v }),
{
    let s = v.entries;
    let t = s.update(k, e);
    assert forall|i: int| 0 <= i < t.len() implies #[trigger] t[i].id == s[i].id && t[i].path == s[i].path
        && status_wf(t[i].status) && (t[i].status == CREATION_EMPTY ==> t[i].tag is None) by {}
    assert forall|i: int, j: int| 0 <= i < j < t.len() implies #[trigger] t[i].id < #[trigger] t[j].id by {
        assert(t[i].id == s[i].id && t[j].id == s[j].id);
    }
    assert forall|i: int, j: int|
        0 <= i < t.len() && 0 <= j < t.len() && i != j implies #[trigger] t[i].path != #[trigger] t[j].path by {
        assert(t[i].path == s[i].path && t[j].path == s[j].path);
    }
    assert forall|i: int| 0 <= i < t.len() implies #[trigger] t[i].id < v.next_id by {
        assert(t[i].id == s[i].id);
    }
}

proof fn lemma_wf_push<T>(v: CoStateView<T>, e: CoEntryView<T>)
    requires
        co_wf(v),
        v.next_id < u64::MAX,
        e.id == v.next_id,
        co_path_index(v.entries, e.path) == -1,
        status_wf(e.status),
        e.status == CREATION_EMPTY ==> e.tag is None,
    ensures
        co_wf(CoStateView { entries: v.entries.push(e), next_id: (v.next_id + 1) as u64, ..v }),
{
    let s = v.entries;
    let t = s.push(e);
    assert forall|i: int| 0 <= i < s.len() implies #[trigger] t[i] == s[i] by {}
    assert forall|i: int| 0 <= i < s.len() implies #[trigger] s[i].path != e.path by {
        if s[i].path == e.path {
            assert(exists|j: int| 0 <= j < s.len() && s[j].path == e.path);
        }
    }
    assert forall|i: int, j: int| 0 <= i < j < t.len() implies #[trigger] t[i].id < #[trigger] t[j].id by {
        assert(t[i] == s[i]);
        if j < s.len() {
            assert(t[j] == s[j]);
        }
    }
    assert forall|i: int, j: int|
        0 <= i < t.len() && 0 <= j < t.len() && i != j implies #[trigger] t[i].path != #[trigger] t[j].path by {
        if i < s.len() && j < s.len() {
            assert(t[i] == s[i] && t[j] == s[j]);
        } else if i < s.len() {
            assert(t[i] == s[i]);
        } else {
            assert(t[j] == s[j]);
        }
    }
    assert forall|i: int| 0 <= i < v.creation.len() implies #[trigger] v.creation[i].1 < v.next_id + 1 by {}
    assert forall|i: int| 0 <= i < t.len() implies #[trigger] t[i].id < v.next_id + 1 && status_wf(t[i].status)
        && (t[i].status == CREATION_EMPTY ==> t[i].tag is None) by {
        if i < s.len() {
            assert(t[i] == s[i]);
        }
    }
}

/// One instance per path: once [`CoState::entry`] has added the entry of a
/// path, the pool finds that entry by the path, so a later `entry` for the path
/// gives the same id without adding another.
pub proof fn lemma_co_added_entry_found<T>(v: CoStateView<T>, path: Seq<char>)
    requires
        co_wf(v),
        co_path_index(v.entries, path) == -1,
        v.next_id < u64::MAX,
    ensures
        ({
            let e = CoEntryView { id: v.next_id, path, tag: None, err: Ok(()), status: CREATION_EMPTY };
            let t = v.entries.push(e);
            &&& co_wf(CoStateView { entries: t, next_id: (v.next_id + 1) as u64, ..v })
            &&& co_path_index(t, path) == v.entries.len()
            &&& t[co_path_index(t, path)].id == v.next_id
        }),
{
    let e = CoEntryView::<T> { id: v.next_id, path, tag: None, err: Ok(()), status: CREATION_EMPTY };
    let t = v.entries.push(e);
    lemma_bits(CREATION_EMPTY);
    lemma_wf_push(v, e);
    assert(t[v.entries.len() as int] == e);
    let j = co_path_index(t, path);
    if j != v.entries.len() {
        assert(t[j].path == path);
        assert(t[j] == v.entries[j]);
    }
}

proof fn lemma_entry_wf<T>(v: CoStateView<T>, i: int)
    requires
        co_wf(v),
        0 <= i < v.entries.len(),
    ensures
        status_wf(v.entries[i].status),
        v.entries[i].status == CREATION_EMPTY ==> v.entries[i].tag is None,
{
}

/// Only a creation whose poll answered pending is queued again: a poll that
/// answered OK or an error ends its creation, and no queued creation names it.
pub proof fn lemma_only_pending_requeued(obs: Seq<(u64, Status)>, now: u64)
    requires
        polls_distinct(obs),
    ensures
        forall|b: int, a: int|
            0 <= b < obs.len() && !(obs[b].1 is Pending) && 0 <= a < requeued(obs, now).len()
                ==> #[trigger] requeued(obs, now)[a].1 != #[trigger] obs[b].0,
        forall|a: int|
            0 <= a < requeued(obs, now).len() ==> #[trigger] requeued(obs, now)[a].0 == (now
                + CREATION_POLL_MS) as u64,
    decreases obs.len(),
{
    if obs.len() > 0 {
        let t = obs.drop_last();
        assert forall|x: int, y: int| 0 <= x < t.len() && 0 <= y < t.len() && x != y implies #[trigger] t[x].0
            != #[trigger] t[y].0 by {
            assert(t[x] == obs[x] && t[y] == obs[y]);
        }
        lemma_only_pending_requeued(t, now);
        let r = requeued(obs, now);
        let rt = requeued(t, now);
        let last = obs.len() - 1;
        assert(obs[last] == obs.last());
        if obs.last().1 is Pending {
            assert(r == rt.push(((now + CREATION_POLL_MS) as u64, obs.last().0)));
        } else {
            assert(r == rt);
        }
        assert forall|b: int, a: int|
            0 <= b < obs.len() && !(obs[b].1 is Pending) && 0 <= a < r.len() implies #[trigger] r[a].1
            != #[trigger] obs[b].0 by {
            if a < rt.len() {
                assert(r[a] == rt[a]);
                if b < t.len() {
                    assert(obs[b] == t[b]);
                    assert(rt[a].1 != t[b].0);
                } else {
                    // the last poll answered OK or an error, so it is not queued
                    assert(b == last);
                    assert(r == rt);
                    lemma_requeued_names_polls(t, now, a);
                    let c = choose|c: int| 0 <= c < t.len() && t[c].0 == rt[a].1;
                    assert(obs[c] == t[c]);
                    assert(c != last);
                }
            } else {
                assert(obs.last().1 is Pending);
                assert(r[a].1 == obs[last].0);
                assert(b != last);
            }
        }
        assert forall|a: int| 0 <= a < r.len() implies #[trigger] r[a].0 == (now + CREATION_POLL_MS) as u64 by {
            if a < rt.len() {
                assert(r[a] == rt[a]);
            }
        }
    }
}

/// Every queued creation names one of the polls.
proof fn lemma_requeued_names_polls(obs: Seq<(u64, Status)>, now: u64, a: int)
    requires
        0 <= a < requeued(obs, now).len(),
    ensures
        exists|c: int| 0 <= c < obs.len() && obs[c].0 == requeued(obs, now)[a].1,
    decreases obs.len(),
{
    let t = obs.drop_last();
    let r = requeued(obs, now);
    let rt = requeued(t, now);
    if obs.last().1 is Pending {
        assert(r == rt.push(((now + CREATION_POLL_MS) as u64, obs.last().0)));
    } else {
        assert(r == rt);
    }
    if a < rt.len() {
        assert(r[a] == rt[a]);
        lemma_requeued_names_polls(t, now, a);
        let c = choose|c: int| 0 <= c < t.len() && t[c].0 == rt[a].1;
        assert(obs[c] == t[c]);
    } else {
        assert(obs[obs.len() - 1] == obs.last());
    }
}

} // verus!
