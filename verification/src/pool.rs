//! The state of a pool of tags, shared by path: which tags exist, how their
//! creation ended, and when each of them expires.

use vstd::prelude::*;
use vstd::string::StringExecFns;
use crate::status::Status;

verus! {

/// errors of the asynchronous pool
#[derive(Debug, Clone, Copy, PartialEq, Eq, Structural)]
pub enum Error {
    /// tag error with status
    TagError(Status),
    /// a task of the pool could not be joined
    JoinError,
}

impl From<Status> for Error {
    fn from(s: Status) -> (e: Error) {
        Error::TagError(s)
    }
}

impl vstd::std_specs::convert::FromSpecImpl<Status> for Error {
    open spec fn obeys_from_spec() -> bool {
        true
    }

    open spec fn from_spec(s: Status) -> Error {
        Error::TagError(s)
    }
}

/// What the scan task does after a scan.
#[derive(Debug, Clone, Copy, PartialEq, Eq, Structural)]
pub enum ScanNext {
    /// an entry is still pending: scan again after a moment
    Again,
    /// nothing is pending: wait until an entry is added
    Wait,
    /// nothing is pending and the pool is shut down: the task ends
    Stop,
}

/// what the scan task does after a scan that left an entry pending or not, in
/// a pool shut down or not
pub fn scan_next(any_pending: bool, shutdown: bool) -> (n: ScanNext)
    ensures
        any_pending ==> n == ScanNext::Again,
        !any_pending && shutdown ==> n == ScanNext::Stop,
        !any_pending && !shutdown ==> n == ScanNext::Wait,
{
    if any_pending {
        ScanNext::Again
    } else if shutdown {
        ScanNext::Stop
    } else {
        ScanNext::Wait
    }
}

/// How a kind of tag is created and polled, for a pool of such tags.
pub trait Initialize: Sized {
    /// create a tag for a path
    fn create(path: String) -> Result<Self, Status>;

    /// the status of the tag's creation
    fn status(&self) -> Status;
}

/// The periods of a pool, in milliseconds.
#[derive(Debug, Clone, Copy, PartialEq, Eq, Structural)]
pub struct PoolOptions {
    expire_after: u64,
    fault_last: u64,
}

impl PoolOptions {
    /// default options: entries expire 60 seconds after their last use, and a
    /// failed creation stays in the pool for 1 second
    pub fn new() -> (o: PoolOptions)
        ensures
            o.spec_expire_after() == 60_000,
            o.spec_fault_last() == 1_000,
    {
        PoolOptions { expire_after: 60_000, fault_last: 1_000 }
    }

    /// How long an unused entry stays, in milliseconds.
    pub closed spec fn spec_expire_after(&self) -> u64 {
        self.expire_after
    }

    /// How long a failed entry stays, in milliseconds.
    pub closed spec fn spec_fault_last(&self) -> u64 {
        self.fault_last
    }

    /// how long an unused entry stays, in milliseconds (default for 60 seconds)
    pub fn expire_after(self, period_ms: u64) -> (o: PoolOptions)
        ensures
            o.spec_expire_after() == period_ms,
            o.spec_fault_last() == self.spec_fault_last(),
    {
        PoolOptions { expire_after: period_ms, ..self }
    }

    /// how long a failed entry stays, in milliseconds
    pub fn fault_last(self, period_ms: u64) -> (o: PoolOptions)
        ensures
            o.spec_fault_last() == period_ms,
            o.spec_expire_after() == self.spec_expire_after(),
    {
        PoolOptions { fault_last: period_ms, ..self }
    }

    /// how long an unused entry stays, in milliseconds
    pub fn expire_after_ms(&self) -> (ms: u64)
        ensures
            ms == self.spec_expire_after(),
    {
        self.expire_after
    }

    /// how long a failed entry stays, in milliseconds
    pub fn fault_last_ms(&self) -> (ms: u64)
        ensures
            ms == self.spec_fault_last(),
    {
        self.fault_last
    }
}

impl Default for PoolOptions {
    fn default() -> (o: PoolOptions)
        ensures
            o.spec_expire_after() == 60_000,
            o.spec_fault_last() == 1_000,
    {
        PoolOptions::new()
    }
}

/// One tag of a pool.
#[derive(Debug)]
pub struct PoolEntry<T> {
    id: u64,
    path: String,
    tag: T,
    err_status: Option<Status>,
    will_expire: Option<u64>,
}

/// What a pool holds of one tag.
pub struct EntryView<T> {
    /// unique id of the entry
    pub id: u64,
    /// the path it was created for
    pub path: Seq<char>,
    /// the tag
    pub tag: T,
    /// how its creation ended, once it has
    pub err_status: Option<Status>,
    /// when it will be dropped from the pool, if it will
    pub will_expire: Option<u64>,
}

impl<T> PoolEntry<T> {
    /// The entry as the pool sees it.
    pub closed spec fn view(&self) -> EntryView<T> {
        EntryView {
            id: self.id,
            path: self.path@,
            tag: self.tag,
            err_status: self.err_status,
            will_expire: self.will_expire,
        }
    }

    /// unique id of this entry
    pub fn id(&self) -> (id: u64)
        ensures
            id == self.view().id,
    {
        self.id
    }

    /// the path this entry was created for
    pub fn path(&self) -> (p: &str)
        ensures
            p@ == self.view().path,
    {
        self.path.as_str()
    }

    /// the tag
    pub fn tag(&self) -> (t: &T)
        ensures
            *t == self.view().tag,
    {
        &self.tag
    }

    /// how the creation of the tag ended, once it has
    pub fn err_status(&self) -> (s: Option<Status>)
        ensures
            s == self.view().err_status,
    {
        self.err_status
    }

    /// whether the creation of the tag failed
    pub fn is_err(&self) -> (b: bool)
        ensures
            b == failed(self.view()),
    {
        match self.err_status {
            Some(s) => s.is_err(),
            None => false,
        }
    }

    /// when the entry will be dropped from the pool, if it will
    pub fn will_expire(&self) -> (w: Option<u64>)
        ensures
            w == self.view().will_expire,
    {
        self.will_expire
    }
}

/// Whether the creation of an entry's tag failed.
pub open spec fn failed<T>(e: EntryView<T>) -> bool {
    e.err_status matches Some(s) && s is Error
}

/// The entries of a pool, the next id it gives and whether it is shut down.
pub struct PoolView<T> {
    pub entries: Seq<EntryView<T>>,
    pub next_id: u64,
    pub shutdown: bool,
}

/// The pool state of all tags: entries by path, and their expirations.
#[derive(Debug)]
pub struct PoolState<T> {
    entries: Vec<PoolEntry<T>>,
    next_id: u64,
    shutdown: bool,
    options: PoolOptions,
}

/// The entry views of a sequence of entries.
pub open spec fn views<T>(s: Seq<PoolEntry<T>>) -> Seq<EntryView<T>> {
    s.map_values(|e: PoolEntry<T>| e.view())
}

/// Ids increase along the entries and stay below the next id; no two entries
/// have the same path.
pub open spec fn entries_wf<T>(s: Seq<EntryView<T>>, next_id: u64) -> bool {
    &&& forall|i: int, j: int| 0 <= i < j < s.len() ==> #[trigger] s[i].id < #[trigger] s[j].id
    &&& forall|i: int| 0 <= i < s.len() ==> #[trigger] s[i].id < next_id
    &&& forall|i: int, j: int|
        0 <= i < s.len() && 0 <= j < s.len() && i != j ==> #[trigger] s[i].path != #[trigger] s[j].path
}

/// The position of the entry with a path, or -1.
pub open spec fn path_index<T>(s: Seq<EntryView<T>>, path: Seq<char>) -> int {
    if exists|i: int| 0 <= i < s.len() && s[i].path == path {
        choose|i: int| 0 <= i < s.len() && s[i].path == path
    } else {
        -1
    }
}

/// The position of the entry with an id, or -1.
pub open spec fn id_index<T>(s: Seq<EntryView<T>>, id: u64) -> int {
    if exists|i: int| 0 <= i < s.len() && s[i].id == id {
        choose|i: int| 0 <= i < s.len() && s[i].id == id
    } else {
        -1
    }
}

/// Whether an entry's expiration has come at `now`.
pub open spec fn expired_at<T>(e: EntryView<T>, now: u64) -> bool {
    e.will_expire matches Some(w) && w <= now
}

/// The entries whose expiration has not come at `now`, in their order.
pub open spec fn keep_alive<T>(s: Seq<EntryView<T>>, now: u64) -> Seq<EntryView<T>>
    decreases s.len(),
{
    if s.len() == 0 {
        s
    } else if expired_at(s.last(), now) {
        keep_alive(s.drop_last(), now)
    } else {
        keep_alive(s.drop_last(), now).push(s.last())
    }
}

/// The status polled for an entry's id, if a poll names it.
pub open spec fn poll_of(polls: Seq<(u64, Status)>, id: u64) -> Option<Status> {
    if exists|a: int| 0 <= a < polls.len() && polls[a].0 == id {
        Some(polls[choose|a: int| 0 <= a < polls.len() && polls[a].0 == id].1)
    } else {
        None
    }
}

/// Whether a status is what the tag answered when polled.
pub open spec fn polled_from<T: Initialize>(tag: T, s: Status) -> bool {
    call_ensures(T::status, (&tag,), s)
}

/// The ids of the entries whose creation has not ended, in order.
pub open spec fn pending_ids<T>(s: Seq<EntryView<T>>) -> Seq<u64>
    decreases s.len(),
{
    if s.len() == 0 {
        Seq::empty()
    } else if pending(s.last()) {
        pending_ids(s.drop_last()).push(s.last().id)
    } else {
        pending_ids(s.drop_last())
    }
}

/// The ids of polls, in order.
pub open spec fn poll_ids(polls: Seq<(u64, Status)>) -> Seq<u64> {
    polls.map_values(|p: (u64, Status)| p.0)
}

/// An entry after a scan whose polls are `polls`: an entry whose creation has
/// ended, or whose tag still answered pending, stays as it is; else it keeps
/// the status its tag answered, and a failed one expires `fault_last` after
/// `now` unless the pool is shut down.
pub open spec fn settled<T>(
    e: EntryView<T>,
    polls: Seq<(u64, Status)>,
    now: u64,
    fault_last: u64,
    shutdown: bool,
) -> EntryView<T> {
    if !pending(e) {
        e
    } else {
        match poll_of(polls, e.id) {
            Some(s) => if s is Pending {
                e
            } else {
                EntryView {
                    err_status: Some(s),
                    will_expire: if s is Error && !shutdown {
                        Some((now + fault_last) as u64)
                    } else {
                        e.will_expire
                    },
                    ..e
                }
            },
            None => e,
        }
    }
}

/// A poll added for a new, greater id names that id with its status, and
/// leaves what the polls say of every other id.
proof fn lemma_poll_of_push(polls: Seq<(u64, Status)>, x: (u64, Status), id: u64)
    requires
        forall|a: int, b: int| 0 <= a < b < polls.len() ==> #[trigger] polls[a].0 < #[trigger] polls[b].0,
        forall|a: int| 0 <= a < polls.len() ==> #[trigger] polls[a].0 < x.0,
    ensures
        id == x.0 ==> poll_of(polls.push(x), id) == Some(x.1),
        id != x.0 ==> poll_of(polls.push(x), id) == poll_of(polls, id),
{
    let t = polls.push(x);
    if id == x.0 {
        assert(t[polls.len() as int].0 == id);
        let a = choose|a: int| 0 <= a < t.len() && t[a].0 == id;
        if a < polls.len() {
            assert(t[a] == polls[a]);
        }
    } else {
        if exists|a: int| 0 <= a < t.len() && t[a].0 == id {
            let a = choose|a: int| 0 <= a < t.len() && t[a].0 == id;
            assert(a < polls.len());
            assert(t[a] == polls[a]);
            assert(exists|b: int| 0 <= b < polls.len() && polls[b].0 == id);
            let b = choose|b: int| 0 <= b < polls.len() && polls[b].0 == id;
            if a < b {
                assert(polls[a].0 < polls[b].0);
            } else if b < a {
                assert(polls[b].0 < polls[a].0);
            }
        } else {
            assert forall|b: int| 0 <= b < polls.len() implies polls[b].0 != id by {
                assert(t[b] == polls[b]);
            }
        }
    }
}

/// Whether an entry's creation has not ended yet.
pub open spec fn pending<T>(e: EntryView<T>) -> bool {
    e.err_status is None
}

/// The earliest expiration among entries, if any entry will expire.
pub open spec fn earliest<T>(s: Seq<EntryView<T>>) -> Option<u64>
    decreases s.len(),
{
    if s.len() == 0 {
        None
    } else {
        match (earliest(s.drop_last()), s.last().will_expire) {
            (None, w) => w,
            (Some(a), None) => Some(a),
            (Some(a), Some(b)) => Some(if a <= b { a } else { b }),
        }
    }
}

/// Every kept entry is one of the entries, and none of them has expired.
proof fn lemma_keep_alive_members<T>(s: Seq<EntryView<T>>, now: u64)
    ensures
        keep_alive(s, now).len() <= s.len(),
        forall|i: int|
            0 <= i < keep_alive(s, now).len() ==> s.contains(#[trigger] keep_alive(s, now)[i])
                && !expired_at(keep_alive(s, now)[i], now),
    decreases s.len(),
{
    if s.len() > 0 {
        let t = s.drop_last();
        lemma_keep_alive_members(t, now);
        assert forall|i: int| 0 <= i < keep_alive(s, now).len() implies s.contains(
            #[trigger] keep_alive(s, now)[i],
        ) && !expired_at(keep_alive(s, now)[i], now) by {
            let k = keep_alive(s, now);
            if i < keep_alive(t, now).len() {
                let x = keep_alive(t, now)[i];
                assert(k[i] == x);
                assert(t.contains(x));
                let j = choose|j: int| 0 <= j < t.len() && t[j] == x;
                assert(s[j] == x);
            } else {
                assert(k[i] == s.last());
                assert(s[s.len() - 1] == s.last());
            }
        }
    }
}

/// Keeping the live entries keeps the pool consistent.
proof fn lemma_keep_alive_wf<T>(s: Seq<EntryView<T>>, next_id: u64, now: u64)
    requires
        entries_wf(s, next_id),
    ensures
        entries_wf(keep_alive(s, now), next_id),
    decreases s.len(),
{
    if s.len() > 0 {
        let t = s.drop_last();
        assert(entries_wf(t, next_id));
        lemma_keep_alive_wf(t, next_id, now);
        lemma_keep_alive_members(t, now);
        if !expired_at(s.last(), now) {
            let k = keep_alive(t, now);
            let last = s.last();
            assert forall|i: int| 0 <= i < k.len() implies #[trigger] k[i].id < last.id && k[i].path
                != last.path by {
                assert(t.contains(k[i]));
                let j = choose|j: int| 0 <= j < t.len() && t[j] == k[i];
                assert(s[j] == k[i]);
                assert(s[s.len() - 1] == last);
            }
            let kk = k.push(last);
            assert forall|i: int, j: int| 0 <= i < j < kk.len() implies #[trigger] kk[i].id
                < #[trigger] kk[j].id by {
                if j == kk.len() - 1 {
                    assert(kk[i] == k[i]);
                } else {
                    assert(kk[i] == k[i] && kk[j] == k[j]);
                }
            }
            assert forall|i: int, j: int|
                0 <= i < kk.len() && 0 <= j < kk.len() && i != j implies #[trigger] kk[i].path
                != #[trigger] kk[j].path by {
                if j == kk.len() - 1 {
                    assert(kk[i] == k[i]);
                } else if i == kk.len() - 1 {
                    assert(kk[j] == k[j]);
                } else {
                    assert(kk[i] == k[i] && kk[j] == k[j]);
                }
            }
            assert forall|i: int| 0 <= i < kk.len() implies #[trigger] kk[i].id < next_id by {
                if i < k.len() {
                    assert(kk[i] == k[i]);
                } else {
                    assert(s[s.len() - 1] == last);
                }
            }
        }
    }
}

/// The earliest expiration bounds every expiration, and belongs to an entry.
pub proof fn lemma_earliest<T>(s: Seq<EntryView<T>>)
    ensures
        earliest(s) is None <==> forall|i: int| 0 <= i < s.len() ==> #[trigger] s[i].will_expire is None,
        earliest(s) matches Some(t) ==> (forall|i: int| 0 <= i < s.len() ==> (#[trigger] s[i].will_expire matches Some(w) ==> t <= w)),
        earliest(s) matches Some(t) ==> exists|i: int| 0 <= i < s.len() && #[trigger] s[i].will_expire == Some(t),
    decreases s.len(),
{
    if s.len() > 0 {
        let t = s.drop_last();
        lemma_earliest(t);
        assert forall|i: int| 0 <= i < t.len() implies #[trigger] t[i] == s[i] by {}
        if let Some(e) = earliest(s) {
            assert forall|i: int| 0 <= i < s.len() implies (#[trigger] s[i].will_expire matches Some(
                w,
            ) ==> e <= w) by {
                if i < t.len() {
                    assert(t[i] == s[i]);
                } else {
                    assert(s[i] == s.last());
                }
            }
            if earliest(t) == Some(e) {
                let i = choose|i: int| 0 <= i < t.len() && #[trigger] t[i].will_expire == Some(e);
                assert(s[i].will_expire == Some(e));
            } else {
                assert(s[s.len() - 1].will_expire == Some(e));
            }
        }
        if earliest(s) is None {
            assert(earliest(t) is None);
            assert forall|i: int| 0 <= i < s.len() implies #[trigger] s[i].will_expire is None by {
                if i < t.len() {
                    assert(t[i] == s[i]);
                } else {
                    assert(s[i] == s.last());
                }
            }
        }
        if forall|i: int| 0 <= i < s.len() ==> #[trigger] s[i].will_expire is None {
            assert(s[s.len() - 1].will_expire is None);
            assert forall|i: int| 0 <= i < t.len() implies #[trigger] t[i].will_expire is None by {
                assert(s[i].will_expire is None);
            }
        }
    }
}

/// Purging at `now` keeps exactly the entries whose expiration has not come,
/// and the earliest expiration left lies after `now`.
pub proof fn lemma_purge_keeps_live<T>(s: Seq<EntryView<T>>, now: u64)
    ensures
        forall|i: int| 0 <= i < keep_alive(s, now).len() ==> s.contains(#[trigger] keep_alive(s, now)[i]),
        forall|i: int| 0 <= i < keep_alive(s, now).len() ==> !expired_at(#[trigger] keep_alive(s, now)[i], now),
        forall|i: int| 0 <= i < s.len() && !expired_at(#[trigger] s[i], now) ==> keep_alive(s, now).contains(s[i]),
        earliest(keep_alive(s, now)) matches Some(t) ==> t > now,
    decreases s.len(),
{
    lemma_keep_alive_members(s, now);
    let k = keep_alive(s, now);
    lemma_earliest(k);
    if let Some(t) = earliest(k) {
        let i = choose|i: int| 0 <= i < k.len() && #[trigger] k[i].will_expire == Some(t);
        assert(!expired_at(k[i], now));
    }
    if s.len() > 0 {
        let t = s.drop_last();
        lemma_purge_keeps_live(t, now);
        assert forall|i: int| 0 <= i < s.len() && !expired_at(#[trigger] s[i], now) implies k.contains(s[i]) by {
            if i < t.len() {
                assert(t[i] == s[i]);
                let kt = keep_alive(t, now);
                assert(kt.contains(t[i]));
                let j = choose|j: int| 0 <= j < kt.len() && kt[j] == t[i];
                if expired_at(s.last(), now) {
                    assert(k[j] == s[i]);
                } else {
                    assert(k[j] == kt[j]);
                }
            } else {
                assert(s[i] == s.last());
                assert(k[k.len() - 1] == s[i]);
            }
        }
    }
}

/// One instance per path: once [`PoolState::entry`] has added the entry of a
/// path, the pool finds that entry by the path, so a later `entry` for the
/// path gives the same id without creating another tag.
pub proof fn lemma_added_entry_found<T>(s: Seq<EntryView<T>>, next_id: u64, e: EntryView<T>)
    requires
        entries_wf(s, next_id),
        path_index(s, e.path) == -1,
        e.id == next_id,
        next_id < u64::MAX,
    ensures
        entries_wf(s.push(e), (next_id + 1) as u64),
        path_index(s.push(e), e.path) == s.len(),
        s.push(e)[path_index(s.push(e), e.path)].id == next_id,
{
    let t = s.push(e);
    assert(t[s.len() as int] == e);
    assert forall|i: int| 0 <= i < s.len() implies #[trigger] s[i].path != e.path by {}
    assert forall|i: int, j: int|
        0 <= i < t.len() && 0 <= j < t.len() && i != j implies #[trigger] t[i].path
        != #[trigger] t[j].path by {
        if i < s.len() && j < s.len() {
            assert(t[i] == s[i] && t[j] == s[j]);
        } else if i < s.len() {
            assert(t[i] == s[i]);
        } else {
            assert(t[j] == s[j]);
        }
    }
    assert forall|i: int, j: int| 0 <= i < j < t.len() implies #[trigger] t[i].id < #[trigger] t[j].id by {
        assert(t[i] == s[i]);
        if j < s.len() {
            assert(t[j] == s[j]);
        }
    }
    assert forall|i: int| 0 <= i < t.len() implies #[trigger] t[i].id < next_id + 1 by {
        if i < s.len() {
            assert(t[i] == s[i]);
        }
    }
    lemma_path_index(t, (next_id + 1) as u64, e.path, s.len() as int);
}

/// Removing the entry of a path leaves the pool without an entry for that
/// path, and consistent.
pub proof fn lemma_removed_path_gone<T>(s: Seq<EntryView<T>>, next_id: u64, path: Seq<char>)
    requires
        entries_wf(s, next_id),
        path_index(s, path) >= 0,
    ensures
        entries_wf(s.remove(path_index(s, path)), next_id),
        path_index(s.remove(path_index(s, path)), path) == -1,
{
    let k = path_index(s, path);
    let t = s.remove(k);
    assert(s[k].path == path);
    assert forall|i: int| 0 <= i < t.len() implies #[trigger] t[i] == s[if i < k { i } else { i + 1 }] by {}
    if exists|i: int| 0 <= i < t.len() && t[i].path == path {
        let i = choose|i: int| 0 <= i < t.len() && t[i].path == path;
        let j = if i < k { i } else { i + 1 };
        assert(t[i] == s[j]);
    }
    assert forall|i: int, j: int| 0 <= i < j < t.len() implies #[trigger] t[i].id < #[trigger] t[j].id by {
        let a = if i < k { i } else { i + 1 };
        let b = if j < k { j } else { j + 1 };
        assert(t[i] == s[a] && t[j] == s[b]);
    }
    assert forall|i: int| 0 <= i < t.len() implies #[trigger] t[i].id < next_id by {
        let a = if i < k { i } else { i + 1 };
        assert(t[i] == s[a]);
    }
    assert forall|i: int, j: int|
        0 <= i < t.len() && 0 <= j < t.len() && i != j implies #[trigger] t[i].path
        != #[trigger] t[j].path by {
        let a = if i < k { i } else { i + 1 };
        let b = if j < k { j } else { j + 1 };
        assert(t[i] == s[a] && t[j] == s[b]);
    }
}

proof fn lemma_path_index<T>(s: Seq<EntryView<T>>, next_id: u64, path: Seq<char>, i: int)
    requires
        entries_wf(s, next_id),
        0 <= i < s.len(),
        s[i].path == path,
    ensures
        path_index(s, path) == i,
{
    let j = path_index(s, path);
    assert(s[j].path == path);
}

proof fn lemma_id_index<T>(s: Seq<EntryView<T>>, next_id: u64, id: u64, i: int)
    requires
        entries_wf(s, next_id),
        0 <= i < s.len(),
        s[i].id == id,
    ensures
        id_index(s, id) == i,
{
    let j = id_index(s, id);
    assert(s[j].id == id);
    if j < i {
        assert(s[j].id < s[i].id);
    } else if i < j {
        assert(s[i].id < s[j].id);
    }
}

impl<T: Initialize> PoolState<T> {
    /// The pool as its users see it.
    pub closed spec fn view(&self) -> PoolView<T> {
        PoolView { entries: views(self.entries@), next_id: self.next_id, shutdown: self.shutdown }
    }

    /// The options the pool was made with.
    pub closed spec fn spec_options(&self) -> PoolOptions {
        self.options
    }

    /// Whether the pool's entries are consistent.
    pub closed spec fn wf(&self) -> bool {
        entries_wf(self.view().entries, self.next_id)
    }

    /// an empty pool
    pub fn new(options: PoolOptions) -> (p: Self)
        ensures
            p.wf(),
            p@.entries.len() == 0,
            p@.next_id == 0,
            !p@.shutdown,
            p.spec_options() == options,
    {
        let p = PoolState { entries: Vec::new(), next_id: 0, shutdown: false, options };
        assert(p@.entries =~= Seq::<EntryView<T>>::empty());
        p
    }

    /// the options the pool was made with
    pub fn options(&self) -> (o: PoolOptions)
        ensures
            o == self.spec_options(),
    {
        self.options
    }

    /// number of entries
    pub fn len(&self) -> (n: usize)
        ensures
            n == self@.entries.len(),
    {
        self.entries.len()
    }

    /// the id the next entry will get
    pub fn next_id(&self) -> (n: u64)
        ensures
            n == self@.next_id,
    {
        self.next_id
    }

    /// whether the pool has been shut down
    pub fn is_shutdown(&self) -> (b: bool)
        ensures
            b == self@.shutdown,
    {
        self.shutdown
    }

    /// shut the pool down: expirations are no longer set nor purged
    pub fn shutdown(&mut self)
        requires
            old(self).wf(),
        ensures
            final(self).wf(),
            final(self)@.entries == old(self)@.entries,
            final(self)@.next_id == old(self)@.next_id,
            final(self)@.shutdown,
            final(self).spec_options() == old(self).spec_options(),
    {
        self.shutdown = true;
    }

    /// position of the entry with a path
    fn find_path(&self, path: &String) -> (r: Option<usize>)
        requires
            self.wf(),
        ensures
            r matches Some(i) ==> i == path_index(self@.entries, path@),
            r is None ==> path_index(self@.entries, path@) == -1,
    {
        let mut i: usize = 0;
        while i < self.entries.len()
            invariant
                self.wf(),
                i <= self.entries.len(),
                forall|k: int| 0 <= k < i ==> self@.entries[k].path != path@,
            decreases self.entries.len() - i,
        {
            if self.entries[i].path == *path {
                proof { lemma_path_index(self@.entries, self.next_id, path@, i as int); }
                return Some(i);
            }
            i = i + 1;
        }
        None
    }

    /// position of the entry with an id
    fn find_id(&self, id: u64) -> (r: Option<usize>)
        requires
            self.wf(),
        ensures
            r matches Some(i) ==> i == id_index(self@.entries, id),
            r is None ==> id_index(self@.entries, id) == -1,
    {
        let mut i: usize = 0;
        while i < self.entries.len()
            invariant
                self.wf(),
                i <= self.entries.len(),
                forall|k: int| 0 <= k < i ==> self@.entries[k].id != id,
            decreases self.entries.len() - i,
        {
            if self.entries[i].id == id {
                proof { lemma_id_index(self@.entries, self.next_id, id, i as int); }
                return Some(i);
            }
            i = i + 1;
        }
        None
    }

    /// whether an entry has this path
    pub fn contains(&self, path: &str) -> (b: bool)
        requires
            self.wf(),
        ensures
            b == (path_index(self@.entries, path@) >= 0),
    {
        let key = String::from_str(path);
        self.find_path(&key).is_some()
    }

    /// the entry with this path
    pub fn tag_by_path(&self, path: &str) -> (r: Option<&PoolEntry<T>>)
        requires
            self.wf(),
        ensures
            path_index(self@.entries, path@) == -1 ==> r is None,
            path_index(self@.entries, path@) >= 0 ==> (r matches Some(e) && e.view()
                == self@.entries[path_index(self@.entries, path@)]),
    {
        let key = String::from_str(path);
        match self.find_path(&key) {
            Some(i) => Some(&self.entries[i]),
            None => None,
        }
    }

    /// the entry with this id
    pub fn entry_by_id(&self, id: u64) -> (r: Option<&PoolEntry<T>>)
        requires
            self.wf(),
        ensures
            id_index(self@.entries, id) == -1 ==> r is None,
            id_index(self@.entries, id) >= 0 ==> (r matches Some(e) && e.view()
                == self@.entries[id_index(self@.entries, id)]),
    {
        match self.find_id(id) {
            Some(i) => Some(&self.entries[i]),
            None => None,
        }
    }

    /// remove entry from pool
    pub fn remove_entry(&mut self, path: &str) -> (r: Option<PoolEntry<T>>)
        requires
            old(self).wf(),
        ensures
            final(self).wf(),
            final(self)@.next_id == old(self)@.next_id,
            final(self)@.shutdown == old(self)@.shutdown,
            final(self).spec_options() == old(self).spec_options(),
            path_index(old(self)@.entries, path@) == -1 ==> r is None && final(self)@.entries
                == old(self)@.entries,
            path_index(old(self)@.entries, path@) >= 0 ==> (r matches Some(e) && e.view()
                == old(self)@.entries[path_index(old(self)@.entries, path@)]
                && final(self)@.entries == old(self)@.entries.remove(
                path_index(old(self)@.entries, path@),
            )),
    {
        let key = String::from_str(path);
        match self.find_path(&key) {
            Some(i) => {
                let ghost old_entries = self@.entries;
                let e = self.entries.remove(i);
                assert(self@.entries =~= old_entries.remove(i as int));
                Some(e)
            },
            None => None,
        }
    }

    /// set the expiration and the creation outcome of the entry at a position
    fn replace_at(&mut self, i: usize, err_status: Option<Status>, will_expire: Option<u64>)
        requires
            old(self).wf(),
            i < old(self)@.entries.len(),
        ensures
            final(self).wf(),
            final(self)@.entries == old(self)@.entries.update(
                i as int,
                EntryView { err_status, will_expire, ..old(self)@.entries[i as int] },
            ),
            final(self)@.next_id == old(self)@.next_id,
            final(self)@.shutdown == old(self)@.shutdown,
            final(self).spec_options() == old(self).spec_options(),
    {
        let ghost old_entries = self@.entries;
        let mut e = self.entries.remove(i);
        e.err_status = err_status;
        e.will_expire = will_expire;
        self.entries.insert(i, e);
        assert(self@.entries =~= old_entries.update(
            i as int,
            EntryView { err_status, will_expire, ..old_entries[i as int] },
        ));
    }

    /// try to make the entry of a path alive (not expiring) if it exists;
    /// an entry whose creation failed keeps its expiration
    pub fn will_alive(&mut self, path: &str) -> (r: Option<u64>)
        requires
            old(self).wf(),
        ensures
            final(self).wf(),
            final(self)@.next_id == old(self)@.next_id,
            final(self)@.shutdown == old(self)@.shutdown,
            final(self).spec_options() == old(self).spec_options(),
            ({
                let k = path_index(old(self)@.entries, path@);
                &&& k == -1 ==> r is None && final(self)@.entries == old(self)@.entries
                &&& k >= 0 ==> r == Some(old(self)@.entries[k].id)
                &&& k >= 0 && failed(old(self)@.entries[k]) ==> final(self)@.entries == old(self)@.entries
                &&& k >= 0 && !failed(old(self)@.entries[k]) ==> final(self)@.entries == old(self)@.entries.update(k, EntryView { will_expire: None, ..old(self)@.entries[k] })
            }),
    {
        let key = String::from_str(path);
        match self.find_path(&key) {
            Some(i) => {
                let id = self.entries[i].id;
                if !self.entries[i].is_err() {
                    let err_status = self.entries[i].err_status;
                    self.replace_at(i, err_status, None);
                }
                Some(id)
            },
            None => None,
        }
    }

    /// add the entry of a path whose tag's creation answered `created`: a
    /// created tag gets the next id and a new entry at the end; a failed
    /// creation's error is returned and the pool stays as it was
    fn add_entry(&mut self, path: String, created: Result<T, Status>) -> (r: Result<u64, Status>)
        requires
            old(self).wf(),
            old(self)@.next_id < u64::MAX,
            path_index(old(self)@.entries, path@) == -1,
        ensures
            final(self).wf(),
            final(self)@.shutdown == old(self)@.shutdown,
            final(self).spec_options() == old(self).spec_options(),
            created matches Err(e) ==> r == Err::<u64, Status>(e) && final(self)@ == old(self)@,
            created matches Ok(t) ==> {
                &&& r == Ok::<u64, Status>(old(self)@.next_id)
                &&& final(self)@.next_id == old(self)@.next_id + 1
                &&& final(self)@.entries == old(self)@.entries.push(
                    EntryView {
                        id: old(self)@.next_id,
                        path: path@,
                        tag: t,
                        err_status: None,
                        will_expire: None,
                    },
                )
            },
    {
        let tag = match created {
            Ok(tag) => tag,
            Err(e) => return Err(e),
        };
        let id = self.next_id;
        let ghost old_entries = self@.entries;
        self.entries.push(PoolEntry { id, path, tag, err_status: None, will_expire: None });
        self.next_id = self.next_id + 1;
        proof {
            let s = self@.entries;
            assert(s.drop_last() =~= old_entries);
            assert(s =~= old_entries.push(
                EntryView { id, path: path@, tag, err_status: None, will_expire: None },
            ));
            assert forall|i: int, j: int|
                0 <= i < s.len() && 0 <= j < s.len() && i != j implies #[trigger] s[i].path
                != #[trigger] s[j].path by {
                if i < old_entries.len() && j < old_entries.len() {
                    assert(s[i] == old_entries[i] && s[j] == old_entries[j]);
                } else if i < old_entries.len() {
                    assert(s[i] == old_entries[i]);
                } else {
                    assert(s[j] == old_entries[j]);
                }
            }
            assert forall|i: int, j: int| 0 <= i < j < s.len() implies #[trigger] s[i].id
                < #[trigger] s[j].id by {
                assert(s[i] == old_entries[i]);
                if j < old_entries.len() {
                    assert(s[j] == old_entries[j]);
                }
            }
            assert forall|i: int| 0 <= i < s.len() implies #[trigger] s[i].id < self.next_id by {
                if i < old_entries.len() {
                    assert(s[i] == old_entries[i]);
                }
            }
        }
        Ok(id)
    }

    /// get the entry of a path, or create its tag and add it: returns the
    /// entry's id, and whether it was created now
    pub fn entry(&mut self, path: &str) -> (r: Result<(u64, bool), Status>)
        requires
            old(self).wf(),
            old(self)@.next_id < u64::MAX,
        ensures
            final(self).wf(),
            final(self)@.shutdown == old(self)@.shutdown,
            final(self).spec_options() == old(self).spec_options(),
            ({
                let k = path_index(old(self)@.entries, path@);
                &&& k >= 0 ==> r == Ok::<(u64, bool), Status>((old(self)@.entries[k].id, false))
                    && final(self)@.next_id == old(self)@.next_id
                &&& k >= 0 && failed(old(self)@.entries[k]) ==> final(self)@.entries == old(self)@.entries
                &&& k >= 0 && !failed(old(self)@.entries[k]) ==> final(self)@.entries == old(self)@.entries.update(k, EntryView { will_expire: None, ..old(self)@.entries[k] })
                &&& k == -1 && r is Err ==> final(self)@ == old(self)@
                &&& k == -1 && r is Ok ==> {
                    let s = final(self)@.entries;
                    &&& r == Ok::<(u64, bool), Status>((old(self)@.next_id, true))
                    &&& final(self)@.next_id == old(self)@.next_id + 1
                    &&& s.len() == old(self)@.entries.len() + 1
                    &&& s.drop_last() == old(self)@.entries
                    &&& s.last().id == old(self)@.next_id
                    &&& s.last().path == path@
                    &&& s.last().err_status is None
                    &&& s.last().will_expire is None
                }
                &&& k == -1 ==> exists|arg: String, c: Result<T, Status>|
                    arg@ == path@ && #[trigger] call_ensures(T::create, (arg,), c) && (c matches Err(
                        e,
                    ) ==> r == Err::<(u64, bool), Status>(e)) && (c matches Ok(t) ==> r == Ok::<
                        (u64, bool),
                        Status,
                    >((old(self)@.next_id, true)) && final(self)@.entries.last().tag == t)
            }),
    {
        match self.will_alive(path) {
            Some(id) => Ok((id, false)),
            None => {
                let key = String::from_str(path);
                let arg = String::from_str(path);
                let ghost arg_view = arg;
                let created = T::create(arg);
                let ghost c = created;
                proof {
                    assert(call_ensures(T::create, (arg_view,), c));
                }
                match self.add_entry(key, created) {
                    Ok(id) => Ok((id, true)),
                    Err(e) => Err(e),
                }
            },
        }
    }

    /// register an entry for expiration at `given_expire`, or `expire_after`
    /// from `now`; only when the entry's creation failed (`is_err`) or did not
    /// fail (`!is_err`), and while the pool is not shut down; returns whether an
    /// expiration was set
    pub fn will_expire(&mut self, id: u64, is_err: bool, given_expire: Option<u64>, now: u64) -> (r:
        bool)
        requires
            old(self).wf(),
            given_expire is None ==> now + old(self).spec_options().spec_expire_after() <= u64::MAX,
        ensures
            final(self).wf(),
            final(self)@.next_id == old(self)@.next_id,
            final(self)@.shutdown == old(self)@.shutdown,
            final(self).spec_options() == old(self).spec_options(),
            ({
                let k = id_index(old(self)@.entries, id);
                let expire_at = match given_expire {
                    Some(t) => t,
                    None => (now + old(self).spec_options().spec_expire_after()) as u64,
                };
                &&& r == (!old(self)@.shutdown && k >= 0 && is_err == failed(
                    old(self)@.entries[k],
                ))
                &&& !r ==> final(self)@.entries == old(self)@.entries
                &&& r ==> final(self)@.entries == old(self)@.entries.update(
                    k,
                    EntryView { will_expire: Some(expire_at), ..old(self)@.entries[k] },
                )
            }),
    {
        if self.shutdown {
            return false;
        }
        match self.find_id(id) {
            Some(i) => {
                if is_err != self.entries[i].is_err() {
                    return false;
                }
                let expire_at = match given_expire {
                    Some(t) => t,
                    None => now + self.options.expire_after,
                };
                let err_status = self.entries[i].err_status;
                self.replace_at(i, err_status, Some(expire_at));
                true
            },
            None => false,
        }
    }

    /// the creation of the entry's tag ended with `status`: the outcome is kept
    /// (only the first one), and a failed entry expires `fault_last` after `now`;
    /// returns whether an expiration was set
    pub fn set_status(&mut self, id: u64, status: Status, now: u64) -> (r: bool)
        requires
            old(self).wf(),
            !(status is Pending),
            now + old(self).spec_options().spec_fault_last() <= u64::MAX,
        ensures
            final(self).wf(),
            final(self)@.next_id == old(self)@.next_id,
            final(self)@.shutdown == old(self)@.shutdown,
            final(self).spec_options() == old(self).spec_options(),
            ({
                let k = id_index(old(self)@.entries, id);
                let e = old(self)@.entries[k];
                let outcome = if e.err_status is None {
                    Some(status)
                } else {
                    e.err_status
                };
                let fail_now = status is Error && failed(EntryView { err_status: outcome, ..e })
                    && !old(self)@.shutdown;
                let expire_at = (now + old(self).spec_options().spec_fault_last()) as u64;
                &&& k == -1 ==> !r && final(self)@.entries == old(self)@.entries
                &&& k >= 0 ==> r == fail_now
                &&& k >= 0 && fail_now ==> final(self)@.entries == old(self)@.entries.update(
                    k,
                    EntryView { err_status: outcome, will_expire: Some(expire_at), ..e },
                )
                &&& k >= 0 && !fail_now ==> final(self)@.entries == old(self)@.entries.update(
                    k,
                    EntryView { err_status: outcome, ..e },
                )
            }),
    {
        match self.find_id(id) {
            Some(i) => {
                let outcome = match self.entries[i].err_status {
                    None => Some(status),
                    Some(s) => Some(s),
                };
                let w = self.entries[i].will_expire;
                let ghost before = self@.entries;
                self.replace_at(i, outcome, w);
                proof {
                    lemma_id_index(self@.entries, self.next_id, id, i as int);
                    assert(self@.entries =~= before.update(
                        i as int,
                        EntryView { err_status: outcome, ..before[i as int] },
                    ));
                }
                if status.is_err() {
                    let fault_last = self.options.fault_last;
                    self.will_expire(id, true, Some(now + fault_last), now)
                } else {
                    false
                }
            },
            None => false,
        }
    }

    /// drop every entry whose expiration has come at `now`, and return the
    /// earliest expiration among the remaining entries; nothing while the pool
    /// is shut down
    pub fn purge_expirations(&mut self, now: u64) -> (r: Option<u64>)
        requires
            old(self).wf(),
        ensures
            final(self).wf(),
            final(self)@.next_id == old(self)@.next_id,
            final(self)@.shutdown == old(self)@.shutdown,
            final(self).spec_options() == old(self).spec_options(),
            old(self)@.shutdown ==> r is None && final(self)@.entries == old(self)@.entries,
            !old(self)@.shutdown ==> final(self)@.entries == keep_alive(old(self)@.entries, now)
                && r == earliest(final(self)@.entries),
    {
        if self.shutdown {
            return None;
        }
        let ghost orig = self@.entries;
        let mut rest: Vec<PoolEntry<T>> = Vec::new();
        std::mem::swap(&mut rest, &mut self.entries);
        let mut kept: Vec<PoolEntry<T>> = Vec::new();
        let mut min: Option<u64> = None;
        let ghost mut i: int = 0;
        assert(views(rest@) =~= orig.skip(0));
        assert(views(kept@) =~= keep_alive(orig.take(0), now));
        while rest.len() > 0
            invariant
                0 <= i <= orig.len(),
                rest@.len() + i == orig.len(),
                views(rest@) == orig.skip(i),
                views(kept@) == keep_alive(orig.take(i), now),
                min == earliest(views(kept@)),
            decreases rest.len(),
        {
            let ghost before = views(kept@);
            let ghost old_rest = rest@;
            proof {
                assert(views(old_rest)[0] == old_rest[0].view());
                assert(orig.skip(i)[0] == orig[i]);
            }
            let e = rest.remove(0);
            proof {
                assert forall|j: int| 0 <= j < views(rest@).len() implies views(rest@)[j] == orig.skip(
                    i + 1,
                )[j] by {
                    assert(rest@[j] == old_rest[j + 1]);
                    assert(views(old_rest)[j + 1] == orig.skip(i)[j + 1]);
                }
                assert(e.view() == orig[i]);
                assert(orig.take(i + 1).drop_last() =~= orig.take(i));
                assert(orig.take(i + 1).last() == orig[i]);
                assert(views(rest@) =~= orig.skip(i + 1));
            }
            let expired = match e.will_expire {
                Some(w) => w <= now,
                None => false,
            };
            if !expired {
                min = match (min, e.will_expire) {
                    (None, w) => w,
                    (Some(a), None) => Some(a),
                    (Some(a), Some(b)) => Some(
                        if a <= b {
                            a
                        } else {
                            b
                        },
                    ),
                };
                kept.push(e);
                proof {
                    assert(views(kept@) =~= before.push(e.view()));
                    assert(views(kept@).drop_last() =~= before);
                }
            }
            proof {
                i = i + 1;
            }
        }
        proof {
            assert(orig.take(i) =~= orig);
            lemma_keep_alive_wf(orig, self.next_id, now);
        }
        self.entries = kept;
        min
    }

    /// poll, once, the tag of every entry whose creation has not ended, and
    /// keep each answer that is no longer pending as the entry's outcome (see
    /// [`PoolState::set_status`]); returns whether an entry is still pending,
    /// whether an expiration was set, and the answer of each poll by id, in the
    /// pool's order
    pub fn scan_pending(&mut self, now: u64) -> (r: (bool, bool, Vec<(u64, Status)>))
        requires
            old(self).wf(),
            now + old(self).spec_options().spec_fault_last() <= u64::MAX,
        ensures
            final(self).wf(),
            final(self)@.next_id == old(self)@.next_id,
            final(self)@.shutdown == old(self)@.shutdown,
            final(self).spec_options() == old(self).spec_options(),
            poll_ids(r.2@) == pending_ids(old(self)@.entries),
            forall|a: int|
                0 <= a < r.2@.len() ==> polled_from(
                    old(self)@.entries[id_index(old(self)@.entries, #[trigger] r.2@[a].0)].tag,
                    r.2@[a].1,
                ),
            final(self)@.entries.len() == old(self)@.entries.len(),
            forall|i: int|
                0 <= i < old(self)@.entries.len() ==> #[trigger] final(self)@.entries[i] == settled(
                    old(self)@.entries[i],
                    r.2@,
                    now,
                    old(self).spec_options().spec_fault_last(),
                    old(self)@.shutdown,
                ),
            r.0 == exists|i: int|
                0 <= i < final(self)@.entries.len() && pending(#[trigger] final(self)@.entries[i]),
            r.1 == exists|i: int|
                0 <= i < old(self)@.entries.len() && pending(#[trigger] old(self)@.entries[i])
                    && failed(final(self)@.entries[i]) && !old(self)@.shutdown,
    {
        let ghost orig = self@.entries;
        let ghost fault_last = self.options.fault_last;
        let ghost next = self.next_id;
        let mut any_pending = false;
        let mut any_expire = false;
        let mut polls: Vec<(u64, Status)> = Vec::new();
        let mut i: usize = 0;
        while i < self.entries.len()
            invariant
                self.wf(),
                self@.next_id == old(self)@.next_id,
                self@.shutdown == old(self)@.shutdown,
                self.spec_options() == old(self).spec_options(),
                fault_last == self.spec_options().spec_fault_last(),
                now + fault_last <= u64::MAX,
                orig == old(self)@.entries,
                next == old(self)@.next_id,
                entries_wf(orig, next),
                self@.entries.len() == orig.len(),
                i <= orig.len(),
                poll_ids(polls@) == pending_ids(orig.take(i as int)),
                forall|a: int|
                    0 <= a < polls@.len() ==> polled_from(
                        orig[id_index(orig, #[trigger] polls@[a].0)].tag,
                        polls@[a].1,
                    ),
                forall|a: int, b: int|
                    0 <= a < b < polls@.len() ==> #[trigger] polls@[a].0 < #[trigger] polls@[b].0,
                forall|a: int, k: int|
                    0 <= a < polls@.len() && i <= k < orig.len() ==> #[trigger] polls@[a].0
                        < #[trigger] orig[k].id,
                forall|k: int|
                    0 <= k < i ==> #[trigger] self@.entries[k] == settled(
                        orig[k],
                        polls@,
                        now,
                        fault_last,
                        self@.shutdown,
                    ),
                forall|k: int| i <= k < orig.len() ==> #[trigger] self@.entries[k] == orig[k],
                any_pending == exists|k: int| 0 <= k < i && pending(#[trigger] self@.entries[k]),
                any_expire == exists|k: int|
                    0 <= k < i && pending(#[trigger] orig[k]) && failed(self@.entries[k])
                        && !self@.shutdown,
            decreases orig.len() - i,
        {
            let ghost before = self@.entries;
            let ghost old_polls = polls@;
            let id = self.entries[i].id;
            assert(self@.entries[i as int] == self.entries@[i as int].view());
            assert(id == orig[i as int].id);
            if self.entries[i].err_status.is_none() {
                let st = self.entries[i].tag.status();
                proof {
                    lemma_id_index(orig, next, id, i as int);
                    assert(self.entries@[i as int].view().tag == orig[i as int].tag);
                    assert(polled_from(orig[id_index(orig, id)].tag, st));
                }
                polls.push((id, st));
                if !st.is_pending() {
                    proof {
                        lemma_id_index(self@.entries, self.next_id, id, i as int);
                    }
                    let e = self.set_status(id, st, now);
                    any_expire = any_expire || e;
                }
            }
            proof {
                assert(self.entries@.len() == self@.entries.len());
                assert forall|k: int| 0 <= k < orig.len() && k != i implies #[trigger] self@.entries[k]
                    == before[k] by {}
                assert(orig.take(i + 1).drop_last() =~= orig.take(i as int));
                assert(orig.take(i + 1).last() == orig[i as int]);
                if pending(orig[i as int]) {
                    let x = polls@.last();
                    assert(polls@ == old_polls.push(x));
                    assert(poll_ids(polls@) =~= poll_ids(old_polls).push(id));
                    assert forall|a: int| 0 <= a < old_polls.len() implies #[trigger] old_polls[a].0
                        < x.0 by {
                        assert(old_polls[a].0 < orig[i as int].id);
                    }
                    lemma_poll_of_push(old_polls, x, id);
                    assert forall|a: int| 0 <= a < polls@.len() implies polled_from(
                        orig[id_index(orig, #[trigger] polls@[a].0)].tag,
                        polls@[a].1,
                    ) by {
                        if a < old_polls.len() {
                            assert(polls@[a] == old_polls[a]);
                        }
                    }
                    assert forall|k: int| 0 <= k < i implies #[trigger] self@.entries[k] == settled(
                        orig[k],
                        polls@,
                        now,
                        fault_last,
                        self@.shutdown,
                    ) by {
                        assert(orig[k].id < orig[i as int].id);
                        lemma_poll_of_push(old_polls, x, orig[k].id);
                    }
                    assert forall|a: int, k: int|
                        0 <= a < polls@.len() && i + 1 <= k < orig.len() implies #[trigger] polls@[a].0
                        < #[trigger] orig[k].id by {
                        assert(orig[i as int].id < orig[k].id);
                        if a < old_polls.len() {
                            assert(polls@[a] == old_polls[a]);
                        }
                    }
                    assert forall|a: int, b: int|
                        0 <= a < b < polls@.len() implies #[trigger] polls@[a].0 < #[trigger] polls@[b].0 by {
                        assert(polls@[a] == old_polls[a]);
                        if b < old_polls.len() {
                            assert(polls@[b] == old_polls[b]);
                        }
                    }
                } else {
                    assert(polls@ == old_polls);
                }
                assert(self@.entries[i as int] == settled(
                    orig[i as int],
                    polls@,
                    now,
                    fault_last,
                    self@.shutdown,
                ));
            }
            let ghost prev_pending = any_pending;
            if self.entries[i].err_status.is_none() {
                any_pending = true;
            }
            proof {
                let s = self@.entries;
                assert(s[i as int].err_status == self.entries@[i as int].err_status);
                if pending(s[i as int]) {
                    assert(0 <= i < i + 1 && pending(s[i as int]));
                } else {
                    assert forall|k: int| 0 <= k < i + 1 && pending(#[trigger] s[k]) implies 0 <= k < i
                        && pending(s[k]) by {}
                }
                if prev_pending {
                    let k = choose|k: int| 0 <= k < i && pending(#[trigger] before[k]);
                    assert(s[k] == before[k]);
                }
                assert forall|k: int| 0 <= k < i && pending(#[trigger] s[k]) implies pending(before[k]) by {}
            }
            i = i + 1;
        }
        proof {
            assert(orig.take(orig.len() as int) =~= orig);
        }
        (any_pending, any_expire, polls)
    }

    /// ids of all entries, in the pool's order
    pub fn ids(&self) -> (r: Vec<u64>)
        ensures
            r@.len() == self@.entries.len(),
            forall|i: int| 0 <= i < r@.len() ==> r@[i] == #[trigger] self@.entries[i].id,
    {
        let mut r: Vec<u64> = Vec::new();
        let mut i: usize = 0;
        while i < self.entries.len()
            invariant
                i <= self.entries.len(),
                r@.len() == i,
                forall|k: int| 0 <= k < i ==> r@[k] == #[trigger] self@.entries[k].id,
            decreases self.entries.len() - i,
        {
            r.push(self.entries[i].id);
            i = i + 1;
        }
        r
    }
}

} // verus!
