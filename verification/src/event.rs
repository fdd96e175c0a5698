//! Tag events, and which listeners are registered for which tag.

use vstd::prelude::*;
use vstd::string::StringExecFns;
use crate::text::{push_signed_decimal, signed_decimal};

verus! {

/// `PLCTAG_EVENT_READ_STARTED`
pub const PLCTAG_EVENT_READ_STARTED: i32 = 1;
/// `PLCTAG_EVENT_READ_COMPLETED`
pub const PLCTAG_EVENT_READ_COMPLETED: i32 = 2;
/// `PLCTAG_EVENT_WRITE_STARTED`
pub const PLCTAG_EVENT_WRITE_STARTED: i32 = 3;
/// `PLCTAG_EVENT_WRITE_COMPLETED`
pub const PLCTAG_EVENT_WRITE_COMPLETED: i32 = 4;
/// `PLCTAG_EVENT_ABORTED`
pub const PLCTAG_EVENT_ABORTED: i32 = 5;
/// `PLCTAG_EVENT_DESTROYED`
pub const PLCTAG_EVENT_DESTROYED: i32 = 6;
/// `PLCTAG_EVENT_CREATED`
pub const PLCTAG_EVENT_CREATED: i32 = 7;

/// event type
#[derive(Debug, Clone, Copy, Eq, PartialEq, Structural)]
pub enum Event {
    /// start reading
    ReadStarted,
    /// reading completed
    ReadCompleted,
    /// start writing
    WriteStarted,
    /// write completed
    WriteCompleted,
    /// connect/read/write aborted
    Aborted,
    /// tag destroyed
    Destroyed,
    /// other
    Other(i32),
}

/// The event of a code of `libplctag`.
pub open spec fn event_of(code: i32) -> Event {
    if code == PLCTAG_EVENT_READ_STARTED {
        Event::ReadStarted
    } else if code == PLCTAG_EVENT_READ_COMPLETED {
        Event::ReadCompleted
    } else if code == PLCTAG_EVENT_WRITE_STARTED {
        Event::WriteStarted
    } else if code == PLCTAG_EVENT_WRITE_COMPLETED {
        Event::WriteCompleted
    } else if code == PLCTAG_EVENT_ABORTED {
        Event::Aborted
    } else if code == PLCTAG_EVENT_DESTROYED {
        Event::Destroyed
    } else {
        Event::Other(code)
    }
}

/// The code of `libplctag` of an event.
pub open spec fn event_code(e: Event) -> i32 {
    match e {
        Event::ReadStarted => PLCTAG_EVENT_READ_STARTED,
        Event::ReadCompleted => PLCTAG_EVENT_READ_COMPLETED,
        Event::WriteStarted => PLCTAG_EVENT_WRITE_STARTED,
        Event::WriteCompleted => PLCTAG_EVENT_WRITE_COMPLETED,
        Event::Aborted => PLCTAG_EVENT_ABORTED,
        Event::Destroyed => PLCTAG_EVENT_DESTROYED,
        Event::Other(v) => v,
    }
}

/// The name of an event, as it prints itself.
pub open spec fn event_name(e: Event) -> Seq<char> {
    match e {
        Event::ReadStarted => "ReadStarted"@,
        Event::ReadCompleted => "ReadCompleted"@,
        Event::WriteStarted => "WriteStarted"@,
        Event::WriteCompleted => "WriteCompleted"@,
        Event::Aborted => "Aborted"@,
        Event::Destroyed => "Destroyed"@,
        Event::Other(v) => "Other("@ + signed_decimal(v as int) + ")"@,
    }
}

impl Event {
    /// the event of a code of `libplctag`
    pub fn new(code: i32) -> (e: Event)
        ensures
            e == event_of(code),
    {
        if code == PLCTAG_EVENT_READ_STARTED {
            Event::ReadStarted
        } else if code == PLCTAG_EVENT_READ_COMPLETED {
            Event::ReadCompleted
        } else if code == PLCTAG_EVENT_WRITE_STARTED {
            Event::WriteStarted
        } else if code == PLCTAG_EVENT_WRITE_COMPLETED {
            Event::WriteCompleted
        } else if code == PLCTAG_EVENT_ABORTED {
            Event::Aborted
        } else if code == PLCTAG_EVENT_DESTROYED {
            Event::Destroyed
        } else {
            Event::Other(code)
        }
    }

    /// the name of this event, as it prints itself
    pub fn to_string(&self) -> (s: String)
        ensures
            s@ == event_name(*self),
    {
        match self {
            Event::ReadStarted => String::from_str("ReadStarted"),
            Event::ReadCompleted => String::from_str("ReadCompleted"),
            Event::WriteStarted => String::from_str("WriteStarted"),
            Event::WriteCompleted => String::from_str("WriteCompleted"),
            Event::Aborted => String::from_str("Aborted"),
            Event::Destroyed => String::from_str("Destroyed"),
            Event::Other(v) => {
                let mut s = String::from_str("Other(");
                push_signed_decimal(&mut s, *v);
                s.append(")");
                s
            },
        }
    }

    /// the code of `libplctag` of this event
    pub fn code(&self) -> (c: i32)
        ensures
            c == event_code(*self),
    {
        match self {
            Event::ReadStarted => PLCTAG_EVENT_READ_STARTED,
            Event::ReadCompleted => PLCTAG_EVENT_READ_COMPLETED,
            Event::WriteStarted => PLCTAG_EVENT_WRITE_STARTED,
            Event::WriteCompleted => PLCTAG_EVENT_WRITE_COMPLETED,
            Event::Aborted => PLCTAG_EVENT_ABORTED,
            Event::Destroyed => PLCTAG_EVENT_DESTROYED,
            Event::Other(v) => *v,
        }
    }
}

impl From<i32> for Event {
    fn from(code: i32) -> (e: Event) {
        Event::new(code)
    }
}

impl vstd::std_specs::convert::FromSpecImpl<i32> for Event {
    open spec fn obeys_from_spec() -> bool {
        true
    }

    open spec fn from_spec(code: i32) -> Event {
        event_of(code)
    }
}

impl From<Event> for i32 {
    fn from(e: Event) -> (code: i32) {
        e.code()
    }
}

impl vstd::std_specs::convert::FromSpecImpl<Event> for i32 {
    open spec fn obeys_from_spec() -> bool {
        true
    }

    open spec fn from_spec(e: Event) -> i32 {
        event_code(e)
    }
}

/// The code of an event read back gives the event; an event read from a code
/// gives the code back.
pub proof fn lemma_event_code_round_trip(e: Event, code: i32)
    ensures
        event_code(event_of(code)) == code,
        e is Other ==> (e->0 < PLCTAG_EVENT_READ_STARTED || e->0 > PLCTAG_EVENT_DESTROYED)
            ==> event_of(event_code(e)) == e,
        !(e is Other) ==> event_of(event_code(e)) == e,
{
}

/// A registered listener; dropping it (see [`EventRegistry::remove_handler`])
/// removes the listener.
#[derive(Debug, Clone, Copy, Eq, PartialEq, Structural)]
pub struct Handler {
    tag_id: i32,
    handler_id: u64,
}

impl Handler {
    /// The tag the listener listens to.
    pub closed spec fn spec_tag_id(&self) -> i32 {
        self.tag_id
    }

    /// The unique id of the listener.
    pub closed spec fn spec_handler_id(&self) -> u64 {
        self.handler_id
    }

    /// the tag the listener listens to
    pub fn tag_id(&self) -> (t: i32)
        ensures
            t == self.spec_tag_id(),
    {
        self.tag_id
    }

    /// the unique id of the listener
    pub fn handler_id(&self) -> (h: u64)
        ensures
            h == self.spec_handler_id(),
    {
        self.handler_id
    }
}

/// Listeners registered for tags: pairs of a tag id and a unique listener id, in
/// the order of registration.
pub struct EventRegistry {
    handlers: Vec<(i32, u64)>,
    next_handler_id: u64,
    issued: Ghost<Set<u64>>,
}

/// The listeners of a registry and the next listener id it gives.
pub struct RegistryView {
    pub handlers: Seq<(i32, u64)>,
    pub next_handler_id: u64,
    /// every listener id the registry has given
    pub issued: Set<u64>,
}

/// Whether a tag has a registered listener.
pub open spec fn has_tag(s: Seq<(i32, u64)>, tag_id: i32) -> bool {
    exists|i: int| 0 <= i < s.len() && #[trigger] s[i].0 == tag_id
}

/// The listener ids of a tag, in registration order.
pub open spec fn ids_of(s: Seq<(i32, u64)>, tag_id: i32) -> Seq<u64>
    decreases s.len(),
{
    if s.len() == 0 {
        Seq::empty()
    } else if s.last().0 == tag_id {
        ids_of(s.drop_last(), tag_id).push(s.last().1)
    } else {
        ids_of(s.drop_last(), tag_id)
    }
}

/// The registrations of every other tag, in their order.
pub open spec fn without_tag(s: Seq<(i32, u64)>, tag_id: i32) -> Seq<(i32, u64)>
    decreases s.len(),
{
    if s.len() == 0 {
        s
    } else if s.last().0 == tag_id {
        without_tag(s.drop_last(), tag_id)
    } else {
        without_tag(s.drop_last(), tag_id).push(s.last())
    }
}

/// Listener ids increase along the registrations and stay below the next id.
pub open spec fn registry_wf(s: Seq<(i32, u64)>, next: u64) -> bool {
    &&& forall|i: int, j: int| 0 <= i < j < s.len() ==> #[trigger] s[i].1 < #[trigger] s[j].1
    &&& forall|i: int| 0 <= i < s.len() ==> #[trigger] s[i].1 < next
}

/// The position of a registration, or -1.
pub open spec fn handler_index(s: Seq<(i32, u64)>, tag_id: i32, handler_id: u64) -> int {
    if exists|i: int| 0 <= i < s.len() && s[i] == (tag_id, handler_id) {
        choose|i: int| 0 <= i < s.len() && s[i] == (tag_id, handler_id)
    } else {
        -1
    }
}

/// Dropping a tag's listeners leaves that tag with none, keeps every other
/// tag's listeners, and keeps the registry consistent.
pub proof fn lemma_without_tag(s: Seq<(i32, u64)>, tag_id: i32, next: u64)
    requires
        registry_wf(s, next),
    ensures
        registry_wf(without_tag(s, tag_id), next),
        !has_tag(without_tag(s, tag_id), tag_id),
        forall|i: int|
            0 <= i < without_tag(s, tag_id).len() ==> s.contains(#[trigger] without_tag(s, tag_id)[i]),
        forall|i: int|
            0 <= i < s.len() && #[trigger] s[i].0 != tag_id ==> without_tag(s, tag_id).contains(s[i]),
    decreases s.len(),
{
    if s.len() > 0 {
        let t = s.drop_last();
        lemma_without_tag(t, tag_id, next);
        let wt = without_tag(t, tag_id);
        let w = without_tag(s, tag_id);
        assert forall|i: int| 0 <= i < w.len() implies s.contains(#[trigger] w[i]) by {
            if i < wt.len() {
                assert(w[i] == wt[i]);
                assert(t.contains(wt[i]));
                let j = choose|j: int| 0 <= j < t.len() && t[j] == wt[i];
                assert(s[j] == t[j]);
            } else {
                assert(w[i] == s.last());
                assert(s[s.len() - 1] == s.last());
            }
        }
        assert forall|i: int| 0 <= i < s.len() && #[trigger] s[i].0 != tag_id implies w.contains(
            s[i],
        ) by {
            if i < t.len() {
                assert(t[i] == s[i]);
                assert(wt.contains(t[i]));
                let j = choose|j: int| 0 <= j < wt.len() && wt[j] == t[i];
                assert(w[j] == wt[j]);
            } else {
                assert(s[i] == s.last());
                assert(w[w.len() - 1] == s[i]);
            }
        }
        if s.last().0 != tag_id {
            assert forall|i: int| 0 <= i < wt.len() implies #[trigger] wt[i].1 < s.last().1 by {
                assert(t.contains(wt[i]));
                let j = choose|j: int| 0 <= j < t.len() && t[j] == wt[i];
                assert(s[j] == t[j]);
                assert(s[s.len() - 1] == s.last());
            }
            assert forall|i: int, j: int| 0 <= i < j < w.len() implies #[trigger] w[i].1
                < #[trigger] w[j].1 by {
                assert(w[i] == wt[i]);
                if j < wt.len() {
                    assert(w[j] == wt[j]);
                }
            }
            assert forall|i: int| 0 <= i < w.len() implies #[trigger] w[i].1 < next by {
                if i < wt.len() {
                    assert(w[i] == wt[i]);
                } else {
                    assert(s[s.len() - 1] == s.last());
                }
            }
            assert forall|i: int| 0 <= i < w.len() implies #[trigger] w[i].0 != tag_id by {
                if i < wt.len() {
                    assert(w[i] == wt[i]);
                    assert(!has_tag(wt, tag_id));
                }
            }
        }
    }
}

/// Dropping the handler that was just added gives the registry back as it was:
/// the new registration is found at the end, removing it restores the
/// registrations, and the tag's callback is unregistered by the removal exactly
/// when it was registered by the addition.
pub proof fn lemma_add_then_remove(s: Seq<(i32, u64)>, next: u64, tag_id: i32)
    requires
        registry_wf(s, next),
        next < u64::MAX,
    ensures
        registry_wf(s.push((tag_id, next)), (next + 1) as u64),
        handler_index(s.push((tag_id, next)), tag_id, next) == s.len(),
        s.push((tag_id, next)).remove(s.len() as int) == s,
{
    let t = s.push((tag_id, next));
    assert(t[s.len() as int] == (tag_id, next));
    let j = handler_index(t, tag_id, next);
    if j != s.len() {
        assert(t[j] == s[j]);
        assert(s[j].1 < next);
    }
    assert(t.remove(s.len() as int) =~= s);
}

impl EventRegistry {
    /// The registrations, as pairs of tag id and listener id.
    pub closed spec fn view(&self) -> RegistryView {
        RegistryView {
            handlers: self.handlers@,
            next_handler_id: self.next_handler_id,
            issued: self.issued@,
        }
    }

    /// Whether the registry is consistent.
    pub closed spec fn wf(&self) -> bool {
        &&& registry_wf(self.handlers@, self.next_handler_id)
        &&& forall|x: u64| #[trigger] self.issued@.contains(x) ==> x < self.next_handler_id
        &&& forall|i: int|
            0 <= i < self.handlers@.len() ==> self.issued@.contains(#[trigger] self.handlers@[i].1)
    }

    /// an empty registry
    pub fn new() -> (r: EventRegistry)
        ensures
            r.wf(),
            r@.handlers.len() == 0,
            r@.next_handler_id == 0,
            r@.issued == Set::<u64>::empty(),
    {
        EventRegistry { handlers: Vec::new(), next_handler_id: 0, issued: Ghost(Set::empty()) }
    }

    /// position of a registration
    fn find(&self, tag_id: i32, handler_id: u64) -> (r: Option<usize>)
        ensures
            r matches Some(i) ==> i < self@.handlers.len() && self@.handlers[i as int] == (
                tag_id,
                handler_id,
            ),
            r is None ==> handler_index(self@.handlers, tag_id, handler_id) == -1,
    {
        let mut i: usize = 0;
        while i < self.handlers.len()
            invariant
                i <= self.handlers.len(),
                forall|k: int| 0 <= k < i ==> self@.handlers[k] != (tag_id, handler_id),
            decreases self.handlers.len() - i,
        {
            let (t, h) = self.handlers[i];
            if t == tag_id && h == handler_id {
                return Some(i);
            }
            i = i + 1;
        }
        None
    }

    /// whether a tag has a registered listener
    pub fn has_listeners(&self, tag_id: i32) -> (b: bool)
        ensures
            b == has_tag(self@.handlers, tag_id),
    {
        let mut i: usize = 0;
        while i < self.handlers.len()
            invariant
                i <= self.handlers.len(),
                forall|k: int| 0 <= k < i ==> #[trigger] self@.handlers[k].0 != tag_id,
            decreases self.handlers.len() - i,
        {
            if self.handlers[i].0 == tag_id {
                return true;
            }
            i = i + 1;
        }
        false
    }

    /// whether a listener is still registered
    pub fn check_handler(&self, h: &Handler) -> (b: bool)
        ensures
            b == (handler_index(self@.handlers, h.spec_tag_id(), h.spec_handler_id()) >= 0),
    {
        let r = self.find(h.tag_id, h.handler_id);
        proof {
            if let Some(i) = r {
                let j = handler_index(self@.handlers, h.spec_tag_id(), h.spec_handler_id());
                assert(self@.handlers[i as int] == (h.spec_tag_id(), h.spec_handler_id()));
            }
        }
        r.is_some()
    }

    /// register a listener for a tag: returns its handler, and whether the tag
    /// had no listener before (then the tag's callback is to be registered)
    pub fn add_handler(&mut self, tag_id: i32) -> (r: (Handler, bool))
        requires
            old(self).wf(),
            old(self)@.next_handler_id < u64::MAX,
        ensures
            final(self).wf(),
            r.0.spec_tag_id() == tag_id,
            r.0.spec_handler_id() == old(self)@.next_handler_id,
            r.1 == !has_tag(old(self)@.handlers, tag_id),
            final(self)@.handlers == old(self)@.handlers.push((tag_id, old(self)@.next_handler_id)),
            final(self)@.next_handler_id == old(self)@.next_handler_id + 1,
            !old(self)@.issued.contains(r.0.spec_handler_id()),
            final(self)@.issued == old(self)@.issued.insert(r.0.spec_handler_id()),
    {
        let first = !self.has_listeners(tag_id);
        let handler_id = self.next_handler_id;
        self.handlers.push((tag_id, handler_id));
        self.next_handler_id = self.next_handler_id + 1;
        proof {
            self.issued@ = self.issued@.insert(handler_id);
            assert forall|i: int|
                0 <= i < self.handlers@.len() implies self.issued@.contains(
                #[trigger] self.handlers@[i].1,
            ) by {
                if i < self.handlers@.len() - 1 {
                    assert(self.handlers@[i] == old(self).handlers@[i]);
                }
            }
        }
        (Handler { tag_id, handler_id }, first)
    }

    /// remove a listener: returns whether its tag has no listener left (then
    /// the tag's callback is to be unregistered); nothing for a listener that
    /// is no longer registered
    pub fn remove_handler(&mut self, h: &Handler) -> (r: bool)
        requires
            old(self).wf(),
        ensures
            final(self).wf(),
            final(self)@.next_handler_id == old(self)@.next_handler_id,
            final(self)@.issued == old(self)@.issued,
            ({
                let k = handler_index(old(self)@.handlers, h.spec_tag_id(), h.spec_handler_id());
                &&& k == -1 ==> !r && final(self)@.handlers == old(self)@.handlers
                &&& k >= 0 ==> final(self)@.handlers == old(self)@.handlers.remove(k) && r == !has_tag(
                    final(self)@.handlers,
                    h.spec_tag_id(),
                )
            }),
    {
        match self.find(h.tag_id, h.handler_id) {
            Some(i) => {
                proof {
                    let s = self@.handlers;
                    let j = handler_index(s, h.spec_tag_id(), h.spec_handler_id());
                    assert(s[i as int] == (h.spec_tag_id(), h.spec_handler_id()));
                    if j != i {
                        if j < i {
                            assert(s[j].1 < s[i as int].1);
                        } else {
                            assert(s[i as int].1 < s[j].1);
                        }
                    }
                }
                self.handlers.remove(i);
                !self.has_listeners(h.tag_id)
            },
            None => false,
        }
    }

    /// the listeners to invoke for an event of a tag, if the tag has any; a
    /// destroyed tag's listeners are all removed
    pub fn dispatch(&mut self, tag_id: i32, event: i32) -> (r: Option<Vec<u64>>)
        requires
            old(self).wf(),
        ensures
            final(self).wf(),
            final(self)@.next_handler_id == old(self)@.next_handler_id,
            final(self)@.issued == old(self)@.issued,
            !has_tag(old(self)@.handlers, tag_id) ==> r is None && final(self)@.handlers == old(self)@.handlers,
            has_tag(old(self)@.handlers, tag_id) ==> (r matches Some(v) && v@ == ids_of(
                old(self)@.handlers,
                tag_id,
            )),
            event == PLCTAG_EVENT_DESTROYED ==> final(self)@.handlers == without_tag(
                old(self)@.handlers,
                tag_id,
            ),
            event != PLCTAG_EVENT_DESTROYED ==> final(self)@.handlers == old(self)@.handlers,
    {
        if !self.has_listeners(tag_id) {
            proof {
                lemma_ids_of_empty(self@.handlers, tag_id);
            }
            if event == PLCTAG_EVENT_DESTROYED {
                proof { lemma_without_absent(self@.handlers, tag_id); }
            }
            return None;
        }
        let ghost orig = self@.handlers;
        let mut ids: Vec<u64> = Vec::new();
        let mut kept: Vec<(i32, u64)> = Vec::new();
        let mut i: usize = 0;
        while i < self.handlers.len()
            invariant
                i <= self.handlers.len(),
                self@.handlers == orig,
                ids@ == ids_of(orig.take(i as int), tag_id),
                kept@ == without_tag(orig.take(i as int), tag_id),
            decreases self.handlers.len() - i,
        {
            let (t, h) = self.handlers[i];
            proof {
                assert(orig.take(i + 1).drop_last() =~= orig.take(i as int));
                assert(orig.take(i + 1).last() == orig[i as int]);
            }
            if t == tag_id {
                ids.push(h);
            } else {
                kept.push((t, h));
            }
            i = i + 1;
        }
        proof {
            assert(orig.take(i as int) =~= orig);
        }
        if event == PLCTAG_EVENT_DESTROYED {
            proof { lemma_without_tag(orig, tag_id, self.next_handler_id); }
            self.handlers = kept;
        }
        Some(ids)
    }
}

proof fn lemma_ids_of_empty(s: Seq<(i32, u64)>, tag_id: i32)
    requires
        !has_tag(s, tag_id),
    ensures
        ids_of(s, tag_id).len() == 0,
    decreases s.len(),
{
    if s.len() > 0 {
        assert(s[s.len() - 1] == s.last());
        assert(!has_tag(s.drop_last(), tag_id)) by {
            if has_tag(s.drop_last(), tag_id) {
                let i = choose|i: int| 0 <= i < s.len() - 1 && #[trigger] s.drop_last()[i].0 == tag_id;
                assert(s[i] == s.drop_last()[i]);
            }
        }
        lemma_ids_of_empty(s.drop_last(), tag_id);
    }
}

proof fn lemma_without_absent(s: Seq<(i32, u64)>, tag_id: i32)
    requires
        !has_tag(s, tag_id),
    ensures
        without_tag(s, tag_id) == s,
    decreases s.len(),
{
    if s.len() > 0 {
        assert(s[s.len() - 1] == s.last());
        assert(!has_tag(s.drop_last(), tag_id)) by {
            if has_tag(s.drop_last(), tag_id) {
                let i = choose|i: int| 0 <= i < s.len() - 1 && #[trigger] s.drop_last()[i].0 == tag_id;
                assert(s[i] == s.drop_last()[i]);
            }
        }
        lemma_without_absent(s.drop_last(), tag_id);
        assert(s.drop_last().push(s.last()) =~= s);
    }
}

} // verus!
