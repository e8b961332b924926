//! Listener registrations: who wants to hear which events.
//!
//! A registration pairs an event kind with a process-unique handle. The
//! callbacks themselves live with the caller, outside the library: the
//! session decides *which* handles are to be invoked for an event, in
//! registration order, and the embedding code invokes them.

use vstd::prelude::*;
use crate::event::{kind_eq, EventType};

verus! {

/// An identifier for unsubscribing an event listener.
pub type ListenerHandle = u64;

/// One listener registration: the kind of event listened for, and the
/// handle under which the registration can be removed.
#[derive(Debug)]
pub struct Listener {
    /// The event kind the listener wants to receive.
    pub event: EventType,
    /// The handle issued when the listener was registered.
    pub handle: ListenerHandle,
}

impl Clone for Listener {
    /// A clone of a registration is the same registration.
    fn clone(&self) -> (r: Self)
        ensures
            r.event == self.event,
            r.handle == self.handle,
    {
        Listener { event: self.event.clone(), handle: self.handle }
    }
}

impl Listener {
    /// Create a new listener registration.
    pub fn new(handle: ListenerHandle, event_type: EventType) -> (r: Listener)
        ensures
            r.handle == handle,
            r.event == event_type,
    {
        Listener { event: event_type, handle }
    }

    /// Whether this registration was issued under the given handle.
    pub fn has_handle(&self, handle: ListenerHandle) -> (r: bool)
        ensures
            r == (self.handle == handle),
    {
        self.handle == handle
    }
}

/// Whether some registration listens for the given kind.
pub open spec fn has_kind(s: Seq<Listener>, kind: EventType) -> bool {
    exists|i: int| 0 <= i < s.len() && #[trigger] kind_eq(s[i].event, kind)
}

/// The kind registered under the given handle: the first registration
/// that carries it, if any.
pub open spec fn handle_kind(s: Seq<Listener>, handle: u64) -> Option<EventType>
    decreases s.len(),
{
    if s.len() == 0 {
        None
    } else if s[0].handle == handle {
        Some(s[0].event)
    } else {
        handle_kind(s.drop_first(), handle)
    }
}

/// The registrations that remain when the given handle is removed.
pub open spec fn without_handle(s: Seq<Listener>, handle: u64) -> Seq<Listener>
    decreases s.len(),
{
    if s.len() == 0 {
        Seq::empty()
    } else if s.last().handle == handle {
        without_handle(s.drop_last(), handle)
    } else {
        without_handle(s.drop_last(), handle).push(s.last())
    }
}

/// The registrations that remain when every listener for the given kind
/// is removed.
pub open spec fn without_kind(s: Seq<Listener>, kind: EventType) -> Seq<Listener>
    decreases s.len(),
{
    if s.len() == 0 {
        Seq::empty()
    } else if kind_eq(s.last().event, kind) {
        without_kind(s.drop_last(), kind)
    } else {
        without_kind(s.drop_last(), kind).push(s.last())
    }
}

/// The handles registered for the given kind, in registration order.
pub open spec fn targets_of(s: Seq<Listener>, kind: EventType) -> Seq<u64>
    decreases s.len(),
{
    if s.len() == 0 {
        Seq::empty()
    } else if kind_eq(s.last().event, kind) {
        targets_of(s.drop_last(), kind).push(s.last().handle)
    } else {
        targets_of(s.drop_last(), kind)
    }
}

/// Unrolling `handle_kind` past a prefix that does not carry the handle.
pub proof fn lemma_handle_kind_skip(s: Seq<Listener>, handle: u64, i: int)
    requires
        0 <= i <= s.len(),
        forall|k: int| 0 <= k < i ==> s[k].handle != handle,
    ensures
        handle_kind(s, handle) == handle_kind(s.skip(i), handle),
    decreases i,
{
    if i > 0 {
        lemma_handle_kind_skip(s, handle, i - 1);
        let tail = s.skip(i - 1);
        assert(tail[0] == s[i - 1]);
        assert(tail.drop_first() =~= s.skip(i));
    } else {
        assert(s.skip(0) =~= s);
    }
}

} // verus!
