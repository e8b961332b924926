//! The session: one connection to a DaZeus core, driven synchronously.
//!
//! The session owns the frame codec around one transport, the FIFO of
//! requests awaiting responses, and the listener registry. It classifies
//! every incoming frame: responses resolve the oldest outstanding
//! request; events are queued for dispatch, and the session computes
//! which listener handles an event goes to, in registration order. The
//! embedding code invokes the callbacks it keeps for those handles, and
//! may re-enter the session freely while doing so.

use vstd::prelude::*;
use crate::error::{Error, ReceiveError};
use crate::event::{kind_eq, valid_event_json, event_matches, Event, EventType};
use crate::handler::{Handler, Message};
use crate::json::{json_get, json_has_key, JsonSpec};
use crate::listener::{
    handle_kind, has_kind, lemma_handle_kind_skip, targets_of, without_handle, without_kind,
    Listener, ListenerHandle,
};
use crate::request::{scope_entry_of, ConfigGroup, Request};
use crate::scope::Scope;
use crate::response::{fail_json, success_json, Response};
use crate::transport::Transport;

verus! {

/// The document of a request without a scope entry.
pub open spec fn wire_doc(action: Seq<char>, verb: Seq<char>, params: Seq<JsonSpec>) -> JsonSpec {
    JsonSpec::Obj(
        seq![
            (action, JsonSpec::Str(verb)),
            ("params"@, JsonSpec::Arr(params)),
        ],
    )
}

/// The document of a request that carries no parameters at all.
pub open spec fn wire_doc_no_params(action: Seq<char>, verb: Seq<char>) -> JsonSpec {
    JsonSpec::Obj(seq![(action, JsonSpec::Str(verb))])
}

/// The document of a request with a scope entry between verb and
/// parameters.
pub open spec fn wire_doc_scoped(
    action: Seq<char>,
    verb: Seq<char>,
    scope_entry: Option<JsonSpec>,
    params: Seq<JsonSpec>,
) -> JsonSpec {
    match scope_entry {
        None => wire_doc(action, verb, params),
        Some(entry) => JsonSpec::Obj(
            seq![
                (action, JsonSpec::Str(verb)),
                ("scope"@, entry),
                ("params"@, JsonSpec::Arr(params)),
            ],
        ),
    }
}

/// The wire document subscribing to an event kind.
pub open spec fn subscribe_wire(kind_name: Seq<char>) -> JsonSpec {
    wire_doc("do"@, "subscribe"@, seq![JsonSpec::Str(kind_name)])
}

/// The wire document subscribing to a command.
pub open spec fn subscribe_command_wire(cmd: Seq<char>) -> JsonSpec {
    wire_doc("do"@, "command"@, seq![JsonSpec::Str(cmd)])
}

/// The wire document unsubscribing from an event kind.
pub open spec fn unsubscribe_wire(kind_name: Seq<char>) -> JsonSpec {
    wire_doc("do"@, "unsubscribe"@, seq![JsonSpec::Str(kind_name)])
}

/// One frame was appended to the received log: the old entries keep
/// their places, and any older prefix stays a prefix.
proof fn lemma_read_extends(prev: Seq<JsonSpec>, cur: Seq<JsonSpec>, orig: Seq<JsonSpec>)
    requires
        cur.len() == prev.len() + 1,
        cur.take(prev.len() as int) == prev,
        prev.len() >= orig.len(),
        prev.take(orig.len() as int) == orig,
    ensures
        forall|i: int| 0 <= i < prev.len() ==> #[trigger] cur[i] == prev[i],
        cur.take(orig.len() as int) == orig,
        cur.len() > orig.len(),
{
    assert forall|i: int| 0 <= i < prev.len() implies #[trigger] cur[i] == prev[i] by {
        assert(cur.take(prev.len() as int)[i] == cur[i]);
    }
    assert(cur.take(orig.len() as int) =~= orig);
}

/// A single request/response step leaves the registry alone, keeps what
/// was already received, and queues only events of received frames.
pub open spec fn session_step_ok<T: Transport>(pre: &DaZeus<T>, post: &DaZeus<T>) -> bool {
    &&& post.wf()
    &&& post.listeners_model() == pre.listeners_model()
    &&& post.next_handle() == pre.next_handle()
    &&& post.received_log().len() >= pre.received_log().len()
    &&& post.received_log().take(pre.received_log().len() as int) =~= pre.received_log()
    &&& queued_extension_ok(pre, post)
}

/// The step wrote exactly the given document and the response wraps the
/// last frame received, which is response-classified.
pub open spec fn responded<T: Transport>(
    pre: &DaZeus<T>,
    post: &DaZeus<T>,
    doc: JsonSpec,
    resp: &Response,
) -> bool {
    &&& post.sent_log() == pre.sent_log().push(doc)
    &&& post.pending_log() == pre.pending_log().push(doc).drop_first()
    &&& post.received_log().len() > pre.received_log().len()
    &&& resp.spec_data() == post.received_log().last()
    &&& !json_has_key(post.received_log().last(), "event"@)
    &&& post.queued_events().len() == pre.queued_events().len() + (post.received_log().len()
        - pre.received_log().len() - 1)
}

/// The queue of undispatched events only grows, keeping what it held.
pub open spec fn queued_grows<T: Transport>(pre: &DaZeus<T>, post: &DaZeus<T>) -> bool {
    &&& post.queued_events().len() >= pre.queued_events().len()
    &&& post.queued_events().take(pre.queued_events().len() as int) =~= pre.queued_events()
}

/// An operation of several request/response steps leaves the registry
/// alone, keeps what was already received, and only adds to the queue of
/// undispatched events.
pub open spec fn session_multi_ok<T: Transport>(pre: &DaZeus<T>, post: &DaZeus<T>) -> bool {
    &&& post.wf()
    &&& post.listeners_model() == pre.listeners_model()
    &&& post.next_handle() == pre.next_handle()
    &&& post.received_log().len() >= pre.received_log().len()
    &&& post.received_log().take(pre.received_log().len() as int) =~= pre.received_log()
    &&& queued_grows(pre, post)
}

/// Being a prefix of a prefix makes a prefix.
proof fn lemma_prefix_trans<A>(s1: Seq<A>, s2: Seq<A>, s3: Seq<A>)
    requires
        s2.len() >= s1.len(),
        s2.take(s1.len() as int) =~= s1,
        s3.len() >= s2.len(),
        s3.take(s2.len() as int) =~= s2,
    ensures
        s3.len() >= s1.len(),
        s3.take(s1.len() as int) =~= s1,
{
    assert forall|i: int| 0 <= i < s1.len() implies s3.take(s1.len() as int)[i] == s1[i] by {
        assert(s3.take(s2.len() as int)[i] == s3[i]);
        assert(s2.take(s1.len() as int)[i] == s2[i]);
        assert(s3.take(s1.len() as int)[i] == s3[i]);
    }
}

/// Whether the frame is response-classified: no `event` key.
pub open spec fn is_response_frame(j: JsonSpec) -> bool {
    !json_has_key(j, "event"@)
}

/// The index of the first response-classified frame at or after `from`,
/// or the log's length when there is none.
pub open spec fn first_response_from(s: Seq<JsonSpec>, from: int) -> int
    decreases s.len() - from,
    when 0 <= from <= s.len()
{
    if from >= s.len() {
        s.len() as int
    } else if is_response_frame(s[from]) {
        from
    } else {
        first_response_from(s, from + 1)
    }
}

/// The first response-classified frame sits exactly past the run of
/// event frames before it.
proof fn lemma_first_response(s: Seq<JsonSpec>, from: int, j: int)
    requires
        0 <= from <= j < s.len(),
        forall|i: int| from <= i < j ==> !is_response_frame(#[trigger] s[i]),
        is_response_frame(s[j]),
    ensures
        first_response_from(s, from) == j,
    decreases j - from,
{
    if from < j {
        lemma_first_response(s, from + 1, j);
    }
}

/// The bot nick a response document carries: its `nick` string field, or
/// the empty string when there is none.
pub open spec fn nick_of(j: JsonSpec) -> Seq<char> {
    match json_get(j, "nick"@) {
        Some(v) => if v is Str {
            v->Str_0
        } else {
            Seq::empty()
        },
        None => Seq::empty(),
    }
}

/// The document of a message-like request: verb, then network, target
/// and text.
pub open spec fn message_doc(
    verb: Seq<char>,
    network: Seq<char>,
    target: Seq<char>,
    text: Seq<char>,
) -> JsonSpec {
    wire_doc(
        "do"@,
        verb,
        seq![JsonSpec::Str(network), JsonSpec::Str(target), JsonSpec::Str(text)],
    )
}

/// The base DaZeus session around one connection.
pub struct DaZeus<T> {
    handler: Handler<T>,
    listeners: Vec<Listener>,
    current_handle: u64,
    queued: Vec<Event>,
    pending: Ghost<Seq<JsonSpec>>,
    pending_count: usize,
    closed: bool,
}

impl<T: Transport> DaZeus<T> {
    /// The transport the session drives, as contracts see it.
    pub closed spec fn spec_transport(&self) -> T {
        self.handler.spec_socket()
    }

    /// The wire documents of every frame this session has written, in
    /// order.
    pub closed spec fn sent_log(&self) -> Seq<JsonSpec> {
        self.handler.sent_log()
    }

    /// The payloads of every frame this session has decoded, in order.
    pub closed spec fn received_log(&self) -> Seq<JsonSpec> {
        self.handler.received_log()
    }

    /// The wire documents of the requests whose responses are still
    /// outstanding, oldest first.
    pub closed spec fn pending_log(&self) -> Seq<JsonSpec> {
        self.pending@
    }

    /// The events received but not yet handed out for dispatch.
    pub closed spec fn queued_events(&self) -> Seq<Event> {
        self.queued@
    }

    /// The active listener registrations, in registration order.
    pub closed spec fn listeners_model(&self) -> Seq<Listener> {
        self.listeners@
    }

    /// The handle the next subscription will be issued.
    pub closed spec fn next_handle(&self) -> u64 {
        self.current_handle
    }

    /// Whether the session has seen a fatal error and refuses further
    /// I/O.
    pub closed spec fn is_closed(&self) -> bool {
        self.closed
    }

    /// The session's internal bookkeeping is consistent.
    pub closed spec fn wf(&self) -> bool {
        self.pending_count == self.pending@.len()
    }

    /// Create a new instance of DaZeus from the given connection.
    pub fn new(conn: T) -> (r: DaZeus<T>)
        ensures
            r.spec_transport() == conn,
            r.wf(),
            !r.is_closed(),
            r.sent_log() == Seq::<JsonSpec>::empty(),
            r.received_log() == Seq::<JsonSpec>::empty(),
            r.pending_log() == Seq::<JsonSpec>::empty(),
            r.queued_events() == Seq::<Event>::empty(),
            r.listeners_model() == Seq::<Listener>::empty(),
            r.next_handle() == 1,
    {
        DaZeus {
            handler: Handler::new(conn),
            listeners: Vec::new(),
            current_handle: 1,
            queued: Vec::new(),
            pending: Ghost(Seq::empty()),
            pending_count: 0,
            closed: false,
        }
    }

    /// The handle the next subscription will be issued, as a value.
    pub fn next_listener_handle(&self) -> (r: u64)
        ensures
            r == self.next_handle(),
    {
        self.current_handle
    }

    /// Whether the session has seen a fatal error and refuses further
    /// I/O.
    pub fn closed(&self) -> (r: bool)
        ensures
            r == self.is_closed(),
    {
        self.closed
    }

    /// The transport the session drives.
    pub fn transport_ref(&self) -> (r: &T)
        ensures
            *r == self.spec_transport(),
    {
        self.handler.socket_ref()
    }

    /// Write one request frame without waiting for its response: the
    /// request joins the back of the FIFO of outstanding requests.
    pub fn send_request(&mut self, request: Request) -> (r: Result<(), Error>)
        requires
            old(self).wf(),
            !(request matches Request::Unsubscribe(EventType::Command(_))),
        ensures
            final(self).wf(),
            final(self).received_log() == old(self).received_log(),
            final(self).queued_events() == old(self).queued_events(),
            final(self).listeners_model() == old(self).listeners_model(),
            final(self).next_handle() == old(self).next_handle(),
            match r {
                Ok(_) => ({
                    &&& !old(self).is_closed()
                    &&& !final(self).is_closed()
                    &&& final(self).sent_log() == old(self).sent_log().push(request.wire_json())
                    &&& final(self).pending_log() == old(self).pending_log().push(
                        request.wire_json(),
                    )
                }),
                Err(e) => ({
                    &&& final(self).sent_log() == old(self).sent_log()
                    &&& final(self).pending_log() == old(self).pending_log()
                    &&& (final(self).is_closed() || e is ReceiveError)
                }),
            },
    {
        if self.closed {
            return Err(Error::ConnectionClosed);
        }
        if self.pending_count == usize::MAX {
            return Err(Error::ReceiveError(ReceiveError::new()));
        }
        let ghost wire = request.wire_json();
        match self.handler.write(request) {
            Ok(_) => {
                self.pending_count = self.pending_count + 1;
                self.pending = Ghost(self.pending@.push(wire));
                Ok(())
            },
            Err(e) => {
                self.closed = true;
                Err(e)
            },
        }
    }

    /// Wait for the response that resolves the oldest outstanding
    /// request, queuing every event that arrives before it. Responses
    /// resolve requests strictly in the order the requests were sent.
    #[verifier::loop_isolation(false)]
    pub fn recv_response(&mut self) -> (r: Result<Response, Error>)
        requires
            old(self).wf(),
        ensures
            final(self).wf(),
            final(self).sent_log() == old(self).sent_log(),
            final(self).listeners_model() == old(self).listeners_model(),
            final(self).next_handle() == old(self).next_handle(),
            final(self).received_log().len() >= old(self).received_log().len(),
            final(self).received_log().take(old(self).received_log().len() as int) == old(
                self,
            ).received_log(),
            queued_extension_ok(old(self), final(self)),
            match r {
                Ok(resp) => ({
                    &&& old(self).pending_log().len() > 0
                    &&& final(self).pending_log() == old(self).pending_log().drop_first()
                    &&& final(self).received_log().len() > old(self).received_log().len()
                    &&& resp.spec_data() == final(self).received_log().last()
                    &&& !json_has_key(final(self).received_log().last(), "event"@)
                    &&& final(self).queued_events().len() == old(self).queued_events().len() + (
                    final(self).received_log().len() - old(self).received_log().len() - 1)
                }),
                Err(e) => ({
                    &&& final(self).pending_log() == old(self).pending_log()
                    &&& (final(self).is_closed() || e is ReceiveError)
                }),
            },
    {
        if self.closed {
            return Err(Error::ConnectionClosed);
        }
        if self.pending_count == 0 {
            return Err(Error::ReceiveError(ReceiveError::new()));
        }
        let ghost orig = *self;
        let mut budget: usize = usize::MAX;
        loop
            invariant
                self.wf(),
                self.closed == orig.closed,
                self.pending@ == orig.pending@,
                self.pending_count == orig.pending_count,
                self.handler.sent_log() == orig.handler.sent_log(),
                self.listeners@ == orig.listeners@,
                self.current_handle == orig.current_handle,
                self.handler.received_log().len() >= orig.handler.received_log().len(),
                self.handler.received_log().take(orig.handler.received_log().len() as int)
                    == orig.handler.received_log(),
                self.queued@.len() == orig.queued@.len() + (self.handler.received_log().len()
                    - orig.handler.received_log().len()),
                self.queued@.take(orig.queued@.len() as int) =~= orig.queued@,
                forall|k: int|
                    orig.queued@.len() <= k < self.queued@.len()
                        ==> is_queued_event_of(#[trigger] self.queued@[k],
                        self.handler.received_log()[orig.handler.received_log().len() + (k
                        - orig.queued@.len())]),
            decreases budget,
        {
            let ghost prev = *self;
            match self.handler.read() {
                Err(e) => {
                    self.closed = true;
                    return Err(e);
                },
                Ok(Message::Event(e)) => {
                    proof {
                        lemma_read_extends(
                            prev.handler.received_log(),
                            self.handler.received_log(),
                            orig.handler.received_log(),
                        );
                    }
                    self.queued.push(e);
                    proof {
                        assert(self.queued@.drop_last() =~= prev.queued@);
                        assert forall|k: int|
                            orig.queued@.len() <= k < self.queued@.len() implies is_queued_event_of(
                            #[trigger] self.queued@[k],
                            self.handler.received_log()[orig.handler.received_log().len() + (k
                                - orig.queued@.len())],
                        ) by {
                            let j = orig.handler.received_log().len() + (k - orig.queued@.len());
                            if k < prev.queued@.len() {
                                assert(self.queued@[k] == prev.queued@[k]);
                                assert(self.handler.received_log()[j]
                                    == prev.handler.received_log()[j]);
                            } else {
                                assert(self.queued@[k] == e);
                                assert(j == self.handler.received_log().len() - 1);
                            }
                        }
                    }
                },
                Ok(Message::Response(resp)) => {
                    proof {
                        lemma_read_extends(
                            prev.handler.received_log(),
                            self.handler.received_log(),
                            orig.handler.received_log(),
                        );
                        assert forall|k: int|
                            orig.queued@.len() <= k < self.queued@.len() implies ({
                            let j = orig.handler.received_log().len() + (k - orig.queued@.len());
                            j < self.handler.received_log().len() && is_queued_event_of(
                                #[trigger] self.queued@[k],
                                self.handler.received_log()[j],
                            )
                        }) by {
                            let j = orig.handler.received_log().len() + (k - orig.queued@.len());
                            assert(self.handler.received_log()[j]
                                == prev.handler.received_log()[j]);
                        }
                    }
                    self.pending_count = self.pending_count - 1;
                    self.pending = Ghost(self.pending@.drop_first());
                    return Ok(resp);
                },
            }
            if budget == 0 {
                self.closed = true;
                return Err(Error::IoError("read limit reached".to_owned()));
            }
            budget = budget - 1;
        }
    }

    /// Send a request to DaZeus and wait for its response; events that
    /// arrive while waiting are queued for dispatch.
    pub fn try_send(&mut self, request: Request) -> (r: Result<Response, Error>)
        requires
            old(self).wf(),
            !(request matches Request::Unsubscribe(EventType::Command(_))),
        ensures
            final(self).wf(),
            final(self).listeners_model() == old(self).listeners_model(),
            final(self).next_handle() == old(self).next_handle(),
            final(self).received_log().len() >= old(self).received_log().len(),
            final(self).received_log().take(old(self).received_log().len() as int) == old(
                self,
            ).received_log(),
            queued_extension_ok(old(self), final(self)),
            match r {
                Ok(resp) => ({
                    &&& final(self).received_log().len() > old(self).received_log().len()
                    &&& final(self).queued_events().len() == old(self).queued_events().len() + (
                    final(self).received_log().len() - old(self).received_log().len() - 1)
                    &&& final(self).sent_log() == old(self).sent_log().push(request.wire_json())
                    &&& final(self).pending_log() == old(self).pending_log().push(
                        request.wire_json(),
                    ).drop_first()
                    &&& resp.spec_data() == final(self).received_log().last()
                    &&& !json_has_key(final(self).received_log().last(), "event"@)
                }),
                Err(e) => ({
                    &&& (final(self).sent_log() == old(self).sent_log() || final(self).sent_log()
                        == old(self).sent_log().push(request.wire_json()))
                    &&& final(self).is_closed() || e is ReceiveError
                }),
            },
    {
        match self.send_request(request) {
            Ok(_) => {},
            Err(e) => {
                return Err(e);
            },
        }
        let ghost mid = *self;
        let r = self.recv_response();
        proof {
            assert(queued_extension_ok(&mid, self));
            assert(mid.queued_events() == old(self).queued_events());
            assert(mid.received_log() == old(self).received_log());
        }
        r
    }

    /// Wait for the next message and return it if it is an event; a
    /// response frame arriving here, with no request outstanding, is a
    /// protocol violation and closes the session.
    pub fn try_next_event(&mut self) -> (r: Result<Event, Error>)
        requires
            old(self).wf(),
        ensures
            final(self).wf(),
            final(self).sent_log() == old(self).sent_log(),
            final(self).pending_log() == old(self).pending_log(),
            final(self).listeners_model() == old(self).listeners_model(),
            final(self).next_handle() == old(self).next_handle(),
            final(self).queued_events() == old(self).queued_events(),
            final(self).received_log().take(old(self).received_log().len() as int) =~= old(
                self,
            ).received_log(),
            match r {
                Ok(e) => ({
                    &&& !old(self).is_closed()
                    &&& !final(self).is_closed()
                    &&& final(self).received_log().len() == old(self).received_log().len() + 1
                    &&& is_queued_event_of(e, final(self).received_log().last())
                }),
                Err(e) => ({
                    &&& final(self).is_closed()
                    &&& (e is ConnectionClosed <==> old(self).is_closed())
                    &&& (e is ReceiveError ==> final(self).received_log().len() == old(
                        self,
                    ).received_log().len() + 1 && !json_has_key(
                        final(self).received_log().last(),
                        "event"@,
                    ))
                    &&& ((e is IoError || e is JsonParserError || e is InvalidJsonError
                        || e is ConnectionClosed) ==> final(self).received_log() == old(
                        self,
                    ).received_log())
                    &&& (e is ConnectionClosed || e is ReceiveError || e is IoError || e
                        is JsonParserError || e is InvalidJsonError)
                }),
            },
    {
        if self.closed {
            return Err(Error::ConnectionClosed);
        }
        match self.handler.read() {
            Err(e) => {
                self.closed = true;
                Err(e)
            },
            Ok(Message::Event(e)) => Ok(e),
            Ok(Message::Response(_)) => {
                self.closed = true;
                Err(Error::ReceiveError(ReceiveError::new()))
            },
        }
    }

    /// Hand out the events queued while responses were awaited; the
    /// queue is left empty.
    pub fn take_queued_events(&mut self) -> (r: Vec<Event>)
        requires
            old(self).wf(),
        ensures
            final(self).wf(),
            r@ == old(self).queued_events(),
            final(self).queued_events() == Seq::<Event>::empty(),
            final(self).sent_log() == old(self).sent_log(),
            final(self).received_log() == old(self).received_log(),
            final(self).pending_log() == old(self).pending_log(),
            final(self).listeners_model() == old(self).listeners_model(),
            final(self).next_handle() == old(self).next_handle(),
            final(self).is_closed() == old(self).is_closed(),
    {
        let r = self.queued.split_off(0);
        proof {
            assert(r@ =~= old(self).queued_events());
            assert(self.queued@ =~= Seq::<Event>::empty());
        }
        r
    }

    /// The handles an event is dispatched to: every listener registered
    /// for the event's kind, in registration order.
    pub fn dispatch_targets(&self, event: &Event) -> (r: Vec<ListenerHandle>)
        ensures
            r@ == targets_of(self.listeners_model(), event.event),
    {
        let n = self.listeners.len();
        let mut out: Vec<ListenerHandle> = Vec::new();
        let mut i: usize = 0;
        while i < n
            invariant
                0 <= i <= n,
                n == self.listeners@.len(),
                out@ =~= targets_of(self.listeners@.take(i as int), event.event),
            decreases n - i,
        {
            proof {
                assert(self.listeners@.take(i + 1).drop_last() =~= self.listeners@.take(i as int));
                assert(self.listeners@.take(i + 1).last() == self.listeners@[i as int]);
            }
            if self.listeners[i].event == event.event {
                out.push(self.listeners[i].handle);
            }
            i += 1;
        }
        proof {
            assert(self.listeners@.take(n as int) =~= self.listeners@);
        }
        out
    }

    /// The kind registered under the given handle, if any.
    fn find_handle_kind(&self, handle: ListenerHandle) -> (r: Option<EventType>)
        ensures
            match r {
                Some(k) => handle_kind(self.listeners_model(), handle) == Some(k),
                None => handle_kind(self.listeners_model(), handle) is None,
            },
    {
        let n = self.listeners.len();
        let mut i: usize = 0;
        while i < n
            invariant
                0 <= i <= n,
                n == self.listeners@.len(),
                forall|k: int| 0 <= k < i ==> self.listeners@[k].handle != handle,
            decreases n - i,
        {
            if self.listeners[i].has_handle(handle) {
                proof {
                    lemma_handle_kind_skip(self.listeners@, handle, i as int);
                    assert(self.listeners@.skip(i as int)[0] == self.listeners@[i as int]);
                }
                return Some(self.listeners[i].event.clone());
            }
            i += 1;
        }
        proof {
            lemma_handle_kind_skip(self.listeners@, handle, n as int);
            assert(self.listeners@.skip(n as int) =~= Seq::<Listener>::empty());
        }
        None
    }

    /// Remove every registration issued under the given handle.
    fn remove_listeners_with_handle(&mut self, handle: ListenerHandle)
        ensures
            final(self).listeners_model() == without_handle(old(self).listeners_model(), handle),
            final(self).handler == old(self).handler,
            final(self).current_handle == old(self).current_handle,
            final(self).queued == old(self).queued,
            final(self).pending == old(self).pending,
            final(self).pending_count == old(self).pending_count,
            final(self).closed == old(self).closed,
    {
        let n = self.listeners.len();
        let mut kept: Vec<Listener> = Vec::new();
        let mut i: usize = 0;
        while i < n
            invariant
                0 <= i <= n,
                n == self.listeners@.len(),
                kept@ =~= without_handle(self.listeners@.take(i as int), handle),
            decreases n - i,
        {
            proof {
                assert(self.listeners@.take(i + 1).drop_last() =~= self.listeners@.take(i as int));
                assert(self.listeners@.take(i + 1).last() == self.listeners@[i as int]);
            }
            if !self.listeners[i].has_handle(handle) {
                kept.push(self.listeners[i].clone());
            }
            i += 1;
        }
        proof {
            assert(self.listeners@.take(n as int) =~= self.listeners@);
        }
        self.listeners = kept;
    }

    /// Remove every registration for the given kind.
    fn remove_listeners_with_kind(&mut self, kind: &EventType)
        ensures
            final(self).listeners_model() == without_kind(old(self).listeners_model(), *kind),
            final(self).handler == old(self).handler,
            final(self).current_handle == old(self).current_handle,
            final(self).queued == old(self).queued,
            final(self).pending == old(self).pending,
            final(self).pending_count == old(self).pending_count,
            final(self).closed == old(self).closed,
    {
        let n = self.listeners.len();
        let mut kept: Vec<Listener> = Vec::new();
        let mut i: usize = 0;
        while i < n
            invariant
                0 <= i <= n,
                n == self.listeners@.len(),
                kept@ =~= without_kind(self.listeners@.take(i as int), *kind),
            decreases n - i,
        {
            proof {
                assert(self.listeners@.take(i + 1).drop_last() =~= self.listeners@.take(i as int));
                assert(self.listeners@.take(i + 1).last() == self.listeners@[i as int]);
            }
            if !(self.listeners[i].event == *kind) {
                kept.push(self.listeners[i].clone());
            }
            i += 1;
        }
        proof {
            assert(self.listeners@.take(n as int) =~= self.listeners@);
        }
        self.listeners = kept;
    }

    /// Subscribe to an event type: the listener is registered locally
    /// under a fresh handle, and a wire request is sent only where the
    /// protocol asks for one. A command subscription always goes to the
    /// wire; any other kind is subscribed on the wire only when it had no
    /// listener yet.
    ///
    /// The de-duplication is a deliberate deviation: re-sending the
    /// subscription on every call is also protocol-compatible and some
    /// deployed clients do so, but one wire subscription per kind is
    /// strictly fewer round trips for the same effect.
    pub fn subscribe(&mut self, event: EventType) -> (r: Result<(ListenerHandle, Response), Error>)
        requires
            old(self).wf(),
            old(self).next_handle() < u64::MAX,
        ensures
            final(self).wf(),
            queued_extension_ok(old(self), final(self)),
            final(self).received_log().take(old(self).received_log().len() as int) =~= old(
                self,
            ).received_log(),
            match r {
                Ok(hr) => ({
                    &&& hr.0 == old(self).next_handle()
                    &&& final(self).next_handle() == old(self).next_handle() + 1
                    &&& final(self).listeners_model() == old(self).listeners_model().push(
                        (Listener { event, handle: old(self).next_handle() }),
                    )
                    &&& match event {
                        EventType::Command(cmd) => final(self).sent_log() == old(
                            self,
                        ).sent_log().push(subscribe_command_wire(cmd@)) && hr.1.spec_data()
                            == final(self).received_log().last(),
                        _ => if has_kind(old(self).listeners_model(), event) {
                            final(self).sent_log() == old(self).sent_log() && hr.1.spec_data()
                                == success_json()
                        } else {
                            final(self).sent_log() == old(self).sent_log().push(
                                subscribe_wire(event.spec_name()),
                            ) && hr.1.spec_data() == final(self).received_log().last()
                        },
                    }
                }),
                Err(e) => ({
                    &&& match event {
                        EventType::Command(_) => true,
                        _ => !has_kind(old(self).listeners_model(), event),
                    }
                    &&& final(self).listeners_model() == old(self).listeners_model().push(
                        (Listener { event, handle: old(self).next_handle() }),
                    )
                    &&& final(self).next_handle() == old(self).next_handle() + 1
                    &&& (final(self).sent_log() == old(self).sent_log() || final(self).sent_log()
                        == old(self).sent_log().push(
                        match event {
                            EventType::Command(cmd) => subscribe_command_wire(cmd@),
                            _ => subscribe_wire(event.spec_name()),
                        },
                    ))
                    &&& (final(self).is_closed() || e is ReceiveError)
                }),
            },
    {
        let handle = self.current_handle;
        self.current_handle = self.current_handle + 1;
        match event {
            EventType::Command(cmd) => {
                self.listeners.push(Listener::new(handle, EventType::Command(cmd.clone())));
                let req = Request::SubscribeCommand(cmd, None);
                proof {
                    assert(req.spec_action() == "do"@);
                    assert(req.spec_verb() == "command"@);
                    assert(req.spec_scope_entry() is None);
                    assert(req.spec_params() =~= seq![JsonSpec::Str(req->SubscribeCommand_0@)]);
                    assert(req.wire_json()->Obj_0 =~= subscribe_command_wire(
                        req->SubscribeCommand_0@,
                    )->Obj_0);
                    assert(req.wire_json() =~~= subscribe_command_wire(req->SubscribeCommand_0@));
                }
                match self.try_send(req) {
                    Ok(resp) => Ok((handle, resp)),
                    Err(e) => Err(e),
                }
            },
            _ => {
                let existing = self.has_any_subscription(event.clone());
                self.listeners.push(Listener::new(handle, event.clone()));
                if existing {
                    Ok((handle, Response::for_success()))
                } else {
                    let req = Request::Subscribe(event);
                    proof {
                        assert(req.spec_action() == "do"@);
                        assert(req.spec_verb() == "subscribe"@);
                        assert(req.spec_scope_entry() is None);
                        assert(req.spec_params() =~= seq![
                            JsonSpec::Str(req->Subscribe_0.spec_name()),
                        ]);
                        assert(req.wire_json()->Obj_0 =~= subscribe_wire(
                            req->Subscribe_0.spec_name(),
                        )->Obj_0);
                        assert(req.wire_json() =~~= subscribe_wire(req->Subscribe_0.spec_name()));
                    }
                    match self.try_send(req) {
                        Ok(resp) => Ok((handle, resp)),
                        Err(e) => Err(e),
                    }
                }
            },
        }
    }

    /// Subscribe to a command and receive a `Command` event every time
    /// it is invoked.
    pub fn subscribe_command(&mut self, command: &str) -> (r: Result<
        (ListenerHandle, Response),
        Error,
    >)
        requires
            old(self).wf(),
            old(self).next_handle() < u64::MAX,
        ensures
            final(self).wf(),
            queued_extension_ok(old(self), final(self)),
            match r {
                Ok(hr) => ({
                    &&& hr.0 == old(self).next_handle()
                    &&& final(self).next_handle() == old(self).next_handle() + 1
                    &&& final(self).listeners_model().len() == old(self).listeners_model().len()
                        + 1
                    &&& final(self).sent_log() == old(self).sent_log().push(
                        subscribe_command_wire(command@),
                    )
                }),
                Err(e) => final(self).is_closed() || e is ReceiveError,
            },
    {
        self.subscribe(EventType::Command(command.to_owned()))
    }

    /// Unsubscribe a listener by its handle. Removing a listener for a
    /// command kind, or one that leaves other listeners of its kind
    /// behind, never touches the wire; removing the last listener of any
    /// other kind sends one wire unsubscription. An unknown handle
    /// yields a failure response, not an error.
    pub fn unsubscribe(&mut self, handle: ListenerHandle) -> (r: Result<Response, Error>)
        requires
            old(self).wf(),
        ensures
            final(self).wf(),
            final(self).next_handle() == old(self).next_handle(),
            queued_extension_ok(old(self), final(self)),
            final(self).listeners_model() == without_handle(old(self).listeners_model(), handle),
            match r {
                Ok(resp) => match handle_kind(old(self).listeners_model(), handle) {
                    None => final(self).sent_log() == old(self).sent_log() && resp.spec_data()
                        == fail_json("Could not find listener with given handle"@),
                    Some(k) => if k matches EventType::Command(_) {
                        final(self).sent_log() == old(self).sent_log() && resp.spec_data()
                            == success_json()
                    } else if has_kind(
                        without_handle(old(self).listeners_model(), handle),
                        k,
                    ) {
                        final(self).sent_log() == old(self).sent_log() && resp.spec_data()
                            == success_json()
                    } else {
                        ({
                            &&& final(self).sent_log() == old(self).sent_log().push(
                                unsubscribe_wire(k.spec_name()),
                            )
                            &&& resp.spec_data() == final(self).received_log().last()
                            &&& !json_has_key(final(self).received_log().last(), "event"@)
                        })
                    },
                },
                Err(e) => ({
                    &&& handle_kind(old(self).listeners_model(), handle) matches Some(k) && !(k
                        matches EventType::Command(_)) && !has_kind(
                        without_handle(old(self).listeners_model(), handle),
                        k,
                    ) && (final(self).sent_log() == old(self).sent_log() || final(self).sent_log()
                        == old(self).sent_log().push(unsubscribe_wire(k.spec_name())))
                    &&& (final(self).is_closed() || e is ReceiveError)
                }),
            },
    {
        let found = self.find_handle_kind(handle);
        self.remove_listeners_with_handle(handle);
        match found {
            None => Ok(Response::for_fail("Could not find listener with given handle")),
            Some(EventType::Command(_)) => Ok(Response::for_success()),
            Some(kind) => {
                if self.has_any_subscription(kind.clone()) {
                    Ok(Response::for_success())
                } else {
                    let req = Request::Unsubscribe(kind);
                    proof {
                        assert(req.spec_action() == "do"@);
                        assert(req.spec_verb() == "unsubscribe"@);
                        assert(req.spec_scope_entry() is None);
                        assert(req.spec_params() =~= seq![
                            JsonSpec::Str(req->Unsubscribe_0.spec_name()),
                        ]);
                        assert(req.wire_json()->Obj_0 =~= unsubscribe_wire(
                            req->Unsubscribe_0.spec_name(),
                        )->Obj_0);
                        assert(req.wire_json() =~~= unsubscribe_wire(
                            req->Unsubscribe_0.spec_name(),
                        ));
                    }
                    self.try_send(req)
                }
            },
        }
    }

    /// Remove all subscriptions for a specific event type. For a command
    /// kind the removal is purely local; for any other kind one wire
    /// unsubscription is sent, whether or not listeners existed.
    pub fn unsubscribe_all(&mut self, event: EventType) -> (r: Result<Response, Error>)
        requires
            old(self).wf(),
        ensures
            final(self).wf(),
            final(self).next_handle() == old(self).next_handle(),
            queued_extension_ok(old(self), final(self)),
            final(self).listeners_model() == without_kind(old(self).listeners_model(), event),
            match r {
                Ok(resp) => match event {
                    EventType::Command(_) => final(self).sent_log() == old(self).sent_log()
                        && resp.spec_data() == success_json(),
                    _ => ({
                        &&& final(self).sent_log() == old(self).sent_log().push(
                            unsubscribe_wire(event.spec_name()),
                        )
                        &&& resp.spec_data() == final(self).received_log().last()
                        &&& !json_has_key(final(self).received_log().last(), "event"@)
                    }),
                },
                Err(e) => ({
                    &&& !(event matches EventType::Command(_))
                    &&& (final(self).sent_log() == old(self).sent_log() || final(self).sent_log()
                        == old(self).sent_log().push(unsubscribe_wire(event.spec_name())))
                    &&& (final(self).is_closed() || e is ReceiveError)
                }),
            },
    {
        self.remove_listeners_with_kind(&event);
        match event {
            EventType::Command(_) => Ok(Response::for_success()),
            _ => {
                let req = Request::Unsubscribe(event);
                proof {
                    assert(req.spec_action() == "do"@);
                    assert(req.spec_verb() == "unsubscribe"@);
                    assert(req.spec_scope_entry() is None);
                    assert(req.spec_params() =~= seq![
                        JsonSpec::Str(req->Unsubscribe_0.spec_name()),
                    ]);
                    assert(req.wire_json()->Obj_0 =~= unsubscribe_wire(
                        req->Unsubscribe_0.spec_name(),
                    )->Obj_0);
                    assert(req.wire_json() =~~= unsubscribe_wire(req->Unsubscribe_0.spec_name()));
                }
                self.try_send(req)
            },
        }
    }


    /// Retrieve the networks the bot is connected to.
    pub fn networks(&mut self) -> (r: Result<Response, Error>)
        requires
            old(self).wf(),
        ensures
            session_step_ok(old(self), final(self)),
            match r {
                Ok(resp) => responded(old(self), final(self), wire_doc_no_params("get"@, "networks"@), &resp),
                Err(e) => final(self).is_closed() || e is ReceiveError,
            },
    {
        let req = Request::Networks;
        proof {
            assert(req.spec_action() == "get"@);
            assert(req.spec_verb() == "networks"@);
            assert(req.spec_params() =~= Seq::<JsonSpec>::empty());
            assert(req.wire_json()->Obj_0 =~= (wire_doc_no_params("get"@, "networks"@))->Obj_0);
            assert(req.wire_json() =~~= wire_doc_no_params("get"@, "networks"@));
        }
        self.try_send(req)
    }


    /// Retrieve the channels the bot is in for a given network.
    pub fn channels(&mut self, network: &str) -> (r: Result<Response, Error>)
        requires
            old(self).wf(),
        ensures
            session_step_ok(old(self), final(self)),
            match r {
                Ok(resp) => responded(old(self), final(self), wire_doc("get"@, "channels"@, seq![JsonSpec::Str(network@)]), &resp),
                Err(e) => final(self).is_closed() || e is ReceiveError,
            },
    {
        let req = Request::Channels(network.to_owned());
        proof {
            assert(req.spec_action() == "get"@);
            assert(req.spec_verb() == "channels"@);
            assert(req.spec_params() =~= seq![JsonSpec::Str(network@)]);
            assert(req.wire_json()->Obj_0 =~= (wire_doc("get"@, "channels"@, seq![JsonSpec::Str(network@)]))->Obj_0);
            assert(req.wire_json() =~~= wire_doc("get"@, "channels"@, seq![JsonSpec::Str(network@)]));
        }
        self.try_send(req)
    }


    /// Retrieve the nickname of the bot on the given network.
    pub fn nick(&mut self, network: &str) -> (r: Result<Response, Error>)
        requires
            old(self).wf(),
        ensures
            session_step_ok(old(self), final(self)),
            match r {
                Ok(resp) => responded(old(self), final(self), wire_doc("get"@, "nick"@, seq![JsonSpec::Str(network@)]), &resp),
                Err(e) => final(self).is_closed() || e is ReceiveError,
            },
    {
        let req = Request::Nick(network.to_owned());
        proof {
            assert(req.spec_action() == "get"@);
            assert(req.spec_verb() == "nick"@);
            assert(req.spec_params() =~= seq![JsonSpec::Str(network@)]);
            assert(req.wire_json()->Obj_0 =~= (wire_doc("get"@, "nick"@, seq![JsonSpec::Str(network@)]))->Obj_0);
            assert(req.wire_json() =~~= wire_doc("get"@, "nick"@, seq![JsonSpec::Str(network@)]));
        }
        self.try_send(req)
    }


    /// Send a message to a specific channel using the PRIVMSG method.
    pub fn message(&mut self, network: &str, channel: &str, message: &str) -> (r: Result<Response, Error>)
        requires
            old(self).wf(),
        ensures
            session_step_ok(old(self), final(self)),
            match r {
                Ok(resp) => responded(old(self), final(self), message_doc("message"@, network@, channel@, message@), &resp),
                Err(e) => final(self).is_closed() || e is ReceiveError,
            },
    {
        let req = Request::Message(network.to_owned(), channel.to_owned(), message.to_owned());
        proof {
            assert(req.spec_action() == "do"@);
            assert(req.spec_verb() == "message"@);
            assert(req.spec_params() =~= seq![JsonSpec::Str(network@), JsonSpec::Str(channel@), JsonSpec::Str(message@)]);
            assert(req.wire_json()->Obj_0 =~= (message_doc("message"@, network@, channel@, message@))->Obj_0);
            assert(req.wire_json() =~~= message_doc("message"@, network@, channel@, message@));
        }
        self.try_send(req)
    }


    /// Send a NOTICE to a specific channel.
    pub fn notice(&mut self, network: &str, channel: &str, message: &str) -> (r: Result<Response, Error>)
        requires
            old(self).wf(),
        ensures
            session_step_ok(old(self), final(self)),
            match r {
                Ok(resp) => responded(old(self), final(self), message_doc("notice"@, network@, channel@, message@), &resp),
                Err(e) => final(self).is_closed() || e is ReceiveError,
            },
    {
        let req = Request::Notice(network.to_owned(), channel.to_owned(), message.to_owned());
        proof {
            assert(req.spec_action() == "do"@);
            assert(req.spec_verb() == "notice"@);
            assert(req.spec_params() =~= seq![JsonSpec::Str(network@), JsonSpec::Str(channel@), JsonSpec::Str(message@)]);
            assert(req.wire_json()->Obj_0 =~= (message_doc("notice"@, network@, channel@, message@))->Obj_0);
            assert(req.wire_json() =~~= message_doc("notice"@, network@, channel@, message@));
        }
        self.try_send(req)
    }


    /// Send a CTCP REQUEST to a specific channel.
    pub fn ctcp(&mut self, network: &str, channel: &str, message: &str) -> (r: Result<Response, Error>)
        requires
            old(self).wf(),
        ensures
            session_step_ok(old(self), final(self)),
            match r {
                Ok(resp) => responded(old(self), final(self), message_doc("ctcp"@, network@, channel@, message@), &resp),
                Err(e) => final(self).is_closed() || e is ReceiveError,
            },
    {
        let req = Request::Ctcp(network.to_owned(), channel.to_owned(), message.to_owned());
        proof {
            assert(req.spec_action() == "do"@);
            assert(req.spec_verb() == "ctcp"@);
            assert(req.spec_params() =~= seq![JsonSpec::Str(network@), JsonSpec::Str(channel@), JsonSpec::Str(message@)]);
            assert(req.wire_json()->Obj_0 =~= (message_doc("ctcp"@, network@, channel@, message@))->Obj_0);
            assert(req.wire_json() =~~= message_doc("ctcp"@, network@, channel@, message@));
        }
        self.try_send(req)
    }


    /// Send a CTCP REPLY to a specific channel.
    pub fn ctcp_reply(&mut self, network: &str, channel: &str, message: &str) -> (r: Result<Response, Error>)
        requires
            old(self).wf(),
        ensures
            session_step_ok(old(self), final(self)),
            match r {
                Ok(resp) => responded(old(self), final(self), message_doc("ctcp_rep"@, network@, channel@, message@), &resp),
                Err(e) => final(self).is_closed() || e is ReceiveError,
            },
    {
        let req = Request::CtcpReply(network.to_owned(), channel.to_owned(), message.to_owned());
        proof {
            assert(req.spec_action() == "do"@);
            assert(req.spec_verb() == "ctcp_rep"@);
            assert(req.spec_params() =~= seq![JsonSpec::Str(network@), JsonSpec::Str(channel@), JsonSpec::Str(message@)]);
            assert(req.wire_json()->Obj_0 =~= (message_doc("ctcp_rep"@, network@, channel@, message@))->Obj_0);
            assert(req.wire_json() =~~= message_doc("ctcp_rep"@, network@, channel@, message@));
        }
        self.try_send(req)
    }


    /// Send a CTCP ACTION to a specific channel.
    pub fn action(&mut self, network: &str, channel: &str, message: &str) -> (r: Result<Response, Error>)
        requires
            old(self).wf(),
        ensures
            session_step_ok(old(self), final(self)),
            match r {
                Ok(resp) => responded(old(self), final(self), message_doc("action"@, network@, channel@, message@), &resp),
                Err(e) => final(self).is_closed() || e is ReceiveError,
            },
    {
        let req = Request::Action(network.to_owned(), channel.to_owned(), message.to_owned());
        proof {
            assert(req.spec_action() == "do"@);
            assert(req.spec_verb() == "action"@);
            assert(req.spec_params() =~= seq![JsonSpec::Str(network@), JsonSpec::Str(channel@), JsonSpec::Str(message@)]);
            assert(req.wire_json()->Obj_0 =~= (message_doc("action"@, network@, channel@, message@))->Obj_0);
            assert(req.wire_json() =~~= message_doc("action"@, network@, channel@, message@));
        }
        self.try_send(req)
    }


    /// Send a request for the list of nicks in a channel.
    ///
    /// The response only indicates whether the request was submitted
    /// successfully; the names arrive later as an `EventType::Names`
    /// event.
    pub fn send_names(&mut self, network: &str, channel: &str) -> (r: Result<Response, Error>)
        requires
            old(self).wf(),
        ensures
            session_step_ok(old(self), final(self)),
            match r {
                Ok(resp) => responded(old(self), final(self), wire_doc("do"@, "names"@, seq![JsonSpec::Str(network@), JsonSpec::Str(channel@)]), &resp),
                Err(e) => final(self).is_closed() || e is ReceiveError,
            },
    {
        let req = Request::Names(network.to_owned(), channel.to_owned());
        proof {
            assert(req.spec_action() == "do"@);
            assert(req.spec_verb() == "names"@);
            assert(req.spec_params() =~= seq![JsonSpec::Str(network@), JsonSpec::Str(channel@)]);
            assert(req.wire_json()->Obj_0 =~= (wire_doc("do"@, "names"@, seq![JsonSpec::Str(network@), JsonSpec::Str(channel@)]))->Obj_0);
            assert(req.wire_json() =~~= wire_doc("do"@, "names"@, seq![JsonSpec::Str(network@), JsonSpec::Str(channel@)]));
        }
        self.try_send(req)
    }


    /// Send a request for a whois of a specific nick on some network.
    ///
    /// The response only indicates whether the request was submitted
    /// successfully; the data arrives later as an `EventType::Whois`
    /// event.
    pub fn send_whois(&mut self, network: &str, nick: &str) -> (r: Result<Response, Error>)
        requires
            old(self).wf(),
        ensures
            session_step_ok(old(self), final(self)),
            match r {
                Ok(resp) => responded(old(self), final(self), wire_doc("do"@, "whois"@, seq![JsonSpec::Str(network@), JsonSpec::Str(nick@)]), &resp),
                Err(e) => final(self).is_closed() || e is ReceiveError,
            },
    {
        let req = Request::Whois(network.to_owned(), nick.to_owned());
        proof {
            assert(req.spec_action() == "do"@);
            assert(req.spec_verb() == "whois"@);
            assert(req.spec_params() =~= seq![JsonSpec::Str(network@), JsonSpec::Str(nick@)]);
            assert(req.wire_json()->Obj_0 =~= (wire_doc("do"@, "whois"@, seq![JsonSpec::Str(network@), JsonSpec::Str(nick@)]))->Obj_0);
            assert(req.wire_json() =~~= wire_doc("do"@, "whois"@, seq![JsonSpec::Str(network@), JsonSpec::Str(nick@)]));
        }
        self.try_send(req)
    }


    /// Try to join a channel on some network.
    pub fn join(&mut self, network: &str, channel: &str) -> (r: Result<Response, Error>)
        requires
            old(self).wf(),
        ensures
            session_step_ok(old(self), final(self)),
            match r {
                Ok(resp) => responded(old(self), final(self), wire_doc("do"@, "join"@, seq![JsonSpec::Str(network@), JsonSpec::Str(channel@)]), &resp),
                Err(e) => final(self).is_closed() || e is ReceiveError,
            },
    {
        let req = Request::Join(network.to_owned(), channel.to_owned());
        proof {
            assert(req.spec_action() == "do"@);
            assert(req.spec_verb() == "join"@);
            assert(req.spec_params() =~= seq![JsonSpec::Str(network@), JsonSpec::Str(channel@)]);
            assert(req.wire_json()->Obj_0 =~= (wire_doc("do"@, "join"@, seq![JsonSpec::Str(network@), JsonSpec::Str(channel@)]))->Obj_0);
            assert(req.wire_json() =~~= wire_doc("do"@, "join"@, seq![JsonSpec::Str(network@), JsonSpec::Str(channel@)]));
        }
        self.try_send(req)
    }


    /// Try to leave a channel on some network.
    pub fn part(&mut self, network: &str, channel: &str) -> (r: Result<Response, Error>)
        requires
            old(self).wf(),
        ensures
            session_step_ok(old(self), final(self)),
            match r {
                Ok(resp) => responded(old(self), final(self), wire_doc("do"@, "part"@, seq![JsonSpec::Str(network@), JsonSpec::Str(channel@)]), &resp),
                Err(e) => final(self).is_closed() || e is ReceiveError,
            },
    {
        let req = Request::Part(network.to_owned(), channel.to_owned());
        proof {
            assert(req.spec_action() == "do"@);
            assert(req.spec_verb() == "part"@);
            assert(req.spec_params() =~= seq![JsonSpec::Str(network@), JsonSpec::Str(channel@)]);
            assert(req.wire_json()->Obj_0 =~= (wire_doc("do"@, "part"@, seq![JsonSpec::Str(network@), JsonSpec::Str(channel@)]))->Obj_0);
            assert(req.wire_json() =~~= wire_doc("do"@, "part"@, seq![JsonSpec::Str(network@), JsonSpec::Str(channel@)]));
        }
        self.try_send(req)
    }


    /// Send a handshake to the DaZeus core: the plugin's name, its own
    /// version, the protocol version these bindings speak, and the name
    /// under which config is retrieved (the plugin's, unless another is
    /// given).
    pub fn handshake(&mut self, name: &str, version: &str, config: Option<&str>) -> (r: Result<
        Response,
        Error,
    >)
        requires
            old(self).wf(),
        ensures
            session_step_ok(old(self), final(self)),
            match r {
                Ok(resp) => responded(
                    old(self),
                    final(self),
                    wire_doc(
                        "do"@,
                        "handshake"@,
                        seq![
                            JsonSpec::Str(name@),
                            JsonSpec::Str(version@),
                            JsonSpec::Str("1"@),
                            JsonSpec::Str(
                                match config {
                                    Some(c) => c@,
                                    None => name@,
                                },
                            ),
                        ],
                    ),
                    &resp,
                ),
                Err(e) => final(self).is_closed() || e is ReceiveError,
            },
    {
        let cfg: Option<String> = match config {
            Some(c) => Some(c.to_owned()),
            None => None,
        };
        let req = Request::Handshake(name.to_owned(), version.to_owned(), cfg);
        proof {
            assert(req.spec_action() == "do"@);
            assert(req.spec_verb() == "handshake"@);
            assert(req.spec_params() =~= seq![
                JsonSpec::Str(name@),
                JsonSpec::Str(version@),
                JsonSpec::Str("1"@),
                JsonSpec::Str(
                    match config {
                        Some(c) => c@,
                        None => name@,
                    },
                ),
            ]);
            assert(req.wire_json()->Obj_0 =~= wire_doc(
                "do"@,
                "handshake"@,
                req.spec_params(),
            )->Obj_0);
        }
        self.try_send(req)
    }


    /// Retrieve a config value from the DaZeus config.
    pub fn get_config(&mut self, name: &str, group: ConfigGroup) -> (r: Result<Response, Error>)
        requires
            old(self).wf(),
        ensures
            session_step_ok(old(self), final(self)),
            match r {
                Ok(resp) => responded(
                    old(self),
                    final(self),
                    wire_doc(
                        "get"@,
                        "config"@,
                        seq![JsonSpec::Str(group.spec_name()), JsonSpec::Str(name@)],
                    ),
                    &resp,
                ),
                Err(e) => final(self).is_closed() || e is ReceiveError,
            },
    {
        let req = Request::Config(name.to_owned(), group);
        proof {
            assert(req.spec_action() == "get"@);
            assert(req.spec_verb() == "config"@);
            assert(req.spec_params() =~= seq![
                JsonSpec::Str(group.spec_name()),
                JsonSpec::Str(name@),
            ]);
            assert(req.wire_json()->Obj_0 =~= wire_doc(
                "get"@,
                "config"@,
                req.spec_params(),
            )->Obj_0);
        }
        self.try_send(req)
    }

    /// Retrieve the character that is used by the bot for highlighting.
    pub fn get_highlight_char(&mut self) -> (r: Result<Response, Error>)
        requires
            old(self).wf(),
        ensures
            session_step_ok(old(self), final(self)),
            match r {
                Ok(resp) => responded(
                    old(self),
                    final(self),
                    wire_doc(
                        "get"@,
                        "config"@,
                        seq![JsonSpec::Str("core"@), JsonSpec::Str("highlight"@)],
                    ),
                    &resp,
                ),
                Err(e) => final(self).is_closed() || e is ReceiveError,
            },
    {
        self.get_config("highlight", ConfigGroup::Core)
    }


    /// Retrieve a property stored in the bot database.
    pub fn get_property(&mut self, name: &str, scope: Scope) -> (r: Result<Response, Error>)
        requires
            old(self).wf(),
        ensures
            session_step_ok(old(self), final(self)),
            match r {
                Ok(resp) => responded(
                    old(self),
                    final(self),
                    wire_doc_scoped("do"@, "property"@, scope_entry_of(&scope), seq![JsonSpec::Str("get"@), JsonSpec::Str(name@)]),
                    &resp,
                ),
                Err(e) => final(self).is_closed() || e is ReceiveError,
            },
    {
        let ghost entry = scope_entry_of(&scope);
        let ghost params = seq![JsonSpec::Str("get"@), JsonSpec::Str(name@)];
        let req = Request::GetProperty(name.to_owned(), scope);
        proof {
            assert(req.spec_action() == "do"@);
            assert(req.spec_verb() == "property"@);
            assert(req.spec_params() =~= params);
            assert(req.spec_scope_entry() == entry);
            assert(req.wire_json()->Obj_0 =~= wire_doc_scoped(
                "do"@,
                "property"@,
                entry,
                params,
            )->Obj_0);
        }
        self.try_send(req)
    }


    /// Set a property to be stored in the bot database.
    pub fn set_property(&mut self, name: &str, value: &str, scope: Scope) -> (r: Result<Response, Error>)
        requires
            old(self).wf(),
        ensures
            session_step_ok(old(self), final(self)),
            match r {
                Ok(resp) => responded(
                    old(self),
                    final(self),
                    wire_doc_scoped("do"@, "property"@, scope_entry_of(&scope), seq![JsonSpec::Str("set"@), JsonSpec::Str(name@), JsonSpec::Str(value@)]),
                    &resp,
                ),
                Err(e) => final(self).is_closed() || e is ReceiveError,
            },
    {
        let ghost entry = scope_entry_of(&scope);
        let ghost params = seq![JsonSpec::Str("set"@), JsonSpec::Str(name@), JsonSpec::Str(value@)];
        let req = Request::SetProperty(name.to_owned(), value.to_owned(), scope);
        proof {
            assert(req.spec_action() == "do"@);
            assert(req.spec_verb() == "property"@);
            assert(req.spec_params() =~= params);
            assert(req.spec_scope_entry() == entry);
            assert(req.wire_json()->Obj_0 =~= wire_doc_scoped(
                "do"@,
                "property"@,
                entry,
                params,
            )->Obj_0);
        }
        self.try_send(req)
    }


    /// Remove a property stored in the bot database.
    pub fn unset_property(&mut self, name: &str, scope: Scope) -> (r: Result<Response, Error>)
        requires
            old(self).wf(),
        ensures
            session_step_ok(old(self), final(self)),
            match r {
                Ok(resp) => responded(
                    old(self),
                    final(self),
                    wire_doc_scoped("do"@, "property"@, scope_entry_of(&scope), seq![JsonSpec::Str("unset"@), JsonSpec::Str(name@)]),
                    &resp,
                ),
                Err(e) => final(self).is_closed() || e is ReceiveError,
            },
    {
        let ghost entry = scope_entry_of(&scope);
        let ghost params = seq![JsonSpec::Str("unset"@), JsonSpec::Str(name@)];
        let req = Request::UnsetProperty(name.to_owned(), scope);
        proof {
            assert(req.spec_action() == "do"@);
            assert(req.spec_verb() == "property"@);
            assert(req.spec_params() =~= params);
            assert(req.spec_scope_entry() == entry);
            assert(req.wire_json()->Obj_0 =~= wire_doc_scoped(
                "do"@,
                "property"@,
                entry,
                params,
            )->Obj_0);
        }
        self.try_send(req)
    }


    /// Retrieve a list of keys starting with the common prefix with the
    /// given scope.
    pub fn get_property_keys(&mut self, prefix: &str, scope: Scope) -> (r: Result<Response, Error>)
        requires
            old(self).wf(),
        ensures
            session_step_ok(old(self), final(self)),
            match r {
                Ok(resp) => responded(
                    old(self),
                    final(self),
                    wire_doc_scoped("do"@, "property"@, scope_entry_of(&scope), seq![JsonSpec::Str("keys"@), JsonSpec::Str(prefix@)]),
                    &resp,
                ),
                Err(e) => final(self).is_closed() || e is ReceiveError,
            },
    {
        let ghost entry = scope_entry_of(&scope);
        let ghost params = seq![JsonSpec::Str("keys"@), JsonSpec::Str(prefix@)];
        let req = Request::PropertyKeys(prefix.to_owned(), scope);
        proof {
            assert(req.spec_action() == "do"@);
            assert(req.spec_verb() == "property"@);
            assert(req.spec_params() =~= params);
            assert(req.spec_scope_entry() == entry);
            assert(req.wire_json()->Obj_0 =~= wire_doc_scoped(
                "do"@,
                "property"@,
                entry,
                params,
            )->Obj_0);
        }
        self.try_send(req)
    }


    /// Set a permission to either allow or deny for a specific scope.
    pub fn set_permission(&mut self, permission: &str, allow: bool, scope: Scope) -> (r: Result<Response, Error>)
        requires
            old(self).wf(),
        ensures
            session_step_ok(old(self), final(self)),
            match r {
                Ok(resp) => responded(
                    old(self),
                    final(self),
                    wire_doc_scoped("do"@, "permission"@, scope_entry_of(&scope), seq![JsonSpec::Str("set"@), JsonSpec::Str(permission@), JsonSpec::Bool(allow)]),
                    &resp,
                ),
                Err(e) => final(self).is_closed() || e is ReceiveError,
            },
    {
        let ghost entry = scope_entry_of(&scope);
        let ghost params = seq![JsonSpec::Str("set"@), JsonSpec::Str(permission@), JsonSpec::Bool(allow)];
        let req = Request::SetPermission(permission.to_owned(), allow, scope);
        proof {
            assert(req.spec_action() == "do"@);
            assert(req.spec_verb() == "permission"@);
            assert(req.spec_params() =~= params);
            assert(req.spec_scope_entry() == entry);
            assert(req.wire_json()->Obj_0 =~= wire_doc_scoped(
                "do"@,
                "permission"@,
                entry,
                params,
            )->Obj_0);
        }
        self.try_send(req)
    }


    /// Retrieve whether for some scope the given permission was set.
    ///
    /// The core will answer with the default if it was not.
    pub fn has_permission(&mut self, permission: &str, default: bool, scope: Scope) -> (r: Result<Response, Error>)
        requires
            old(self).wf(),
        ensures
            session_step_ok(old(self), final(self)),
            match r {
                Ok(resp) => responded(
                    old(self),
                    final(self),
                    wire_doc_scoped("do"@, "permission"@, scope_entry_of(&scope), seq![JsonSpec::Str("get"@), JsonSpec::Str(permission@), JsonSpec::Bool(default)]),
                    &resp,
                ),
                Err(e) => final(self).is_closed() || e is ReceiveError,
            },
    {
        let ghost entry = scope_entry_of(&scope);
        let ghost params = seq![JsonSpec::Str("get"@), JsonSpec::Str(permission@), JsonSpec::Bool(default)];
        let req = Request::HasPermission(permission.to_owned(), default, scope);
        proof {
            assert(req.spec_action() == "do"@);
            assert(req.spec_verb() == "permission"@);
            assert(req.spec_params() =~= params);
            assert(req.spec_scope_entry() == entry);
            assert(req.wire_json()->Obj_0 =~= wire_doc_scoped(
                "do"@,
                "permission"@,
                entry,
                params,
            )->Obj_0);
        }
        self.try_send(req)
    }


    /// Remove a set permission from the bot.
    pub fn unset_permission(&mut self, permission: &str, scope: Scope) -> (r: Result<Response, Error>)
        requires
            old(self).wf(),
        ensures
            session_step_ok(old(self), final(self)),
            match r {
                Ok(resp) => responded(
                    old(self),
                    final(self),
                    wire_doc_scoped("do"@, "permission"@, scope_entry_of(&scope), seq![JsonSpec::Str("unset"@), JsonSpec::Str(permission@)]),
                    &resp,
                ),
                Err(e) => final(self).is_closed() || e is ReceiveError,
            },
    {
        let ghost entry = scope_entry_of(&scope);
        let ghost params = seq![JsonSpec::Str("unset"@), JsonSpec::Str(permission@)];
        let req = Request::UnsetPermission(permission.to_owned(), scope);
        proof {
            assert(req.spec_action() == "do"@);
            assert(req.spec_verb() == "permission"@);
            assert(req.spec_params() =~= params);
            assert(req.spec_scope_entry() == entry);
            assert(req.wire_json()->Obj_0 =~= wire_doc_scoped(
                "do"@,
                "permission"@,
                entry,
                params,
            )->Obj_0);
        }
        self.try_send(req)
    }


    /// Send a whois request and wait for the event that answers it
    /// (blocking).
    ///
    /// A wire subscription to whois events is made first if no local
    /// listener wants them, and is taken back once the answer is in.
    /// Events that arrive before the answer are queued for dispatch.
    /// Note that the IRC server may be configured not to answer whois
    /// requests, in which case the wait does not complete.
    #[verifier::loop_isolation(false)]
    pub fn whois(&mut self, network: &str, nick: &str) -> (r: Result<Event, Error>)
        requires
            old(self).wf(),
        ensures
            session_multi_ok(old(self), final(self)),
            match r {
                Ok(e) => ({
                    &&& kind_eq(e.event, EventType::Whois)
                    &&& e.params.deep_view().len() >= 3
                    &&& e.params.deep_view()[0] == network@
                    &&& e.params.deep_view()[2] == nick@
                    &&& exists|j: int|
                        old(self).received_log().len() <= j < final(self).received_log().len()
                            && is_queued_event_of(e, #[trigger] final(self).received_log()[j])
                    &&& ({
                        let request_doc = wire_doc(
                            "do"@,
                            "whois"@,
                            seq![JsonSpec::Str(network@), JsonSpec::Str(nick@)],
                        );
                        if has_kind(old(self).listeners_model(), EventType::Whois) {
                            final(self).sent_log() == old(self).sent_log().push(request_doc)
                        } else {
                            final(self).sent_log() == old(self).sent_log().push(
                                subscribe_wire(EventType::Whois.spec_name()),
                            ).push(request_doc).push(unsubscribe_wire(EventType::Whois.spec_name()))
                        }
                    })
                }),
                Err(e) => final(self).is_closed() || e is ReceiveError,
            },
    {
        let had_listener = self.has_any_subscription(EventType::Whois);
        if !had_listener {
            let req = Request::Subscribe(EventType::Whois);
            proof {
                assert(req.spec_action() == "do"@);
                assert(req.spec_verb() == "subscribe"@);
                assert(req.spec_params() =~= seq![
                    JsonSpec::Str(req->Subscribe_0.spec_name()),
                ]);
                assert(req.wire_json()->Obj_0 =~= subscribe_wire(
                    req->Subscribe_0.spec_name(),
                )->Obj_0);
                assert(req.wire_json() =~~= subscribe_wire(req->Subscribe_0.spec_name()));
            }
            match self.try_send(req) {
                Ok(_) => {},
                Err(e) => {
                    return Err(e);
                },
            }
        }
        let ghost before_request = *self;
        match self.send_whois(network, nick) {
            Ok(_) => {},
            Err(e) => {
                proof {
                    lemma_prefix_trans(
                        old(self).received_log(),
                        before_request.received_log(),
                        self.received_log(),
                    );
                    lemma_prefix_trans(
                        old(self).queued_events(),
                        before_request.queued_events(),
                        self.queued_events(),
                    );
                }
                return Err(e);
            },
        }
        proof {
            lemma_prefix_trans(
                old(self).received_log(),
                before_request.received_log(),
                self.received_log(),
            );
            lemma_prefix_trans(
                old(self).queued_events(),
                before_request.queued_events(),
                self.queued_events(),
            );
        }
        let ghost sent_at_wait = self.sent_log();
        let mut budget: usize = usize::MAX;
        loop
            invariant
                self.wf(),
                self.listeners_model() == old(self).listeners_model(),
                self.next_handle() == old(self).next_handle(),
                self.sent_log() == sent_at_wait,
                self.received_log().len() >= old(self).received_log().len(),
                self.received_log().take(old(self).received_log().len() as int) =~= old(
                    self,
                ).received_log(),
                self.queued_events().len() >= old(self).queued_events().len(),
                self.queued_events().take(old(self).queued_events().len() as int) =~= old(
                    self,
                ).queued_events(),
            decreases budget,
        {
            let ghost before_read = *self;
            let evt = match self.try_next_event() {
                Ok(e) => e,
                Err(err) => {
                    proof {
                        lemma_prefix_trans(
                            old(self).received_log(),
                            before_read.received_log(),
                            self.received_log(),
                        );
                    }
                    return Err(err);
                },
            };
            proof {
                lemma_prefix_trans(
                    old(self).received_log(),
                    before_read.received_log(),
                    self.received_log(),
                );
            }
            let is_match = evt.event == EventType::Whois;
            if is_match && evt.len() >= 3 {
                if crate::json::str_eq(evt.param(0), network) && crate::json::str_eq(
                    evt.param(2),
                    nick,
                ) {
                    let ghost ev_idx = self.received_log().len() - 1;
                    if !self.has_any_subscription(EventType::Whois) {
                        let req = Request::Unsubscribe(EventType::Whois);
                        proof {
                            assert(req.spec_action() == "do"@);
                            assert(req.spec_verb() == "unsubscribe"@);
                            assert(req.spec_params() =~= seq![
                                JsonSpec::Str(req->Unsubscribe_0.spec_name()),
                            ]);
                            assert(req.wire_json()->Obj_0 =~= unsubscribe_wire(
                                req->Unsubscribe_0.spec_name(),
                            )->Obj_0);
                            assert(req.wire_json() =~~= unsubscribe_wire(
                                req->Unsubscribe_0.spec_name(),
                            ));
                        }
                        let ghost before_unsub = *self;
                        match self.try_send(req) {
                            Ok(_) => {},
                            Err(err) => {
                                proof {
                                    lemma_prefix_trans(
                                        old(self).received_log(),
                                        before_unsub.received_log(),
                                        self.received_log(),
                                    );
                                    lemma_prefix_trans(
                                        old(self).queued_events(),
                                        before_unsub.queued_events(),
                                        self.queued_events(),
                                    );
                                }
                                return Err(err);
                            },
                        }
                        proof {
                            lemma_prefix_trans(
                                old(self).received_log(),
                                before_unsub.received_log(),
                                self.received_log(),
                            );
                            lemma_prefix_trans(
                                old(self).queued_events(),
                                before_unsub.queued_events(),
                                self.queued_events(),
                            );
                            assert(self.received_log().take(
                                before_unsub.received_log().len() as int,
                            )[ev_idx] == self.received_log()[ev_idx]);
                        }
                    }
                    proof {
                        assert(is_queued_event_of(evt, self.received_log()[ev_idx]));
                    }
                    return Ok(evt);
                }
            }
            let ghost before_push = *self;
            self.queued.push(evt);
            proof {
                assert(self.queued@.drop_last() =~= before_push.queued@);
                lemma_prefix_trans(
                    old(self).queued_events(),
                    before_push.queued_events(),
                    self.queued_events(),
                );
            }
            if budget == 0 {
                self.closed = true;
                return Err(Error::IoError("read limit reached".to_owned()));
            }
            budget = budget - 1;
        }
    }

    /// Send a names request and wait for the event that answers it
    /// (blocking).
    ///
    /// A wire subscription to names events is made first if no local
    /// listener wants them, and is taken back once the answer is in.
    /// Events that arrive before the answer are queued for dispatch.
    /// Note that the IRC server may be configured not to answer names
    /// requests, in which case the wait does not complete.
    #[verifier::loop_isolation(false)]
    pub fn names(&mut self, network: &str, channel: &str) -> (r: Result<Event, Error>)
        requires
            old(self).wf(),
        ensures
            session_multi_ok(old(self), final(self)),
            match r {
                Ok(e) => ({
                    &&& kind_eq(e.event, EventType::Names)
                    &&& e.params.deep_view().len() >= 3
                    &&& e.params.deep_view()[0] == network@
                    &&& e.params.deep_view()[2] == channel@
                    &&& exists|j: int|
                        old(self).received_log().len() <= j < final(self).received_log().len()
                            && is_queued_event_of(e, #[trigger] final(self).received_log()[j])
                    &&& ({
                        let request_doc = wire_doc(
                            "do"@,
                            "names"@,
                            seq![JsonSpec::Str(network@), JsonSpec::Str(channel@)],
                        );
                        if has_kind(old(self).listeners_model(), EventType::Names) {
                            final(self).sent_log() == old(self).sent_log().push(request_doc)
                        } else {
                            final(self).sent_log() == old(self).sent_log().push(
                                subscribe_wire(EventType::Names.spec_name()),
                            ).push(request_doc).push(unsubscribe_wire(EventType::Names.spec_name()))
                        }
                    })
                }),
                Err(e) => final(self).is_closed() || e is ReceiveError,
            },
    {
        let had_listener = self.has_any_subscription(EventType::Names);
        if !had_listener {
            let req = Request::Subscribe(EventType::Names);
            proof {
                assert(req.spec_action() == "do"@);
                assert(req.spec_verb() == "subscribe"@);
                assert(req.spec_params() =~= seq![
                    JsonSpec::Str(req->Subscribe_0.spec_name()),
                ]);
                assert(req.wire_json()->Obj_0 =~= subscribe_wire(
                    req->Subscribe_0.spec_name(),
                )->Obj_0);
                assert(req.wire_json() =~~= subscribe_wire(req->Subscribe_0.spec_name()));
            }
            match self.try_send(req) {
                Ok(_) => {},
                Err(e) => {
                    return Err(e);
                },
            }
        }
        let ghost before_request = *self;
        match self.send_names(network, channel) {
            Ok(_) => {},
            Err(e) => {
                proof {
                    lemma_prefix_trans(
                        old(self).received_log(),
                        before_request.received_log(),
                        self.received_log(),
                    );
                    lemma_prefix_trans(
                        old(self).queued_events(),
                        before_request.queued_events(),
                        self.queued_events(),
                    );
                }
                return Err(e);
            },
        }
        proof {
            lemma_prefix_trans(
                old(self).received_log(),
                before_request.received_log(),
                self.received_log(),
            );
            lemma_prefix_trans(
                old(self).queued_events(),
                before_request.queued_events(),
                self.queued_events(),
            );
        }
        let ghost sent_at_wait = self.sent_log();
        let mut budget: usize = usize::MAX;
        loop
            invariant
                self.wf(),
                self.listeners_model() == old(self).listeners_model(),
                self.next_handle() == old(self).next_handle(),
                self.sent_log() == sent_at_wait,
                self.received_log().len() >= old(self).received_log().len(),
                self.received_log().take(old(self).received_log().len() as int) =~= old(
                    self,
                ).received_log(),
                self.queued_events().len() >= old(self).queued_events().len(),
                self.queued_events().take(old(self).queued_events().len() as int) =~= old(
                    self,
                ).queued_events(),
            decreases budget,
        {
            let ghost before_read = *self;
            let evt = match self.try_next_event() {
                Ok(e) => e,
                Err(err) => {
                    proof {
                        lemma_prefix_trans(
                            old(self).received_log(),
                            before_read.received_log(),
                            self.received_log(),
                        );
                    }
                    return Err(err);
                },
            };
            proof {
                lemma_prefix_trans(
                    old(self).received_log(),
                    before_read.received_log(),
                    self.received_log(),
                );
            }
            let is_match = evt.event == EventType::Names;
            if is_match && evt.len() >= 3 {
                if crate::json::str_eq(evt.param(0), network) && crate::json::str_eq(
                    evt.param(2),
                    channel,
                ) {
                    let ghost ev_idx = self.received_log().len() - 1;
                    if !self.has_any_subscription(EventType::Names) {
                        let req = Request::Unsubscribe(EventType::Names);
                        proof {
                            assert(req.spec_action() == "do"@);
                            assert(req.spec_verb() == "unsubscribe"@);
                            assert(req.spec_params() =~= seq![
                                JsonSpec::Str(req->Unsubscribe_0.spec_name()),
                            ]);
                            assert(req.wire_json()->Obj_0 =~= unsubscribe_wire(
                                req->Unsubscribe_0.spec_name(),
                            )->Obj_0);
                            assert(req.wire_json() =~~= unsubscribe_wire(
                                req->Unsubscribe_0.spec_name(),
                            ));
                        }
                        let ghost before_unsub = *self;
                        match self.try_send(req) {
                            Ok(_) => {},
                            Err(err) => {
                                proof {
                                    lemma_prefix_trans(
                                        old(self).received_log(),
                                        before_unsub.received_log(),
                                        self.received_log(),
                                    );
                                    lemma_prefix_trans(
                                        old(self).queued_events(),
                                        before_unsub.queued_events(),
                                        self.queued_events(),
                                    );
                                }
                                return Err(err);
                            },
                        }
                        proof {
                            lemma_prefix_trans(
                                old(self).received_log(),
                                before_unsub.received_log(),
                                self.received_log(),
                            );
                            lemma_prefix_trans(
                                old(self).queued_events(),
                                before_unsub.queued_events(),
                                self.queued_events(),
                            );
                            assert(self.received_log().take(
                                before_unsub.received_log().len() as int,
                            )[ev_idx] == self.received_log()[ev_idx]);
                        }
                    }
                    proof {
                        assert(is_queued_event_of(evt, self.received_log()[ev_idx]));
                    }
                    return Ok(evt);
                }
            }
            let ghost before_push = *self;
            self.queued.push(evt);
            proof {
                assert(self.queued@.drop_last() =~= before_push.queued@);
                lemma_prefix_trans(
                    old(self).queued_events(),
                    before_push.queued_events(),
                    self.queued_events(),
                );
            }
            if budget == 0 {
                self.closed = true;
                return Err(Error::IoError("read limit reached".to_owned()));
            }
            budget = budget - 1;
        }
    }

    /// Send a reply in response to some event.
    ///
    /// A direct message is answered to its sender; a channel message in
    /// its channel, optionally prefixed with the sender's nick so their
    /// client highlights the line. Which of the two it is follows from
    /// the bot's own nick, asked of the core first. Events that carry no
    /// reply targets yield a failure response.
    pub fn reply(&mut self, event: &Event, message: &str, highlight: bool) -> (r: Result<Response, Error>)
        requires
            old(self).wf(),
        ensures
            session_multi_ok(old(self), final(self)),
            match r {
                Ok(resp) => ({
                    let dv = event.params.deep_view();
                    if repliable(event.event) && dv.len() >= 3 {
                        &&& final(self).sent_log().len() == old(self).sent_log().len() + 2
                        &&& final(self).sent_log()[old(self).sent_log().len() as int]
                            == wire_doc("get"@, "nick"@, seq![JsonSpec::Str(dv[0])])
                        &&& ({
                            let j = first_response_from(
                                final(self).received_log(),
                                old(self).received_log().len() as int,
                            );
                            let nick = nick_of(final(self).received_log()[j]);
                            let last = final(self).sent_log().last();
                            &&& j < final(self).received_log().len()
                            &&& if nick == dv[2] {
                                last == message_doc("message"@, dv[0], dv[1], message@)
                            } else if highlight {
                                last == message_doc("message"@, dv[0], dv[2], dv[1] + ": "@
                                    + message@)
                            } else {
                                last == message_doc("message"@, dv[0], dv[2], message@)
                            }
                        })
                    } else {
                        final(self).sent_log() == old(self).sent_log() && resp.spec_data()
                            == fail_json("Not an event to reply to"@)
                    }
                }),
                Err(e) => ({
                    &&& repliable(event.event) && event.params.deep_view().len() >= 3
                    &&& (final(self).is_closed() || e is ReceiveError)
                }),
            },
    {
        let targets = targets_for_event(event);
        match targets {
            None => Ok(Response::for_fail("Not an event to reply to")),
            Some((network, channel, user)) => {
                let resp = match self.nick(network) {
                    Ok(resp) => resp,
                    Err(e) => {
                        return Err(e);
                    },
                };
                let nick_name = resp.get_str_or("nick", "").to_owned();
                let ghost mid = *self;
                proof {
                    reveal_strlit("");
                    assert(""@ =~= Seq::<char>::empty());
                    assert(nick_name@ == nick_of(resp.spec_data()));
                }
                let out = if crate::json::str_eq(channel, nick_name.as_str()) {
                    self.message(network, user, message)
                } else if highlight {
                    let msg = String::from_str(user).concat(": ").concat(message);
                    self.message(network, channel, msg.as_str())
                } else {
                    self.message(network, channel, message)
                };
                proof {
                    lemma_prefix_trans(
                        old(self).received_log(),
                        mid.received_log(),
                        self.received_log(),
                    );
                    lemma_prefix_trans(
                        old(self).queued_events(),
                        mid.queued_events(),
                        self.queued_events(),
                    );
                    let old_r = old(self).received_log().len() as int;
                    let mid_r = mid.received_log().len() as int;
                    assert forall|i: int| 0 <= i < mid_r implies self.received_log()[i]
                        == mid.received_log()[i] by {
                        assert(self.received_log().take(mid_r)[i] == self.received_log()[i]);
                    }
                    assert forall|i: int| old_r <= i < mid_r - 1 implies !is_response_frame(
                        #[trigger] self.received_log()[i],
                    ) by {
                        let k = old(self).queued_events().len() + (i - old_r);
                        assert(is_queued_event_of(mid.queued_events()[k], mid.received_log()[i]));
                    }
                    lemma_first_response(self.received_log(), old_r, mid_r - 1);
                    assert(self.received_log()[mid_r - 1] == mid.received_log().last());
                }
                out
            },
        }
    }

    /// Send a reply (as a notice) in response to some event.
    ///
    /// A direct message is answered to its sender; a channel message in
    /// its channel, decided by the bot's own nick, asked of the core
    /// first. Events that carry no reply targets yield a failure
    /// response.
    pub fn reply_with_notice(&mut self, event: &Event, message: &str) -> (r: Result<Response, Error>)
        requires
            old(self).wf(),
        ensures
            session_multi_ok(old(self), final(self)),
            match r {
                Ok(resp) => ({
                    let dv = event.params.deep_view();
                    if repliable(event.event) && dv.len() >= 3 {
                        &&& final(self).sent_log().len() == old(self).sent_log().len() + 2
                        &&& final(self).sent_log()[old(self).sent_log().len() as int]
                            == wire_doc("get"@, "nick"@, seq![JsonSpec::Str(dv[0])])
                        &&& ({
                            let j = first_response_from(
                                final(self).received_log(),
                                old(self).received_log().len() as int,
                            );
                            let nick = nick_of(final(self).received_log()[j]);
                            let last = final(self).sent_log().last();
                            &&& j < final(self).received_log().len()
                            &&& if nick == dv[2] {
                                last == message_doc("notice"@, dv[0], dv[1], message@)
                            } else {
                                last == message_doc("notice"@, dv[0], dv[2], message@)
                            }
                        })
                    } else {
                        final(self).sent_log() == old(self).sent_log() && resp.spec_data()
                            == fail_json("Not an event to reply to"@)
                    }
                }),
                Err(e) => ({
                    &&& repliable(event.event) && event.params.deep_view().len() >= 3
                    &&& (final(self).is_closed() || e is ReceiveError)
                }),
            },
    {
        let targets = targets_for_event(event);
        match targets {
            None => Ok(Response::for_fail("Not an event to reply to")),
            Some((network, channel, user)) => {
                let resp = match self.nick(network) {
                    Ok(resp) => resp,
                    Err(e) => {
                        return Err(e);
                    },
                };
                let nick_name = resp.get_str_or("nick", "").to_owned();
                let ghost mid = *self;
                proof {
                    reveal_strlit("");
                    assert(""@ =~= Seq::<char>::empty());
                    assert(nick_name@ == nick_of(resp.spec_data()));
                }
                let out = if crate::json::str_eq(channel, nick_name.as_str()) {
                    self.notice(network, user, message)
                } else {
                    self.notice(network, channel, message)
                };
                proof {
                    lemma_prefix_trans(
                        old(self).received_log(),
                        mid.received_log(),
                        self.received_log(),
                    );
                    lemma_prefix_trans(
                        old(self).queued_events(),
                        mid.queued_events(),
                        self.queued_events(),
                    );
                    let old_r = old(self).received_log().len() as int;
                    let mid_r = mid.received_log().len() as int;
                    assert forall|i: int| 0 <= i < mid_r implies self.received_log()[i]
                        == mid.received_log()[i] by {
                        assert(self.received_log().take(mid_r)[i] == self.received_log()[i]);
                    }
                    assert forall|i: int| old_r <= i < mid_r - 1 implies !is_response_frame(
                        #[trigger] self.received_log()[i],
                    ) by {
                        let k = old(self).queued_events().len() + (i - old_r);
                        assert(is_queued_event_of(mid.queued_events()[k], mid.received_log()[i]));
                    }
                    lemma_first_response(self.received_log(), old_r, mid_r - 1);
                    assert(self.received_log()[mid_r - 1] == mid.received_log().last());
                }
                out
            },
        }
    }

    /// Send a reply (as a ctcp action) in response to some event.
    ///
    /// A direct message is answered to its sender; a channel message in
    /// its channel, decided by the bot's own nick, asked of the core
    /// first. Events that carry no reply targets yield a failure
    /// response.
    pub fn reply_with_action(&mut self, event: &Event, message: &str) -> (r: Result<Response, Error>)
        requires
            old(self).wf(),
        ensures
            session_multi_ok(old(self), final(self)),
            match r {
                Ok(resp) => ({
                    let dv = event.params.deep_view();
                    if repliable(event.event) && dv.len() >= 3 {
                        &&& final(self).sent_log().len() == old(self).sent_log().len() + 2
                        &&& final(self).sent_log()[old(self).sent_log().len() as int]
                            == wire_doc("get"@, "nick"@, seq![JsonSpec::Str(dv[0])])
                        &&& ({
                            let j = first_response_from(
                                final(self).received_log(),
                                old(self).received_log().len() as int,
                            );
                            let nick = nick_of(final(self).received_log()[j]);
                            let last = final(self).sent_log().last();
                            &&& j < final(self).received_log().len()
                            &&& if nick == dv[2] {
                                last == message_doc("action"@, dv[0], dv[1], message@)
                            } else {
                                last == message_doc("action"@, dv[0], dv[2], message@)
                            }
                        })
                    } else {
                        final(self).sent_log() == old(self).sent_log() && resp.spec_data()
                            == fail_json("Not an event to reply to"@)
                    }
                }),
                Err(e) => ({
                    &&& repliable(event.event) && event.params.deep_view().len() >= 3
                    &&& (final(self).is_closed() || e is ReceiveError)
                }),
            },
    {
        let targets = targets_for_event(event);
        match targets {
            None => Ok(Response::for_fail("Not an event to reply to")),
            Some((network, channel, user)) => {
                let resp = match self.nick(network) {
                    Ok(resp) => resp,
                    Err(e) => {
                        return Err(e);
                    },
                };
                let nick_name = resp.get_str_or("nick", "").to_owned();
                let ghost mid = *self;
                proof {
                    reveal_strlit("");
                    assert(""@ =~= Seq::<char>::empty());
                    assert(nick_name@ == nick_of(resp.spec_data()));
                }
                let out = if crate::json::str_eq(channel, nick_name.as_str()) {
                    self.action(network, user, message)
                } else {
                    self.action(network, channel, message)
                };
                proof {
                    lemma_prefix_trans(
                        old(self).received_log(),
                        mid.received_log(),
                        self.received_log(),
                    );
                    lemma_prefix_trans(
                        old(self).queued_events(),
                        mid.queued_events(),
                        self.queued_events(),
                    );
                    let old_r = old(self).received_log().len() as int;
                    let mid_r = mid.received_log().len() as int;
                    assert forall|i: int| 0 <= i < mid_r implies self.received_log()[i]
                        == mid.received_log()[i] by {
                        assert(self.received_log().take(mid_r)[i] == self.received_log()[i]);
                    }
                    assert forall|i: int| old_r <= i < mid_r - 1 implies !is_response_frame(
                        #[trigger] self.received_log()[i],
                    ) by {
                        let k = old(self).queued_events().len() + (i - old_r);
                        assert(is_queued_event_of(mid.queued_events()[k], mid.received_log()[i]));
                    }
                    lemma_first_response(self.received_log(), old_r, mid_r - 1);
                    assert(self.received_log()[mid_r - 1] == mid.received_log().last());
                }
                out
            },
        }
    }

    /// Check if there is any active listener for the given event type.
    pub fn has_any_subscription(&self, event: EventType) -> (r: bool)
        ensures
            r == has_kind(self.listeners_model(), event),
    {
        let n = self.listeners.len();
        let mut i: usize = 0;
        while i < n
            invariant
                0 <= i <= n,
                n == self.listeners@.len(),
                forall|k: int| 0 <= k < i ==> !kind_eq(self.listeners@[k].event, event),
            decreases n - i,
        {
            if self.listeners[i].event == event {
                proof {
                    assert(kind_eq(self.listeners@[i as int].event, event));
                }
                return true;
            }
            i += 1;
        }
        false
    }
}


/// Whether events of this kind carry targets that a reply can go to.
pub open spec fn repliable(kind: EventType) -> bool {
    match kind {
        EventType::Join => true,
        EventType::PrivMsg => true,
        EventType::Notice => true,
        EventType::Ctcp => true,
        EventType::Command(_) => true,
        EventType::Action => true,
        _ => false,
    }
}

/// The (network, channel, user) a reply to the event would go to: the
/// event's first, third and second parameter. Events of other kinds, or
/// with fewer than three parameters, have no reply targets.
pub fn targets_for_event(event: &Event) -> (r: Option<(&str, &str, &str)>)
    ensures
        match r {
            Some(t) => ({
                &&& repliable(event.event)
                &&& event.params.deep_view().len() >= 3
                &&& t.0@ == event.params.deep_view()[0]
                &&& t.1@ == event.params.deep_view()[2]
                &&& t.2@ == event.params.deep_view()[1]
            }),
            None => !repliable(event.event) || event.params.deep_view().len() < 3,
        },
{
    let is_target = match &event.event {
        EventType::Join => true,
        EventType::PrivMsg => true,
        EventType::Notice => true,
        EventType::Ctcp => true,
        EventType::Command(_) => true,
        EventType::Action => true,
        _ => false,
    };
    if is_target && event.params.len() >= 3 {
        proof {
            assert(event.params.deep_view()[0] == event.params@[0]@);
            assert(event.params.deep_view()[1] == event.params@[1]@);
            assert(event.params.deep_view()[2] == event.params@[2]@);
        }
        Some((event.params[0].as_str(), event.params[2].as_str(), event.params[1].as_str()))
    } else {
        None
    }
}

/// Whether the event is what the JSON document describes, and the
/// document is event-classified.
pub open spec fn is_queued_event_of(e: Event, j: JsonSpec) -> bool {
    json_has_key(j, "event"@) && valid_event_json(j) && event_matches(e, j)
}

/// The events queued by a call extend the old queue, and the k-th event
/// queued is the event of the k-th frame received by the call.
pub open spec fn queued_events_ok(
    pre_q: Seq<Event>,
    post_q: Seq<Event>,
    pre_r: Seq<JsonSpec>,
    post_r: Seq<JsonSpec>,
) -> bool {
    &&& post_q.len() >= pre_q.len()
    &&& post_q.take(pre_q.len() as int) =~= pre_q
    &&& forall|k: int|
        pre_q.len() <= k < post_q.len() ==> ({
            let j = pre_r.len() + (k - pre_q.len());
            &&& j < post_r.len()
            &&& is_queued_event_of(#[trigger] post_q[k], post_r[j])
        })
}

/// The events queued by a call extend the old queue, and each is the
/// event of a frame the call received.
pub open spec fn queued_extension_ok<T: Transport>(pre: &DaZeus<T>, post: &DaZeus<T>) -> bool {
    queued_events_ok(
        pre.queued_events(),
        post.queued_events(),
        pre.received_log(),
        post.received_log(),
    )
}

} // verus!
