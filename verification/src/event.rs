//! Events received from the DaZeus core, and their kinds.

use vstd::prelude::*;
use crate::error::{InvalidJsonError, ParseEventTypeError};
use crate::json::{
    items_view, json_get, json_has_key, lemma_items_view_index, lemma_items_view_len, str_eq,
    JsonSpec, JsonValue,
};

verus! {

/// The events that can be received from the DaZeus server.
///
/// You can use the variants of this enum to start listening for an event
/// of that type. Every event received also carries its type. A `Command`
/// event stands for a bot command invocation; it carries the name of the
/// command.
#[derive(Debug)]
pub enum EventType {
    /// A CTCP ACTION event (IRC users will know this as `/me`).
    Action,
    /// A CTCP ACTION sent by the bot from another plugin.
    ActionMe,
    /// A command received by DaZeus, carrying the command's name.
    Command(String),
    /// Signalling that the bot has connected to a new network.
    Connect,
    /// A CTCP event was sent.
    Ctcp,
    /// A CTCP event sent by the bot (from another plugin).
    CtcpMe,
    /// A CTCP_REP event was sent.
    CtcpReply,
    /// Signalling that the bot has disconnected from a network.
    Disconnect,
    /// An invite was sent to the bot.
    Invite,
    /// A JOIN event: an IRC user joined a channel.
    Join,
    /// A KICK event: an IRC user was kicked from a channel.
    Kick,
    /// A MODE event: a mode was changed.
    Mode,
    /// A list of users from some channel (sent by the IRC server on request).
    Names,
    /// An event for when the nickname of the bot was changed.
    Nick,
    /// A NOTICE event was sent.
    Notice,
    /// A NUMERIC event was sent (typically error messages from the server).
    Numeric,
    /// A PART event: an IRC user left a channel.
    Part,
    /// An event indicating the response for a ping.
    Pong,
    /// A typical IRC message.
    PrivMsg,
    /// A message sent by the bot itself via another plugin.
    PrivMsgMe,
    /// A QUIT event: an IRC user disconnects from an IRC server.
    Quit,
    /// A TOPIC event: received when joining a channel or when its topic
    /// changes.
    Topic,
    /// Unknown event types.
    Unknown,
    /// A WHOIS event: the response to some WHOIS request.
    Whois,
}

/// The uppercase form of an ASCII letter; any other character is kept.
pub open spec fn upper_char(c: char) -> char {
    match c {
        'a' => 'A',
        'b' => 'B',
        'c' => 'C',
        'd' => 'D',
        'e' => 'E',
        'f' => 'F',
        'g' => 'G',
        'h' => 'H',
        'i' => 'I',
        'j' => 'J',
        'k' => 'K',
        'l' => 'L',
        'm' => 'M',
        'n' => 'N',
        'o' => 'O',
        'p' => 'P',
        'q' => 'Q',
        'r' => 'R',
        's' => 'S',
        't' => 'T',
        'u' => 'U',
        'v' => 'V',
        'w' => 'W',
        'x' => 'X',
        'y' => 'Y',
        'z' => 'Z',
        _ => c,
    }
}

/// The character-wise ASCII uppercase form of a string.
pub open spec fn upper_str(s: Seq<char>) -> Seq<char> {
    s.map_values(|c: char| upper_char(c))
}

/// The uppercase form of an ASCII letter; any other character is kept.
fn upper_char_exec(c: char) -> (r: char)
    ensures
        r == upper_char(c),
{
    match c {
        'a' => 'A',
        'b' => 'B',
        'c' => 'C',
        'd' => 'D',
        'e' => 'E',
        'f' => 'F',
        'g' => 'G',
        'h' => 'H',
        'i' => 'I',
        'j' => 'J',
        'k' => 'K',
        'l' => 'L',
        'm' => 'M',
        'n' => 'N',
        'o' => 'O',
        'p' => 'P',
        'q' => 'Q',
        'r' => 'R',
        's' => 'S',
        't' => 'T',
        'u' => 'U',
        'v' => 'V',
        'w' => 'W',
        'x' => 'X',
        'y' => 'Y',
        'z' => 'Z',
        _ => c,
    }
}

/// Relies on String::push: appends the given character to the string.
#[verifier::external_body]
fn push_char(s: &mut String, c: char)
    ensures
        final(s)@ == old(s)@.push(c),
{
    s.push(c);
}

/// The character-wise ASCII uppercase form of a string.
pub fn to_ascii_upper(s: &str) -> (r: String)
    ensures
        r@ == upper_str(s@),
{
    let n = s.unicode_len();
    let mut out = String::new();
    let mut i: usize = 0;
    while i < n
        invariant
            0 <= i <= n,
            n == s@.len(),
            out@ =~= upper_str(s@.take(i as int)),
        decreases n - i,
    {
        let c = s.get_char(i);
        let u = upper_char_exec(c);
        push_char(&mut out, u);
        proof {
            assert(s@.take(i + 1).drop_last() =~= s@.take(i as int));
            assert(upper_str(s@.take(i + 1)) =~= upper_str(s@.take(i as int)).push(upper_char(
                s@[i as int],
            )));
        }
        i += 1;
    }
    proof {
        assert(s@.take(n as int) =~= s@);
    }
    out
}

impl EventType {
    /// The protocol name of this event kind: the uppercase name of the
    /// variant, with a `COMMAND_` prefix before a command's own name.
    pub open spec fn spec_name(&self) -> Seq<char> {
        match self {
            EventType::Command(cmd) => "COMMAND_"@ + cmd@,
            EventType::Action => "ACTION"@,
            EventType::ActionMe => "ACTION_ME"@,
            EventType::Connect => "CONNECT"@,
            EventType::Ctcp => "CTCP"@,
            EventType::CtcpMe => "CTCP_ME"@,
            EventType::CtcpReply => "CTCP_REP"@,
            EventType::Disconnect => "DISCONNECT"@,
            EventType::Invite => "INVITE"@,
            EventType::Join => "JOIN"@,
            EventType::Kick => "KICK"@,
            EventType::Mode => "MODE"@,
            EventType::Names => "NAMES"@,
            EventType::Nick => "NICK"@,
            EventType::Notice => "NOTICE"@,
            EventType::Numeric => "NUMERIC"@,
            EventType::Part => "PART"@,
            EventType::Pong => "PONG"@,
            EventType::PrivMsg => "PRIVMSG"@,
            EventType::PrivMsgMe => "PRIVMSG_ME"@,
            EventType::Quit => "QUIT"@,
            EventType::Topic => "TOPIC"@,
            EventType::Unknown => "UNKNOWN"@,
            EventType::Whois => "WHOIS"@,
        }
    }

    /// The protocol name of this event kind.
    pub fn to_string(&self) -> (r: String)
        ensures
            r@ == self.spec_name(),
    {
        match self {
            EventType::Command(cmd) => String::from_str("COMMAND_").concat(cmd.as_str()),
            EventType::Action => String::from_str("ACTION"),
            EventType::ActionMe => String::from_str("ACTION_ME"),
            EventType::Connect => String::from_str("CONNECT"),
            EventType::Ctcp => String::from_str("CTCP"),
            EventType::CtcpMe => String::from_str("CTCP_ME"),
            EventType::CtcpReply => String::from_str("CTCP_REP"),
            EventType::Disconnect => String::from_str("DISCONNECT"),
            EventType::Invite => String::from_str("INVITE"),
            EventType::Join => String::from_str("JOIN"),
            EventType::Kick => String::from_str("KICK"),
            EventType::Mode => String::from_str("MODE"),
            EventType::Names => String::from_str("NAMES"),
            EventType::Nick => String::from_str("NICK"),
            EventType::Notice => String::from_str("NOTICE"),
            EventType::Numeric => String::from_str("NUMERIC"),
            EventType::Part => String::from_str("PART"),
            EventType::Pong => String::from_str("PONG"),
            EventType::PrivMsg => String::from_str("PRIVMSG"),
            EventType::PrivMsgMe => String::from_str("PRIVMSG_ME"),
            EventType::Quit => String::from_str("QUIT"),
            EventType::Topic => String::from_str("TOPIC"),
            EventType::Unknown => String::from_str("UNKNOWN"),
            EventType::Whois => String::from_str("WHOIS"),
        }
    }
}

/// Whether the uppercased string names one of the closed event kinds.
pub open spec fn is_fixed_name(u: Seq<char>) -> bool {
    ||| u == "ACTION"@
    ||| u == "ACTION_ME"@
    ||| u == "CONNECT"@
    ||| u == "CTCP"@
    ||| u == "CTCP_ME"@
    ||| u == "CTCP_REP"@
    ||| u == "DISCONNECT"@
    ||| u == "INVITE"@
    ||| u == "JOIN"@
    ||| u == "KICK"@
    ||| u == "MODE"@
    ||| u == "NAMES"@
    ||| u == "NICK"@
    ||| u == "NOTICE"@
    ||| u == "NUMERIC"@
    ||| u == "PART"@
    ||| u == "PONG"@
    ||| u == "PRIVMSG"@
    ||| u == "PRIVMSG_ME"@
    ||| u == "QUIT"@
    ||| u == "TOPIC"@
    ||| u == "UNKNOWN"@
    ||| u == "WHOIS"@
}

/// Whether the uppercased string is accepted as an event kind name: a
/// closed kind's name, or a string of more than eight characters whose
/// first seven are `COMMAND` (the character after them is skipped, and
/// what follows it is the command's name).
pub open spec fn name_recognized(u: Seq<char>) -> bool {
    is_fixed_name(u) || (u.len() > 8 && u.subrange(0, 7) == "COMMAND"@)
}

/// Whether an uppercased name parses to the given kind.
pub open spec fn parses_to(u: Seq<char>, k: EventType) -> bool {
    match k {
        EventType::Command(c) => u.len() > 8 && u.subrange(0, 7) == "COMMAND"@ && c@ == u.skip(8),
        _ => u == k.spec_name(),
    }
}

impl EventType {
    /// Parse the (case-insensitive) protocol name of an event kind.
    pub fn from_str(s: &str) -> (r: Result<EventType, ParseEventTypeError>)
        ensures
            match r {
                Ok(k) => parses_to(upper_str(s@), k),
                Err(_) => !name_recognized(upper_str(s@)),
            },
    {
        let upper = to_ascii_upper(s);
        let u = upper.as_str();
        if str_eq(u, "ACTION") {
            Ok(EventType::Action)
        } else if str_eq(u, "ACTION_ME") {
            Ok(EventType::ActionMe)
        } else if str_eq(u, "CONNECT") {
            Ok(EventType::Connect)
        } else if str_eq(u, "CTCP") {
            Ok(EventType::Ctcp)
        } else if str_eq(u, "CTCP_ME") {
            Ok(EventType::CtcpMe)
        } else if str_eq(u, "CTCP_REP") {
            Ok(EventType::CtcpReply)
        } else if str_eq(u, "DISCONNECT") {
            Ok(EventType::Disconnect)
        } else if str_eq(u, "INVITE") {
            Ok(EventType::Invite)
        } else if str_eq(u, "JOIN") {
            Ok(EventType::Join)
        } else if str_eq(u, "KICK") {
            Ok(EventType::Kick)
        } else if str_eq(u, "MODE") {
            Ok(EventType::Mode)
        } else if str_eq(u, "NAMES") {
            Ok(EventType::Names)
        } else if str_eq(u, "NICK") {
            Ok(EventType::Nick)
        } else if str_eq(u, "NOTICE") {
            Ok(EventType::Notice)
        } else if str_eq(u, "NUMERIC") {
            Ok(EventType::Numeric)
        } else if str_eq(u, "PART") {
            Ok(EventType::Part)
        } else if str_eq(u, "PONG") {
            Ok(EventType::Pong)
        } else if str_eq(u, "PRIVMSG") {
            Ok(EventType::PrivMsg)
        } else if str_eq(u, "PRIVMSG_ME") {
            Ok(EventType::PrivMsgMe)
        } else if str_eq(u, "QUIT") {
            Ok(EventType::Quit)
        } else if str_eq(u, "TOPIC") {
            Ok(EventType::Topic)
        } else if str_eq(u, "UNKNOWN") {
            Ok(EventType::Unknown)
        } else if str_eq(u, "WHOIS") {
            Ok(EventType::Whois)
        } else {
            let n = u.unicode_len();
            if n > 8 {
                let prefix = u.substring_char(0, 7);
                if str_eq(prefix, "COMMAND") {
                    let cmd = u.substring_char(8, n);
                    proof {
                        assert(upper@.skip(8) =~= upper@.subrange(8, upper@.len() as int));
                    }
                    Ok(EventType::Command(String::from_str(cmd)))
                } else {
                    Err(ParseEventTypeError::new())
                }
            } else {
                Err(ParseEventTypeError::new())
            }
        }
    }
}

impl Clone for EventType {
    /// A clone of an event kind is the same kind.
    fn clone(&self) -> (r: Self)
        ensures
            r == *self,
    {
        match self {
            EventType::Command(cmd) => EventType::Command(cmd.clone()),
            EventType::Action => EventType::Action,
            EventType::ActionMe => EventType::ActionMe,
            EventType::Connect => EventType::Connect,
            EventType::Ctcp => EventType::Ctcp,
            EventType::CtcpMe => EventType::CtcpMe,
            EventType::CtcpReply => EventType::CtcpReply,
            EventType::Disconnect => EventType::Disconnect,
            EventType::Invite => EventType::Invite,
            EventType::Join => EventType::Join,
            EventType::Kick => EventType::Kick,
            EventType::Mode => EventType::Mode,
            EventType::Names => EventType::Names,
            EventType::Nick => EventType::Nick,
            EventType::Notice => EventType::Notice,
            EventType::Numeric => EventType::Numeric,
            EventType::Part => EventType::Part,
            EventType::Pong => EventType::Pong,
            EventType::PrivMsg => EventType::PrivMsg,
            EventType::PrivMsgMe => EventType::PrivMsgMe,
            EventType::Quit => EventType::Quit,
            EventType::Topic => EventType::Topic,
            EventType::Unknown => EventType::Unknown,
            EventType::Whois => EventType::Whois,
        }
    }
}

impl vstd::std_specs::cmp::PartialEqSpecImpl for EventType {
    open spec fn obeys_eq_spec() -> bool {
        true
    }

    open spec fn eq_spec(&self, other: &EventType) -> bool {
        match (self, other) {
            (EventType::Command(a), EventType::Command(b)) => a@ == b@,
            (EventType::Action, EventType::Action) => true,
            (EventType::ActionMe, EventType::ActionMe) => true,
            (EventType::Connect, EventType::Connect) => true,
            (EventType::Ctcp, EventType::Ctcp) => true,
            (EventType::CtcpMe, EventType::CtcpMe) => true,
            (EventType::CtcpReply, EventType::CtcpReply) => true,
            (EventType::Disconnect, EventType::Disconnect) => true,
            (EventType::Invite, EventType::Invite) => true,
            (EventType::Join, EventType::Join) => true,
            (EventType::Kick, EventType::Kick) => true,
            (EventType::Mode, EventType::Mode) => true,
            (EventType::Names, EventType::Names) => true,
            (EventType::Nick, EventType::Nick) => true,
            (EventType::Notice, EventType::Notice) => true,
            (EventType::Numeric, EventType::Numeric) => true,
            (EventType::Part, EventType::Part) => true,
            (EventType::Pong, EventType::Pong) => true,
            (EventType::PrivMsg, EventType::PrivMsg) => true,
            (EventType::PrivMsgMe, EventType::PrivMsgMe) => true,
            (EventType::Quit, EventType::Quit) => true,
            (EventType::Topic, EventType::Topic) => true,
            (EventType::Unknown, EventType::Unknown) => true,
            (EventType::Whois, EventType::Whois) => true,
            _ => false,
        }
    }
}

/// Whether two event kinds are the same kind (command kinds match on the
/// command's name).
pub open spec fn kind_eq(a: EventType, b: EventType) -> bool {
    vstd::std_specs::cmp::PartialEqSpec::eq_spec(&a, &b)
}

impl PartialEq for EventType {
    fn eq(&self, other: &EventType) -> (r: bool) {
        match (self, other) {
            (EventType::Command(a), EventType::Command(b)) => str_eq(a.as_str(), b.as_str()),
            (EventType::Action, EventType::Action) => true,
            (EventType::ActionMe, EventType::ActionMe) => true,
            (EventType::Connect, EventType::Connect) => true,
            (EventType::Ctcp, EventType::Ctcp) => true,
            (EventType::CtcpMe, EventType::CtcpMe) => true,
            (EventType::CtcpReply, EventType::CtcpReply) => true,
            (EventType::Disconnect, EventType::Disconnect) => true,
            (EventType::Invite, EventType::Invite) => true,
            (EventType::Join, EventType::Join) => true,
            (EventType::Kick, EventType::Kick) => true,
            (EventType::Mode, EventType::Mode) => true,
            (EventType::Names, EventType::Names) => true,
            (EventType::Nick, EventType::Nick) => true,
            (EventType::Notice, EventType::Notice) => true,
            (EventType::Numeric, EventType::Numeric) => true,
            (EventType::Part, EventType::Part) => true,
            (EventType::Pong, EventType::Pong) => true,
            (EventType::PrivMsg, EventType::PrivMsg) => true,
            (EventType::PrivMsgMe, EventType::PrivMsgMe) => true,
            (EventType::Quit, EventType::Quit) => true,
            (EventType::Topic, EventType::Topic) => true,
            (EventType::Unknown, EventType::Unknown) => true,
            (EventType::Whois, EventType::Whois) => true,
            _ => false,
        }
    }
}

/// An event received from the DaZeus server: its kind, plus the string
/// parameters that came with it.
#[derive(Debug)]
pub struct Event {
    /// The type of event that was received.
    pub event: EventType,
    /// The parameters attached to the event.
    pub params: Vec<String>,
}

impl Clone for Event {
    /// A clone of an event has the same kind and the same parameters.
    fn clone(&self) -> (r: Self)
        ensures
            r.event == self.event,
            r.params@ == self.params@,
    {
        Event { event: self.event.clone(), params: self.params.clone() }
    }
}

impl PartialEq for Event {
    fn eq(&self, other: &Event) -> (r: bool) {
        if !(self.event == other.event) {
            return false;
        }
        let n = self.params.len();
        if n != other.params.len() {
            proof {
                assert(self.params.deep_view().len() != other.params.deep_view().len());
            }
            return false;
        }
        let mut i: usize = 0;
        while i < n
            invariant
                0 <= i <= n,
                n == self.params.len(),
                n == other.params.len(),
                kind_eq(self.event, other.event),
                forall|k: int| 0 <= k < i ==> self.params@[k]@ == other.params@[k]@,
            decreases n - i,
        {
            if !str_eq(self.params[i].as_str(), other.params[i].as_str()) {
                proof {
                    assert(self.params.deep_view()[i as int] == self.params@[i as int]@);
                    assert(other.params.deep_view()[i as int] == other.params@[i as int]@);
                }
                return false;
            }
            i += 1;
        }
        proof {
            assert(self.params.deep_view() =~= other.params.deep_view());
        }
        true
    }
}

impl vstd::std_specs::cmp::PartialEqSpecImpl for Event {
    open spec fn obeys_eq_spec() -> bool {
        true
    }

    open spec fn eq_spec(&self, other: &Event) -> bool {
        kind_eq(self.event, other.event) && self.params.deep_view() == other.params.deep_view()
    }
}

/// Returns whether or not the given JSON data could be a valid event
/// object: any object with an `event` key is taken for an event.
pub fn is_event_json(data: &JsonValue) -> (r: bool)
    ensures
        r == json_has_key(data@, "event"@),
{
    match data {
        JsonValue::Obj(fields) => crate::json::json_obj_get(fields, "event").is_some(),
        _ => false,
    }
}

/// The string parameters among a list of JSON documents, in order.
pub open spec fn strs_of(items: Seq<JsonSpec>) -> Seq<Seq<char>>
    decreases items.len(),
{
    if items.len() == 0 {
        Seq::empty()
    } else {
        let rest = strs_of(items.drop_last());
        match items.last() {
            JsonSpec::Str(s) => rest.push(s),
            _ => rest,
        }
    }
}

/// Whether a `COMMAND` event's parameter list is usable: the protocol
/// stores the command's name in its fourth parameter.
pub open spec fn command_params_ok(ps: Seq<JsonSpec>) -> bool {
    ps.len() >= 4 && ps[3] is Str
}

/// Whether the JSON document is a structurally valid event: it holds an
/// `event` string and a `params` array, and the event name is accepted
/// (for the name `COMMAND`, the fourth parameter holds the command name).
pub open spec fn valid_event_json(j: JsonSpec) -> bool {
    &&& json_get(j, "event"@) matches Some(ev) && ev is Str
    &&& json_get(j, "params"@) matches Some(ps) && ps is Arr
    &&& {
        let name = json_get(j, "event"@)->Some_0->Str_0;
        let ps = json_get(j, "params"@)->Some_0->Arr_0;
        if name == "COMMAND"@ {
            command_params_ok(ps)
        } else {
            name_recognized(upper_str(name))
        }
    }
}

/// Whether the event is the one the JSON document describes.
pub open spec fn event_matches(e: Event, j: JsonSpec) -> bool {
    let name = json_get(j, "event"@)->Some_0->Str_0;
    let ps = json_get(j, "params"@)->Some_0->Arr_0;
    &&& e.params.deep_view() == strs_of(ps)
    &&& if name == "COMMAND"@ {
        e.event matches EventType::Command(c) && c@ == ps[3]->Str_0
    } else {
        parses_to(upper_str(name), e.event)
    }
}

impl Event {
    /// Create a new event based on the basic properties of an event.
    ///
    /// Allows creation of events for testing purposes. Also used
    /// internally for constructing events based on parsed JSON objects.
    pub fn new(event: EventType, params: Vec<String>) -> (r: Event)
        ensures
            r.event == event,
            r.params == params,
    {
        Event { event, params }
    }

    /// Create a new event based on a JSON document.
    ///
    /// Typically this method will be called by the bindings themselves to
    /// create an event instance from some received frame.
    pub fn from_json(data: &JsonValue) -> (r: Result<Event, InvalidJsonError>)
        ensures
            match r {
                Ok(e) => valid_event_json(data@) && event_matches(e, data@),
                Err(_) => !valid_event_json(data@),
            },
    {
        match data {
            JsonValue::Obj(fields) => {
                let evt = crate::json::json_obj_get(fields, "event");
                let params = crate::json::json_obj_get(fields, "params");
                match (evt, params) {
                    (Some(JsonValue::Str(name)), Some(JsonValue::Arr(items))) => {
                        Event::create_event(name.as_str(), items)
                    },
                    _ => Err(InvalidJsonError::new("")),
                }
            },
            _ => Err(InvalidJsonError::new("")),
        }
    }

    /// Create a new event from the name and parameters extracted from a
    /// JSON document.
    fn create_event(evt: &str, params: &Vec<JsonValue>) -> (r: Result<Event, InvalidJsonError>)
        ensures
            match r {
                Ok(e) => ({
                    &&& if evt@ == "COMMAND"@ {
                        command_params_ok(items_view(params@)) && (e.event matches EventType::Command(
                            c,
                        ) && c@ == items_view(params@)[3]->Str_0)
                    } else {
                        name_recognized(upper_str(evt@)) && parses_to(upper_str(evt@), e.event)
                    }
                    &&& e.params.deep_view() == strs_of(items_view(params@))
                }),
                Err(_) => if evt@ == "COMMAND"@ {
                    !command_params_ok(items_view(params@))
                } else {
                    !name_recognized(upper_str(evt@))
                },
            },
    {
        proof {
            lemma_items_view_len(params@);
        }
        if str_eq(evt, "COMMAND") {
            if params.len() >= 4 {
                proof {
                    lemma_items_view_index(params@, 3);
                }
                match &params[3] {
                    JsonValue::Str(cmd) => Ok(
                        Event::new(EventType::Command(cmd.clone()), Event::param_strs(params)),
                    ),
                    _ => Err(InvalidJsonError::new("")),
                }
            } else {
                Err(InvalidJsonError::new(""))
            }
        } else {
            match EventType::from_str(evt) {
                Ok(kind) => Ok(Event::new(kind, Event::param_strs(params))),
                Err(_) => Err(InvalidJsonError::new("")),
            }
        }
    }

    /// Extract the string parameters from a list of JSON documents.
    fn param_strs(params: &Vec<JsonValue>) -> (r: Vec<String>)
        ensures
            r.deep_view() == strs_of(items_view(params@)),
    {
        let ghost model = items_view(params@);
        proof {
            lemma_items_view_len(params@);
        }
        let n = params.len();
        let mut out: Vec<String> = Vec::new();
        let mut i: usize = 0;
        while i < n
            invariant
                0 <= i <= n,
                n == params.len(),
                model == items_view(params@),
                model.len() == n,
                out.deep_view() =~= strs_of(model.take(i as int)),
            decreases n - i,
        {
            proof {
                lemma_items_view_index(params@, i as int);
                assert(model.take(i + 1).drop_last() =~= model.take(i as int));
            }
            let ghost prev = out.deep_view();
            match &params[i] {
                JsonValue::Str(s) => {
                    out.push(s.clone());
                    proof {
                        assert(out.deep_view() =~= prev.push(params@[i as int]->Str_0@));
                    }
                },
                _ => {
                },
            }
            i += 1;
        }
        proof {
            assert(model.take(n as int) =~= model);
        }
        out
    }

    /// Retrieve a parameter from the list of parameters contained in the
    /// event.
    pub fn param(&self, idx: usize) -> (r: &str)
        requires
            idx < self.params@.len(),
        ensures
            r@ == self.params.deep_view()[idx as int],
    {
        self.params[idx].as_str()
    }

    /// Retrieve the number of parameters for the event.
    pub fn len(&self) -> (r: usize)
        ensures
            r == self.params@.len(),
    {
        self.params.len()
    }
}

} // verus!
