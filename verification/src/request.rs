//! Requests that can be sent to the DaZeus core, and their wire form.

use vstd::prelude::*;
use crate::error::ParseConfigGroupError;
use crate::event::{to_ascii_upper, EventType};
use crate::json::{
    fields_view, items_view, lemma_fields_view_index, lemma_fields_view_len,
    lemma_items_view_index, lemma_items_view_len, str_eq, JsonSpec, JsonValue,
};
use crate::scope::Scope;

verus! {

/// The version of the DaZeus plugin communication protocol that these
/// bindings understand.
pub fn protocol_version() -> (r: &'static str)
    ensures
        r@ == "1"@,
{
    "1"
}

/// The type of config that should be retrieved.
#[derive(Debug, Clone, Copy, PartialEq, Eq, Structural)]
pub enum ConfigGroup {
    /// A config value from the plugin settings.
    Plugin,
    /// A config value from the core settings.
    Core,
}

impl ConfigGroup {
    /// The protocol name of the group.
    pub open spec fn spec_name(&self) -> Seq<char> {
        match self {
            ConfigGroup::Plugin => "plugin"@,
            ConfigGroup::Core => "core"@,
        }
    }

    /// The protocol name of the group.
    pub fn to_string(&self) -> (r: String)
        ensures
            r@ == self.spec_name(),
    {
        match self {
            ConfigGroup::Plugin => String::from_str("plugin"),
            ConfigGroup::Core => String::from_str("core"),
        }
    }

    /// Parse the (case-insensitive) name of a config group.
    pub fn from_str(s: &str) -> (r: Result<ConfigGroup, ParseConfigGroupError>)
        ensures
            match r {
                Ok(g) => g == ConfigGroup::Plugin && crate::event::upper_str(s@) == "PLUGIN"@ || g
                    == ConfigGroup::Core && crate::event::upper_str(s@) == "CORE"@,
                Err(_) => crate::event::upper_str(s@) != "PLUGIN"@ && crate::event::upper_str(s@)
                    != "CORE"@,
            },
    {
        let upper = to_ascii_upper(s);
        if str_eq(upper.as_str(), "PLUGIN") {
            Ok(ConfigGroup::Plugin)
        } else if str_eq(upper.as_str(), "CORE") {
            Ok(ConfigGroup::Core)
        } else {
            Err(ParseConfigGroupError::new())
        }
    }
}

/// An enum of all requests that can be sent to a DaZeus instance.
///
/// Note that typically you won't create these request instances directly:
/// the `DaZeus` methods build them. You can also hand them directly to
/// `DaZeus::try_send`.
#[derive(Debug, Clone)]
pub enum Request {
    /// Subscribe to a certain event type.
    Subscribe(EventType),
    /// Unsubscribe from an event.
    ///
    /// You cannot specify `EventType::Command(..)` here: registered
    /// commands cannot be unregistered from the DaZeus server. To stop
    /// listening, just let DaZeus remove the listener.
    Unsubscribe(EventType),
    /// Subscribe to a command, optionally on a specific network.
    SubscribeCommand(String, Option<String>),
    /// Retrieve the networks the DaZeus core is connected to.
    Networks,
    /// Retrieve the channels the bot has joined on the given network.
    Channels(String),
    /// Send a message (PRIVMSG) to a target on some network.
    Message(String, String, String),
    /// Send a notice to a target on some network.
    Notice(String, String, String),
    /// Send a CTCP message to a client on some network.
    Ctcp(String, String, String),
    /// Send a CTCP reply to a client on some network.
    CtcpReply(String, String, String),
    /// Send a CTCP ACTION to a target on some network.
    Action(String, String, String),
    /// Request the list of names in some channel.
    Names(String, String),
    /// Request a whois of some target.
    Whois(String, String),
    /// Join a channel on some network.
    Join(String, String),
    /// Leave a channel on some network.
    Part(String, String),
    /// Request the nickname of the bot on a network.
    Nick(String),
    /// A handshake to the DaZeus core: plugin name, plugin version, and
    /// optionally an alternative name for config retrieval.
    Handshake(String, String, Option<String>),
    /// Retrieve an option from the DaZeus core config.
    Config(String, ConfigGroup),
    /// Retrieve a property from the DaZeus core database.
    GetProperty(String, Scope),
    /// Set a property in the DaZeus core database.
    SetProperty(String, String, Scope),
    /// Remove a property from the DaZeus core database.
    UnsetProperty(String, Scope),
    /// Retrieve the property keys available under a prefix and scope.
    PropertyKeys(String, Scope),
    /// Set a permission to allow or deny for a scope.
    SetPermission(String, bool, Scope),
    /// Query a permission, with a default for when it is not set.
    HasPermission(String, bool, Scope),
    /// Remove a permission from the DaZeus core.
    UnsetPermission(String, Scope),
}

/// Whether two requests are the same operation with the same values
/// (scopes and event kinds match element-wise).
pub open spec fn request_eq(a: Request, b: Request) -> bool {
    match (a, b) {
            (Request::Subscribe(a0), Request::Subscribe(b0)) => crate::event::kind_eq(a0, b0),
            (Request::Unsubscribe(a0), Request::Unsubscribe(b0)) => crate::event::kind_eq(a0, b0),
            (Request::SubscribeCommand(a0, a1), Request::SubscribeCommand(b0, b1)) => a0@ == b0@ && crate::scope::opt_str_eq_spec(a1, b1),
            (Request::Networks, Request::Networks) => true,
            (Request::Channels(a0), Request::Channels(b0)) => a0@ == b0@,
            (Request::Message(a0, a1, a2), Request::Message(b0, b1, b2)) => a0@ == b0@ && a1@ == b1@ && a2@ == b2@,
            (Request::Notice(a0, a1, a2), Request::Notice(b0, b1, b2)) => a0@ == b0@ && a1@ == b1@ && a2@ == b2@,
            (Request::Ctcp(a0, a1, a2), Request::Ctcp(b0, b1, b2)) => a0@ == b0@ && a1@ == b1@ && a2@ == b2@,
            (Request::CtcpReply(a0, a1, a2), Request::CtcpReply(b0, b1, b2)) => a0@ == b0@ && a1@ == b1@ && a2@ == b2@,
            (Request::Action(a0, a1, a2), Request::Action(b0, b1, b2)) => a0@ == b0@ && a1@ == b1@ && a2@ == b2@,
            (Request::Names(a0, a1), Request::Names(b0, b1)) => a0@ == b0@ && a1@ == b1@,
            (Request::Whois(a0, a1), Request::Whois(b0, b1)) => a0@ == b0@ && a1@ == b1@,
            (Request::Join(a0, a1), Request::Join(b0, b1)) => a0@ == b0@ && a1@ == b1@,
            (Request::Part(a0, a1), Request::Part(b0, b1)) => a0@ == b0@ && a1@ == b1@,
            (Request::Nick(a0), Request::Nick(b0)) => a0@ == b0@,
            (Request::Handshake(a0, a1, a2), Request::Handshake(b0, b1, b2)) => a0@ == b0@ && a1@ == b1@ && crate::scope::opt_str_eq_spec(a2, b2),
            (Request::Config(a0, a1), Request::Config(b0, b1)) => a0@ == b0@ && a1 == b1,
            (Request::GetProperty(a0, a1), Request::GetProperty(b0, b1)) => a0@ == b0@ && crate::scope::scope_eq(a1, b1),
            (Request::SetProperty(a0, a1, a2), Request::SetProperty(b0, b1, b2)) => a0@ == b0@ && a1@ == b1@ && crate::scope::scope_eq(a2, b2),
            (Request::UnsetProperty(a0, a1), Request::UnsetProperty(b0, b1)) => a0@ == b0@ && crate::scope::scope_eq(a1, b1),
            (Request::PropertyKeys(a0, a1), Request::PropertyKeys(b0, b1)) => a0@ == b0@ && crate::scope::scope_eq(a1, b1),
            (Request::SetPermission(a0, a1, a2), Request::SetPermission(b0, b1, b2)) => a0@ == b0@ && a1 == b1 && crate::scope::scope_eq(a2, b2),
            (Request::HasPermission(a0, a1, a2), Request::HasPermission(b0, b1, b2)) => a0@ == b0@ && a1 == b1 && crate::scope::scope_eq(a2, b2),
            (Request::UnsetPermission(a0, a1), Request::UnsetPermission(b0, b1)) => a0@ == b0@ && crate::scope::scope_eq(a1, b1),
            _ => false,
    }
}

impl vstd::std_specs::cmp::PartialEqSpecImpl for Request {
    open spec fn obeys_eq_spec() -> bool {
        true
    }

    open spec fn eq_spec(&self, other: &Request) -> bool {
        request_eq(*self, *other)
    }
}

impl PartialEq for Request {
    fn eq(&self, other: &Request) -> (r: bool) {
        match (self, other) {
            (Request::Subscribe(a0), Request::Subscribe(b0)) => a0 == b0,
            (Request::Unsubscribe(a0), Request::Unsubscribe(b0)) => a0 == b0,
            (Request::SubscribeCommand(a0, a1), Request::SubscribeCommand(b0, b1)) => crate::json::str_eq(a0.as_str(), b0.as_str()) && crate::scope::opt_str_eq(a1, b1),
            (Request::Networks, Request::Networks) => true,
            (Request::Channels(a0), Request::Channels(b0)) => crate::json::str_eq(a0.as_str(), b0.as_str()),
            (Request::Message(a0, a1, a2), Request::Message(b0, b1, b2)) => crate::json::str_eq(a0.as_str(), b0.as_str()) && crate::json::str_eq(a1.as_str(), b1.as_str()) && crate::json::str_eq(a2.as_str(), b2.as_str()),
            (Request::Notice(a0, a1, a2), Request::Notice(b0, b1, b2)) => crate::json::str_eq(a0.as_str(), b0.as_str()) && crate::json::str_eq(a1.as_str(), b1.as_str()) && crate::json::str_eq(a2.as_str(), b2.as_str()),
            (Request::Ctcp(a0, a1, a2), Request::Ctcp(b0, b1, b2)) => crate::json::str_eq(a0.as_str(), b0.as_str()) && crate::json::str_eq(a1.as_str(), b1.as_str()) && crate::json::str_eq(a2.as_str(), b2.as_str()),
            (Request::CtcpReply(a0, a1, a2), Request::CtcpReply(b0, b1, b2)) => crate::json::str_eq(a0.as_str(), b0.as_str()) && crate::json::str_eq(a1.as_str(), b1.as_str()) && crate::json::str_eq(a2.as_str(), b2.as_str()),
            (Request::Action(a0, a1, a2), Request::Action(b0, b1, b2)) => crate::json::str_eq(a0.as_str(), b0.as_str()) && crate::json::str_eq(a1.as_str(), b1.as_str()) && crate::json::str_eq(a2.as_str(), b2.as_str()),
            (Request::Names(a0, a1), Request::Names(b0, b1)) => crate::json::str_eq(a0.as_str(), b0.as_str()) && crate::json::str_eq(a1.as_str(), b1.as_str()),
            (Request::Whois(a0, a1), Request::Whois(b0, b1)) => crate::json::str_eq(a0.as_str(), b0.as_str()) && crate::json::str_eq(a1.as_str(), b1.as_str()),
            (Request::Join(a0, a1), Request::Join(b0, b1)) => crate::json::str_eq(a0.as_str(), b0.as_str()) && crate::json::str_eq(a1.as_str(), b1.as_str()),
            (Request::Part(a0, a1), Request::Part(b0, b1)) => crate::json::str_eq(a0.as_str(), b0.as_str()) && crate::json::str_eq(a1.as_str(), b1.as_str()),
            (Request::Nick(a0), Request::Nick(b0)) => crate::json::str_eq(a0.as_str(), b0.as_str()),
            (Request::Handshake(a0, a1, a2), Request::Handshake(b0, b1, b2)) => crate::json::str_eq(a0.as_str(), b0.as_str()) && crate::json::str_eq(a1.as_str(), b1.as_str()) && crate::scope::opt_str_eq(a2, b2),
            (Request::Config(a0, a1), Request::Config(b0, b1)) => crate::json::str_eq(a0.as_str(), b0.as_str()) && a1 == b1,
            (Request::GetProperty(a0, a1), Request::GetProperty(b0, b1)) => crate::json::str_eq(a0.as_str(), b0.as_str()) && a1 == b1,
            (Request::SetProperty(a0, a1, a2), Request::SetProperty(b0, b1, b2)) => crate::json::str_eq(a0.as_str(), b0.as_str()) && crate::json::str_eq(a1.as_str(), b1.as_str()) && a2 == b2,
            (Request::UnsetProperty(a0, a1), Request::UnsetProperty(b0, b1)) => crate::json::str_eq(a0.as_str(), b0.as_str()) && a1 == b1,
            (Request::PropertyKeys(a0, a1), Request::PropertyKeys(b0, b1)) => crate::json::str_eq(a0.as_str(), b0.as_str()) && a1 == b1,
            (Request::SetPermission(a0, a1, a2), Request::SetPermission(b0, b1, b2)) => crate::json::str_eq(a0.as_str(), b0.as_str()) && a1 == b1 && a2 == b2,
            (Request::HasPermission(a0, a1, a2), Request::HasPermission(b0, b1, b2)) => crate::json::str_eq(a0.as_str(), b0.as_str()) && a1 == b1 && a2 == b2,
            (Request::UnsetPermission(a0, a1), Request::UnsetPermission(b0, b1)) => crate::json::str_eq(a0.as_str(), b0.as_str()) && a1 == b1,
            _ => false,
        }
    }
}

impl Request {
    /// The verb the request is sent under.
    pub open spec fn spec_verb(&self) -> Seq<char> {
        match self {
            Request::Subscribe(EventType::Command(_)) => "command"@,
            Request::Subscribe(_) => "subscribe"@,
            Request::Unsubscribe(_) => "unsubscribe"@,
            Request::SubscribeCommand(_, _) => "command"@,
            Request::Networks => "networks"@,
            Request::Channels(_) => "channels"@,
            Request::Message(_, _, _) => "message"@,
            Request::Notice(_, _, _) => "notice"@,
            Request::Ctcp(_, _, _) => "ctcp"@,
            Request::CtcpReply(_, _, _) => "ctcp_rep"@,
            Request::Action(_, _, _) => "action"@,
            Request::Names(_, _) => "names"@,
            Request::Whois(_, _) => "whois"@,
            Request::Join(_, _) => "join"@,
            Request::Part(_, _) => "part"@,
            Request::Nick(_) => "nick"@,
            Request::Handshake(_, _, _) => "handshake"@,
            Request::Config(_, _) => "config"@,
            Request::GetProperty(_, _) => "property"@,
            Request::SetProperty(_, _, _) => "property"@,
            Request::UnsetProperty(_, _) => "property"@,
            Request::PropertyKeys(_, _) => "property"@,
            Request::SetPermission(_, _, _) => "permission"@,
            Request::HasPermission(_, _, _) => "permission"@,
            Request::UnsetPermission(_, _) => "permission"@,
        }
    }

    /// Whether the request is sent under the `get` or the `do` key.
    pub open spec fn spec_action(&self) -> Seq<char> {
        match self {
            Request::Networks | Request::Channels(_) | Request::Nick(_) | Request::Config(
                _,
                _,
            ) => "get"@,
            _ => "do"@,
        }
    }

    /// The parameter list the request carries.
    pub open spec fn spec_params(&self) -> Seq<JsonSpec> {
        match self {
            Request::Subscribe(EventType::Command(cmd)) => seq![JsonSpec::Str(cmd@)],
            Request::Subscribe(evt) => seq![JsonSpec::Str(evt.spec_name())],
            Request::Unsubscribe(evt) => seq![JsonSpec::Str(evt.spec_name())],
            Request::SubscribeCommand(cmd, Some(network)) => seq![
                JsonSpec::Str(cmd@),
                JsonSpec::Str(network@),
            ],
            Request::SubscribeCommand(cmd, None) => seq![JsonSpec::Str(cmd@)],
            Request::Networks => Seq::empty(),
            Request::Channels(network) => seq![JsonSpec::Str(network@)],
            Request::Nick(network) => seq![JsonSpec::Str(network@)],
            Request::Message(network, target, message) => seq![
                JsonSpec::Str(network@),
                JsonSpec::Str(target@),
                JsonSpec::Str(message@),
            ],
            Request::Notice(network, target, message) => seq![
                JsonSpec::Str(network@),
                JsonSpec::Str(target@),
                JsonSpec::Str(message@),
            ],
            Request::Ctcp(network, target, message) => seq![
                JsonSpec::Str(network@),
                JsonSpec::Str(target@),
                JsonSpec::Str(message@),
            ],
            Request::CtcpReply(network, target, message) => seq![
                JsonSpec::Str(network@),
                JsonSpec::Str(target@),
                JsonSpec::Str(message@),
            ],
            Request::Action(network, target, message) => seq![
                JsonSpec::Str(network@),
                JsonSpec::Str(target@),
                JsonSpec::Str(message@),
            ],
            Request::Names(network, channel) => seq![
                JsonSpec::Str(network@),
                JsonSpec::Str(channel@),
            ],
            Request::Whois(network, user) => seq![JsonSpec::Str(network@), JsonSpec::Str(user@)],
            Request::Join(network, channel) => seq![
                JsonSpec::Str(network@),
                JsonSpec::Str(channel@),
            ],
            Request::Part(network, channel) => seq![
                JsonSpec::Str(network@),
                JsonSpec::Str(channel@),
            ],
            Request::Handshake(name, version, Some(config_name)) => seq![
                JsonSpec::Str(name@),
                JsonSpec::Str(version@),
                JsonSpec::Str("1"@),
                JsonSpec::Str(config_name@),
            ],
            Request::Handshake(name, version, None) => seq![
                JsonSpec::Str(name@),
                JsonSpec::Str(version@),
                JsonSpec::Str("1"@),
                JsonSpec::Str(name@),
            ],
            Request::Config(key, group) => seq![
                JsonSpec::Str(group.spec_name()),
                JsonSpec::Str(key@),
            ],
            Request::GetProperty(property, _) => seq![
                JsonSpec::Str("get"@),
                JsonSpec::Str(property@),
            ],
            Request::SetProperty(property, value, _) => seq![
                JsonSpec::Str("set"@),
                JsonSpec::Str(property@),
                JsonSpec::Str(value@),
            ],
            Request::UnsetProperty(property, _) => seq![
                JsonSpec::Str("unset"@),
                JsonSpec::Str(property@),
            ],
            Request::PropertyKeys(prefix, _) => seq![
                JsonSpec::Str("keys"@),
                JsonSpec::Str(prefix@),
            ],
            Request::SetPermission(permission, default, _) => seq![
                JsonSpec::Str("set"@),
                JsonSpec::Str(permission@),
                JsonSpec::Bool(*default),
            ],
            Request::HasPermission(permission, default, _) => seq![
                JsonSpec::Str("get"@),
                JsonSpec::Str(permission@),
                JsonSpec::Bool(*default),
            ],
            Request::UnsetPermission(permission, _) => seq![
                JsonSpec::Str("unset"@),
                JsonSpec::Str(permission@),
            ],
        }
    }

    /// The scope entry the request carries: property and permission
    /// requests name their scope unless it is unlimited.
    pub open spec fn spec_scope_entry(&self) -> Option<JsonSpec> {
        match self {
            Request::GetProperty(_, scope) => scope_entry_of(scope),
            Request::SetProperty(_, _, scope) => scope_entry_of(scope),
            Request::UnsetProperty(_, scope) => scope_entry_of(scope),
            Request::PropertyKeys(_, scope) => scope_entry_of(scope),
            Request::SetPermission(_, _, scope) => scope_entry_of(scope),
            Request::HasPermission(_, _, scope) => scope_entry_of(scope),
            Request::UnsetPermission(_, scope) => scope_entry_of(scope),
            _ => None,
        }
    }

    /// The JSON document the request serializes to: the verb under the
    /// `do` or `get` key, then the scope entry if one is carried, then
    /// the parameters if there are any.
    pub open spec fn wire_json(&self) -> JsonSpec {
        JsonSpec::Obj(
            seq![(self.spec_action(), JsonSpec::Str(self.spec_verb()))] + (
            match self.spec_scope_entry() {
                Some(entry) => seq![("scope"@, entry)],
                None => Seq::empty(),
            }) + (if self.spec_params().len() > 0 {
                seq![("params"@, JsonSpec::Arr(self.spec_params()))]
            } else {
                Seq::empty()
            }),
        )
    }
}

/// The scope entry a request carries for the given scope: nothing when it
/// is unlimited.
pub open spec fn scope_entry_of(scope: &Scope) -> Option<JsonSpec> {
    if scope.spec_is_any() {
        None
    } else {
        Some(scope.spec_json())
    }
}

/// Push a string parameter, keeping the model in step.
fn push_str_param(params: &mut Vec<JsonValue>, s: &str)
    ensures
        items_view(final(params)@) == items_view(old(params)@).push(JsonSpec::Str(s@)),
{
    params.push(JsonValue::Str(s.to_owned()));
    proof {
        lemma_items_view_len(params@);
        lemma_items_view_len(params@.drop_last());
        assert(params@.drop_last() =~= old(params)@);
        assert(items_view(params@) == items_view(params@.drop_last()).push(params@.last()@));
    }
}

/// Push a boolean parameter, keeping the model in step.
fn push_bool_param(params: &mut Vec<JsonValue>, b: bool)
    ensures
        items_view(final(params)@) == items_view(old(params)@).push(JsonSpec::Bool(b)),
{
    params.push(JsonValue::Bool(b));
    proof {
        lemma_items_view_len(params@);
        lemma_items_view_len(params@.drop_last());
        assert(params@.drop_last() =~= old(params)@);
        assert(items_view(params@) == items_view(params@.drop_last()).push(params@.last()@));
    }
}

impl Request {
    /// The verb of the request, as a JSON string.
    fn get_json_name(&self) -> (r: JsonValue)
        ensures
            r@ == JsonSpec::Str(self.spec_verb()),
    {
        let s = match self {
            Request::Subscribe(EventType::Command(_)) => "command",
            Request::Subscribe(_) => "subscribe",
            Request::Unsubscribe(_) => "unsubscribe",
            Request::SubscribeCommand(_, _) => "command",
            Request::Networks => "networks",
            Request::Channels(_) => "channels",
            Request::Message(_, _, _) => "message",
            Request::Notice(_, _, _) => "notice",
            Request::Ctcp(_, _, _) => "ctcp",
            Request::CtcpReply(_, _, _) => "ctcp_rep",
            Request::Action(_, _, _) => "action",
            Request::Names(_, _) => "names",
            Request::Whois(_, _) => "whois",
            Request::Join(_, _) => "join",
            Request::Part(_, _) => "part",
            Request::Nick(_) => "nick",
            Request::Handshake(_, _, _) => "handshake",
            Request::Config(_, _) => "config",
            Request::GetProperty(_, _) => "property",
            Request::SetProperty(_, _, _) => "property",
            Request::UnsetProperty(_, _) => "property",
            Request::PropertyKeys(_, _) => "property",
            Request::SetPermission(_, _, _) => "permission",
            Request::HasPermission(_, _, _) => "permission",
            Request::UnsetPermission(_, _) => "permission",
        };
        JsonValue::Str(s.to_owned())
    }

    /// Whether the request is sent under the `get` or the `do` key.
    fn get_action_type(&self) -> (r: String)
        ensures
            r@ == self.spec_action(),
    {
        match self {
            Request::Networks | Request::Channels(_) | Request::Nick(_) | Request::Config(
                _,
                _,
            ) => String::from_str("get"),
            _ => String::from_str("do"),
        }
    }

    /// The JSON document this request serializes to, ready to be framed
    /// and sent to a DaZeus core.
    ///
    /// A wire unsubscription of a command does not exist in the protocol,
    /// so `Request::Unsubscribe(EventType::Command(..))` is excluded.
    pub fn to_json(&self) -> (r: JsonValue)
        requires
            !(self matches Request::Unsubscribe(EventType::Command(_))),
        ensures
            r@ == self.wire_json(),
    {
        let action = self.get_action_type();
        let name = self.get_json_name();
        let mut params: Vec<JsonValue> = Vec::new();
        let mut scope_entry: Option<JsonValue> = None;
        proof {
            lemma_items_view_len(params@);
            assert(items_view(params@) =~= Seq::<JsonSpec>::empty());
        }
        match self {
            Request::Subscribe(EventType::Command(cmd)) => {
                push_str_param(&mut params, cmd.as_str());
            },
            Request::Subscribe(evt) => {
                let n = evt.to_string();
                push_str_param(&mut params, n.as_str());
            },
            Request::Unsubscribe(evt) => {
                let n = evt.to_string();
                push_str_param(&mut params, n.as_str());
            },
            Request::SubscribeCommand(cmd, Some(network)) => {
                push_str_param(&mut params, cmd.as_str());
                push_str_param(&mut params, network.as_str());
            },
            Request::SubscribeCommand(cmd, None) => {
                push_str_param(&mut params, cmd.as_str());
            },
            Request::Networks => {},
            Request::Channels(network) => {
                push_str_param(&mut params, network.as_str());
            },
            Request::Nick(network) => {
                push_str_param(&mut params, network.as_str());
            },
            Request::Message(network, target, message) => {
                push_str_param(&mut params, network.as_str());
                push_str_param(&mut params, target.as_str());
                push_str_param(&mut params, message.as_str());
            },
            Request::Notice(network, target, message) => {
                push_str_param(&mut params, network.as_str());
                push_str_param(&mut params, target.as_str());
                push_str_param(&mut params, message.as_str());
            },
            Request::Ctcp(network, target, message) => {
                push_str_param(&mut params, network.as_str());
                push_str_param(&mut params, target.as_str());
                push_str_param(&mut params, message.as_str());
            },
            Request::CtcpReply(network, target, message) => {
                push_str_param(&mut params, network.as_str());
                push_str_param(&mut params, target.as_str());
                push_str_param(&mut params, message.as_str());
            },
            Request::Action(network, target, message) => {
                push_str_param(&mut params, network.as_str());
                push_str_param(&mut params, target.as_str());
                push_str_param(&mut params, message.as_str());
            },
            Request::Names(network, channel) => {
                push_str_param(&mut params, network.as_str());
                push_str_param(&mut params, channel.as_str());
            },
            Request::Whois(network, user) => {
                push_str_param(&mut params, network.as_str());
                push_str_param(&mut params, user.as_str());
            },
            Request::Join(network, channel) => {
                push_str_param(&mut params, network.as_str());
                push_str_param(&mut params, channel.as_str());
            },
            Request::Part(network, channel) => {
                push_str_param(&mut params, network.as_str());
                push_str_param(&mut params, channel.as_str());
            },
            Request::Handshake(name_s, version, Some(config_name)) => {
                push_str_param(&mut params, name_s.as_str());
                push_str_param(&mut params, version.as_str());
                push_str_param(&mut params, protocol_version());
                push_str_param(&mut params, config_name.as_str());
            },
            Request::Handshake(name_s, version, None) => {
                push_str_param(&mut params, name_s.as_str());
                push_str_param(&mut params, version.as_str());
                push_str_param(&mut params, protocol_version());
                push_str_param(&mut params, name_s.as_str());
            },
            Request::Config(key, group) => {
                let g = group.to_string();
                push_str_param(&mut params, g.as_str());
                push_str_param(&mut params, key.as_str());
            },
            Request::GetProperty(property, scope) => {
                push_str_param(&mut params, "get");
                push_str_param(&mut params, property.as_str());
                if !scope.is_any() {
                    scope_entry = Some(scope.to_json());
                }
            },
            Request::SetProperty(property, value, scope) => {
                push_str_param(&mut params, "set");
                push_str_param(&mut params, property.as_str());
                push_str_param(&mut params, value.as_str());
                if !scope.is_any() {
                    scope_entry = Some(scope.to_json());
                }
            },
            Request::UnsetProperty(property, scope) => {
                push_str_param(&mut params, "unset");
                push_str_param(&mut params, property.as_str());
                if !scope.is_any() {
                    scope_entry = Some(scope.to_json());
                }
            },
            Request::PropertyKeys(prefix, scope) => {
                push_str_param(&mut params, "keys");
                push_str_param(&mut params, prefix.as_str());
                if !scope.is_any() {
                    scope_entry = Some(scope.to_json());
                }
            },
            Request::SetPermission(permission, default, scope) => {
                push_str_param(&mut params, "set");
                push_str_param(&mut params, permission.as_str());
                push_bool_param(&mut params, *default);
                if !scope.is_any() {
                    scope_entry = Some(scope.to_json());
                }
            },
            Request::HasPermission(permission, default, scope) => {
                push_str_param(&mut params, "get");
                push_str_param(&mut params, permission.as_str());
                push_bool_param(&mut params, *default);
                if !scope.is_any() {
                    scope_entry = Some(scope.to_json());
                }
            },
            Request::UnsetPermission(permission, scope) => {
                push_str_param(&mut params, "unset");
                push_str_param(&mut params, permission.as_str());
                if !scope.is_any() {
                    scope_entry = Some(scope.to_json());
                }
            },
        }
        proof {
            reveal_strlit("get");
            reveal_strlit("set");
            reveal_strlit("unset");
            reveal_strlit("keys");
            assert(items_view(params@) =~= self.spec_params());
            assert(match scope_entry {
                Some(v) => self.spec_scope_entry() == Some(v@),
                None => self.spec_scope_entry() is None,
            });
        }
        let mut fields: Vec<(String, JsonValue)> = Vec::new();
        fields.push((action, name));
        match scope_entry {
            Some(entry) => {
                fields.push(("scope".to_owned(), entry));
            },
            None => {},
        }
        if params.len() > 0 {
            proof {
                lemma_items_view_len(params@);
            }
            fields.push(("params".to_owned(), JsonValue::Arr(params)));
        } else {
            proof {
                lemma_items_view_len(params@);
            }
        }
        proof {
            lemma_fields_view_len(fields@);
            if fields@.len() > 0 {
                lemma_fields_view_index(fields@, 0);
            }
            if fields@.len() > 1 {
                lemma_fields_view_index(fields@, 1);
            }
            if fields@.len() > 2 {
                lemma_fields_view_index(fields@, 2);
            }
            assert(fields_view(fields@) =~= self.wire_json()->Obj_0);
        }
        JsonValue::Obj(fields)
    }
}

} // verus!
