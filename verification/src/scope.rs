//! Scopes limit where a property or permission applies.

use vstd::prelude::*;
use crate::json::{items_view, lemma_items_view_index, lemma_items_view_len, JsonSpec, JsonValue};

verus! {

/// A scope for retrieving permissions and properties.
///
/// A scope is an optional limitation on which some property or permission
/// applies, made of three elements: the `network` for which it holds, the
/// `sender` (an IRC user) and the `receiver` (a channel). A sender or
/// receiver scope should also name a network. The most generic scope
/// applies to everything and is created by `Scope::any()`.
#[derive(Debug)]
pub struct Scope {
    /// The network on which the scope is limited (if any).
    pub network: Option<String>,
    /// The sender on which the scope is limited (if any).
    pub sender: Option<String>,
    /// The receiver on which the scope is limited (if any).
    pub receiver: Option<String>,
}

/// The JSON document a scope element serializes to: its string, or null.
pub open spec fn opt_str_json(o: Option<String>) -> JsonSpec {
    match o {
        Option::None => JsonSpec::Null,
        Option::Some(s) => JsonSpec::Str(s@),
    }
}

impl Clone for Scope {
    /// A clone of a scope is the same scope.
    fn clone(&self) -> (r: Self)
        ensures
            r == *self,
    {
        Scope {
            network: match &self.network {
                Option::Some(s) => Option::Some(s.clone()),
                Option::None => Option::None,
            },
            sender: match &self.sender {
                Option::Some(s) => Option::Some(s.clone()),
                Option::None => Option::None,
            },
            receiver: match &self.receiver {
                Option::Some(s) => Option::Some(s.clone()),
                Option::None => Option::None,
            },
        }
    }
}

/// Whether two optional strings hold the same characters (or are both
/// absent).
pub open spec fn opt_str_eq_spec(a: Option<String>, b: Option<String>) -> bool {
    match (a, b) {
        (Option::None, Option::None) => true,
        (Option::Some(x), Option::Some(y)) => x@ == y@,
        _ => false,
    }
}

/// Whether two optional strings hold the same characters (or are both
/// absent).
pub fn opt_str_eq(a: &Option<String>, b: &Option<String>) -> (r: bool)
    ensures
        r == opt_str_eq_spec(*a, *b),
{
    match (a, b) {
        (Option::None, Option::None) => true,
        (Option::Some(x), Option::Some(y)) => crate::json::str_eq(x.as_str(), y.as_str()),
        _ => false,
    }
}

/// Whether two scopes limit the same elements to the same values.
pub open spec fn scope_eq(a: Scope, b: Scope) -> bool {
    &&& opt_str_eq_spec(a.network, b.network)
    &&& opt_str_eq_spec(a.sender, b.sender)
    &&& opt_str_eq_spec(a.receiver, b.receiver)
}

impl vstd::std_specs::cmp::PartialEqSpecImpl for Scope {
    open spec fn obeys_eq_spec() -> bool {
        true
    }

    open spec fn eq_spec(&self, other: &Scope) -> bool {
        scope_eq(*self, *other)
    }
}

impl PartialEq for Scope {
    fn eq(&self, other: &Scope) -> (r: bool) {
        opt_str_eq(&self.network, &other.network) && opt_str_eq(&self.sender, &other.sender)
            && opt_str_eq(&self.receiver, &other.receiver)
    }
}

impl Scope {
    /// Whether no element of the scope is limited.
    pub open spec fn spec_is_any(&self) -> bool {
        self.network is None && self.sender is None && self.receiver is None
    }

    /// The wire form of the scope: an array holding the elements that are
    /// set, with nulls standing for unset elements that precede a set one,
    /// and nothing at all for an unlimited scope.
    pub open spec fn spec_json(&self) -> JsonSpec {
        JsonSpec::Arr(
            if self.spec_is_any() {
                Seq::empty()
            } else if self.sender is None && self.receiver is None {
                seq![opt_str_json(self.network)]
            } else if self.receiver is None {
                seq![opt_str_json(self.network), opt_str_json(self.sender)]
            } else {
                seq![
                    opt_str_json(self.network),
                    opt_str_json(self.sender),
                    opt_str_json(self.receiver),
                ]
            },
        )
    }

    /// Construct a new scope with the specified limitations for network,
    /// sender and receiver.
    pub fn new(network: Option<String>, sender: Option<String>, receiver: Option<String>) -> (r:
        Scope)
        ensures
            r.network == network,
            r.sender == sender,
            r.receiver == receiver,
    {
        Scope { network, sender, receiver }
    }

    /// Scope to everyone and anything.
    pub fn any() -> (r: Scope)
        ensures
            r.network is None,
            r.sender is None,
            r.receiver is None,
    {
        Scope::new(Option::None, Option::None, Option::None)
    }

    /// Scope to a specific network.
    pub fn network(network: &str) -> (r: Scope)
        ensures
            r.network matches Some(n) && n@ == network@,
            r.sender is None,
            r.receiver is None,
    {
        Scope::new(Option::Some(network.to_owned()), Option::None, Option::None)
    }

    /// Scope to a specific sender (typically a channel).
    pub fn sender(network: &str, sender: &str) -> (r: Scope)
        ensures
            r.network matches Some(n) && n@ == network@,
            r.sender matches Some(s) && s@ == sender@,
            r.receiver is None,
    {
        Scope::new(
            Option::Some(network.to_owned()),
            Option::Some(sender.to_owned()),
            Option::None,
        )
    }

    /// Scope to a specific receiver (typically a user).
    pub fn receiver(network: &str, receiver: &str) -> (r: Scope)
        ensures
            r.network matches Some(n) && n@ == network@,
            r.sender is None,
            r.receiver matches Some(s) && s@ == receiver@,
    {
        Scope::new(
            Option::Some(network.to_owned()),
            Option::None,
            Option::Some(receiver.to_owned()),
        )
    }

    /// Scope to a specific receiver and channel (typically a user in a
    /// channel).
    pub fn to(network: &str, sender: &str, receiver: &str) -> (r: Scope)
        ensures
            r.network matches Some(n) && n@ == network@,
            r.sender matches Some(s) && s@ == sender@,
            r.receiver matches Some(s) && s@ == receiver@,
    {
        Scope::new(
            Option::Some(network.to_owned()),
            Option::Some(sender.to_owned()),
            Option::Some(receiver.to_owned()),
        )
    }

    /// Checks whether the scope is set to be applied to everything.
    pub fn is_any(&self) -> (r: bool)
        ensures
            r == self.spec_is_any(),
    {
        self.network.is_none() && self.sender.is_none() && self.receiver.is_none()
    }

    /// The wire form of the scope.
    pub fn to_json(&self) -> (r: JsonValue)
        ensures
            r@ == self.spec_json(),
    {
        let mut arr: Vec<JsonValue> = Vec::new();
        if self.network.is_some() || self.sender.is_some() || self.receiver.is_some() {
            arr.push(opt_to_json(&self.network));
            if self.sender.is_some() || self.receiver.is_some() {
                arr.push(opt_to_json(&self.sender));
                if self.receiver.is_some() {
                    arr.push(opt_to_json(&self.receiver));
                }
            }
        }
        proof {
            lemma_items_view_len(arr@);
            if arr@.len() > 0 {
                lemma_items_view_index(arr@, 0);
            }
            if arr@.len() > 1 {
                lemma_items_view_index(arr@, 1);
            }
            if arr@.len() > 2 {
                lemma_items_view_index(arr@, 2);
            }
            assert(self.spec_json()->Arr_0 =~= items_view(arr@));
        }
        JsonValue::Arr(arr)
    }
}

/// The wire form of one scope element.
fn opt_to_json(o: &Option<String>) -> (r: JsonValue)
    ensures
        r@ == opt_str_json(*o),
{
    match o {
        Option::Some(s) => JsonValue::Str(s.clone()),
        Option::None => JsonValue::Null,
    }
}

} // verus!
