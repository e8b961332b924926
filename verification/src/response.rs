//! Responses to requests sent to the DaZeus core.

use vstd::prelude::*;
use crate::error::InvalidJsonError;
use crate::json::{
    fields_view, json_get, lemma_fields_view_index, lemma_fields_view_len, JsonSpec, JsonValue,
};

verus! {

/// The response to a command sent to the DaZeus server: a JSON document
/// with accessors for its conventional fields.
#[derive(Debug)]
pub struct Response {
    data: JsonValue,
}

impl vstd::std_specs::cmp::PartialEqSpecImpl for Response {
    open spec fn obeys_eq_spec() -> bool {
        true
    }

    open spec fn eq_spec(&self, other: &Response) -> bool {
        self.spec_data() == other.spec_data()
    }
}

impl PartialEq for Response {
    /// Two responses are equal when they wrap the same document.
    fn eq(&self, other: &Response) -> (r: bool) {
        self.data == other.data
    }
}

impl Clone for Response {
    /// A clone of a response wraps the same document.
    fn clone(&self) -> (r: Self)
        ensures
            r.spec_data() == self.spec_data(),
    {
        Response { data: self.data.clone() }
    }
}

/// The document of a failure sentinel with the given reason.
pub open spec fn fail_json(msg: Seq<char>) -> JsonSpec {
    JsonSpec::Obj(
        seq![
            ("success"@, JsonSpec::Bool(false)),
            ("reason"@, JsonSpec::Str(msg)),
        ],
    )
}

/// The document of a success sentinel.
pub open spec fn success_json() -> JsonSpec {
    JsonSpec::Obj(seq![("success"@, JsonSpec::Bool(true))])
}

impl Response {
    /// The JSON document this response wraps, as contracts see it.
    pub closed spec fn spec_data(&self) -> JsonSpec {
        self.data@
    }

    /// Whether the response carries a `success: true` field.
    pub open spec fn spec_is_success(&self) -> bool {
        json_get(self.spec_data(), "success"@) == Some(JsonSpec::Bool(true))
    }

    /// Create a new response based upon a failure message.
    ///
    /// This is used where the API expected a response but the DaZeus core
    /// could not provide a valid one.
    pub fn for_fail(msg: &str) -> (r: Response)
        ensures
            r.spec_data() == fail_json(msg@),
            !r.spec_is_success(),
    {
        let mut fields: Vec<(String, JsonValue)> = Vec::new();
        fields.push(("success".to_owned(), JsonValue::Bool(false)));
        fields.push(("reason".to_owned(), JsonValue::Str(msg.to_owned())));
        proof {
            lemma_fields_view_len(fields@);
            lemma_fields_view_index(fields@, 0);
            lemma_fields_view_index(fields@, 1);
            assert(fields_view(fields@) =~= fail_json(msg@)->Obj_0);
            reveal_strlit("success");
            reveal_strlit("reason");
        }
        Response { data: JsonValue::Obj(fields) }
    }

    /// Create a new response based upon a successful operation.
    ///
    /// This is used when the API expected a response, but the DaZeus core
    /// was not called.
    pub fn for_success() -> (r: Response)
        ensures
            r.spec_data() == success_json(),
            r.spec_is_success(),
    {
        let mut fields: Vec<(String, JsonValue)> = Vec::new();
        fields.push(("success".to_owned(), JsonValue::Bool(true)));
        proof {
            lemma_fields_view_len(fields@);
            lemma_fields_view_index(fields@, 0);
            assert(fields_view(fields@) =~= success_json()->Obj_0);
        }
        Response { data: JsonValue::Obj(fields) }
    }

    /// Create a new response wrapping a JSON document.
    ///
    /// This is used by the bindings to create a new response from a frame
    /// returned by the DaZeus core.
    pub fn from_json(data: JsonValue) -> (r: Result<Response, InvalidJsonError>)
        ensures
            r matches Ok(resp) && resp.spec_data() == data@,
    {
        Ok(Response { data })
    }

    /// Retrieve a property from the data object.
    ///
    /// Returns `Some(data)` if the property exists, or `None` if the
    /// property doesn't exist (or the response is not an object).
    pub fn get<'a>(&'a self, prop: &'a str) -> (r: Option<&'a JsonValue>)
        ensures
            match r {
                Some(v) => json_get(self.spec_data(), prop@) == Some(v@),
                None => json_get(self.spec_data(), prop@) is None,
            },
    {
        match &self.data {
            JsonValue::Obj(fields) => crate::json::json_obj_get(fields, prop),
            _ => None,
        }
    }

    /// Retrieve a property from the data object, or a default if it
    /// doesn't exist.
    pub fn get_or<'a>(&'a self, prop: &'a str, default: &'a JsonValue) -> (r: &'a JsonValue)
        ensures
            match json_get(self.spec_data(), prop@) {
                Some(v) => r@ == v,
                None => r == default,
            },
    {
        match self.get(prop) {
            Some(val) => val,
            None => default,
        }
    }

    /// Retrieve a string from the data object.
    ///
    /// Returns `Some(str)` if the property exists and is a string, or
    /// `None` otherwise.
    pub fn get_str<'a>(&'a self, prop: &'a str) -> (r: Option<&'a str>)
        ensures
            match r {
                Some(s) => json_get(self.spec_data(), prop@) == Some(JsonSpec::Str(s@)),
                None => !(json_get(self.spec_data(), prop@) matches Some(v) && v is Str),
            },
    {
        match self.get(prop) {
            Some(JsonValue::Str(s)) => Some(s.as_str()),
            _ => None,
        }
    }

    /// Retrieve a string from the data object, or return a default if no
    /// such string can be found.
    pub fn get_str_or<'a>(&'a self, prop: &'a str, default: &'a str) -> (r: &'a str)
        ensures
            match json_get(self.spec_data(), prop@) {
                Some(v) => if v is Str {
                    r@ == v->Str_0
                } else {
                    r == default
                },
                None => r == default,
            },
    {
        match self.get_str(prop) {
            Some(s) => s,
            None => default,
        }
    }

    /// Returns whether or not a string property with the given name
    /// exists.
    pub fn has(&self, prop: &str) -> (r: bool)
        ensures
            r == (json_get(self.spec_data(), prop@) matches Some(v) && v is Str),
    {
        self.get_str(prop).is_some()
    }

    /// Check whether a response contains a `success` property that holds
    /// `true`.
    pub fn has_success(&self) -> (r: bool)
        ensures
            r == self.spec_is_success(),
    {
        match self.get("success") {
            Some(JsonValue::Bool(true)) => true,
            _ => false,
        }
    }
}

} // verus!
