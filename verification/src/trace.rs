//! Trace payloads in their stored form.
//!
//! A routing stage serializes its typed trace payload to the tagged JSON form
//! it is stored as, then either stores it as plaintext for a normal session or
//! hands it to the client to seal for an encrypted one. Serialized JSON is
//! never empty.

use vstd::prelude::*;

verus! {

/// A trace payload serialized to the JSON form it is stored as.
#[derive(Debug)]
pub struct SerializedPayload(String);

impl View for SerializedPayload {
    type V = Seq<char>;

    /// The serialized JSON text.
    closed spec fn view(&self) -> Seq<char> {
        self.0@
    }
}

impl SerializedPayload {
    /// A serialized payload always holds some JSON text.
    #[verifier::type_invariant]
    closed spec fn holds_json(self) -> bool {
        self.0@.len() > 0
    }

    /// Wraps the JSON a payload serialized to; serializing a value never
    /// yields empty text.
    pub fn from_json(json: String) -> (payload: SerializedPayload)
        requires
            json@.len() > 0,
        ensures
            payload@ == json@,
    {
        SerializedPayload(json)
    }

    /// A copy of the payload, holding the same JSON.
    pub fn duplicate(&self) -> (copy: SerializedPayload)
        ensures
            copy@ == self@,
    {
        proof {
            use_type_invariant(self);
        }
        SerializedPayload(self.0.clone())
    }

    /// Borrows the serialized JSON, the form a client seals for an encrypted
    /// session.
    pub fn as_str(&self) -> (json: &str)
        ensures
            json@ == self@,
            json@.len() > 0,
    {
        proof {
            use_type_invariant(self);
        }
        self.0.as_str()
    }

    /// Consumes the payload, returning the serialized JSON, the form stored
    /// as plaintext for a normal session.
    pub fn into_string(self) -> (json: String)
        ensures
            json@ == self@,
            json@.len() > 0,
    {
        proof {
            use_type_invariant(&self);
        }
        self.0
    }
}

} // verus!
