//! The key envelope exchanged at the start of every transfer connection:
//! a type tag (always "rsa") and a PEM-encoded public key. The exchange
//! authenticates and encrypts nothing; the transport stays plaintext.

use vstd::prelude::*;

verus! {

/// The wire envelope for a public key.
pub struct KeyObject {
    pub kind: String,
    pub data: String,
}

pub struct KeyObjectView {
    pub kind: Seq<char>,
    pub data: Seq<char>,
}

impl View for KeyObject {
    type V = KeyObjectView;

    open spec fn view(&self) -> KeyObjectView {
        KeyObjectView { kind: self.kind@, data: self.data@ }
    }
}

impl KeyObject {
    /// An envelope from its parts.
    pub fn new(kind: String, data: String) -> (k: KeyObject)
        ensures
            k@ == (KeyObjectView { kind: kind@, data: data@ }),
    {
        KeyObject { kind, data }
    }

    /// An identical copy of this envelope.
    pub fn duplicate(&self) -> (k: KeyObject)
        ensures
            k@ == self@,
    {
        KeyObject { kind: self.kind.clone(), data: self.data.clone() }
    }
}

} // verus!
