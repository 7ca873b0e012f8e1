//! A string that holds a credential.
//!
//! The wrapped value stays behind a private field, and the type offers
//! no rendering at all: the only way to reach the characters is the
//! explicit [`SecretString::expose_secret`] call, so writing the secret
//! into a log or an error message is a visible choice at the call site.

use vstd::prelude::*;

verus! {

/// A secret-bearing string; its view is the wrapped character sequence.
pub struct SecretString {
    secret: String,
}

impl View for SecretString {
    type V = Seq<char>;

    closed spec fn view(&self) -> Seq<char> {
        self.secret@
    }
}

impl SecretString {
    /// Wraps a credential.
    pub fn new(secret: String) -> (s: Self)
        ensures
            s@ == secret@,
    {
        SecretString { secret }
    }

    /// Hands out the wrapped value; the one deliberate way to read it.
    pub fn expose_secret(&self) -> (r: &String)
        ensures
            r@ == self@,
    {
        &self.secret
    }
}

impl Clone for SecretString {
    fn clone(&self) -> (r: Self)
        ensures
            r@ == self@,
    {
        SecretString { secret: self.secret.clone() }
    }
}

} // verus!
