//! A password that is wiped from memory when it is no longer needed.

use vstd::prelude::*;

verus! {

/// Overwrites the bytes of `s` with zeros and empties it, through
/// `zeroize`'s `Zeroize::zeroize` for `String`, which zeroes the string's
/// buffer and then clears it.
#[verifier::external_body]
fn wipe(s: &mut String)
    ensures
        final(s)@ == Seq::<char>::empty(),
    opens_invariants none
    no_unwind
{
    zeroize::Zeroize::zeroize(s);
}

/// A password whose memory is overwritten when it is dropped. It cannot be
/// printed; what is shown of it for debugging is a fixed text.
#[derive(Clone)]
pub struct SecurePassword(String);

impl SecurePassword {
    /// The password held.
    pub closed spec fn spec_text(self) -> Seq<char> {
        self.0@
    }

    /// Holds `password`.
    pub fn new(password: String) -> (r: Self)
        ensures
            r.spec_text() == password@,
    {
        SecurePassword(password)
    }

    /// The password held.
    pub fn as_str(&self) -> (r: &str)
        ensures
            r@ == self.spec_text(),
    {
        self.0.as_str()
    }

    /// Overwrites the password in memory and leaves the empty text in its
    /// place.
    pub fn wipe(&mut self)
        ensures
            final(self).spec_text() == Seq::<char>::empty(),
    {
        wipe(&mut self.0);
    }

    /// What is shown of the password for debugging: a fixed text that does
    /// not depend on it.
    pub fn redacted(&self) -> (r: String)
        ensures
            r@ == "SecurePassword([REDACTED])"@,
    {
        String::from_str("SecurePassword([REDACTED])")
    }
}

impl Drop for SecurePassword {
    fn drop(&mut self)
        opens_invariants none
        no_unwind
    {
        wipe(&mut self.0);
    }
}

} // verus!
