//! An owned host string for POSIX-like APIs, built from a portable string.
use crate::posish::{portable_to_host, str_to_host};
use crate::utf8_scan::is_valid_utf8;
use crate::laws::lemma_decoded_no_nul;
use vstd::prelude::*;
use vstd::utf8::*;

verus! {

/// A NUL-terminated and not-necessarily-UTF-8 string, held as its bytes
/// without the terminator.
///
/// It is made from a portable string: plain text without NUL, or an ARF
/// message, which stands for bytes that need not be UTF-8.
pub struct PosixString(Vec<u8>);

impl View for PosixString {
    type V = Seq<u8>;

    closed spec fn view(&self) -> Seq<u8> {
        self.0@
    }
}

impl PosixString {
    #[verifier::type_invariant]
    spec fn inv(&self) -> bool {
        !self.0@.contains(0)
    }

    /// Builds a `PosixString` from bytes that must be well-formed UTF-8 and
    /// either hold no NUL or be a well-formed ARF message.
    pub fn from_path_bytes(bytes: &[u8]) -> (r: Result<Self, ()>)
        ensures
            r matches Ok(p) ==> valid_utf8(bytes@) && portable_to_host(bytes@) == Some(p@),
            r is Err ==> !valid_utf8(bytes@) || portable_to_host(bytes@) is None,
    {
        if !is_valid_utf8(bytes) {
            return Err(());
        }
        match crate::posish::bytes_to_host(bytes) {
            Ok(h) => {
                proof {
                    lemma_decoded_no_nul(bytes@);
                }
                Ok(PosixString(h))
            },
            Err(_) => Err(()),
        }
    }

    /// Builds a `PosixString` from a string that either holds no NUL or is a
    /// well-formed ARF message.
    pub fn from_path_str(s: &str) -> (r: Result<Self, ()>)
        ensures
            r matches Ok(p) ==> portable_to_host(encode_utf8(s@)) == Some(p@),
            r is Err ==> portable_to_host(encode_utf8(s@)) is None,
    {
        match str_to_host(s) {
            Ok(h) => {
                proof {
                    lemma_decoded_no_nul(encode_utf8(s@));
                }
                Ok(PosixString(h))
            },
            Err(_) => Err(()),
        }
    }

    /// The bytes of the C string, without its NUL terminator.
    pub fn as_cstr(&self) -> (r: &[u8])
        ensures
            r@ == self@,
            !r@.contains(0),
    {
        proof {
            use_type_invariant(self);
        }
        self.0.as_slice()
    }

    /// The bytes of the C string followed by its NUL terminator.
    pub fn into_cstring(self) -> (r: Vec<u8>)
        ensures
            r@ == self@.push(0),
    {
        let mut v = self.0;
        v.push(0);
        v
    }
}

} // verus!
