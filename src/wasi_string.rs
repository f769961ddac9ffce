//! An owned portable string, built from a host C string.
use crate::posish::{arf_encode, host_c_str_to_str, host_to_portable, to_arf};
use crate::utf8_scan::{is_valid_utf8, string_from_utf8};
use vstd::prelude::*;
use vstd::utf8::*;

verus! {

/// A portable string made from host bytes such as command-line arguments
/// and environment variables, using the ARF encoding where the bytes are
/// not UTF-8.
pub struct WasiString(String);

impl View for WasiString {
    type V = Seq<char>;

    closed spec fn view(&self) -> Seq<char> {
        self.0@
    }
}

impl WasiString {
    /// Builds a `WasiString` from the bytes of a C string (before its NUL
    /// terminator).
    pub fn from_maybe_nonutf8_cstr(cstr: &[u8]) -> (r: Self)
        requires
            !cstr@.contains(0),
        ensures
            encode_utf8(r@) == host_to_portable(cstr@),
    {
        if is_valid_utf8(cstr) {
            return WasiString(host_c_str_to_str(cstr));
        }
        Self::from_nonutf8_cstr(cstr)
    }

    /// Slow path of `from_maybe_nonutf8_cstr`.
    fn from_nonutf8_cstr(bytes: &[u8]) -> (r: Self)
        ensures
            encode_utf8(r@) == arf_encode(bytes@),
    {
        let data = to_arf(bytes);
        proof {
            crate::posish::lemma_arf_is_utf8(bytes@);
        }
        match string_from_utf8(data) {
            Some(s) => WasiString(s),
            None => WasiString(String::new()),
        }
    }

    /// The portable text.
    pub fn as_str(&self) -> (r: &str)
        ensures
            r@ == self@,
    {
        self.0.as_str()
    }
}

} // verus!
