use vstd::prelude::*;

verus! {

/// The one failure of this library: the input is not a valid encoding.
#[derive(Debug, Clone, Copy, PartialEq, Eq, Structural)]
pub enum EncodingError {
    InvalidEncoding,
}

} // verus!
