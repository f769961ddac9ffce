//! A lossless bridge between host strings (arbitrary bytes on POSIX-like
//! hosts, arbitrary 16-bit units on Windows-like hosts) and portable UTF-8
//! strings, using the ARF envelope for host strings that are not well-formed.
//!
//! The POSIX conversions are also reachable at the crate root.
pub mod error;
pub mod laws;
pub mod laws_wide;
pub mod posish;
pub mod posix_string;
pub mod utf8_scan;
pub mod wasi_string;
pub mod winx;

pub use crate::error::EncodingError;
pub use crate::posish::{
    bytes_to_host, host_c_str_to_bytes, host_c_str_to_str, host_os_str_to_bytes,
    host_os_str_to_str, str_to_host,
};
pub use crate::posix_string::PosixString;
pub use crate::wasi_string::WasiString;
