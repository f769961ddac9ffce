use arf_strings::WasiString;

/// The bytes of a C string given with its NUL terminator, without it.
fn c_str_bytes(with_nul: &[u8]) -> &[u8] {
    assert_eq!(with_nul.last(), Some(&0));
    &with_nul[..with_nul.len() - 1]
}

#[test]
fn wasi_string_valid_utf8() {
    assert_eq!(
        WasiString::from_maybe_nonutf8_cstr(c_str_bytes(b"\0")).as_str(),
        ""
    );
    assert_eq!(
        WasiString::from_maybe_nonutf8_cstr(c_str_bytes(b"foo\0")).as_str(),
        "foo"
    );
}

#[test]
fn wasi_string_not_utf8() {
    assert_eq!(
        WasiString::from_maybe_nonutf8_cstr(c_str_bytes(b"\xfe\0")).as_str(),
        "\u{feff}\u{fffd}\0\0\u{7e}"
    );
    assert_eq!(
        WasiString::from_maybe_nonutf8_cstr(c_str_bytes(b"\xc0\xff\0")).as_str(),
        "\u{feff}\u{fffd}\u{fffd}\0\0\u{40}\0\u{7f}"
    );
    assert_eq!(
        WasiString::from_maybe_nonutf8_cstr(c_str_bytes(b"\xef\xbb\xbf\0")).as_str(),
        "\u{feff}"
    );
    assert_eq!(
        WasiString::from_maybe_nonutf8_cstr(c_str_bytes(b"\xef\xbb\xbf\xfd\0")).as_str(),
        "\u{feff}\u{feff}\u{fffd}\0\u{feff}\0\x7d"
    );
}
