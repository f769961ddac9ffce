use arf_strings::{
    bytes_to_host, host_c_str_to_bytes, host_c_str_to_str, host_os_str_to_bytes,
    host_os_str_to_str, str_to_host, EncodingError,
};

/// The bytes of a C string given with its NUL terminator, without it.
fn c_bytes(with_nul: &[u8]) -> &[u8] {
    assert_eq!(with_nul.last(), Some(&0));
    let bytes = &with_nul[..with_nul.len() - 1];
    assert!(!bytes.contains(&0));
    bytes
}

#[test]
fn posish_utf8_inputs() {
    assert_eq!(str_to_host("").unwrap(), b"");
    assert_eq!(str_to_host("f").unwrap(), b"f");
    assert_eq!(str_to_host("foo").unwrap(), b"foo");
    assert_eq!(str_to_host("\u{fffd}").unwrap(), "\u{fffd}".as_bytes());
    assert_eq!(str_to_host("\u{fffd}foo").unwrap(), "\u{fffd}foo".as_bytes());
    assert_eq!(str_to_host("\u{feff}foo").unwrap(), "\u{feff}foo".as_bytes());
}

#[test]
fn posish_arf_inputs() {
    assert_eq!(
        str_to_host("\u{feff}hello\u{fffd}world\0hello\0\x05world").unwrap(),
        b"hello\x85world"
    );
    assert_eq!(
        str_to_host("\u{feff}hello\u{fffd}\0hello\0\x05").unwrap(),
        b"hello\x85"
    );
}

#[test]
fn posish_errors_from_bytes() {
    assert!(bytes_to_host(b"\xfe").is_err());
    assert!(bytes_to_host(b"\xc0\xff").is_err());
}

#[test]
fn posish_errors_from_str() {
    assert!(str_to_host("\u{feff}hello world\0hello world").is_err());
    assert!(str_to_host("\u{feff}hello world\0\0hello world\0").is_err());
    assert!(str_to_host("\u{feff}hello\u{fffd}world\0\0hello\0\x05world\0").is_err());
    assert!(str_to_host("\u{fffe}hello\u{fffd}world\0hello\0\x05world").is_err());
    assert!(str_to_host("\u{feff}hello\u{fffd}\0hello\0").is_err());
}

#[test]
fn posish_valid_utf8() {
    assert_eq!(host_os_str_to_str(b"").unwrap(), "");
    assert_eq!(host_os_str_to_str(b"foo").unwrap(), "foo");

    // Same thing, now with C strings.
    assert_eq!(host_c_str_to_str(c_bytes(b"\0")), "");
    assert_eq!(host_c_str_to_str(c_bytes(b"foo\0")), "foo");
}

#[test]
fn posish_not_utf8() {
    assert_eq!(
        host_os_str_to_str(b"\xfe").unwrap(),
        "\u{feff}\u{fffd}\0\0\u{7e}"
    );
    assert_eq!(
        host_os_str_to_str(b"\xc0\xff").unwrap(),
        "\u{feff}\u{fffd}\u{fffd}\0\0\u{40}\0\u{7f}"
    );
    assert_eq!(host_os_str_to_str(b"\xef\xbb\xbf").unwrap(), "\u{feff}");
    assert_eq!(
        host_os_str_to_str(b"\xef\xbb\xbf\xfd").unwrap(),
        "\u{feff}\u{feff}\u{fffd}\0\u{feff}\0\x7d"
    );

    // Same thing, now with C strings.
    assert_eq!(
        host_c_str_to_str(c_bytes(b"\xfe\0")),
        "\u{feff}\u{fffd}\0\0\u{7e}"
    );
    assert_eq!(
        host_c_str_to_str(c_bytes(b"\xc0\xff\0")),
        "\u{feff}\u{fffd}\u{fffd}\0\0\u{40}\0\u{7f}"
    );
    assert_eq!(host_c_str_to_str(c_bytes(b"\xef\xbb\xbf\0")), "\u{feff}");
    assert_eq!(
        host_c_str_to_str(c_bytes(b"\xef\xbb\xbf\xfd\0")),
        "\u{feff}\u{feff}\u{fffd}\0\u{feff}\0\x7d"
    );
}

#[test]
fn posish_round_trip() {
    assert_eq!(host_os_str_to_str(&bytes_to_host(b"").unwrap()).unwrap(), "");
    assert_eq!(
        host_os_str_to_str(&bytes_to_host(b"hello").unwrap()).unwrap(),
        "hello"
    );
    assert_eq!(
        str_to_host(&host_os_str_to_str(b"hello").unwrap()).unwrap(),
        b"hello"
    );
    assert_eq!(
        str_to_host(&host_os_str_to_str(b"h\xc0ello\xc1").unwrap()).unwrap(),
        b"h\xc0ello\xc1"
    );
    assert_eq!(
        str_to_host(&host_os_str_to_str(b"\xf5\xff").unwrap()).unwrap(),
        b"\xf5\xff"
    );
    assert_eq!(str_to_host(&host_os_str_to_str(b"").unwrap()).unwrap(), b"");
    assert_eq!(
        str_to_host(&host_os_str_to_str(b"\xe6\x96").unwrap()).unwrap(),
        b"\xe6\x96"
    );

    // Same thing, now with C strings.
    assert_eq!(
        str_to_host(&host_c_str_to_str(c_bytes(b"hello\0"))).unwrap(),
        b"hello"
    );
    assert_eq!(
        str_to_host(&host_c_str_to_str(c_bytes(b"h\xc0ello\xc1\0"))).unwrap(),
        b"h\xc0ello\xc1"
    );
    assert_eq!(
        str_to_host(&host_c_str_to_str(c_bytes(b"\xf5\xff\0"))).unwrap(),
        b"\xf5\xff"
    );
    assert_eq!(str_to_host(&host_c_str_to_str(c_bytes(b"\0"))).unwrap(), b"");
    assert_eq!(
        str_to_host(&host_c_str_to_str(c_bytes(b"\xe6\x96\0"))).unwrap(),
        b"\xe6\x96"
    );
}

#[test]
fn passthrough_of_valid_bytes() {
    assert_eq!(host_os_str_to_bytes(b"foo").unwrap(), b"foo");
    assert_eq!(host_c_str_to_bytes(b"foo"), b"foo");
    assert_eq!(host_os_str_to_str(b"\xef\xbb\xbf").unwrap(), "\u{feff}");
    assert_eq!(host_os_str_to_str("h\u{e9}llo".as_bytes()).unwrap(), "h\u{e9}llo");
}

#[test]
fn single_invalid_byte_encoding() {
    assert_eq!(
        host_os_str_to_bytes(b"\xfe").unwrap(),
        "\u{feff}\u{fffd}\0\0\u{7e}".as_bytes()
    );
}

#[test]
fn two_invalid_bytes_encoding() {
    assert_eq!(
        host_c_str_to_bytes(b"\xc0\xff"),
        "\u{feff}\u{fffd}\u{fffd}\0\0\u{40}\0\u{7f}".as_bytes()
    );
}

#[test]
fn trailing_incomplete_sequence_is_one_escape_per_byte() {
    let portable = host_os_str_to_str(b"\xe6\x96").unwrap();
    assert_eq!(portable, "\u{feff}\u{fffd}\u{fffd}\0\0\u{66}\0\u{16}");
    assert_eq!(str_to_host(&portable).unwrap(), b"\xe6\x96");
}

#[test]
fn interior_nul_is_rejected() {
    assert_eq!(host_os_str_to_str(b"a\0b"), Err(EncodingError::InvalidEncoding));
    assert_eq!(host_os_str_to_bytes(b"\0"), Err(EncodingError::InvalidEncoding));
}

#[test]
fn rejection_without_bom() {
    assert_eq!(
        str_to_host("hello world\0hello world"),
        Err(EncodingError::InvalidEncoding)
    );
}

#[test]
fn rejection_of_double_separator() {
    assert!(str_to_host("\u{feff}hello world\0\0hello world\0").is_err());
}

#[test]
fn rejection_of_payload_with_high_bit() {
    assert!(bytes_to_host(b"\xef\xbb\xbf\xef\xbf\xbd\x00\x00\x85").is_err());
    assert!(str_to_host("\u{feff}\u{fffd}\0\0\u{85}").is_err());
}

#[test]
fn rejection_of_arf_without_escapes() {
    assert!(str_to_host("\u{feff}hello\u{fffd}\0hello").is_err());
}

#[test]
fn rejection_of_missing_payload_and_trailing_lossy() {
    assert!(str_to_host("\u{feff}\u{fffd}\0\0").is_err());
    assert!(str_to_host("\u{feff}\u{fffd}x\0\0\x05").is_err());
}

#[test]
fn bytes_to_host_accepts_arf_bytes() {
    assert_eq!(
        bytes_to_host("\u{feff}hello\u{fffd}\0hello\0\x05".as_bytes()).unwrap(),
        b"hello\x85"
    );
}

#[test]
fn round_trip_of_host_bytes() {
    let samples: [&[u8]; 6] = [
        b"",
        b"plain",
        b"\x80",
        b"a\xff\xfe\xfdz",
        b"\xef\xbb\xbf\xfd",
        b"\xf0\x9f\x98",
    ];
    for h in samples {
        let p = host_os_str_to_bytes(h).unwrap();
        assert_eq!(bytes_to_host(&p).unwrap(), h);
    }
}

#[test]
fn round_trip_of_portable_strings() {
    for p in ["", "text", "\u{feff}foo", "\u{feff}\u{fffd}\0\0\u{7e}"] {
        let h = str_to_host(p).unwrap();
        assert_eq!(host_os_str_to_str(&h).unwrap(), p);
    }
}

#[test]
fn decoded_arf_that_the_encoder_never_gives() {
    // A well-formed message whose escapes spell valid UTF-8: it decodes, but
    // the host bytes come back as plain text.
    let p = "\u{feff}\u{fffd}\u{fffd}\0\0\u{43}\0\u{29}";
    let h = str_to_host(p).unwrap();
    assert_eq!(h, b"\xc3\xa9");
    assert_eq!(host_os_str_to_str(&h).unwrap(), "\u{e9}");
}

#[test]
fn bounded_expansion() {
    let h = [0xffu8; 10];
    let p = host_os_str_to_bytes(&h).unwrap();
    assert_eq!(p.len(), 3 + 3 * 10 + 1 + 2 * 10);
    assert!(p.len() <= 5 * h.len() + 4);
}
