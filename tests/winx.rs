use arf_strings::winx::{bytes_to_host, host_to_bytes, host_to_str, str_to_host};

fn wide(s: &str) -> Vec<u16> {
    s.encode_utf16().collect()
}

#[test]
fn utf16_inputs() {
    assert_eq!(String::from_utf16(&str_to_host("").unwrap()).unwrap(), "");
    str_to_host("\0").unwrap_err();
    assert_eq!(String::from_utf16(&str_to_host("f").unwrap()).unwrap(), "f");
    assert_eq!(String::from_utf16(&str_to_host("foo").unwrap()).unwrap(), "foo");
    assert_eq!(
        String::from_utf16(&str_to_host("\u{fffd}").unwrap()).unwrap(),
        "\u{fffd}"
    );
    assert_eq!(
        String::from_utf16(&str_to_host("\u{fffd}foo").unwrap()).unwrap(),
        "\u{fffd}foo"
    );
    assert_eq!(
        String::from_utf16(&str_to_host("\u{feff}foo").unwrap()).unwrap(),
        "\u{feff}foo"
    );
}

#[test]
fn winx_arf_inputs() {
    assert_eq!(
        str_to_host("\u{feff}hello\u{fffd}world\0hello\0\x05world").unwrap(),
        [
            'h' as u16, 'e' as u16, 'l' as u16, 'l' as u16, 'o' as u16, 0xd805_u16, 'w' as u16,
            'o' as u16, 'r' as u16, 'l' as u16, 'd' as u16
        ]
    );
    assert_eq!(
        str_to_host("\u{feff}hello\u{fffd}\0hello\0\x05").unwrap(),
        ['h' as u16, 'e' as u16, 'l' as u16, 'l' as u16, 'o' as u16, 0xd805_u16]
    );
}

#[test]
fn winx_errors_from_bytes() {
    assert!(bytes_to_host(b"\xfe").is_err());
    assert!(bytes_to_host(b"\xc0\xff").is_err());
}

#[test]
fn winx_errors_from_str() {
    assert!(str_to_host("\u{feff}hello world\0hello world").is_err());
    assert!(str_to_host("\u{feff}hello world\0\0hello world\0").is_err());
    assert!(str_to_host("\u{feff}hello\u{fffd}world\0\0hello\0\x05world\0").is_err());
    assert!(str_to_host("\u{fffe}hello\u{fffd}world\0hello\0\x05world").is_err());
    assert!(str_to_host("\u{feff}hello\u{fffd}\0hello\0").is_err());
}

#[test]
fn valid_utf16() {
    assert_eq!(host_to_str(&wide("")).unwrap(), "");
    assert_eq!(host_to_str(&wide("foo")).unwrap(), "foo");
}

#[test]
fn not_utf16() {
    assert_eq!(
        host_to_str(&[0xd800_u16]).unwrap(),
        "\u{feff}\u{fffd}\0\0\u{0}"
    );
    assert_eq!(
        host_to_str(&[0xdfff_u16]).unwrap(),
        "\u{feff}\u{fffd}\0\0\u{7ff}"
    );
}

#[test]
fn winx_round_trip() {
    assert_eq!(host_to_str(&bytes_to_host(b"").unwrap()).unwrap(), "");
    assert_eq!(
        host_to_str(&bytes_to_host(b"hello").unwrap()).unwrap(),
        "hello"
    );
    assert_eq!(
        str_to_host(&host_to_str(&wide("hello")).unwrap()).unwrap(),
        wide("hello")
    );
    assert_eq!(
        str_to_host(&host_to_str(&[0x47_u16, 0xd800_u16, 0x48_u16]).unwrap()).unwrap(),
        [0x47_u16, 0xd800_u16, 0x48_u16]
    );
    assert_eq!(
        str_to_host(&host_to_str(&[0x49_u16, 0xdfff_u16, 0x50_u16]).unwrap()).unwrap(),
        [0x49_u16, 0xdfff_u16, 0x50_u16]
    );
    assert_eq!(str_to_host(&host_to_str(&wide("")).unwrap()).unwrap(), wide(""));
}

#[test]
fn surrogate_pairs_pass_through() {
    let units = wide("a\u{1f600}b");
    assert_eq!(units.len(), 4);
    assert_eq!(host_to_str(&units).unwrap(), "a\u{1f600}b");
    assert_eq!(str_to_host("a\u{1f600}b").unwrap(), units);
    assert_eq!(host_to_bytes(&units).unwrap(), "a\u{1f600}b".as_bytes());
}

#[test]
fn reversed_surrogate_pair_is_two_escapes() {
    let units = [0xdc00_u16, 0xd800_u16];
    let p = host_to_str(&units).unwrap();
    assert_eq!(p, "\u{feff}\u{fffd}\u{fffd}\0\0\u{400}\0\u{0}");
    assert_eq!(str_to_host(&p).unwrap(), units);
}

#[test]
fn wide_interior_nul_is_rejected() {
    assert!(host_to_str(&[0x41_u16, 0, 0x42_u16]).is_err());
    assert!(host_to_bytes(&[0_u16]).is_err());
}

#[test]
fn wide_payload_out_of_range_is_rejected() {
    assert!(str_to_host("\u{feff}\u{fffd}\0\0\u{800}").is_err());
}

#[test]
fn wide_bytes_to_host_decodes_arf() {
    assert_eq!(
        bytes_to_host("\u{feff}\u{fffd}\0\0\u{7ff}".as_bytes()).unwrap(),
        [0xdfff_u16]
    );
}
