use arf_strings::{PosixString, WasiString};

#[test]
fn posix_string_utf8_inputs() {
    assert_eq!(PosixString::from_path_str("").unwrap().as_cstr(), b"");
    assert_eq!(PosixString::from_path_str("f").unwrap().as_cstr(), b"f");
    assert_eq!(PosixString::from_path_str("foo").unwrap().as_cstr(), b"foo");
    assert_eq!(
        PosixString::from_path_str("\u{fffd}").unwrap().as_cstr(),
        "\u{fffd}".as_bytes()
    );
    assert_eq!(
        PosixString::from_path_str("\u{fffd}foo").unwrap().as_cstr(),
        "\u{fffd}foo".as_bytes()
    );
    assert_eq!(
        PosixString::from_path_str("\u{feff}foo").unwrap().as_cstr(),
        "\u{feff}foo".as_bytes()
    );
}

#[test]
fn posix_string_arf_inputs() {
    assert_eq!(
        PosixString::from_path_str("\u{feff}hello\u{fffd}world\0hello\0\x05world")
            .unwrap()
            .as_cstr(),
        b"hello\x85world"
    );
    assert_eq!(
        PosixString::from_path_str("\u{feff}hello\u{fffd}\0hello\0\x05")
            .unwrap()
            .as_cstr(),
        b"hello\x85"
    );
}

#[test]
fn posix_string_errors_from_bytes() {
    assert!(PosixString::from_path_bytes(b"\xfe").is_err());
    assert!(PosixString::from_path_bytes(b"\xc0\xff").is_err());
}

#[test]
fn posix_string_errors_from_str() {
    assert!(PosixString::from_path_str("\u{feff}hello world\0hello world").is_err());
    assert!(PosixString::from_path_str("\u{feff}hello world\0\0hello world\0").is_err());
    assert!(
        PosixString::from_path_str("\u{feff}hello\u{fffd}world\0\0hello\0\x05world\0").is_err()
    );
    assert!(PosixString::from_path_str("\u{fffe}hello\u{fffd}world\0hello\0\x05world").is_err());
    assert!(PosixString::from_path_str("\u{feff}hello\u{fffd}\0hello\0").is_err());
}

#[test]
fn posix_string_from_bytes_and_terminator() {
    let p = PosixString::from_path_bytes("\u{feff}a\u{fffd}\0a\0\x7f".as_bytes()).unwrap();
    assert_eq!(p.as_cstr(), b"a\xff");
    assert_eq!(p.into_cstring(), b"a\xff\0");
}

#[test]
fn wasi_then_posix_gives_the_host_bytes_back() {
    let samples: [&[u8]; 5] = [b"", b"plain", b"\xfe", b"a\xc0\xffb", b"\xe6\x96"];
    for h in samples {
        let wasi = WasiString::from_maybe_nonutf8_cstr(h);
        let posix = PosixString::from_path_str(wasi.as_str()).unwrap();
        assert_eq!(posix.as_cstr(), h);
    }
}

#[test]
fn posix_then_wasi_gives_the_text_back() {
    for s in ["", "plain", "\u{feff}", "\u{fffd}x", "\u{feff}\u{fffd}\0\0\u{7e}"] {
        let posix = PosixString::from_path_str(s).unwrap();
        let wasi = WasiString::from_maybe_nonutf8_cstr(posix.as_cstr());
        assert_eq!(wasi.as_str(), s);
    }
}
