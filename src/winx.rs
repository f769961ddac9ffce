//! The ARF codec for Windows-like hosts, where a host string is a sequence
//! of 16-bit units that may hold unpaired surrogates, and a portable string
//! is handled as its characters.
use crate::error::EncodingError;
use crate::utf8_scan::{is_valid_utf8, push_run, string_from_utf8, tail};
use vstd::prelude::*;
use vstd::utf8::*;

verus! {

pub open spec fn is_surrogate(u: u16) -> bool {
    0xd800 <= u <= 0xdfff
}

pub open spec fn is_high_surrogate(u: u16) -> bool {
    0xd800 <= u <= 0xdbff
}

pub open spec fn is_low_surrogate(u: u16) -> bool {
    0xdc00 <= u <= 0xdfff
}

/// A well-formed scalar starts `h`: a unit that is no surrogate, or a high
/// surrogate followed by a low one.
pub open spec fn valid_first_units(h: Seq<u16>) -> bool {
    h.len() > 0 && (!is_surrogate(h[0]) || (is_high_surrogate(h[0]) && h.len() >= 2
        && is_low_surrogate(h[1])))
}

/// How many units the scalar at the start of `h` takes.
pub open spec fn first_units_len(h: Seq<u16>) -> int {
    if !is_surrogate(h[0]) {
        1
    } else {
        2
    }
}

/// The scalar value at the start of `h`.
pub open spec fn first_scalar16(h: Seq<u16>) -> u32 {
    if !is_surrogate(h[0]) {
        h[0] as u32
    } else {
        (0x10000 + (h[0] - 0xd800) * 0x400 + (h[1] - 0xdc00)) as u32
    }
}

/// `h` is well-formed UTF-16: it holds no unpaired surrogate.
pub open spec fn valid_utf16(h: Seq<u16>) -> bool
    decreases h.len(),
{
    h.len() == 0 || (valid_first_units(h) && valid_utf16(tail(h, first_units_len(h))))
}

/// The lossy section for host units `h`: each well-formed scalar, and
/// U+FFFD for each unpaired surrogate. For well-formed `h` this is its text.
pub open spec fn lossy_chars(h: Seq<u16>) -> Seq<char>
    decreases h.len(),
{
    if h.len() == 0 {
        seq![]
    } else if valid_first_units(h) {
        seq![first_scalar16(h) as char] + lossy_chars(tail(h, first_units_len(h)))
    } else {
        seq!['\u{fffd}'] + lossy_chars(h.drop_first())
    }
}

/// The escape section for host units `h`: each well-formed scalar, and NUL
/// followed by the surrogate's offset from 0xD800 for each unpaired one.
pub open spec fn escape_chars(h: Seq<u16>) -> Seq<char>
    decreases h.len(),
{
    if h.len() == 0 {
        seq![]
    } else if valid_first_units(h) {
        seq![first_scalar16(h) as char] + escape_chars(tail(h, first_units_len(h)))
    } else {
        seq!['\0', ((h[0] - 0xd800) as u32) as char] + escape_chars(h.drop_first())
    }
}

/// The ARF message for host units `h`.
pub open spec fn arf_encode16(h: Seq<u16>) -> Seq<char> {
    seq!['\u{feff}'] + lossy_chars(h) + seq!['\0'] + escape_chars(h)
}

/// The portable form of host units `h`: their text when they are
/// well-formed UTF-16, their ARF message otherwise.
pub open spec fn host_to_portable16(h: Seq<u16>) -> Seq<char> {
    if valid_utf16(h) {
        lossy_chars(h)
    } else {
        arf_encode16(h)
    }
}

/// The UTF-16 units of one character.
pub open spec fn char_units(c: char) -> Seq<u16> {
    let v = c as u32;
    if v < 0x10000 {
        seq![v as u16]
    } else {
        seq![(0xd800 + (v - 0x10000) / 0x400) as u16, (0xdc00 + (v - 0x10000) % 0x400) as u16]
    }
}

/// The UTF-16 units of a character sequence.
pub open spec fn encode_utf16(p: Seq<char>) -> Seq<u16>
    decreases p.len(),
{
    if p.len() == 0 {
        seq![]
    } else {
        char_units(p[0]) + encode_utf16(p.drop_first())
    }
}

/// `o` with `prefix` put in front of the host units it holds.
pub open spec fn prepend16(prefix: Seq<u16>, o: Option<Seq<u16>>) -> Option<Seq<u16>> {
    match o {
        Some(h) => Some(prefix + h),
        None => None,
    }
}

/// Reads the lossy and the escape section of an ARF message side by side,
/// and gives the host units that they agree on, or `None` where they
/// disagree.
pub open spec fn decode_sections16(lossy: Seq<char>, esc: Seq<char>) -> Option<Seq<u16>>
    decreases esc.len(),
{
    if esc.len() == 0 {
        if lossy.len() == 0 {
            Some(seq![])
        } else {
            None
        }
    } else if esc[0] == '\0' {
        if esc.len() >= 2 && esc[1] as u32 <= 0x7ff && lossy.len() >= 1 && lossy[0]
            == '\u{fffd}' {
            prepend16(
                seq![(0xd800 + esc[1] as u32) as u16],
                decode_sections16(lossy.drop_first(), tail(esc, 2)),
            )
        } else {
            None
        }
    } else if lossy.len() >= 1 && lossy[0] == esc[0] {
        prepend16(char_units(esc[0]), decode_sections16(lossy.drop_first(), esc.drop_first()))
    } else {
        None
    }
}

/// `n` is the index of the first NUL character of `p`.
pub open spec fn is_first_nul_char(p: Seq<char>, n: int) -> bool {
    0 <= n < p.len() && p[n] == '\0' && forall|j: int| 0 <= j < n ==> p[j] != '\0'
}

/// The host units that the ARF message `p` stands for, or `None` when `p`
/// is no well-formed ARF message: it must start with U+FEFF, its escape
/// section must hold at least one escape, and the two sections must agree.
pub open spec fn arf_decode16(p: Seq<char>) -> Option<Seq<u16>> {
    let n = choose|n: int| is_first_nul_char(p, n);
    if p.len() >= 1 && p[0] == '\u{feff}' && is_first_nul_char(p, n) && tail(p, n + 1).contains(
        '\0',
    ) {
        decode_sections16(p.subrange(1, n), tail(p, n + 1))
    } else {
        None
    }
}

/// The host units for the portable text `p`: its UTF-16 encoding when it
/// holds no NUL, else what its ARF message stands for.
pub open spec fn portable_to_host16(p: Seq<char>) -> Option<Seq<u16>> {
    if !p.contains('\0') {
        Some(encode_utf16(p))
    } else {
        arf_decode16(p)
    }
}

/// Relies on `char::from_u32`: it gives the character of a Unicode scalar
/// value, and `None` for any other value.
#[verifier::external_body]
fn char_from_u32(v: u32) -> (r: Option<char>)
    ensures
        r == (if v < 0xd800 || (0xe000 <= v && v <= 0x10ffff) {
            Some(v as char)
        } else {
            None
        }),
{
    char::from_u32(v)
}

/// Relies on `String::push`: it appends one character.
#[verifier::external_body]
fn push_char(s: &mut String, c: char)
    ensures
        final(s)@ == old(s)@.push(c),
{
    s.push(c)
}

/// Relies on `str::chars`: it yields the characters of the string in order.
#[verifier::external_body]
fn chars_of(s: &str) -> (r: Vec<char>)
    ensures
        r@ == s@,
{
    s.chars().collect()
}

/// How many units the well-formed scalar that starts at `units[i]` takes,
/// or 0 when an unpaired surrogate stands there.
fn units_len_at(units: &[u16], i: usize) -> (n: usize)
    requires
        i < units@.len(),
    ensures
        valid_first_units(tail(units@, i as int)) ==> n == first_units_len(
            tail(units@, i as int),
        ),
        !valid_first_units(tail(units@, i as int)) ==> n == 0,
        n <= units@.len() - i,
{
    let ghost t = tail(units@, i as int);
    let u = units[i];
    assert(t[0] == u);
    if u < 0xd800 || u > 0xdfff {
        1
    } else if u <= 0xdbff && i + 1 < units.len() && 0xdc00 <= units[i + 1] && units[i + 1]
        <= 0xdfff {
        assert(t[1] == units@[i + 1]);
        2
    } else {
        proof {
            if t.len() >= 2 {
                assert(t[1] == units@[i + 1]);
            }
        }
        0
    }
}

/// The character of the well-formed scalar that starts at `units[i]`.
fn scalar_at(units: &[u16], i: usize) -> (c: char)
    requires
        i < units@.len(),
        valid_first_units(tail(units@, i as int)),
    ensures
        c == first_scalar16(tail(units@, i as int)) as char,
{
    let ghost t = tail(units@, i as int);
    let u = units[i];
    assert(t[0] == u);
    let v: u32 = if u < 0xd800 || u > 0xdfff {
        u as u32
    } else {
        let lo = units[i + 1];
        assert(t[1] == lo);
        0x10000 + (u as u32 - 0xd800) * 0x400 + (lo as u32 - 0xdc00)
    };
    match char_from_u32(v) {
        Some(c) => c,
        None => '\u{fffd}',
    }
}

/// Appends the lossy section of `units` to `data`.
fn push_lossy(data: &mut String, units: &[u16])
    ensures
        final(data)@ == old(data)@ + lossy_chars(units@),
{
    let len = units.len();
    let mut i: usize = 0;
    assert(tail(units@, 0) =~= units@);
    while i < len
        invariant
            len == units@.len(),
            i <= len,
            data@ + lossy_chars(tail(units@, i as int)) == old(data)@ + lossy_chars(units@),
        decreases len - i,
    {
        let ghost t = tail(units@, i as int);
        let ghost d0 = data@;
        let n = units_len_at(units, i);
        if n > 0 {
            let c = scalar_at(units, i);
            push_char(data, c);
            assert(tail(t, n as int) =~= tail(units@, i + n));
            assert(data@ + lossy_chars(tail(units@, i + n)) =~= d0 + lossy_chars(t));
            i = i + n;
        } else {
            push_char(data, '\u{fffd}');
            assert(t.drop_first() =~= tail(units@, i + 1));
            assert(data@ + lossy_chars(tail(units@, i + 1)) =~= d0 + lossy_chars(t));
            i = i + 1;
        }
    }
    assert(tail(units@, i as int) =~= Seq::<u16>::empty());
    assert(data@ =~= old(data)@ + lossy_chars(units@));
}

/// Appends the escape section of `units` to `data`.
fn push_escapes(data: &mut String, units: &[u16])
    ensures
        final(data)@ == old(data)@ + escape_chars(units@),
{
    let len = units.len();
    let mut i: usize = 0;
    assert(tail(units@, 0) =~= units@);
    while i < len
        invariant
            len == units@.len(),
            i <= len,
            data@ + escape_chars(tail(units@, i as int)) == old(data)@ + escape_chars(units@),
        decreases len - i,
    {
        let ghost t = tail(units@, i as int);
        let ghost d0 = data@;
        let n = units_len_at(units, i);
        if n > 0 {
            let c = scalar_at(units, i);
            push_char(data, c);
            assert(tail(t, n as int) =~= tail(units@, i + n));
            assert(data@ + escape_chars(tail(units@, i + n)) =~= d0 + escape_chars(t));
            i = i + n;
        } else {
            let bad = units[i];
            assert(t[0] == bad);
            let payload = match char_from_u32((bad - 0xd800) as u32) {
                Some(c) => c,
                None => '\0',
            };
            push_char(data, '\0');
            push_char(data, payload);
            assert(t.drop_first() =~= tail(units@, i + 1));
            assert(data@ + escape_chars(tail(units@, i + 1)) =~= d0 + escape_chars(t));
            i = i + 1;
        }
    }
    assert(tail(units@, i as int) =~= Seq::<u16>::empty());
    assert(data@ =~= old(data)@ + escape_chars(units@));
}

/// Builds the ARF message for host units that are not well-formed UTF-16.
pub fn to_arf(units: &[u16]) -> (r: String)
    ensures
        r@ == arf_encode16(units@),
{
    let mut data = String::new();
    push_char(&mut data, '\u{feff}');
    push_lossy(&mut data, units);
    push_char(&mut data, '\0');
    push_escapes(&mut data, units);
    assert(data@ =~= arf_encode16(units@));
    data
}

/// Whether `units` is well-formed UTF-16.
fn is_valid_utf16(units: &[u16]) -> (r: bool)
    ensures
        r == valid_utf16(units@),
{
    let len = units.len();
    let mut i: usize = 0;
    assert(tail(units@, 0) =~= units@);
    while i < len
        invariant
            len == units@.len(),
            i <= len,
            valid_utf16(units@) == valid_utf16(tail(units@, i as int)),
        decreases len - i,
    {
        let n = units_len_at(units, i);
        if n == 0 {
            return false;
        }
        assert(tail(tail(units@, i as int), n as int) =~= tail(units@, i + n));
        i = i + n;
    }
    true
}

/// Whether `units` holds a NUL unit.
fn contains_nul16(units: &[u16]) -> (r: bool)
    ensures
        r == units@.contains(0),
{
    let len = units.len();
    let mut i: usize = 0;
    while i < len
        invariant
            len == units@.len(),
            i <= len,
            forall|j: int| 0 <= j < i ==> units@[j] != 0,
        decreases len - i,
    {
        if units[i] == 0 {
            return true;
        }
        i = i + 1;
    }
    false
}

/// Converts host units (of an `OsStr`) into a portable string: their text
/// when they are well-formed UTF-16, their ARF message otherwise. Fails when
/// the units hold a NUL.
pub fn host_to_str(host: &[u16]) -> (r: Result<String, EncodingError>)
    ensures
        r is Err <==> host@.contains(0),
        r matches Ok(s) ==> s@ == host_to_portable16(host@),
        r matches Ok(s) ==> (valid_utf16(host@) ==> s@ == lossy_chars(host@)),
{
    if contains_nul16(host) {
        return Err(EncodingError::InvalidEncoding);
    }
    if is_valid_utf16(host) {
        let mut s = String::new();
        push_lossy(&mut s, host);
        assert(s@ =~= lossy_chars(host@));
        Ok(s)
    } else {
        Ok(to_arf(host))
    }
}

/// Converts host units (of an `OsStr`) into the UTF-8 bytes of their
/// portable string. Fails when the units hold a NUL.
pub fn host_to_bytes(host: &[u16]) -> (r: Result<Vec<u8>, EncodingError>)
    ensures
        r is Err <==> host@.contains(0),
        r matches Ok(b) ==> b@ == encode_utf8(host_to_portable16(host@)),
{
    match host_to_str(host) {
        Ok(s) => {
            let bytes = s.as_str().as_bytes();
            let mut out: Vec<u8> = Vec::new();
            push_run(&mut out, bytes, 0, bytes.len());
            assert(out@ =~= bytes@);
            Ok(out)
        },
        Err(e) => Err(e),
    }
}

/// Appends the UTF-16 units of `c` to `out`.
fn push_char_units(out: &mut Vec<u16>, c: char)
    ensures
        final(out)@ == old(out)@ + char_units(c),
{
    let v = c as u32;
    if v < 0x10000 {
        out.push(v as u16);
    } else {
        let w = v - 0x10000;
        assert(w / 0x400 < 0x400 && w % 0x400 < 0x400) by (nonlinear_arith)
            requires
                w <= 0xfffff,
        ;
        out.push((0xd800 + w / 0x400) as u16);
        out.push((0xdc00 + w % 0x400) as u16);
    }
    assert(out@ =~= old(out)@ + char_units(c));
}

/// The index of the first NUL character of `chars`, if any.
fn find_nul_char(chars: &Vec<char>) -> (r: Option<usize>)
    ensures
        r matches Some(n) ==> is_first_nul_char(chars@, n as int),
        r is None ==> !chars@.contains('\0'),
{
    let len = chars.len();
    let mut i: usize = 0;
    while i < len
        invariant
            len == chars@.len(),
            i <= len,
            forall|j: int| 0 <= j < i ==> chars@[j] != '\0',
        decreases len - i,
    {
        if chars[i] == '\0' {
            return Some(i);
        }
        i = i + 1;
    }
    None
}

proof fn lemma_first_nul_char_unique(p: Seq<char>, a: int, b: int)
    requires
        is_first_nul_char(p, a),
        is_first_nul_char(p, b),
    ensures
        a == b,
{
    if a < b {
        assert(p[a] != '\0');
    } else if b < a {
        assert(p[b] != '\0');
    }
}

/// Parses the ARF message `s`, whose first NUL character is at `nul`.
fn from_arf(s: &Vec<char>, nul: usize) -> (r: Result<Vec<u16>, EncodingError>)
    requires
        is_first_nul_char(s@, nul as int),
    ensures
        r matches Ok(h) ==> arf_decode16(s@) == Some(h@),
        r is Err ==> arf_decode16(s@) is None,
{
    let ghost p = s@;
    proof {
        let n = choose|n: int| is_first_nul_char(p, n);
        lemma_first_nul_char_unique(p, n, nul as int);
    }
    let len = s.len();
    if s[0] != '\u{feff}' {
        return Err(EncodingError::InvalidEncoding);
    }
    let ghost whole = decode_sections16(p.subrange(1, nul as int), tail(p, nul + 1));
    let mut li: usize = 1;
    let mut ei: usize = nul + 1;
    let mut any_invalid = false;
    let mut vec: Vec<u16> = Vec::new();
    assert(p.subrange(nul + 1, nul + 1) =~= Seq::<char>::empty());
    assert(vec@ + Seq::<u16>::empty() =~= Seq::<u16>::empty());
    assert(nul >= 1) by {
        assert(p[0] != '\0');
    }
    while ei < len
        invariant
            len == p.len(),
            s@ == p,
            is_first_nul_char(p, nul as int),
            1 <= li <= nul < ei <= len,
            whole == prepend16(
                vec@,
                decode_sections16(p.subrange(li as int, nul as int), tail(p, ei as int)),
            ),
            any_invalid == p.subrange(nul + 1, ei as int).contains('\0'),
            arf_decode16(p) == (if tail(p, nul + 1).contains('\0') {
                whole
            } else {
                None
            }),
        decreases len - ei,
    {
        let ghost lossy = p.subrange(li as int, nul as int);
        let ghost esc = tail(p, ei as int);
        let ghost v0 = vec@;
        let c = s[ei];
        assert(esc[0] == c);
        if c == '\0' {
            if ei + 1 >= len {
                assert(esc.len() == 1);
                return Err(EncodingError::InvalidEncoding);
            }
            let more = s[ei + 1];
            assert(esc[1] == more);
            if more as u32 > 0x7ff {
                return Err(EncodingError::InvalidEncoding);
            }
            if li >= nul || s[li] != '\u{fffd}' {
                return Err(EncodingError::InvalidEncoding);
            }
            assert(lossy[0] == s@[li as int]);
            assert(lossy.drop_first() =~= p.subrange(li + 1, nul as int));
            assert(tail(esc, 2) =~= tail(p, ei + 2));
            any_invalid = true;
            let unit: u16 = (more as u32 + 0xd800) as u16;
            vec.push(unit);
            assert(p.subrange(nul + 1, ei + 2)[ei - nul - 1] == '\0');
            assert(v0 + seq![unit] =~= vec@);
            proof {
                let rest = decode_sections16(lossy.drop_first(), tail(esc, 2));
                if let Some(h) = rest {
                    assert(v0 + (seq![unit] + h) =~= vec@ + h);
                }
            }
            li = li + 1;
            ei = ei + 2;
        } else {
            if li >= nul || s[li] != c {
                return Err(EncodingError::InvalidEncoding);
            }
            assert(lossy[0] == c);
            assert(lossy.drop_first() =~= p.subrange(li + 1, nul as int));
            assert(esc.drop_first() =~= tail(p, ei + 1));
            assert(p.subrange(nul + 1, ei + 1) =~= p.subrange(nul + 1, ei as int).push(c));
            push_char_units(&mut vec, c);
            proof {
                let rest = decode_sections16(lossy.drop_first(), esc.drop_first());
                if let Some(h) = rest {
                    assert(v0 + (char_units(c) + h) =~= vec@ + h);
                }
            }
            li = li + 1;
            ei = ei + 1;
        }
    }
    assert(tail(p, ei as int) =~= Seq::<char>::empty());
    assert(p.subrange(nul + 1, ei as int) =~= tail(p, nul + 1));
    if !any_invalid {
        return Err(EncodingError::InvalidEncoding);
    }
    if li != nul {
        return Err(EncodingError::InvalidEncoding);
    }
    assert(p.subrange(li as int, nul as int) =~= Seq::<char>::empty());
    assert(vec@ + Seq::<u16>::empty() =~= vec@);
    Ok(vec)
}

/// Converts a string, which is plain text or an ARF message, into host
/// units. A string without NUL is encoded as UTF-16; one with a NUL must be
/// a well-formed ARF message.
pub fn str_to_host(s: &str) -> (r: Result<Vec<u16>, EncodingError>)
    ensures
        r matches Ok(h) ==> portable_to_host16(s@) == Some(h@),
        r is Err ==> portable_to_host16(s@) is None,
        !s@.contains('\0') ==> (r matches Ok(h) && h@ == encode_utf16(s@)),
        s@.contains('\0') && arf_decode16(s@) is None ==> r is Err,
{
    let chars = chars_of(s);
    match find_nul_char(&chars) {
        Some(nul) => {
            assert(chars@.contains('\0')) by {
                assert(chars@[nul as int] == '\0');
            }
            from_arf(&chars, nul)
        },
        None => {
            let mut out: Vec<u16> = Vec::new();
            let len = chars.len();
            let mut i: usize = 0;
            assert(tail(chars@, 0) =~= chars@);
            while i < len
                invariant
                    len == chars@.len(),
                    i <= len,
                    out@ + encode_utf16(tail(chars@, i as int)) == encode_utf16(chars@),
                decreases len - i,
            {
                let ghost o0 = out@;
                let ghost t = tail(chars@, i as int);
                assert(t[0] == chars@[i as int]);
                push_char_units(&mut out, chars[i]);
                assert(t.drop_first() =~= tail(chars@, i + 1));
                assert(out@ + encode_utf16(tail(chars@, i + 1)) =~= o0 + encode_utf16(t));
                i = i + 1;
            }
            assert(tail(chars@, i as int) =~= Seq::<char>::empty());
            assert(out@ =~= encode_utf16(chars@));
            Ok(out)
        },
    }
}

/// Converts a byte sequence, which should be plain UTF-8 or an ARF message,
/// into host units.
pub fn bytes_to_host(bytes: &[u8]) -> (r: Result<Vec<u16>, EncodingError>)
    ensures
        r matches Ok(h) ==> valid_utf8(bytes@) && portable_to_host16(decode_utf8(bytes@))
            == Some(h@),
        r is Err ==> !valid_utf8(bytes@) || portable_to_host16(decode_utf8(bytes@)) is None,
{
    if !is_valid_utf8(bytes) {
        return Err(EncodingError::InvalidEncoding);
    }
    let mut v: Vec<u8> = Vec::new();
    push_run(&mut v, bytes, 0, bytes.len());
    assert(v@ =~= bytes@);
    match string_from_utf8(v) {
        Some(s) => {
            proof {
                encode_utf8_decode_utf8(s@);
            }
            str_to_host(s.as_str())
        },
        None => Err(EncodingError::InvalidEncoding),
    }
}

} // verus!
