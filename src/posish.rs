//! The ARF codec for POSIX-like hosts, where a host string is a sequence of
//! non-NUL bytes and a portable string is handled as its UTF-8 bytes.
use crate::error::EncodingError;
use crate::utf8_scan::{
    contains_nul, is_valid_utf8, lemma_ascii_valid, lemma_first_scalar_valid,
    lemma_three_byte_valid, push_run, scalar_len_at, string_from_utf8, tail,
};
use vstd::prelude::*;
use vstd::utf8::*;

verus! {

/// The UTF-8 encoding of U+FEFF, the tag that opens every ARF message.
pub open spec fn bom_bytes() -> Seq<u8> {
    seq![0xefu8, 0xbbu8, 0xbfu8]
}

/// The UTF-8 encoding of U+FFFD, which stands for an invalid byte in the
/// lossy section.
pub open spec fn replacement_bytes() -> Seq<u8> {
    seq![0xefu8, 0xbfu8, 0xbdu8]
}

/// The lossy section for host bytes `h`: each well-formed scalar as it is,
/// and U+FFFD for each byte at which none starts.
pub open spec fn lossy_section(h: Seq<u8>) -> Seq<u8>
    decreases h.len(),
{
    if h.len() == 0 {
        seq![]
    } else if valid_first_scalar(h) {
        take_first_scalar(h) + lossy_section(pop_first_scalar(h))
    } else {
        replacement_bytes() + lossy_section(h.drop_first())
    }
}

/// The escape section for host bytes `h`: each well-formed scalar as it is,
/// and NUL followed by the low seven bits for each byte at which none starts.
pub open spec fn escape_section(h: Seq<u8>) -> Seq<u8>
    decreases h.len(),
{
    if h.len() == 0 {
        seq![]
    } else if valid_first_scalar(h) {
        take_first_scalar(h) + escape_section(pop_first_scalar(h))
    } else {
        seq![0u8, h[0] & 0x7f] + escape_section(h.drop_first())
    }
}

/// The ARF message for host bytes `h`.
pub open spec fn arf_encode(h: Seq<u8>) -> Seq<u8> {
    bom_bytes() + lossy_section(h) + seq![0u8] + escape_section(h)
}

/// The portable form of host bytes `h`: `h` itself when it is well-formed
/// UTF-8, its ARF message otherwise.
pub open spec fn host_to_portable(h: Seq<u8>) -> Seq<u8> {
    if valid_utf8(h) {
        h
    } else {
        arf_encode(h)
    }
}

/// `o` with `prefix` put in front of the host bytes it holds.
pub open spec fn prepend(prefix: Seq<u8>, o: Option<Seq<u8>>) -> Option<Seq<u8>> {
    match o {
        Some(h) => Some(prefix + h),
        None => None,
    }
}

/// Reads the lossy and the escape section of an ARF message side by side,
/// and gives the host bytes that they agree on, or `None` where they
/// disagree.
pub open spec fn decode_sections(lossy: Seq<u8>, esc: Seq<u8>) -> Option<Seq<u8>>
    decreases esc.len(),
{
    if esc.len() == 0 {
        if lossy.len() == 0 {
            Some(seq![])
        } else {
            None
        }
    } else if esc[0] == 0 {
        if esc.len() >= 2 && esc[1] < 0x80 && lossy.len() >= 3 && lossy.subrange(0, 3)
            == replacement_bytes() {
            prepend(
                seq![esc[1] | 0x80],
                decode_sections(tail(lossy, 3), tail(esc, 2)),
            )
        } else {
            None
        }
    } else if lossy.len() >= 1 && lossy[0] == esc[0] {
        prepend(seq![esc[0]], decode_sections(lossy.drop_first(), esc.drop_first()))
    } else {
        None
    }
}

/// `n` is the index of the first NUL byte of `p`.
pub open spec fn is_first_nul(p: Seq<u8>, n: int) -> bool {
    0 <= n < p.len() && p[n] == 0 && forall|j: int| 0 <= j < n ==> p[j] != 0
}

/// The host bytes that the ARF message `p` stands for, or `None` when `p`
/// is no well-formed ARF message: it must start with U+FEFF, its escape
/// section must hold at least one escape, and the two sections must agree.
pub open spec fn arf_decode(p: Seq<u8>) -> Option<Seq<u8>> {
    let n = choose|n: int| is_first_nul(p, n);
    if p.len() >= 3 && p.subrange(0, 3) == bom_bytes() && is_first_nul(p, n) && tail(
        p,
        n + 1,
    ).contains(0) {
        decode_sections(p.subrange(3, n), tail(p, n + 1))
    } else {
        None
    }
}

/// The host bytes for the portable bytes `p`: `p` itself when it holds no
/// NUL, else what its ARF message stands for.
pub open spec fn portable_to_host(p: Seq<u8>) -> Option<Seq<u8>> {
    if !p.contains(0) {
        Some(p)
    } else {
        arf_decode(p)
    }
}

proof fn lemma_first_nul_unique(p: Seq<u8>, a: int, b: int)
    requires
        is_first_nul(p, a),
        is_first_nul(p, b),
    ensures
        a == b,
{
    if a < b {
        assert(p[a] != 0);
    } else if b < a {
        assert(p[b] != 0);
    }
}

/// The index of the first NUL byte of `bytes`, if any.
fn find_nul(bytes: &[u8]) -> (r: Option<usize>)
    ensures
        r matches Some(n) ==> is_first_nul(bytes@, n as int),
        r is None ==> !bytes@.contains(0),
{
    let len = bytes.len();
    let mut i: usize = 0;
    while i < len
        invariant
            len == bytes@.len(),
            i <= len,
            forall|j: int| 0 <= j < i ==> bytes@[j] != 0,
        decreases len - i,
    {
        if bytes[i] == 0 {
            return Some(i);
        }
        i = i + 1;
    }
    None
}

/// Builds the ARF message for host bytes that are not well-formed UTF-8.
pub fn to_arf(bytes: &[u8]) -> (r: Vec<u8>)
    ensures
        r@ == arf_encode(bytes@),
{
    let len = bytes.len();
    let mut data: Vec<u8> = Vec::new();
    data.push(0xef);
    data.push(0xbb);
    data.push(0xbf);
    let mut i: usize = 0;
    assert(tail(bytes@, 0) =~= bytes@);
    assert(data@ =~= bom_bytes());
    while i < len
        invariant
            len == bytes@.len(),
            i <= len,
            data@ + lossy_section(tail(bytes@, i as int)) == bom_bytes() + lossy_section(bytes@),
        decreases len - i,
    {
        let ghost t = tail(bytes@, i as int);
        let ghost d0 = data@;
        let n = scalar_len_at(bytes, i);
        if n > 0 {
            push_run(&mut data, bytes, i, i + n);
            assert(take_first_scalar(t) =~= bytes@.subrange(i as int, i + n));
            assert(pop_first_scalar(t) =~= tail(bytes@, i + n));
            assert(data@ + lossy_section(tail(bytes@, i + n)) =~= d0 + lossy_section(t));
            i = i + n;
        } else {
            data.push(0xef);
            data.push(0xbf);
            data.push(0xbd);
            assert(t.drop_first() =~= tail(bytes@, i + 1));
            assert(data@ + lossy_section(tail(bytes@, i + 1)) =~= d0 + lossy_section(t));
            i = i + 1;
        }
    }
    assert(tail(bytes@, i as int) =~= Seq::<u8>::empty());
    assert(data@ =~= bom_bytes() + lossy_section(bytes@));
    data.push(0);
    let ghost head = data@;
    i = 0;
    while i < len
        invariant
            len == bytes@.len(),
            i <= len,
            data@ + escape_section(tail(bytes@, i as int)) == head + escape_section(bytes@),
        decreases len - i,
    {
        let ghost t = tail(bytes@, i as int);
        let ghost d0 = data@;
        let n = scalar_len_at(bytes, i);
        if n > 0 {
            push_run(&mut data, bytes, i, i + n);
            assert(take_first_scalar(t) =~= bytes@.subrange(i as int, i + n));
            assert(pop_first_scalar(t) =~= tail(bytes@, i + n));
            assert(data@ + escape_section(tail(bytes@, i + n)) =~= d0 + escape_section(t));
            i = i + n;
        } else {
            data.push(0);
            data.push(bytes[i] & 0x7f);
            assert(t.drop_first() =~= tail(bytes@, i + 1));
            assert(data@ + escape_section(tail(bytes@, i + 1)) =~= d0 + escape_section(t));
            i = i + 1;
        }
    }
    assert(tail(bytes@, i as int) =~= Seq::<u8>::empty());
    assert(data@ =~= arf_encode(bytes@));
    data
}

/// Parses the ARF message `s`, whose first NUL byte is at `nul`.
fn from_arf(s: &[u8], nul: usize) -> (r: Result<Vec<u8>, EncodingError>)
    requires
        is_first_nul(s@, nul as int),
    ensures
        r matches Ok(h) ==> arf_decode(s@) == Some(h@),
        r is Err ==> arf_decode(s@) is None,
{
    let ghost p = s@;
    proof {
        let n = choose|n: int| is_first_nul(p, n);
        lemma_first_nul_unique(p, n, nul as int);
    }
    let len = s.len();
    if len < 3 || s[0] != 0xef || s[1] != 0xbb || s[2] != 0xbf {
        proof {
            if p.len() >= 3 && p.subrange(0, 3) == bom_bytes() {
                assert(p[0] == p.subrange(0, 3)[0]);
                assert(p[1] == p.subrange(0, 3)[1]);
                assert(p[2] == p.subrange(0, 3)[2]);
            }
        }
        return Err(EncodingError::InvalidEncoding);
    }
    assert(p.subrange(0, 3) =~= bom_bytes());
    assert(nul >= 3) by {
        assert(p[0] != 0);
        assert(p[1] != 0);
        assert(p[2] != 0);
    }
    let ghost whole = decode_sections(p.subrange(3, nul as int), tail(p, nul + 1));
    let mut li: usize = 3;
    let mut ei: usize = nul + 1;
    let mut any_invalid = false;
    let mut vec: Vec<u8> = Vec::new();
    assert(p.subrange(3, nul as int).subrange(0, 0) =~= Seq::<u8>::empty());
    assert(p.subrange(nul + 1, nul + 1) =~= Seq::<u8>::empty());
    assert(vec@ + Seq::<u8>::empty() =~= Seq::<u8>::empty());
    while ei < len
        invariant
            len == p.len(),
            s@ == p,
            is_first_nul(p, nul as int),
            3 <= li <= nul < ei <= len,
            whole == prepend(vec@, decode_sections(p.subrange(li as int, nul as int), tail(p, ei as int))),
            any_invalid == p.subrange(nul + 1, ei as int).contains(0),
            arf_decode(p) == (if tail(p, nul + 1).contains(0) {
                whole
            } else {
                None
            }),
        decreases len - ei,
    {
        let ghost lossy = p.subrange(li as int, nul as int);
        let ghost esc = tail(p, ei as int);
        let ghost v0 = vec@;
        let b = s[ei];
        assert(esc[0] == b);
        if b == 0 {
            if ei + 1 >= len {
                assert(esc.len() == 1);
                assert(decode_sections(lossy, esc) is None);
                return Err(EncodingError::InvalidEncoding);
            }
            let more = s[ei + 1];
            assert(esc[1] == more);
            if more & 0x80 != 0 {
                assert(more >= 0x80) by (bit_vector)
                    requires
                        more & 0x80 != 0,
                ;
                assert(decode_sections(lossy, esc) is None);
                return Err(EncodingError::InvalidEncoding);
            }
            assert(more < 0x80) by (bit_vector)
                requires
                    more & 0x80 == 0,
            ;
            if li + 3 > nul || s[li] != 0xef || s[li + 1] != 0xbf || s[li + 2] != 0xbd {
                proof {
                    if lossy.len() >= 3 && lossy.subrange(0, 3) == replacement_bytes() {
                        assert(lossy[0] == lossy.subrange(0, 3)[0]);
                        assert(lossy[1] == lossy.subrange(0, 3)[1]);
                        assert(lossy[2] == lossy.subrange(0, 3)[2]);
                    }
                }
                return Err(EncodingError::InvalidEncoding);
            }
            assert(lossy.subrange(0, 3) =~= replacement_bytes());
            assert(tail(lossy, 3) =~= p.subrange(li + 3, nul as int));
            assert(tail(esc, 2) =~= tail(p, ei + 2));
            any_invalid = true;
            vec.push(more | 0x80);
            assert(p.subrange(nul + 1, ei + 2)[ei - nul - 1] == 0);
            assert(v0 + seq![more | 0x80] =~= vec@);
            proof {
                let rest = decode_sections(tail(lossy, 3), tail(esc, 2));
                if let Some(h) = rest {
                    assert(v0 + (seq![more | 0x80] + h) =~= vec@ + h);
                }
            }
            li = li + 3;
            ei = ei + 2;
        } else {
            if li >= nul || s[li] != b {
                return Err(EncodingError::InvalidEncoding);
            }
            assert(lossy[0] == b);
            assert(lossy.drop_first() =~= p.subrange(li + 1, nul as int));
            assert(esc.drop_first() =~= tail(p, ei + 1));
            assert(p.subrange(nul + 1, ei + 1) =~= p.subrange(nul + 1, ei as int).push(b));
            vec.push(b);
            proof {
                let rest = decode_sections(lossy.drop_first(), esc.drop_first());
                if let Some(h) = rest {
                    assert(v0 + (seq![b] + h) =~= vec@ + h);
                }
            }
            li = li + 1;
            ei = ei + 1;
        }
    }
    assert(tail(p, ei as int) =~= Seq::<u8>::empty());
    assert(p.subrange(nul + 1, ei as int) =~= tail(p, nul + 1));
    if !any_invalid {
        return Err(EncodingError::InvalidEncoding);
    }
    if li != nul {
        return Err(EncodingError::InvalidEncoding);
    }
    assert(p.subrange(li as int, nul as int) =~= Seq::<u8>::empty());
    assert(vec@ + Seq::<u8>::empty() =~= vec@);
    Ok(vec)
}

proof fn lemma_bom_replacement_valid()
    ensures
        valid_utf8(bom_bytes()),
        valid_utf8(replacement_bytes()),
{
    let a: u32 = (((0xefu8 & 0x0f) as u32) << 12) | (((0xbbu8 & 0x3f) as u32) << 6) | ((0xbfu8
        & 0x3f) as u32);
    assert(a == 0xfeff) by (bit_vector)
        requires
            a == (((0xefu8 & 0x0f) as u32) << 12) | (((0xbbu8 & 0x3f) as u32) << 6) | ((0xbfu8
                & 0x3f) as u32),
    ;
    let b: u32 = (((0xefu8 & 0x0f) as u32) << 12) | (((0xbfu8 & 0x3f) as u32) << 6) | ((0xbdu8
        & 0x3f) as u32);
    assert(b == 0xfffd) by (bit_vector)
        requires
            b == (((0xefu8 & 0x0f) as u32) << 12) | (((0xbfu8 & 0x3f) as u32) << 6) | ((0xbdu8
                & 0x3f) as u32),
    ;
    lemma_three_byte_valid(0xef, 0xbb, 0xbf, a);
    lemma_three_byte_valid(0xef, 0xbf, 0xbd, b);
    assert(bom_bytes() =~= seq![0xefu8, 0xbbu8, 0xbfu8]);
}

proof fn lemma_sections_valid(h: Seq<u8>)
    ensures
        valid_utf8(lossy_section(h)),
        valid_utf8(escape_section(h)),
    decreases h.len(),
{
    lemma_bom_replacement_valid();
    if h.len() == 0 {
    } else if valid_first_scalar(h) {
        lemma_sections_valid(pop_first_scalar(h));
        lemma_first_scalar_valid(h);
        valid_utf8_concat(take_first_scalar(h), lossy_section(pop_first_scalar(h)));
        valid_utf8_concat(take_first_scalar(h), escape_section(pop_first_scalar(h)));
    } else {
        lemma_sections_valid(h.drop_first());
        valid_utf8_concat(replacement_bytes(), lossy_section(h.drop_first()));
        let b = h[0];
        assert(b & 0x7f < 0x80) by (bit_vector);
        lemma_ascii_valid(0);
        lemma_ascii_valid(b & 0x7f);
        valid_utf8_concat(seq![0u8], seq![b & 0x7f]);
        assert(seq![0u8] + seq![b & 0x7f] =~= seq![0u8, b & 0x7f]);
        valid_utf8_concat(seq![0u8, b & 0x7f], escape_section(h.drop_first()));
    }
}

/// Every ARF message that the encoder builds is well-formed UTF-8.
pub proof fn lemma_arf_is_utf8(h: Seq<u8>)
    ensures
        valid_utf8(arf_encode(h)),
{
    lemma_bom_replacement_valid();
    lemma_sections_valid(h);
    lemma_ascii_valid(0);
    valid_utf8_concat(bom_bytes(), lossy_section(h));
    valid_utf8_concat(bom_bytes() + lossy_section(h), seq![0u8]);
    valid_utf8_concat(bom_bytes() + lossy_section(h) + seq![0u8], escape_section(h));
}

/// The portable form of every host byte sequence is well-formed UTF-8.
pub proof fn lemma_portable_is_utf8(h: Seq<u8>)
    ensures
        valid_utf8(host_to_portable(h)),
{
    if !valid_utf8(h) {
        lemma_arf_is_utf8(h);
    }
}


/// Decodes portable bytes that are known to be well-formed UTF-8.
fn decode_portable(bytes: &[u8]) -> (r: Result<Vec<u8>, EncodingError>)
    ensures
        r matches Ok(h) ==> portable_to_host(bytes@) == Some(h@),
        r is Err ==> portable_to_host(bytes@) is None,
{
    match find_nul(bytes) {
        None => {
            let mut out: Vec<u8> = Vec::new();
            push_run(&mut out, bytes, 0, bytes.len());
            assert(out@ =~= bytes@);
            Ok(out)
        },
        Some(nul) => {
            assert(bytes@.contains(0)) by {
                assert(bytes@[nul as int] == 0);
            }
            from_arf(bytes, nul)
        },
    }
}

/// Converts a byte sequence, which should be plain UTF-8 or an ARF message,
/// into the host bytes of a C string (without its NUL terminator).
pub fn bytes_to_host(bytes: &[u8]) -> (r: Result<Vec<u8>, EncodingError>)
    ensures
        r matches Ok(h) ==> valid_utf8(bytes@) && portable_to_host(bytes@) == Some(h@),
        r is Err ==> !valid_utf8(bytes@) || portable_to_host(bytes@) is None,
{
    if !is_valid_utf8(bytes) {
        return Err(EncodingError::InvalidEncoding);
    }
    decode_portable(bytes)
}

/// Converts a string, which is plain text or an ARF message, into the host
/// bytes of a C string (without its NUL terminator). A string without NUL
/// is taken as it is; one with a NUL must be a well-formed ARF message.
pub fn str_to_host(s: &str) -> (r: Result<Vec<u8>, EncodingError>)
    ensures
        r matches Ok(h) ==> portable_to_host(encode_utf8(s@)) == Some(h@),
        r is Err ==> portable_to_host(encode_utf8(s@)) is None,
        !encode_utf8(s@).contains(0) ==> (r matches Ok(h) && h@ == encode_utf8(s@)),
        encode_utf8(s@).contains(0) && arf_decode(encode_utf8(s@)) is None ==> r is Err,
{
    decode_portable(s.as_bytes())
}

/// The portable bytes for host bytes that hold no NUL.
fn encode_host(host: &[u8]) -> (r: Vec<u8>)
    ensures
        r@ == host_to_portable(host@),
{
    if is_valid_utf8(host) {
        let mut out: Vec<u8> = Vec::new();
        push_run(&mut out, host, 0, host.len());
        assert(out@ =~= host@);
        out
    } else {
        to_arf(host)
    }
}

/// The portable string for host bytes that hold no NUL.
fn encode_host_str(host: &[u8]) -> (r: String)
    ensures
        encode_utf8(r@) == host_to_portable(host@),
        valid_utf8(host@) ==> r@ == decode_utf8(host@),
{
    let v = encode_host(host);
    proof {
        lemma_portable_is_utf8(host@);
    }
    match string_from_utf8(v) {
        Some(s) => {
            proof {
                encode_utf8_decode_utf8(s@);
            }
            s
        },
        None => String::new(),
    }
}

/// Converts host bytes (of an `OsStr`) into a portable string: the bytes
/// as text when they are well-formed UTF-8, their ARF message otherwise.
/// Fails when the bytes hold a NUL.
pub fn host_os_str_to_str(host: &[u8]) -> (r: Result<String, EncodingError>)
    ensures
        r is Err <==> host@.contains(0),
        r matches Ok(s) ==> encode_utf8(s@) == host_to_portable(host@),
        r matches Ok(s) ==> (valid_utf8(host@) ==> s@ == decode_utf8(host@)),
{
    if contains_nul(host) {
        return Err(EncodingError::InvalidEncoding);
    }
    Ok(encode_host_str(host))
}

/// Converts host bytes (of an `OsStr`) into the UTF-8 bytes of their
/// portable string. Fails when the bytes hold a NUL.
pub fn host_os_str_to_bytes(host: &[u8]) -> (r: Result<Vec<u8>, EncodingError>)
    ensures
        r is Err <==> host@.contains(0),
        r matches Ok(p) ==> p@ == host_to_portable(host@),
        r matches Ok(p) ==> (valid_utf8(host@) ==> p@ == host@),
{
    if contains_nul(host) {
        return Err(EncodingError::InvalidEncoding);
    }
    Ok(encode_host(host))
}

/// Converts the bytes of a C string (before its NUL terminator) into a
/// portable string.
pub fn host_c_str_to_str(host: &[u8]) -> (r: String)
    requires
        !host@.contains(0),
    ensures
        encode_utf8(r@) == host_to_portable(host@),
        valid_utf8(host@) ==> r@ == decode_utf8(host@),
{
    encode_host_str(host)
}

/// Converts the bytes of a C string (before its NUL terminator) into the
/// UTF-8 bytes of their portable string.
pub fn host_c_str_to_bytes(host: &[u8]) -> (r: Vec<u8>)
    requires
        !host@.contains(0),
    ensures
        r@ == host_to_portable(host@),
        valid_utf8(host@) ==> r@ == host@,
{
    encode_host(host)
}

} // verus!
