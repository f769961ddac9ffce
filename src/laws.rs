//! What holds of the POSIX codec as a whole: the two round trips, the
//! passthrough of well-formed text, and the bound on the ARF message's size.
use crate::posish::{
    arf_encode, bom_bytes, decode_sections, escape_section, host_to_portable, is_first_nul,
    lossy_section, portable_to_host, prepend, replacement_bytes,
};
use crate::utf8_scan::tail;
use vstd::prelude::*;
use vstd::utf8::*;

verus! {

proof fn lemma_ascii_first_scalar(h: Seq<u8>)
    requires
        h.len() > 0,
        h[0] < 0x80,
    ensures
        valid_first_scalar(h),
{
    let b = h[0];
    let cp = (b & 0x7f) as u32;
    assert(cp < 0x80) by (bit_vector)
        requires
            cp == (b & 0x7f) as u32,
    ;
}

proof fn lemma_decode_run(c: Seq<u8>, l: Seq<u8>, e: Seq<u8>)
    requires
        !c.contains(0),
    ensures
        decode_sections(c + l, c + e) == prepend(c, decode_sections(l, e)),
    decreases c.len(),
{
    if c.len() == 0 {
        assert(c + l =~= l);
        assert(c + e =~= e);
        match decode_sections(l, e) {
            Some(h) => assert(c + h =~= h),
            None => {},
        }
    } else {
        let r = c.drop_first();
        assert(!r.contains(0)) by {
            if r.contains(0) {
                let k = choose|k: int| 0 <= k < r.len() && r[k] == 0;
                assert(c[k + 1] == 0);
            }
        }
        assert(c[0] != 0) by {
            if c[0] == 0 {
                assert(c.contains(0));
            }
        }
        lemma_decode_run(r, l, e);
        assert((c + l).drop_first() =~= r + l);
        assert((c + e).drop_first() =~= r + e);
        assert((c + l)[0] == c[0]);
        assert((c + e)[0] == c[0]);
        match decode_sections(l, e) {
            Some(h) => assert(seq![c[0]] + (r + h) =~= c + h),
            None => {},
        }
    }
}

proof fn lemma_lossy_no_nul(h: Seq<u8>)
    requires
        !h.contains(0),
    ensures
        !lossy_section(h).contains(0),
    decreases h.len(),
{
    if h.len() == 0 {
    } else if valid_first_scalar(h) {
        let c = take_first_scalar(h);
        let rest = pop_first_scalar(h);
        assert(!rest.contains(0)) by {
            if rest.contains(0) {
                let k = choose|k: int| 0 <= k < rest.len() && rest[k] == 0;
                assert(h[k + length_of_first_scalar(h)] == 0);
            }
        }
        lemma_lossy_no_nul(rest);
        assert(!(c + lossy_section(rest)).contains(0)) by {
            if (c + lossy_section(rest)).contains(0) {
                let k = choose|k: int|
                    0 <= k < (c + lossy_section(rest)).len() && (c + lossy_section(rest))[k] == 0;
                if k < c.len() {
                    assert(h[k] == 0);
                } else {
                    assert(lossy_section(rest)[k - c.len()] == 0);
                }
            }
        }
    } else {
        let rest = h.drop_first();
        assert(!rest.contains(0)) by {
            if rest.contains(0) {
                let k = choose|k: int| 0 <= k < rest.len() && rest[k] == 0;
                assert(h[k + 1] == 0);
            }
        }
        lemma_lossy_no_nul(rest);
        let s = replacement_bytes() + lossy_section(rest);
        assert(!s.contains(0)) by {
            if s.contains(0) {
                let k = choose|k: int| 0 <= k < s.len() && s[k] == 0;
                if k >= 3 {
                    assert(lossy_section(rest)[k - 3] == 0);
                }
            }
        }
    }
}

proof fn lemma_escape_has_nul(h: Seq<u8>)
    requires
        !valid_utf8(h),
    ensures
        escape_section(h).contains(0),
    decreases h.len(),
{
    if valid_first_scalar(h) {
        let rest = pop_first_scalar(h);
        lemma_escape_has_nul(rest);
        let k = choose|k: int| 0 <= k < escape_section(rest).len() && escape_section(rest)[k] == 0;
        let c = take_first_scalar(h);
        assert((c + escape_section(rest))[c.len() + k] == 0);
    } else {
        assert(escape_section(h)[0] == 0);
    }
}

proof fn lemma_sections_decode(h: Seq<u8>)
    requires
        !h.contains(0),
    ensures
        decode_sections(lossy_section(h), escape_section(h)) == Some(h),
    decreases h.len(),
{
    if h.len() == 0 {
    } else if valid_first_scalar(h) {
        let c = take_first_scalar(h);
        let rest = pop_first_scalar(h);
        assert(!rest.contains(0)) by {
            if rest.contains(0) {
                let k = choose|k: int| 0 <= k < rest.len() && rest[k] == 0;
                assert(h[k + length_of_first_scalar(h)] == 0);
            }
        }
        assert(!c.contains(0)) by {
            if c.contains(0) {
                let k = choose|k: int| 0 <= k < c.len() && c[k] == 0;
                assert(h[k] == 0);
            }
        }
        lemma_sections_decode(rest);
        lemma_decode_run(c, lossy_section(rest), escape_section(rest));
        assert(c + rest =~= h);
    } else {
        let b = h[0];
        let rest = h.drop_first();
        assert(!rest.contains(0)) by {
            if rest.contains(0) {
                let k = choose|k: int| 0 <= k < rest.len() && rest[k] == 0;
                assert(h[k + 1] == 0);
            }
        }
        if b < 0x80 {
            lemma_ascii_first_scalar(h);
        }
        assert(b >= 0x80);
        assert((b & 0x7f) < 0x80 && ((b & 0x7f) | 0x80) == b) by (bit_vector)
            requires
                b >= 0x80,
        ;
        lemma_sections_decode(rest);
        let l = lossy_section(h);
        let e = escape_section(h);
        assert(l.subrange(0, 3) =~= replacement_bytes());
        assert(tail(l, 3) =~= lossy_section(rest));
        assert(tail(e, 2) =~= escape_section(rest));
        assert(e[0] == 0);
        assert(e[1] == b & 0x7f);
        assert(seq![b] + rest =~= h);
    }
}

/// Host to portable to host is the identity: every host byte sequence
/// without NUL comes back unchanged from its portable form.
pub proof fn lemma_host_round_trip(h: Seq<u8>)
    requires
        !h.contains(0),
    ensures
        portable_to_host(host_to_portable(h)) == Some(h),
{
    if !valid_utf8(h) {
        let p = arf_encode(h);
        let l = lossy_section(h);
        let n: int = 3 + l.len() as int;
        lemma_lossy_no_nul(h);
        lemma_escape_has_nul(h);
        lemma_sections_decode(h);
        assert(p[n] == 0);
        assert(p.contains(0));
        assert(p.subrange(0, 3) =~= bom_bytes());
        assert(forall|j: int| 0 <= j < n ==> p[j] != 0) by {
            assert forall|j: int| 0 <= j < n implies p[j] != 0 by {
                if 3 <= j {
                    assert(p[j] == l[j - 3]);
                    if l[j - 3] == 0 {
                        assert(l.contains(0));
                    }
                }
            }
        }
        assert(is_first_nul(p, n));
        let m = choose|m: int| is_first_nul(p, m);
        assert(m == n) by {
            if m < n {
                assert(p[m] != 0);
            } else if n < m {
                assert(p[n] != 0);
            }
        }
        assert(p.subrange(3, n) =~= l);
        assert(tail(p, n + 1) =~= escape_section(h));
    }
}

/// Portable to host to portable is the identity on every portable string
/// that holds no NUL, and on every ARF message that the encoder gives for
/// some host string.
pub proof fn lemma_portable_round_trip(p: Seq<u8>)
    requires
        valid_utf8(p),
        !p.contains(0) || exists|h: Seq<u8>| !h.contains(0) && host_to_portable(h) == p,
    ensures
        portable_to_host(p) matches Some(h) && host_to_portable(h) == p,
{
    if p.contains(0) {
        let h = choose|h: Seq<u8>| !h.contains(0) && host_to_portable(h) == p;
        lemma_host_round_trip(h);
    }
}

/// Well-formed UTF-8 host bytes are their own portable form, with no ARF
/// envelope.
pub proof fn lemma_passthrough(h: Seq<u8>)
    requires
        valid_utf8(h),
    ensures
        host_to_portable(h) == h,
{
}

proof fn lemma_sections_len(h: Seq<u8>)
    ensures
        lossy_section(h).len() <= 3 * h.len(),
        escape_section(h).len() <= 2 * h.len(),
    decreases h.len(),
{
    if h.len() == 0 {
    } else if valid_first_scalar(h) {
        lemma_sections_len(pop_first_scalar(h));
    } else {
        lemma_sections_len(h.drop_first());
    }
}

/// The portable form of a host byte sequence is at most five times as long
/// as the sequence, plus four bytes.
pub proof fn lemma_bounded_expansion(h: Seq<u8>)
    ensures
        host_to_portable(h).len() <= 5 * h.len() + 4,
{
    lemma_sections_len(h);
}

proof fn lemma_sections_no_nul(lossy: Seq<u8>, esc: Seq<u8>)
    ensures
        decode_sections(lossy, esc) matches Some(h) ==> !h.contains(0),
    decreases esc.len(),
{
    if esc.len() == 0 {
    } else if esc[0] == 0 {
        if esc.len() >= 2 && lossy.len() >= 3 {
            lemma_sections_no_nul(tail(lossy, 3), tail(esc, 2));
            if let Some(h) = decode_sections(lossy, esc) {
                let b = esc[1];
                assert(b | 0x80 != 0) by (bit_vector);
                let rest = decode_sections(tail(lossy, 3), tail(esc, 2)).unwrap();
                assert(h == seq![b | 0x80] + rest);
                if h.contains(0) {
                    let k = choose|k: int| 0 <= k < h.len() && h[k] == 0;
                    assert(k > 0);
                    assert(rest[k - 1] == 0);
                }
            }
        }
    } else if lossy.len() >= 1 {
        lemma_sections_no_nul(lossy.drop_first(), esc.drop_first());
        if let Some(h) = decode_sections(lossy, esc) {
            let rest = decode_sections(lossy.drop_first(), esc.drop_first()).unwrap();
            assert(h == seq![esc[0]] + rest);
            if h.contains(0) {
                let k = choose|k: int| 0 <= k < h.len() && h[k] == 0;
                assert(k > 0);
                assert(rest[k - 1] == 0);
            }
        }
    }
}

/// Host bytes decoded from a portable string never hold a NUL.
pub proof fn lemma_decoded_no_nul(p: Seq<u8>)
    ensures
        portable_to_host(p) matches Some(h) ==> !h.contains(0),
{
    if p.contains(0) {
        let n = choose|n: int| is_first_nul(p, n);
        lemma_sections_no_nul(p.subrange(3, n), tail(p, n + 1));
    }
}

} // verus!
