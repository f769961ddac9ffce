//! What holds of the Windows codec as a whole: the two round trips, the
//! passthrough of well-formed text, and the bound on the ARF message's size.
use crate::utf8_scan::tail;
use crate::winx::{
    arf_encode16, char_units, decode_sections16, encode_utf16, escape_chars, first_scalar16,
    first_units_len, host_to_portable16, is_first_nul_char, lossy_chars, portable_to_host16,
    prepend16, valid_first_units, valid_utf16,
};
use vstd::prelude::*;

verus! {

proof fn lemma_no_nul_tail<A>(s: Seq<A>, k: int, z: A)
    requires
        0 <= k <= s.len(),
        !s.contains(z),
    ensures
        !tail(s, k).contains(z),
{
    if tail(s, k).contains(z) {
        let j = choose|j: int| 0 <= j < tail(s, k).len() && tail(s, k)[j] == z;
        assert(s[j + k] == z);
    }
}

proof fn lemma_pair_arith(x: int, y: int)
    requires
        0 <= x < 0x400,
        0 <= y < 0x400,
    ensures
        (x * 0x400 + y) / 0x400 == x,
        (x * 0x400 + y) % 0x400 == y,
        x * 0x400 + y <= 0xfffff,
{
    assert((x * 0x400 + y) / 0x400 == x && (x * 0x400 + y) % 0x400 == y) by (nonlinear_arith)
        requires
            0 <= x < 0x400,
            0 <= y < 0x400,
    ;
    assert(x * 0x400 <= 0x3ff * 0x400) by (nonlinear_arith)
        requires
            0 <= x < 0x400,
    ;
}

/// The units of the scalar at the start of `h` are what `char_units` gives
/// for its character, which is no NUL when `h[0]` is none.
proof fn lemma_first_scalar_units(h: Seq<u16>)
    requires
        valid_first_units(h),
    ensures
        char_units(first_scalar16(h) as char) == h.subrange(0, first_units_len(h)),
        (first_scalar16(h) as char) as u32 == first_scalar16(h),
        h[0] != 0 ==> first_scalar16(h) as char != '\0',
{
    if first_units_len(h) == 2 {
        let x = h[0] - 0xd800;
        let y = h[1] - 0xdc00;
        lemma_pair_arith(x, y);
        assert(first_scalar16(h) == 0x10000 + x * 0x400 + y);
    }
    assert(char_units(first_scalar16(h) as char) =~= h.subrange(0, first_units_len(h)));
}

/// The units of a character form one well-formed scalar of that character.
proof fn lemma_char_units_scalar(c: char, rest: Seq<u16>)
    ensures
        valid_first_units(char_units(c) + rest),
        first_units_len(char_units(c) + rest) == char_units(c).len(),
        first_scalar16(char_units(c) + rest) as char == c,
{
    let v = c as u32;
    if v >= 0x10000 {
        let w = v - 0x10000;
        assert(w / 0x400 < 0x400 && w % 0x400 < 0x400 && (w / 0x400) * 0x400 + w % 0x400 == w)
            by (nonlinear_arith)
            requires
                0 <= w <= 0xfffff,
        ;
    }
}

proof fn lemma_encode_then_decode(p: Seq<char>)
    ensures
        valid_utf16(encode_utf16(p)),
        lossy_chars(encode_utf16(p)) == p,
    decreases p.len(),
{
    if p.len() > 0 {
        let rest = encode_utf16(p.drop_first());
        let e = encode_utf16(p);
        lemma_encode_then_decode(p.drop_first());
        lemma_char_units_scalar(p[0], rest);
        assert(e == char_units(p[0]) + rest);
        assert(tail(e, first_units_len(e)) =~= rest);
        assert(seq![p[0]] + p.drop_first() =~= p);
    }
}

proof fn lemma_decode_then_encode(h: Seq<u16>)
    requires
        valid_utf16(h),
    ensures
        encode_utf16(lossy_chars(h)) == h,
    decreases h.len(),
{
    if h.len() > 0 {
        let k = first_units_len(h);
        lemma_decode_then_encode(tail(h, k));
        lemma_first_scalar_units(h);
        let l = lossy_chars(h);
        assert(l[0] == first_scalar16(h) as char);
        assert(l.drop_first() =~= lossy_chars(tail(h, k)));
        assert(h.subrange(0, k) + tail(h, k) =~= h);
    }
}

proof fn lemma_decode_run16(c: Seq<char>, l: Seq<char>, e: Seq<char>)
    requires
        !c.contains('\0'),
    ensures
        decode_sections16(c + l, c + e) == prepend16(encode_utf16(c), decode_sections16(l, e)),
    decreases c.len(),
{
    if c.len() == 0 {
        assert(c + l =~= l);
        assert(c + e =~= e);
        match decode_sections16(l, e) {
            Some(h) => assert(seq![] + h =~= h),
            None => {},
        }
    } else {
        let r = c.drop_first();
        lemma_no_nul_tail(c, 1, '\0');
        assert(tail(c, 1) =~= r);
        assert(c[0] != '\0') by {
            if c[0] == '\0' {
                assert(c.contains('\0'));
            }
        }
        lemma_decode_run16(r, l, e);
        assert((c + l).drop_first() =~= r + l);
        assert((c + e).drop_first() =~= r + e);
        assert((c + l)[0] == c[0]);
        assert((c + e)[0] == c[0]);
        match decode_sections16(l, e) {
            Some(h) => assert(char_units(c[0]) + (encode_utf16(r) + h) =~= encode_utf16(c) + h),
            None => {},
        }
    }
}

proof fn lemma_lossy_no_nul16(h: Seq<u16>)
    requires
        !h.contains(0),
    ensures
        !lossy_chars(h).contains('\0'),
    decreases h.len(),
{
    if h.len() > 0 {
        let k = if valid_first_units(h) {
            first_units_len(h)
        } else {
            1
        };
        lemma_no_nul_tail(h, k, 0);
        assert(h[0] != 0) by {
            if h[0] == 0 {
                assert(h.contains(0));
            }
        }
        if valid_first_units(h) {
            lemma_first_scalar_units(h);
            lemma_lossy_no_nul16(tail(h, k));
        } else {
            assert(tail(h, 1) =~= h.drop_first());
            lemma_lossy_no_nul16(h.drop_first());
        }
        let l = lossy_chars(h);
        if l.contains('\0') {
            let j = choose|j: int| 0 <= j < l.len() && l[j] == '\0';
            if j > 0 {
                assert(lossy_chars(tail(h, k))[j - 1] == '\0');
            }
        }
    }
}

proof fn lemma_escape_has_nul16(h: Seq<u16>)
    requires
        !valid_utf16(h),
    ensures
        escape_chars(h).contains('\0'),
    decreases h.len(),
{
    if valid_first_units(h) {
        let k = first_units_len(h);
        lemma_escape_has_nul16(tail(h, k));
        let e = escape_chars(tail(h, k));
        let j = choose|j: int| 0 <= j < e.len() && e[j] == '\0';
        assert(escape_chars(h)[j + 1] == '\0');
    } else {
        assert(escape_chars(h)[0] == '\0');
    }
}

proof fn lemma_sections_decode16(h: Seq<u16>)
    requires
        !h.contains(0),
    ensures
        decode_sections16(lossy_chars(h), escape_chars(h)) == Some(h),
    decreases h.len(),
{
    if h.len() > 0 {
        assert(h[0] != 0) by {
            if h[0] == 0 {
                assert(h.contains(0));
            }
        }
        if valid_first_units(h) {
            let k = first_units_len(h);
            let c = first_scalar16(h) as char;
            lemma_no_nul_tail(h, k, 0);
            lemma_first_scalar_units(h);
            lemma_sections_decode16(tail(h, k));
            assert(!seq![c].contains('\0')) by {
                if seq![c].contains('\0') {
                    assert(seq![c][0] == '\0');
                }
            }
            lemma_decode_run16(seq![c], lossy_chars(tail(h, k)), escape_chars(tail(h, k)));
            assert(encode_utf16(seq![c]) == char_units(c)) by {
                let one = seq![c];
                assert(one.drop_first() =~= Seq::<char>::empty());
                assert(encode_utf16(one.drop_first()) == Seq::<u16>::empty());
                assert(encode_utf16(one) == char_units(one[0]) + encode_utf16(one.drop_first()));
                assert(char_units(c) + Seq::<u16>::empty() =~= char_units(c));
            }
            assert(h.subrange(0, k) + tail(h, k) =~= h);
        } else {
            let u = h[0];
            let rest = h.drop_first();
            lemma_no_nul_tail(h, 1, 0);
            assert(tail(h, 1) =~= rest);
            lemma_sections_decode16(rest);
            assert(0xd800 <= u <= 0xdfff);
            let pv = (u - 0xd800) as u32;
            assert((pv as char) as u32 == pv);
            let l = lossy_chars(h);
            let e = escape_chars(h);
            assert(l.drop_first() =~= lossy_chars(rest));
            assert(tail(e, 2) =~= escape_chars(rest));
            assert(e[0] == '\0');
            assert(e[1] == pv as char);
            assert(seq![u] + rest =~= h);
        }
    }
}

/// Host to portable to host is the identity: every sequence of host units
/// without NUL comes back unchanged from its portable form.
pub proof fn lemma_host_round_trip16(h: Seq<u16>)
    requires
        !h.contains(0),
    ensures
        portable_to_host16(host_to_portable16(h)) == Some(h),
{
    lemma_lossy_no_nul16(h);
    if valid_utf16(h) {
        lemma_decode_then_encode(h);
    } else {
        let p = arf_encode16(h);
        let l = lossy_chars(h);
        let n: int = 1 + l.len() as int;
        lemma_escape_has_nul16(h);
        lemma_sections_decode16(h);
        assert(p[n] == '\0');
        assert(p.contains('\0'));
        assert(forall|j: int| 0 <= j < n ==> p[j] != '\0') by {
            assert forall|j: int| 0 <= j < n implies p[j] != '\0' by {
                if 1 <= j {
                    assert(p[j] == l[j - 1]);
                    if l[j - 1] == '\0' {
                        assert(l.contains('\0'));
                    }
                }
            }
        }
        assert(is_first_nul_char(p, n));
        let m = choose|m: int| is_first_nul_char(p, m);
        assert(m == n) by {
            if m < n {
                assert(p[m] != '\0');
            } else if n < m {
                assert(p[n] != '\0');
            }
        }
        assert(p.subrange(1, n) =~= l);
        assert(tail(p, n + 1) =~= escape_chars(h));
    }
}

/// Portable to host to portable is the identity on every portable string
/// that holds no NUL, and on every ARF message that the encoder gives for
/// some sequence of host units.
pub proof fn lemma_portable_round_trip16(p: Seq<char>)
    requires
        !p.contains('\0') || exists|h: Seq<u16>| !h.contains(0) && host_to_portable16(h) == p,
    ensures
        portable_to_host16(p) matches Some(h) && host_to_portable16(h) == p,
{
    if p.contains('\0') {
        let h = choose|h: Seq<u16>| !h.contains(0) && host_to_portable16(h) == p;
        lemma_host_round_trip16(h);
    } else {
        lemma_encode_then_decode(p);
    }
}

/// Well-formed UTF-16 host units have their own text as portable form, with
/// no ARF envelope.
pub proof fn lemma_passthrough16(h: Seq<u16>)
    requires
        valid_utf16(h),
    ensures
        host_to_portable16(h) == lossy_chars(h),
        encode_utf16(host_to_portable16(h)) == h,
{
    lemma_decode_then_encode(h);
}

proof fn lemma_sections_len16(h: Seq<u16>)
    ensures
        lossy_chars(h).len() <= h.len(),
        escape_chars(h).len() <= 2 * h.len(),
    decreases h.len(),
{
    if h.len() > 0 {
        if valid_first_units(h) {
            lemma_sections_len16(tail(h, first_units_len(h)));
        } else {
            lemma_sections_len16(h.drop_first());
        }
    }
}

/// The portable form of a sequence of host units holds at most three
/// characters per unit, plus two.
pub proof fn lemma_bounded_expansion16(h: Seq<u16>)
    ensures
        host_to_portable16(h).len() <= 3 * h.len() + 2,
{
    lemma_sections_len16(h);
}

} // verus!
