//! Scanning byte sequences for well-formed UTF-8.
use vstd::prelude::*;
use vstd::utf8::*;

verus! {

/// The bytes of `s` from index `i` on.
pub open spec fn tail<A>(s: Seq<A>, i: int) -> Seq<A> {
    s.subrange(i, s.len() as int)
}

fn is_cont(b: u8) -> (r: bool)
    ensures
        r == is_continuation_byte(b),
{
    0x80 <= b && b <= 0xbf
}

/// The length of the well-formed scalar encoding that starts at `bytes[i]`,
/// or 0 when none starts there.
pub fn scalar_len_at(bytes: &[u8], i: usize) -> (n: usize)
    requires
        i <= bytes@.len(),
    ensures
        valid_first_scalar(tail(bytes@, i as int)) ==> n == length_of_first_scalar(
            tail(bytes@, i as int),
        ),
        !valid_first_scalar(tail(bytes@, i as int)) ==> n == 0,
        n <= bytes@.len() - i,
{
    let ghost t = tail(bytes@, i as int);
    let len = bytes.len();
    if i >= len {
        return 0;
    }
    let rest = len - i;
    let b0 = bytes[i];
    assert(t[0] == b0);
    if b0 <= 0x7f {
        let cp: u32 = (b0 & 0x7f) as u32;
        assert(cp == decode_first_codepoint(t));
        assert(cp < 0x80) by (bit_vector)
            requires
                cp == (b0 & 0x7f) as u32,
        ;
        1
    } else if 0xc0 <= b0 && b0 <= 0xdf {
        if rest < 2 {
            return 0;
        }
        let b1 = bytes[i + 1];
        assert(t[1] == b1);
        if !is_cont(b1) {
            return 0;
        }
        let cp: u32 = (((b0 & 0x1f) as u32) << 6) | ((b1 & 0x3f) as u32);
        assert(cp == decode_first_codepoint(t));
        if cp >= 0x80 && !(0xd800 <= cp && cp <= 0xdfff) {
            2
        } else {
            0
        }
    } else if 0xe0 <= b0 && b0 <= 0xef {
        if rest < 3 {
            return 0;
        }
        let b1 = bytes[i + 1];
        let b2 = bytes[i + 2];
        assert(t[1] == b1 && t[2] == b2);
        if !is_cont(b1) || !is_cont(b2) {
            return 0;
        }
        let cp: u32 = (((b0 & 0x0f) as u32) << 12) | (((b1 & 0x3f) as u32) << 6) | ((b2
            & 0x3f) as u32);
        assert(cp == decode_first_codepoint(t));
        if cp >= 0x800 && !(0xd800 <= cp && cp <= 0xdfff) {
            3
        } else {
            0
        }
    } else if 0xf0 <= b0 && b0 <= 0xf7 {
        if rest < 4 {
            return 0;
        }
        let b1 = bytes[i + 1];
        let b2 = bytes[i + 2];
        let b3 = bytes[i + 3];
        assert(t[1] == b1 && t[2] == b2 && t[3] == b3);
        if !is_cont(b1) || !is_cont(b2) || !is_cont(b3) {
            return 0;
        }
        let cp: u32 = (((b0 & 0x07) as u32) << 18) | (((b1 & 0x3f) as u32) << 12) | (((b2
            & 0x3f) as u32) << 6) | ((b3 & 0x3f) as u32);
        assert(cp == decode_first_codepoint(t));
        if 0x10000 <= cp && cp <= 0x10ffff && !(0xd800 <= cp && cp <= 0xdfff) {
            4
        } else {
            0
        }
    } else {
        0
    }
}

/// Whether `bytes` is a well-formed UTF-8 sequence.
pub fn is_valid_utf8(bytes: &[u8]) -> (r: bool)
    ensures
        r == valid_utf8(bytes@),
{
    let len = bytes.len();
    let mut i: usize = 0;
    assert(tail(bytes@, 0) =~= bytes@);
    while i < len
        invariant
            len == bytes@.len(),
            i <= len,
            valid_utf8(bytes@) == valid_utf8(tail(bytes@, i as int)),
        decreases len - i,
    {
        let n = scalar_len_at(bytes, i);
        if n == 0 {
            return false;
        }
        assert(pop_first_scalar(tail(bytes@, i as int)) =~= tail(bytes@, i + n));
        i = i + n;
    }
    assert(tail(bytes@, i as int) =~= Seq::<u8>::empty());
    true
}

/// Whether `bytes` holds a NUL byte.
pub fn contains_nul(bytes: &[u8]) -> (r: bool)
    ensures
        r == bytes@.contains(0),
{
    let len = bytes.len();
    let mut i: usize = 0;
    while i < len
        invariant
            len == bytes@.len(),
            i <= len,
            forall|j: int| 0 <= j < i ==> bytes@[j] != 0,
        decreases len - i,
    {
        if bytes[i] == 0 {
            return true;
        }
        i = i + 1;
    }
    false
}

/// Appends `bytes[from..to]` to `out`.
pub fn push_run(out: &mut Vec<u8>, bytes: &[u8], from: usize, to: usize)
    requires
        from <= to <= bytes@.len(),
    ensures
        final(out)@ == old(out)@ + bytes@.subrange(from as int, to as int),
{
    let mut k: usize = from;
    while k < to
        invariant
            from <= k <= to <= bytes@.len(),
            out@ == old(out)@ + bytes@.subrange(from as int, k as int),
        decreases to - k,
    {
        out.push(bytes[k]);
        assert(bytes@.subrange(from as int, k + 1) =~= bytes@.subrange(from as int, k as int).push(bytes@[k as int]));
        k = k + 1;
    }
}

/// Relies on `String::from_utf8`: it accepts exactly the well-formed UTF-8
/// sequences, and the string it gives back is made of those very bytes.
#[verifier::external_body]
pub(crate) fn string_from_utf8(v: Vec<u8>) -> (r: Option<String>)
    ensures
        r is Some <==> valid_utf8(v@),
        r matches Some(s) ==> encode_utf8(s@) == v@,
{
    String::from_utf8(v).ok()
}

/// The bytes of one well-formed scalar form a well-formed sequence.
pub proof fn lemma_first_scalar_valid(h: Seq<u8>)
    requires
        valid_first_scalar(h),
    ensures
        valid_utf8(take_first_scalar(h)),
{
    let t = take_first_scalar(h);
    let l = length_of_first_scalar(h);
    assert(forall|k: int| 0 <= k < l ==> t[k] == h[k]);
    assert(valid_first_scalar(t));
    assert(length_of_first_scalar(t) == l);
    assert(pop_first_scalar(t) =~= Seq::<u8>::empty());
    reveal_with_fuel(valid_utf8, 2);
}

/// A single byte below 0x80 is a well-formed sequence.
pub proof fn lemma_ascii_valid(b: u8)
    requires
        b < 0x80,
    ensures
        valid_utf8(seq![b]),
{
    let s = seq![b];
    let cp = (b & 0x7f) as u32;
    assert(cp < 0x80) by (bit_vector)
        requires
            cp == (b & 0x7f) as u32,
    ;
    assert(valid_first_scalar(s));
    assert(pop_first_scalar(s) =~= Seq::<u8>::empty());
    reveal_with_fuel(valid_utf8, 2);
}

/// Three bytes that encode one scalar of the three-byte range form a
/// well-formed sequence, whose first scalar is `cp`.
pub proof fn lemma_three_byte_valid(b0: u8, b1: u8, b2: u8, cp: u32)
    requires
        0xe0 <= b0 <= 0xef,
        0x80 <= b1 <= 0xbf,
        0x80 <= b2 <= 0xbf,
        cp == (((b0 & 0x0f) as u32) << 12) | (((b1 & 0x3f) as u32) << 6) | ((b2 & 0x3f) as u32),
        0x800 <= cp,
        !(0xd800 <= cp <= 0xdfff),
    ensures
        valid_utf8(seq![b0, b1, b2]),
        decode_first_scalar(seq![b0, b1, b2]) == cp,
{
    let s = seq![b0, b1, b2];
    assert(valid_first_scalar(s));
    assert(pop_first_scalar(s) =~= Seq::<u8>::empty());
    reveal_with_fuel(valid_utf8, 2);
}

} // verus!
