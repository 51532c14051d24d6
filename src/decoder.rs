//! Incremental UTF-8 decoding: complete characters are handed on, an
//! incomplete tail waits for more bytes, and a byte that cannot begin a
//! well-formed character becomes U+FFFD.
use vstd::prelude::*;
use vstd::utf8::{
    codepoint_width_1, codepoint_width_2, codepoint_width_3, codepoint_width_4,
    decode_first_scalar, is_continuation_byte, is_scalar, valid_first_scalar,
};

verus! {

/// The character that stands for a byte which begins no well-formed character.
pub const REPLACEMENT: char = '\u{fffd}';

/// What the bytes at a position start with.
#[derive(Clone, Copy, Debug, PartialEq, Eq, Structural)]
pub enum Decoded {
    /// A well-formed character, and how many bytes it takes.
    Char(char, usize),
    /// The start of a character whose remaining bytes have not come yet.
    Incomplete,
    /// A byte that begins no well-formed character.
    Invalid,
}

/// The number of bytes that a character with this first byte takes, or 0
/// when the byte cannot begin one.
pub open spec fn lead_width(b: u8) -> int {
    if b <= 0x7f {
        1
    } else if 0xc0 <= b && b <= 0xdf {
        2
    } else if 0xe0 <= b && b <= 0xef {
        3
    } else if 0xf0 <= b && b <= 0xf7 {
        4
    } else {
        0
    }
}

/// The bytes that follow the first, up to the width `k` and as far as they
/// go, are continuation bytes.
pub open spec fn continuations_ok(b: Seq<u8>, k: int) -> bool {
    forall|i: int| 1 <= i < k && i < b.len() ==> is_continuation_byte(#[trigger] b[i])
}

/// What a non-empty byte sequence starts with.
pub open spec fn classify(b: Seq<u8>) -> Decoded {
    let k = lead_width(b[0]);
    if k == 0 || !continuations_ok(b, k) {
        Decoded::Invalid
    } else if b.len() < k {
        Decoded::Incomplete
    } else if valid_first_scalar(b) {
        Decoded::Char(decode_first_scalar(b) as char, k as usize)
    } else {
        Decoded::Invalid
    }
}

/// The characters that `b` decodes to, and the incomplete tail left over.
pub open spec fn decode(b: Seq<u8>) -> (Seq<char>, Seq<u8>)
    decreases b.len(),
{
    if b.len() == 0 {
        (Seq::empty(), Seq::empty())
    } else {
        let k = lead_width(b[0]);
        match classify(b) {
            Decoded::Char(c, _) => {
                let r = decode(b.subrange(k, b.len() as int));
                (seq![c] + r.0, r.1)
            },
            Decoded::Invalid => {
                let r = decode(b.drop_first());
                (seq![REPLACEMENT] + r.0, r.1)
            },
            Decoded::Incomplete => (Seq::empty(), b),
        }
    }
}

proof fn lemma_classify_extend(a: Seq<u8>, b: Seq<u8>)
    requires
        a.len() > 0,
        classify(a) != Decoded::Incomplete,
    ensures
        classify(a + b) == classify(a),
{
    let ab = a + b;
    assert forall|i: int| 0 <= i < a.len() implies ab[i] == a[i] by {}
    let k = lead_width(a[0]);
    assert(ab[0] == a[0]);
    if k != 0 && !continuations_ok(a, k) {
        let i = choose|i: int| 1 <= i < k && i < a.len() && !is_continuation_byte(#[trigger] a[i]);
        assert(!is_continuation_byte(ab[i]));
    }
    if k != 0 && continuations_ok(a, k) {
        assert(a.len() >= k);
        assert(continuations_ok(ab, k));
        if k >= 2 {
            assert(ab[1] == a[1]);
        }
        if k >= 3 {
            assert(ab[2] == a[2]);
        }
        if k >= 4 {
            assert(ab[3] == a[3]);
        }
        assert(valid_first_scalar(ab) == valid_first_scalar(a));
        assert(decode_first_scalar(ab) == decode_first_scalar(a));
    }
}

/// Decoding does not depend on where the input was cut: the bytes `a + b`
/// decode to what `a` decodes to, followed by what the tail that `a` left
/// over decodes to together with `b`.
pub proof fn lemma_decode_concat(a: Seq<u8>, b: Seq<u8>)
    ensures
        decode(a + b).0 == decode(a).0 + decode(decode(a).1 + b).0,
        decode(a + b).1 == decode(decode(a).1 + b).1,
    decreases a.len(),
{
    let ab = a + b;
    if a.len() == 0 {
        assert(ab =~= b);
        assert(Seq::<u8>::empty() + b =~= b);
        assert(Seq::<char>::empty() + decode(b).0 =~= decode(b).0);
    } else {
        let k = lead_width(a[0]);
        match classify(a) {
            Decoded::Incomplete => {
                assert(Seq::<char>::empty() + decode(ab).0 =~= decode(ab).0);
            },
            Decoded::Char(c, _) => {
                lemma_classify_extend(a, b);
                assert(ab[0] == a[0]);
                let rest = a.subrange(k, a.len() as int);
                assert(ab.subrange(k, ab.len() as int) =~= rest + b);
                lemma_decode_concat(rest, b);
                assert(decode(ab).0 =~= decode(a).0 + decode(decode(a).1 + b).0);
            },
            Decoded::Invalid => {
                lemma_classify_extend(a, b);
                let rest = a.drop_first();
                assert(ab.drop_first() =~= rest + b);
                lemma_decode_concat(rest, b);
                assert(decode(ab).0 =~= decode(a).0 + decode(decode(a).1 + b).0);
            },
        }
    }
}

/// Relies on `char::from_u32`: `None` exactly when the value is no Unicode
/// scalar value, else the character with that value.
#[verifier::external_body]
fn char_from_u32(v: u32) -> (r: Option<char>)
    ensures
        r is Some <==> is_scalar(v),
        r is Some ==> r->0 as u32 == v,
{
    char::from_u32(v)
}

/// What the bytes of `buf` from `pos` on start with.
pub fn decode_at(buf: &Vec<u8>, pos: usize) -> (r: Decoded)
    requires
        pos < buf@.len(),
    ensures
        r == classify(buf@.subrange(pos as int, buf@.len() as int)),
{
    let ghost b = buf@.subrange(pos as int, buf@.len() as int);
    let b0 = buf[pos];
    let k: usize = if b0 <= 0x7f {
        1
    } else if 0xc0 <= b0 && b0 <= 0xdf {
        2
    } else if 0xe0 <= b0 && b0 <= 0xef {
        3
    } else if 0xf0 <= b0 && b0 <= 0xf7 {
        4
    } else {
        0
    };
    if k == 0 {
        return Decoded::Invalid;
    }
    assert(b0 == b[0]);
    let avail = buf.len() - pos;
    let mut i: usize = 1;
    while i < k && i < avail
        invariant
            1 <= i <= k <= 4,
            k as int == lead_width(b0),
            b0 == b[0],
            pos < buf@.len(),
            avail == buf@.len() - pos,
            pos as int + avail as int <= usize::MAX as int,
            avail == b.len(),
            b == buf@.subrange(pos as int, buf@.len() as int),
            forall|j: int| 1 <= j < i && j < b.len() ==> is_continuation_byte(#[trigger] b[j]),
        decreases k - i,
    {
        assert(pos + i < buf@.len());
        let c = buf[pos + i];
        if !(0x80 <= c && c <= 0xbf) {
            assert(b[i as int] == c);
            return Decoded::Invalid;
        }
        i = i + 1;
    }
    assert(continuations_ok(b, k as int));
    if avail < k {
        return Decoded::Incomplete;
    }
    let cp: u32 = if k == 1 {
        (b0 & 0x7f) as u32
    } else if k == 2 {
        let b1 = buf[pos + 1];
        assert(((b0 & 0x1f) as u32) << 6 | ((b1 & 0x3f) as u32) <= 0x7ff) by (bit_vector);
        ((b0 & 0x1f) as u32) << 6 | ((b1 & 0x3f) as u32)
    } else if k == 3 {
        let b1 = buf[pos + 1];
        let b2 = buf[pos + 2];
        assert(((b0 & 0x0f) as u32) << 12 | ((b1 & 0x3f) as u32) << 6 | ((b2 & 0x3f) as u32)
            <= 0xffff) by (bit_vector);
        ((b0 & 0x0f) as u32) << 12 | ((b1 & 0x3f) as u32) << 6 | ((b2 & 0x3f) as u32)
    } else {
        let b1 = buf[pos + 1];
        let b2 = buf[pos + 2];
        let b3 = buf[pos + 3];
        ((b0 & 0x07) as u32) << 18 | ((b1 & 0x3f) as u32) << 12 | ((b2 & 0x3f) as u32) << 6 | ((
        b3 & 0x3f) as u32)
    };
    assert(cp == decode_first_scalar(b));
    assert(b0 <= 0x7f ==> (b0 & 0x7f) as u32 <= 0x7f) by (bit_vector);
    let well_formed = (k != 2 || 0x80 <= cp) && (k != 3 || 0x800 <= cp) && (k != 4 || (0x10000
        <= cp && cp <= 0x10ffff)) && !(0xd800 <= cp && cp <= 0xdfff);
    if !well_formed {
        return Decoded::Invalid;
    }
    assert(valid_first_scalar(b));
    assert(is_scalar(cp));
    match char_from_u32(cp) {
        Some(c) => {
            proof {
                vstd::utf8::char_u32_cast(c, cp);
            }
            assert(classify(b) == Decoded::Char(c, k));
            Decoded::Char(c, k)
        },
        None => Decoded::Invalid,
    }
}

} // verus!
