//! Deciding whether received bytes are well-formed UTF-8, as `str::from_utf8` does before
//! it lets a buffer be printed as text.
use vstd::prelude::*;
use vstd::utf8::*;

verus! {

/// The length of the scalar whose encoding starts at `bytes[i]`, or 0 when no well-formed
/// encoding of a scalar starts there.
fn first_scalar_len(bytes: &[u8], i: usize) -> (r: usize)
    requires
        i < bytes@.len(),
    ensures
        r > 0 <==> valid_first_scalar(bytes@.subrange(i as int, bytes@.len() as int)),
        r > 0 ==> r == length_of_first_scalar(bytes@.subrange(i as int, bytes@.len() as int)),
{
    let ghost s = bytes@.subrange(i as int, bytes@.len() as int);
    let n = bytes.len();
    let b0 = bytes[i];
    assert(s[0] == b0);
    if b0 <= 0x7f {
        let cp: u32 = (b0 & 0x7F) as u32;
        assert(cp <= 0x7f) by (bit_vector)
            requires
                cp == (b0 & 0x7F) as u32,
        ;
        assert(decode_first_codepoint(s) == cp);
        1
    } else if 0xc0 <= b0 && b0 <= 0xdf {
        if n - i <= 1 {
            return 0;
        }
        let b1 = bytes[i + 1];
        assert(s[1] == b1);
        if !(0x80 <= b1 && b1 <= 0xbf) {
            return 0;
        }
        let cp: u32 = (((b0 & 0x1F) as u32) << 6) | ((b1 & 0x3f) as u32);
        assert(cp <= 0x7ff) by (bit_vector)
            requires
                cp == (((b0 & 0x1F) as u32) << 6) | ((b1 & 0x3f) as u32),
        ;
        assert(decode_first_codepoint(s) == cp);
        if 0x80 <= cp {
            2
        } else {
            0
        }
    } else if 0xe0 <= b0 && b0 <= 0xef {
        if n - i <= 2 {
            return 0;
        }
        let b1 = bytes[i + 1];
        let b2 = bytes[i + 2];
        assert(s[1] == b1 && s[2] == b2);
        if !(0x80 <= b1 && b1 <= 0xbf && 0x80 <= b2 && b2 <= 0xbf) {
            return 0;
        }
        let cp: u32 = (((b0 & 0x0F) as u32) << 12) | (((b1 & 0x3f) as u32) << 6) | ((b2
            & 0x3f) as u32);
        assert(decode_first_codepoint(s) == cp);
        if 0x800 <= cp && !(0xD800 <= cp && cp <= 0xDFFF) {
            3
        } else {
            0
        }
    } else if 0xf0 <= b0 && b0 <= 0xf7 {
        if n - i <= 3 {
            return 0;
        }
        let b1 = bytes[i + 1];
        let b2 = bytes[i + 2];
        let b3 = bytes[i + 3];
        assert(s[1] == b1 && s[2] == b2 && s[3] == b3);
        if !(0x80 <= b1 && b1 <= 0xbf && 0x80 <= b2 && b2 <= 0xbf && 0x80 <= b3 && b3 <= 0xbf) {
            return 0;
        }
        let cp: u32 = (((b0 & 0x07) as u32) << 18) | (((b1 & 0x3f) as u32) << 12) | (((b2
            & 0x3f) as u32) << 6) | ((b3 & 0x3f) as u32);
        assert(decode_first_codepoint(s) == cp);
        if 0x10000 <= cp && cp <= 0x10ffff {
            assert(!(0xD800 <= cp && cp <= 0xDFFF));
            4
        } else {
            0
        }
    } else {
        0
    }
}

/// Whether `bytes` is well-formed UTF-8, as `str::from_utf8` decides it.
pub fn is_utf8(bytes: &[u8]) -> (r: bool)
    ensures
        r == valid_utf8(bytes@),
{
    let n = bytes.len();
    let mut i: usize = 0;
    assert(bytes@.subrange(0, 0) =~= Seq::<u8>::empty());
    while i < n
        invariant
            n == bytes@.len(),
            0 <= i <= n,
            partial_valid_utf8(bytes@, i as int),
        decreases n - i,
    {
        let w = first_scalar_len(bytes, i);
        if w == 0 {
            proof {
                partial_valid_partial_invalid_utf8(bytes@, i as int);
            }
            return false;
        }
        proof {
            partial_valid_utf8_extend(bytes@, i as int);
        }
        i = i + w;
    }
    assert(bytes@.subrange(0, n as int) =~= bytes@);
    true
}

} // verus!
