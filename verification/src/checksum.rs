//! The running CRC-32 checksum of an upload, computed by `crc32fast`, and
//! the lowercase-hex rendering that the vault stores and compares.
use vstd::prelude::*;

use crate::text::{alnum_byte, lower_byte, lower_bytes};
use crate::utils::ascii_to_string;

verus! {

#[verifier::external_type_specification]
#[verifier::external_body]
pub struct ExHasher(crc32fast::Hasher);

/// Every byte a hasher has been fed, in order.
pub uninterp spec fn hasher_fed(h: crc32fast::Hasher) -> Seq<u8>;

/// The CRC-32 (IEEE) checksum of a byte sequence.
pub uninterp spec fn crc32_of(data: Seq<u8>) -> u32;

/// Relies on crc32fast::Hasher::new: a hasher that has seen no input yet.
#[verifier::external_body]
pub(crate) fn hasher_new() -> (h: crc32fast::Hasher)
    ensures
        hasher_fed(h) == Seq::<u8>::empty(),
{
    crc32fast::Hasher::new()
}

/// Relies on crc32fast::Hasher::update: folds the bytes into the running
/// state, after everything fed before.
#[verifier::external_body]
pub(crate) fn hasher_update(h: &mut crc32fast::Hasher, data: &[u8])
    requires
        hasher_fed(*old(h)).len() + data@.len() <= u64::MAX,
    ensures
        hasher_fed(*final(h)) == hasher_fed(*old(h)) + data@,
{
    h.update(data)
}

/// Relies on crc32fast::Hasher::finalize: the CRC-32 of everything fed in.
#[verifier::external_body]
pub(crate) fn hasher_finalize(h: crc32fast::Hasher) -> (r: u32)
    ensures
        r == crc32_of(hasher_fed(h)),
{
    h.finalize()
}

/// The nibble of `x` rendered at position `i` of its 8-digit hex form.
pub open spec fn spec_nibble(x: u32, i: int) -> u8 {
    ((x >> (((7 - i) * 4) as u32)) & 0xf) as u8
}

/// One hex nibble as a lowercase ASCII byte.
pub open spec fn hex_digit_byte(n: u8) -> u8 {
    if n < 10 {
        (48 + n) as u8
    } else {
        (87 + n) as u8
    }
}

/// The 8 lowercase hex digits of `x`, most significant first, as ASCII bytes.
pub open spec fn hex8_bytes(x: u32) -> Seq<u8> {
    Seq::new(8, |i: int| hex_digit_byte(spec_nibble(x, i)))
}

/// The same digits as characters.
pub open spec fn hex8_chars(x: u32) -> Seq<char> {
    hex8_bytes(x).map_values(|b: u8| b as char)
}

/// Masking with `0xf` keeps a value below 16.
proof fn lemma_nibble_bound(x: u32, sh: u32)
    ensures
        ((x >> sh) & 0xf) < 16,
{
    assert(((x >> sh) & 0xf) < 16) by (bit_vector);
}

/// Every byte of the hex rendering is a lowercase ASCII letter or digit.
pub proof fn lemma_hex8_ascii(x: u32)
    ensures
        forall|i: int|
            0 <= i < 8 ==> alnum_byte(#[trigger] hex8_bytes(x)[i]) && lower_byte(hex8_bytes(x)[i])
                == hex8_bytes(x)[i] && hex8_bytes(x)[i] < 0x80,
        lower_bytes(hex8_bytes(x)) == hex8_bytes(x),
{
    assert forall|i: int| 0 <= i < 8 implies alnum_byte(#[trigger] hex8_bytes(x)[i]) && lower_byte(
        hex8_bytes(x)[i],
    ) == hex8_bytes(x)[i] && hex8_bytes(x)[i] < 0x80 by {
        let sh = (((7 - i) * 4) as u32);
        lemma_nibble_bound(x, sh);
        assert(spec_nibble(x, i) < 16);
    }
    assert(lower_bytes(hex8_bytes(x)) =~= hex8_bytes(x));
}

/// The 8 lowercase hex digits of `x` as ASCII bytes, most significant first.
pub fn crc_hex_bytes(x: u32) -> (r: Vec<u8>)
    ensures
        r@ == hex8_bytes(x),
{
    let mut r: Vec<u8> = Vec::new();
    let mut i: usize = 0;
    while i < 8
        invariant
            i <= 8,
            r@ == hex8_bytes(x).take(i as int),
        decreases 8 - i,
    {
        let sh: u32 = (7 - i as u32) * 4;
        proof {
            assert(sh == (((7 - (i as int)) * 4) as u32));
            lemma_nibble_bound(x, sh);
        }
        let nib: u8 = ((x >> sh) & 0xf) as u8;
        assert(nib == spec_nibble(x, i as int));
        assert(nib < 16);
        let digit: u8 = if nib < 10 {
            48 + nib
        } else {
            87 + nib
        };
        r.push(digit);
        assert(hex8_bytes(x).take(i + 1) == hex8_bytes(x).take(i as int).push(
            hex8_bytes(x)[i as int]));
        i += 1;
    }
    assert(hex8_bytes(x).take(8) == hex8_bytes(x));
    r
}

/// The 8-digit lowercase hex string of a checksum value.
pub fn crc_hex_string(x: u32) -> (r: String)
    ensures
        r@ == hex8_chars(x),
{
    let bytes = crc_hex_bytes(x);
    proof {
        lemma_hex8_ascii(x);
    }
    ascii_to_string(bytes)
}

} // verus!
