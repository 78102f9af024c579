//! Small helpers the vault core leans on: random identifiers, the password
//! hash, the current time, and ASCII decoding.
use vstd::prelude::*;

use crate::text::alnum_byte;

verus! {

/// An ASCII letter or digit.
pub open spec fn alnum_char(c: char) -> bool {
    alnum_byte(c as u8) && (c as u32) < 0x80
}

/// Every character of the string is an ASCII letter or digit.
pub open spec fn alnum_chars(s: Seq<char>) -> bool {
    forall|i: int| 0 <= i < s.len() ==> alnum_char(#[trigger] s[i])
}

/// Relies on rand's `Alphanumeric` distribution: `sample_string` appends
/// exactly `len` bytes, each an ASCII letter or digit.
#[verifier::external_body]
pub fn random_string(len: usize) -> (r: String)
    ensures
        r@.len() == len,
        alnum_chars(r@),
{
    rand::distr::SampleString::sample_string(&rand::distr::Alphanumeric, &mut rand::rng(), len)
}

/// The lowercase hex SHA-512 digest of a character sequence (as UTF-8).
pub uninterp spec fn sha512_hex_of(data: Seq<char>) -> Seq<char>;

/// Relies on sha2::Sha512: feeding the parts one by one digests their
/// concatenation; the 64-byte digest is rendered as 128 lowercase hex
/// digits.
#[verifier::external_body]
pub fn sha512(s: &[&str]) -> (r: String)
    ensures
        r@ == sha512_hex_of(concat_str_views(s@)),
        r@.len() == 128,
        forall|i: int| 0 <= i < r@.len() ==> crate::text::hex_char(#[trigger] r@[i]),
{
    let mut hasher = <sha2::Sha512 as sha2::Digest>::new();
    for part in s {
        sha2::Digest::update(&mut hasher, part.as_bytes());
    }
    let digest = sha2::Digest::finalize(hasher);
    let mut out = String::with_capacity(128);
    for byte in digest {
        out.push_str(&format!("{:02x}", byte));
    }
    out
}

/// The concatenation of the views of a sequence of string slices.
pub open spec fn concat_str_views(parts: Seq<&str>) -> Seq<char>
    decreases parts.len(),
{
    if parts.len() == 0 {
        Seq::empty()
    } else {
        concat_str_views(parts.drop_last()) + parts.last()@
    }
}

/// The salted password hash stored for a user: the SHA-512 digest of the
/// username followed by the password.
pub fn hash_pw(username: &str, pass: &str) -> (r: String)
    ensures
        r@ == sha512_hex_of(username@ + pass@),
        r@.len() == 128,
        forall|i: int| 0 <= i < r@.len() ==> crate::text::hex_char(#[trigger] r@[i]),
{
    let mut parts: Vec<&str> = Vec::new();
    parts.push(username);
    parts.push(pass);
    let r = sha512(parts.as_slice());
    proof {
        let ps = parts@;
        assert(ps.drop_last() =~= seq![username]);
        assert(ps.drop_last().drop_last() =~= Seq::<&str>::empty());
        assert(concat_str_views(ps.drop_last()) == concat_str_views(seq![username].drop_last())
            + username@);
        assert(concat_str_views(ps) =~= username@ + pass@);
    }
    r
}

/// Relies on chrono::Utc::now: the current time as Unix seconds.  Nothing
/// can be promised of the clock's reading.
#[verifier::external_body]
pub(crate) fn now_epoch() -> i64 {
    chrono::Utc::now().timestamp()
}

/// Relies on String::from_utf8: ASCII bytes decode to exactly those
/// characters.
#[verifier::external_body]
pub(crate) fn ascii_to_string(bytes: Vec<u8>) -> (r: String)
    requires
        forall|i: int| 0 <= i < bytes@.len() ==> bytes@[i] < 0x80,
    ensures
        r@ == bytes@.map_values(|b: u8| b as char),
{
    String::from_utf8(bytes).unwrap_or_default()
}

} // verus!
