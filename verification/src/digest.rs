//! SHA-256 and hexadecimal text, as the `sha2` and `hex` crates compute them.
//!
//! These two calls are the only part of a block's hash that is taken on trust:
//! the bytes that are hashed are assembled by verified code.

use sha2::Digest;
use vstd::prelude::*;

verus! {

/// The SHA-256 digest of a byte string.
pub uninterp spec fn sha256(data: Seq<u8>) -> Seq<u8>;

/// The lower-case hexadecimal digit for `d`.
pub open spec fn hex_digit(d: nat) -> char {
    if d < 10 {
        ('0' as nat + d) as char
    } else {
        ('a' as nat + (d - 10)) as char
    }
}

/// Two lower-case hexadecimal digits for each byte, the high half first.
pub open spec fn lower_hex(data: Seq<u8>) -> Seq<char>
    decreases data.len(),
{
    if data.len() == 0 {
        Seq::empty()
    } else {
        lower_hex(data.drop_last()).push(hex_digit(data.last() as nat / 16)).push(
            hex_digit(data.last() as nat % 16),
        )
    }
}

/// The number of bytes in a SHA-256 digest.
pub const DIGEST_BYTES: usize = 32;

/// `sha2::Sha256::digest`: the SHA-256 digest of `data`. The digest is a
/// function of the bytes alone, and it has 32 bytes; nothing else is claimed
/// of it.
#[verifier::external_body]
pub(crate) fn sha256_digest(data: &[u8]) -> (out: Vec<u8>)
    ensures
        out@ == sha256(data@),
        out@.len() == DIGEST_BYTES,
{
    sha2::Sha256::digest(data).to_vec()
}

/// `hex::encode`: each byte of `data` as two digits out of
/// `0123456789abcdef`, the high four bits first, in the order of the bytes.
#[verifier::external_body]
pub(crate) fn hex_encode(data: &[u8]) -> (text: String)
    ensures
        text@ == lower_hex(data@),
{
    hex::encode(data)
}

/// The text form of a digest: its bytes in lower-case hexadecimal.
pub fn digest_text(digest: &Vec<u8>) -> (text: String)
    ensures
        text@ == lower_hex(digest@),
{
    hex_encode(digest.as_slice())
}

/// Each byte gives two characters.
pub proof fn lemma_lower_hex_len(data: Seq<u8>)
    ensures
        lower_hex(data).len() == 2 * data.len(),
    decreases data.len(),
{
    if data.len() > 0 {
        lemma_lower_hex_len(data.drop_last());
    }
}

/// Hexadecimal text determines the bytes it was written from.
pub proof fn lemma_lower_hex_injective(a: Seq<u8>, b: Seq<u8>)
    requires
        lower_hex(a) == lower_hex(b),
    ensures
        a == b,
    decreases a.len(),
{
    lemma_lower_hex_len(a);
    lemma_lower_hex_len(b);
    if a.len() > 0 {
        let ha = lower_hex(a.drop_last());
        let hb = lower_hex(b.drop_last());
        let x = a.last() as nat;
        let y = b.last() as nat;
        lemma_lower_hex_len(a.drop_last());
        lemma_lower_hex_len(b.drop_last());
        let la = lower_hex(a);
        let lb = lower_hex(b);
        assert(la[la.len() - 1] == hex_digit(x % 16));
        assert(la[la.len() - 2] == hex_digit(x / 16));
        assert(lb[lb.len() - 1] == hex_digit(y % 16));
        assert(lb[lb.len() - 2] == hex_digit(y / 16));
        lemma_hex_digit_injective(x % 16, y % 16);
        lemma_hex_digit_injective(x / 16, y / 16);
        assert(ha =~= la.subrange(0, la.len() - 2));
        assert(hb =~= lb.subrange(0, lb.len() - 2));
        lemma_lower_hex_injective(a.drop_last(), b.drop_last());
        assert(a =~= a.drop_last().push(a.last()));
        assert(b =~= b.drop_last().push(b.last()));
    } else {
        assert(a =~= b);
    }
}

/// The sixteen hexadecimal digits differ.
pub proof fn lemma_hex_digit_injective(x: nat, y: nat)
    requires
        x < 16,
        y < 16,
        hex_digit(x) == hex_digit(y),
    ensures
        x == y,
{
}

} // verus!
