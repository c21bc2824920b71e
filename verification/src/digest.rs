//! Integrity digests: the MD5 of a payload's bytes, written as lowercase hex.
//!
//! The digest detects accidental corruption. It is no defence against an
//! adversary.

use md5::Digest;
use vstd::prelude::*;
use vstd::utf8::encode_utf8;

verus! {

/// Number of bytes in a digest.
pub const DIGEST_BYTES: usize = 16;

/// Number of characters in the text form of a digest.
pub const CHECKSUM_CHARS: usize = 32;

/// The MD5 digest of `data`, as the `md-5` crate computes it.
pub uninterp spec fn md5_digest(data: Seq<u8>) -> Seq<u8>;

/// The lowercase hex digit that stands for `nibble`, for `0 <= nibble < 16`.
pub open spec fn hex_digit(nibble: int) -> char {
    if nibble < 10 {
        ('0' as int + nibble) as char
    } else {
        ('a' as int + (nibble - 10)) as char
    }
}

/// Whether `c` is one of `0`..`9`, `a`..`f`.
pub open spec fn is_lower_hex(c: char) -> bool {
    ('0' <= c && c <= '9') || ('a' <= c && c <= 'f')
}

/// Whether `text` is made of the digits `0`..`9`, `a`..`f` only.
pub open spec fn is_lower_hex_text(text: Seq<char>) -> bool {
    forall|i: int| 0 <= i < text.len() ==> is_lower_hex(#[trigger] text[i])
}

/// Lowercase hex text of `data`: two digits per byte, the high half first.
pub open spec fn hex_lower(data: Seq<u8>) -> Seq<char> {
    Seq::new(
        2 * data.len(),
        |i: int|
            if i % 2 == 0 {
                hex_digit(data[i / 2] as int / 16)
            } else {
                hex_digit(data[i / 2] as int % 16)
            },
    )
}

/// The checksum text of a payload: the hex form of the MD5 of its UTF-8 bytes.
pub open spec fn content_checksum(content: Seq<char>) -> Seq<char> {
    hex_lower(md5_digest(encode_utf8(content)))
}

/// Trusted: `md5::Md5::digest` (the `Digest` trait of the `md-5` crate), copied
/// into a vector. The result is the MD5 of `data`, which this library only
/// names, and it is always 16 bytes long, the crate's fixed output size.
#[verifier::external_body]
pub(crate) fn md5_of(data: &[u8]) -> (out: Vec<u8>)
    ensures
        out@ == md5_digest(data@),
        out@.len() == DIGEST_BYTES,
{
    md5::Md5::digest(data).to_vec()
}

/// Trusted: `hex::encode`. Each byte becomes two characters taken from
/// `0123456789abcdef`, the high four bits first.
#[verifier::external_body]
pub(crate) fn hex_encode(data: &[u8]) -> (text: String)
    ensures
        text@ == hex_lower(data@),
{
    hex::encode(data)
}

/// Distinct nibbles have distinct digits.
pub proof fn lemma_hex_digit_injective(a: int, b: int)
    requires
        0 <= a < 16,
        0 <= b < 16,
        hex_digit(a) == hex_digit(b),
    ensures
        a == b,
{
    assert(hex_digit(a) as int == if a < 10 {
        '0' as int + a
    } else {
        'a' as int + (a - 10)
    });
    assert(hex_digit(b) as int == if b < 10 {
        '0' as int + b
    } else {
        'a' as int + (b - 10)
    });
}

/// Hex text is twice as long as the data and holds lowercase hex digits only.
pub proof fn lemma_hex_lower_shape(data: Seq<u8>)
    ensures
        hex_lower(data).len() == 2 * data.len(),
        is_lower_hex_text(hex_lower(data)),
{
    assert forall|i: int| 0 <= i < hex_lower(data).len() implies is_lower_hex(
        #[trigger] hex_lower(data)[i],
    ) by {
        let byte = data[i / 2] as int;
        let nibble = if i % 2 == 0 {
            byte / 16
        } else {
            byte % 16
        };
        assert(0 <= nibble < 16);
        assert(hex_lower(data)[i] == hex_digit(nibble));
        assert(hex_digit(nibble) as int == if nibble < 10 {
            '0' as int + nibble
        } else {
            'a' as int + (nibble - 10)
        });
    }
}

/// Two byte strings with the same hex text are the same byte string.
pub proof fn lemma_hex_lower_injective(a: Seq<u8>, b: Seq<u8>)
    requires
        hex_lower(a) == hex_lower(b),
    ensures
        a == b,
{
    assert(hex_lower(a).len() == 2 * a.len());
    assert(hex_lower(b).len() == 2 * b.len());
    assert(a.len() == b.len());
    assert forall|k: int| 0 <= k < a.len() implies a[k] == b[k] by {
        let hi_a = a[k] as int / 16;
        let hi_b = b[k] as int / 16;
        let lo_a = a[k] as int % 16;
        let lo_b = b[k] as int % 16;
        assert(hex_lower(a)[2 * k] == hex_digit(hi_a));
        assert(hex_lower(b)[2 * k] == hex_digit(hi_b));
        assert(hex_lower(a)[2 * k + 1] == hex_digit(lo_a));
        assert(hex_lower(b)[2 * k + 1] == hex_digit(lo_b));
        lemma_hex_digit_injective(hi_a, hi_b);
        lemma_hex_digit_injective(lo_a, lo_b);
    }
    assert(a =~= b);
}

/// The text form of a digest that has already been computed.
pub fn checksum_text(digest: &[u8]) -> (text: String)
    ensures
        text@ == hex_lower(digest@),
        text@.len() == 2 * digest@.len(),
        is_lower_hex_text(text@),
{
    proof {
        lemma_hex_lower_shape(digest@);
    }
    hex_encode(digest)
}

/// Computes the checksum text of `content`: 32 lowercase hex digits.
pub fn checksum_of(content: &str) -> (text: String)
    ensures
        text@ == content_checksum(content@),
        text@.len() == CHECKSUM_CHARS,
        is_lower_hex_text(text@),
{
    let digest = md5_of(content.as_bytes());
    checksum_text(digest.as_slice())
}

} // verus!
