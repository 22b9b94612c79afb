//! SHA-256 digests (from `sha2`) and their lower-case hexadecimal form.
use vstd::prelude::*;

use sha2::Digest;

verus! {

/// The SHA-256 digest of `data`, as `sha2::Sha256::digest` computes it.
pub uninterp spec fn sha256_digest(data: Seq<u8>) -> Seq<u8>;

/// Calls `sha2::Sha256::digest`; the result is the named digest of `data`,
/// 32 bytes long as the output size of SHA-256 is.
#[verifier::external_body]
pub(crate) fn sha256(data: &[u8]) -> (r: Vec<u8>)
    ensures
        r@ == sha256_digest(data@),
        r@.len() == 32,
{
    sha2::Sha256::digest(data).to_vec()
}

/// The lower-case hexadecimal digit for `d` (0 to 15).
pub open spec fn hex_digit_char(d: int) -> char {
    if d < 10 {
        (('0' as int) + d) as char
    } else {
        (('a' as int) + d - 10) as char
    }
}

/// Bytes as lower-case hexadecimal, two digits per byte, most significant first.
pub open spec fn hex_lower(bytes: Seq<u8>) -> Seq<char>
    decreases bytes.len(),
{
    if bytes.len() == 0 {
        Seq::empty()
    } else {
        hex_lower(bytes.drop_last()).push(hex_digit_char((bytes.last() / 16) as int)).push(
            hex_digit_char((bytes.last() % 16) as int),
        )
    }
}

fn hex_digit(d: u8) -> (c: char)
    requires
        d < 16,
    ensures
        c == hex_digit_char(d as int),
{
    let digits: [char; 16] = [
        '0', '1', '2', '3', '4', '5', '6', '7', '8', '9', 'a', 'b', 'c', 'd', 'e', 'f',
    ];
    let c = digits[d as usize];
    assert(c == hex_digit_char(d as int)) by {
        assert(digits@ =~= seq![
            '0', '1', '2', '3', '4', '5', '6', '7', '8', '9', 'a', 'b', 'c', 'd', 'e', 'f',
        ]);
    }
    c
}

/// Lower-case hexadecimal form of `bytes`.
pub fn to_hex(bytes: &[u8]) -> (r: Vec<char>)
    ensures
        r@ == hex_lower(bytes@),
{
    let mut r: Vec<char> = Vec::new();
    let mut i: usize = 0;
    while i < bytes.len()
        invariant
            i <= bytes@.len(),
            r@ == hex_lower(bytes@.take(i as int)),
        decreases bytes@.len() - i,
    {
        let b = bytes[i];
        r.push(hex_digit(b / 16));
        r.push(hex_digit(b % 16));
        assert(bytes@.take(i + 1).drop_last() =~= bytes@.take(i as int));
        i += 1;
    }
    assert(bytes@.take(bytes@.len() as int) =~= bytes@);
    r
}

/// `"sha256:"` followed by the hexadecimal digest of `data`.
pub open spec fn spec_content_hash(data: Seq<u8>) -> Seq<char> {
    "sha256:"@ + hex_lower(sha256_digest(data))
}

/// The content hash of `data`, in the form `sha256:<hex>`.
pub fn content_hash(data: &[u8]) -> (r: Vec<char>)
    ensures
        r@ == spec_content_hash(data@),
{
    let digest = sha256(data);
    let hex = to_hex(digest.as_slice());
    crate::text::concat2(crate::text::chars_of("sha256:").as_slice(), hex.as_slice())
}

/// The hexadecimal form has two digits per byte.
pub proof fn lemma_hex_lower_len(bytes: Seq<u8>)
    ensures
        hex_lower(bytes).len() == 2 * bytes.len(),
    decreases bytes.len(),
{
    if bytes.len() > 0 {
        lemma_hex_lower_len(bytes.drop_last());
    }
}

/// A content hash computed by [`content_hash`] is `sha256:` followed by the 64
/// hexadecimal digits of a 32-byte digest.
pub proof fn lemma_content_hash_shape(data: Seq<u8>, computed: Seq<char>)
    requires
        computed == spec_content_hash(data),
        sha256_digest(data).len() == 32,
    ensures
        computed.len() == 71,
        computed.take(7) == "sha256:"@,
{
    lemma_hex_lower_len(sha256_digest(data));
    reveal_strlit("sha256:");
    assert(computed.take(7) =~= "sha256:"@);
}

} // verus!
