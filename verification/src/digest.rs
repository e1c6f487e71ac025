//! Content digests: `sha256:` and the lower-case hexadecimal SHA-256 of the bytes.
use crate::routes::is_without;
use crate::text::has_prefix;
use hex::ToHex;
use sha2::Digest;
use vstd::prelude::*;

verus! {

/// What every digest in the registry begins with.
pub const DIGEST_PREFIX: &'static str = "sha256:";

/// The hexadecimal digit for a value under sixteen, in lower case.
pub open spec fn hex_digit(value: int) -> char {
    if value < 10 {
        (value + '0' as int) as char
    } else {
        (value - 10 + 'a' as int) as char
    }
}

pub open spec fn is_hex_digit(c: char) -> bool {
    '0' <= c <= '9' || 'a' <= c <= 'f'
}

/// `text` has the form of a SHA-256 in hexadecimal.
pub open spec fn is_hash(text: Seq<char>) -> bool {
    text.len() == 64 && forall|i: int| 0 <= i < text.len() ==> is_hex_digit(#[trigger] text[i])
}

/// Two lower-case hexadecimal digits for each byte, the high half first.
pub open spec fn lower_hex(bytes: Seq<u8>) -> Seq<char> {
    Seq::new(
        2 * bytes.len(),
        |i: int|
            if i % 2 == 0 {
                hex_digit(bytes[i / 2] as int / 16)
            } else {
                hex_digit(bytes[i / 2] as int % 16)
            },
    )
}

/// The SHA-256 of `bytes`, as the `sha2` crate computes it.
pub uninterp spec fn sha256_of(bytes: Seq<u8>) -> [u8; 32];

/// The SHA-256 of `bytes` in hexadecimal, the name of the file that holds them.
pub open spec fn hash_of(bytes: Seq<u8>) -> Seq<char> {
    lower_hex(sha256_of(bytes)@)
}

/// The digest by which `bytes` are asked for.
pub open spec fn digest_of(bytes: Seq<u8>) -> Seq<char> {
    DIGEST_PREFIX@ + hash_of(bytes)
}

/// Calls `new`, `update` and `finalize` of `sha2::Sha256`: a fresh hasher, fed `bytes` once. The
/// result depends on the bytes alone.
#[verifier::external_body]
fn sha256(bytes: &[u8]) -> (hash: [u8; 32])
    ensures
        hash == sha256_of(bytes@),
{
    let mut hasher = sha2::Sha256::new();
    hasher.update(bytes);
    hasher.finalize().into()
}

/// Calls `hex::ToHex::encode_hex`: two lower-case digits for each byte, in order.
#[verifier::external_body]
fn encode_hex(bytes: &[u8]) -> (text: String)
    ensures
        text@ == lower_hex(bytes@),
{
    bytes.encode_hex::<String>()
}

/// The SHA-256 of `bytes` in hexadecimal, the name of the file that holds them.
pub fn content_hash(bytes: &[u8]) -> (hash: String)
    ensures
        hash@ == hash_of(bytes@),
{
    let hash = sha256(bytes);
    encode_hex(&hash)
}

/// A hash consists of sixty-four lower-case hexadecimal digits.
pub proof fn hash_is_hexadecimal(bytes: Seq<u8>)
    ensures
        is_hash(hash_of(bytes)),
{
}

/// A digest holds neither slashes nor line breaks, and begins with its prefix.
pub proof fn digest_is_plain(bytes: Seq<u8>)
    ensures
        has_prefix(digest_of(bytes), DIGEST_PREFIX@),
        digest_of(bytes).skip(DIGEST_PREFIX@.len() as int) == hash_of(bytes),
        is_without(digest_of(bytes), '/'),
        is_without(digest_of(bytes), '\n'),
        digest_of(bytes).len() > 0,
{
    let digest = digest_of(bytes);
    let hash = hash_of(bytes);
    hash_is_hexadecimal(bytes);
    assert(DIGEST_PREFIX@ =~= seq!['s', 'h', 'a', '2', '5', '6', ':']) by {
        reveal_strlit("sha256:");
    }
    assert(digest.subrange(0, 7) =~= DIGEST_PREFIX@);
    assert(digest.skip(7) =~= hash);
    assert forall|i: int| 0 <= i < digest.len() implies #[trigger] digest[i] != '/' && digest[i]
        != '\n' by {
        if i >= 7 {
            assert(digest[i] == hash[i - 7] && is_hex_digit(hash[i - 7]));
        }
    }
}

/// Bytes are written with two digits each, the first for the sixteens and the second for the ones;
/// a hash is the SHA-256 so written, and a digest is `sha256:` and the hash.
pub proof fn bytes_are_written_in_pairs(bytes: Seq<u8>, content: Seq<u8>, i: int)
    requires
        0 <= i < bytes.len(),
    ensures
        lower_hex(bytes).len() == 2 * bytes.len(),
        lower_hex(bytes)[2 * i] == "0123456789abcdef"@[bytes[i] as int / 16],
        lower_hex(bytes)[2 * i + 1] == "0123456789abcdef"@[bytes[i] as int % 16],
        hash_of(content) == lower_hex(sha256_of(content)@),
        digest_of(content) == "sha256:"@ + lower_hex(sha256_of(content)@),
{
    reveal_strlit("0123456789abcdef");
    assert((2 * i) / 2 == i && (2 * i) % 2 == 0);
    assert((2 * i + 1) / 2 == i && (2 * i + 1) % 2 == 1);
}

/// A text has the form of a hash just where it is sixty-four of the sixteen digits.
pub proof fn hash_form_is_sixty_four_digits(text: Seq<char>)
    ensures
        is_hash(text) <==> text.len() == 64 && forall|i: int|
            0 <= i < text.len() ==> "0123456789abcdef"@.contains(#[trigger] text[i]),
{
    reveal_strlit("0123456789abcdef");
    let digits = "0123456789abcdef"@;
    assert forall|i: int| 0 <= i < text.len() implies is_hex_digit(text[i]) == digits.contains(
        #[trigger] text[i],
    ) by {
        let c = text[i];
        if '0' <= c <= '9' {
            assert(digits[c as int - '0' as int] == c);
        } else if 'a' <= c <= 'f' {
            assert(digits[c as int - 'a' as int + 10] == c);
        }
    }
}

} // verus!
