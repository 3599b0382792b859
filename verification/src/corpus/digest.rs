//! SHA-256 digests, and the identifiers and checks made from them.

use crate::corpus::error::CorpusError;
use crate::text::{hex, hex_lower};
use sha2::Digest;
use sha2::Sha256;
use vstd::prelude::*;
use vstd::utf8::encode_utf8;

verus! {

/// The SHA-256 digest of `bytes`.
pub uninterp spec fn sha256(bytes: Seq<u8>) -> Seq<u8>;

/// `Sha256::digest` of the `sha2` crate gives the SHA-256 digest of its input: a function of the
/// bytes alone, thirty-two bytes long.
#[verifier::external_body]
fn sha256_digest(bytes: &[u8]) -> (digest: Vec<u8>)
    ensures
        digest@ == sha256(bytes@),
        digest@.len() == 32,
{
    Sha256::digest(bytes).to_vec()
}

/// `bytes` read as a number, most significant byte first.
pub open spec fn big_endian(bytes: Seq<u8>) -> nat
    decreases bytes.len(),
{
    if bytes.len() == 0 {
        0
    } else {
        big_endian(bytes.drop_last()) * 256 + bytes.last() as nat
    }
}

/// The identifier of a text: the first sixteen bytes of its SHA-256 digest, big-endian.
pub open spec fn text_id(text: Seq<char>) -> u128 {
    big_endian(sha256(encode_utf8(text)).take(16)) as u128
}

spec fn power256(n: nat) -> nat
    decreases n,
{
    if n == 0 {
        1
    } else {
        256 * power256((n - 1) as nat)
    }
}

proof fn lemma_power256_grows(a: nat, b: nat)
    requires
        a <= b,
    ensures
        power256(a) <= power256(b),
    decreases b,
{
    if a < b {
        lemma_power256_grows(a, (b - 1) as nat);
    }
}

/// The identifier of `text`.
pub fn derive_id(text: &str) -> (id: u128)
    ensures
        id == text_id(text@),
{
    let digest = sha256_digest(text.as_bytes());
    let mut id: u128 = 0;
    let mut i: usize = 0;
    proof {
        reveal_with_fuel(power256, 17);
    }
    while i < 16
        invariant
            i <= 16,
            digest@.len() == 32,
            digest@ == sha256(encode_utf8(text@)),
            id == big_endian(digest@.take(i as int)),
            id < power256(i as nat),
            power256(16) == u128::MAX + 1,
        decreases 16 - i,
    {
        proof {
            lemma_power256_grows((i + 1) as nat, 16);
            assert(digest@.take(i + 1).drop_last() =~= digest@.take(i as int));
        }
        id = id * 256 + digest[i] as u128;
        i = i + 1;
    }
    id
}

/// Checks that `bytes` have the digest that is written in `expected` as lower-case hexadecimal.
pub fn verify_sha256(bucket: &str, key: &str, bytes: &[u8], expected: &str) -> (r: Result<
    (),
    CorpusError,
>)
    ensures
        r is Ok <==> hex(sha256(bytes@)) == expected@,
        r matches Err(e) ==> {
            &&& e matches CorpusError::Sha256Mismatch {
                bucket: b,
                key: k,
                expected: wanted,
                actual,
            }
            &&& b@ == bucket@
            &&& k@ == key@
            &&& wanted@ == expected@
            &&& actual@ == hex(sha256(bytes@))
        },
{
    let digest = sha256_digest(bytes);
    let actual = hex_lower(digest.as_slice());
    let wanted = expected.to_owned();
    if actual != wanted {
        return Err(
            CorpusError::Sha256Mismatch {
                bucket: bucket.to_owned(),
                key: key.to_owned(),
                expected: wanted,
                actual,
            },
        );
    }
    Ok(())
}

} // verus!
