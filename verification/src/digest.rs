use crate::bytes::twenty_at;
use crate::error::Error;
use crate::hex::{decode_hex, encode_hex, hex_of, is_hex, lemma_unhex_hex_of, unhex};
use sha1::Digest;
use vstd::prelude::*;

verus! {

/// The SHA-1 digest of `data`: twenty bytes.
pub uninterp spec fn sha1_of(data: Seq<u8>) -> Seq<u8>;

/// Runs `sha1::Sha1` over `data`: a fresh hasher, one `update`, then
/// `finalize`. Trusted, not proved: the twenty bytes that come back depend
/// on `data` alone; they are its SHA-1 digest.
#[verifier::external_body]
fn sha1_bytes(data: &[u8]) -> (out: [u8; 20])
    ensures
        out@ == sha1_of(data@),
{
    let mut hasher = sha1::Sha1::new();
    hasher.update(data);
    hasher.finalize().into()
}

/// The digest of `bytes`, which are an object's frame: header and content.
pub fn digest(bytes: &[u8]) -> (out: [u8; 20])
    ensures
        out@ == sha1_of(bytes@),
{
    sha1_bytes(bytes)
}

/// The digest as forty lower-case hexadecimal digits.
pub fn to_hex(digest: &[u8; 20]) -> (text: String)
    ensures
        text@ == hex_of(digest@),
        text@.len() == 40,
{
    encode_hex(digest.as_slice())
}

/// The digest that forty hexadecimal digits stand for, `None` for any
/// other text.
pub open spec fn digest_of_hex(text: Seq<char>) -> Option<Seq<u8>> {
    if text.len() == 40 && is_hex(text) {
        Some(unhex(text))
    } else {
        None
    }
}

/// Reads a digest from its hexadecimal text. Text that is not forty
/// hexadecimal digits is an invalid argument.
pub fn from_hex(text: &str) -> (r: Result<[u8; 20], Error>)
    ensures
        match r {
            Ok(digest) => digest_of_hex(text@) == Some(digest@),
            Err(e) => digest_of_hex(text@) is None && e == Error::InvalidArgument,
        },
{
    match decode_hex(text) {
        Ok(bytes) => {
            if bytes.len() != 20 {
                return Err(Error::InvalidArgument);
            }
            let out = twenty_at(bytes.as_slice(), 0);
            assert(out@ =~= bytes@);
            Ok(out)
        },
        Err(e) => Err(e),
    }
}

/// Reading the text of a digest gives the digest back.
pub proof fn lemma_from_hex_to_hex(digest: Seq<u8>)
    requires
        digest.len() == 20,
    ensures
        digest_of_hex(hex_of(digest)) == Some(digest),
{
    lemma_unhex_hex_of(digest);
}

/// The digest depends on the bytes alone: equal bytes have equal digests.
pub proof fn lemma_digest_deterministic(a: Seq<u8>, b: Seq<u8>)
    requires
        a == b,
    ensures
        sha1_of(a) == sha1_of(b),
{
}

} // verus!
