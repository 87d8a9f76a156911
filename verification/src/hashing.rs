//! The content-addressing primitive: a 256-bit digest over a byte-string
//! concatenation of context bytes and content bytes. Identity of documents
//! and chunks is a pure function of observable content, so two runs over
//! byte-identical inputs produce byte-identical identifiers.

use sha2::Digest;
use vstd::prelude::*;

verus! {

/// The 32-byte digest that SHA-256 assigns to a byte string. Uninterpreted:
/// it stands for a fixed pure function of the bytes alone.
pub uninterp spec fn sha256_of(data: Seq<u8>) -> Seq<u8>;

/// Relies on sha2::Sha256 through the Digest trait: repeated `update` calls
/// hash the concatenation of the fed slices, and `finalize` returns the
/// 32-byte digest, a function of the input bytes alone.
#[verifier::external_body]
pub(crate) fn sha256_pair(context: &[u8], content: &[u8]) -> (r: [u8; 32])
    ensures
        r@ == sha256_of(context@ + content@),
{
    let mut hash = sha2::Sha256::new();
    hash.update(context);
    hash.update(content);
    hash.finalize().into()
}

} // verus!
