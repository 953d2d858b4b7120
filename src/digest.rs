//! The digest provider.
use vstd::prelude::*;
use sha2::Digest;

verus! {

/// The digest of a canonical text.
pub uninterp spec fn digest_of(text: Seq<char>) -> Seq<char>;

/// Relies on `sha2::Sha256::digest` over the text's UTF-8 bytes, printed as
/// lowercase hex: the result depends on the text alone.
#[verifier::external_body]
pub(crate) fn digest_text(text: &str) -> (r: String)
    ensures
        r@ == digest_of(text@),
{
    format!("{:x}", sha2::Sha256::digest(text.as_bytes()))
}

} // verus!
