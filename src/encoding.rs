//! Rendering of poll identifiers.

use vstd::prelude::*;

verus! {

/// The Base58 text (Bitcoin alphabet) of a byte sequence.
pub uninterp spec fn base58_of(bytes: Seq<u8>) -> Seq<char>;

/// Relies on `bs58::encode(..).into_string()`: it renders the bytes in Base58
/// with the Bitcoin alphabet, and the text depends on the bytes alone.
#[verifier::external_body]
pub(crate) fn base58(bytes: &Vec<u8>) -> (r: String)
    ensures
        r@ == base58_of(bytes@),
{
    bs58::encode(bytes).into_string()
}

} // verus!
