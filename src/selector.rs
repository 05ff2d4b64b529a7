use vstd::prelude::*;
use vstd::string::StringSliceAdditionalSpecFns;

verus! {

/// The 32-byte BLAKE2b digest of a byte string.
pub uninterp spec fn blake2b_256_of(data: Seq<u8>) -> Seq<u8>;

/// The 4-byte selector that routes a call to the entry point named `name`.
pub open spec fn selector_of(name: Seq<u8>) -> Seq<u8> {
    blake2b_256_of(name).take(4)
}

/// Relies on blake2_rfc's `Blake2b` (`new(32)`, `update`, `finalize`,
/// `as_bytes`): the unkeyed 32-byte BLAKE2b digest, a function of the input
/// bytes alone.
#[verifier::external_body]
fn blake2b_256(data: &[u8]) -> (r: Vec<u8>)
    ensures
        r@ == blake2b_256_of(data@),
        r@.len() == 32,
{
    let mut hasher = blake2_rfc::blake2b::Blake2b::new(32);
    hasher.update(data);
    hasher.finalize().as_bytes().to_vec()
}

/// Cuts a selector out of a digest: its first four bytes.
pub fn selector_from_digest(digest: &[u8]) -> (r: [u8; 4])
    requires
        digest@.len() >= 4,
    ensures
        r@ == digest@.take(4),
{
    let r = [digest[0], digest[1], digest[2], digest[3]];
    assert(r@ =~= digest@.take(4));
    r
}

/// The selector of the entry point `function_name`: the first four bytes of
/// the BLAKE2b-256 digest of its UTF-8 bytes.
pub fn calculate_selector(function_name: &str) -> (r: [u8; 4])
    ensures
        r@ == selector_of(function_name.spec_bytes()),
{
    let digest = blake2b_256(function_name.as_bytes());
    selector_from_digest(digest.as_slice())
}

} // verus!
