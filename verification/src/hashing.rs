//! The 64-bit digest used for catalog keys and branch identities.

use vstd::prelude::*;
use vstd::string::StringSliceAdditionalSpecFns;

verus! {

/// The SipHash-2-4 digest (zero keys) of a byte sequence.
pub uninterp spec fn sip24_of(bytes: Seq<u8>) -> u64;

/// Relies on siphasher's `SipHasher24` with the two keys zero: the
/// digest is a function of the hashed bytes alone.
#[verifier::external_body]
pub(crate) fn sip24_hash(s: &str) -> (r: u64)
    ensures
        r == sip24_of(s.spec_bytes()),
{
    let mut hasher = siphasher::sip::SipHasher24::new();
    std::hash::Hasher::write(&mut hasher, s.as_bytes());
    std::hash::Hasher::finish(&hasher)
}

} // verus!
