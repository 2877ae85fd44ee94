//! Random identifiers.

use vstd::prelude::*;

verus! {

/// The bits that tell a random UUID from the other kinds: version 4, and the variant of RFC 9562.
pub open spec fn is_random_id(id: u128) -> bool {
    &&& (id >> 76) & 0xf == 4
    &&& (id >> 62) & 0x3 == 2
}

/// `uuid::Uuid::new_v4`, as the number that `Uuid::as_u128` gives.
///
/// Claimed: version and variant are those of a random UUID. The other bits are random, so nothing
/// is said of them; in particular two calls are not claimed to differ.
#[verifier::external_body]
pub(crate) fn random_id() -> (id: u128)
    ensures
        is_random_id(id),
{
    uuid::Uuid::new_v4().as_u128()
}

/// The thirteenth hexadecimal digit of a random identifier is 4, and the seventeenth is one of 8, 9,
/// a and b.
pub proof fn random_ids_show_what_they_are(id: u128)
    requires
        is_random_id(id),
    ensures
        (id / 0x1000_0000_0000_0000_0000) % 16 == 4,
        8 <= (id / 0x1000_0000_0000_0000) % 16 <= 11,
{
    assert((id >> 76) & 0xf == 4 ==> (id / 0x1000_0000_0000_0000_0000u128) % 16 == 4)
        by (bit_vector);
    assert((id >> 62) & 0x3 == 2 ==> 8 <= (id / 0x1000_0000_0000_0000u128) % 16 <= 11)
        by (bit_vector);
}

} // verus!
