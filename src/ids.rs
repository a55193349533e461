use vstd::prelude::*;

verus! {

/// The version number that a UUID carries in bits 76 to 79.
pub open spec fn uuid_version(v: u128) -> u128 {
    (v >> 76u128) & 0xfu128
}

/// The variant bits that a UUID carries in bits 62 and 63.
pub open spec fn uuid_variant(v: u128) -> u128 {
    (v >> 62u128) & 0x3u128
}

/// Relies on uuid's `Uuid::new_v4` and `Uuid::as_u128`: a random identifier whose
/// version field is 4 and whose variant bits are `10`. `new_v4` panics only where
/// the operating system's random source fails, which no argument decides.
#[verifier::external_body]
pub(crate) fn random_id() -> (r: u128)
    ensures
        uuid_version(r) == 4,
        uuid_variant(r) == 2,
{
    uuid::Uuid::new_v4().as_u128()
}

} // verus!
