//! Identifiers: media and peer ids are UUIDs, held as their 128-bit value.

use vstd::prelude::*;
use crate::text::hex_digits;

verus! {

/// Relies on `uuid::Uuid::new_v4`: a random UUID of version 4, as its
/// 128-bit value. Nothing is promised of the other bits.
#[verifier::external_body]
pub(crate) fn new_id() -> (r: u128) {
    uuid::Uuid::new_v4().as_u128()
}

/// The hyphenated lower-case text of the UUID whose value is `id`
/// (`8-4-4-4-12` hexadecimal digits).
pub open spec fn id_text(id: u128) -> Seq<char> {
    let d = hex_digits(id as nat, 32);
    d.subrange(0, 8) + seq!['-'] + d.subrange(8, 12) + seq!['-'] + d.subrange(12, 16) + seq!['-']
        + d.subrange(16, 20) + seq!['-'] + d.subrange(20, 32)
}

/// Relies on `uuid::Uuid::from_u128` and its `Display`, which writes the
/// hyphenated lower-case form, most significant digit first.
#[verifier::external_body]
pub(crate) fn format_id(id: u128) -> (r: String)
    ensures
        r@ == id_text(id),
{
    uuid::Uuid::from_u128(id).to_string()
}

} // verus!
