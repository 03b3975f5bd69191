//! Identifiers of rows.
//!
//! An identifier is a UUID, held as the number that its sixteen bytes make, the first byte being
//! the most significant one.
use crate::numbers::hex_digit;
use vstd::prelude::*;

verus! {

/// `id` has the form of a random UUID: version 4 in the seventh byte, variant 1 in the ninth.
pub open spec fn is_random_id(id: u128) -> bool {
    (id >> 76u128) & 0xf == 4 && (id >> 62u128) & 3 == 2
}

/// The hexadecimal digit number `k` of `id`, counted from the most significant one.
pub open spec fn nibble(id: u128, k: int) -> int {
    ((id >> ((4 * (31 - k)) as u128)) & 0xf) as int
}

/// An identifier as text: 32 hexadecimal digits with hyphens behind the first eight digits and
/// behind each of the next three groups of four.
pub open spec fn id_text(id: u128) -> Seq<char> {
    Seq::new(
        36,
        |i: int|
            if i == 8 || i == 13 || i == 18 || i == 23 {
                '-'
            } else if i < 8 {
                hex_digit(nibble(id, i))
            } else if i < 13 {
                hex_digit(nibble(id, i - 1))
            } else if i < 18 {
                hex_digit(nibble(id, i - 2))
            } else if i < 23 {
                hex_digit(nibble(id, i - 3))
            } else {
                hex_digit(nibble(id, i - 4))
            },
    )
}

/// `uuid::Uuid::new_v4` draws a random UUID, which is read by `Uuid::as_u128`. Of every drawn UUID
/// the version and the variant are fixed; which one is drawn is left open, and that two of them
/// differ is not claimed.
#[verifier::external_body]
pub(crate) fn new_id() -> (id: u128)
    ensures
        is_random_id(id),
{
    uuid::Uuid::new_v4().as_u128()
}

/// `uuid::Uuid`'s `Display` writes the UUID in its hyphenated form with small letters;
/// `Uuid::from_u128` takes the bytes of the number, the most significant one first.
#[verifier::external_body]
pub(crate) fn id_string(id: u128) -> (r: String)
    ensures
        r@ == id_text(id),
{
    uuid::Uuid::from_u128(id).to_string()
}

}
