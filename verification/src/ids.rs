//! Identifiers: 128-bit UUID values and their canonical text form.
use vstd::prelude::*;
use vstd::arithmetic::power::pow;

verus! {

/// The lowercase hexadecimal digit of a value in `0..16`.
pub open spec fn hex_digit(n: int) -> char {
    if n < 10 {
        (48 + n) as char
    } else {
        (87 + n) as char
    }
}

/// The `j`-th hexadecimal digit of `id`, counting from the most significant.
pub open spec fn nibble(id: u128, j: int) -> int {
    (id as int / pow(16, (31 - j) as nat)) % 16
}

/// Which hexadecimal digit stands at position `k` of the hyphenated form.
pub open spec fn digit_index(k: int) -> int {
    if k < 8 {
        k
    } else if k < 13 {
        k - 1
    } else if k < 18 {
        k - 2
    } else if k < 23 {
        k - 3
    } else {
        k - 4
    }
}

/// The hyphenated lowercase text of a UUID (`8-4-4-4-12` hexadecimal digits).
pub open spec fn hyphenated(id: u128) -> Seq<char> {
    Seq::new(
        36,
        |k: int|
            if k == 8 || k == 13 || k == 18 || k == 23 {
                '-'
            } else {
                hex_digit(nibble(id, digit_index(k)))
            },
    )
}

/// The version digit of a UUID (the 13th hexadecimal digit).
pub open spec fn uuid_version(id: u128) -> int {
    (id as int / pow(2, 76)) % 16
}

/// The two variant bits of a UUID.
pub open spec fn uuid_variant_bits(id: u128) -> int {
    (id as int / pow(2, 62)) % 4
}

/// The text of a UUID: `uuid::Uuid::from_u128` then its `Display`, which
/// prints the hyphenated lowercase form of the big-endian value.
#[verifier::external_body]
pub(crate) fn uuid_text(id: u128) -> (s: String)
    ensures
        s@ == hyphenated(id),
{
    uuid::Uuid::from_u128(id).to_string()
}

/// A fresh random UUID from `uuid::Uuid::new_v4`, as its 128-bit value.
/// Every outcome has version 4 and the RFC 4122 variant bits (`10`);
/// the other bits are random and nothing is stated of them. The call
/// panics when the operating system gives no random bytes, which depends on
/// no input and so is not excluded by a precondition.
#[verifier::external_body]
pub(crate) fn new_v4_uuid() -> (id: u128)
    ensures
        uuid_version(id) == 4,
        uuid_variant_bits(id) == 2,
{
    uuid::Uuid::new_v4().as_u128()
}

} // verus!
