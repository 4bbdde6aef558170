//! Random 128-bit entity identifiers and their hyphenated textual form,
//! which the physical path mapping embeds.

use vstd::prelude::*;

verus! {

/// A 128-bit random identifier, as used for every catalog entity.
#[derive(Clone, Copy, PartialEq, Eq, Structural, Hash, Debug)]
pub struct Uid {
    pub value: u128,
}

impl Uid {
    pub fn from_value(value: u128) -> (r: Uid)
        ensures
            r.value == value,
    {
        Uid { value }
    }

    pub fn value(&self) -> (r: u128)
        ensures
            r == self.value,
    {
        self.value
    }
}

/// The lowercase hexadecimal digit for a value below 16.
pub open spec fn hex_char(n: u128) -> char {
    if n == 0 {
        '0'
    } else if n == 1 {
        '1'
    } else if n == 2 {
        '2'
    } else if n == 3 {
        '3'
    } else if n == 4 {
        '4'
    } else if n == 5 {
        '5'
    } else if n == 6 {
        '6'
    } else if n == 7 {
        '7'
    } else if n == 8 {
        '8'
    } else if n == 9 {
        '9'
    } else if n == 10 {
        'a'
    } else if n == 11 {
        'b'
    } else if n == 12 {
        'c'
    } else if n == 13 {
        'd'
    } else if n == 14 {
        'e'
    } else {
        'f'
    }
}

/// The `n` lowest hexadecimal digits of `v`, most significant first.
pub open spec fn hex_digits(v: u128, n: nat) -> Seq<char>
    decreases n,
{
    if n == 0 {
        Seq::<char>::empty()
    } else {
        hex_digits(v / 16, (n - 1) as nat).push(hex_char(v % 16))
    }
}

/// The hyphenated form of an identifier: 8-4-4-4-12 lowercase hexadecimal
/// digits of its 128 bits, most significant first.
pub open spec fn uid_hyphen_seq(v: u128) -> Seq<char> {
    hex_digits(v >> 96, 8) + seq!['-'] + hex_digits((v >> 80) & 0xffff, 4) + seq!['-'] + hex_digits(
        (v >> 64) & 0xffff,
        4,
    ) + seq!['-'] + hex_digits((v >> 48) & 0xffff, 4) + seq!['-'] + hex_digits(
        v & 0xffff_ffff_ffff,
        12,
    )
}

/// Relies on uuid::Uuid::new_v4: a freshly drawn random identifier. Nothing
/// is promised of the value.
#[verifier::external_body]
pub fn uid_new() -> Uid {
    Uid { value: uuid::Uuid::new_v4().as_u128() }
}

/// Relies on uuid::Uuid::from_u128 and Uuid::hyphenated: formats the 128-bit
/// value as 8-4-4-4-12 lowercase hexadecimal digits, most significant first.
#[verifier::external_body]
pub fn uid_hyphenated(id: &Uid) -> (r: String)
    ensures
        r@ == uid_hyphen_seq(id.value),
{
    uuid::Uuid::from_u128(id.value).hyphenated().to_string()
}

} // verus!
