use vstd::prelude::*;
use bit_field::BitField;

verus! {

/// Bit `bit` of `x`, counting from the least significant.
pub open spec fn bit_of(x: u8, bit: u8) -> bool {
    (x >> bit) & 1u8 == 1u8
}

/// `x` with bit `bit` set to `value`.
pub open spec fn with_bit_of(x: u8, bit: u8, value: bool) -> u8 {
    if value {
        x | (1u8 << bit)
    } else {
        x & !(1u8 << bit)
    }
}

/// Relies on `BitField::get_bit` for `u8` from bit_field: whether bit `bit`
/// is set; it asserts `bit < 8`.
#[verifier::external_body]
pub(crate) fn get_bit(x: u8, bit: usize) -> (r: bool)
    requires
        bit < 8,
    ensures
        r == bit_of(x, bit as u8),
{
    x.get_bit(bit)
}

/// Relies on `BitField::set_bit` for `u8` from bit_field: sets or clears
/// bit `bit`; it asserts `bit < 8`.
#[verifier::external_body]
pub(crate) fn set_bit(x: u8, bit: usize, value: bool) -> (r: u8)
    requires
        bit < 8,
    ensures
        r == with_bit_of(x, bit as u8, value),
{
    let mut y = x;
    y.set_bit(bit, value);
    y
}

} // verus!
