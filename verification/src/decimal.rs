//! The decimal text of the numbers that instructions carry.

use vstd::prelude::*;
use crate::ascii::{MINUS, NINE, ZERO};

verus! {

/// The width of one storage unit of the frame, in bytes.
pub const STORAGE_UNIT: u128 = 4;

/// The ASCII code of the digit `d`.
pub open spec fn digit(d: nat) -> u8
    recommends
        d < 10,
{
    (ZERO + d) as u8
}

/// `n` in decimal, most significant digit first, without leading zeros.
pub open spec fn decimal(n: nat) -> Seq<u8>
    decreases n,
{
    if n < 10 {
        seq![digit(n)]
    } else {
        decimal(n / 10).push(digit(n % 10))
    }
}

/// `n` in decimal, with a minus sign in front if it is negative.
pub open spec fn signed_decimal(n: i32) -> Seq<u8> {
    if n < 0 {
        seq![MINUS] + decimal((-n) as nat)
    } else {
        decimal(n as nat)
    }
}

/// The displacement, in bytes and in decimal, of the variable that lives
/// `units` storage units below the frame base.
pub open spec fn displacement(units: usize) -> Seq<u8> {
    decimal((STORAGE_UNIT * units) as nat)
}

/// Appends `n` in decimal.
pub fn write_decimal(output: &mut Vec<u8>, n: u128)
    ensures
        final(output)@ == old(output)@ + decimal(n as nat),
    decreases n,
{
    if n >= 10 {
        write_decimal(output, n / 10);
    }
    let last: u8 = (n % 10) as u8;
    output.push(ZERO + last);
}

/// Appends `n` in decimal, with its sign if it is negative.
pub fn write_signed_decimal(output: &mut Vec<u8>, n: i32)
    ensures
        final(output)@ == old(output)@ + signed_decimal(n),
{
    if n < 0 {
        output.push(MINUS);
        let magnitude: i64 = -(n as i64);
        write_decimal(output, magnitude as u128);
    } else {
        write_decimal(output, n as u128);
    }
}

/// Appends the displacement of the variable `units` storage units below the
/// frame base.
pub fn write_displacement(output: &mut Vec<u8>, units: usize)
    ensures
        final(output)@ == old(output)@ + displacement(units),
{
    write_decimal(output, STORAGE_UNIT * (units as u128));
}

/// Every byte of a decimal text is a digit, and the text is never empty.
pub proof fn lemma_decimal_is_digits(n: nat)
    ensures
        decimal(n).len() >= 1,
        forall|i: int| 0 <= i < decimal(n).len() ==> ZERO <= #[trigger] decimal(n)[i] <= NINE,
        n > 0 ==> decimal(n)[0] != ZERO,
    decreases n,
{
    if n >= 10 {
        lemma_decimal_is_digits(n / 10);
    }
}

} // verus!
