//! Binary-coded decimal packing: two decimal digits per byte, high nibble
//! holding the tens, low nibble the ones.

use vstd::prelude::*;

verus! {

/// Tens digit of a non-negative number.
pub open spec fn spec_tens(num: int) -> int {
    (num / 10) % 10
}

/// Ones digit of a non-negative number.
pub open spec fn spec_ones(num: int) -> int {
    num % 10
}

/// The BCD byte of a two-digit number: tens in the high nibble, ones in the
/// low nibble.
pub open spec fn spec_bcd2(num: int) -> int {
    spec_tens(num) * 16 + spec_ones(num)
}

fn tens(num: i32) -> (r: u8)
    requires
        0 <= num,
    ensures
        r == spec_tens(num as int),
{
    ((num / 10) % 10) as u8
}

fn ones(num: i32) -> (r: u8)
    requires
        0 <= num,
    ensures
        r == spec_ones(num as int),
{
    (num % 10) as u8
}

/// Pack a number's tens and ones digits into one BCD byte.
pub fn bcd2(num: i32) -> (r: u8)
    requires
        0 <= num,
    ensures
        r == spec_bcd2(num as int),
{
    let t = tens(num);
    let o = ones(num);
    assert(t < 10 && o < 10 ==> (t << 4 | o) == t * 16 + o) by (bit_vector);
    t << 4 | o
}

/// Pack a four-digit number into two BCD bytes, high pair first.
pub fn bcd4(num: i32) -> (r: (u8, u8))
    requires
        0 <= num <= 9999,
    ensures
        r.0 == spec_bcd2(num as int / 100),
        r.1 == spec_bcd2(num as int % 100),
{
    (bcd2(num / 100), bcd2(num % 100))
}

} // verus!
