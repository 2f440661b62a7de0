//! Small integer utilities for sizing display buffers.

use vstd::prelude::*;

verus! {

/// The least power of two that is at least `x`.
pub fn next_power_of_2(x: i32) -> (r: i32)
    requires
        1 <= x <= 0x4000_0000,
    ensures
        x <= r < 2 * x,
        (r as u32) & ((r - 1) as u32) == 0,
{
    let u: u32 = (x - 1) as u32;
    let a = u | (u >> 1u32);
    let b = a | (a >> 2u32);
    let c = b | (b >> 4u32);
    let d = c | (c >> 8u32);
    let e = d | (d >> 16u32);
    proof {
        assert(u <= e && e <= 0x7FFF_FFFFu32 && (u <= 0x3FFF_FFFFu32 ==> e <= 0x3FFF_FFFFu32)
            && (((e + 1) as u32) & e) == 0 && (u > 0 ==> e <= 2 * u) && (u == 0 ==> e == 0)) by (bit_vector)
            requires
                u <= 0x3FFF_FFFFu32 && a == u | (u >> 1u32) && b == a | (a >> 2u32) && c == b | (b
                    >> 4u32) && d == c | (c >> 8u32) && e == d | (d >> 16u32),
        ;
    }
    (e + 1) as i32
}

} // verus!
