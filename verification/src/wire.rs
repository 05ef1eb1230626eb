//! The 16-bit coordinates and sizes of the display protocol.
//!
//! Coordinates are computed exactly and then reduced to what fits on the wire.
use vstd::prelude::*;

verus! {

/// The `i16` that is congruent to `x` modulo 2^16.
pub open spec fn w16(x: int) -> int {
    (x + 0x8000) % 0x1_0000 - 0x8000
}

/// The `u16` that is congruent to `x` modulo 2^16.
pub open spec fn u16_of(x: int) -> int {
    x % 0x1_0000
}

/// The `u32` that is congruent to `x` modulo 2^32.
pub open spec fn u32_of(x: int) -> int {
    x % 0x1_0000_0000
}

/// Reduces a coordinate to 16 bits.
pub fn coord(x: i64) -> (r: i16)
    ensures
        r == w16(x as int),
{
    let m: i64 = if x >= 0 { x % 0x1_0000 } else { 0xffff - (-(x + 1)) % 0x1_0000 };
    proof {
        if x >= 0 {
            assert(m == x as int % 0x1_0000);
        } else {
            let y = -(x as int + 1);
            assert(x as int == -1 - y);
            assert((-1 - y) % 0x1_0000 == 0xffff - y % 0x1_0000);
        }
        assert(m == x as int % 0x1_0000);
    }
    if m < 0x8000 {
        m as i16
    } else {
        (m - 0x1_0000) as i16
    }
}

/// Reduces a wide coordinate that is not negative to 16 bits.
pub fn wide_coord(x: i128) -> (r: i16)
    requires
        x >= 0,
    ensures
        r == w16(x as int),
{
    let m: i128 = x % 0x1_0000;
    coord(m as i64)
}

/// Reduces a size to 16 bits.
pub fn extent(x: u32) -> (r: u16)
    ensures
        r == u16_of(x as int),
{
    (x % 0x1_0000) as u16
}

/// The 32 bits that stand for a coordinate.
pub fn bits_of(x: i16) -> (r: u32)
    ensures
        r == u32_of(x as int),
{
    if x >= 0 {
        x as u32
    } else {
        (0x1_0000_0000 + x as i64) as u32
    }
}

/// The `i32` that is congruent to `x` modulo 2^32.
pub open spec fn w32(x: int) -> int {
    (x + 0x8000_0000) % 0x1_0000_0000 - 0x8000_0000
}

/// Reduces a number that is not negative to 32 bits.
pub fn fixed(x: u64) -> (r: i32)
    ensures
        r == w32(x as int),
{
    let m: u64 = x % 0x1_0000_0000;
    if m < 0x8000_0000 {
        m as i32
    } else {
        (m as i64 - 0x1_0000_0000) as i32
    }
}

/// Coordinates within the 16-bit range are kept as they are.
pub proof fn law_coordinates_in_range_are_exact(x: int)
    ensures
        -0x8000 <= w16(x) < 0x8000,
        -0x8000 <= x < 0x8000 ==> w16(x) == x,
        0 <= x < 0x1_0000 ==> u16_of(x) == x,
{
}

/// Reducing a coordinate before an offset is added changes nothing.
pub proof fn lemma_w16_add(x: int, d: int)
    ensures
        w16(w16(x) + d) == w16(x + d),
{
}

/// Whether a list of identifiers holds `w`.
pub fn holds(list: &Vec<u32>, w: u32) -> (r: bool)
    ensures
        r == list@.contains(w),
{
    let n: usize = list.len();
    let mut i: usize = 0;
    while i < n
        invariant
            i <= n,
            n == list.len(),
            forall|k: int| 0 <= k < i ==> list@[k] != w,
        decreases n - i,
    {
        if list[i] == w {
            return true;
        }
        i = i + 1;
    }
    false
}

/// What is sent of a number has its lower 16 or 32 bits: it lies in the range of the type, and
/// differs from the number by a multiple of the range's size.
pub proof fn law_reductions_keep_the_lower_bits(x: int)
    ensures
        0 <= u16_of(x) < 0x1_0000 && (x - u16_of(x)) % 0x1_0000 == 0,
        0 <= u32_of(x) < 0x1_0000_0000 && (x - u32_of(x)) % 0x1_0000_0000 == 0,
        -0x8000 <= w16(x) < 0x8000 && (x - w16(x)) % 0x1_0000 == 0,
        -0x8000_0000 <= w32(x) < 0x8000_0000 && (x - w32(x)) % 0x1_0000_0000 == 0,
{
}

} // verus!
