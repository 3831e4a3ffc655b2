//! Places on the map. The library compares coordinates and shows them; it does
//! no arithmetic on them.

use vstd::prelude::*;

verus! {

/// The magnitude of the bit pattern of infinity.
pub const INFINITY_RANK: i64 = 0x7ff0_0000_0000_0000;

/// The bit pattern of 90.0.
pub const NINETY: i64 = 0x4056_8000_0000_0000;

/// The bit pattern of 180.0.
pub const ONE_EIGHTY: i64 = 0x4066_8000_0000_0000;

/// A number of degrees: the bit pattern of its IEEE 754 double, the shortest
/// decimal text that reads back as it, and its decimal text to five places.
#[derive(Debug)]
pub struct Degrees {
    pub bits: u64,
    pub text: String,
    pub fixed: String,
}

/// A place: its latitude and its longitude.
#[derive(Debug)]
pub struct Point {
    pub lat: Degrees,
    pub lng: Degrees,
}

/// The place in the order of doubles of the double with a bit pattern. Of two
/// doubles that are numbers the lesser has the lesser rank, and equal ones have
/// the same.
pub open spec fn rank_of(bits: u64) -> int {
    if bits < 0x8000_0000_0000_0000 {
        bits as int
    } else {
        0x8000_0000_0000_0000 - bits
    }
}

/// Whether the double with a bit pattern is not a number.
pub open spec fn is_nan_bits(bits: u64) -> bool {
    rank_of(bits) > INFINITY_RANK || rank_of(bits) < -INFINITY_RANK
}

/// The place in the order of doubles of the double with a bit pattern.
pub fn rank(bits: u64) -> (r: i64)
    ensures
        r == rank_of(bits),
{
    if bits < 0x8000_0000_0000_0000 {
        bits as i64
    } else {
        -((bits - 0x8000_0000_0000_0000) as i64)
    }
}

/// Whether the double with a bit pattern is not a number.
pub fn is_nan(bits: u64) -> (r: bool)
    ensures
        r == is_nan_bits(bits),
{
    let k: i64 = rank(bits);
    k > INFINITY_RANK || k < -INFINITY_RANK
}

impl Clone for Degrees {
    fn clone(&self) -> (r: Self)
        ensures
            r == *self,
    {
        Degrees { bits: self.bits, text: self.text.clone(), fixed: self.fixed.clone() }
    }
}

impl Clone for Point {
    fn clone(&self) -> (r: Self)
        ensures
            r == *self,
    {
        Point { lat: self.lat.clone(), lng: self.lng.clone() }
    }
}

impl Degrees {
    /// Whether this is a number from `-limit` to `limit`.
    pub open spec fn within(self, limit: int) -> bool {
        -limit <= rank_of(self.bits) <= limit
    }

    /// Whether this is a number from `-limit` to `limit`, a positive double
    /// given by its bit pattern.
    pub fn is_within(&self, limit: i64) -> (r: bool)
        requires
            0 <= limit <= INFINITY_RANK,
        ensures
            r == self.within(limit as int),
    {
        let k: i64 = rank(self.bits);
        -limit <= k && k <= limit
    }
}

impl Point {
    /// Whether this is a place on the globe.
    pub open spec fn on_globe(self) -> bool {
        self.lat.within(NINETY as int) && self.lng.within(ONE_EIGHTY as int)
    }

    /// Whether this is a place on the globe: a latitude from -90 to 90 and a
    /// longitude from -180 to 180.
    pub fn is_on_globe(&self) -> (r: bool)
        ensures
            r == self.on_globe(),
    {
        self.lat.is_within(NINETY) && self.lng.is_within(ONE_EIGHTY)
    }
}

/// What is not a number is within no bounds.
pub proof fn law_not_a_number_is_out_of_range(d: Degrees, limit: int)
    requires
        0 <= limit <= INFINITY_RANK,
        is_nan_bits(d.bits),
    ensures
        !d.within(limit),
{
}

/// A range reaches as far below zero as above it, and what is nearer to zero than
/// a number in it is in it too.
pub proof fn law_range_is_symmetric(d: Degrees, e: Degrees, limit: int)
    requires
        e.within(limit),
        -rank_of(d.bits) == rank_of(e.bits) || rank_of(d.bits) == rank_of(e.bits) || (0 <= rank_of(
            d.bits,
        ) <= rank_of(e.bits)) || (rank_of(e.bits) <= rank_of(d.bits) <= 0),
    ensures
        d.within(limit),
{
}

/// A place is on the globe exactly where its latitude is within 90 degrees and its
/// longitude within 180.
pub proof fn law_globe_has_its_bounds(p: Point)
    ensures
        p.on_globe() <==> {
            &&& -0x4056_8000_0000_0000 <= rank_of(p.lat.bits) <= 0x4056_8000_0000_0000
            &&& -0x4066_8000_0000_0000 <= rank_of(p.lng.bits) <= 0x4066_8000_0000_0000
        },
{
}

/// A number with its sign bit set is the opposite of the one without it, and of
/// two numbers without it the greater has the greater bits.
pub proof fn law_rank_orders_numbers(a: u64, b: u64)
    requires
        a < 0x8000_0000_0000_0000,
        b < 0x8000_0000_0000_0000,
    ensures
        rank_of(a) < rank_of(b) <==> a < b,
        rank_of((a + 0x8000_0000_0000_0000) as u64) == -rank_of(a),
        rank_of(a) >= 0,
        is_nan_bits(a) <==> a > 0x7ff0_0000_0000_0000,
        is_nan_bits((a + 0x8000_0000_0000_0000) as u64) == is_nan_bits(a),
{
}

} // verus!
