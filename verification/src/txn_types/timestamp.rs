//! Timestamps: 64-bit values made of a physical part (milliseconds) and a
//! logical counter in the low bits.

use vstd::prelude::*;

verus! {

/// Number of low bits that hold the logical counter.
pub const TSO_PHYSICAL_SHIFT_BITS: u64 = 18;

/// A version timestamp. Zero means "unset"; the order is that of the number.
#[derive(Clone, Copy, Debug, PartialEq, Eq, Structural)]
pub struct TimeStamp(pub u64);

/// Physical part of a raw timestamp.
pub open spec fn physical_of(ts: u64) -> u64 {
    ts >> 18u64
}

/// Logical part of a raw timestamp.
pub open spec fn logical_of(ts: u64) -> u64 {
    ts & 0x3ffffu64
}

impl View for TimeStamp {
    type V = u64;

    open spec fn view(&self) -> u64 {
        self.0
    }
}

impl TimeStamp {
    /// Builds a timestamp from its two parts.
    pub fn compose(physical: u64, logical: u64) -> (ts: TimeStamp)
        requires
            physical < 0x4000_0000_0000u64,
            logical < 0x4_0000u64,
        ensures
            ts@ == physical * 0x4_0000 + logical,
            physical_of(ts@) == physical,
            logical_of(ts@) == logical,
    {
        assert(((physical << 18u64) | logical) == physical * 0x4_0000u64 + logical && (((physical
            << 18u64) | logical) >> 18u64) == physical && (((physical << 18u64) | logical)
            & 0x3ffffu64) == logical) by (bit_vector)
            requires
                physical < 0x4000_0000_0000u64,
                logical < 0x4_0000u64,
        ;
        TimeStamp((physical << TSO_PHYSICAL_SHIFT_BITS) | logical)
    }

    pub fn new(ts: u64) -> (r: TimeStamp)
        ensures
            r@ == ts,
    {
        TimeStamp(ts)
    }

    pub fn zero() -> (r: TimeStamp)
        ensures
            r@ == 0,
    {
        TimeStamp(0)
    }

    pub fn max() -> (r: TimeStamp)
        ensures
            r@ == u64::MAX,
    {
        TimeStamp(u64::MAX)
    }

    pub fn into_inner(self) -> (r: u64)
        ensures
            r == self@,
    {
        self.0
    }

    /// The physical part, in milliseconds.
    pub fn physical(self) -> (r: u64)
        ensures
            r == physical_of(self@),
    {
        self.0 >> TSO_PHYSICAL_SHIFT_BITS
    }

    /// The logical counter.
    pub fn logical(self) -> (r: u64)
        ensures
            r == logical_of(self@),
    {
        self.0 & 0x3ffffu64
    }

    pub fn is_zero(self) -> (r: bool)
        ensures
            r == (self@ == 0),
    {
        self.0 == 0
    }

    pub fn is_max(self) -> (r: bool)
        ensures
            r == (self@ == u64::MAX),
    {
        self.0 == u64::MAX
    }

    /// The timestamp that follows this one.
    pub fn next(self) -> (r: TimeStamp)
        requires
            self@ < u64::MAX,
        ensures
            r@ == self@ + 1,
    {
        TimeStamp(self.0 + 1)
    }

    /// The timestamp just before this one.
    pub fn prev(self) -> (r: TimeStamp)
        requires
            self@ > 0,
        ensures
            r@ == self@ - 1,
    {
        TimeStamp(self.0 - 1)
    }
}

} // verus!
