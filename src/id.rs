//! Platform identifiers and their database encoding.

use vstd::prelude::*;

verus! {

/// A platform identifier (a guild id), stored by the database as a signed
/// 64-bit integer with the same bit pattern.
#[derive(Clone, Copy, Debug, PartialEq, Eq, Structural)]
pub struct Id(u64);

impl View for Id {
    type V = u64;

    closed spec fn view(&self) -> u64 {
        self.0
    }
}

impl Id {
    pub fn new(value: u64) -> (r: Id)
        ensures
            r@ == value,
    {
        Id(value)
    }

    /// The identifier as the platform writes it.
    pub fn get(&self) -> (r: u64)
        ensures
            r == self@,
    {
        self.0
    }

    /// Reads the identifier from its database column, which holds the same
    /// 64 bits as a signed integer.
    pub fn from_database(value: i64) -> (r: Id)
        ensures
            r@ as int == unsigned_bits(value),
    {
        if value >= 0 {
            Id(value as u64)
        } else {
            Id((value + i64::MAX + 1) as u64 + i64::MAX as u64 + 1)
        }
    }

    /// The value written to the database column: the same 64 bits, signed.
    pub fn to_database(&self) -> (r: i64)
        ensures
            r as int == signed_bits(self@),
            unsigned_bits(r) == self@ as int,
    {
        if self.0 <= i64::MAX as u64 {
            self.0 as i64
        } else {
            (self.0 - i64::MAX as u64 - 1) as i64 - i64::MAX - 1
        }
    }
}

/// The signed integer with the same 64-bit two's-complement pattern as `v`.
pub open spec fn signed_bits(v: u64) -> int {
    if v <= i64::MAX {
        v as int
    } else {
        v - 0x1_0000_0000_0000_0000
    }
}

/// The unsigned integer with the same 64-bit pattern as `v`.
pub open spec fn unsigned_bits(v: i64) -> int {
    if v >= 0 {
        v as int
    } else {
        v + 0x1_0000_0000_0000_0000
    }
}

} // verus!
