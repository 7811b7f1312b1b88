//! The standard event status register: named bits of one byte.
use vstd::prelude::*;

verus! {

pub const OP_COMPLETE: u8 = 0b0000_0001;
pub const QUERY_ERR: u8 = 0b0000_0100;
pub const DEV_SPEC_ERR: u8 = 0b0000_1000;
pub const EXEC_ERR: u8 = 0b0001_0000;
pub const CMD_ERR: u8 = 0b0010_0000;
pub const POWER_ON: u8 = 0b1000_0000;

/// The named bits together.
pub const ALL_NAMED: u8 = 0b1011_1101;

/// A status mask. Bits without a name are kept as they came and play no part
/// in the named-bit queries.
#[derive(Clone, Copy, Debug, PartialEq, Eq, Structural)]
pub struct EventReg {
    pub bits: u8,
}

impl EventReg {
    pub open spec fn spec_from_byte(b: u8) -> EventReg {
        EventReg { bits: b }
    }

    pub open spec fn spec_to_byte(self) -> u8 {
        self.bits
    }

    /// The mask as read from the wire, every bit kept.
    #[verifier::when_used_as_spec(spec_from_byte)]
    pub fn from_byte(b: u8) -> (r: EventReg)
        ensures
            r == Self::spec_from_byte(b),
    {
        EventReg { bits: b }
    }

    /// The byte that goes on the wire.
    #[verifier::when_used_as_spec(spec_to_byte)]
    pub fn to_byte(self) -> (r: u8)
        ensures
            r == self.spec_to_byte(),
    {
        self.bits
    }

    /// The mask of the named bits of `b` alone.
    pub fn from_bits_truncate(b: u8) -> (r: EventReg)
        ensures
            r.bits == b & ALL_NAMED,
    {
        EventReg { bits: b & ALL_NAMED }
    }

    pub fn bits(&self) -> (r: u8)
        ensures
            r == self.bits,
    {
        self.bits
    }

    pub fn empty() -> (r: EventReg)
        ensures
            r.bits == 0,
    {
        EventReg { bits: 0 }
    }

    /// Every named bit.
    pub fn all() -> (r: EventReg)
        ensures
            r.bits == ALL_NAMED,
    {
        EventReg { bits: ALL_NAMED }
    }

    /// Whether every bit of `flags` that has a name is set.
    pub fn contains(&self, flags: u8) -> (r: bool)
        ensures
            r == (self.bits & (flags & ALL_NAMED) == flags & ALL_NAMED),
    {
        self.bits & (flags & ALL_NAMED) == flags & ALL_NAMED
    }

    pub fn union(self, other: EventReg) -> (r: EventReg)
        ensures
            r.bits == self.bits | other.bits,
    {
        EventReg { bits: self.bits | other.bits }
    }

    pub fn intersection(self, other: EventReg) -> (r: EventReg)
        ensures
            r.bits == self.bits & other.bits,
    {
        EventReg { bits: self.bits & other.bits }
    }

    pub fn insert(&mut self, flags: u8)
        ensures
            final(self).bits == old(self).bits | flags,
    {
        self.bits = self.bits | flags;
    }

    pub fn remove(&mut self, flags: u8)
        ensures
            final(self).bits == old(self).bits & !flags,
    {
        self.bits = self.bits & !flags;
    }
}

/// A byte read into a mask and written back is the same byte.
pub proof fn lemma_byte_round_trip(b: u8)
    ensures
        EventReg::from_byte(b).to_byte() == b,
{
}

/// A mask written to the wire and read back is the same mask.
pub proof fn lemma_mask_round_trip(m: EventReg)
    ensures
        EventReg::from_byte(m.to_byte()) == m,
{
}

/// The named-bit query looks at named bits only: two masks that agree on them
/// answer alike.
pub proof fn lemma_unnamed_bits_ignored(a: EventReg, c: EventReg, flags: u8)
    requires
        a.bits & ALL_NAMED == c.bits & ALL_NAMED,
    ensures
        (a.bits & (flags & ALL_NAMED) == flags & ALL_NAMED) == (c.bits & (flags & ALL_NAMED)
            == flags & ALL_NAMED),
{
    let x = a.bits;
    let y = c.bits;
    assert(x & (flags & 0b1011_1101u8) == (x & 0b1011_1101u8) & flags && y & (flags & 0b1011_1101u8)
        == (y & 0b1011_1101u8) & flags) by (bit_vector);
}

} // verus!
