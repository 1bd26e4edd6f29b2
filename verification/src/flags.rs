//! The flag byte of a frame.

use vstd::prelude::*;

verus! {

/// The flag byte of a frame. Every bit is kept, also those that no constant
/// names: they travel with the frame and are covered by its checksum.
#[derive(Debug, Clone, Copy, PartialEq, Eq, Structural)]
pub struct Flags {
    pub bits: u8,
}

impl Flags {
    /// The receiver is asked to acknowledge the frame.
    pub const REQ_ACK: u8 = 0x01;

    /// A checksum is present.
    pub const CRC: u8 = 0x02;

    /// The frame carries one fragment of a larger message.
    pub const FRAG: u8 = 0x10;

    /// The payload is compressed.
    pub const COMP: u8 = 0x20;

    /// The set with no flag.
    pub fn empty() -> (r: Flags)
        ensures
            r.bits == 0,
    {
        Flags { bits: 0 }
    }

    /// The byte that goes on the wire.
    pub fn bits(&self) -> (r: u8)
        ensures
            r == self.bits,
    {
        self.bits
    }

    /// The set that a wire byte stands for, undefined bits included.
    pub fn from_bits_retain(bits: u8) -> (r: Flags)
        ensures
            r.bits == bits,
    {
        Flags { bits }
    }

    /// Whether every bit of `mask` is set.
    pub fn contains(&self, mask: u8) -> (r: bool)
        ensures
            r == (self.bits & mask == mask),
    {
        self.bits & mask == mask
    }

    /// Sets every bit of `mask` and leaves the others as they were.
    pub fn insert(&mut self, mask: u8)
        ensures
            final(self).bits == old(self).bits | mask,
    {
        self.bits = self.bits | mask;
    }

    /// Clears every bit of `mask` and leaves the others as they were.
    pub fn remove(&mut self, mask: u8)
        ensures
            final(self).bits == old(self).bits & !mask,
    {
        self.bits = self.bits & !mask;
    }
}

} // verus!
