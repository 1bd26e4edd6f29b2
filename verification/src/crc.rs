//! The 32-bit checksum of frames.

use vstd::prelude::*;
use crc_any::CRC;

verus! {

#[verifier::external_type_specification]
#[verifier::external_body]
pub struct ExCrc(crc_any::CRC);

/// The CRC-32 of a byte string: reflected, polynomial 0x04C11DB7, initial
/// value and final xor 0xFFFFFFFF, as the `crc_any` crate computes it.
pub uninterp spec fn crc32_of(data: Seq<u8>) -> u32;

/// The bytes that a checksum state has digested since it was made or last
/// reset.
pub uninterp spec fn digested(state: crc_any::CRC) -> Seq<u8>;

/// Whether a checksum state computes the CRC-32 above.
pub uninterp spec fn is_crc32(state: crc_any::CRC) -> bool;

/// `CRC::crc32`: a fresh CRC-32 state.
#[verifier::external_body]
pub(crate) fn crc32_state() -> (state: CRC)
    ensures
        is_crc32(state),
        digested(state) == Seq::<u8>::empty(),
{
    CRC::crc32()
}

/// `CRC::digest`: the state takes in the bytes of `data`, after those it has
/// already digested.
#[verifier::external_body]
pub(crate) fn crc_digest(state: &mut CRC, data: &[u8])
    ensures
        is_crc32(*final(state)) == is_crc32(*old(state)),
        digested(*final(state)) == digested(*old(state)) + data@,
{
    state.digest(data);
}

/// `CRC::get_crc`: the checksum of everything digested, in the low 32 bits
/// of the result.
#[verifier::external_body]
pub(crate) fn crc_value(state: &CRC) -> (sum: u64)
    ensures
        is_crc32(*state) ==> sum == crc32_of(digested(*state)),
{
    state.get_crc()
}

/// `CRC::reset`: the state forgets what it has digested.
#[verifier::external_body]
pub(crate) fn crc_reset(state: &mut CRC)
    ensures
        is_crc32(*final(state)) == is_crc32(*old(state)),
        digested(*final(state)) == Seq::<u8>::empty(),
{
    state.reset();
}

/// The CRC-32 of a byte string.
pub fn checksum(data: &[u8]) -> (sum: u32)
    ensures
        sum == crc32_of(data@),
{
    let mut state = crc32_state();
    crc_digest(&mut state, data);
    assert(digested(state) =~= data@);
    let wide = crc_value(&state);
    wide as u32
}

/// Computes and checks CRC-32 checksums. What it digests adds up until it is
/// reset: reset it before each frame.
pub struct CrcValidator {
    crc: CRC,
}

impl View for CrcValidator {
    type V = Seq<u8>;

    /// The bytes digested since the validator was made or last reset.
    closed spec fn view(&self) -> Seq<u8> {
        digested(self.crc)
    }
}

impl Default for CrcValidator {
    /// A validator that has digested nothing.
    fn default() -> (r: CrcValidator)
        ensures
            r.wf(),
            r@ == Seq::<u8>::empty(),
    {
        CrcValidator::new()
    }
}

impl CrcValidator {
    /// Whether the validator computes CRC-32, as every validator made by
    /// `new` does.
    pub closed spec fn wf(&self) -> bool {
        is_crc32(self.crc)
    }

    /// A validator that has digested nothing.
    pub fn new() -> (r: CrcValidator)
        ensures
            r.wf(),
            r@ == Seq::<u8>::empty(),
    {
        CrcValidator { crc: crc32_state() }
    }

    /// Digests `data` and returns the checksum of everything digested since
    /// the last reset.
    pub fn calculate(&mut self, data: &[u8]) -> (sum: u32)
        requires
            old(self).wf(),
        ensures
            final(self).wf(),
            final(self)@ == old(self)@ + data@,
            sum == crc32_of(old(self)@ + data@),
    {
        crc_digest(&mut self.crc, data);
        let wide = crc_value(&self.crc);
        wide as u32
    }

    /// Digests `data` and says whether the checksum of everything digested
    /// since the last reset is `expected`.
    pub fn verify(&mut self, data: &[u8], expected: u32) -> (ok: bool)
        requires
            old(self).wf(),
        ensures
            final(self).wf(),
            final(self)@ == old(self)@ + data@,
            ok == (crc32_of(old(self)@ + data@) == expected),
    {
        let calculated = self.calculate(data);
        calculated == expected
    }

    /// Forgets everything digested.
    pub fn reset(&mut self)
        requires
            old(self).wf(),
        ensures
            final(self).wf(),
            final(self)@ == Seq::<u8>::empty(),
    {
        crc_reset(&mut self.crc);
    }
}

} // verus!
