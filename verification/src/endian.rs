//! Fixed-width integers on the wire.

use vstd::prelude::*;
use byteorder::{BigEndian, LittleEndian, ReadBytesExt};

verus! {

/// The 16-bit number whose low byte is `b0` and whose high byte is `b1`.
pub open spec fn le16(b0: u8, b1: u8) -> int {
    b0 as int + 256 * (b1 as int)
}

/// The 32-bit number whose bytes are `b0` to `b3`, highest first.
pub open spec fn be32(b0: u8, b1: u8, b2: u8, b3: u8) -> int {
    16777216 * (b0 as int) + 65536 * (b1 as int) + 256 * (b2 as int) + (b3 as int)
}

/// The two bytes of a 16-bit number, low byte first.
pub open spec fn le16_bytes(n: int) -> Seq<u8> {
    seq![(n % 256) as u8, (n / 256 % 256) as u8]
}

/// The four bytes of a 32-bit number, highest first.
pub open spec fn be32_bytes(n: int) -> Seq<u8> {
    seq![
        (n / 16777216 % 256) as u8,
        (n / 65536 % 256) as u8,
        (n / 256 % 256) as u8,
        (n % 256) as u8,
    ]
}

/// `ReadBytesExt::read_u16::<LittleEndian>` on a byte slice: the number made
/// of the first two bytes, low byte first; nothing when fewer than two bytes
/// are there.
#[verifier::external_body]
pub(crate) fn read_u16_le(bytes: &[u8]) -> (r: Option<u16>)
    ensures
        bytes@.len() >= 2 ==> r == Some(le16(bytes@[0], bytes@[1]) as u16),
        bytes@.len() < 2 ==> r is None,
{
    let mut reader = bytes;
    reader.read_u16::<LittleEndian>().ok()
}

/// `ReadBytesExt::read_u32::<BigEndian>` on a byte slice: the number made of
/// the first four bytes, highest first; nothing when fewer than four bytes
/// are there.
#[verifier::external_body]
pub(crate) fn read_u32_be(bytes: &[u8]) -> (r: Option<u32>)
    ensures
        bytes@.len() >= 4 ==> r == Some(
            be32(bytes@[0], bytes@[1], bytes@[2], bytes@[3]) as u32,
        ),
        bytes@.len() < 4 ==> r is None,
{
    let mut reader = bytes;
    reader.read_u32::<BigEndian>().ok()
}

/// Reading back the two bytes of a 16-bit number gives the number.
pub proof fn lemma_le16_roundtrip(n: int)
    requires
        0 <= n < 65536,
    ensures
        le16(le16_bytes(n)[0], le16_bytes(n)[1]) == n,
{
}

/// Reading back the four bytes of a 32-bit number gives the number.
pub proof fn lemma_be32_roundtrip(n: int)
    requires
        0 <= n < 4294967296,
    ensures
        be32(be32_bytes(n)[0], be32_bytes(n)[1], be32_bytes(n)[2], be32_bytes(n)[3]) == n,
{
}

/// Two bytes, read as a number and written again, are the same two bytes.
pub proof fn lemma_le16_bytes_of(b0: u8, b1: u8)
    ensures
        0 <= le16(b0, b1) < 65536,
        le16_bytes(le16(b0, b1)) =~= seq![b0, b1],
{
}

/// Four bytes, read as a number and written again, are the same four bytes.
pub proof fn lemma_be32_bytes_of(b0: u8, b1: u8, b2: u8, b3: u8)
    ensures
        0 <= be32(b0, b1, b2, b3) < 4294967296,
        be32_bytes(be32(b0, b1, b2, b3)) =~= seq![b0, b1, b2, b3],
{
    let n = be32(b0, b1, b2, b3);
    let n1 = 65536 * (b0 as int) + 256 * (b1 as int) + (b2 as int);
    let n2 = 256 * (b0 as int) + (b1 as int);
    assert(n == 256 * n1 + (b3 as int));
    assert(n % 256 == b3 as int && n / 256 == n1);
    assert(n1 == 256 * n2 + (b2 as int));
    assert(n1 % 256 == b2 as int && n1 / 256 == n2);
    assert(n / 65536 == n2);
    assert(n2 % 256 == b1 as int && n2 / 256 == b0 as int);
    assert(n / 16777216 == b0 as int);
}

} // verus!
