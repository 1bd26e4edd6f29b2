//! Variable-length integers: seven bits of the number per byte, lowest
//! first, the high bit set on every byte but the last.

use vstd::prelude::*;
use vstd::string::StringExecFns;
use bytes::Bytes;
use crate::buffers::{buf_freeze, buf_put_u8, buf_with_capacity, frozen, held};
use crate::error::VstpError;

verus! {

/// The most bytes that the encoding of a 64-bit number takes.
pub const MAX_VARINT_LEN: usize = 10;

/// The encoding of a number.
pub open spec fn varint_bytes(v: nat) -> Seq<u8>
    decreases v,
{
    if v < 128 {
        seq![v as u8]
    } else {
        seq![(v % 128 + 128) as u8] + varint_bytes(v / 128)
    }
}

/// The number of bytes in the encoding of a number.
pub open spec fn varint_len_spec(v: nat) -> nat
    decreases v,
{
    if v < 128 {
        1
    } else {
        1 + varint_len_spec(v / 128)
    }
}

/// 128 to the power `i`.
pub open spec fn pow128(i: nat) -> nat
    decreases i,
{
    if i == 0 {
        1
    } else {
        128 * pow128((i - 1) as nat)
    }
}

/// The number that the low seven bits of the first `n` bytes spell, lowest
/// group first.
pub open spec fn groups_value(bytes: Seq<u8>, n: nat) -> nat
    decreases n,
{
    if n == 0 {
        0
    } else {
        groups_value(bytes, (n - 1) as nat) + (bytes[n - 1] % 128) as nat * pow128((n - 1) as nat)
    }
}

/// The index of the first byte without the high bit, or the length when
/// every byte has it.
pub open spec fn first_terminator(bytes: Seq<u8>) -> nat
    decreases bytes.len(),
{
    if bytes.len() == 0 {
        0
    } else if bytes[0] < 128 {
        0
    } else {
        1 + first_terminator(bytes.drop_first())
    }
}

/// What the front of a byte string holds.
pub enum VarintDecoded {
    /// A number, and the count of bytes it took.
    Value { value: u64, read: nat },
    /// Ten bytes, each announcing another.
    Overflow,
    /// The bytes end before the number does.
    Incomplete,
}

/// What the front of a byte string holds. Of a tenth byte only the lowest
/// bit has room in 64 bits; its other bits are not looked at.
pub open spec fn decode_varint_spec(bytes: Seq<u8>) -> VarintDecoded {
    let k = first_terminator(bytes);
    if k < bytes.len() && k <= 9 {
        VarintDecoded::Value {
            value: (groups_value(bytes, k + 1) % 0x1_0000_0000_0000_0000) as u64,
            read: k + 1,
        }
    } else if bytes.len() >= 10 {
        VarintDecoded::Overflow
    } else {
        VarintDecoded::Incomplete
    }
}

/// The powers of 128 that a 64-bit number reaches.
pub proof fn lemma_pow128_values()
    ensures
        pow128(0) == 1,
        pow128(1) == 0x80,
        pow128(2) == 0x4000,
        pow128(3) == 0x20_0000,
        pow128(4) == 0x1000_0000,
        pow128(5) == 0x8_0000_0000,
        pow128(6) == 0x400_0000_0000,
        pow128(7) == 0x2_0000_0000_0000,
        pow128(8) == 0x100_0000_0000_0000,
        pow128(9) == 0x8000_0000_0000_0000,
{
    assert(pow128(1) == 128 * pow128(0));
    assert(pow128(2) == 128 * pow128(1));
    assert(pow128(3) == 128 * pow128(2));
    assert(pow128(4) == 128 * pow128(3));
    assert(pow128(5) == 128 * pow128(4));
    assert(pow128(6) == 128 * pow128(5));
    assert(pow128(7) == 128 * pow128(6));
    assert(pow128(8) == 128 * pow128(7));
    assert(pow128(9) == 128 * pow128(8));
}

/// Setting a seven-bit group above the bits already set adds its value; of
/// the tenth group only the lowest bit stays.
proof fn lemma_or_shift(result: u64, value: u64, i: nat)
    requires
        i <= 9,
        value < 128,
        result < pow128(i),
    ensures
        (result | (value << ((7 * i) as u32))) as int == (result + value * pow128(i))
            % 0x1_0000_0000_0000_0000,
{
    lemma_pow128_values();
    if i == 0 {
        assert(result == 0 ==> (result | (value << 0u32)) == value) by (bit_vector);
    } else if i == 1 {
        assert(result < 0x80 && value < 128 ==> (result | (value << 7u32)) == result + value
            * 0x80) by (bit_vector);
    } else if i == 2 {
        assert(result < 0x4000 && value < 128 ==> (result | (value << 14u32)) == result + value
            * 0x4000) by (bit_vector);
    } else if i == 3 {
        assert(result < 0x20_0000 && value < 128 ==> (result | (value << 21u32)) == result
            + value * 0x20_0000) by (bit_vector);
    } else if i == 4 {
        assert(result < 0x1000_0000 && value < 128 ==> (result | (value << 28u32)) == result
            + value * 0x1000_0000) by (bit_vector);
    } else if i == 5 {
        assert(result < 0x8_0000_0000 && value < 128 ==> (result | (value << 35u32)) == result
            + value * 0x8_0000_0000) by (bit_vector);
    } else if i == 6 {
        assert(result < 0x400_0000_0000 && value < 128 ==> (result | (value << 42u32))
            == result + value * 0x400_0000_0000) by (bit_vector);
    } else if i == 7 {
        assert(result < 0x2_0000_0000_0000 && value < 128 ==> (result | (value << 49u32))
            == result + value * 0x2_0000_0000_0000) by (bit_vector);
    } else if i == 8 {
        assert(result < 0x100_0000_0000_0000 && value < 128 ==> (result | (value << 56u32))
            == result + value * 0x100_0000_0000_0000) by (bit_vector);
    } else {
        assert(result < 0x8000_0000_0000_0000 && value < 128 ==> (result | (value << 63u32))
            == result + (value % 2) * 0x8000_0000_0000_0000) by (bit_vector);
        let low = result as int;
        let top = 0x8000_0000_0000_0000int;
        let q = (value / 2) as int;
        assert(value == 2 * q + (value % 2));
        assert(low + value * top == q * 0x1_0000_0000_0000_0000 + (low + (value % 2) * top));
        assert(0 <= low + (value % 2) * top < 0x1_0000_0000_0000_0000);
        vstd::arithmetic::div_mod::lemma_fundamental_div_mod_converse(
            low + value * top,
            0x1_0000_0000_0000_0000,
            q,
            low + (value % 2) * top,
        );
    }
}

/// The first terminator, seen from a position all of whose predecessors
/// have the high bit.
proof fn lemma_terminator_from(bytes: Seq<u8>, i: nat)
    requires
        i <= bytes.len(),
        forall|j: int| 0 <= j < i ==> bytes[j] >= 128,
    ensures
        first_terminator(bytes) == i + first_terminator(bytes.skip(i as int)),
    decreases i,
{
    if i == 0 {
        assert(bytes.skip(0) =~= bytes);
    } else {
        let rest = bytes.drop_first();
        assert forall|j: int| 0 <= j < i - 1 implies rest[j] >= 128 by {
            assert(rest[j] == bytes[j + 1]);
        }
        lemma_terminator_from(rest, (i - 1) as nat);
        assert(rest.skip(i - 1) =~= bytes.skip(i as int));
    }
}

/// The error of a protocol violation with the given text.
fn protocol_error(text: &str) -> (e: VstpError)
    ensures
        e.is_protocol(text@),
{
    VstpError::Protocol(String::from_str(text))
}

/// Whether `r` is what the decoder owes for `expected`.
pub open spec fn varint_result_is(r: Result<(u64, usize), VstpError>, expected: VarintDecoded)
    -> bool {
    match expected {
        VarintDecoded::Value { value, read } => r is Ok && r->Ok_0.0 == value && r->Ok_0.1
            == read,
        VarintDecoded::Overflow => r is Err && r->Err_0.is_protocol(
            "Variable integer overflow"@,
        ),
        VarintDecoded::Incomplete => r is Err && r->Err_0.is_protocol(
            "Incomplete variable integer"@,
        ),
    }
}

/// Reads a number from the front of a byte string.
///
/// The result is the number and the count of bytes read, when one of the
/// first ten bytes ends the number. It is an error when the bytes end before
/// the number does, and when ten bytes in a row announce another.
pub fn decode_varint(buf: &[u8]) -> (r: Result<(u64, usize), VstpError>)
    ensures
        varint_result_is(r, decode_varint_spec(buf@)),
{
    let mut result: u64 = 0;
    let mut shift: u32 = 0;
    let mut i: usize = 0;
    proof {
        lemma_pow128_values();
    }
    while i < buf.len()
        invariant
            i <= 9,
            i <= buf@.len(),
            shift == 7 * i,
            result == groups_value(buf@, i as nat),
            result < pow128(i as nat),
            forall|j: int| 0 <= j < i ==> buf@[j] >= 128,
        decreases buf@.len() - i,
    {
        if i >= MAX_VARINT_LEN {
            return Err(protocol_error("Variable integer too long"));
        }
        let byte = buf[i];
        let value = (byte & 0x7f) as u64;
        assert(byte & 0x7f == byte % 128) by (bit_vector);
        assert((byte & 0x80 == 0) == (byte < 128)) by (bit_vector);
        proof {
            lemma_or_shift(result, value, i as nat);
            lemma_terminator_from(buf@, i as nat);
            assert(buf@.skip(i as int)[0] == byte);
        }
        let ghost before = result;
        result = result | (value << shift);
        if byte & 0x80 == 0 {
            return Ok((result, i + 1));
        }
        shift += 7;
        if shift > 63 {
            proof {
                let rest = buf@.skip(i as int);
                assert(rest.drop_first() =~= buf@.skip(i + 1));
                assert(first_terminator(buf@) >= 10);
            }
            return Err(protocol_error("Variable integer overflow"));
        }
        proof {
            lemma_pow128_values();
            assert(i <= 8);
            assert(pow128((i + 1) as nat) == 128 * pow128(i as nat));
            assert(before + value * pow128(i as nat) < pow128((i + 1) as nat)) by (nonlinear_arith)
                requires
                    before < pow128(i as nat),
                    value <= 127,
                    pow128((i + 1) as nat) == 128 * pow128(i as nat),
            ;
            assert(pow128((i + 1) as nat) <= 0x8000_0000_0000_0000) by {
                if i == 0 {
                } else if i == 1 {
                } else if i == 2 {
                } else if i == 3 {
                } else if i == 4 {
                } else if i == 5 {
                } else if i == 6 {
                } else if i == 7 {
                } else {
                }
            }
        }
        i += 1;
    }
    proof {
        lemma_terminator_from(buf@, i as nat);
        assert(buf@.skip(i as int).len() == 0);
    }
    Err(protocol_error("Incomplete variable integer"))
}

/// The number of bytes in the encoding of a number.
pub fn varint_len(value: u64) -> (n: usize)
    ensures
        n == varint_len_spec(value as nat),
        1 <= n <= 10,
{
    let mut n: usize = 1;
    let mut rest: u64 = value;
    proof {
        lemma_pow128_values();
        assert(rest * pow128(0) == rest) by (nonlinear_arith)
            requires
                pow128(0) == 1,
        ;
    }
    while rest >= 128
        invariant
            1 <= n <= 10,
            varint_len_spec(value as nat) == (n - 1) + varint_len_spec(rest as nat),
            rest * pow128((n - 1) as nat) <= u64::MAX,
        decreases rest,
    {
        proof {
            lemma_pow128_values();
            let p = pow128((n - 1) as nat);
            assert(pow128(n as nat) == 128 * p);
            assert((rest / 128) * (128 * p) <= rest * p) by (nonlinear_arith)
                requires
                    (rest / 128) * 128 <= rest,
                    p >= 0,
            ;
            if n == 10 {
                assert(rest * pow128(9) >= 128 * 0x8000_0000_0000_0000) by (nonlinear_arith)
                    requires
                        rest >= 128,
                        pow128(9) == 0x8000_0000_0000_0000,
                ;
            }
        }
        rest = rest / 128;
        n += 1;
    }
    n
}

/// A number below 128 to the power `k` has at most `k` bytes.
pub proof fn lemma_varint_len_bound(v: nat, k: nat)
    requires
        k >= 1,
        v < pow128(k),
    ensures
        1 <= varint_len_spec(v) <= k,
    decreases k,
{
    if v >= 128 {
        assert(pow128(k) == 128 * pow128((k - 1) as nat));
        if k == 1 {
            assert(pow128(0) == 1);
        } else {
            assert(v / 128 < pow128((k - 1) as nat));
            lemma_varint_len_bound(v / 128, (k - 1) as nat);
        }
    }
}

/// A 64-bit number has at most ten bytes.
pub proof fn lemma_varint_len_u64(v: u64)
    ensures
        1 <= varint_len_spec(v as nat) <= 10,
{
    lemma_pow128_values();
    assert(pow128(10) == 128 * pow128(9));
    lemma_varint_len_bound(v as nat, 10);
}

/// Writes a number as a variable-length integer.
pub fn encode_varint(value: u64) -> (r: Bytes)
    ensures
        frozen(r) == varint_bytes(value as nat),
        frozen(r).len() == varint_len_spec(value as nat),
{
    let mut buf = buf_with_capacity(MAX_VARINT_LEN);
    let mut val: u64 = value;
    proof {
        lemma_varint_len_u64(value);
        assert(held(buf) + varint_bytes(val as nat) =~= varint_bytes(value as nat));
    }
    loop
        invariant_except_break
            held(buf) + varint_bytes(val as nat) == varint_bytes(value as nat),
            held(buf).len() + varint_len_spec(val as nat) == varint_len_spec(value as nat),
            varint_len_spec(value as nat) <= 10,
        ensures
            held(buf) == varint_bytes(value as nat),
            held(buf).len() == varint_len_spec(value as nat),
        decreases val,
    {
        let ghost old_val = val;
        let ghost old_held = held(buf);
        let mut byte = (val & 0x7f) as u8;
        assert(val & 0x7f == val % 128) by (bit_vector);
        assert(val >> 7 == val / 128) by (bit_vector);
        val = val >> 7;
        if val != 0 {
            let ghost low = byte;
            assert(low < 128 ==> low | 0x80 == low + 128) by (bit_vector);
            byte = byte | 0x80;
        }
        buf_put_u8(&mut buf, byte);
        proof {
            if val == 0 {
                assert(old_held.push(byte) =~= old_held + varint_bytes(old_val as nat));
            } else {
                assert(old_held.push(byte) + varint_bytes(val as nat) =~= old_held
                    + varint_bytes(old_val as nat));
            }
        }
        if val == 0 {
            break ;
        }
    }
    buf_freeze(buf)
}

/// The value of the groups of a byte string that starts with `x`.
pub proof fn lemma_groups_prepend(x: u8, tail: Seq<u8>, n: nat)
    requires
        n <= tail.len(),
    ensures
        groups_value(seq![x] + tail, n + 1) == (x % 128) as nat + 128 * groups_value(tail, n),
    decreases n,
{
    let all = seq![x] + tail;
    if n == 0 {
        assert(groups_value(all, 0) == 0);
        assert(pow128(0) == 1);
        assert(all[0] == x);
        assert(groups_value(all, 1) == groups_value(all, 0) + (all[0] % 128) as nat * pow128(0));
    } else {
        lemma_groups_prepend(x, tail, (n - 1) as nat);
        assert(all[n as int] == tail[n - 1]);
        let g = (tail[n - 1] % 128) as nat;
        let p = pow128((n - 1) as nat);
        let a = groups_value(tail, (n - 1) as nat);
        assert(pow128(n) == 128 * p);
        assert(groups_value(tail, n) == a + g * p);
        assert(groups_value(all, n + 1) == groups_value(all, n) + g * pow128(n));
        assert(128 * (a + g * p) == 128 * a + g * (128 * p)) by (nonlinear_arith);
    }
}

/// The shape of an encoding: every byte but the last has the high bit, and
/// the groups spell the number.
pub proof fn lemma_varint_shape(v: nat)
    ensures
        varint_bytes(v).len() == varint_len_spec(v),
        forall|j: int| 0 <= j < varint_len_spec(v) - 1 ==> varint_bytes(v)[j] >= 128,
        varint_bytes(v)[varint_len_spec(v) - 1] < 128,
        groups_value(varint_bytes(v), varint_len_spec(v)) == v,
    decreases v,
{
    let b = varint_bytes(v);
    if v < 128 {
        assert(pow128(0) == 1);
        assert(groups_value(b, 0) == 0);
        assert(groups_value(b, 1) == groups_value(b, 0) + (b[0] % 128) as nat * pow128(0));
    } else {
        let x = (v % 128 + 128) as u8;
        let tail = varint_bytes(v / 128);
        lemma_varint_shape(v / 128);
        let n = varint_len_spec(v / 128);
        assert(b == seq![x] + tail);
        lemma_groups_prepend(x, tail, n);
        assert(x % 128 == v % 128);
        assert forall|j: int| 0 <= j < varint_len_spec(v) - 1 implies b[j] >= 128 by {
            if j > 0 {
                assert(b[j] == tail[j - 1]);
            }
        }
        assert(b[varint_len_spec(v) - 1] == tail[n - 1]);
    }
}

/// The groups of a byte string do not depend on what follows them.
pub proof fn lemma_groups_prefix(bytes: Seq<u8>, rest: Seq<u8>, n: nat)
    requires
        n <= bytes.len(),
    ensures
        groups_value(bytes + rest, n) == groups_value(bytes, n),
    decreases n,
{
    if n > 0 {
        lemma_groups_prefix(bytes, rest, (n - 1) as nat);
        assert((bytes + rest)[n - 1] == bytes[n - 1]);
    }
}

/// Round trip: reading the encoding of a 64-bit number gives the number and
/// the length of its encoding, whatever follows it.
pub proof fn lemma_varint_roundtrip(v: u64, rest: Seq<u8>)
    ensures
        decode_varint_spec(varint_bytes(v as nat) + rest) == (VarintDecoded::Value {
            value: v,
            read: varint_len_spec(v as nat),
        }),
{
    let b = varint_bytes(v as nat);
    let n = varint_len_spec(v as nat);
    let all = b + rest;
    lemma_varint_len_u64(v);
    lemma_varint_shape(v as nat);
    assert forall|j: int| 0 <= j < n - 1 implies all[j] >= 128 by {
        assert(all[j] == b[j]);
    }
    lemma_terminator_from(all, (n - 1) as nat);
    assert(all.skip(n - 1)[0] == b[n - 1]);
    assert(first_terminator(all) == n - 1);
    lemma_groups_prefix(b, rest, n);
    assert(groups_value(all, n) == v);
}

} // verus!
