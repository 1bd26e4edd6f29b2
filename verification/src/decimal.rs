//! Numbers in header values: decimal digits in ASCII.

use vstd::prelude::*;

verus! {

/// Whether every byte is an ASCII digit.
pub open spec fn all_digits(s: Seq<u8>) -> bool {
    forall|i: int| 0 <= i < s.len() ==> 48 <= #[trigger] s[i] <= 57
}

/// The number that a string of digits spells.
pub open spec fn digits_value(s: Seq<u8>) -> nat
    decreases s.len(),
{
    if s.len() == 0 {
        0
    } else {
        digits_value(s.drop_last()) * 10 + (s.last() - 48) as nat
    }
}

/// The digits of a text: the text itself, or what follows one leading `+`.
pub open spec fn digits_of(s: Seq<u8>) -> Seq<u8> {
    if s.len() > 0 && s[0] == 43 {
        s.drop_first()
    } else {
        s
    }
}

/// The number that a text spells, if it is at most `max`: one or more
/// digits, after at most one `+`. Leading zeros count for nothing.
pub open spec fn parse_decimal_spec(s: Seq<u8>, max: nat) -> Option<nat> {
    let d = digits_of(s);
    if d.len() > 0 && all_digits(d) && digits_value(d) <= max {
        Some(digits_value(d))
    } else {
        None
    }
}

/// The digits of a number, without leading zeros.
pub open spec fn decimal_bytes(n: nat) -> Seq<u8>
    decreases n,
{
    if n < 10 {
        seq![(48 + n) as u8]
    } else {
        decimal_bytes(n / 10).push((48 + n % 10) as u8)
    }
}

/// More digits spell a number at least as large.
pub proof fn lemma_digits_value_monotone(s: Seq<u8>, i: int)
    requires
        all_digits(s),
        0 <= i <= s.len(),
    ensures
        digits_value(s.take(i)) <= digits_value(s),
    decreases s.len() - i,
{
    if i < s.len() {
        lemma_digits_value_monotone(s, i + 1);
        let t = s.take(i + 1);
        assert(t.drop_last() =~= s.take(i));
        assert(t.last() == s[i]);
    } else {
        assert(s.take(i) =~= s);
    }
}

/// Reads a number of at most `max` from a text.
pub fn parse_decimal(text: &[u8], max: u64) -> (r: Option<u64>)
    ensures
        match r {
            Some(n) => parse_decimal_spec(text@, max as nat) == Some(n as nat),
            None => parse_decimal_spec(text@, max as nat) is None,
        },
{
    let start: usize = if text.len() > 0 && text[0] == 43 {
        1
    } else {
        0
    };
    let ghost d = digits_of(text@);
    assert(d =~= text@.skip(start as int));
    if text.len() == start {
        return None;
    }
    let mut value: u64 = 0;
    let mut i: usize = start;
    assert(d.take(0) =~= Seq::<u8>::empty());
    while i < text.len()
        invariant
            start <= i <= text@.len(),
            d == text@.skip(start as int),
            d == digits_of(text@),
            value == digits_value(d.take(i - start)),
            value <= max,
            forall|j: int| 0 <= j < i - start ==> 48 <= #[trigger] d[j] <= 57,
        decreases text@.len() - i,
    {
        let byte = text[i];
        assert(d[i - start] == byte);
        if byte < 48 || byte > 57 {
            assert(!all_digits(d));
            return None;
        }
        let digit: u64 = (byte - 48) as u64;
        proof {
            let t = d.take(i - start + 1);
            assert(t.drop_last() =~= d.take(i - start));
            assert(t.last() == byte);
            if all_digits(d) {
                lemma_digits_value_monotone(d, i - start + 1);
            }
        }
        if digit > max || value > (max - digit) / 10 {
            assert(value * 10 + digit > max);
            assert(digits_value(d.take(i - start + 1)) == value * 10 + digit);
            return None;
        }
        value = value * 10 + digit;
        i += 1;
    }
    assert(d.take(i - start) =~= d);
    Some(value)
}

/// Writes a number in decimal digits.
pub fn format_decimal(n: u64) -> (r: Vec<u8>)
    ensures
        r@ == decimal_bytes(n as nat),
    decreases n,
{
    if n < 10 {
        let mut v: Vec<u8> = Vec::new();
        v.push(48 + n as u8);
        assert(v@ =~= decimal_bytes(n as nat));
        v
    } else {
        let mut v = format_decimal(n / 10);
        v.push(48 + (n % 10) as u8);
        v
    }
}

/// The digits of a number are digits, at least one, and spell the number.
pub proof fn lemma_decimal_bytes_shape(n: nat)
    ensures
        decimal_bytes(n).len() >= 1,
        all_digits(decimal_bytes(n)),
        digits_value(decimal_bytes(n)) == n,
    decreases n,
{
    let b = decimal_bytes(n);
    if n < 10 {
        assert(b.drop_last() =~= Seq::<u8>::empty());
        assert(digits_value(b.drop_last()) == 0);
    } else {
        lemma_decimal_bytes_shape(n / 10);
        let head = decimal_bytes(n / 10);
        assert(b.drop_last() =~= head);
        assert forall|i: int| 0 <= i < b.len() implies 48 <= #[trigger] b[i] <= 57 by {
            if i < head.len() {
                assert(b[i] == head[i]);
            }
        }
    }
}

/// Round trip: reading the digits of a number gives the number, when the
/// limit admits it.
pub proof fn lemma_decimal_roundtrip(n: nat, max: nat)
    requires
        n <= max,
    ensures
        parse_decimal_spec(decimal_bytes(n), max) == Some(n),
{
    lemma_decimal_bytes_shape(n);
    let b = decimal_bytes(n);
    assert(48 <= b[0] <= 57);
}

} // verus!
