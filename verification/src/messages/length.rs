//! The remaining-length field: a variable-length integer of seven bits per byte.

use super::reader;
use vstd::prelude::*;

verus! {

/// The largest length that four digits of seven bits hold.
pub const MAX_LENGTH: usize = 268_435_455;

/// The digits of `n`, the least significant first; all but the last have the top bit
/// set.
pub open spec fn varint_encoding(n: nat) -> Seq<u8>
    decreases n,
{
    if n < 128 {
        seq![n as u8]
    } else {
        seq![(n % 128 + 128) as u8] + varint_encoding(n / 128)
    }
}

/// What the bytes received so far say of a length field: its value and size once it is
/// complete, `None` while digits are missing, an error where a fifth digit is announced.
pub open spec fn size_check(s: Seq<u8>) -> Result<Option<(nat, nat)>, ()> {
    let run = reader::continuation_run(s, 4);
    if run == 4 {
        Err(())
    } else if s.len() <= run {
        Ok(None)
    } else {
        Ok(Some((reader::varint_value(s, run + 1), run + 1)))
    }
}

/// Encodes a length.
pub fn encode_length(length: usize) -> (encoded: Vec<u8>)
    ensures
        encoded@ == varint_encoding(length as nat),
{
    let mut encoded: Vec<u8> = Vec::new();
    let mut rest: usize = length;
    while rest >= 128
        invariant
            encoded@ + varint_encoding(rest as nat) == varint_encoding(length as nat),
        decreases rest,
    {
        let digit: u8 = (rest % 128) as u8 + 128;
        let ghost before = encoded@;
        encoded.push(digit);
        assert(before.push(digit) + varint_encoding((rest / 128) as nat) =~= before + (seq![digit]
            + varint_encoding((rest / 128) as nat)));
        rest = rest / 128;
    }
    let ghost before = encoded@;
    encoded.push(rest as u8);
    assert(encoded@ =~= before + seq![rest as u8]);
    encoded
}

/// Reads a length field at the start of `buf`: the value and the number of bytes it
/// takes, `None` where more bytes are needed, an error where it is too long.
pub fn read_size_check(buf: &[u8]) -> (r: Result<Option<(usize, usize)>, ()>)
    ensures
        match size_check(buf@) {
            Ok(Some((value, size))) => r == Ok::<Option<(usize, usize)>, ()>(
                Some((value as usize, size as usize)),
            ) && value <= MAX_LENGTH && size <= 4,
            Ok(None) => r == Ok::<Option<(usize, usize)>, ()>(None),
            Err(()) => r == Err::<Option<(usize, usize)>, ()>(()),
        },
{
    let mut digits: usize = 0;
    let mut value: usize = 0;
    let mut unit: usize = 1;
    proof {
        reader::lemma_run_bound(buf@, 4);
    }
    while digits < 4
        invariant
            digits <= 4,
            digits <= reader::continuation_run(buf@, 4) <= buf@.len(),
            reader::continuation_run(buf@, 4) <= 4,
            value == reader::varint_value(buf@, digits as nat),
            unit == reader::digit_unit(digits as nat),
            value < unit <= 0x1000_0000,
        decreases 4 - digits,
    {
        if digits >= buf.len() {
            return Ok(None);
        }
        let b = buf[digits];
        let digit = (b % 128) as usize;
        proof {
            reader::lemma_varint_step(buf@, digits as nat);
            reader::lemma_run_bit(buf@, digits as nat, 4);
            reveal_with_fuel(reader::digit_unit, 5);
            assert(unit <= 0x20_0000);
            assert(digit * unit <= 127 * unit) by (nonlinear_arith)
                requires
                    digit <= 127,
            ;
        }
        value = value + digit * unit;
        digits = digits + 1;
        if b < 0x80 {
            return Ok(Some((value, digits)));
        }
        unit = unit * 128;
    }
    Err(())
}

/// A length of at most [`MAX_LENGTH`] takes one to four bytes and is read back from its
/// encoding, whatever follows: by the frame decoder and by a packet's reader alike.
pub proof fn law_length_read_back(n: nat, tail: Seq<u8>)
    requires
        n <= MAX_LENGTH,
    ensures
        1 <= varint_encoding(n).len() <= 4,
        reader::take_varint(varint_encoding(n) + tail) == Ok::<
            ((nat, nat), Seq<u8>),
            super::error::Error,
        >(((n, varint_encoding(n).len()), tail)),
        size_check(varint_encoding(n) + tail) == Ok::<Option<(nat, nat)>, ()>(
            Some((n, varint_encoding(n).len())),
        ),
{
    let s = varint_encoding(n) + tail;
    reveal_with_fuel(reader::digit_unit, 5);
    assert(n < reader::digit_unit(4));
    lemma_encoding_digits(n, 4, 4, tail);
    let k = varint_encoding(n).len();
    assert(s.skip(k as int) =~= tail);
}

/// Of a number below 128 to the power of `digits`: at most that many digits, whose run
/// and value are those of the number.
pub proof fn lemma_encoding_digits(n: nat, digits: nat, limit: nat, tail: Seq<u8>)
    requires
        n < reader::digit_unit(digits),
        1 <= digits <= limit,
    ensures
        1 <= varint_encoding(n).len() <= digits,
        reader::continuation_run(varint_encoding(n) + tail, limit) == varint_encoding(n).len() - 1,
        reader::varint_value(varint_encoding(n) + tail, varint_encoding(n).len()) == n,
    decreases digits,
{
    let s = varint_encoding(n) + tail;
    if n < 128 {
        assert(s[0] == n as u8);
        assert(reader::varint_value(s, 1) == (s[0] % 128) as nat + 128 * reader::varint_value(
            s.skip(1),
            0,
        ));
    } else {
        assert(digits > 1) by {
            if digits == 1 {
                assert(reader::digit_unit(1) == 128 * reader::digit_unit(0));
            }
        }
        let unit = reader::digit_unit((digits - 1) as nat);
        assert(n / 128 < unit) by (nonlinear_arith)
            requires
                n < 128 * unit,
        ;
        lemma_encoding_digits(n / 128, (digits - 1) as nat, (limit - 1) as nat, tail);
        assert(s.skip(1) =~= varint_encoding(n / 128) + tail);
        assert(s[0] == (n % 128 + 128) as u8);
        assert(s[0] % 128 == n % 128);
    }
}

} // verus!
