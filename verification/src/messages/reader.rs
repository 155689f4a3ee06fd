//! A non-panicking cursor over a borrowed byte slice.
//!
//! Every method returns an error where the packet is too short, so lengths that a
//! client made up are safe to pass in. The model of a reader is the sequence of the
//! bytes still unread; the `take_` functions say what each method hands out and what
//! it leaves.

use super::error;
use super::error::Error;
use super::error::ErrorKind;
use crate::text::string_from_utf8;
use vstd::prelude::*;
use vstd::slice::slice_subrange;
use vstd::slice::slice_to_vec;
use vstd::utf8::*;

verus! {

/// The error for a packet that ends inside a field.
pub open spec fn end_of_packet() -> Error {
    error::invalid_data("unexpected end of packet")
}

/// The number that two bytes encode, the more significant one first.
pub open spec fn be16(hi: u8, lo: u8) -> u16 {
    (hi * 256 + lo) as u16
}

/// Splits one byte off `s`.
pub open spec fn take_u8(s: Seq<u8>) -> Result<(u8, Seq<u8>), Error> {
    if s.len() < 1 {
        Err(end_of_packet())
    } else {
        Ok((s[0], s.skip(1)))
    }
}

/// Splits a big-endian number of two bytes off `s`.
pub open spec fn take_u16(s: Seq<u8>) -> Result<(u16, Seq<u8>), Error> {
    if s.len() < 2 {
        Err(end_of_packet())
    } else {
        Ok((be16(s[0], s[1]), s.skip(2)))
    }
}

/// Splits `n` bytes off `s`.
pub open spec fn take_bytes(s: Seq<u8>, n: nat) -> Result<(Seq<u8>, Seq<u8>), Error> {
    if s.len() < n {
        Err(end_of_packet())
    } else {
        Ok((s.take(n as int), s.skip(n as int)))
    }
}

/// Splits `n` bytes off `s` and reads them as UTF-8.
pub open spec fn take_string(s: Seq<u8>, n: nat) -> Result<(Seq<char>, Seq<u8>), Error> {
    match take_bytes(s, n) {
        Err(e) => Err(e),
        Ok((bytes, rest)) => if valid_utf8(bytes) {
            Ok((decode_utf8(bytes), rest))
        } else {
            Err(error::invalid_data("invalid UTF-8 in string field"))
        },
    }
}

/// Splits a string off `s` that a big-endian length of two bytes precedes.
pub open spec fn take_string_prefixed(s: Seq<u8>) -> Result<(Seq<char>, Seq<u8>), Error> {
    match take_u16(s) {
        Err(e) => Err(e),
        Ok((n, rest)) => take_string(rest, n as nat),
    }
}

/// The number of bytes at the start of `s` that announce another digit of a
/// variable-length integer, counted up to `limit`.
pub open spec fn continuation_run(s: Seq<u8>, limit: nat) -> nat
    decreases limit,
{
    if limit == 0 || s.len() == 0 || s[0] < 0x80 {
        0
    } else {
        1 + continuation_run(s.skip(1), (limit - 1) as nat)
    }
}

/// The value of the first `n` digits of a variable-length integer, seven bits each
/// and the least significant first.
pub open spec fn varint_value(s: Seq<u8>, n: nat) -> nat
    decreases n,
{
    if n == 0 {
        0
    } else {
        (s[0] % 128) as nat + 128 * varint_value(s.skip(1), (n - 1) as nat)
    }
}

/// Splits a variable-length integer of one to four bytes off `s`: its value, how many
/// bytes it takes, and what follows it.
pub open spec fn take_varint(s: Seq<u8>) -> Result<((nat, nat), Seq<u8>), Error> {
    let run = continuation_run(s, 4);
    if s.len() <= run {
        Err(end_of_packet())
    } else if run == 4 {
        Err(error::invalid_data("variable-length integer too long"))
    } else {
        Ok(((varint_value(s, run + 1), run + 1), s.skip(run as int + 1)))
    }
}

/// What a reader at `s` has left after a string of `n` bytes could not be read: the
/// bytes are gone only where there were enough of them.
pub open spec fn rest_after_bad_string(s: Seq<u8>, n: nat) -> Seq<u8> {
    match take_bytes(s, n) {
        Ok((_, rest)) => rest,
        Err(_) => s,
    }
}

/// 128 to the power of `n`: what one more in digit `n` of a variable-length integer
/// is worth.
pub open spec fn digit_unit(n: nat) -> nat
    decreases n,
{
    if n == 0 {
        1
    } else {
        128 * digit_unit((n - 1) as nat)
    }
}

pub proof fn lemma_varint_step(s: Seq<u8>, n: nat)
    requires
        n < s.len(),
    ensures
        varint_value(s, n + 1) == varint_value(s, n) + (s[n as int] % 128) * digit_unit(n),
        digit_unit(n + 1) == 128 * digit_unit(n),
    decreases n,
{
    if n > 0 {
        let t = s.skip(1);
        let m = (n - 1) as nat;
        lemma_varint_step(t, m);
        let d = (s[n as int] % 128) as nat;
        let u = digit_unit(m);
        let v = varint_value(t, m);
        assert(t[m as int] == s[n as int]);
        assert(varint_value(s, n + 1) == (s[0] % 128) as nat + 128 * varint_value(t, n));
        assert(varint_value(s, n) == (s[0] % 128) as nat + 128 * v);
        assert(varint_value(t, n) == v + d * u);
        assert(digit_unit(n) == 128 * u);
        assert(128 * (v + d * u) == 128 * v + d * (128 * u)) by (nonlinear_arith);
        assert((s[n as int] % 128) * digit_unit(n) == d * (128 * u));
    } else {
        let d = (s[0] % 128) as nat;
        let u = digit_unit(0);
        assert(varint_value(s, 1) == d + 128 * varint_value(s.skip(1), 0));
        assert(d * u == d) by (nonlinear_arith)
            requires
                u == 1,
        ;
    }
}

pub proof fn lemma_run_bound(s: Seq<u8>, limit: nat)
    ensures
        continuation_run(s, limit) <= limit,
        continuation_run(s, limit) <= s.len(),
    decreases limit,
{
    if limit > 0 && s.len() > 0 {
        lemma_run_bound(s.skip(1), (limit - 1) as nat);
    }
}

/// The digit at `d` announces another one exactly where the run goes beyond `d`.
pub proof fn lemma_run_bit(s: Seq<u8>, d: nat, limit: nat)
    requires
        d <= continuation_run(s, limit),
        d < s.len(),
        d < limit,
    ensures
        s[d as int] >= 0x80 <==> d < continuation_run(s, limit),
    decreases d,
{
    if d > 0 {
        lemma_run_bit(s.skip(1), (d - 1) as nat, (limit - 1) as nat);
    }
}

pub struct Reader<'a> {
    buf: &'a [u8],
    pos: usize,
}

impl<'a> Reader<'a> {
    /// The bytes still unread.
    pub closed spec fn rest(&self) -> Seq<u8> {
        if self.pos <= self.buf@.len() {
            self.buf@.skip(self.pos as int)
        } else {
            Seq::empty()
        }
    }

    pub fn new(buf: &'a [u8]) -> (r: Self)
        ensures
            r.rest() == buf@,
    {
        let r = Reader { buf, pos: 0 };
        assert(r.rest() =~= buf@);
        r
    }

    /// The number of bytes still unread.
    pub fn remaining(&self) -> (n: usize)
        ensures
            n == self.rest().len(),
    {
        self.buf.len().saturating_sub(self.pos)
    }

    pub fn is_empty(&self) -> (b: bool)
        ensures
            b == (self.rest().len() == 0),
    {
        self.remaining() == 0
    }

    fn need(&self, n: usize) -> (r: Result<(), Error>)
        ensures
            r == (if self.rest().len() < n {
                Err::<(), Error>(end_of_packet())
            } else {
                Ok(())
            }),
            r is Ok && n > 0 ==> self.pos + n <= self.buf.len(),
    {
        if self.remaining() < n {
            Err(Error::new(ErrorKind::InvalidData, "unexpected end of packet"))
        } else {
            Ok(())
        }
    }

    /// Reads a single byte.
    pub fn read_u8(&mut self) -> (r: Result<u8, Error>)
        ensures
            match take_u8(old(self).rest()) {
                Ok((b, rest)) => r == Ok::<u8, Error>(b) && final(self).rest() == rest,
                Err(e) => r == Err::<u8, Error>(e) && final(self).rest() == old(self).rest(),
            },
    {
        self.need(1)?;
        let b = self.buf[self.pos];
        self.pos += 1;
        assert(self.rest() =~= old(self).rest().skip(1));
        Ok(b)
    }

    /// Reads a big-endian number of two bytes.
    pub fn read_u16(&mut self) -> (r: Result<u16, Error>)
        ensures
            match take_u16(old(self).rest()) {
                Ok((v, rest)) => r == Ok::<u16, Error>(v) && final(self).rest() == rest,
                Err(e) => r == Err::<u16, Error>(e) && final(self).rest() == old(self).rest(),
            },
    {
        self.need(2)?;
        let hi = self.buf[self.pos] as u16;
        let lo = self.buf[self.pos + 1] as u16;
        self.pos += 2;
        assert(self.rest() =~= old(self).rest().skip(2));
        assert((hi << 8) | lo == hi * 256 + lo) by (bit_vector)
            requires
                hi < 256,
                lo < 256,
        ;
        Ok((hi << 8) | lo)
    }

    /// Reads exactly `n` bytes.
    pub fn read_bytes(&mut self, n: usize) -> (r: Result<&'a [u8], Error>)
        ensures
            match take_bytes(old(self).rest(), n as nat) {
                Ok((bytes, rest)) => r is Ok && r->Ok_0@ == bytes && final(self).rest() == rest,
                Err(e) => r == Err::<&'a [u8], Error>(e) && final(self).rest() == old(
                    self,
                ).rest(),
            },
    {
        self.need(n)?;
        if n == 0 {
            let s: &'a [u8] = slice_subrange(self.buf, 0, 0);
            assert(s@ =~= self.rest().take(0));
            assert(self.rest() =~= self.rest().skip(0));
            return Ok(s);
        }
        let s: &'a [u8] = slice_subrange(self.buf, self.pos, self.pos + n);
        assert(s@ =~= self.rest().take(n as int));
        self.pos += n;
        assert(self.rest() =~= old(self).rest().skip(n as int));
        Ok(s)
    }

    /// Reads `len` bytes as UTF-8; invalid sequences are an error.
    pub fn read_mqtt_string(&mut self, len: usize) -> (r: Result<String, Error>)
        ensures
            match take_string(old(self).rest(), len as nat) {
                Ok((s, rest)) => r is Ok && r->Ok_0@ == s && final(self).rest() == rest,
                Err(e) => {
                    &&& r == Err::<String, Error>(e)
                    &&& final(self).rest() == rest_after_bad_string(old(self).rest(), len as nat)
                },
            },
    {
        let bytes = self.read_bytes(len)?;
        match string_from_utf8(slice_to_vec(bytes)) {
            Some(s) => Ok(s),
            None => Err(Error::new(ErrorKind::InvalidData, "invalid UTF-8 in string field")),
        }
    }

    /// Reads a big-endian length of two bytes, then the UTF-8 string it describes.
    pub fn read_mqtt_string_prefixed(&mut self) -> (r: Result<String, Error>)
        ensures
            match take_string_prefixed(old(self).rest()) {
                Ok((s, rest)) => r is Ok && r->Ok_0@ == s && final(self).rest() == rest,
                Err(e) => {
                    &&& r == Err::<String, Error>(e)
                    &&& final(self).rest() == match take_u16(old(self).rest()) {
                        Ok((n, rest)) => rest_after_bad_string(rest, n as nat),
                        Err(_) => old(self).rest(),
                    }
                },
            },
    {
        let len = self.read_u16()? as usize;
        self.read_mqtt_string(len)
    }

    /// Reads a variable-length integer (one to four bytes): the value and the number
    /// of bytes it took. A failed read leaves the reader behind the digits it saw.
    pub fn read_varint(&mut self) -> (r: Result<(usize, usize), Error>)
        ensures
            match take_varint(old(self).rest()) {
                Ok(((value, size), rest)) => {
                    &&& r is Ok
                    &&& r->Ok_0.0 == value
                    &&& r->Ok_0.1 == size
                    &&& final(self).rest() == rest
                },
                Err(e) => {
                    &&& r == Err::<(usize, usize), Error>(e)
                    &&& final(self).rest() == old(self).rest().skip(
                        continuation_run(old(self).rest(), 4) as int,
                    )
                },
            },
    {
        let ghost s = old(self).rest();
        proof {
            lemma_run_bound(s, 4);
        }
        let start = self.pos;
        let mut digits: usize = 0;
        let mut value: usize = 0;
        let mut unit: usize = 1;
        assert(s.skip(0) =~= s);
        loop
            invariant
                s == old(self).rest(),
                digits <= 4,
                digits <= continuation_run(s, 4) <= s.len(),
                continuation_run(s, 4) <= 4,
                self.buf == old(self).buf,
                start == old(self).pos,
                self.pos == start + digits,
                self.pos > self.buf@.len() ==> s.len() == 0,
                self.rest() == s.skip(digits as int),
                value == varint_value(s, digits as nat),
                unit == digit_unit(digits as nat),
                value < unit <= 0x1000_0000,
            decreases 4 - digits,
        {
            proof {
                if digits < s.len() {
                    lemma_varint_step(s, digits as nat);
                    if digits < 4 {
                        lemma_run_bit(s, digits as nat, 4);
                    }
                }
            }
            self.need(1)?;
            if digits == 4 {
                return Err(
                    Error::new(ErrorKind::InvalidData, "variable-length integer too long"),
                );
            }
            let b = self.buf[self.pos];
            assert(b == s[digits as int]);
            let digit = (b % 128) as usize;
            proof {
                reveal_with_fuel(digit_unit, 5);
                assert(unit <= 0x20_0000);
                assert(digit * unit <= 127 * unit) by (nonlinear_arith)
                    requires
                        digit <= 127,
                ;
            }
            value = value + digit * unit;
            digits = digits + 1;
            self.pos += 1;
            assert(self.rest() =~= s.skip(digits as int));
            if b < 0x80 {
                return Ok((value, self.pos - start));
            }
            unit = unit * 128;
        }
    }

    /// Skips exactly `n` bytes.
    pub fn skip(&mut self, n: usize) -> (r: Result<(), Error>)
        ensures
            match take_bytes(old(self).rest(), n as nat) {
                Ok((_, rest)) => r == Ok::<(), Error>(()) && final(self).rest() == rest,
                Err(e) => r == Err::<(), Error>(e) && final(self).rest() == old(self).rest(),
            },
    {
        let _ = self.read_bytes(n)?;
        Ok(())
    }

    /// Checks that all bytes have been read: the last test of each parser.
    pub fn expect_end(&self, context: &'static str) -> (r: Result<(), Error>)
        ensures
            r == (if self.rest().len() == 0 {
                Ok::<(), Error>(())
            } else {
                Err(error::invalid_data(context))
            }),
    {
        if self.remaining() == 0 {
            Ok(())
        } else {
            Err(Error::new(ErrorKind::InvalidData, context))
        }
    }
}

} // verus!
