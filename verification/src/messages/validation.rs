//! Which client identifiers, topics and topic filters are allowed.

use vstd::prelude::*;
use vstd::utf8::*;

verus! {

/// Whether `b` continues a multi-byte sequence.
pub open spec fn continues(b: u8) -> bool {
    0x80 <= b < 0xc0
}

/// The number of bytes of the sequence that starts `s`, or 0 where no sequence does: the
/// first byte does not start one, or fewer bytes are left than it announces.
pub open spec fn scan_width(s: Seq<u8>) -> nat {
    if s[0] < 0x80 {
        1
    } else if 0xc0 <= s[0] < 0xe0 && s.len() >= 2 {
        2
    } else if 0xe0 <= s[0] < 0xf0 && s.len() >= 3 {
        3
    } else if 0xf0 <= s[0] < 0xf8 && s.len() >= 4 {
        4
    } else {
        0
    }
}

/// The value of the sequence that starts `s`: an ASCII byte itself, or the number that
/// the six low bits of each continuation byte form, the bits of the first byte left
/// out. 0 where no well-formed sequence starts `s`.
pub open spec fn scan_value(s: Seq<u8>) -> u32 {
    if scan_width(s) == 1 {
        s[0] as u32
    } else if scan_width(s) == 2 && continues(s[1]) {
        (s[1] % 64) as u32
    } else if scan_width(s) == 3 && continues(s[1]) && continues(s[2]) {
        ((s[1] % 64) * 64 + s[2] % 64) as u32
    } else if scan_width(s) == 4 && continues(s[1]) && continues(s[2]) && continues(s[3]) {
        ((s[1] % 64) * 4096 + (s[2] % 64) * 64 + s[3] % 64) as u32
    } else {
        0
    }
}

/// The values of the sequences that `s` consists of. Where no sequence starts, the
/// scan ends with a 0.
pub open spec fn scan(s: Seq<u8>) -> Seq<u32>
    decreases s.len(),
{
    if s.len() == 0 {
        seq![]
    } else if scan_width(s) == 0 {
        seq![0u32]
    } else {
        seq![scan_value(s)] + scan(s.skip(scan_width(s) as int))
    }
}

/// A client identifier: at most 65535 bytes, none of whose values is null.
pub open spec fn client_id_ok(s: Seq<u8>) -> bool {
    s.len() <= 65535 && !scan(s).contains(0)
}

/// The topic of a message: 1 to 65535 bytes, and neither a null nor a wildcard.
pub open spec fn publish_topic_ok(s: Seq<u8>) -> bool {
    &&& 1 <= s.len() <= 65535
    &&& forall|i: int|
        0 <= i < scan(s).len() ==> (#[trigger] scan(s)[i]) != 0 && scan(s)[i] != 0x2b && scan(
            s,
        )[i] != 0x23
}

/// Whether value `i` of a filter may stand where it does: no null; `#` and `+` only at
/// the start of a level; nothing behind `#`; only a `/` behind `+`.
pub open spec fn filter_value_ok(values: Seq<u32>, i: int) -> bool {
    &&& values[i] != 0
    &&& i > 0 ==> {
        &&& values[i - 1] != 0x23
        &&& values[i] == 0x23 || values[i] == 0x2b ==> values[i - 1] == 0x2f
        &&& values[i - 1] == 0x2b ==> values[i] == 0x2f
    }
}

/// A topic filter: 1 to 65535 bytes with each value in a place that allows it.
pub open spec fn topic_filter_ok(s: Seq<u8>) -> bool {
    &&& 1 <= s.len() <= 65535
    &&& forall|i: int| 0 <= i < scan(s).len() ==> #[trigger] filter_value_ok(scan(s), i)
}

/// The value that the scan gives for a character: of one that takes several bytes only the
/// bits in its continuation bytes. So U+00C0 counts as a null, U+012B as `+` and U+00E3 as
/// `#`.
pub open spec fn scanned(c: char) -> u32 {
    let v = c as u32;
    if v < 0x80 {
        v
    } else if v < 0x800 {
        v % 64
    } else if v < 0x10000 {
        v % 4096
    } else {
        v % 262144
    }
}

/// The values that the scan gives for a text.
pub open spec fn scanned_text(t: Seq<char>) -> Seq<u32> {
    t.map_values(|c: char| scanned(c))
}

/// The text of a topic: nothing that counts as a null or a wildcard.
pub open spec fn publish_topic_text(t: Seq<char>) -> bool {
    forall|i: int|
        0 <= i < t.len() ==> scanned(#[trigger] t[i]) != 0 && scanned(t[i]) != 0x2b && scanned(
            t[i],
        ) != 0x23
}

/// The text of a topic filter: nothing that counts as a null; what counts as `#` only as
/// a whole level and the last one, what counts as `+` only as a whole level.
pub open spec fn topic_filter_text(t: Seq<char>) -> bool {
    forall|i: int|
        0 <= i < t.len() ==> {
            &&& scanned(#[trigger] t[i]) != 0
            &&& scanned(t[i]) == 0x23 ==> i == t.len() - 1 && (i == 0 || scanned(t[i - 1])
                == 0x2f)
            &&& scanned(t[i]) == 0x2b ==> (i == 0 || scanned(t[i - 1]) == 0x2f) && (i == t.len()
                - 1 || scanned(t[i + 1]) == 0x2f)
        }
}

/// Walks over the values of a byte string.
pub struct UTF8Iterator<'a> {
    index: usize,
    length: usize,
    string: &'a [u8],
}

impl<'a> UTF8Iterator<'a> {
    pub closed spec fn wf(&self) -> bool {
        self.index <= self.length && self.length == self.string@.len()
    }

    /// The bytes that have not been walked over.
    pub closed spec fn rest(&self) -> Seq<u8> {
        self.string@.skip(self.index as int)
    }

    pub fn new(string: &'a [u8]) -> (r: UTF8Iterator<'a>)
        ensures
            r.wf(),
            r.rest() == string@,
    {
        let r = UTF8Iterator { index: 0, length: string.len(), string };
        assert(r.rest() =~= string@);
        r
    }

    /// The next value, or `None` at the end. Where no sequence starts, the value is 0
    /// and the iterator stays in its place.
    pub fn next(&mut self) -> (r: Option<u32>)
        requires
            old(self).wf(),
        ensures
            final(self).wf(),
            old(self).rest().len() == 0 ==> r is None && final(self).rest() == old(self).rest(),
            old(self).rest().len() > 0 ==> {
                &&& r == Some(scan_value(old(self).rest()))
                &&& final(self).rest() == old(self).rest().skip(
                    scan_width(old(self).rest()) as int,
                )
            },
    {
        if self.index < self.length {
            let ghost s = self.rest();
            let left = self.length - self.index;
            let mut value: u32 = 0;
            let mut width: usize = 0;
            let first = self.string[self.index];
            if first < 0x80 {
                value = first as u32;
                width = 1;
            } else if 0xc0 <= first && first < 0xe0 {
                if left >= 2 {
                    let b2 = self.string[self.index + 1];
                    if 0x80 <= b2 && b2 < 0xc0 {
                        value = (b2 % 64) as u32;
                    }
                    width = 2;
                }
            } else if 0xe0 <= first && first < 0xf0 {
                if left >= 3 {
                    let b2 = self.string[self.index + 1];
                    let b3 = self.string[self.index + 2];
                    if 0x80 <= b2 && b2 < 0xc0 && 0x80 <= b3 && b3 < 0xc0 {
                        value = (b2 % 64) as u32 * 64 + (b3 % 64) as u32;
                    }
                    width = 3;
                }
            } else if 0xf0 <= first && first < 0xf8 && left >= 4 {
                let b2 = self.string[self.index + 1];
                let b3 = self.string[self.index + 2];
                let b4 = self.string[self.index + 3];
                if 0x80 <= b2 && b2 < 0xc0 && 0x80 <= b3 && b3 < 0xc0 && 0x80 <= b4 && b4 < 0xc0 {
                    value = (b2 % 64) as u32 * 4096 + (b3 % 64) as u32 * 64 + (b4 % 64) as u32;
                }
                width = 4;
            }
            self.index = self.index + width;
            assert(self.rest() =~= s.skip(width as int));
            Some(value)
        } else {
            assert(self.rest().len() == 0);
            None
        }
    }
}

pub fn qos_valid(qos: u8) -> (b: bool)
    ensures
        b == (qos <= 2),
{
    qos <= 2
}

pub fn client_id_valid(string: &[u8]) -> (b: bool)
    ensures
        b == client_id_ok(string@),
        valid_utf8(string@) ==> b == (string@.len() <= 65535 && !scanned_text(
            decode_utf8(string@),
        ).contains(0)),
{
    proof {
        if valid_utf8(string@) {
            law_client_id_characters(string@);
        }
    }
    if string.len() > 65535 {
        return false;
    }
    let mut values = UTF8Iterator::new(string);
    let ghost mut seen: Seq<u32> = seq![];
    assert(seen + scan(string@) =~= scan(string@));
    loop
        invariant
            values.wf(),
            string@.len() <= 65535,
            valid_utf8(string@) ==> client_id_ok(string@) == (string@.len() <= 65535
                && !scanned_text(decode_utf8(string@)).contains(0)),
            scan(string@) == seen + scan(values.rest()),
            !seen.contains(0),
        decreases values.rest().len(),
    {
        let ghost rest = values.rest();
        match values.next() {
            None => {
                assert(scan(string@) =~= seen);
                return true;
            },
            Some(c) => {
                assert(scan(string@)[seen.len() as int] == c);
                if c == 0 {
                    // A null is not allowed.
                    return false;
                }
                proof {
                    lemma_scan_advance(rest, seen);
                    seen = seen.push(c);
                }
            },
        }
    }
}

pub fn publish_topic_valid(topic: &[u8]) -> (b: bool)
    ensures
        b == publish_topic_ok(topic@),
        valid_utf8(topic@) ==> b == (1 <= topic@.len() <= 65535 && publish_topic_text(
            decode_utf8(topic@),
        )),
{
    proof {
        if valid_utf8(topic@) {
            law_publish_topic_characters(topic@);
        }
    }
    let len = topic.len();
    if len < 1 || len > 65535 {
        return false;
    }
    let mut values = UTF8Iterator::new(topic);
    let ghost mut seen: Seq<u32> = seq![];
    assert(seen + scan(topic@) =~= scan(topic@));
    loop
        invariant
            values.wf(),
            1 <= topic@.len() <= 65535,
            valid_utf8(topic@) ==> publish_topic_ok(topic@) == (1 <= topic@.len() <= 65535
                && publish_topic_text(decode_utf8(topic@))),
            scan(topic@) == seen + scan(values.rest()),
            forall|i: int|
                0 <= i < seen.len() ==> (#[trigger] seen[i]) != 0 && seen[i] != 0x2b && seen[i]
                    != 0x23,
        decreases values.rest().len(),
    {
        let ghost rest = values.rest();
        match values.next() {
            None => {
                assert(scan(topic@) =~= seen);
                return true;
            },
            Some(c) => {
                assert(scan(topic@)[seen.len() as int] == c);
                if c == 0 || c == 0x2b || c == 0x23 {
                    // Neither a null nor `+` nor `#` is allowed.
                    return false;
                }
                proof {
                    lemma_scan_advance(rest, seen);
                    seen = seen.push(c);
                }
            },
        }
    }
}

pub fn topic_filter_valid(topic: &[u8]) -> (b: bool)
    ensures
        b == topic_filter_ok(topic@),
        valid_utf8(topic@) ==> b == (1 <= topic@.len() <= 65535 && topic_filter_text(
            decode_utf8(topic@),
        )),
{
    proof {
        if valid_utf8(topic@) {
            law_filter_wildcards(topic@);
        }
    }
    let len = topic.len();
    if len < 1 || len > 65535 {
        return false;
    }
    let mut previous: u32 = 0;
    let mut values = UTF8Iterator::new(topic);
    let ghost mut seen: Seq<u32> = seq![];
    assert(seen + scan(topic@) =~= scan(topic@));
    loop
        invariant
            values.wf(),
            1 <= topic@.len() <= 65535,
            valid_utf8(topic@) ==> topic_filter_ok(topic@) == (1 <= topic@.len() <= 65535
                && topic_filter_text(decode_utf8(topic@))),
            scan(topic@) == seen + scan(values.rest()),
            forall|i: int| 0 <= i < seen.len() ==> #[trigger] filter_value_ok(scan(topic@), i),
            previous == (if seen.len() == 0 {
                0
            } else {
                seen.last()
            }),
            seen.len() > 0 ==> previous != 0,
        decreases values.rest().len(),
    {
        let ghost rest = values.rest();
        let ghost all = scan(topic@);
        match values.next() {
            None => {
                assert(scan(topic@) =~= seen);
                return true;
            },
            Some(c) => {
                let ghost n = seen.len() as int;
                assert(all[n] == c);
                assert(n > 0 ==> all[n - 1] == previous);
                let bad = c == 0 || previous == 0x23 || ((c == 0x23 || c == 0x2b) && previous != 0
                    && previous != 0x2f) || (previous == 0x2b && c != 0x2f);
                assert(bad == !filter_value_ok(all, n));
                if bad {
                    return false;
                }
                previous = c;
                proof {
                    lemma_scan_advance(rest, seen);
                    seen = seen.push(c);
                }
            },
        }
    }
}

/// One step of a scan moves the first value of the rest to what has been seen.
proof fn lemma_scan_advance(rest: Seq<u8>, seen: Seq<u32>)
    requires
        rest.len() > 0,
        scan_value(rest) != 0,
    ensures
        scan_width(rest) > 0,
        seen + scan(rest) == seen.push(scan_value(rest)) + scan(
            rest.skip(scan_width(rest) as int),
        ),
{
    let next = scan(rest.skip(scan_width(rest) as int));
    assert(seen + (seq![scan_value(rest)] + next) =~= seen.push(scan_value(rest)) + next);
}

proof fn lemma_first_value(s: Seq<u8>)
    requires
        s.len() > 0,
        valid_first_scalar(s),
    ensures
        scan_width(s) == length_of_first_scalar(s),
        scan_value(s) == scanned(decode_first_scalar(s) as char),
{
    let b1 = s[0];
    let v = decode_first_scalar(s);
    if b1 < 0x80 {
        assert((b1 & 0x7f) as u32 == b1 as u32) by (bit_vector)
            requires
                b1 < 0x80,
        ;
    } else if b1 < 0xe0 {
        let b2 = s[1];
        assert((((b1 & 0x1f) as u32) << 6) | ((b2 & 0x3f) as u32) == (b1 % 32) * 64 + b2 % 64)
            by (bit_vector);
        assert(0x80 <= v < 0x800);
        assert(v % 64 == b2 % 64);
    } else if b1 < 0xf0 {
        let b2 = s[1];
        let b3 = s[2];
        assert((((b1 & 0x0f) as u32) << 12) | (((b2 & 0x3f) as u32) << 6) | ((b3 & 0x3f) as u32)
            == (b1 % 16) * 4096 + (b2 % 64) * 64 + b3 % 64) by (bit_vector);
        assert(0x800 <= v < 0x10000);
        assert(v % 4096 == (b2 % 64) * 64 + b3 % 64);
    } else {
        let b2 = s[1];
        let b3 = s[2];
        let b4 = s[3];
        assert((((b1 & 0x07) as u32) << 18) | (((b2 & 0x3f) as u32) << 12) | (((b3 & 0x3f) as u32)
            << 6) | ((b4 & 0x3f) as u32) == (b1 % 8) * 262144 + (b2 % 64) * 4096 + (b3 % 64) * 64
            + b4 % 64) by (bit_vector);
        assert(0x10000 <= v);
        assert(v % 262144 == (b2 % 64) * 4096 + (b3 % 64) * 64 + b4 % 64);
    }
}

/// Of valid UTF-8 the scan gives a value for each character.
pub proof fn law_scan_characters(s: Seq<u8>)
    requires
        valid_utf8(s),
    ensures
        scan(s) == scanned_text(decode_utf8(s)),
    decreases s.len(),
{
    let values = scanned_text(decode_utf8(s));
    if s.len() == 0 {
        assert(scan(s) =~= values);
    } else {
        lemma_first_value(s);
        let rest = pop_first_scalar(s);
        assert(rest =~= s.skip(scan_width(s) as int));
        law_scan_characters(rest);
        assert(scan(s) =~= values);
    }
}

/// A client identifier in valid UTF-8 is allowed exactly if it is not too long and has no
/// character that counts as a null.
pub proof fn law_client_id_characters(s: Seq<u8>)
    requires
        valid_utf8(s),
    ensures
        client_id_ok(s) == (s.len() <= 65535 && !scanned_text(decode_utf8(s)).contains(0)),
{
    law_scan_characters(s);
}

/// A topic in valid UTF-8 is allowed exactly if it is neither empty nor too long and has
/// no character that counts as a null or a wildcard.
pub proof fn law_publish_topic_characters(s: Seq<u8>)
    requires
        valid_utf8(s),
    ensures
        publish_topic_ok(s) == (1 <= s.len() <= 65535 && publish_topic_text(decode_utf8(s))),
{
    let t = decode_utf8(s);
    law_scan_characters(s);
    if publish_topic_ok(s) {
        assert forall|i: int| 0 <= i < t.len() implies scanned(#[trigger] t[i]) != 0 && scanned(
            t[i],
        ) != 0x2b && scanned(t[i]) != 0x23 by {
            assert(scan(s)[i] == scanned(t[i]));
        }
    }
    if publish_topic_text(t) {
        assert forall|i: int| 0 <= i < scan(s).len() implies (#[trigger] scan(s)[i]) != 0
            && scan(s)[i] != 0x2b && scan(s)[i] != 0x23 by {
            assert(scan(s)[i] == scanned(t[i]));
        }
    }
}

/// Where wildcards may stand in a filter in valid UTF-8: what counts as `#` only as a
/// whole level and the last one, what counts as `+` only as a whole level.
pub proof fn law_filter_wildcards(s: Seq<u8>)
    requires
        valid_utf8(s),
    ensures
        topic_filter_ok(s) == (1 <= s.len() <= 65535 && topic_filter_text(decode_utf8(s))),
{
    let t = decode_utf8(s);
    let values = scan(s);
    law_scan_characters(s);
    if topic_filter_ok(s) {
        assert forall|i: int| 0 <= i < t.len() implies {
            &&& scanned(#[trigger] t[i]) != 0
            &&& scanned(t[i]) == 0x23 ==> i == t.len() - 1 && (i == 0 || scanned(t[i - 1])
                == 0x2f)
            &&& scanned(t[i]) == 0x2b ==> (i == 0 || scanned(t[i - 1]) == 0x2f) && (i == t.len()
                - 1 || scanned(t[i + 1]) == 0x2f)
        } by {
            assert(filter_value_ok(values, i));
            assert(values[i] == scanned(t[i]));
            if i > 0 {
                assert(values[i - 1] == scanned(t[i - 1]));
            }
            if i < t.len() - 1 {
                assert(filter_value_ok(values, i + 1));
                assert(values[i + 1] == scanned(t[i + 1]));
            }
        }
    }
    if 1 <= s.len() <= 65535 && topic_filter_text(t) {
        assert forall|i: int| 0 <= i < values.len() implies #[trigger] filter_value_ok(
            values,
            i,
        ) by {
            assert(values[i] == scanned(t[i]) && scanned(t[i]) != 0);
            if i > 0 {
                assert(values[i - 1] == scanned(t[i - 1]) && scanned(t[i - 1]) != 0);
            }
        }
    }
}

/// No allowed identifier holds a null character, and no allowed topic holds a null
/// character or a wildcard.
pub proof fn law_no_null_no_wildcard(s: Seq<u8>)
    requires
        valid_utf8(s),
    ensures
        client_id_ok(s) ==> !decode_utf8(s).contains('\0'),
        publish_topic_ok(s) ==> !decode_utf8(s).contains('\0') && !decode_utf8(s).contains('+')
            && !decode_utf8(s).contains('#'),
        topic_filter_ok(s) ==> !decode_utf8(s).contains('\0'),
{
    let t = decode_utf8(s);
    law_scan_characters(s);
    assert forall|i: int| 0 <= i < t.len() implies #[trigger] scan(s)[i] == scanned(t[i]) by {}
    if t.contains('\0') {
        let i = choose|i: int| 0 <= i < t.len() && t[i] == '\0';
        assert(scan(s)[i] == 0);
        assert(!filter_value_ok(scan(s), i));
    }
    if t.contains('+') {
        let i = choose|i: int| 0 <= i < t.len() && t[i] == '+';
        assert(scan(s)[i] == 0x2b);
    }
    if t.contains('#') {
        let i = choose|i: int| 0 <= i < t.len() && t[i] == '#';
        assert(scan(s)[i] == 0x23);
    }
}

/// Of ASCII text the scan gives the bytes themselves.
pub proof fn law_scan_ascii(s: Seq<u8>)
    requires
        forall|i: int| 0 <= i < s.len() ==> s[i] < 0x80,
    ensures
        scan(s) == Seq::new(s.len(), |i: int| s[i] as u32),
    decreases s.len(),
{
    let whole = Seq::new(s.len(), |i: int| s[i] as u32);
    if s.len() == 0 {
        assert(scan(s) =~= whole);
    } else {
        law_scan_ascii(s.skip(1));
        assert(scan(s) =~= whole);
    }
}

/// Every topic that a message may be published to is also a topic filter.
pub proof fn law_publish_topic_is_filter(s: Seq<u8>)
    requires
        publish_topic_ok(s),
    ensures
        topic_filter_ok(s),
{
    assert forall|i: int| 0 <= i < scan(s).len() implies #[trigger] filter_value_ok(
        scan(s),
        i,
    ) by {
        let v = scan(s)[i];
        if i > 0 {
            let p = scan(s)[i - 1];
        }
    }
}

} // verus!
