//! PUBACK, PUBREC, PUBREL and PUBCOMP: packets that carry an identifier alone.

use super::error;
use super::error::Error;
use super::error::ErrorKind;
use super::reader;
use super::reader::Reader;
use super::MQTTMessageType;
use super::ToBytes;
use vstd::prelude::*;

verus! {

/// The faults that reading such a packet can find, beside a packet that is too short.
pub struct AckFaults {
    pub flags: &'static str,
    pub length: &'static str,
    pub end: &'static str,
}

/// What reading `buf` makes of the identifier `id`, and the outcome. The low four bits of
/// the first byte have to be `flags`, the announced length 2.
pub open spec fn read_ack(id: u16, buf: Seq<u8>, flags: u8, faults: AckFaults) -> (
    u16,
    Result<(), Error>,
) {
    match reader::take_u8(buf) {
        Err(e) => (id, Err(e)),
        Ok((fixed, s)) => if fixed % 16 != flags {
            (id, Err(error::other(faults.flags)))
        } else {
            match reader::take_varint(s) {
                Err(e) => (id, Err(e)),
                Ok(((len, _), s)) => if len != 2 {
                    (id, Err(error::other(faults.length)))
                } else {
                    match reader::take_u16(s) {
                        Err(e) => (id, Err(e)),
                        Ok((id, s)) => (
                            id,
                            if s.len() == 0 {
                                Ok(())
                            } else {
                                Err(error::invalid_data(faults.end))
                            },
                        ),
                    }
                },
            }
        },
    }
}

/// The bytes of such a packet.
pub open spec fn ack_encoding(header: u8, id: u16) -> Seq<u8> {
    seq![header, 2u8] + super::u16_bytes(id)
}

fn parse_ack(identifier: &mut u16, buf: &[u8], flags: u8, faults: AckFaults) -> (r: Result<
    (),
    Error,
>)
    ensures
        (*final(identifier), r) == read_ack(*old(identifier), buf@, flags, faults),
{
    let mut r = Reader::new(buf);
    let fixed = r.read_u8()?;
    if fixed % 16 != flags {
        return Err(Error::new(ErrorKind::Other, faults.flags));
    }
    let (len, _) = r.read_varint()?;
    if len != 2 {
        return Err(Error::new(ErrorKind::Other, faults.length));
    }
    *identifier = r.read_u16()?;
    r.expect_end(faults.end)
}

fn write_ack(header: u8, identifier: u16) -> (encoded: Vec<u8>)
    ensures
        encoded@ == ack_encoding(header, identifier),
{
    let mut encoded: Vec<u8> = Vec::new();
    encoded.push(header);
    encoded.push(2);
    super::push_u16(&mut encoded, identifier);
    assert(encoded@ =~= ack_encoding(header, identifier));
    encoded
}

/// An identifier that is sent is read back, whatever the reader held.
pub proof fn law_ack_round_trip(start: u16, header: u8, id: u16, faults: AckFaults)
    ensures
        read_ack(start, ack_encoding(header, id), header % 16, faults) == (
            id,
            Ok::<(), Error>(()),
        ),
{
    let buf = ack_encoding(header, id);
    let s = buf.skip(1);
    super::length::law_length_read_back(2, super::u16_bytes(id));
    assert(super::length::varint_encoding(2) =~= seq![2u8]);
    assert(s =~= seq![2u8] + super::u16_bytes(id));
    assert(reader::be16(super::u16_bytes(id)[0], super::u16_bytes(id)[1]) == id);
}

/// PUBACK: acknowledges a message of QoS 1.
#[derive(Copy, Clone, PartialEq, Eq, Debug)]
pub struct MQTTMessagePuback {
    identifier: u16,
}

/// The faults of a PUBACK packet.
pub open spec fn puback_faults() -> AckFaults {
    AckFaults {
        flags: "Puback invalid flags",
        length: "Puback invalid length",
        end: "Puback message length incorrect",
    }
}

impl View for MQTTMessagePuback {
    type V = u16;

    closed spec fn view(&self) -> u16 {
        self.identifier
    }
}

impl MQTTMessagePuback {
    pub fn new() -> (r: MQTTMessagePuback)
        ensures
            r@ == 0,
    {
        MQTTMessagePuback { identifier: 0 }
    }

    pub fn set_identifier(&mut self, id: u16)
        ensures
            final(self)@ == id,
    {
        self.identifier = id;
    }

    pub fn get_identifier(&self) -> (id: u16)
        ensures
            id == self@,
    {
        self.identifier
    }

    /// Reads a whole packet.
    pub fn from_bytes(&mut self, buf: &[u8]) -> (r: Result<(), Error>)
        ensures
            (final(self)@, r) == read_ack(old(self)@, buf@, 0, puback_faults()),
    {
        let faults = AckFaults {
            flags: "Puback invalid flags",
            length: "Puback invalid length",
            end: "Puback message length incorrect",
        };
        parse_ack(&mut self.identifier, buf, 0, faults)
    }
}

impl ToBytes for MQTTMessagePuback {
    open spec fn encodable(&self) -> bool {
        true
    }

    open spec fn encoding(&self) -> Seq<u8> {
        ack_encoding(0x40, self@)
    }

    fn to_bytes(&self) -> (encoded: Vec<u8>) {
        write_ack(MQTTMessageType::PubAck.header(), self.identifier)
    }
}

/// PUBREC: says that a message of QoS 2 has been received.
#[derive(Copy, Clone, PartialEq, Eq, Debug)]
pub struct MQTTMessagePubrec {
    identifier: u16,
}

/// The faults of a PUBREC packet.
pub open spec fn pubrec_faults() -> AckFaults {
    AckFaults {
        flags: "Pubrec invalid flags",
        length: "Pubrec invalid length",
        end: "Pubrec message length incorrect",
    }
}

impl View for MQTTMessagePubrec {
    type V = u16;

    closed spec fn view(&self) -> u16 {
        self.identifier
    }
}

impl MQTTMessagePubrec {
    pub fn new() -> (r: MQTTMessagePubrec)
        ensures
            r@ == 0,
    {
        MQTTMessagePubrec { identifier: 0 }
    }

    pub fn set_identifier(&mut self, id: u16)
        ensures
            final(self)@ == id,
    {
        self.identifier = id;
    }

    pub fn get_identifier(&self) -> (id: u16)
        ensures
            id == self@,
    {
        self.identifier
    }

    /// Reads a whole packet.
    pub fn from_bytes(&mut self, buf: &[u8]) -> (r: Result<(), Error>)
        ensures
            (final(self)@, r) == read_ack(old(self)@, buf@, 0, pubrec_faults()),
    {
        let faults = AckFaults {
            flags: "Pubrec invalid flags",
            length: "Pubrec invalid length",
            end: "Pubrec message length incorrect",
        };
        parse_ack(&mut self.identifier, buf, 0, faults)
    }
}

impl ToBytes for MQTTMessagePubrec {
    open spec fn encodable(&self) -> bool {
        true
    }

    open spec fn encoding(&self) -> Seq<u8> {
        ack_encoding(0x50, self@)
    }

    fn to_bytes(&self) -> (encoded: Vec<u8>) {
        write_ack(MQTTMessageType::PubRec.header(), self.identifier)
    }
}

/// PUBREL: releases a message of QoS 2.
#[derive(Copy, Clone, PartialEq, Eq, Debug)]
pub struct MQTTMessagePubrel {
    identifier: u16,
}

/// The faults of a PUBREL packet.
pub open spec fn pubrel_faults() -> AckFaults {
    AckFaults {
        flags: "Pubrel invalid flags",
        length: "Pubrel invalid length",
        end: "Pubrel message length incorrect",
    }
}

impl View for MQTTMessagePubrel {
    type V = u16;

    closed spec fn view(&self) -> u16 {
        self.identifier
    }
}

impl MQTTMessagePubrel {
    pub fn new() -> (r: MQTTMessagePubrel)
        ensures
            r@ == 0,
    {
        MQTTMessagePubrel { identifier: 0 }
    }

    pub fn set_identifier(&mut self, id: u16)
        ensures
            final(self)@ == id,
    {
        self.identifier = id;
    }

    pub fn get_identifier(&self) -> (id: u16)
        ensures
            id == self@,
    {
        self.identifier
    }

    /// Reads a whole packet.
    pub fn from_bytes(&mut self, buf: &[u8]) -> (r: Result<(), Error>)
        ensures
            (final(self)@, r) == read_ack(old(self)@, buf@, 2, pubrel_faults()),
    {
        let faults = AckFaults {
            flags: "Pubrel invalid flags",
            length: "Pubrel invalid length",
            end: "Pubrel message length incorrect",
        };
        parse_ack(&mut self.identifier, buf, 2, faults)
    }
}

impl ToBytes for MQTTMessagePubrel {
    open spec fn encodable(&self) -> bool {
        true
    }

    open spec fn encoding(&self) -> Seq<u8> {
        ack_encoding(0x62, self@)
    }

    fn to_bytes(&self) -> (encoded: Vec<u8>) {
        // The protocol fixes the flags of PUBREL to 0b0010.
        write_ack(MQTTMessageType::PubRel.header() + 2, self.identifier)
    }
}

/// PUBCOMP: completes the delivery of a message of QoS 2.
#[derive(Copy, Clone, PartialEq, Eq, Debug)]
pub struct MQTTMessagePubcomp {
    identifier: u16,
}

/// The faults of a PUBCOMP packet.
pub open spec fn pubcomp_faults() -> AckFaults {
    AckFaults {
        flags: "Pubcomp invalid flags",
        length: "Pubcomp invalid length",
        end: "Pubcomp message length incorrect",
    }
}

impl View for MQTTMessagePubcomp {
    type V = u16;

    closed spec fn view(&self) -> u16 {
        self.identifier
    }
}

impl MQTTMessagePubcomp {
    pub fn new() -> (r: MQTTMessagePubcomp)
        ensures
            r@ == 0,
    {
        MQTTMessagePubcomp { identifier: 0 }
    }

    pub fn set_identifier(&mut self, id: u16)
        ensures
            final(self)@ == id,
    {
        self.identifier = id;
    }

    pub fn get_identifier(&self) -> (id: u16)
        ensures
            id == self@,
    {
        self.identifier
    }

    /// Reads a whole packet.
    pub fn from_bytes(&mut self, buf: &[u8]) -> (r: Result<(), Error>)
        ensures
            (final(self)@, r) == read_ack(old(self)@, buf@, 0, pubcomp_faults()),
    {
        let faults = AckFaults {
            flags: "Pubcomp invalid flags",
            length: "Pubcomp invalid length",
            end: "Pubcomp message length incorrect",
        };
        parse_ack(&mut self.identifier, buf, 0, faults)
    }
}

impl ToBytes for MQTTMessagePubcomp {
    open spec fn encodable(&self) -> bool {
        true
    }

    open spec fn encoding(&self) -> Seq<u8> {
        ack_encoding(0x70, self@)
    }

    fn to_bytes(&self) -> (encoded: Vec<u8>) {
        write_ack(MQTTMessageType::PubComp.header(), self.identifier)
    }
}

} // verus!
