//! PUBLISH.

use super::error;
use super::error::Error;
use super::error::ErrorKind;
use super::length;
use super::length::encode_length;
use super::reader;
use super::reader::Reader;
use super::validation;
use super::validation::publish_topic_valid;
use super::validation::qos_valid;
use super::MQTTMessageType;
use super::MQTTQos;
use super::ToBytes;
use crate::text::string_from_utf8;
use vstd::prelude::*;
use vstd::slice::slice_to_vec;
use vstd::utf8::*;

verus! {

/// The contents of a PUBLISH packet.
#[verifier::ext_equal]
pub struct PublishView {
    pub identifier: u16,
    pub topic: Seq<char>,
    pub message: Seq<u8>,
    pub retain: bool,
    pub dup: bool,
    pub qos: u8,
}

/// An application message.
#[derive(PartialEq, Eq, Debug)]
pub struct MQTTMessagePublish {
    identifier: u16,
    topic: String,
    message: Vec<u8>,
    retain: bool,
    dup: bool,
    qos: u8,
}

impl View for MQTTMessagePublish {
    type V = PublishView;

    closed spec fn view(&self) -> PublishView {
        PublishView {
            identifier: self.identifier,
            topic: self.topic@,
            message: self.message@,
            retain: self.retain,
            dup: self.dup,
            qos: self.qos,
        }
    }
}

impl Clone for MQTTMessagePublish {
    fn clone(&self) -> (r: Self)
        ensures
            r@ == self@,
    {
        let message = slice_to_vec(self.message.as_slice());
        MQTTMessagePublish {
            identifier: self.identifier,
            topic: self.topic.clone(),
            message,
            retain: self.retain,
            dup: self.dup,
            qos: self.qos,
        }
    }
}

/// The flags and type of the first byte. The duplicate flag is never sent.
pub open spec fn publish_header(m: PublishView) -> u8 {
    let flags: u8 = if m.retain {
        0x30u8 | 1u8
    } else {
        0x30
    };
    if m.qos > 0 {
        flags | (m.qos << 1)
    } else {
        flags
    }
}

/// The two bytes in front of a topic of `n` bytes, of which only the sixteen low bits
/// are sent.
pub open spec fn topic_prefix(n: nat) -> Seq<u8> {
    seq![(n / 256 % 256) as u8, (n % 256) as u8]
}

/// The packet identifier, which only messages above QoS 0 carry.
pub open spec fn identifier_field(m: PublishView) -> Seq<u8> {
    if m.qos > 0 {
        super::u16_bytes(m.identifier)
    } else {
        seq![]
    }
}

/// What follows the length field.
pub open spec fn publish_body(m: PublishView) -> Seq<u8> {
    topic_prefix(encode_utf8(m.topic).len()) + encode_utf8(m.topic) + identifier_field(m)
        + m.message
}

/// The bytes of a PUBLISH packet.
pub open spec fn publish_encoding(m: PublishView) -> Seq<u8> {
    seq![publish_header(m)] + length::varint_encoding(publish_body(m).len()) + publish_body(m)
}

/// Reads the message that follows the topic: the last `len - used` bytes.
pub open spec fn read_payload(m: PublishView, len: nat, used: nat, s: Seq<u8>) -> (
    PublishView,
    Result<(), Error>,
) {
    if len < used {
        (m, Err(error::invalid_data("Publish length underflow")))
    } else {
        match reader::take_bytes(s, (len - used) as nat) {
            Err(e) => (m, Err(e)),
            Ok((message, rest)) => (
                PublishView { message, ..m },
                if rest.len() == 0 {
                    Ok(())
                } else {
                    Err(error::invalid_data("Publish message length incorrect"))
                },
            ),
        }
    }
}

/// Reads the topic, the packet identifier where there is one, and the message.
pub open spec fn read_publish_body(m: PublishView, len: nat, s: Seq<u8>) -> (
    PublishView,
    Result<(), Error>,
) {
    match reader::take_u16(s) {
        Err(e) => (m, Err(e)),
        Ok((topic_len, s)) => match reader::take_bytes(s, topic_len as nat) {
            Err(e) => (m, Err(e)),
            Ok((topic, s)) => if !validation::publish_topic_ok(topic) {
                (m, Err(error::other("Publish message invalid topic")))
            } else if !valid_utf8(topic) {
                (m, Err(error::invalid_data("Publish invalid topic UTF-8")))
            } else {
                let m = PublishView { topic: decode_utf8(topic), ..m };
                if m.qos == 0 {
                    read_payload(m, len, topic_len as nat + 2, s)
                } else {
                    match reader::take_u16(s) {
                        Err(e) => (m, Err(e)),
                        Ok((id, s)) => if id == 0 {
                            (m, Err(error::other("Publish zero identifier")))
                        } else {
                            read_payload(
                                PublishView { identifier: id, ..m },
                                len,
                                topic_len as nat + 4,
                                s,
                            )
                        },
                    }
                }
            },
        },
    }
}

/// What reading the packet `buf` into `m` makes of `m`, and the outcome. A field that
/// was read before a fault was found keeps what was read.
pub open spec fn read_publish(m: PublishView, buf: Seq<u8>) -> (PublishView, Result<(), Error>) {
    match reader::take_u8(buf) {
        Err(e) => (m, Err(e)),
        Ok((fixed, s)) => {
            let m = PublishView { dup: fixed & 0x8 == 0x8, qos: (fixed & 0x6) >> 1, ..m };
            if m.qos > 2 {
                (m, Err(error::other("Publish message invalid qos")))
            } else if m.dup && m.qos == 0 {
                (m, Err(error::other("Publish message invalid dup set and qos 0")))
            } else {
                let m = PublishView { retain: fixed & 1 == 1, ..m };
                match reader::take_varint(s) {
                    Err(e) => (m, Err(e)),
                    Ok(((len, _), s)) => read_publish_body(m, len, s),
                }
            }
        },
    }
}

/// A new message: QoS 0, no flags, nothing in it.
pub open spec fn publish_default() -> PublishView {
    PublishView {
        identifier: 0,
        topic: seq![],
        message: seq![],
        retain: false,
        dup: false,
        qos: 0,
    }
}

impl MQTTMessagePublish {
    pub fn new() -> (r: MQTTMessagePublish)
        ensures
            r@ == publish_default(),
    {
        let r = MQTTMessagePublish {
            identifier: 0,
            topic: String::new(),
            message: Vec::new(),
            retain: false,
            dup: false,
            qos: MQTTQos::QOS0.level(),
        };
        assert(r@ =~= publish_default());
        r
    }

    pub fn get_dup(&self) -> (b: bool)
        ensures
            b == self@.dup,
    {
        self.dup
    }

    pub fn set_dup(&mut self, dup: bool)
        ensures
            final(self)@ == (PublishView { dup, ..old(self)@ }),
    {
        self.dup = dup;
    }

    pub fn get_retain(&self) -> (b: bool)
        ensures
            b == self@.retain,
    {
        self.retain
    }

    pub fn set_retain(&mut self, retain: bool)
        ensures
            final(self)@ == (PublishView { retain, ..old(self)@ }),
    {
        self.retain = retain;
    }

    pub fn set_qos(&mut self, qos: u8)
        ensures
            final(self)@ == (PublishView { qos, ..old(self)@ }),
    {
        self.qos = qos;
    }

    pub fn get_qos(&self) -> (qos: u8)
        ensures
            qos == self@.qos,
    {
        self.qos
    }

    pub fn set_topic(&mut self, topic: String)
        ensures
            final(self)@ == (PublishView { topic: topic@, ..old(self)@ }),
    {
        self.topic = topic;
    }

    pub fn get_topic(&self) -> (topic: &String)
        ensures
            topic@ == self@.topic,
    {
        &self.topic
    }

    pub fn set_message(&mut self, message: Vec<u8>)
        ensures
            final(self)@ == (PublishView { message: message@, ..old(self)@ }),
    {
        self.message = message;
    }

    pub fn get_message(&self) -> (message: &Vec<u8>)
        ensures
            message@ == self@.message,
    {
        &self.message
    }

    pub fn get_identifier(&self) -> (id: u16)
        ensures
            id == self@.identifier,
    {
        self.identifier
    }

    pub fn set_identifier(&mut self, identifier: u16)
        ensures
            final(self)@ == (PublishView { identifier, ..old(self)@ }),
    {
        self.identifier = identifier;
    }

    /// Reads a whole packet.
    pub fn from_bytes(&mut self, buf: &[u8]) -> (r: Result<(), Error>)
        ensures
            (final(self)@, r) == read_publish(old(self)@, buf@),
    {
        let mut r = Reader::new(buf);

        // Fixed header: flags for duplicate, QoS and retain.
        let fixed = r.read_u8()?;
        self.dup = (fixed & 0x8) == 0x8;
        self.qos = (fixed & 0x6) >> 1;
        if !qos_valid(self.qos) {
            return Err(Error::new(ErrorKind::Other, "Publish message invalid qos"));
        }
        if self.dup && self.qos == 0 {
            return Err(
                Error::new(ErrorKind::Other, "Publish message invalid dup set and qos 0"),
            );
        }
        self.retain = (fixed & 1) == 1;

        let (len, _) = r.read_varint()?;

        // The topic.
        let topic_len = r.read_u16()? as usize;
        let topic_bytes = slice_to_vec(r.read_bytes(topic_len)?);
        if !publish_topic_valid(topic_bytes.as_slice()) {
            return Err(Error::new(ErrorKind::Other, "Publish message invalid topic"));
        }
        match string_from_utf8(topic_bytes) {
            Some(topic) => {
                self.topic = topic;
            },
            None => {
                return Err(Error::new(ErrorKind::InvalidData, "Publish invalid topic UTF-8"));
            },
        }

        // The packet identifier, above QoS 0 only.
        let mut used: usize = topic_len + 2;
        if self.qos > 0 {
            let id = r.read_u16()?;
            if id == 0 {
                return Err(Error::new(ErrorKind::Other, "Publish zero identifier"));
            }
            self.identifier = id;
            used = used + 2;
        }

        // The message: what is left of the announced length.
        if len < used {
            return Err(Error::new(ErrorKind::InvalidData, "Publish length underflow"));
        }
        self.message = slice_to_vec(r.read_bytes(len - used)?);

        r.expect_end("Publish message length incorrect")
    }
}

impl ToBytes for MQTTMessagePublish {
    open spec fn encodable(&self) -> bool {
        encode_utf8(self@.topic).len() + self@.message.len() + 4 <= usize::MAX
    }

    open spec fn encoding(&self) -> Seq<u8> {
        publish_encoding(self@)
    }

    fn to_bytes(&self) -> (encoded: Vec<u8>) {
        let mut encoded: Vec<u8> = Vec::new();

        let mut flags: u8 = MQTTMessageType::Publish.header();
        if self.retain {
            flags = flags | 1;
        }
        let mut id_size: usize = 0;
        if self.qos > 0 {
            flags = flags | (self.qos << 1);
            id_size = 2;
        }
        encoded.push(flags);

        let topic_len = self.topic.as_str().len();
        let len: usize = topic_len + self.message.len() + id_size + 2;
        let mut length_field = encode_length(len);
        encoded.append(&mut length_field);

        // The topic behind its length.
        encoded.push((topic_len / 256 % 256) as u8);
        encoded.push((topic_len % 256) as u8);
        encoded.extend_from_slice(self.topic.as_str().as_bytes());

        // The packet identifier, above QoS 0 only.
        if self.qos > 0 {
            super::push_u16(&mut encoded, self.identifier);
        }

        encoded.extend_from_slice(self.message.as_slice());
        assert(len == publish_body(self@).len());
        assert(encoded@ =~= publish_encoding(self@));
        encoded
    }
}

/// Whether a message can be sent and be read again: an allowed topic, a known QoS, an
/// identifier where one is sent, and a length that the length field can hold.
pub open spec fn publish_sendable(m: PublishView) -> bool {
    &&& m.qos <= 2
    &&& m.qos > 0 ==> m.identifier != 0
    &&& validation::publish_topic_ok(encode_utf8(m.topic))
    &&& publish_body(m).len() <= length::MAX_LENGTH
}

/// What a reader makes of a message that was sent: the message, without the duplicate
/// flag, and at QoS 0 with the identifier that the reader had.
pub open spec fn publish_received(start: PublishView, m: PublishView) -> PublishView {
    PublishView {
        dup: false,
        identifier: if m.qos > 0 {
            m.identifier
        } else {
            start.identifier
        },
        ..m
    }
}

pub proof fn lemma_header_flags(m: PublishView)
    requires
        m.qos <= 2,
    ensures
        publish_header(m) & 0x8 == 0,
        (publish_header(m) & 0x6) >> 1 == m.qos,
        publish_header(m) & 1 == 1 <==> m.retain,
        publish_header(m) / 16 == 3,
{
    let q = m.qos;
    assert(q <= 2 ==> {
        &&& (0x30u8 | (q << 1)) & 0x8 == 0
        &&& ((0x30u8 | (q << 1)) & 0x6) >> 1 == q
        &&& (0x30u8 | (q << 1)) & 1 == 0
        &&& (0x30u8 | (q << 1)) / 16 == 3
        &&& ((0x30u8 | 1) | (q << 1)) & 0x8 == 0
        &&& (((0x30u8 | 1) | (q << 1)) & 0x6) >> 1 == q
        &&& ((0x30u8 | 1) | (q << 1)) & 1 == 1
        &&& ((0x30u8 | 1) | (q << 1)) / 16 == 3
        &&& 0x30u8 & 0x8 == 0 && (0x30u8 & 0x6) >> 1 == 0 && 0x30u8 & 1 == 0
        &&& (0x30u8 | 1) & 0x8 == 0 && ((0x30u8 | 1) & 0x6) >> 1 == 0 && (0x30u8 | 1) & 1 == 1
        &&& (0x30u8 | 1) / 16 == 3
    }) by (bit_vector);
}

/// A message that is sent is read back as it was, but for the duplicate flag, and for
/// the identifier of a QoS 0 message, neither of which is sent.
#[verifier::spinoff_prover]
#[verifier::rlimit(40)]
pub proof fn law_publish_round_trip(start: PublishView, m: PublishView)
    requires
        publish_sendable(m),
    ensures
        read_publish(start, publish_encoding(m)) == (
            publish_received(start, m),
            Ok::<(), Error>(()),
        ),
{
    let body = publish_body(m);
    let field = length::varint_encoding(body.len());
    let buf = publish_encoding(m);
    let topic = encode_utf8(m.topic);
    lemma_header_flags(m);
    length::law_length_read_back(body.len(), body);
    encode_utf8_valid_utf8(m.topic);
    encode_utf8_decode_utf8(m.topic);
    assert(buf.skip(1) =~= field + body);

    let n = topic.len();
    assert(body[0] == (n / 256) as u8 && body[1] == (n % 256) as u8);
    assert(reader::be16(body[0], body[1]) == n);
    let s1 = body.skip(2);
    assert(s1 =~= topic + identifier_field(m) + m.message);
    assert(s1.take(n as int) =~= topic);
    let s2 = s1.skip(n as int);
    assert(s2 =~= identifier_field(m) + m.message);
    if m.qos > 0 {
        assert(reader::be16(s2[0], s2[1]) == m.identifier);
        let s3 = s2.skip(2);
        assert(s3 =~= m.message);
        assert(s3.take(m.message.len() as int) =~= m.message);
    } else {
        assert(s2 =~= m.message);
        assert(s2.take(m.message.len() as int) =~= m.message);
    }
}

} // verus!
