//! Frames: packets in a stream of bytes.

use super::acks;
use super::buffer;
use super::buffer::buffer_put;
use super::buffer::buffer_reserve;
use super::buffer::buffer_slice;
use super::buffer::buffer_split_to;
use super::connect;
use super::error;
use super::error::Error;
use super::error::ErrorKind;
use super::length;
use super::length::read_size_check;
use super::ping;
use super::publish;
use super::reader;
use super::subscribe;
use super::MQTTMessageConnack;
use super::MQTTMessageConnect;
use super::MQTTMessageDisconnect;
use super::MQTTMessagePingReq;
use super::MQTTMessagePingResp;
use super::MQTTMessagePuback;
use super::MQTTMessagePubcomp;
use super::MQTTMessagePublish;
use super::MQTTMessagePubrec;
use super::MQTTMessagePubrel;
use super::MQTTMessageSuback;
use super::MQTTMessageSubscribe;
use super::MQTTMessageType;
use super::MQTTMessageUnsuback;
use super::MQTTMessageUnsubscribe;
use super::ToBytes;
use vstd::prelude::*;
use vstd::slice::slice_subrange;

verus! {

/// A packet of any type.
#[derive(PartialEq, Eq, Debug)]
pub enum MQTTMessage {
    Connect(MQTTMessageConnect),
    ConnAck(MQTTMessageConnack),
    Publish(MQTTMessagePublish),
    PubAck(MQTTMessagePuback),
    PubRec(MQTTMessagePubrec),
    PubRel(MQTTMessagePubrel),
    PubComp(MQTTMessagePubcomp),
    Subscribe(MQTTMessageSubscribe),
    SubAck(MQTTMessageSuback),
    Unsubscribe(MQTTMessageUnsubscribe),
    UnsubAck(MQTTMessageUnsuback),
    PingReq(MQTTMessagePingReq),
    PingResp(MQTTMessagePingResp),
    Disconnect(MQTTMessageDisconnect),
}

/// The type and the contents of a packet.
#[verifier::ext_equal]
pub enum MessageView {
    Connect(connect::ConnectView),
    ConnAck(connect::ConnackView),
    Publish(publish::PublishView),
    PubAck(u16),
    PubRec(u16),
    PubRel(u16),
    PubComp(u16),
    Subscribe(subscribe::SubscribeView),
    SubAck(subscribe::SubackView),
    Unsubscribe(subscribe::UnsubscribeView),
    UnsubAck(u16),
    PingReq,
    PingResp,
    Disconnect,
}

impl View for MQTTMessage {
    type V = MessageView;

    open spec fn view(&self) -> MessageView {
        match self {
            MQTTMessage::Connect(m) => MessageView::Connect(m@),
            MQTTMessage::ConnAck(m) => MessageView::ConnAck(m@),
            MQTTMessage::Publish(m) => MessageView::Publish(m@),
            MQTTMessage::PubAck(m) => MessageView::PubAck(m@),
            MQTTMessage::PubRec(m) => MessageView::PubRec(m@),
            MQTTMessage::PubRel(m) => MessageView::PubRel(m@),
            MQTTMessage::PubComp(m) => MessageView::PubComp(m@),
            MQTTMessage::Subscribe(m) => MessageView::Subscribe(m@),
            MQTTMessage::SubAck(m) => MessageView::SubAck(m@),
            MQTTMessage::Unsubscribe(m) => MessageView::Unsubscribe(m@),
            MQTTMessage::UnsubAck(m) => MessageView::UnsubAck(m@),
            MQTTMessage::PingReq(_) => MessageView::PingReq,
            MQTTMessage::PingResp(_) => MessageView::PingResp,
            MQTTMessage::Disconnect(_) => MessageView::Disconnect,
        }
    }
}

impl Clone for MQTTMessage {
    fn clone(&self) -> (r: Self)
        ensures
            r@ == self@,
    {
        match self {
            MQTTMessage::Connect(m) => MQTTMessage::Connect(m.clone()),
            MQTTMessage::ConnAck(m) => MQTTMessage::ConnAck(*m),
            MQTTMessage::Publish(m) => MQTTMessage::Publish(m.clone()),
            MQTTMessage::PubAck(m) => MQTTMessage::PubAck(*m),
            MQTTMessage::PubRec(m) => MQTTMessage::PubRec(*m),
            MQTTMessage::PubRel(m) => MQTTMessage::PubRel(*m),
            MQTTMessage::PubComp(m) => MQTTMessage::PubComp(*m),
            MQTTMessage::Subscribe(m) => MQTTMessage::Subscribe(m.clone()),
            MQTTMessage::SubAck(m) => MQTTMessage::SubAck(m.clone()),
            MQTTMessage::Unsubscribe(m) => MQTTMessage::Unsubscribe(m.clone()),
            MQTTMessage::UnsubAck(m) => MQTTMessage::UnsubAck(*m),
            MQTTMessage::PingReq(m) => MQTTMessage::PingReq(*m),
            MQTTMessage::PingResp(m) => MQTTMessage::PingResp(*m),
            MQTTMessage::Disconnect(m) => MQTTMessage::Disconnect(*m),
        }
    }
}

/// The bytes that the broker sends for a message; `None` where only clients send it.
pub open spec fn sent_bytes(m: MQTTMessage) -> Option<Seq<u8>> {
    match m {
        MQTTMessage::Publish(m) => Some(m.encoding()),
        MQTTMessage::ConnAck(m) => Some(m.encoding()),
        MQTTMessage::SubAck(m) => Some(m.encoding()),
        MQTTMessage::UnsubAck(m) => Some(m.encoding()),
        MQTTMessage::PingResp(m) => Some(m.encoding()),
        MQTTMessage::PubAck(m) => Some(m.encoding()),
        MQTTMessage::PubRec(m) => Some(m.encoding()),
        MQTTMessage::PubRel(m) => Some(m.encoding()),
        MQTTMessage::PubComp(m) => Some(m.encoding()),
        _ => None,
    }
}

/// Whether the length of a message that is sent fits the machine.
pub open spec fn sendable(m: MQTTMessage) -> bool {
    match m {
        MQTTMessage::Publish(m) => m.encodable(),
        MQTTMessage::SubAck(m) => m.encodable(),
        _ => true,
    }
}

/// Keeps a message that was read, or the fault.
pub open spec fn outcome<V>(read: (V, Result<(), Error>), wrap: spec_fn(V) -> MessageView) -> Result<
    MessageView,
    Error,
> {
    match read.1 {
        Ok(()) => Ok(wrap(read.0)),
        Err(e) => Err(e),
    }
}

/// The message in a whole frame.
pub open spec fn decode_frame(frame: Seq<u8>) -> Result<MessageView, Error> {
    match MQTTMessageType::from_number((frame[0] / 16) as int) {
        Some(MQTTMessageType::Connect) => outcome(
            connect::read_connect(connect::connect_default(), frame),
            |v| MessageView::Connect(v),
        ),
        Some(MQTTMessageType::Subscribe) => outcome(
            subscribe::read_subscribe(
                subscribe::SubscribeView { identifier: 0, topics: seq![] },
                frame,
            ),
            |v| MessageView::Subscribe(v),
        ),
        Some(MQTTMessageType::Unsubscribe) => outcome(
            subscribe::read_unsubscribe(
                subscribe::UnsubscribeView { identifier: 0, topics: seq![] },
                frame,
            ),
            |v| MessageView::Unsubscribe(v),
        ),
        Some(MQTTMessageType::Publish) => outcome(
            publish::read_publish(publish::publish_default(), frame),
            |v| MessageView::Publish(v),
        ),
        Some(MQTTMessageType::PingReq) => match ping::read_ping(frame) {
            Ok(()) => Ok(MessageView::PingReq),
            Err(e) => Err(e),
        },
        Some(MQTTMessageType::PubAck) => outcome(
            acks::read_ack(0, frame, 0, acks::puback_faults()),
            |v| MessageView::PubAck(v),
        ),
        Some(MQTTMessageType::PubRec) => outcome(
            acks::read_ack(0, frame, 0, acks::pubrec_faults()),
            |v| MessageView::PubRec(v),
        ),
        Some(MQTTMessageType::PubRel) => outcome(
            acks::read_ack(0, frame, 2, acks::pubrel_faults()),
            |v| MessageView::PubRel(v),
        ),
        Some(MQTTMessageType::PubComp) => outcome(
            acks::read_ack(0, frame, 0, acks::pubcomp_faults()),
            |v| MessageView::PubComp(v),
        ),
        Some(MQTTMessageType::Disconnect) => Ok(MessageView::Disconnect),
        // What only a server sends, and what is no packet at all.
        _ => Err(error::invalid_data("Unknown msg received")),
    }
}

/// What the start of a stream says of its first frame: the number of its bytes, `None`
/// while the length field is incomplete, an error where the length is not allowed.
pub open spec fn frame_length(bytes: Seq<u8>, max_packet_size: nat) -> Result<Option<nat>, Error> {
    if bytes.len() == 0 {
        Ok(None)
    } else {
        match length::size_check(bytes.skip(1)) {
            Err(()) => Err(error::invalid_data("Invalid message length")),
            Ok(None) => Ok(None),
            Ok(Some((len, size))) => if len > length::MAX_LENGTH || len > max_packet_size {
                Err(error::invalid_data("Decoder: Message exceeds max length"))
            } else {
                Ok(Some(1 + size + len))
            },
        }
    }
}

/// What the decoder makes of the bytes received so far: the message, `None` where more
/// bytes are needed, or a fault; and how many bytes it takes.
pub open spec fn decode_stream(bytes: Seq<u8>, max_packet_size: nat) -> (
    Result<Option<MessageView>, Error>,
    nat,
) {
    match frame_length(bytes, max_packet_size) {
        Err(e) => (Err(e), 0),
        Ok(None) => (Ok(None), 0),
        Ok(Some(n)) => if bytes.len() < n {
            (Ok(None), 0)
        } else {
            (
                match decode_frame(bytes.take(n as int)) {
                    Ok(m) => Ok(Some(m)),
                    Err(e) => Err(e),
                },
                n,
            )
        },
    }
}

/// Turns bytes into messages and messages into bytes.
pub struct MqttCodec {
    max_packet_size: usize,
}

impl MqttCodec {
    /// The largest remaining length that is accepted.
    pub closed spec fn limit(&self) -> nat {
        self.max_packet_size as nat
    }

    /// A codec that refuses packets with a remaining length above `max_packet_size`
    /// before their bytes have arrived.
    pub fn new(max_packet_size: usize) -> (r: MqttCodec)
        ensures
            r.limit() == max_packet_size,
    {
        MqttCodec { max_packet_size }
    }

    /// Appends the bytes of a message. A message that only clients send adds nothing.
    pub fn encode(&mut self, message: MQTTMessage, buf: &mut bytes::BytesMut) -> (r: Result<
        (),
        Error,
    >)
        requires
            sendable(message),
            sent_bytes(message) matches Some(b) ==> buffer::buffered(*old(buf)).len() + b.len()
                <= isize::MAX,
        ensures
            r is Ok,
            final(self).limit() == old(self).limit(),
            buffer::buffered(*final(buf)) == match sent_bytes(message) {
                Some(b) => buffer::buffered(*old(buf)) + b,
                None => buffer::buffered(*old(buf)),
            },
    {
        let bytes: Option<Vec<u8>> = match &message {
            MQTTMessage::Publish(m) => Some(m.to_bytes()),
            MQTTMessage::ConnAck(m) => Some(m.to_bytes()),
            MQTTMessage::SubAck(m) => Some(m.to_bytes()),
            MQTTMessage::UnsubAck(m) => Some(m.to_bytes()),
            MQTTMessage::PingResp(m) => Some(m.to_bytes()),
            MQTTMessage::PubAck(m) => Some(m.to_bytes()),
            MQTTMessage::PubRec(m) => Some(m.to_bytes()),
            MQTTMessage::PubRel(m) => Some(m.to_bytes()),
            MQTTMessage::PubComp(m) => Some(m.to_bytes()),
            _ => None,
        };
        match bytes {
            Some(b) => {
                buffer_reserve(buf, b.len());
                buffer_put(buf, b);
            },
            None => {},
        }
        Ok(())
    }

    /// Takes the first frame out of the bytes received so far and reads it; `None` where
    /// it is not complete yet.
    pub fn decode(&mut self, buf: &mut bytes::BytesMut) -> (r: Result<Option<MQTTMessage>, Error>)
        ensures
            final(self).limit() == old(self).limit(),
            ({
                let (result, taken) = decode_stream(
                    buffer::buffered(*old(buf)),
                    old(self).limit(),
                );
                &&& buffer::buffered(*final(buf)) == buffer::buffered(*old(buf)).skip(taken as int)
                &&& match result {
                    Ok(Some(m)) => r matches Ok(Some(v)) && v@ == m,
                    Ok(None) => r matches Ok(None),
                    Err(e) => r matches Err(f) && f == e,
                }
            }),
    {
        let ghost bytes = buffer::buffered(*buf);
        assert(bytes.skip(0) =~= bytes);
        let received = buffer_slice(buf);
        if received.is_empty() {
            return Ok(None);
        }
        let have = received.len();

        // The length field behind the first byte.
        let (len, size) = match read_size_check(slice_subrange(received, 1, have)) {
            Ok(Some(v)) => v,
            Ok(None) => {
                return Ok(None);
            },
            Err(()) => {
                return Err(Error::new(ErrorKind::InvalidData, "Invalid message length"));
            },
        };
        assert(bytes.subrange(1, have as int) =~= bytes.skip(1));
        if len > length::MAX_LENGTH || len > self.max_packet_size {
            return Err(
                Error::new(ErrorKind::InvalidData, "Decoder: Message exceeds max length"),
            );
        }

        // The first byte, the length field and what it announces.
        let frame_len = 1 + size + len;
        if have < frame_len {
            buffer_reserve(buf, frame_len - have);
            return Ok(None);
        }
        let frame = buffer_split_to(buf, frame_len);
        read_frame(buffer_slice(&frame))
    }

    /// Decodes what is left at the end of the stream.
    pub fn decode_eof(&mut self, buf: &mut bytes::BytesMut) -> (r: Result<
        Option<MQTTMessage>,
        Error,
    >)
        ensures
            final(self).limit() == old(self).limit(),
            ({
                let (result, taken) = decode_stream(
                    buffer::buffered(*old(buf)),
                    old(self).limit(),
                );
                &&& buffer::buffered(*final(buf)) == buffer::buffered(*old(buf)).skip(taken as int)
                &&& match result {
                    Ok(Some(m)) => r matches Ok(Some(v)) && v@ == m,
                    Ok(None) => r matches Ok(None),
                    Err(e) => r matches Err(f) && f == e,
                }
            }),
    {
        self.decode(buf)
    }
}

/// Reads a whole frame.
#[verifier::spinoff_prover]
#[verifier::rlimit(40)]
fn read_frame(frame: &[u8]) -> (r: Result<Option<MQTTMessage>, Error>)
    requires
        frame@.len() > 0,
    ensures
        match decode_frame(frame@) {
            Ok(m) => r matches Ok(Some(v)) && v@ == m,
            Err(e) => r matches Err(f) && f == e,
        },
{
    match MQTTMessageType::try_from((frame[0] / 16) as i32) {
        Ok(MQTTMessageType::Connect) => {
            let mut m = MQTTMessageConnect::new();
            m.from_bytes(frame)?;
            Ok(Some(MQTTMessage::Connect(m)))
        },
        Ok(MQTTMessageType::Subscribe) => {
            let mut m = MQTTMessageSubscribe::new();
            m.from_bytes(frame)?;
            Ok(Some(MQTTMessage::Subscribe(m)))
        },
        Ok(MQTTMessageType::Unsubscribe) => {
            let mut m = MQTTMessageUnsubscribe::new();
            m.from_bytes(frame)?;
            Ok(Some(MQTTMessage::Unsubscribe(m)))
        },
        Ok(MQTTMessageType::Publish) => {
            let mut m = MQTTMessagePublish::new();
            m.from_bytes(frame)?;
            Ok(Some(MQTTMessage::Publish(m)))
        },
        Ok(MQTTMessageType::PingReq) => {
            let mut m = MQTTMessagePingReq::new();
            m.from_bytes(frame)?;
            Ok(Some(MQTTMessage::PingReq(m)))
        },
        Ok(MQTTMessageType::PubAck) => {
            let mut m = MQTTMessagePuback::new();
            m.from_bytes(frame)?;
            Ok(Some(MQTTMessage::PubAck(m)))
        },
        Ok(MQTTMessageType::PubRec) => {
            let mut m = MQTTMessagePubrec::new();
            m.from_bytes(frame)?;
            Ok(Some(MQTTMessage::PubRec(m)))
        },
        Ok(MQTTMessageType::PubRel) => {
            let mut m = MQTTMessagePubrel::new();
            m.from_bytes(frame)?;
            Ok(Some(MQTTMessage::PubRel(m)))
        },
        Ok(MQTTMessageType::PubComp) => {
            let mut m = MQTTMessagePubcomp::new();
            m.from_bytes(frame)?;
            Ok(Some(MQTTMessage::PubComp(m)))
        },
        Ok(MQTTMessageType::Disconnect) => Ok(
            Some(MQTTMessage::Disconnect(MQTTMessageDisconnect::new())),
        ),
        _ => Err(Error::new(ErrorKind::InvalidData, "Unknown msg received")),
    }
}

proof fn lemma_run_stable(s: Seq<u8>, tail: Seq<u8>, limit: nat)
    requires
        reader::continuation_run(s, limit) < s.len() || reader::continuation_run(s, limit) == limit,
    ensures
        reader::continuation_run(s + tail, limit) == reader::continuation_run(s, limit),
    decreases limit,
{
    if limit > 0 && s.len() > 0 {
        assert((s + tail)[0] == s[0]);
        if s[0] >= 0x80 {
            assert((s + tail).skip(1) =~= s.skip(1) + tail);
            lemma_run_stable(s.skip(1), tail, (limit - 1) as nat);
        }
    }
}

proof fn lemma_value_stable(s: Seq<u8>, tail: Seq<u8>, n: nat)
    requires
        n <= s.len(),
    ensures
        reader::varint_value(s + tail, n) == reader::varint_value(s, n),
    decreases n,
{
    if n > 0 {
        assert((s + tail)[0] == s[0]);
        assert((s + tail).skip(1) =~= s.skip(1) + tail);
        lemma_value_stable(s.skip(1), tail, (n - 1) as nat);
    }
}

/// What the start of a stream says of its first frame does not change when more bytes
/// arrive.
proof fn lemma_frame_length_stable(bytes: Seq<u8>, tail: Seq<u8>, max_packet_size: nat)
    requires
        frame_length(bytes, max_packet_size) != Ok::<Option<nat>, Error>(None),
    ensures
        frame_length(bytes + tail, max_packet_size) == frame_length(bytes, max_packet_size),
{
    let s = bytes.skip(1);
    assert((bytes + tail).skip(1) =~= s + tail);
    reader::lemma_run_bound(s, 4);
    reader::lemma_run_bound(s + tail, 4);
    let run = reader::continuation_run(s, 4);
    lemma_run_stable(s, tail, 4);
    if run < s.len() {
        lemma_value_stable(s, tail, run + 1);
    }
}

/// A frame is read alike, whatever follows it in the stream; a fault in its length stays
/// a fault.
pub proof fn law_decode_ignores_rest(bytes: Seq<u8>, tail: Seq<u8>, max_packet_size: nat)
    requires
        decode_stream(bytes, max_packet_size).0 != Ok::<Option<MessageView>, Error>(None),
    ensures
        decode_stream(bytes + tail, max_packet_size) == decode_stream(bytes, max_packet_size),
{
    lemma_frame_length_stable(bytes, tail, max_packet_size);
    match frame_length(bytes, max_packet_size) {
        Ok(Some(n)) => {
            assert((bytes + tail).take(n as int) =~= bytes.take(n as int));
        },
        _ => {},
    }
}

/// As long as a frame is incomplete nothing is taken and nothing is returned, wherever
/// the stream was cut.
pub proof fn law_decode_waits(bytes: Seq<u8>, k: int, max_packet_size: nat)
    requires
        decode_stream(bytes, max_packet_size).1 > 0,
        0 <= k < decode_stream(bytes, max_packet_size).1,
    ensures
        decode_stream(bytes.take(k), max_packet_size) == (
            Ok::<Option<MessageView>, Error>(None),
            0nat,
        ),
{
    let start = bytes.take(k);
    let tail = bytes.skip(k);
    assert(start + tail =~= bytes);
    if frame_length(start, max_packet_size) != Ok::<Option<nat>, Error>(None) {
        lemma_frame_length_stable(start, tail, max_packet_size);
    }
}

/// A frame is taken whole: the first byte, the length field and as many bytes as it
/// announces, which is more than one byte and no more than there are; a fault in the
/// length takes nothing.
pub proof fn law_decode_takes_a_frame(bytes: Seq<u8>, max_packet_size: nat)
    ensures
        decode_stream(bytes, max_packet_size).1 <= bytes.len(),
        decode_stream(bytes, max_packet_size).1 == match frame_length(bytes, max_packet_size) {
            Ok(Some(n)) if n <= bytes.len() => n,
            _ => 0nat,
        },
        decode_stream(bytes, max_packet_size).0 matches Ok(Some(_))
            ==> decode_stream(bytes, max_packet_size).1 >= 2,
{
    reader::lemma_run_bound(bytes.skip(1), 4);
}

/// A packet that announces more than the limit is refused as soon as its length is
/// known, before any of the bytes it announces has arrived.
pub proof fn law_decode_limit(first: u8, n: nat, tail: Seq<u8>, max_packet_size: nat)
    requires
        max_packet_size < n <= length::MAX_LENGTH,
    ensures
        decode_stream(seq![first] + length::varint_encoding(n) + tail, max_packet_size) == (
            Err::<Option<MessageView>, Error>(
                error::invalid_data("Decoder: Message exceeds max length"),
            ),
            0nat,
        ),
{
    let bytes = seq![first] + length::varint_encoding(n) + tail;
    assert(bytes.skip(1) =~= length::varint_encoding(n) + tail);
    length::law_length_read_back(n, tail);
}

/// A message that is sent is decoded as it was, whatever follows it, but for what is not
/// sent: the duplicate flag and, at QoS 0, the identifier.
pub proof fn law_publish_stream(
    m: publish::PublishView,
    tail: Seq<u8>,
    max_packet_size: nat,
)
    requires
        publish::publish_sendable(m),
        publish::publish_body(m).len() <= max_packet_size,
    ensures
        decode_stream(publish::publish_encoding(m) + tail, max_packet_size) == (
            Ok::<Option<MessageView>, Error>(
                Some(
                    MessageView::Publish(
                        publish::publish_received(publish::publish_default(), m),
                    ),
                ),
            ),
            publish::publish_encoding(m).len(),
        ),
{
    let frame = publish::publish_encoding(m);
    let body = publish::publish_body(m);
    let bytes = frame + tail;
    assert(bytes.skip(1) =~= length::varint_encoding(body.len()) + (body + tail));
    length::law_length_read_back(body.len(), body + tail);
    publish::lemma_header_flags(m);
    publish::law_publish_round_trip(publish::publish_default(), m);
    assert(bytes.take(frame.len() as int) =~= frame);
    assert(frame[0] == publish::publish_header(m));
}

/// An acknowledgement that is sent is decoded as it was, whatever follows it.
pub proof fn law_ack_stream(id: u16, tail: Seq<u8>, max_packet_size: nat)
    requires
        max_packet_size >= 2,
    ensures
        decode_stream(acks::ack_encoding(0x40, id) + tail, max_packet_size) == (
            Ok::<Option<MessageView>, Error>(Some(MessageView::PubAck(id))),
            4nat,
        ),
        decode_stream(acks::ack_encoding(0x50, id) + tail, max_packet_size) == (
            Ok::<Option<MessageView>, Error>(Some(MessageView::PubRec(id))),
            4nat,
        ),
        decode_stream(acks::ack_encoding(0x62, id) + tail, max_packet_size) == (
            Ok::<Option<MessageView>, Error>(Some(MessageView::PubRel(id))),
            4nat,
        ),
        decode_stream(acks::ack_encoding(0x70, id) + tail, max_packet_size) == (
            Ok::<Option<MessageView>, Error>(Some(MessageView::PubComp(id))),
            4nat,
        ),
{
    lemma_ack_frame(0x40, id, tail, max_packet_size);
    lemma_ack_frame(0x50, id, tail, max_packet_size);
    lemma_ack_frame(0x62, id, tail, max_packet_size);
    lemma_ack_frame(0x70, id, tail, max_packet_size);
    acks::law_ack_round_trip(0, 0x40, id, acks::puback_faults());
    acks::law_ack_round_trip(0, 0x50, id, acks::pubrec_faults());
    acks::law_ack_round_trip(0, 0x62, id, acks::pubrel_faults());
    acks::law_ack_round_trip(0, 0x70, id, acks::pubcomp_faults());
}

proof fn lemma_ack_frame(header: u8, id: u16, tail: Seq<u8>, max_packet_size: nat)
    requires
        max_packet_size >= 2,
    ensures
        frame_length(acks::ack_encoding(header, id) + tail, max_packet_size) == Ok::<
            Option<nat>,
            Error,
        >(Some(4)),
        (acks::ack_encoding(header, id) + tail).len() >= 4,
        (acks::ack_encoding(header, id) + tail).take(4) == acks::ack_encoding(header, id),
        acks::ack_encoding(header, id)[0] == header,
{
    let frame = acks::ack_encoding(header, id);
    assert(frame.len() == 4);
    assert((frame + tail).take(4) =~= frame);
    let rest = super::u16_bytes(id) + tail;
    length::law_length_read_back(2, rest);
    assert(length::varint_encoding(2) =~= seq![2u8]);
    assert((frame + tail).skip(1) =~= length::varint_encoding(2) + rest);
}

} // verus!
