//! What is accepted from clients and what is sent to them, byte by byte.

use super::acks;
use super::codec;
use super::codec::MQTTMessage;
use super::codec::MessageView;
use super::connect;
use super::connect::ConnectView;
use super::error;
use super::error::Error;
use super::layout;
use super::length;
use super::ping;
use super::publish;
use super::publish::PublishView;
use super::reader;
use super::subscribe;
use super::subscribe::SubscribeView;
use super::subscribe::UnsubscribeView;
use super::validation;
use super::MQTTQos;
use super::ReturnCode;
use super::ToBytes;
use vstd::prelude::*;
use vstd::utf8::*;

verus! {

/// What follows the first byte and the length field of a packet; nothing where there is no
/// length field.
pub open spec fn body_of(buf: Seq<u8>) -> Seq<u8> {
    match reader::take_varint(buf.skip(1)) {
        Ok((_, body)) => body,
        Err(_) => seq![],
    }
}

/// The two bytes of a number at the start of others.
proof fn lemma_number(s: Seq<u8>)
    requires
        s.len() >= 2,
    ensures
        super::u16_bytes(reader::be16(s[0], s[1])) == s.take(2),
{
    assert(super::u16_bytes(reader::be16(s[0], s[1])) =~= s.take(2));
}

/// A text that was read, behind its length.
proof fn lemma_text(s: Seq<u8>) -> (text: Seq<char>)
    requires
        s.len() >= 2,
        s.len() >= 2 + reader::be16(s[0], s[1]),
        valid_utf8(s.skip(2).take(reader::be16(s[0], s[1]) as int)),
    ensures
        ({
            let n = reader::be16(s[0], s[1]) as int;
            &&& text == decode_utf8(s.skip(2).take(n))
            &&& encode_utf8(text) == s.skip(2).take(n)
            &&& layout::text_field(text) == s.take(2 + n)
            &&& s == layout::text_field(text) + s.skip(2).skip(n)
        }),
{
    let n = reader::be16(s[0], s[1]);
    let bytes = s.skip(2).take(n as int);
    let text = decode_utf8(bytes);
    decode_utf8_encode_utf8(bytes);
    lemma_number(s);
    assert(bytes.len() as u16 == n);
    assert(layout::text_field(text) =~= s.take(2 + n));
    assert(s =~= layout::text_field(text) + s.skip(2).skip(n as int));
    text
}

/// Filters that were read are those in the bytes.
proof fn lemma_filters(before: Seq<(Seq<char>, u8)>, s: Seq<u8>) -> (read: Seq<(Seq<char>, u8)>)
    requires
        subscribe::read_filters(before, s).1 is Ok,
    ensures
        subscribe::read_filters(before, s).0 == before + read,
        s == layout::filter_fields(read),
        layout::filters_ok(read),
    decreases s.len(),
{
    if s.len() == 0 {
        let none: Seq<(Seq<char>, u8)> = seq![];
        assert(before + none =~= before);
        assert(s =~= layout::filter_fields(none));
        none
    } else {
        let n = reader::be16(s[0], s[1]) as int;
        let text = lemma_text(s);
        let s2 = s.skip(2).skip(n);
        let qos = s2[0];
        let rest = lemma_filters(before.push((text, qos)), s2.skip(1));
        let all = seq![(text, qos)] + rest;
        assert(before.push((text, qos)) + rest =~= before + all);
        assert(all.skip(1) =~= rest);
        assert(s2 =~= seq![qos] + s2.skip(1));
        assert forall|i: int| 0 <= i < all.len() implies validation::topic_filter_ok(
            encode_utf8((#[trigger] all[i]).0),
        ) && all[i].1 <= 2 by {
            if i > 0 {
                assert(all[i] == rest[i - 1]);
            }
        }
        all
    }
}

/// A SUBSCRIBE packet is accepted only with its flags, an identifier that is not zero and
/// at least one filter, each allowed and with a QoS of at most 2; and its body is then
/// exactly the identifier and the filters that were read.
pub proof fn law_subscribe_accepted(buf: Seq<u8>)
    requires
        subscribe::read_subscribe(SubscribeView { identifier: 0, topics: seq![] }, buf).1 is Ok,
    ensures
        ({
            let m = subscribe::read_subscribe(
                SubscribeView { identifier: 0, topics: seq![] },
                buf,
            ).0;
            &&& buf.len() > 0
            &&& buf[0] % 16 == 2
            &&& m.identifier != 0
            &&& m.topics.len() > 0
            &&& layout::filters_ok(m.topics)
            &&& body_of(buf) == super::u16_bytes(m.identifier) + layout::filter_fields(m.topics)
        }),
{
    let none: Seq<(Seq<char>, u8)> = seq![];
    let m = subscribe::read_subscribe(SubscribeView { identifier: 0, topics: none }, buf).0;
    let body = body_of(buf);
    lemma_number(body);
    let read = lemma_filters(none, body.skip(2));
    assert(none + read =~= read);
    assert(body =~= body.take(2) + body.skip(2));
    assert(m.topics == read);
}

/// Filters that were read are those in the bytes.
proof fn lemma_names(before: Seq<Seq<char>>, s: Seq<u8>) -> (read: Seq<Seq<char>>)
    requires
        subscribe::read_names(before, s).1 is Ok,
    ensures
        subscribe::read_names(before, s).0 == before + read,
        s == layout::name_fields(read),
        forall|i: int|
            0 <= i < read.len() ==> validation::topic_filter_ok(encode_utf8(#[trigger] read[i])),
    decreases s.len(),
{
    if s.len() == 0 {
        let none: Seq<Seq<char>> = seq![];
        assert(before + none =~= before);
        assert(s =~= layout::name_fields(none));
        none
    } else {
        let n = reader::be16(s[0], s[1]) as int;
        let text = lemma_text(s);
        let rest = lemma_names(before.push(text), s.skip(2).skip(n));
        let all = seq![text] + rest;
        assert(before.push(text) + rest =~= before + all);
        assert(all.skip(1) =~= rest);
        assert forall|i: int| 0 <= i < all.len() implies validation::topic_filter_ok(
            encode_utf8(#[trigger] all[i]),
        ) by {
            if i > 0 {
                assert(all[i] == rest[i - 1]);
            }
        }
        all
    }
}

/// An UNSUBSCRIBE packet is accepted only with its flags and at least one filter, each
/// allowed; and its body is then exactly the identifier and the filters that were read.
pub proof fn law_unsubscribe_accepted(buf: Seq<u8>)
    requires
        subscribe::read_unsubscribe(UnsubscribeView { identifier: 0, topics: seq![] }, buf).1 is Ok,
    ensures
        ({
            let m = subscribe::read_unsubscribe(
                UnsubscribeView { identifier: 0, topics: seq![] },
                buf,
            ).0;
            &&& buf.len() > 0
            &&& buf[0] % 16 == 2
            &&& m.topics.len() > 0
            &&& forall|i: int|
                0 <= i < m.topics.len() ==> validation::topic_filter_ok(
                    encode_utf8(#[trigger] m.topics[i]),
                )
            &&& body_of(buf) == super::u16_bytes(m.identifier) + layout::name_fields(m.topics)
        }),
{
    let none: Seq<Seq<char>> = seq![];
    let m = subscribe::read_unsubscribe(UnsubscribeView { identifier: 0, topics: none }, buf).0;
    let body = body_of(buf);
    lemma_number(body);
    let read = lemma_names(none, body.skip(2));
    assert(none + read =~= read);
    assert(body =~= body.take(2) + body.skip(2));
    assert(m.topics == read);
}

/// A PUBLISH packet is accepted only with a QoS of at most 2, without the duplicate flag at
/// QoS 0, with an identifier that is not zero above QoS 0, and with an allowed topic. Its
/// flags are those of the first byte, and its body is exactly the topic, the identifier
/// above QoS 0, and the message.
#[verifier::spinoff_prover]
#[verifier::rlimit(40)]
pub proof fn law_publish_accepted(buf: Seq<u8>)
    requires
        publish::read_publish(publish::publish_default(), buf).1 is Ok,
    ensures
        ({
            let m = publish::read_publish(publish::publish_default(), buf).0;
            &&& buf.len() > 0
            &&& m.dup <==> buf[0] / 8 % 2 == 1
            &&& m.qos == buf[0] / 2 % 4
            &&& m.retain <==> buf[0] % 2 == 1
            &&& m.qos <= 2
            &&& m.qos == 0 ==> !m.dup && m.identifier == 0
            &&& m.qos > 0 ==> m.identifier != 0
            &&& validation::publish_topic_ok(encode_utf8(m.topic))
            &&& body_of(buf) == layout::text_field(m.topic) + (if m.qos > 0 {
                super::u16_bytes(m.identifier)
            } else {
                seq![]
            }) + m.message
        }),
{
    let first = buf[0];
    assert({
        &&& (first & 0x8 == 0x8) == (first / 8 % 2 == 1)
        &&& (first & 0x6) >> 1 == first / 2 % 4
        &&& (first & 1 == 1) == (first % 2 == 1)
    }) by (bit_vector);
    let m = publish::read_publish(publish::publish_default(), buf).0;
    let body = body_of(buf);
    let n = reader::be16(body[0], body[1]) as int;
    let text = lemma_text(body);
    let after = body.skip(2).skip(n);
    assert(m.topic == text);
    if m.qos > 0 {
        lemma_number(after);
        assert(after =~= after.take(2) + after.skip(2));
        assert(m.message =~= after.skip(2));
        assert(body =~= layout::text_field(text) + super::u16_bytes(m.identifier) + m.message);
    } else {
        assert(m.message =~= after);
        let none: Seq<u8> = seq![];
        assert(body =~= layout::text_field(text) + none + m.message);
    }
}

/// A packet that carries an identifier alone is accepted only with its flags, the length 2
/// and exactly two bytes behind it, which are the identifier.
pub proof fn law_ack_accepted(start: u16, buf: Seq<u8>, flags: u8, faults: acks::AckFaults)
    ensures
        ({
            let (id, outcome) = acks::read_ack(start, buf, flags, faults);
            outcome is Ok <==> buf.len() > 0 && buf[0] % 16 == flags && (reader::take_varint(
                buf.skip(1),
            ) matches Ok(((n, _), body)) && n == 2 && body.len() == 2)
        }),
        ({
            let (id, outcome) = acks::read_ack(start, buf, flags, faults);
            outcome is Ok ==> body_of(buf) == super::u16_bytes(id)
        }),
{
    if acks::read_ack(start, buf, flags, faults).1 is Ok {
        let body = body_of(buf);
        lemma_number(body);
        assert(body.take(2) =~= body);
    }
}

/// PINGREQ is accepted only without flags, with the length 0 and nothing behind it.
pub proof fn law_ping_accepted(buf: Seq<u8>)
    ensures
        ping::read_ping(buf) is Ok <==> buf.len() > 0 && buf[0] % 16 == 0 && (reader::take_varint(
            buf.skip(1),
        ) matches Ok(((n, _), body)) && n == 0 && body.len() == 0),
{
}

/// The flags of a request that was read are those that describe it.
proof fn lemma_flags(m: ConnectView, flags: u8)
    requires
        flags & 0x01 != 0x01,
        m.clean_session == (flags & 0x02 == 0x02),
        m.will == (flags & 0x04 == 0x04),
        m.will ==> m.willqos == connect::will_qos_flag(flags) && m.willretain == (flags & 0x20
            == 0x20),
        !m.will ==> connect::will_qos_flag(flags) == 0 && flags & 0x20 != 0x20 && m.willqos == 0
            && !m.willretain,
    ensures
        layout::connect_flags(m, flags & 0x80 == 0x80, flags & 0x40 == 0x40) == flags,
{
    let c: u8 = if m.clean_session {
        0x02
    } else {
        0
    };
    let w: u8 = if m.will {
        0x04
    } else {
        0
    };
    let q = m.willqos;
    let r: u8 = if m.willretain {
        0x20
    } else {
        0
    };
    let p: u8 = if flags & 0x40 == 0x40 {
        0x40
    } else {
        0
    };
    let u: u8 = if flags & 0x80 == 0x80 {
        0x80
    } else {
        0
    };
    assert(q == (flags & 0x18) >> 3);
    assert(flags & 0x02 == 0x02 || flags & 0x02 == 0) by (bit_vector);
    assert(flags & 0x04 == 0x04 || flags & 0x04 == 0) by (bit_vector);
    assert(flags & 0x20 == 0x20 || flags & 0x20 == 0) by (bit_vector);
    assert(flags & 0x40 == 0x40 || flags & 0x40 == 0) by (bit_vector);
    assert(flags & 0x80 == 0x80 || flags & 0x80 == 0) by (bit_vector);
    assert(c | w | (q << 3u8) | r | p | u == flags) by (bit_vector)
        requires
            flags & 0x01 != 0x01,
            c == flags & 0x02,
            w == flags & 0x04,
            q == (flags & 0x18) >> 3,
            r == flags & 0x20,
            p == flags & 0x40,
            u == flags & 0x80,
    ;
}

/// The user name and the password that were read are those in the bytes.
#[verifier::spinoff_prover]
#[verifier::rlimit(40)]
proof fn lemma_credentials(v: ConnectView, flags: u8, s: Seq<u8>)
    requires
        connect::read_username(v, flags, s).1 is Ok,
        v.username.len() == 0,
        v.password.len() == 0,
    ensures
        ({
            let m = connect::read_username(v, flags, s).0;
            let name: Seq<u8> = if flags & 0x80 == 0x80 {
                layout::text_field(m.username)
            } else {
                seq![]
            };
            let secret: Seq<u8> = if flags & 0x40 == 0x40 {
                layout::text_field(m.password)
            } else {
                seq![]
            };
            &&& m == ConnectView { username: m.username, password: m.password, ..v }
            &&& flags & 0x80 != 0x80 ==> m.username.len() == 0
            &&& flags & 0x40 != 0x40 ==> m.password.len() == 0
            &&& s == name + secret
        }),
{
    let m = connect::read_username(v, flags, s).0;
    let none: Seq<u8> = seq![];
    let s1 = if flags & 0x80 == 0x80 {
        let text = lemma_text(s);
        s.skip(2).skip(reader::be16(s[0], s[1]) as int)
    } else {
        s
    };
    if flags & 0x40 == 0x40 {
        let text = lemma_text(s1);
        let rest = s1.skip(2).skip(reader::be16(s1[0], s1[1]) as int);
        assert(rest =~= none);
        assert(layout::text_field(text) + none =~= layout::text_field(text));
    } else {
        assert(s1 =~= none);
    }
    if flags & 0x80 != 0x80 {
        assert(none + s1 =~= s1);
    }
}

/// The will and the credentials that were read are those in the bytes.
#[verifier::spinoff_prover]
#[verifier::rlimit(40)]
proof fn lemma_will(v: ConnectView, flags: u8, s: Seq<u8>, m: ConnectView)
    requires
        connect::read_will(v, flags, s) == (m, Ok::<(), Error>(())),
        v == (ConnectView {
            version: v.version,
            clean_session: v.clean_session,
            keepalive: v.keepalive,
            client: v.client,
            ..connect::connect_default()
        }),
    ensures
        s == layout::connect_tail(m, flags & 0x80 == 0x80, flags & 0x40 == 0x40),
        m.version == v.version,
        m.clean_session == v.clean_session,
        m.keepalive == v.keepalive,
        m.client == v.client,
        m.will == (flags & 0x04 == 0x04),
        m.will ==> m.willqos == connect::will_qos_flag(flags) && m.willretain == (flags & 0x20
            == 0x20) && m.willqos <= 2 && validation::publish_topic_ok(encode_utf8(m.willtopic)),
        !m.will ==> connect::will_qos_flag(flags) == 0 && flags & 0x20 != 0x20 && m.willqos == 0
            && !m.willretain,
        flags & 0x80 != 0x80 ==> m.username.len() == 0,
        flags & 0x40 != 0x40 ==> m.password.len() == 0,
{
    if flags & 0x04 == 0x04 {
        let topic = lemma_text(s);
        let s1 = s.skip(2).skip(reader::be16(s[0], s[1]) as int);
        let message = lemma_text(s1);
        let s2 = s1.skip(2).skip(reader::be16(s1[0], s1[1]) as int);
        let w = ConnectView {
            will: true,
            willqos: connect::will_qos_flag(flags),
            willretain: flags & 0x20 == 0x20,
            willtopic: topic,
            willmsg: message,
            ..v
        };
        assert(connect::read_username(w, flags, s2) == (m, Ok::<(), Error>(())));
        lemma_credentials(w, flags, s2);
    } else {
        lemma_credentials(v, flags, s);
    }
}

/// The client identifier and what follows it are those in the bytes.
#[verifier::spinoff_prover]
#[verifier::rlimit(40)]
proof fn lemma_client(v: ConnectView, flags: u8, s: Seq<u8>, m: ConnectView)
    requires
        connect::read_client(v, flags, s) == (m, Ok::<(), Error>(())),
        v == (ConnectView {
            version: v.version,
            clean_session: v.clean_session,
            keepalive: v.keepalive,
            ..connect::connect_default()
        }),
        flags & 0x01 != 0x01,
        v.clean_session == (flags & 0x02 == 0x02),
    ensures
        ({
            let user = flags & 0x80 == 0x80;
            let password = flags & 0x40 == 0x40;
            &&& s == layout::text_field(m.client) + layout::connect_tail(m, user, password)
            &&& flags == layout::connect_flags(m, user, password)
            &&& m.version == v.version
            &&& m.keepalive == v.keepalive
            &&& validation::client_id_ok(encode_utf8(m.client))
            &&& m.will ==> m.willqos <= 2 && validation::publish_topic_ok(
                encode_utf8(m.willtopic),
            )
            &&& !m.will ==> m.willqos == 0 && !m.willretain
            &&& !user ==> m.username.len() == 0
            &&& !password ==> m.password.len() == 0
        }),
{
    let client = lemma_text(s);
    let tail = s.skip(2).skip(reader::be16(s[0], s[1]) as int);
    let w = ConnectView { client, ..v };
    assert(connect::read_will(w, flags, tail) == (m, Ok::<(), Error>(())));
    lemma_will(w, flags, tail, m);
    lemma_flags(m, flags);
}

/// What follows the protocol name is what describes the request.
#[verifier::spinoff_prover]
#[verifier::rlimit(40)]
proof fn lemma_request(s: Seq<u8>, m: ConnectView)
    requires
        connect::read_connect_body(connect::connect_default(), s) == (m, Ok::<(), Error>(())),
    ensures
        ({
            let flags = s[1];
            let user = flags & 0x80 == 0x80;
            let password = flags & 0x40 == 0x40;
            &&& s.len() >= 2
            &&& s == layout::connect_body(m, user, password).skip(6)
            &&& validation::client_id_ok(encode_utf8(m.client))
            &&& m.will ==> m.willqos <= 2 && validation::publish_topic_ok(
                encode_utf8(m.willtopic),
            )
            &&& !m.will ==> m.willqos == 0 && !m.willretain
            &&& !user ==> m.username.len() == 0
            &&& !password ==> m.password.len() == 0
        }),
{
    let flags = s[1];
    let user = flags & 0x80 == 0x80;
    let password = flags & 0x40 == 0x40;
    assert(s.skip(1)[0] == flags);
    let s1 = s.skip(1).skip(1);
    lemma_number(s1);
    let v = ConnectView {
        version: s[0],
        clean_session: flags & 0x02 == 0x02,
        keepalive: reader::be16(s1[0], s1[1]),
        ..connect::connect_default()
    };
    assert(connect::read_client(v, flags, s1.skip(2)) == (m, Ok::<(), Error>(())));
    lemma_client(v, flags, s1.skip(2), m);
    let fields = layout::text_field(m.client) + layout::connect_tail(m, user, password);
    let fixed = super::u16_bytes(m.keepalive) + fields;
    let head = seq![m.version, flags] + fixed;
    assert(layout::connect_body(m, user, password).skip(6) =~= head);
    assert(s1 =~= fixed);
    assert(s =~= head);
}

/// A CONNECT packet is accepted only without header flags and without the reserved connect
/// flag, with an allowed client identifier, and with a will QoS of at most 2 and an allowed
/// will topic where it has a will, and neither QoS nor retain flag of a will where it has
/// none. What follows the protocol name is then exactly what describes the request that
/// was read.
pub proof fn law_connect_accepted(buf: Seq<u8>)
    requires
        connect::read_connect(connect::connect_default(), buf).1 is Ok,
    ensures
        ({
            let m = connect::read_connect(connect::connect_default(), buf).0;
            let flags = body_of(buf)[7];
            let user = flags & 0x80 == 0x80;
            let password = flags & 0x40 == 0x40;
            &&& buf.len() > 0
            &&& buf[0] & 0x0f == 0
            &&& body_of(buf).len() >= 8
            &&& body_of(buf).skip(6) == layout::connect_body(m, user, password).skip(6)
            &&& validation::client_id_ok(encode_utf8(m.client))
            &&& m.will ==> m.willqos <= 2 && validation::publish_topic_ok(
                encode_utf8(m.willtopic),
            )
            &&& !m.will ==> m.willqos == 0 && !m.willretain
            &&& !user ==> m.username.len() == 0
            &&& !password ==> m.password.len() == 0
        }),
{
    let m = connect::read_connect(connect::connect_default(), buf).0;
    let body = body_of(buf);
    assert(connect::read_connect_body(connect::connect_default(), body.skip(6)) == (
        m,
        Ok::<(), Error>(()),
    ));
    lemma_request(body.skip(6), m);
    assert(body.skip(6)[1] == body[7]);
}

/// A frame is read as the kind of packet that its first four bits name, and as no other; a
/// packet that only a server sends, and a number that names none, is refused.
pub proof fn law_frames(frame: Seq<u8>)
    requires
        frame.len() > 0,
    ensures
        ({
            let kind = frame[0] / 16;
            let r = codec::decode_frame(frame);
            &&& kind == 1 ==> match connect::read_connect(connect::connect_default(), frame) {
                (m, Ok(())) => r == Ok::<MessageView, Error>(MessageView::Connect(m)),
                (_, Err(e)) => r == Err::<MessageView, Error>(e),
            }
            &&& kind == 3 ==> match publish::read_publish(publish::publish_default(), frame) {
                (m, Ok(())) => r == Ok::<MessageView, Error>(MessageView::Publish(m)),
                (_, Err(e)) => r == Err::<MessageView, Error>(e),
            }
            &&& kind == 4 ==> (r is Ok ==> r->Ok_0 == MessageView::PubAck(
                acks::read_ack(0, frame, 0, acks::puback_faults()).0,
            )) && (r is Ok <==> acks::read_ack(0, frame, 0, acks::puback_faults()).1 is Ok)
            &&& kind == 5 ==> (r is Ok ==> r->Ok_0 == MessageView::PubRec(
                acks::read_ack(0, frame, 0, acks::pubrec_faults()).0,
            )) && (r is Ok <==> acks::read_ack(0, frame, 0, acks::pubrec_faults()).1 is Ok)
            &&& kind == 6 ==> (r is Ok ==> r->Ok_0 == MessageView::PubRel(
                acks::read_ack(0, frame, 2, acks::pubrel_faults()).0,
            )) && (r is Ok <==> acks::read_ack(0, frame, 2, acks::pubrel_faults()).1 is Ok)
            &&& kind == 7 ==> (r is Ok ==> r->Ok_0 == MessageView::PubComp(
                acks::read_ack(0, frame, 0, acks::pubcomp_faults()).0,
            )) && (r is Ok <==> acks::read_ack(0, frame, 0, acks::pubcomp_faults()).1 is Ok)
            &&& kind == 8 ==> match subscribe::read_subscribe(
                SubscribeView { identifier: 0, topics: seq![] },
                frame,
            ) {
                (m, Ok(())) => r == Ok::<MessageView, Error>(MessageView::Subscribe(m)),
                (_, Err(e)) => r == Err::<MessageView, Error>(e),
            }
            &&& kind == 10 ==> match subscribe::read_unsubscribe(
                UnsubscribeView { identifier: 0, topics: seq![] },
                frame,
            ) {
                (m, Ok(())) => r == Ok::<MessageView, Error>(MessageView::Unsubscribe(m)),
                (_, Err(e)) => r == Err::<MessageView, Error>(e),
            }
            &&& kind == 12 ==> (r is Ok <==> ping::read_ping(frame) is Ok) && (r is Ok ==> r->Ok_0
                == MessageView::PingReq)
            &&& kind == 14 ==> r == Ok::<MessageView, Error>(MessageView::Disconnect)
            &&& kind == 0 || kind == 2 || kind == 9 || kind == 11 || kind == 13 || kind == 15
                ==> r == Err::<MessageView, Error>(error::invalid_data("Unknown msg received"))
        }),
{
}

/// The bytes of what the broker sends: the type in the first byte, the length, and then the
/// identifier, the more significant byte first, or the flag and the code of the answer.
pub proof fn law_sent_packets(m: MQTTMessage)
    ensures
        ({
            let high = |id: u16| (id / 256) as u8;
            let low = |id: u16| (id % 256) as u8;
            match m@ {
                MessageView::PubAck(id) => codec::sent_bytes(m) == Some(
                    seq![0x40u8, 2u8, high(id), low(id)],
                ),
                MessageView::PubRec(id) => codec::sent_bytes(m) == Some(
                    seq![0x50u8, 2u8, high(id), low(id)],
                ),
                MessageView::PubRel(id) => codec::sent_bytes(m) == Some(
                    seq![0x62u8, 2u8, high(id), low(id)],
                ),
                MessageView::PubComp(id) => codec::sent_bytes(m) == Some(
                    seq![0x70u8, 2u8, high(id), low(id)],
                ),
                MessageView::UnsubAck(id) => codec::sent_bytes(m) == Some(
                    seq![0xb0u8, 2u8, high(id), low(id)],
                ),
                MessageView::PingResp => codec::sent_bytes(m) == Some(seq![0xd0u8, 0u8]),
                MessageView::ConnAck(a) => codec::sent_bytes(m) == Some(
                    seq![
                        0x20u8,
                        2u8,
                        if a.session_present {
                            1u8
                        } else {
                            0u8
                        },
                        match a.return_code {
                            ReturnCode::Accepted => 0u8,
                            ReturnCode::UnacceptableVersion => 1u8,
                            ReturnCode::IdentifierRejected => 2u8,
                            ReturnCode::ServerUnavailable => 3u8,
                            ReturnCode::BadUsernameOrPassword => 4u8,
                            ReturnCode::NotAuthorized => 5u8,
                        },
                    ],
                ),
                MessageView::SubAck(a) => codec::sent_bytes(m) == Some(
                    layout::packet(
                        0x90,
                        seq![high(a.identifier), low(a.identifier)] + a.response,
                    ),
                ),
                MessageView::Publish(p) => codec::sent_bytes(m) == Some(
                    publish::publish_encoding(p),
                ),
                _ => codec::sent_bytes(m) is None,
            }
        }),
{
    match m {
        MQTTMessage::PubAck(a) => {
            assert(a.encoding() =~= seq![0x40u8, 2u8, (a@ / 256) as u8, (a@ % 256) as u8]);
        },
        MQTTMessage::PubRec(a) => {
            assert(a.encoding() =~= seq![0x50u8, 2u8, (a@ / 256) as u8, (a@ % 256) as u8]);
        },
        MQTTMessage::PubRel(a) => {
            assert(a.encoding() =~= seq![0x62u8, 2u8, (a@ / 256) as u8, (a@ % 256) as u8]);
        },
        MQTTMessage::PubComp(a) => {
            assert(a.encoding() =~= seq![0x70u8, 2u8, (a@ / 256) as u8, (a@ % 256) as u8]);
        },
        MQTTMessage::UnsubAck(a) => {
            assert(a.encoding() =~= seq![0xb0u8, 2u8, (a@ / 256) as u8, (a@ % 256) as u8]);
        },
        MQTTMessage::SubAck(a) => {
            let id = a@.identifier;
            let body = seq![(id / 256) as u8, (id % 256) as u8] + a@.response;
            assert(a.encoding() =~= layout::packet(0x90, body));
        },
        _ => {},
    }
}

/// The first byte of a PUBLISH packet that is sent holds the type, the QoS and the retain
/// flag; the duplicate flag is not sent. Behind the length follow the topic behind its own
/// length, the identifier above QoS 0, and the message.
pub proof fn law_sent_publish(m: PublishView)
    requires
        m.qos <= 2,
        encode_utf8(m.topic).len() <= 65535,
    ensures
        publish::publish_encoding(m) == layout::packet(
            (0x30 + 2 * m.qos + if m.retain {
                1int
            } else {
                0int
            }) as u8,
            layout::text_field(m.topic) + (if m.qos > 0 {
                super::u16_bytes(m.identifier)
            } else {
                seq![]
            }) + m.message,
        ),
{
    let q = m.qos;
    assert({
        &&& q > 0 ==> (0x30u8 | 1u8) | (q << 1) == 0x31 + 2 * q
        &&& q > 0 ==> 0x30u8 | (q << 1) == 0x30 + 2 * q
        &&& 0x30u8 | 1u8 == 0x31
    }) by (bit_vector)
        requires
            q <= 2,
    ;
    let body = layout::text_field(m.topic) + (if m.qos > 0 {
        super::u16_bytes(m.identifier)
    } else {
        seq![]
    }) + m.message;
    assert(publish::publish_body(m) =~= body);
}

/// The digit of a length field in a byte.
pub open spec fn length_digit(b: u8) -> nat {
    (b % 128) as nat
}

/// A frame is as long as its length field says: the first byte, one to four bytes of seven
/// bits each, the least significant first and all but the last with the eighth bit set,
/// and as many bytes as these stand for. A length over a limit is refused.
pub proof fn law_frame_length(bytes: Seq<u8>, max_packet_size: nat, n: int)
    requires
        1 <= n <= 4,
        bytes.len() > n,
        forall|i: int| 1 <= i < n ==> #[trigger] bytes[i] >= 0x80,
        bytes[n] < 0x80,
    ensures
        ({
            let length = length_digit(bytes[1]) + (if n > 1 {
                128 * length_digit(bytes[2])
            } else {
                0
            }) + (if n > 2 {
                16384 * length_digit(bytes[3])
            } else {
                0
            }) + (if n > 3 {
                2097152 * length_digit(bytes[4])
            } else {
                0
            });
            codec::frame_length(bytes, max_packet_size) == if length > max_packet_size {
                Err::<Option<nat>, Error>(
                    error::invalid_data("Decoder: Message exceeds max length"),
                )
            } else {
                Ok(Some((1 + n + length) as nat))
            }
        }),
{
    let s = bytes.skip(1);
    if bytes.len() > 2 {
        assert(s.skip(1) =~= bytes.skip(2));
    }
    if bytes.len() > 3 {
        assert(s.skip(1).skip(1) =~= bytes.skip(3));
    }
    if bytes.len() > 4 {
        assert(s.skip(1).skip(1).skip(1) =~= bytes.skip(4));
    }
    reveal_with_fuel(reader::continuation_run, 5);
    reveal_with_fuel(reader::varint_value, 5);
    assert(reader::continuation_run(s, 4) == n - 1);
}

/// A frame whose length field is not complete yet is waited for; one with more than four
/// bytes of it is refused.
pub proof fn law_frame_length_open(bytes: Seq<u8>, max_packet_size: nat)
    requires
        forall|i: int| 1 <= i < bytes.len() && i <= 4 ==> #[trigger] bytes[i] >= 0x80,
    ensures
        bytes.len() <= 4 ==> codec::frame_length(bytes, max_packet_size) == Ok::<
            Option<nat>,
            Error,
        >(None),
        bytes.len() > 4 ==> codec::frame_length(bytes, max_packet_size) == Err::<
            Option<nat>,
            Error,
        >(error::invalid_data("Invalid message length")),
{
    let s = bytes.skip(1);
    if bytes.len() > 2 {
        assert(s.skip(1) =~= bytes.skip(2));
    }
    if bytes.len() > 3 {
        assert(s.skip(1).skip(1) =~= bytes.skip(3));
    }
    if bytes.len() > 4 {
        assert(s.skip(1).skip(1).skip(1) =~= bytes.skip(4));
    }
    reveal_with_fuel(reader::continuation_run, 5);
}

/// The qualities of service have the numbers that packets carry.
pub proof fn law_qos_numbers()
    ensures
        MQTTQos::QOS0.spec_level() == 0,
        MQTTQos::QOS1.spec_level() == 1,
        MQTTQos::QOS2.spec_level() == 2,
{
}

} // verus!
