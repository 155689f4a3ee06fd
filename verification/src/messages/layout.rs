//! How the packets that clients send are laid out, and that they are read as what they
//! say.

use super::connect;
use super::connect::ConnectView;
use super::error::Error;
use super::length;
use super::publish;
use super::publish::PublishView;
use super::reader;
use super::subscribe;
use super::subscribe::SubscribeView;
use super::subscribe::UnsubscribeView;
use super::validation;
use vstd::prelude::*;
use vstd::utf8::*;

verus! {

/// A text behind its length.
pub open spec fn text_field(text: Seq<char>) -> Seq<u8> {
    super::u16_bytes(encode_utf8(text).len() as u16) + encode_utf8(text)
}

/// A packet: its first byte, the length of its body, and the body.
pub open spec fn packet(first: u8, body: Seq<u8>) -> Seq<u8> {
    seq![first] + length::varint_encoding(body.len()) + body
}

proof fn lemma_u16_field(v: u16, rest: Seq<u8>)
    ensures
        reader::take_u16(super::u16_bytes(v) + rest) == Ok::<(u16, Seq<u8>), Error>((v, rest)),
{
    let s = super::u16_bytes(v) + rest;
    assert(s.skip(2) =~= rest);
    assert(reader::be16(s[0], s[1]) == v);
}

proof fn lemma_text_field(text: Seq<char>, rest: Seq<u8>)
    requires
        encode_utf8(text).len() <= 65535,
    ensures
        ({
            let n = encode_utf8(text).len();
            let s = encode_utf8(text) + rest;
            &&& reader::take_u16(text_field(text) + rest) == Ok::<(u16, Seq<u8>), Error>(
                (n as u16, s),
            )
            &&& reader::take_bytes(s, n) == Ok::<(Seq<u8>, Seq<u8>), Error>(
                (encode_utf8(text), rest),
            )
            &&& valid_utf8(encode_utf8(text))
            &&& decode_utf8(encode_utf8(text)) == text
            &&& reader::take_string_prefixed(text_field(text) + rest) == Ok::<
                (Seq<char>, Seq<u8>),
                Error,
            >((text, rest))
        }),
{
    let n = encode_utf8(text).len();
    let s = encode_utf8(text) + rest;
    encode_utf8_valid_utf8(text);
    encode_utf8_decode_utf8(text);
    assert(text_field(text) + rest =~= super::u16_bytes(n as u16) + s);
    lemma_u16_field(n as u16, s);
    assert(s.take(n as int) =~= encode_utf8(text));
    assert(s.skip(n as int) =~= rest);
}

proof fn lemma_packet(first: u8, body: Seq<u8>)
    requires
        body.len() <= length::MAX_LENGTH,
    ensures
        reader::take_u8(packet(first, body)) == Ok::<(u8, Seq<u8>), Error>(
            (first, length::varint_encoding(body.len()) + body),
        ),
        reader::take_varint(length::varint_encoding(body.len()) + body) == Ok::<
            ((nat, nat), Seq<u8>),
            Error,
        >(((body.len(), length::varint_encoding(body.len()).len()), body)),
{
    assert(packet(first, body).skip(1) =~= length::varint_encoding(body.len()) + body);
    length::law_length_read_back(body.len(), body);
}

/// The filters of a SUBSCRIBE packet, each behind its length and before its QoS.
pub open spec fn filter_fields(topics: Seq<(Seq<char>, u8)>) -> Seq<u8>
    decreases topics.len(),
{
    if topics.len() == 0 {
        seq![]
    } else {
        text_field(topics[0].0) + (seq![topics[0].1] + filter_fields(topics.skip(1)))
    }
}

/// Whether filters and their QoS can be asked for.
pub open spec fn filters_ok(topics: Seq<(Seq<char>, u8)>) -> bool {
    forall|i: int|
        0 <= i < topics.len() ==> validation::topic_filter_ok(
            encode_utf8((#[trigger] topics[i]).0),
        ) && topics[i].1 <= 2
}

proof fn lemma_filter_fields(before: Seq<(Seq<char>, u8)>, topics: Seq<(Seq<char>, u8)>)
    requires
        filters_ok(topics),
    ensures
        subscribe::read_filters(before, filter_fields(topics)) == (
            before + topics,
            Ok::<(), Error>(()),
        ),
    decreases topics.len(),
{
    if topics.len() == 0 {
        assert(before + topics =~= before);
    } else {
        let (filter, qos) = topics[0];
        let rest = filter_fields(topics.skip(1));
        assert(validation::topic_filter_ok(encode_utf8(topics[0].0)));
        lemma_text_field(filter, seq![qos] + rest);
        assert((seq![qos] + rest).skip(1) =~= rest);
        assert forall|i: int| 0 <= i < topics.skip(1).len() implies validation::topic_filter_ok(
            encode_utf8((#[trigger] topics.skip(1)[i]).0),
        ) && topics.skip(1)[i].1 <= 2 by {
            assert(topics.skip(1)[i] == topics[i + 1]);
        }
        lemma_filter_fields(before.push((filter, qos)), topics.skip(1));
        assert(before.push((filter, qos)) + topics.skip(1) =~= before + topics);
    }
}

/// A SUBSCRIBE packet is read as the identifier and the filters that it lists.
pub proof fn law_subscribe_layout(id: u16, topics: Seq<(Seq<char>, u8)>)
    requires
        id != 0,
        topics.len() > 0,
        filters_ok(topics),
        2 + filter_fields(topics).len() <= length::MAX_LENGTH,
    ensures
        subscribe::read_subscribe(
            SubscribeView { identifier: 0, topics: seq![] },
            packet(0x82, super::u16_bytes(id) + filter_fields(topics)),
        ) == (SubscribeView { identifier: id, topics }, Ok::<(), Error>(())),
{
    let body = super::u16_bytes(id) + filter_fields(topics);
    lemma_packet(0x82, body);
    lemma_u16_field(id, filter_fields(topics));
    let none: Seq<(Seq<char>, u8)> = seq![];
    lemma_filter_fields(none, topics);
    assert(none + topics =~= topics);
}

/// The filters of an UNSUBSCRIBE packet, each behind its length.
pub open spec fn name_fields(topics: Seq<Seq<char>>) -> Seq<u8>
    decreases topics.len(),
{
    if topics.len() == 0 {
        seq![]
    } else {
        text_field(topics[0]) + name_fields(topics.skip(1))
    }
}

proof fn lemma_name_fields(before: Seq<Seq<char>>, topics: Seq<Seq<char>>)
    requires
        forall|i: int|
            0 <= i < topics.len() ==> validation::topic_filter_ok(
                encode_utf8(#[trigger] topics[i]),
            ),
    ensures
        subscribe::read_names(before, name_fields(topics)) == (
            before + topics,
            Ok::<(), Error>(()),
        ),
    decreases topics.len(),
{
    if topics.len() == 0 {
        assert(before + topics =~= before);
    } else {
        let rest = name_fields(topics.skip(1));
        assert(validation::topic_filter_ok(encode_utf8(topics[0])));
        lemma_text_field(topics[0], rest);
        assert forall|i: int| 0 <= i < topics.skip(1).len() implies validation::topic_filter_ok(
            encode_utf8(#[trigger] topics.skip(1)[i]),
        ) by {
            assert(topics.skip(1)[i] == topics[i + 1]);
        }
        lemma_name_fields(before.push(topics[0]), topics.skip(1));
        assert(before.push(topics[0]) + topics.skip(1) =~= before + topics);
    }
}

/// An UNSUBSCRIBE packet is read as the identifier and the filters that it lists.
pub proof fn law_unsubscribe_layout(id: u16, topics: Seq<Seq<char>>)
    requires
        topics.len() > 0,
        forall|i: int|
            0 <= i < topics.len() ==> validation::topic_filter_ok(
                encode_utf8(#[trigger] topics[i]),
            ),
        2 + name_fields(topics).len() <= length::MAX_LENGTH,
    ensures
        subscribe::read_unsubscribe(
            UnsubscribeView { identifier: 0, topics: seq![] },
            packet(0xa2, super::u16_bytes(id) + name_fields(topics)),
        ) == (UnsubscribeView { identifier: id, topics }, Ok::<(), Error>(())),
{
    let body = super::u16_bytes(id) + name_fields(topics);
    lemma_packet(0xa2, body);
    lemma_u16_field(id, name_fields(topics));
    let none: Seq<Seq<char>> = seq![];
    lemma_name_fields(none, topics);
    assert(none + topics =~= topics);
}

/// The connect flags of a request; `user` and `password` tell whether these are sent.
pub open spec fn connect_flags(m: ConnectView, user: bool, password: bool) -> u8 {
    let clean: u8 = if m.clean_session {
        0x02
    } else {
        0
    };
    let will: u8 = if m.will {
        0x04
    } else {
        0
    };
    let retain: u8 = if m.willretain {
        0x20
    } else {
        0
    };
    let password: u8 = if password {
        0x40
    } else {
        0
    };
    let user: u8 = if user {
        0x80
    } else {
        0
    };
    clean | will | (m.willqos << 3u8) | retain | password | user
}

proof fn lemma_connect_flags(m: ConnectView, user: bool, password: bool)
    requires
        m.willqos <= 2,
    ensures
        ({
            let f = connect_flags(m, user, password);
            &&& f & 0x01 == 0
            &&& f & 0x02 == 0x02 <==> m.clean_session
            &&& f & 0x04 == 0x04 <==> m.will
            &&& connect::will_qos_flag(f) == m.willqos
            &&& f & 0x20 == 0x20 <==> m.willretain
            &&& f & 0x40 == 0x40 <==> password
            &&& f & 0x80 == 0x80 <==> user
        }),
{
    let c: u8 = if m.clean_session {
        0x02
    } else {
        0
    };
    let w: u8 = if m.will {
        0x04
    } else {
        0
    };
    let q = m.willqos;
    let r: u8 = if m.willretain {
        0x20
    } else {
        0
    };
    let p: u8 = if password {
        0x40
    } else {
        0
    };
    let u: u8 = if user {
        0x80
    } else {
        0
    };
    assert({
        let f = c | w | (q << 3u8) | r | p | u;
        &&& f & 0x01 == 0
        &&& f & 0x02 == c
        &&& f & 0x04 == w
        &&& (f & 0x18) >> 3 == q
        &&& f & 0x20 == r
        &&& f & 0x40 == p
        &&& f & 0x80 == u
    }) by (bit_vector)
        requires
            c == 0 || c == 0x02,
            w == 0 || w == 0x04,
            q <= 2,
            r == 0 || r == 0x20,
            p == 0 || p == 0x40,
            u == 0 || u == 0x80,
    ;
}

/// What follows the client identifier.
pub open spec fn connect_tail(m: ConnectView, user: bool, password: bool) -> Seq<u8> {
    let secret: Seq<u8> = if password {
        text_field(m.password)
    } else {
        seq![]
    };
    let name: Seq<u8> = if user {
        text_field(m.username)
    } else {
        seq![]
    };
    if m.will {
        text_field(m.willtopic) + (text_field(m.willmsg) + (name + secret))
    } else {
        name + secret
    }
}

/// The body of a CONNECT packet.
pub open spec fn connect_body(m: ConnectView, user: bool, password: bool) -> Seq<u8> {
    seq![0u8, 4u8, 0x4du8, 0x51u8, 0x54u8, 0x54u8] + (seq![
        m.version,
        connect_flags(m, user, password),
    ] + (super::u16_bytes(m.keepalive) + (text_field(m.client) + connect_tail(m, user, password))))
}

/// Whether a request can be sent: fields that fit, an allowed identifier and will, and
/// nothing in a field that is not sent.
pub open spec fn connect_sendable(m: ConnectView, user: bool, password: bool) -> bool {
    &&& validation::client_id_ok(encode_utf8(m.client))
    &&& m.willqos <= 2
    &&& m.will ==> validation::publish_topic_ok(encode_utf8(m.willtopic)) && encode_utf8(
        m.willmsg,
    ).len() <= 65535
    &&& !m.will ==> m.willqos == 0 && !m.willretain && m.willtopic.len() == 0 && m.willmsg.len()
        == 0
    &&& encode_utf8(m.username).len() <= 65535
    &&& encode_utf8(m.password).len() <= 65535
    &&& !user ==> m.username.len() == 0
    &&& !password ==> m.password.len() == 0
    &&& connect_body(m, user, password).len() <= length::MAX_LENGTH
}

proof fn lemma_credentials(m: ConnectView, v: ConnectView, user: bool, password: bool)
    requires
        connect_sendable(m, user, password),
        v == (ConnectView { username: seq![], password: seq![], ..m }),
    ensures
        ({
            let secret: Seq<u8> = if password {
                text_field(m.password)
            } else {
                seq![]
            };
            let name: Seq<u8> = if user {
                text_field(m.username)
            } else {
                seq![]
            };
            connect::read_username(v, connect_flags(m, user, password), name + secret) == (
                m,
                Ok::<(), Error>(()),
            )
        }),
{
    lemma_connect_flags(m, user, password);
    let none: Seq<u8> = seq![];
    let secret: Seq<u8> = if password {
        text_field(m.password)
    } else {
        seq![]
    };
    lemma_text_field(m.username, secret);
    lemma_text_field(m.password, none);
    assert(text_field(m.password) + none =~= text_field(m.password));
    assert(none + secret =~= secret);
    if !user {
        assert(m.username =~= seq![]);
    }
    if !password {
        assert(m.password =~= seq![]);
    }
}

/// What is read before the client identifier.
spec fn connect_start(m: ConnectView) -> ConnectView {
    ConnectView {
        version: m.version,
        clean_session: m.clean_session,
        keepalive: m.keepalive,
        ..connect::connect_default()
    }
}

proof fn lemma_will_fields(m: ConnectView, user: bool, password: bool)
    requires
        connect_sendable(m, user, password),
    ensures
        connect::read_will(
            ConnectView { client: m.client, ..connect_start(m) },
            connect_flags(m, user, password),
            connect_tail(m, user, password),
        ) == (m, Ok::<(), Error>(())),
{
    let flags = connect_flags(m, user, password);
    let v1 = ConnectView { client: m.client, ..connect_start(m) };
    let secret: Seq<u8> = if password {
        text_field(m.password)
    } else {
        seq![]
    };
    let name: Seq<u8> = if user {
        text_field(m.username)
    } else {
        seq![]
    };
    let rest = name + secret;
    let v2 = ConnectView { username: seq![], password: seq![], ..m };
    lemma_connect_flags(m, user, password);
    lemma_credentials(m, v2, user, password);
    if m.will {
        let message = text_field(m.willmsg) + rest;
        lemma_text_field(m.willtopic, message);
        lemma_text_field(m.willmsg, rest);
        let v3 = ConnectView {
            will: true,
            willqos: m.willqos,
            willretain: m.willretain,
            willtopic: m.willtopic,
            ..v1
        };
        assert(ConnectView { willmsg: m.willmsg, ..v3 } =~= v2);
        assert(connect::read_will_message(v3, flags, message) == connect::read_username(
            v2,
            flags,
            rest,
        ));
    } else {
        assert(m.willtopic =~= seq![]);
        assert(m.willmsg =~= seq![]);
        assert(v1 =~= v2);
    }
}

proof fn lemma_client_field(m: ConnectView, user: bool, password: bool)
    requires
        connect_sendable(m, user, password),
    ensures
        connect::read_client(
            connect_start(m),
            connect_flags(m, user, password),
            text_field(m.client) + connect_tail(m, user, password),
        ) == (m, Ok::<(), Error>(())),
{
    lemma_text_field(m.client, connect_tail(m, user, password));
    lemma_will_fields(m, user, password);
}

proof fn lemma_connect_head(m: ConnectView, user: bool, password: bool)
    requires
        connect_sendable(m, user, password),
    ensures
        connect::read_connect_body(
            connect::connect_default(),
            connect_body(m, user, password).skip(6),
        ) == (m, Ok::<(), Error>(())),
{
    let flags = connect_flags(m, user, password);
    let fields = text_field(m.client) + connect_tail(m, user, password);
    let fixed = super::u16_bytes(m.keepalive) + fields;
    let head = seq![m.version, flags] + fixed;
    assert(connect_body(m, user, password).skip(6) =~= head);
    assert(head.skip(1).skip(1) =~= fixed);
    assert(head.skip(1)[0] == flags);
    lemma_connect_flags(m, user, password);
    lemma_u16_field(m.keepalive, fields);
    lemma_client_field(m, user, password);
    assert(flags & 0x01 != 0x01);
}

/// A CONNECT packet is read as the request that it describes.
pub proof fn law_connect_layout(m: ConnectView, user: bool, password: bool)
    requires
        connect_sendable(m, user, password),
    ensures
        connect::read_connect(
            connect::connect_default(),
            packet(0x10, connect_body(m, user, password)),
        ) == (m, Ok::<(), Error>(())),
{
    let body = connect_body(m, user, password);
    lemma_packet(0x10, body);
    assert(0x10u8 & 0x0f == 0) by (bit_vector);
    lemma_connect_head(m, user, password);
    assert(body.len() >= 6);
}

/// A length field that uses no digit more than it needs is the one that is written for
/// its value.
pub proof fn law_length_canonical(s: Seq<u8>, k: nat)
    requires
        1 <= k <= s.len(),
        reader::continuation_run(s, k) == k - 1,
        s[k - 1] < 0x80,
        k > 1 ==> s[k - 1] != 0,
    ensures
        length::varint_encoding(reader::varint_value(s, k)) == s.take(k as int),
    decreases k,
{
    let v = reader::varint_value(s, k);
    let rest = reader::varint_value(s.skip(1), (k - 1) as nat);
    let low = (s[0] % 128) as nat;
    assert(v == low + 128 * rest);
    if k == 1 {
        assert(rest == 0);
        assert(v == s[0]);
        assert(length::varint_encoding(v) =~= s.take(1));
    } else {
        assert(s.skip(1)[k - 2] == s[k - 1]);
        law_length_canonical(s.skip(1), (k - 1) as nat);
        assert(rest > 0) by {
            lemma_value_positive(s.skip(1), (k - 1) as nat);
        }
        assert(v >= 128);
        assert(v / 128 == rest && v % 128 == low);
        assert(s[0] >= 0x80);
        assert((v % 128 + 128) as u8 == s[0]);
        assert(length::varint_encoding(v) =~= s.take(k as int)) by {
            assert(s.take(k as int) =~= seq![s[0]] + s.skip(1).take(k - 1));
        }
    }
}

/// A length field whose last digit is not zero is not zero.
proof fn lemma_value_positive(s: Seq<u8>, k: nat)
    requires
        1 <= k <= s.len(),
        s[k - 1] % 128 != 0,
    ensures
        reader::varint_value(s, k) > 0,
    decreases k,
{
    if k > 1 {
        assert(s.skip(1)[k - 2] == s[k - 1]);
        lemma_value_positive(s.skip(1), (k - 1) as nat);
    } else {
        assert(reader::varint_value(s, 1) == (s[0] % 128) as nat + 128 * reader::varint_value(
            s.skip(1),
            0,
        ));
    }
}

/// A PUBLISH packet that is accepted is the one that is sent for its message, byte for
/// byte, if it is not a duplicate and its length field is no longer than it needs to be.
pub proof fn law_publish_relayed(buf: Seq<u8>, m: PublishView)
    requires
        publish::read_publish(publish::publish_default(), buf) == (m, Ok::<(), Error>(())),
        buf[0] / 16 == 3,
        !m.dup,
        ({
            let k = reader::continuation_run(buf.skip(1), 4) + 1;
            k > 1 ==> buf[k as int] != 0
        }),
    ensures
        publish::publish_encoding(m) == buf,
{
    let fixed = buf[0];
    let s = buf.skip(1);
    let run = reader::continuation_run(s, 4);
    let k = run + 1;
    reader::lemma_run_bound(s, 4);
    let len = reader::varint_value(s, k);
    let body = s.skip(k as int);
    lemma_header(fixed, m);
    assert(m.qos == (fixed & 0x6) >> 1);
    assert(publish::publish_header(m) == fixed);
    reader::lemma_run_bit(s, run, 4);
    lemma_run_limit(s, run, 4);
    assert(s[k - 1] == buf[k as int]);
    law_length_canonical(s, k);
    let start = PublishView {
        dup: false,
        qos: m.qos,
        retain: m.retain,
        ..publish::publish_default()
    };
    assert(publish::read_publish_body(start, len, body) == (m, Ok::<(), Error>(())));
    lemma_publish_body(start, len, body, m);
    assert(buf =~= seq![fixed] + s.take(k as int) + body);
}

/// The body of an accepted PUBLISH packet is the one that is sent for its message.
proof fn lemma_publish_body(start: PublishView, len: nat, body: Seq<u8>, m: PublishView)
    requires
        publish::read_publish_body(start, len, body) == (m, Ok::<(), Error>(())),
    ensures
        publish::publish_body(m) == body,
        body.len() == len,
{
    let n = reader::be16(body[0], body[1]) as nat;
    let topic = body.skip(2).take(n as int);
    let after = body.skip(2).skip(n as int);
    decode_utf8_encode_utf8(topic);
    assert(encode_utf8(m.topic) == topic);
    assert(publish::topic_prefix(n) =~= body.take(2));
    let used = if m.qos == 0 {
        n + 2
    } else {
        n + 4
    };
    let rest = if m.qos == 0 {
        after
    } else {
        after.skip(2)
    };
    if m.qos > 0 {
        assert(super::u16_bytes(m.identifier) =~= after.take(2));
    }
    assert(rest.len() == len - used);
    assert(m.message =~= rest);
    assert(publish::publish_body(m) =~= body);
}

/// A run that ends before its limit is the same under any limit beyond it.
proof fn lemma_run_limit(s: Seq<u8>, run: nat, limit: nat)
    requires
        reader::continuation_run(s, limit) == run,
        run < limit,
        run < s.len(),
    ensures
        reader::continuation_run(s, run + 1) == run,
    decreases run,
{
    if run > 0 {
        assert(s[0] >= 0x80);
        lemma_run_limit(s.skip(1), (run - 1) as nat, (limit - 1) as nat);
    }
}

/// The first byte of a PUBLISH packet without the duplicate flag.
proof fn lemma_header(fixed: u8, m: PublishView)
    requires
        fixed / 16 == 3,
        fixed & 0x8 != 0x8,
        m.qos == (fixed & 0x6) >> 1,
        m.retain == (fixed & 1 == 1),
    ensures
        publish::publish_header(m) == fixed,
{
    let q = m.qos;
    assert({
        &&& fixed & 1 == 1 && q > 0 ==> (0x30u8 | 1u8) | (q << 1) == fixed
        &&& fixed & 1 == 1 && q == 0 ==> 0x30u8 | 1u8 == fixed
        &&& fixed & 1 != 1 && q > 0 ==> 0x30u8 | (q << 1) == fixed
        &&& fixed & 1 != 1 && q == 0 ==> 0x30u8 == fixed
    }) by (bit_vector)
        requires
            fixed / 16 == 3,
            fixed & 0x8 != 0x8,
            q == (fixed & 0x6) >> 1,
    ;
}

} // verus!
