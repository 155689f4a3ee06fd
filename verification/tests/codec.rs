use bytes::BytesMut;
use squillion::messages::codec::MQTTMessage;
use squillion::messages::codec::MqttCodec;
use squillion::messages::error::ErrorKind;
use squillion::messages::MQTTMessageConnack;
use squillion::messages::MQTTMessageDisconnect;
use squillion::messages::MQTTMessagePingReq;
use squillion::messages::MQTTMessagePingResp;
use squillion::messages::MQTTMessagePuback;
use squillion::messages::MQTTMessagePubcomp;
use squillion::messages::MQTTMessagePublish;
use squillion::messages::MQTTMessagePubrec;
use squillion::messages::MQTTMessagePubrel;
use squillion::messages::MQTTMessageSuback;
use squillion::messages::MQTTMessageUnsuback;
use squillion::messages::ReturnCode;
use squillion::messages::ToBytes;

fn decoded(bytes: &[u8]) -> MQTTMessage {
    let mut buf = BytesMut::from(bytes);
    let m = MqttCodec::new(1000).decode(&mut buf).unwrap().unwrap();
    assert!(buf.is_empty());
    m
}

fn fault(bytes: &[u8]) -> &'static str {
    let mut buf = BytesMut::from(bytes);
    MqttCodec::new(1000).decode(&mut buf).unwrap_err().message()
}

fn publish(topic: &str, payload: &[u8], qos: u8, id: u16, retain: bool) -> MQTTMessagePublish {
    let mut m = MQTTMessagePublish::new();
    m.set_topic(topic.to_string());
    m.set_message(payload.to_vec());
    m.set_qos(qos);
    m.set_identifier(id);
    m.set_retain(retain);
    m
}

fn encoded(m: MQTTMessage) -> Vec<u8> {
    let mut buf = BytesMut::new();
    MqttCodec::new(1000).encode(m, &mut buf).unwrap();
    buf.to_vec()
}

#[test]
fn publish_bytes() {
    let m = publish("a/b", b"hi", 1, 0x0102, true);
    let bytes = vec![0x33, 9, 0, 3, b'a', b'/', b'b', 1, 2, b'h', b'i'];
    assert_eq!(encoded(MQTTMessage::Publish(m.clone())), bytes);
    assert_eq!(decoded(&bytes), MQTTMessage::Publish(m));
    let plain = publish("t", b"", 0, 0, false);
    assert_eq!(encoded(MQTTMessage::Publish(plain.clone())), vec![0x30, 3, 0, 1, b't']);
    assert_eq!(decoded(&[0x30, 3, 0, 1, b't']), MQTTMessage::Publish(plain));
}

#[test]
fn publish_is_relayed_byte_for_byte() {
    for bytes in [
        vec![0x30u8, 5, 0, 1, b't', 1, 2],
        vec![0x32, 6, 0, 1, b't', 0, 9, 1],
        vec![0x35, 5, 0, 1, b't', 0, 1],
    ] {
        assert_eq!(encoded(decoded(&bytes)), bytes);
    }
    // The duplicate flag is not passed on.
    let m = decoded(&[0x3a, 5, 0, 1, b't', 0, 1]);
    assert_eq!(encoded(m), vec![0x32, 5, 0, 1, b't', 0, 1]);
}

#[test]
fn publish_faults() {
    assert_eq!(fault(&[0x36, 3, 0, 1, b't']), "Publish message invalid qos");
    assert_eq!(fault(&[0x38, 3, 0, 1, b't']), "Publish message invalid dup set and qos 0");
    assert_eq!(fault(&[0x30, 3, 0, 1, b'#']), "Publish message invalid topic");
    assert_eq!(fault(&[0x32, 5, 0, 1, b't', 0, 0]), "Publish zero identifier");
    assert_eq!(fault(&[0x30, 2, 0, 1]), "unexpected end of packet");
}

#[test]
fn acknowledgements() {
    let mut puback = MQTTMessagePuback::new();
    puback.set_identifier(0x1234);
    assert_eq!(encoded(MQTTMessage::PubAck(puback)), vec![0x40, 2, 0x12, 0x34]);
    assert_eq!(decoded(&[0x40, 2, 0x12, 0x34]), MQTTMessage::PubAck(puback));
    let mut pubrec = MQTTMessagePubrec::new();
    pubrec.set_identifier(1);
    assert_eq!(encoded(MQTTMessage::PubRec(pubrec)), vec![0x50, 2, 0, 1]);
    assert_eq!(decoded(&[0x50, 2, 0, 1]), MQTTMessage::PubRec(pubrec));
    let mut pubrel = MQTTMessagePubrel::new();
    pubrel.set_identifier(2);
    assert_eq!(encoded(MQTTMessage::PubRel(pubrel)), vec![0x62, 2, 0, 2]);
    assert_eq!(decoded(&[0x62, 2, 0, 2]), MQTTMessage::PubRel(pubrel));
    let mut pubcomp = MQTTMessagePubcomp::new();
    pubcomp.set_identifier(3);
    assert_eq!(encoded(MQTTMessage::PubComp(pubcomp)), vec![0x70, 2, 0, 3]);
    assert_eq!(decoded(&[0x70, 2, 0, 3]), MQTTMessage::PubComp(pubcomp));
    assert!(MqttCodec::new(9).decode(&mut BytesMut::from(&[0x60u8, 2, 0, 2][..])).is_err());
    assert!(MqttCodec::new(9).decode(&mut BytesMut::from(&[0x41u8, 2, 0, 2][..])).is_err());
    assert!(MqttCodec::new(9).decode(&mut BytesMut::from(&[0x40u8, 3, 0, 2, 0][..])).is_err());
}

#[test]
fn answers() {
    let mut connack = MQTTMessageConnack::new();
    connack.set_session_present(true);
    connack.set_return_code(ReturnCode::NotAuthorized);
    assert_eq!(encoded(MQTTMessage::ConnAck(connack)), vec![0x20, 2, 1, 5]);
    let mut suback = MQTTMessageSuback::new();
    suback.set_identifier(7);
    suback.add_response(1);
    suback.add_response(0x80);
    assert_eq!(suback.to_bytes(), vec![0x90, 4, 0, 7, 1, 0x80]);
    assert_eq!(encoded(MQTTMessage::SubAck(suback)), vec![0x90, 4, 0, 7, 1, 0x80]);
    let mut unsuback = MQTTMessageUnsuback::new();
    unsuback.set_identifier(8);
    assert_eq!(encoded(MQTTMessage::UnsubAck(unsuback)), vec![0xb0, 2, 0, 8]);
    assert_eq!(encoded(MQTTMessage::PingResp(MQTTMessagePingResp::new())), vec![0xd0, 0]);
    // What only clients send adds nothing.
    assert!(encoded(MQTTMessage::PingReq(MQTTMessagePingReq::new())).is_empty());
}

#[test]
fn encoding_appends() {
    let mut codec = MqttCodec::new(100);
    let mut buf = BytesMut::from(&[9u8][..]);
    codec.encode(MQTTMessage::PingResp(MQTTMessagePingResp::new()), &mut buf).unwrap();
    codec.encode(MQTTMessage::PingResp(MQTTMessagePingResp::new()), &mut buf).unwrap();
    assert_eq!(buf.to_vec(), vec![9, 0xd0, 0, 0xd0, 0]);
}

#[test]
fn frames_come_in_pieces() {
    let bytes = [0x30u8, 5, 0, 1, b't', 1, 2, 0xc0, 0];
    let mut codec = MqttCodec::new(100);
    for cut in 0..7 {
        let mut buf = BytesMut::from(&bytes[..cut]);
        assert_eq!(codec.decode(&mut buf), Ok(None));
        assert_eq!(buf.to_vec(), bytes[..cut].to_vec());
    }
    let mut buf = BytesMut::from(&bytes[..]);
    assert_eq!(
        codec.decode(&mut buf),
        Ok(Some(MQTTMessage::Publish(publish("t", &[1, 2], 0, 0, false))))
    );
    assert_eq!(buf.to_vec(), vec![0xc0, 0]);
    assert_eq!(
        codec.decode_eof(&mut buf),
        Ok(Some(MQTTMessage::PingReq(MQTTMessagePingReq::new())))
    );
    assert_eq!(codec.decode_eof(&mut buf), Ok(None));
}

#[test]
fn large_packets_are_refused_early() {
    let mut codec = MqttCodec::new(100);
    let mut buf = BytesMut::from(&[0x30u8, 101][..]);
    let e = codec.decode(&mut buf).unwrap_err();
    assert_eq!(e.kind(), ErrorKind::InvalidData);
    assert_eq!(e.message(), "Decoder: Message exceeds max length");
    assert_eq!(buf.to_vec(), vec![0x30, 101]);
    assert_eq!(codec.decode(&mut BytesMut::from(&[0x30u8, 100][..])), Ok(None));
    assert_eq!(fault(&[0x30, 0x80, 0x80, 0x80, 0x80]), "Invalid message length");
}

#[test]
fn what_servers_send_is_refused() {
    for first in [0x00u8, 0x20, 0x90, 0xb0, 0xd0, 0xf0] {
        assert_eq!(fault(&[first, 0]), "Unknown msg received");
    }
    // The frame is gone all the same.
    let mut buf = BytesMut::from(&[0x20u8, 1, 7, 0xc0, 0][..]);
    let mut codec = MqttCodec::new(100);
    assert!(codec.decode(&mut buf).is_err());
    assert_eq!(buf.to_vec(), vec![0xc0, 0]);
    assert_eq!(
        decoded(&[0xe0, 0]),
        MQTTMessage::Disconnect(MQTTMessageDisconnect::new())
    );
}

#[test]
fn connect_request() {
    let mut bytes = vec![0x10u8, 0];
    bytes.extend([0, 4, b'M', b'Q', b'T', b'T', 4, 0xee, 0, 60]);
    bytes.extend([0, 2, b'c', b'1']);
    bytes.extend([0, 1, b'w', 0, 2, b'b', b'y']);
    bytes.extend([0, 1, b'u', 0, 2, b'p', b'w']);
    bytes[1] = (bytes.len() - 2) as u8;
    match decoded(&bytes) {
        MQTTMessage::Connect(m) => {
            assert_eq!(m.get_version(), 4);
            assert_eq!(m.get_client(), "c1");
            assert_eq!(m.keep_alive(), 60);
            assert!(m.has_clean_session());
            assert!(m.has_will());
            assert_eq!(m.will_topic(), "w");
            assert_eq!(m.will_message(), "by");
            assert_eq!(m.will_qos(), 1);
            assert!(m.will_retain());
            assert_eq!(m.get_username(), "u");
            assert_eq!(m.get_password(), "pw");
        }
        _ => panic!("no connect"),
    }
    bytes[9] |= 1;
    assert_eq!(fault(&bytes), "Connect message invalid flags");
    bytes[9] = 0xf6;
    bytes[9] |= 0x18;
    assert_eq!(fault(&bytes), "Connect message invalid qos");
    bytes[9] = 0xe2;
    assert_eq!(fault(&bytes), "Connect message invalid will flags");
    bytes[0] = 0x11;
    assert_eq!(fault(&bytes), "Connect invalid header flags");
}

#[test]
fn subscribe_requests() {
    match decoded(&[0x82, 11, 0, 5, 0, 1, b'a', 1, 0, 2, b'/', b'#', 2]) {
        MQTTMessage::Subscribe(m) => {
            assert_eq!(m.get_identifier(), 5);
            assert_eq!(m.get_topics(), &vec![("a".to_string(), 1), ("/#".to_string(), 2)]);
        }
        _ => panic!("no subscribe"),
    }
    match decoded(&[0xa2, 5, 0, 6, 0, 1, b'+']) {
        MQTTMessage::Unsubscribe(m) => {
            assert_eq!(m.get_identifier(), 6);
            assert_eq!(m.get_topics(), &vec!["+".to_string()]);
        }
        _ => panic!("no unsubscribe"),
    }
    assert_eq!(fault(&[0x80, 2, 0, 5]), "Subscribe invalid flags");
    assert_eq!(fault(&[0x82, 2, 0, 5]), "Subscribe no topics");
    assert_eq!(fault(&[0x82, 2, 0, 0]), "Subscribe zero identifier");
    assert_eq!(fault(&[0x82, 6, 0, 5, 0, 1, b'a', 3]), "Subscribe invalid qos");
    assert_eq!(fault(&[0x82, 7, 0, 5, 0, 2, b'a', b'#', 0]), "Subscribe invalid topic");
    assert_eq!(fault(&[0xa0, 2, 0, 5]), "Unsubscribe invalid flags");
    assert_eq!(fault(&[0xa2, 2, 0, 5]), "Unsubscribe no topics");
}

#[test]
fn a_ping_announces_nothing() {
    let mut ping = MQTTMessagePingReq::new();
    assert!(ping.from_bytes(&[0xc0, 0]).is_ok());
    assert!(ping.from_bytes(&[0xc0, 1]).is_err());
    assert!(ping.from_bytes(&[0xc0, 1, 0]).is_err());
    assert!(ping.from_bytes(&[0xc0, 0, 0]).is_err());
    let fault = ping.from_bytes(&[0xc0, 0x80, 1]).unwrap_err();
    assert_eq!(fault.message(), "Pingreq message length incorrect");
}
