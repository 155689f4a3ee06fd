use squillion::broker::router::RouterPublishMessage;
use squillion::broker::router::RouterPublishSubscribeResponse;
use squillion::broker::router::RouterPublisUnsubscribe;
use squillion::broker::router::SessionId;
use squillion::messages::codec::MQTTMessage;
use squillion::messages::MQTTMessageConnack;
use squillion::messages::MQTTMessageConnect;
use squillion::messages::MQTTMessageDisconnect;
use squillion::messages::MQTTMessagePuback;
use squillion::messages::MQTTMessagePubcomp;
use squillion::messages::MQTTMessagePublish;
use squillion::messages::MQTTMessagePubrec;
use squillion::messages::MQTTMessagePubrel;
use squillion::messages::MQTTMessageSuback;
use squillion::messages::MQTTMessageSubscribe;
use squillion::messages::MQTTMessageUnsuback;
use squillion::messages::MQTTMessageUnsubscribe;
use squillion::messages::ReturnCode;
use squillion::sessions::sessionworker::MQTTSession;
use squillion::sessions::sessionworker::NewClient;
use squillion::sessions::sessionworker::SessionInternalMessage;
use squillion::sessions::sessionworker::SessionMessage;
use squillion::sessions::steps::Effect;
use squillion::sessions::steps::PersistRequest;
use squillion::sessions::steps::Step;
use squillion::sessions::SessionError;
use std::collections::HashSet;

fn connect_packet(clean: bool) -> MQTTMessageConnect {
    let mut m = MQTTMessageConnect::new();
    let flags = if clean { 2 } else { 0 };
    m.from_bytes(&[
        0x10, 13, 0, 4, b'M', b'Q', b'T', b'T', 4, flags, 0, 60, 0, 1, b'c',
    ])
    .unwrap();
    m
}

fn publish(qos: u8, id: u16) -> MQTTMessagePublish {
    let mut m = MQTTMessagePublish::new();
    m.set_topic("t".to_string());
    m.set_message(vec![1, 2, 3]);
    m.set_qos(qos);
    m.set_identifier(id);
    m
}

fn dup(m: &MQTTMessagePublish) -> MQTTMessagePublish {
    let mut d = m.clone();
    d.set_dup(true);
    d
}

fn id_of(generation: i64) -> SessionId {
    SessionId {
        session: "c".to_string(),
        internal_id: 0,
        session_generation: generation,
    }
}

fn internal(m: MQTTMessagePublish, generation: i64) -> SessionMessage {
    SessionMessage::Internal(SessionInternalMessage {
        session: id_of(generation),
        message: MQTTMessage::Publish(m),
    })
}

/// Carries out every effect with success; the effects in their order, and the outcome.
fn run(s: &mut MQTTSession, event: SessionMessage) -> (Vec<Effect>, Result<(), SessionError>) {
    assert!(s.has_room(&event));
    let mut step = s.handle(event);
    let mut effects = Vec::new();
    loop {
        step = match step {
            Step::Done(r) => return (effects, r),
            Step::Perform(effect, pending) => {
                effects.push(effect);
                s.answer(pending, Ok(()))
            }
            Step::Subscribe(_, progress) => s.subscribe_answer(progress, None),
        };
    }
}

fn client(s: &mut MQTTSession, m: MQTTMessage) -> (Vec<Effect>, Result<(), SessionError>) {
    run(s, SessionMessage::Client(m))
}

fn connected() -> MQTTSession {
    let mut s = MQTTSession::new("c".to_string());
    let (_, r) = run(&mut s, SessionMessage::NewClient(NewClient { msg: connect_packet(false) }));
    assert_eq!(r, Ok(()));
    s
}

fn pubrec(id: u16) -> MQTTMessage {
    let mut m = MQTTMessagePubrec::new();
    m.set_identifier(id);
    MQTTMessage::PubRec(m)
}

fn pubrel(id: u16) -> MQTTMessage {
    let mut m = MQTTMessagePubrel::new();
    m.set_identifier(id);
    MQTTMessage::PubRel(m)
}

fn puback(id: u16) -> MQTTMessage {
    let mut m = MQTTMessagePuback::new();
    m.set_identifier(id);
    MQTTMessage::PubAck(m)
}

fn pubcomp(id: u16) -> MQTTMessage {
    let mut m = MQTTMessagePubcomp::new();
    m.set_identifier(id);
    MQTTMessage::PubComp(m)
}

fn connack(present: bool, code: ReturnCode) -> MQTTMessage {
    let mut m = MQTTMessageConnack::new();
    m.set_session_present(present);
    m.set_return_code(code);
    MQTTMessage::ConnAck(m)
}

#[test]
fn a_new_session_greets_its_client() {
    let mut s = MQTTSession::new("c".to_string());
    assert!(s.farewell().is_none());
    let (effects, r) =
        run(&mut s, SessionMessage::NewClient(NewClient { msg: connect_packet(false) }));
    assert_eq!(r, Ok(()));
    assert_eq!(effects, vec![Effect::SwitchClient(connack(false, ReturnCode::Accepted))]);
    assert_eq!(s.farewell(), Some(MQTTMessage::Disconnect(MQTTMessageDisconnect::new())));
}

#[test]
fn a_second_client_takes_over() {
    let mut s = connected();
    let (effects, r) =
        run(&mut s, SessionMessage::NewClient(NewClient { msg: connect_packet(false) }));
    assert_eq!(r, Ok(()));
    assert_eq!(
        effects,
        vec![
            Effect::SendClient(MQTTMessage::Disconnect(MQTTMessageDisconnect::new())),
            Effect::SwitchClient(connack(true, ReturnCode::Accepted)),
        ]
    );
}

#[test]
fn clean_sessions_start_anew() {
    let mut s = connected();
    s.subscriptions_loaded(vec!["a".to_string(), "b".to_string(), "a".to_string()]);
    let (_, r) = run(&mut s, internal(publish(1, 0), 0));
    assert_eq!(r, Ok(()));
    let (effects, r) =
        run(&mut s, SessionMessage::NewClient(NewClient { msg: connect_packet(true) }));
    assert_eq!(r, Ok(()));
    assert_eq!(
        effects,
        vec![
            Effect::SendClient(MQTTMessage::Disconnect(MQTTMessageDisconnect::new())),
            Effect::Persist(PersistRequest::IncomingClear { session_id: 0 }),
            Effect::Persist(PersistRequest::OutgoingClear { session_id: 0 }),
            Effect::RouterUnsubscribe(RouterPublisUnsubscribe {
                session: id_of(0),
                topics: vec!["a".to_string(), "b".to_string()],
            }),
            Effect::Persist(PersistRequest::UpdateGeneration { session_id: 0, generation: 1 }),
            Effect::SwitchClient(connack(false, ReturnCode::Accepted)),
        ]
    );
    assert_eq!(s.session_id(), id_of(1));
    // What was meant for the old generation is dropped.
    let (effects, r) = run(&mut s, internal(publish(0, 0), 0));
    assert_eq!(r, Ok(()));
    assert!(effects.is_empty());
}

#[test]
fn a_store_that_fails_refuses_clean_sessions() {
    let mut s = MQTTSession::new("c".to_string());
    let pending = match s.handle(SessionMessage::NewClient(NewClient { msg: connect_packet(true) })) {
        Step::Perform(effect, pending) => {
            assert_eq!(effect, Effect::Persist(PersistRequest::IncomingClear { session_id: 0 }));
            pending
        }
        _ => panic!("no effect"),
    };
    let pending = match s.answer(pending, Err(SessionError::Persist("full".to_string()))) {
        Step::Perform(effect, pending) => {
            assert_eq!(
                effect,
                Effect::SwitchClient(connack(false, ReturnCode::ServerUnavailable))
            );
            pending
        }
        _ => panic!("no effect"),
    };
    match s.answer(pending, Ok(())) {
        Step::Done(r) => {
            assert_eq!(r, Err(SessionError::Persist("full".to_string())));
            assert!(!MQTTSession::keeps_running(&r));
        }
        _ => panic!("not done"),
    }
}

#[test]
fn qos0_is_passed_on() {
    let mut s = connected();
    let (effects, r) = run(&mut s, internal(dup(&publish(0, 7)), 0));
    assert_eq!(r, Ok(()));
    assert_eq!(effects, vec![Effect::SendClient(MQTTMessage::Publish(publish(0, 7)))]);
    assert_eq!(s.publish_sent(), 1);
}

#[test]
fn qos1_is_stored_sent_and_acknowledged() {
    let mut s = connected();
    let (effects, r) = run(&mut s, internal(publish(1, 99), 0));
    assert_eq!(r, Ok(()));
    assert_eq!(
        effects,
        vec![
            Effect::Persist(PersistRequest::UpdateMid { session_id: 0, next_message_id: 2 }),
            Effect::Persist(PersistRequest::OutgoingStore {
                session_id: 0,
                mid: 1,
                message: MQTTMessage::Publish(publish(1, 1)),
            }),
            Effect::SendClient(MQTTMessage::Publish(publish(1, 1))),
            Effect::Persist(PersistRequest::OutgoingUpdateDup { session_id: 0, mid: 1, dup: true }),
        ]
    );
    // A client that comes back gets it again, marked.
    let (effects, _) =
        run(&mut s, SessionMessage::NewClient(NewClient { msg: connect_packet(false) }));
    assert_eq!(
        effects.last(),
        Some(&Effect::SendClient(MQTTMessage::Publish(dup(&publish(1, 1)))))
    );
    let (effects, r) = client(&mut s, puback(1));
    assert_eq!(r, Ok(()));
    assert_eq!(
        effects,
        vec![Effect::Persist(PersistRequest::OutgoingDelete { session_id: 0, mid: 1 })]
    );
    // The second acknowledgement finds nothing.
    let (effects, r) = client(&mut s, puback(1));
    assert_eq!(r, Ok(()));
    assert!(effects.is_empty());
}

#[test]
fn messages_wait_for_their_client() {
    let mut s = MQTTSession::new("c".to_string());
    let (effects, r) = run(&mut s, internal(publish(2, 0), 0));
    assert_eq!(r, Ok(()));
    assert_eq!(effects.len(), 2);
    let (effects, r) =
        run(&mut s, SessionMessage::NewClient(NewClient { msg: connect_packet(false) }));
    assert_eq!(r, Ok(()));
    assert_eq!(
        effects,
        vec![
            Effect::SwitchClient(connack(false, ReturnCode::Accepted)),
            Effect::SendClient(MQTTMessage::Publish(publish(2, 1))),
            Effect::Persist(PersistRequest::OutgoingUpdateDup { session_id: 0, mid: 1, dup: true }),
        ]
    );
}

#[test]
fn qos2_to_the_client() {
    let mut s = connected();
    run(&mut s, internal(publish(2, 0), 0)).1.unwrap();
    let (effects, r) = client(&mut s, pubrec(1));
    assert_eq!(r, Ok(()));
    assert_eq!(
        effects,
        vec![
            Effect::Persist(PersistRequest::OutgoingDelete { session_id: 0, mid: 1 }),
            Effect::Persist(PersistRequest::OutgoingStore {
                session_id: 0,
                mid: 1,
                message: pubrec(1),
            }),
            Effect::SendClient(pubrel(1)),
        ]
    );
    // The note is sent again as PUBREL.
    let (effects, _) =
        run(&mut s, SessionMessage::NewClient(NewClient { msg: connect_packet(false) }));
    assert_eq!(effects.last(), Some(&Effect::SendClient(pubrel(1))));
    let (effects, _) = client(&mut s, pubrec(1));
    assert_eq!(effects, vec![Effect::SendClient(pubrel(1))]);
    let (effects, r) = client(&mut s, pubcomp(1));
    assert_eq!(r, Ok(()));
    assert_eq!(
        effects,
        vec![Effect::Persist(PersistRequest::OutgoingDelete { session_id: 0, mid: 1 })]
    );
}

#[test]
fn pubrec_for_an_unknown_message_is_noted() {
    let mut s = connected();
    let (effects, r) = client(&mut s, pubrec(9));
    assert_eq!(r, Ok(()));
    assert_eq!(
        effects,
        vec![
            Effect::Persist(PersistRequest::OutgoingStore {
                session_id: 0,
                mid: 9,
                message: pubrec(9),
            }),
            Effect::SendClient(pubrel(9)),
        ]
    );
}

#[test]
fn messages_of_the_client() {
    let mut s = connected();
    let routed = |m: MQTTMessagePublish| {
        Effect::RouterPublish(RouterPublishMessage { session: id_of(0), message: m })
    };
    let (effects, r) = client(&mut s, MQTTMessage::Publish(publish(0, 0)));
    assert_eq!(r, Ok(()));
    assert_eq!(effects, vec![routed(publish(0, 0))]);
    let (effects, r) = client(&mut s, MQTTMessage::Publish(dup(&publish(1, 5))));
    assert_eq!(r, Ok(()));
    assert_eq!(effects, vec![routed(publish(1, 5)), Effect::SendClient(puback(5))]);
    // QoS 2 is published once.
    let (effects, r) = client(&mut s, MQTTMessage::Publish(publish(2, 6)));
    assert_eq!(r, Ok(()));
    assert_eq!(
        effects,
        vec![
            routed(publish(2, 6)),
            Effect::Persist(PersistRequest::IncomingStore { session_id: 0, mid: 6 }),
            Effect::SendClient(pubrec(6)),
        ]
    );
    let (effects, r) = client(&mut s, MQTTMessage::Publish(dup(&publish(2, 6))));
    assert_eq!(r, Ok(()));
    assert_eq!(effects, vec![Effect::SendClient(pubrec(6))]);
    let (effects, r) = client(&mut s, pubrel(6));
    assert_eq!(r, Ok(()));
    assert_eq!(
        effects,
        vec![
            Effect::Persist(PersistRequest::IncomingDelete { session_id: 0, mid: 6 }),
            Effect::SendClient(pubcomp(6)),
        ]
    );
    let (effects, _) = client(&mut s, MQTTMessage::Publish(publish(2, 6)));
    assert_eq!(effects[0], routed(publish(2, 6)));
    assert_eq!(s.publish_received(), 5);
}

#[test]
fn subscriptions_are_answered() {
    let mut s = connected();
    let mut m = MQTTMessageSubscribe::new();
    m.from_bytes(&[0x82, 10, 0, 5, 0, 1, b'a', 1, 0, 1, b'b', 2]).unwrap();
    let progress = match s.handle(SessionMessage::Client(MQTTMessage::Subscribe(m))) {
        Step::Subscribe(request, progress) => {
            assert_eq!(request.session, id_of(0));
            assert_eq!(request.topic, "a");
            assert_eq!(request.qos, 1);
            progress
        }
        _ => panic!("router not asked"),
    };
    let granted = RouterPublishSubscribeResponse { ret: 1, retained_messages: vec![publish(0, 0)] };
    let progress = match s.subscribe_answer(progress, Some(granted)) {
        Step::Subscribe(request, progress) => {
            assert_eq!(request.topic, "b");
            progress
        }
        _ => panic!("router not asked"),
    };
    let refused = RouterPublishSubscribeResponse { ret: 0x80, retained_messages: vec![] };
    let mut suback = MQTTMessageSuback::new();
    suback.set_identifier(5);
    suback.add_response(1);
    suback.add_response(0x80);
    let pending = match s.subscribe_answer(progress, Some(refused)) {
        Step::Perform(effect, pending) => {
            assert_eq!(effect, Effect::SendClient(MQTTMessage::SubAck(suback)));
            pending
        }
        _ => panic!("not answered"),
    };
    let pending = match s.answer(pending, Ok(())) {
        Step::Perform(effect, pending) => {
            assert_eq!(effect, Effect::SendClient(MQTTMessage::Publish(publish(0, 0))));
            pending
        }
        _ => panic!("not sent"),
    };
    assert!(matches!(s.answer(pending, Ok(())), Step::Done(Ok(()))));
}

#[test]
fn a_silent_router_ends_the_session() {
    let mut s = connected();
    let mut m = MQTTMessageSubscribe::new();
    m.from_bytes(&[0x82, 6, 0, 5, 0, 1, b'a', 1]).unwrap();
    let (effects, r) = client(&mut s, MQTTMessage::Subscribe(m));
    let mut suback = MQTTMessageSuback::new();
    suback.set_identifier(5);
    suback.add_response(0x80);
    assert_eq!(effects, vec![Effect::SendClient(MQTTMessage::SubAck(suback))]);
    assert_eq!(r, Err(SessionError::Router));
    assert!(!MQTTSession::keeps_running(&r));
}

#[test]
fn unsubscriptions_are_answered() {
    let mut s = connected();
    let mut m = MQTTMessageUnsubscribe::new();
    m.from_bytes(&[0xa2, 5, 0, 6, 0, 1, b'a']).unwrap();
    let (effects, r) = client(&mut s, MQTTMessage::Unsubscribe(m));
    assert_eq!(r, Ok(()));
    // The answer carries the identifier of the request.
    let mut ack = MQTTMessageUnsuback::new();
    ack.set_identifier(6);
    assert_eq!(
        effects,
        vec![
            Effect::RouterUnsubscribe(RouterPublisUnsubscribe {
                session: id_of(0),
                topics: vec!["a".to_string()],
            }),
            Effect::SendClient(MQTTMessage::UnsubAck(ack)),
        ]
    );
}

#[test]
fn lost_clients_do_not_end_the_session() {
    let mut s = connected();
    let pending = match s.handle(internal(publish(0, 0), 0)) {
        Step::Perform(_, pending) => pending,
        _ => panic!("not sent"),
    };
    match s.answer(pending, Err(SessionError::Client)) {
        Step::Done(r) => {
            assert_eq!(r, Err(SessionError::Client));
            assert!(MQTTSession::keeps_running(&r));
        }
        _ => panic!("not done"),
    }
    // Without a client nothing is sent.
    let (effects, r) = run(&mut s, internal(publish(0, 0), 0));
    assert_eq!(r, Ok(()));
    assert!(effects.is_empty());
    let (_, r) = client(&mut s, pubrel(1));
    assert_eq!(r, Err(SessionError::Client));
}

#[test]
fn sessions_are_loaded() {
    let mut s = MQTTSession::new("c".to_string());
    assert!(s.session_loaded(4, 9, false, 20));
    s.subscriptions_loaded(vec!["x".to_string()]);
    s.qos_incoming_loaded(HashSet::from([3]));
    assert_eq!(
        s.qos_outgoing_loaded(vec![MQTTMessage::Publish(dup(&publish(1, 12))), pubrec(13)]),
        Ok(())
    );
    let (effects, r) =
        run(&mut s, SessionMessage::NewClient(NewClient { msg: connect_packet(false) }));
    assert_eq!(r, Ok(()));
    assert_eq!(
        effects,
        vec![
            Effect::SwitchClient(connack(true, ReturnCode::Accepted)),
            Effect::SendClient(MQTTMessage::Publish(dup(&publish(1, 12)))),
            Effect::SendClient(pubrel(13)),
        ]
    );
    let (effects, _) = client(&mut s, MQTTMessage::Publish(publish(2, 3)));
    assert_eq!(effects, vec![Effect::SendClient(pubrec(3))]);
    let (effects, _) = run(&mut s, internal(publish(1, 0), 9));
    assert_eq!(
        effects[0],
        Effect::Persist(PersistRequest::UpdateMid { session_id: 4, next_message_id: 21 })
    );
    assert_eq!(
        s.qos_outgoing_loaded(vec![puback(1)]),
        Err(SessionError::Persist(
            "Error loading persistent state - unkown qos message".to_string()
        ))
    );
}

#[test]
fn an_identifier_in_use_is_a_fault() {
    let mut s = connected();
    s.session_loaded(0, 0, false, 12);
    assert_eq!(s.qos_outgoing_loaded(vec![pubrec(12)]), Ok(()));
    let (_, r) = run(&mut s, internal(publish(1, 0), 0));
    assert_eq!(
        r,
        Err(SessionError::Persist("QoS outgoing mid duplicate found".to_string()))
    );
}

#[test]
fn identifiers_run_out() {
    let mut s = connected();
    s.session_loaded(0, 0, false, u16::MAX);
    assert!(!s.has_room(&internal(publish(1, 0), 0)));
    assert!(s.has_room(&internal(publish(0, 0), 0)));
    assert!(MQTTSession::starts(&Ok(()), &Ok(())));
    assert!(!MQTTSession::starts(&Err(SessionError::Router), &Ok(())));
}

#[test]
fn a_connected_session_is_taken_over_clean() {
    let mut s = connected();
    let (effects, r) =
        run(&mut s, SessionMessage::NewClient(NewClient { msg: connect_packet(true) }));
    assert_eq!(r, Ok(()));
    assert_eq!(
        effects,
        vec![
            Effect::SendClient(MQTTMessage::Disconnect(MQTTMessageDisconnect::new())),
            Effect::Persist(PersistRequest::IncomingClear { session_id: 0 }),
            Effect::Persist(PersistRequest::OutgoingClear { session_id: 0 }),
            Effect::RouterUnsubscribe(RouterPublisUnsubscribe {
                session: id_of(0),
                topics: Vec::new()
            }),
            Effect::Persist(PersistRequest::UpdateGeneration { session_id: 0, generation: 1 }),
            Effect::SwitchClient(connack(false, ReturnCode::Accepted)),
        ]
    );
}

#[test]
fn a_connected_session_is_taken_over_with_its_queue() {
    let mut s = connected();
    let (_, r) = run(&mut s, internal(publish(1, 0), 0));
    assert_eq!(r, Ok(()));
    let (effects, r) =
        run(&mut s, SessionMessage::NewClient(NewClient { msg: connect_packet(false) }));
    assert_eq!(r, Ok(()));
    assert_eq!(
        effects,
        vec![
            Effect::SendClient(MQTTMessage::Disconnect(MQTTMessageDisconnect::new())),
            Effect::SwitchClient(connack(true, ReturnCode::Accepted)),
            Effect::SendClient(MQTTMessage::Publish(dup(&publish(1, 1)))),
        ]
    );
}
