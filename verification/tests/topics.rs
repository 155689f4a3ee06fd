use squillion::broker::persist::LoadRequest;
use squillion::broker::persist::Loader;
use squillion::broker::persist::PersistedTopic;
use squillion::broker::router::forward;
use squillion::broker::router::SessionId;
use squillion::broker::topics::Request;
use squillion::broker::topics::RetainPending;
use squillion::broker::topics::Step;
use squillion::broker::topics::SubscribePending;
use squillion::broker::topics::Subscriptions;
use squillion::broker::topics::UnsubscribePending;
use squillion::broker::BrokerError;
use squillion::messages::MQTTMessagePublish;

fn run_subscribe(s: &mut Subscriptions, session: SessionId, topic: &str, qos: u8) -> Result<u8, BrokerError> {
    let mut step = s.subscribe(session, topic, qos);
    loop {
        step = match step {
            Step::Done(r) => return r,
            Step::Ask(_, pending) => s.subscribe_answer(pending, Ok(7)),
        };
    }
}

fn run_unsubscribe(s: &mut Subscriptions, session: &SessionId, topic: &str) -> Result<(), BrokerError> {
    let mut step = s.unsubscribe(session, topic);
    loop {
        step = match step {
            Step::Done(r) => return r,
            Step::Ask(_, pending) => s.unsubscribe_answer(pending, Ok(0)),
        };
    }
}

fn run_retain(s: &mut Subscriptions, m: MQTTMessagePublish) -> Result<(), BrokerError> {
    let mut step = s.retain(m);
    loop {
        step = match step {
            Step::Done(r) => return r,
            Step::Ask(_, pending) => s.retain_answer(pending, Ok(9)),
        };
    }
}

fn is_subscribed(subscrptions: &Subscriptions, client: String, topic: &str) -> Result<bool, bool> {
    if subscrptions.get_subscribed(topic).contains_key(&get_session_id(&client)) {
        Ok(true)
    } else {
        Ok(false)
    }
}

fn get_session_id(session: &str) -> SessionId {
    SessionId {
        session: session.to_string(),
        internal_id: 1,
        session_generation: 12345,
    }
}

fn message(topic: &str, payload: &[u8]) -> MQTTMessagePublish {
    let mut m = MQTTMessagePublish::new();
    m.set_topic(topic.to_string());
    m.set_message(payload.to_vec());
    m
}

#[test]
fn test_subscribe_single() {
    let mut s = Subscriptions::new();
    assert_eq!(is_subscribed(&s, String::from("user1"), &String::from("test")), Ok(false));
    assert_eq!(
        run_subscribe(&mut s, get_session_id("user1"), &String::from("test"), 0),
        Ok(0)
    );
    assert_eq!(is_subscribed(&s, String::from("user1"), &String::from("test")), Ok(true));

    assert_eq!(is_subscribed(&s, String::from("user1"), &String::from("topic2")), Ok(false));

    assert_eq!(
        run_subscribe(&mut s, get_session_id("user1"), &String::from("test/topic1"), 0),
        Ok(0)
    );
    assert_eq!(
        is_subscribed(&s, String::from("user1"), &String::from("test/topic1")),
        Ok(true)
    );
}

#[test]
fn test_subscribe_single_wildcard() {
    let mut s = Subscriptions::new();
    assert_eq!(is_subscribed(&s, String::from("user1"), &String::from("test")), Ok(false));
    assert_eq!(
        run_subscribe(&mut s, get_session_id("user1"), &String::from("#"), 0),
        Ok(0)
    );
    assert_eq!(is_subscribed(&s, String::from("user1"), &String::from("test")), Ok(true));
    assert_eq!(
        is_subscribed(&s, String::from("user1"), &String::from("topic/topic1")),
        Ok(true)
    );
}

#[test]
fn test_unsubscribe_single() {
    let mut s = Subscriptions::new();

    assert_eq!(is_subscribed(&s, String::from("user1"), &String::from("test")), Ok(false));
    assert_eq!(
        run_subscribe(&mut s, get_session_id("user1"), &String::from("test"), 0),
        Ok(0)
    );
    assert_eq!(is_subscribed(&s, String::from("user1"), &String::from("test")), Ok(true));
    assert_eq!(
        run_unsubscribe(&mut s, &get_session_id("user1"), &String::from("test")),
        Ok(())
    );
    assert_eq!(is_subscribed(&s, String::from("user1"), &String::from("test")), Ok(false));
}

#[test]
fn test_subscribe_two() {
    let mut s = Subscriptions::new();

    assert_eq!(
        run_subscribe(&mut s, get_session_id("user1"), &String::from("test/topic1"), 0),
        Ok(0)
    );
    assert_eq!(
        is_subscribed(&s, String::from("user1"), &String::from("test/topic1")),
        Ok(true)
    );
    assert_eq!(
        is_subscribed(&s, String::from("user1"), &String::from("test/topic2")),
        Ok(false)
    );
    assert_eq!(is_subscribed(&s, String::from("user1"), &String::from("test")), Ok(false));
}

#[test]
fn test_subscribe_two_wildcard() {
    let mut s = Subscriptions::new();

    assert_eq!(
        run_subscribe(&mut s, get_session_id("user1"), &String::from("topics/#"), 0),
        Ok(0)
    );
    assert_eq!(is_subscribed(&s, String::from("user1"), &String::from("test")), Ok(false));
    assert_eq!(
        is_subscribed(&s, String::from("user1"), &String::from("topics/topic1")),
        Ok(true)
    );
    assert_eq!(
        is_subscribed(&s, String::from("user1"), &String::from("topics/xyz/abc")),
        Ok(true)
    );
}

#[test]
fn test_subscribe_single_level_wildcard() {
    let mut s = Subscriptions::new();

    assert_eq!(
        run_subscribe(&mut s, get_session_id("user1"), &String::from("sport/tennis/+"), 0),
        Ok(0)
    );
    assert_eq!(
        is_subscribed(&s, String::from("user1"), &String::from("sport/tennis/player1")),
        Ok(true)
    );
    assert_eq!(
        is_subscribed(&s, String::from("user1"), &String::from("sport/tennis/player2")),
        Ok(true)
    );
    assert_eq!(
        is_subscribed(&s, String::from("user1"), &String::from("sport/tennis/player1/ranking")),
        Ok(false)
    );
}

#[test]
fn test_subscribe_single_level_wildcard_two() {
    let mut s = Subscriptions::new();

    assert_eq!(
        run_subscribe(&mut s, get_session_id("user1"), &String::from("sport/+/player1"), 0),
        Ok(0)
    );
    assert_eq!(
        run_subscribe(&mut s, get_session_id("user2"), &String::from("sport/#"), 0),
        Ok(0)
    );
    assert_eq!(
        is_subscribed(&s, String::from("user1"), &String::from("sport/tennis/player1")),
        Ok(true)
    );
    assert_eq!(
        is_subscribed(&s, String::from("user1"), &String::from("sport/tennis/player2")),
        Ok(false)
    );
    assert_eq!(
        is_subscribed(&s, String::from("user1"), &String::from("sport/golf/player1")),
        Ok(true)
    );
    assert_eq!(
        is_subscribed(&s, String::from("user1"), &String::from("sport/tennis/player1/ranking")),
        Ok(false)
    );
}

#[test]
fn the_store_is_asked_step_by_step() {
    let mut s = Subscriptions::new();
    let pending = match s.subscribe(get_session_id("u"), "a/b", 1) {
        Step::Ask(request, pending) => {
            assert_eq!(request, Request::PersistTopic { topic: "a/b".to_string() });
            pending
        }
        Step::Done(_) => panic!("not asked"),
    };
    let pending = match s.subscribe_answer(pending, Ok(42)) {
        Step::Ask(request, pending) => {
            assert_eq!(
                request,
                Request::PersistSubscribe { session_id: 1, topic_id: 42, qos: 1 }
            );
            pending
        }
        Step::Done(_) => panic!("not asked"),
    };
    assert!(matches!(s.subscribe_answer(pending, Ok(0)), Step::Done(Ok(1))));
    assert_eq!(s.subscriptions(), 1);
    assert_eq!(s.get_subscribed("a/b").get(&get_session_id("u")), Some(1));

    // Another quality of service changes the subscription.
    let pending = match s.subscribe(get_session_id("u"), "a/b", 2) {
        Step::Ask(request, pending) => {
            assert_eq!(
                request,
                Request::PersistUpdateSubscribe { session_id: 1, topic_id: 42, qos: 2 }
            );
            pending
        }
        Step::Done(_) => panic!("not asked"),
    };
    assert!(matches!(s.subscribe_answer(pending, Ok(0)), Step::Done(Ok(2))));
    assert_eq!(s.subscriptions(), 1);
    assert_eq!(s.get_subscribed("a/b").get(&get_session_id("u")), Some(2));

    // The same one does not.
    assert!(matches!(s.subscribe(get_session_id("u"), "a/b", 2), Step::Done(Ok(2))));
}

#[test]
fn refused_subscriptions() {
    let mut s = Subscriptions::new();
    let fault = || BrokerError::PersistError("full".to_string());
    let pending = match s.subscribe(get_session_id("u"), "a", 1) {
        Step::Ask(_, pending) => pending,
        Step::Done(_) => panic!("not asked"),
    };
    assert!(matches!(pending, SubscribePending::Topic { .. }));
    match s.subscribe_answer(pending, Err(fault())) {
        Step::Done(r) => assert_eq!(r, Err(fault())),
        Step::Ask(_, _) => panic!("asked again"),
    }
    assert_eq!(is_subscribed(&s, "u".to_string(), "a"), Ok(false));

    // A change that is refused leaves what was granted before.
    assert_eq!(run_subscribe(&mut s, get_session_id("u"), "a", 1), Ok(1));
    let pending = match s.subscribe(get_session_id("u"), "a", 0) {
        Step::Ask(_, pending) => pending,
        Step::Done(_) => panic!("not asked"),
    };
    match s.subscribe_answer(pending, Err(fault())) {
        Step::Done(r) => assert_eq!(r, Ok(1)),
        Step::Ask(_, _) => panic!("asked again"),
    }
    assert_eq!(s.get_subscribed("a").get(&get_session_id("u")), Some(1));
}

#[test]
fn the_last_matching_filter_counts() {
    let mut s = Subscriptions::new();
    assert_eq!(run_subscribe(&mut s, get_session_id("u"), "a/#", 2), Ok(2));
    assert_eq!(run_subscribe(&mut s, get_session_id("u"), "a/+", 0), Ok(0));
    assert_eq!(run_subscribe(&mut s, get_session_id("u"), "a/b", 1), Ok(1));
    let found = s.get_subscribed("a/b");
    assert_eq!(found.get(&get_session_id("u")), Some(1));
    assert_eq!(found.into_entries().len(), 1);
    assert_eq!(s.get_subscribed("a/c").get(&get_session_id("u")), Some(0));
    assert_eq!(s.get_subscribed("a/c/d").get(&get_session_id("u")), Some(2));
    // A filter with # stands for at least one more level.
    assert_eq!(s.get_subscribed("a").get(&get_session_id("u")), None);
}

#[test]
fn unsubscribing_ends_unused_topics() {
    let mut s = Subscriptions::new();
    assert_eq!(run_subscribe(&mut s, get_session_id("u"), "a", 0), Ok(0));
    let pending = match s.unsubscribe(&get_session_id("u"), "a") {
        Step::Ask(request, pending) => {
            assert_eq!(request, Request::PersistUnsubscribe { session_id: 1, topic_id: 7 });
            pending
        }
        Step::Done(_) => panic!("not asked"),
    };
    assert_eq!(s.subscriptions(), 0);
    let pending = match s.unsubscribe_answer(pending, Ok(0)) {
        Step::Ask(request, pending) => {
            assert_eq!(request, Request::PersistDeleteTopic { topic_id: 7 });
            pending
        }
        Step::Done(_) => panic!("not asked"),
    };
    assert!(matches!(pending, UnsubscribePending::Deleted { .. }));
    assert!(matches!(s.unsubscribe_answer(pending, Ok(0)), Step::Done(Ok(()))));
    // The topic needs a new key.
    assert!(matches!(
        s.subscribe(get_session_id("u"), "a", 0),
        Step::Ask(Request::PersistTopic { .. }, _)
    ));
    // Nobody is subscribed here.
    assert!(matches!(s.unsubscribe(&get_session_id("v"), "a"), Step::Done(Ok(()))));
    assert!(matches!(s.unsubscribe(&get_session_id("u"), "z/z"), Step::Done(Ok(()))));
}

#[test]
fn retained_messages_are_found_again() {
    let mut s = Subscriptions::new();
    assert_eq!(s.get_retained_messages("a/b".to_string()), vec![]);
    assert_eq!(run_retain(&mut s, message("a/b", b"one")), Ok(()));
    assert_eq!(s.retained_messages(), 1);
    assert_eq!(s.get_retained_messages("a/b".to_string()), vec![message("a/b", b"one")]);
    assert_eq!(s.get_retained_messages("a".to_string()), vec![]);
    assert_eq!(s.get_retained_messages("a/+".to_string()), vec![]);
    assert_eq!(run_retain(&mut s, message("a/b", b"two")), Ok(()));
    assert_eq!(s.retained_messages(), 1);
    assert_eq!(s.get_retained_messages("a/b".to_string()), vec![message("a/b", b"two")]);
    assert_eq!(run_retain(&mut s, message("a/b", b"")), Ok(()));
    assert_eq!(s.retained_messages(), 0);
    assert_eq!(s.get_retained_messages("a/b".to_string()), vec![]);
}

#[test]
fn retaining_asks_in_order() {
    let mut s = Subscriptions::new();
    let mut asked: Vec<Request> = Vec::new();
    let mut step = s.retain(message("t", b"x"));
    loop {
        step = match step {
            Step::Done(r) => {
                assert_eq!(r, Ok(()));
                break;
            }
            Step::Ask(request, pending) => {
                asked.push(request);
                s.retain_answer(pending, Ok(3))
            }
        };
    }
    assert_eq!(
        asked,
        vec![
            Request::PersistTopic { topic: "t".to_string() },
            Request::PersistDeleteRetain { topic_id: 3 },
            Request::PersistRetain { topic_id: 3, message: message("t", b"x") },
        ]
    );
    // A refusal leaves what was retained.
    let pending = match s.retain(message("t", b"")) {
        Step::Ask(_, pending) => pending,
        Step::Done(_) => panic!("not asked"),
    };
    assert!(matches!(pending, RetainPending::Cleared { .. }));
    match s.retain_answer(pending, Err(BrokerError::PersistError("no".to_string()))) {
        Step::Done(r) => assert_eq!(r, Err(BrokerError::PersistError("no".to_string()))),
        Step::Ask(_, _) => panic!("asked again"),
    }
    assert_eq!(s.get_retained_messages("t".to_string()), vec![message("t", b"x")]);
}

#[test]
fn topics_are_loaded() {
    let mut s = Subscriptions::new();
    let topics = vec![
        PersistedTopic {
            topic_id: 5,
            topic_name: "a/b".to_string(),
            retained_message_id: Some(8),
        },
        PersistedTopic { topic_id: 6, topic_name: "a".to_string(), retained_message_id: None },
    ];
    let mut loader = Loader::new(topics);
    assert_eq!(loader.request(), LoadRequest::Message { message_id: 8 });
    loader.message_loaded(message("a/b", b"kept"));
    assert_eq!(loader.request(), LoadRequest::Subscriptions { topic_id: 5 });
    loader.subscriptions_loaded(&mut s, vec![(get_session_id("u"), 1), (get_session_id("v"), 0)]);
    assert_eq!(loader.request(), LoadRequest::Subscriptions { topic_id: 6 });
    loader.subscriptions_loaded(&mut s, vec![(get_session_id("u"), 2)]);
    assert_eq!(loader.request(), LoadRequest::Finished);
    loader.finish(&mut s);
    assert_eq!(s.subscriptions(), 3);
    assert_eq!(s.retained_messages(), 1);
    assert_eq!(s.get_retained_messages("a/b".to_string()), vec![message("a/b", b"kept")]);
    assert_eq!(s.get_subscribed("a/b").get(&get_session_id("v")), Some(0));
    assert_eq!(s.get_subscribed("a").get(&get_session_id("u")), Some(2));
    // A loaded topic has its key.
    assert!(matches!(
        s.subscribe(get_session_id("w"), "a/b", 0),
        Step::Ask(Request::PersistSubscribe { topic_id: 5, .. }, _)
    ));
}

#[test]
fn messages_are_forwarded_with_the_lower_quality() {
    let mut m = message("a/b", b"x");
    m.set_retain(true);
    m.set_qos(1);
    m.set_identifier(5);
    let lower = forward(&m, 0);
    assert_eq!(lower.get_qos(), 0);
    assert!(!lower.get_retain());
    assert_eq!(lower.get_topic(), "a/b");
    assert_eq!(lower.get_message(), b"x");
    assert_eq!(lower.get_identifier(), 5);
    assert_eq!(forward(&m, 2).get_qos(), 1);
    assert!(m.get_retain());
}

#[test]
fn gauges_follow_what_is_there() {
    let mut s = Subscriptions::new();
    assert_eq!(run_subscribe(&mut s, get_session_id("user1"), "a", 0), Ok(0));
    assert_eq!(run_subscribe(&mut s, get_session_id("user1"), "a", 1), Ok(1));
    assert_eq!(run_subscribe(&mut s, get_session_id("user2"), "a", 1), Ok(1));
    assert_eq!(s.subscriptions(), 2);
    assert_eq!(run_unsubscribe(&mut s, &get_session_id("user3"), "a"), Ok(()));
    assert_eq!(s.subscriptions(), 2);
    assert_eq!(run_unsubscribe(&mut s, &get_session_id("user1"), "a"), Ok(()));
    assert_eq!(s.subscriptions(), 1);
    assert_eq!(run_retain(&mut s, message("b", b"")), Ok(()));
    assert_eq!(s.retained_messages(), 0);
    assert_eq!(run_retain(&mut s, message("b", b"1")), Ok(()));
    assert_eq!(run_retain(&mut s, message("b", b"2")), Ok(()));
    assert_eq!(s.retained_messages(), 1);
    assert_eq!(run_retain(&mut s, message("b", b"")), Ok(()));
    assert_eq!(s.retained_messages(), 0);
    assert_eq!(s.subscriptions(), 1);
}
