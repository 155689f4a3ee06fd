use squillion::broker::persistsql::delete_retain_statement;
use squillion::broker::persistsql::init_persistent_store;
use squillion::broker::persistsql::message_from_row;
use squillion::broker::persistsql::persist_delete_retain;
use squillion::broker::persistsql::persist_retain_stored;
use squillion::broker::persistsql::persist_retain_tied;
use squillion::broker::persistsql::persist_topic_outcome;
use squillion::broker::persistsql::statement;
use squillion::broker::persistsql::subscription_from_row;
use squillion::broker::persistsql::topic_from_row;
use squillion::broker::persistsql::update_outcome;
use squillion::broker::persistsql::DeleteRetain;
use squillion::broker::persistsql::SqlValue;
use squillion::broker::persistsql::SCHEMA;
use squillion::broker::topics::Request;
use squillion::broker::BrokerError;
use squillion::messages::MQTTMessagePublish;

fn fault(text: &str) -> BrokerError {
    BrokerError::PersistError(text.to_string())
}

#[test]
fn stores_have_a_version() {
    assert_eq!(init_persistent_store(Some(1)), Ok(false));
    assert_eq!(init_persistent_store(None), Ok(true));
    assert_eq!(init_persistent_store(Some(2)), Err(fault("Unknown database version")));
    assert!(SCHEMA.contains("CREATE TABLE qosout"));
    assert!(SCHEMA.contains("INSERT INTO version(version) VALUES (1);"));
}

#[test]
fn requests_become_statements() {
    let s = statement(&Request::PersistTopic { topic: "a/b".to_string() });
    assert_eq!(s.sql, "INSERT INTO topics(topic) VALUES (:topic) RETURNING id");
    assert_eq!(s.params, vec![(":topic", SqlValue::Text("a/b".to_string()))]);
    let s = statement(&Request::PersistSubscribe { session_id: 1, topic_id: 2, qos: 1 });
    assert_eq!(
        s.params,
        vec![
            (":session_id", SqlValue::Int(1)),
            (":topic_id", SqlValue::Int(2)),
            (":qos", SqlValue::Small(1)),
        ]
    );
    let mut m = MQTTMessagePublish::new();
    m.set_topic("t".to_string());
    m.set_qos(2);
    m.set_message(vec![1, 2]);
    let s = statement(&Request::PersistRetain { topic_id: 4, message: m });
    assert_eq!(
        s.params,
        vec![
            (":qos", SqlValue::Small(2)),
            (":topic", SqlValue::Text("t".to_string())),
            (":payload", SqlValue::Blob(vec![1, 2])),
        ]
    );
    let s = statement(&Request::PersistUnsubscribe { session_id: 1, topic_id: 2 });
    assert_eq!(
        s.sql,
        "DELETE FROM subscriptions WHERE session_id = :session_id AND topic_id = :topic_id"
    );
    let s = statement(&Request::PersistUpdateSubscribe { session_id: 1, topic_id: 2, qos: 0 });
    assert_eq!(
        s.sql,
        "UPDATE subscriptions SET qos = :qos WHERE session_id = :session_id AND topic_id = :topic_id"
    );
}

#[test]
fn rows_become_values() {
    let m = message_from_row(1, "t".to_string(), vec![5]);
    assert_eq!(m.get_qos(), 1);
    assert_eq!(m.get_topic(), "t");
    assert_eq!(m.get_message(), &vec![5]);
    assert_eq!(message_from_row(258, "t".to_string(), vec![]).get_qos(), 2);
    let (session, qos) = subscription_from_row(3, "s".to_string(), 7, 2);
    assert_eq!(session.session, "s");
    assert_eq!(session.internal_id, 3);
    assert_eq!(session.session_generation, 7);
    assert_eq!(qos, 2);
    let t = topic_from_row(9, "x".to_string(), Some(4));
    assert_eq!(t.topic_id, 9);
    assert_eq!(t.topic_name, "x");
    assert_eq!(t.retained_message_id, Some(4));
}

#[test]
fn failures_have_their_texts() {
    assert_eq!(persist_topic_outcome(Ok(3)), Ok(3));
    assert_eq!(
        persist_topic_outcome(Err("locked".to_string())),
        Err(fault("Persist topic failed: locked"))
    );
    let end = Request::PersistDeleteTopic { topic_id: 6 };
    assert_eq!(update_outcome(&end, true), Ok(6));
    assert_eq!(update_outcome(&end, false), Err(fault("Persist delete topic failed")));
    let add = Request::PersistSubscribe { session_id: 1, topic_id: 2, qos: 1 };
    assert_eq!(update_outcome(&add, false), Err(fault("Persist subscribe failed")));
    let change = Request::PersistUpdateSubscribe { session_id: 1, topic_id: 2, qos: 1 };
    assert_eq!(update_outcome(&change, false), Err(fault("Update subscribe failed")));
    let end = Request::PersistUnsubscribe { session_id: 1, topic_id: 2 };
    assert_eq!(update_outcome(&end, true), Ok(0));
    assert_eq!(update_outcome(&end, false), Err(fault("Unsubscribe failed")));
}

#[test]
fn messages_are_tied_to_topics() {
    let s = persist_retain_stored(4, Some(11)).unwrap();
    assert_eq!(
        s.sql,
        "UPDATE topics SET retained_message_id = :retained_message_id WHERE id = :id"
    );
    assert_eq!(
        s.params,
        vec![(":retained_message_id", SqlValue::Int(11)), (":id", SqlValue::Int(4))]
    );
    assert_eq!(persist_retain_stored(4, None), Err(fault("Message retain failed")));
    assert_eq!(persist_retain_tied(11, true), Ok(11));
    assert_eq!(persist_retain_tied(11, false), Err(fault("Message retain failed")));
}

#[test]
fn retained_messages_are_deleted_in_one_transaction() {
    let mut at = DeleteRetain::Begin;
    let mut statements = Vec::new();
    while at != DeleteRetain::Finished {
        if let Some(s) = delete_retain_statement(at, 4) {
            statements.push((s.sql, s.params));
        }
        at = persist_delete_retain(at, true, Some(11)).unwrap();
    }
    assert_eq!(
        statements,
        vec![
            (
                "SELECT retained_message_id FROM topics WHERE id = :id",
                vec![(":id", SqlValue::Int(4))]
            ),
            (
                "UPDATE topics SET retained_message_id = NULL WHERE id = :id",
                vec![(":id", SqlValue::Int(4))]
            ),
            ("DELETE FROM messages WHERE id = :id", vec![(":id", SqlValue::Int(11))]),
        ]
    );
    assert_eq!(
        persist_delete_retain(DeleteRetain::Untie { retained: None }, true, None),
        Ok(DeleteRetain::Commit)
    );
    let failed = |at: DeleteRetain| persist_delete_retain(at, false, None).unwrap_err();
    assert_eq!(
        failed(DeleteRetain::Begin),
        fault("Delete retained message unable to start transaction")
    );
    assert_eq!(
        failed(DeleteRetain::Select),
        fault("Delete retained message getting message id failed")
    );
    assert_eq!(
        failed(DeleteRetain::Untie { retained: Some(1) }),
        fault("Delete retained message from topic failed")
    );
    assert_eq!(
        failed(DeleteRetain::Delete { message_id: 1 }),
        fault("Delete retained message failed")
    );
    assert_eq!(failed(DeleteRetain::Commit), fault("Delete retained message commit failed"));
}
