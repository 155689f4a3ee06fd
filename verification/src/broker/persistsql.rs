//! The persistent store as a relational database: what is asked of it, and what its
//! answers mean.

use super::persist::PersistedTopic;
use super::persist::PersistedTopicView;
use super::router::SessionId;
use super::router::SessionIdView;
use super::topics::Request;
use super::topics::RequestView;
use super::BrokerError;
use crate::messages::publish;
use crate::messages::MQTTMessagePublish;
use crate::text::appended;
use vstd::prelude::*;
use vstd::slice::slice_to_vec;

verus! {

/// The tables of a new store.
pub const SCHEMA: &'static str = "
            CREATE TABLE sessions (
                id INTEGER NOT NULL PRIMARY KEY,
                name text NOT NULL,
                generation bigint NOT NULL,
                next_mid integer NOT NULL DEFAULT (1)
            );

            CREATE TABLE messages (
                id INTEGER NOT NULL PRIMARY KEY,
                qos smallint NOT NULL,
                topic text NOT NULL,
                payload bytea NOT NULL
            );

            CREATE TABLE topics (
                id INTEGER PRIMARY KEY,
                topic text NOT NULL,
                retained_message_id integer NULL,
                FOREIGN KEY (retained_message_id) REFERENCES messages (id)
            );

            CREATE TABLE subscriptions (
                session_id INTEGER NOT NULL,
                topic_id integer NOT NULL,
                qos smallint NOT NULL,
                FOREIGN KEY (session_id) REFERENCES sessions (id),
                FOREIGN KEY (topic_id) REFERENCES topics (id)
            );

            CREATE TABLE qosin (
                qosin_id INTEGER PRIMARY KEY,
                session_id integer NOT NULL,
                received timestamp NOT NULL DEFAULT CURRENT_TIMESTAMP,
                mid integer NOT NULL,
                FOREIGN KEY (session_id) REFERENCES sessions (id)
            );

            CREATE TABLE qosout (
                qosout_id INTEGER PRIMARY KEY,
                session_id integer NOT NULL,
                message_id integer,
                received timestamp NOT NULL DEFAULT CURRENT_TIMESTAMP,
                type integer NOT NULL,
                mid integer NOT NULL,
                dup boolean NOT NULL DEFAULT(FALSE),
                FOREIGN KEY (session_id) REFERENCES sessions (id),
                FOREIGN KEY (message_id) REFERENCES messages (id)
            );

            CREATE TABLE version (
                version integer NOT NULL
            );

            INSERT INTO version(version) VALUES (1);
            ";

/// The version of a store.
pub const VERSION_QUERY: &'static str = "SELECT * FROM version";

/// All topics.
pub const TOPICS_QUERY: &'static str = "SELECT id,topic,retained_message_id FROM topics";

/// A message.
pub const MESSAGE_QUERY: &'static str = "SELECT id,qos,topic,payload FROM messages WHERE id = :id";

/// The subscriptions to a topic.
pub const SUBSCRIPTIONS_QUERY: &'static str = "SELECT sessions.id, sessions.name, sessions.generation, subscriptions.qos FROM subscriptions
                    INNER JOIN sessions ON sessions.id = subscriptions.session_id
                    WHERE subscriptions.topic_id = :topic_id";

/// A value in a statement.
#[derive(PartialEq, Eq, Debug)]
pub enum SqlValue {
    Int(i32),
    Small(i16),
    Text(String),
    Blob(Vec<u8>),
}

/// A value in a statement.
#[verifier::ext_equal]
pub enum SqlValueView {
    Int(i32),
    Small(i16),
    Text(Seq<char>),
    Blob(Seq<u8>),
}

impl View for SqlValue {
    type V = SqlValueView;

    open spec fn view(&self) -> SqlValueView {
        match *self {
            SqlValue::Int(v) => SqlValueView::Int(v),
            SqlValue::Small(v) => SqlValueView::Small(v),
            SqlValue::Text(s) => SqlValueView::Text(s@),
            SqlValue::Blob(b) => SqlValueView::Blob(b@),
        }
    }
}

/// A statement and its named values.
#[derive(PartialEq, Eq, Debug)]
pub struct Statement {
    pub sql: &'static str,
    pub params: Vec<(&'static str, SqlValue)>,
}

/// A statement and its named values.
#[verifier::ext_equal]
pub struct StatementView {
    pub sql: Seq<char>,
    pub params: Seq<(Seq<char>, SqlValueView)>,
}

impl View for Statement {
    type V = StatementView;

    open spec fn view(&self) -> StatementView {
        StatementView {
            sql: self.sql@,
            params: self.params@.map_values(|p: (&'static str, SqlValue)| (p.0@, p.1@)),
        }
    }
}

/// The first statement for a request.
pub open spec fn statement_for(request: RequestView) -> StatementView {
    match request {
        RequestView::PersistTopic { topic } => StatementView {
            sql: "INSERT INTO topics(topic) VALUES (:topic) RETURNING id"@,
            params: seq![(":topic"@, SqlValueView::Text(topic))],
        },
        RequestView::PersistDeleteTopic { topic_id } => StatementView {
            sql: "DELETE FROM topics WHERE id = :id"@,
            params: seq![(":id"@, SqlValueView::Int(topic_id))],
        },
        RequestView::PersistSubscribe { session_id, topic_id, qos } => StatementView {
            sql: "INSERT INTO subscriptions(session_id, topic_id, qos) VALUES (:session_id, :topic_id, :qos)"@,
            params: seq![
                (":session_id"@, SqlValueView::Int(session_id)),
                (":topic_id"@, SqlValueView::Int(topic_id)),
                (":qos"@, SqlValueView::Small(qos as i16)),
            ],
        },
        RequestView::PersistUpdateSubscribe { session_id, topic_id, qos } => StatementView {
            sql: "UPDATE subscriptions SET qos = :qos WHERE session_id = :session_id AND topic_id = :topic_id"@,
            params: seq![
                (":session_id"@, SqlValueView::Int(session_id)),
                (":topic_id"@, SqlValueView::Int(topic_id)),
                (":qos"@, SqlValueView::Small(qos as i16)),
            ],
        },
        RequestView::PersistUnsubscribe { session_id, topic_id } => StatementView {
            sql: "DELETE FROM subscriptions WHERE session_id = :session_id AND topic_id = :topic_id"@,
            params: seq![
                (":session_id"@, SqlValueView::Int(session_id)),
                (":topic_id"@, SqlValueView::Int(topic_id)),
            ],
        },
        RequestView::PersistRetain { topic_id, message } => StatementView {
            sql: "INSERT INTO messages(qos, topic, payload) VALUES (:qos, :topic, :payload) RETURNING id"@,
            params: seq![
                (":qos"@, SqlValueView::Small(message.qos as i16)),
                (":topic"@, SqlValueView::Text(message.topic)),
                (":payload"@, SqlValueView::Blob(message.message)),
            ],
        },
        RequestView::PersistDeleteRetain { topic_id } => StatementView {
            sql: "SELECT retained_message_id FROM topics WHERE id = :id"@,
            params: seq![(":id"@, SqlValueView::Int(topic_id))],
        },
    }
}

fn one(sql: &'static str, name: &'static str, value: SqlValue) -> (r: Statement)
    ensures
        r@ == (StatementView { sql: sql@, params: seq![(name@, value@)] }),
{
    let mut params: Vec<(&'static str, SqlValue)> = Vec::new();
    params.push((name, value));
    let r = Statement { sql, params };
    assert(r@.params =~= seq![(name@, value@)]);
    r
}

fn two(
    sql: &'static str,
    first: &'static str,
    a: SqlValue,
    second: &'static str,
    b: SqlValue,
) -> (r: Statement)
    ensures
        r@ == (StatementView { sql: sql@, params: seq![(first@, a@), (second@, b@)] }),
{
    let mut params: Vec<(&'static str, SqlValue)> = Vec::new();
    params.push((first, a));
    params.push((second, b));
    let r = Statement { sql, params };
    assert(r@.params =~= seq![(first@, a@), (second@, b@)]);
    r
}

fn three(
    sql: &'static str,
    first: (&'static str, SqlValue),
    second: (&'static str, SqlValue),
    third: (&'static str, SqlValue),
) -> (r: Statement)
    ensures
        r@ == (StatementView {
            sql: sql@,
            params: seq![
                (first.0@, first.1@),
                (second.0@, second.1@),
                (third.0@, third.1@),
            ],
        }),
{
    let mut params: Vec<(&'static str, SqlValue)> = Vec::new();
    params.push(first);
    params.push(second);
    params.push(third);
    let r = Statement { sql, params };
    assert(r@.params =~= seq![
        (first.0@, first.1@),
        (second.0@, second.1@),
        (third.0@, third.1@),
    ]);
    r
}

/// The first statement for a request.
pub fn statement(request: &Request) -> (r: Statement)
    ensures
        r@ == statement_for(request@),
{
    match request {
        Request::PersistTopic { topic } => one(
            "INSERT INTO topics(topic) VALUES (:topic) RETURNING id",
            ":topic",
            SqlValue::Text(topic.clone()),
        ),
        Request::PersistDeleteTopic { topic_id } => one(
            "DELETE FROM topics WHERE id = :id",
            ":id",
            SqlValue::Int(*topic_id),
        ),
        Request::PersistSubscribe { session_id, topic_id, qos } => three(
            "INSERT INTO subscriptions(session_id, topic_id, qos) VALUES (:session_id, :topic_id, :qos)",
            (":session_id", SqlValue::Int(*session_id)),
            (":topic_id", SqlValue::Int(*topic_id)),
            (":qos", SqlValue::Small(*qos as i16)),
        ),
        Request::PersistUpdateSubscribe { session_id, topic_id, qos } => three(
            "UPDATE subscriptions SET qos = :qos WHERE session_id = :session_id AND topic_id = :topic_id",
            (":session_id", SqlValue::Int(*session_id)),
            (":topic_id", SqlValue::Int(*topic_id)),
            (":qos", SqlValue::Small(*qos as i16)),
        ),
        Request::PersistUnsubscribe { session_id, topic_id } => two(
            "DELETE FROM subscriptions WHERE session_id = :session_id AND topic_id = :topic_id",
            ":session_id",
            SqlValue::Int(*session_id),
            ":topic_id",
            SqlValue::Int(*topic_id),
        ),
        Request::PersistRetain { topic_id: _, message } => three(
            "INSERT INTO messages(qos, topic, payload) VALUES (:qos, :topic, :payload) RETURNING id",
            (":qos", SqlValue::Small(message.get_qos() as i16)),
            (":topic", SqlValue::Text(message.get_topic().clone())),
            (":payload", SqlValue::Blob(slice_to_vec(message.get_message().as_slice()))),
        ),
        Request::PersistDeleteRetain { topic_id } => one(
            "SELECT retained_message_id FROM topics WHERE id = :id",
            ":id",
            SqlValue::Int(*topic_id),
        ),
    }
}

fn persist_error(text: &str) -> (r: BrokerError)
    ensures
        r.text() == text@,
{
    BrokerError::PersistError(text.to_owned())
}

/// The text of an error, if there is one.
pub open spec fn fault_text<T>(r: Result<T, BrokerError>) -> Option<Seq<char>> {
    match r {
        Ok(_) => None,
        Err(e) => Some(e.text()),
    }
}

/// Whether a store of some version has to be made; `None` where it cannot be used.
pub open spec fn store_use(version: Option<u32>) -> Option<bool> {
    match version {
        Some(v) => if v == 1 {
            Some(false)
        } else {
            None
        },
        None => Some(true),
    }
}

/// Whether a store has to be made: one of version 1 is used as it is, where there is none
/// one is made, and any other is refused.
pub fn init_persistent_store(version: Option<u32>) -> (create: Result<bool, BrokerError>)
    ensures
        match version {
            Some(v) => if v == 1 {
                create matches Ok(c) && !c
            } else {
                fault_text(create) == Some("Unknown database version"@)
            },
            None => create matches Ok(c) && c,
        },
        match create {
            Ok(c) => store_use(version) == Some(c),
            Err(_) => store_use(version) is None,
        },
{
    match version {
        Some(1) => Ok(false),
        None => Ok(true),
        Some(_) => Err(persist_error("Unknown database version")),
    }
}

/// The topic in a row: its key, its name and the key of its retained message.
pub open spec fn topic_in_row(
    id: i32,
    name: Seq<char>,
    retained: Option<i32>,
) -> PersistedTopicView {
    PersistedTopicView { topic_id: id, topic_name: name, retained_message_id: retained }
}

/// The topic in a row.
pub fn topic_from_row(
    topic_id: i32,
    topic_name: String,
    retained_message_id: Option<i32>,
) -> (r: PersistedTopic)
    ensures
        r.topic_id == topic_id,
        r.topic_name@ == topic_name@,
        r.retained_message_id == retained_message_id,
        r@ == topic_in_row(topic_id, topic_name@, retained_message_id),
{
    PersistedTopic { topic_id, topic_name, retained_message_id }
}

/// The message in a row: its quality of service, its topic and its bytes.
pub open spec fn message_in_row(qos: i16, topic: Seq<char>, payload: Seq<u8>) -> publish::PublishView {
    publish::PublishView {
        identifier: 0,
        topic,
        message: payload,
        retain: false,
        dup: false,
        qos: qos as u8,
    }
}

/// The message in a row.
pub fn message_from_row(qos: i16, topic: String, payload: Vec<u8>) -> (r: MQTTMessagePublish)
    ensures
        r@ == (publish::PublishView {
            topic: topic@,
            qos: qos as u8,
            message: payload@,
            ..publish::publish_default()
        }),
        r@ == message_in_row(qos, topic@, payload@),
{
    let mut message = MQTTMessagePublish::new();
    message.set_topic(topic);
    message.set_qos(
        #[verifier::truncate]
        (qos as u8),
    );
    message.set_message(payload);
    message
}

/// The subscription in a row: the session and the quality of service.
pub open spec fn subscription_in_row(
    id: i32,
    name: Seq<char>,
    generation: i64,
    qos: i16,
) -> (SessionIdView, u8) {
    (SessionIdView { session: name, internal_id: id, session_generation: generation }, qos as u8)
}

/// The subscription in a row.
pub fn subscription_from_row(
    session_internal_id: i32,
    session_name: String,
    session_generation: i64,
    qos: i16,
) -> (r: (SessionId, u8))
    ensures
        r.0@ == (SessionIdView {
            session: session_name@,
            internal_id: session_internal_id,
            session_generation,
        }),
        r.1 == qos as u8,
        (r.0@, r.1) == subscription_in_row(
            session_internal_id,
            session_name@,
            session_generation,
            qos,
        ),
{
    (
        SessionId {
            session: session_name,
            internal_id: session_internal_id,
            session_generation,
        },
        #[verifier::truncate]
        (qos as u8),
    )
}

/// A retained message is read back with the quality of service it was stored with.
pub proof fn law_qos_in_a_row(qos: u8)
    ensures
        (qos as i16) as u8 == qos,
{
}

/// The answer to a request for a topic: the key that the database gave it, or what the
/// database says.
pub fn persist_topic_outcome(row: Result<i32, String>) -> (r: Result<i32, BrokerError>)
    ensures
        match row {
            Ok(topic_id) => r == Ok::<i32, BrokerError>(topic_id),
            Err(reason) => fault_text(r) == Some("Persist topic failed: "@ + reason@),
        },
{
    match row {
        Ok(topic_id) => Ok(topic_id),
        Err(reason) => Err(BrokerError::PersistError(appended("Persist topic failed: ", &reason))),
    }
}

/// Whether a request takes one statement without a result.
pub open spec fn is_update(request: RequestView) -> bool {
    request is PersistDeleteTopic || request is PersistSubscribe
        || request is PersistUpdateSubscribe || request is PersistUnsubscribe
}

/// The error for a request of one statement that failed.
pub open spec fn update_fault(request: RequestView) -> Seq<char> {
    match request {
        RequestView::PersistDeleteTopic { .. } => "Persist delete topic failed"@,
        RequestView::PersistSubscribe { .. } => "Persist subscribe failed"@,
        RequestView::PersistUpdateSubscribe { .. } => "Update subscribe failed"@,
        _ => "Unsubscribe failed"@,
    }
}

/// The answer to a request of one statement: the key of the topic where one is ended, 0
/// otherwise.
pub fn update_outcome(request: &Request, done: bool) -> (r: Result<i32, BrokerError>)
    requires
        is_update(request@),
    ensures
        done ==> r == Ok::<i32, BrokerError>(
            match request@ {
                RequestView::PersistDeleteTopic { topic_id } => topic_id,
                _ => 0,
            },
        ),
        !done ==> fault_text(r) == Some(update_fault(request@)),
{
    if done {
        return match request {
            Request::PersistDeleteTopic { topic_id } => Ok(*topic_id),
            _ => Ok(0),
        };
    }
    match request {
        Request::PersistDeleteTopic { .. } => Err(persist_error("Persist delete topic failed")),
        Request::PersistSubscribe { .. } => Err(persist_error("Persist subscribe failed")),
        Request::PersistUpdateSubscribe { .. } => Err(persist_error("Update subscribe failed")),
        _ => Err(persist_error("Unsubscribe failed")),
    }
}

/// The statement that ties a stored message to its topic.
pub open spec fn tie_sql(topic_id: i32, message_id: i32) -> StatementView {
    StatementView {
        sql: "UPDATE topics SET retained_message_id = :retained_message_id WHERE id = :id"@,
        params: seq![
            (":retained_message_id"@, SqlValueView::Int(message_id)),
            (":id"@, SqlValueView::Int(topic_id)),
        ],
    }
}

/// Once a message to be retained is stored under a key, the statement that ties it to its
/// topic.
pub fn persist_retain_stored(topic_id: i32, message_id: Option<i32>) -> (r: Result<
    Statement,
    BrokerError,
>)
    ensures
        match message_id {
            Some(id) => r matches Ok(s) && s@ == tie_sql(topic_id, id),
            None => fault_text(r) == Some("Message retain failed"@),
        },
{
    match message_id {
        Some(id) => Ok(
            two(
                "UPDATE topics SET retained_message_id = :retained_message_id WHERE id = :id",
                ":retained_message_id",
                SqlValue::Int(id),
                ":id",
                SqlValue::Int(topic_id),
            ),
        ),
        None => Err(persist_error("Message retain failed")),
    }
}

/// The answer once a retained message is tied to its topic: the key of the message.
pub fn persist_retain_tied(message_id: i32, done: bool) -> (r: Result<i32, BrokerError>)
    ensures
        done ==> r == Ok::<i32, BrokerError>(message_id),
        !done ==> fault_text(r) == Some("Message retain failed"@),
{
    if done {
        Ok(message_id)
    } else {
        Err(persist_error("Message retain failed"))
    }
}

/// Where the end of a retained message stands: in one transaction its key is read, it is
/// untied from its topic, it is deleted if there was one, and the transaction is
/// committed.
#[derive(Copy, Clone, PartialEq, Eq, Debug, Structural)]
pub enum DeleteRetain {
    /// The transaction is to be started.
    Begin,
    /// The key of the message is read.
    Select,
    /// The message is untied from the topic.
    Untie { retained: Option<i32> },
    /// The message is deleted.
    Delete { message_id: i32 },
    /// The transaction is committed.
    Commit,
    /// All is done.
    Finished,
}

/// The error where a step fails.
pub open spec fn delete_retain_fault(at: DeleteRetain) -> Seq<char> {
    match at {
        DeleteRetain::Begin => "Delete retained message unable to start transaction"@,
        DeleteRetain::Select => "Delete retained message getting message id failed"@,
        DeleteRetain::Untie { .. } => "Delete retained message from topic failed"@,
        DeleteRetain::Delete { .. } => "Delete retained message failed"@,
        _ => "Delete retained message commit failed"@,
    }
}

/// The step after one that went well; `selected` is what the key was read as.
pub open spec fn delete_retain_after(at: DeleteRetain, selected: Option<i32>) -> DeleteRetain {
    match at {
        DeleteRetain::Begin => DeleteRetain::Select,
        DeleteRetain::Select => DeleteRetain::Untie { retained: selected },
        DeleteRetain::Untie { retained } => match retained {
            Some(message_id) => DeleteRetain::Delete { message_id },
            None => DeleteRetain::Commit,
        },
        DeleteRetain::Delete { .. } => DeleteRetain::Commit,
        _ => DeleteRetain::Finished,
    }
}

/// Goes on with the end of a retained message. A step that fails ends it.
pub fn persist_delete_retain(at: DeleteRetain, done: bool, selected: Option<i32>) -> (r: Result<
    DeleteRetain,
    BrokerError,
>)
    ensures
        done ==> r == Ok::<DeleteRetain, BrokerError>(delete_retain_after(at, selected)),
        !done ==> fault_text(r) == Some(delete_retain_fault(at)),
{
    if !done {
        return match at {
            DeleteRetain::Begin => Err(
                persist_error("Delete retained message unable to start transaction"),
            ),
            DeleteRetain::Select => Err(
                persist_error("Delete retained message getting message id failed"),
            ),
            DeleteRetain::Untie { .. } => Err(
                persist_error("Delete retained message from topic failed"),
            ),
            DeleteRetain::Delete { .. } => Err(persist_error("Delete retained message failed")),
            _ => Err(persist_error("Delete retained message commit failed")),
        };
    }
    match at {
        DeleteRetain::Begin => Ok(DeleteRetain::Select),
        DeleteRetain::Select => Ok(DeleteRetain::Untie { retained: selected }),
        DeleteRetain::Untie { retained } => match retained {
            Some(message_id) => Ok(DeleteRetain::Delete { message_id }),
            None => Ok(DeleteRetain::Commit),
        },
        DeleteRetain::Delete { .. } => Ok(DeleteRetain::Commit),
        _ => Ok(DeleteRetain::Finished),
    }
}

/// The statement of a step, where it has one.
pub open spec fn delete_retain_sql(at: DeleteRetain, topic_id: i32) -> Option<StatementView> {
    match at {
        DeleteRetain::Select => Some(
            statement_for(RequestView::PersistDeleteRetain { topic_id }),
        ),
        DeleteRetain::Untie { .. } => Some(
            StatementView {
                sql: "UPDATE topics SET retained_message_id = NULL WHERE id = :id"@,
                params: seq![(":id"@, SqlValueView::Int(topic_id))],
            },
        ),
        DeleteRetain::Delete { message_id } => Some(
            StatementView {
                sql: "DELETE FROM messages WHERE id = :id"@,
                params: seq![(":id"@, SqlValueView::Int(message_id))],
            },
        ),
        _ => None,
    }
}

/// The statement of a step, where it has one.
pub fn delete_retain_statement(at: DeleteRetain, topic_id: i32) -> (r: Option<Statement>)
    ensures
        match r {
            Some(s) => delete_retain_sql(at, topic_id) == Some(s@),
            None => delete_retain_sql(at, topic_id) is None,
        },
{
    match at {
        DeleteRetain::Select => Some(statement(&Request::PersistDeleteRetain { topic_id })),
        DeleteRetain::Untie { .. } => Some(
            one(
                "UPDATE topics SET retained_message_id = NULL WHERE id = :id",
                ":id",
                SqlValue::Int(topic_id),
            ),
        ),
        DeleteRetain::Delete { message_id } => Some(
            one("DELETE FROM messages WHERE id = :id", ":id", SqlValue::Int(message_id)),
        ),
        _ => None,
    }
}

/// Where every step goes well, a message that was retained is untied and deleted before
/// the transaction is committed; where none was, nothing is deleted.
pub proof fn law_delete_retain(selected: Option<i32>)
    ensures
        ({
            let select = delete_retain_after(DeleteRetain::Begin, None);
            let untie = delete_retain_after(select, selected);
            let next = delete_retain_after(untie, None);
            &&& select == DeleteRetain::Select
            &&& untie == (DeleteRetain::Untie { retained: selected })
            &&& match selected {
                Some(message_id) => next == (DeleteRetain::Delete { message_id })
                    && delete_retain_after(next, None) == DeleteRetain::Commit,
                None => next == DeleteRetain::Commit,
            }
            &&& delete_retain_after(DeleteRetain::Commit, None) == DeleteRetain::Finished
        }),
{
}

/// Only a store without a version is made anew, and only one of version 1 is used as it is.
pub proof fn law_store_versions(version: Option<u32>)
    ensures
        store_use(version) == Some(true) <==> version is None,
        store_use(version) == Some(false) <==> version == Some(1u32),
        store_use(version) is None <==> version is Some && version != Some(1u32),
{
}

} // verus!
